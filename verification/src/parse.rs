//! C-style radix-prefixed number parsing.
//!
//! Numeric fields of the device's register table are written in C-style
//! radix notation: `0x`/`0X` hexadecimal, `0b`/`0B` binary, a leading zero
//! for octal, plain digits for decimal.

use vstd::prelude::*;
use vstd::slice::slice_subrange;

verus! {

/// ASCII code of `'0'`.
pub const CH_0: u8 = 48;

/// ASCII code of `'9'`.
pub const CH_9: u8 = 57;

/// ASCII codes of `'a'`, `'z'`, `'A'`, `'Z'`.
pub const CH_LA: u8 = 97;

/// ASCII code of `'z'`.
pub const CH_LZ: u8 = 122;

/// ASCII code of `'A'`.
pub const CH_UA: u8 = 65;

/// ASCII code of `'Z'`.
pub const CH_UZ: u8 = 90;

/// ASCII code of `'x'`.
pub const CH_LX: u8 = 120;

/// ASCII code of `'X'`.
pub const CH_UX: u8 = 88;

/// ASCII code of `'b'`.
pub const CH_LB: u8 = 98;

/// ASCII code of `'B'`.
pub const CH_UB: u8 = 66;


/// `s` with every leading `'0'` removed.
pub open spec fn strip_zeros(s: Seq<u8>) -> Seq<u8>
    decreases s.len(),
{
    if s.len() > 0 && s[0] == CH_0 {
        strip_zeros(s.skip(1))
    } else {
        s
    }
}

/// Split a radix-prefixed numeral into its digit part and its base:
/// `0x`/`0X` gives base 16, `0b`/`0B` base 2, a leading zero base 8 (with
/// all leading zeros stripped), anything else base 10.
pub open spec fn base_split(s: Seq<u8>) -> (Seq<u8>, int) {
    if s.len() >= 2 && s[0] == CH_0 && (s[1] == CH_LX || s[1] == CH_UX) {
        (s.skip(2), 16)
    } else if s.len() >= 2 && s[0] == CH_0 && (s[1] == CH_LB || s[1] == CH_UB) {
        (s.skip(2), 2)
    } else if s.len() >= 2 && s[0] == CH_0 {
        (strip_zeros(s), 8)
    } else {
        (s, 10)
    }
}

/// Numeric value of one digit character; digits beyond base 36 do not
/// exist, so anything else maps to a sentinel that no base accepts.
pub open spec fn digit_val(c: u8) -> int {
    if CH_0 <= c <= CH_9 {
        c - CH_0
    } else if CH_LA <= c <= CH_LZ {
        c - CH_LA + 10
    } else if CH_UA <= c <= CH_UZ {
        c - CH_UA + 10
    } else {
        99
    }
}

/// Whether `c` is a valid digit in the given base.
pub open spec fn is_digit(c: u8, base: int) -> bool {
    digit_val(c) < base
}

/// Whether every byte of `s` is a valid digit in the given base.
pub open spec fn all_digits(s: Seq<u8>, base: int) -> bool {
    forall|i: int| 0 <= i < s.len() ==> is_digit(#[trigger] s[i], base)
}

/// The numeric value of a digit string, most significant digit first.
pub open spec fn num_val(s: Seq<u8>, base: int) -> int
    decreases s.len(),
{
    if s.len() == 0 {
        0
    } else {
        num_val(s.drop_last(), base) * base + digit_val(s.last())
    }
}

/// The value of a radix-prefixed numeral, when it has at least one digit,
/// all digits are valid for its base, and the value fits in 32 bits.
pub open spec fn parse_num(s: Seq<u8>) -> Option<u32> {
    let (digits, base) = base_split(s);
    if digits.len() > 0 && all_digits(digits, base) && num_val(digits, base) <= u32::MAX {
        Some(num_val(digits, base) as u32)
    } else {
        None
    }
}

proof fn lemma_strip_zeros_at(s: Seq<u8>, j: int)
    requires
        0 <= j <= s.len(),
        forall|k: int| 0 <= k < j ==> s[k] == CH_0,
        j == s.len() || s[j] != CH_0,
    ensures
        strip_zeros(s) == s.skip(j),
    decreases j,
{
    if j == 0 {
        assert(s.skip(0) =~= s);
    } else {
        assert(s[0] == CH_0);
        lemma_strip_zeros_at(s.skip(1), j - 1);
        assert(s.skip(1).skip(j - 1) =~= s.skip(j));
    }
}

proof fn lemma_num_val_nonneg(s: Seq<u8>, base: int)
    requires
        base >= 1,
    ensures
        num_val(s, base) >= 0,
    decreases s.len(),
{
    if s.len() > 0 {
        lemma_num_val_nonneg(s.drop_last(), base);
        assert(num_val(s.drop_last(), base) * base >= 0) by (nonlinear_arith)
            requires
                num_val(s.drop_last(), base) >= 0,
                base >= 1,
        ;
    }
}

proof fn lemma_num_val_extend(s: Seq<u8>, base: int, i: int, j: int)
    requires
        base >= 1,
        0 <= i <= j <= s.len(),
    ensures
        num_val(s.take(j), base) >= num_val(s.take(i), base),
    decreases j - i,
{
    if j > i {
        lemma_num_val_extend(s, base, i, j - 1);
        assert(s.take(j).drop_last() =~= s.take(j - 1));
        lemma_num_val_nonneg(s.take(j - 1), base);
        let v = num_val(s.take(j - 1), base);
        assert(v * base >= v) by (nonlinear_arith)
            requires
                v >= 0,
                base >= 1,
        ;
    }
}

/// Strip the radix prefix of a C-style numeral and report its base; see
/// [`base_split`].
pub fn get_base<'a>(value: &'a [u8]) -> (r: (&'a [u8], u32))
    ensures
        r.0@ == base_split(value@).0,
        r.1 == base_split(value@).1,
{
    let n: usize = value.len();
    if n >= 2 && value[0] == CH_0 && (value[1] == CH_LX || value[1] == CH_UX) {
        let rest = slice_subrange(value, 2, n);
        proof {
            assert(value@.skip(2) =~= value@.subrange(2, n as int));
        }
        (rest, 16)
    } else if n >= 2 && value[0] == CH_0 && (value[1] == CH_LB || value[1] == CH_UB) {
        let rest = slice_subrange(value, 2, n);
        proof {
            assert(value@.skip(2) =~= value@.subrange(2, n as int));
        }
        (rest, 2)
    } else if n >= 2 && value[0] == CH_0 {
        let mut j: usize = 0;
        while j < n && value[j] == CH_0
            invariant
                j <= n,
                n == value@.len(),
                forall|k: int| 0 <= k < j ==> value@[k] == CH_0,
            decreases n - j,
        {
            j += 1;
        }
        proof {
            lemma_strip_zeros_at(value@, j as int);
            assert(value@.skip(j as int) =~= value@.subrange(j as int, n as int));
        }
        (slice_subrange(value, j, n), 8)
    } else {
        (value, 10)
    }
}

/// Parse a C-style radix-prefixed numeral into a 32-bit value; see
/// [`parse_num`]. Returns `None` when no digits follow the prefix, a
/// digit is invalid for the base, or the value does not fit.
pub fn parse_u32(value: &[u8]) -> (r: Option<u32>)
    ensures
        r == parse_num(value@),
{
    let (digits, base) = get_base(value);
    let n: usize = digits.len();
    if n == 0 {
        return None;
    }
    let mut acc: u64 = 0;
    let mut i: usize = 0;
    while i < n
        invariant
            i <= n,
            n == digits@.len(),
            n > 0,
            2 <= base <= 16,
            digits@ == base_split(value@).0,
            base == base_split(value@).1,
            forall|j: int| 0 <= j < i ==> is_digit(#[trigger] digits@[j], base as int),
            acc == num_val(digits@.take(i as int), base as int),
            acc <= u32::MAX,
        decreases n - i,
    {
        let c = digits[i];
        let d: u8 = if c >= CH_0 && c <= CH_9 {
            c - CH_0
        } else if c >= CH_LA && c <= CH_LZ {
            c - CH_LA + 10
        } else if c >= CH_UA && c <= CH_UZ {
            c - CH_UA + 10
        } else {
            99
        };
        if (d as u32) >= base {
            assert(!is_digit(digits@[i as int], base as int));
            return None;
        }
        proof {
            assert((acc as int) * (base as int) + 15 < 0x1_0000_0000_0000_0000) by (nonlinear_arith)
                requires
                    0 <= acc <= u32::MAX,
                    0 <= base <= 16,
            ;
        }
        acc = acc * (base as u64) + (d as u64);
        proof {
            assert(digits@.take(i + 1).drop_last() =~= digits@.take(i as int));
            assert(digits@.take(i + 1).last() == digits@[i as int]);
        }
        if acc > (u32::MAX as u64) {
            proof {
                lemma_num_val_extend(digits@, base as int, i + 1, n as int);
                assert(digits@.take(n as int) =~= digits@);
            }
            return None;
        }
        i += 1;
    }
    proof {
        assert(digits@.take(n as int) =~= digits@);
    }
    Some(acc as u32)
}

} // verus!
