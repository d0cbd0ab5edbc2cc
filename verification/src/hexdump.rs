//! Hex dump rendering for rejected blocks.
//!
//! A rejected block is preserved in the diagnostic log as an
//! offset-prefixed hex dump, 64 bytes per row: each row starts on a new
//! line with `0x`, the row's offset in at least five hex digits, a colon
//! and a space, and every byte follows as two hex digits and a space.

use vstd::prelude::*;

use crate::records::NL;

verus! {

/// The lower-case hex digit of a value below 16.
pub open spec fn hex_digit(v: int) -> u8 {
    if v < 10 {
        (48 + v) as u8
    } else {
        (87 + v) as u8
    }
}

/// The hex digits of `v`, zero-padded on the left to at least `width`
/// digits, most significant first.
pub open spec fn hex_str(v: int, width: int) -> Seq<u8>
    decreases v, width,
{
    if v < 0 {
        Seq::empty()
    } else if v < 16 && width <= 1 {
        seq![hex_digit(v)]
    } else {
        hex_str(v / 16, width - 1) + seq![hex_digit(v % 16)]
    }
}

/// The two hex digits of one byte.
pub open spec fn hex_byte(b: u8) -> Seq<u8> {
    seq![hex_digit(b as int / 16), hex_digit(b as int % 16)]
}

/// The row prefix for offset `i`: a line break, `0x`, the offset in at
/// least five hex digits, a colon and a space.
pub open spec fn row_prefix(i: int) -> Seq<u8> {
    seq![NL, 48u8, 120u8] + hex_str(i, 5) + seq![58u8, 32u8]
}

/// The dump of `s` from index `i` on: a row prefix at every multiple of
/// 64, then each byte as two hex digits and a space.
pub open spec fn dump_from(s: Seq<u8>, i: int) -> Seq<u8>
    decreases s.len() - i,
{
    if i < 0 || i >= s.len() {
        Seq::empty()
    } else {
        (if i % 64 == 0 {
            row_prefix(i)
        } else {
            Seq::empty()
        }) + hex_byte(s[i]) + seq![32u8] + dump_from(s, i + 1)
    }
}

/// The whole dump of a block.
pub open spec fn dump_spec(s: Seq<u8>) -> Seq<u8> {
    dump_from(s, 0)
}

proof fn lemma_hex_str_width(v: int, a: int, b: int)
    requires
        a <= 1,
        b <= 1,
    ensures
        hex_str(v, a) == hex_str(v, b),
    decreases (if v < 0 {
        0
    } else {
        v
    }),
{
    if v >= 16 {
        lemma_hex_str_width(v / 16, a - 1, b - 1);
    }
}

fn hex_digit_exec(v: u8) -> (r: u8)
    requires
        v < 16,
    ensures
        r == hex_digit(v as int),
{
    if v < 10 {
        48 + v
    } else {
        87 + v
    }
}

fn hex_str_exec(v: usize, width: usize) -> (r: Vec<u8>)
    ensures
        r@ == hex_str(v as int, width as int),
    decreases v, width,
{
    if v < 16 && width <= 1 {
        let mut r: Vec<u8> = Vec::new();
        r.push(hex_digit_exec(v as u8));
        proof {
            assert(r@ =~= hex_str(v as int, width as int));
        }
        r
    } else {
        let w: usize = if width == 0 {
            0
        } else {
            width - 1
        };
        let mut r = hex_str_exec(v / 16, w);
        r.push(hex_digit_exec((v % 16) as u8));
        proof {
            if width == 0 {
                lemma_hex_str_width((v as int) / 16, -1, 0);
            }
            assert(hex_str((v as int) / 16, width - 1) == hex_str((v as int) / 16, w as int));
            assert(r@ =~= hex_str((v as int) / 16, width - 1) + seq![hex_digit((v as int) % 16)]);
        }
        r
    }
}

/// Render a block as an offset-prefixed hex dump, 64 bytes per row; see
/// [`dump_spec`].
pub fn hex_dump(block: &Vec<u8>) -> (r: Vec<u8>)
    ensures
        r@ == dump_spec(block@),
{
    let ghost s = block@;
    let n: usize = block.len();
    let mut out: Vec<u8> = Vec::new();
    let mut i: usize = 0;
    while i < n
        invariant
            i <= n,
            n == s.len(),
            s == block@,
            dump_spec(s) == out@ + dump_from(s, i as int),
        decreases n - i,
    {
        let ghost out0 = out@;
        if i % 64 == 0 {
            out.push(NL);
            out.push(48);
            out.push(120);
            let mut offset = hex_str_exec(i, 5);
            out.append(&mut offset);
            out.push(58);
            out.push(32);
            proof {
                assert(out@ =~= out0 + row_prefix(i as int));
            }
        }
        let ghost out1 = out@;
        let b = block[i];
        out.push(hex_digit_exec(b / 16));
        out.push(hex_digit_exec(b % 16));
        out.push(32);
        proof {
            assert(out@ =~= out1 + hex_byte(s[i as int]) + seq![32u8]);
            assert(out@ + dump_from(s, i + 1) =~= out0 + ((if i as int % 64 == 0 {
                row_prefix(i as int)
            } else {
                Seq::<u8>::empty()
            }) + hex_byte(s[i as int]) + seq![32u8] + dump_from(s, i + 1)));
        }
        i += 1;
    }
    proof {
        assert(out@ =~= dump_spec(s));
    }
    out
}

} // verus!
