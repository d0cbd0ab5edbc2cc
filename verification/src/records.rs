//! Byte-level record utilities for the device's register table.
//!
//! The table is a sequence of newline-separated records whose fields are
//! comma-delimited. This module gives the splitting, ASCII case folding
//! and decimal rendering that the table parser builds on, each proved
//! against a sequence-level model.

use vstd::prelude::*;
use vstd::slice::slice_subrange;
use vstd::slice::slice_to_vec;

verus! {

/// ASCII line feed.
pub const NL: u8 = 10;

/// ASCII carriage return.
pub const CR: u8 = 13;

/// ASCII comma.
pub const COMMA: u8 = 44;

/// The first index at or after `i` holding `sep`, or the length of `s`
/// when no such index exists.
pub open spec fn sep_end(s: Seq<u8>, sep: u8, i: int) -> int
    decreases s.len() - i,
{
    if i < 0 || i >= s.len() {
        s.len() as int
    } else if s[i] == sep {
        i
    } else {
        sep_end(s, sep, i + 1)
    }
}

pub proof fn lemma_sep_end_bounds(s: Seq<u8>, sep: u8, i: int)
    requires
        0 <= i <= s.len(),
    ensures
        i <= sep_end(s, sep, i) <= s.len(),
        sep_end(s, sep, i) < s.len() ==> s[sep_end(s, sep, i)] == sep,
        forall|k: int| i <= k < sep_end(s, sep, i) ==> s[k] != sep,
    decreases s.len() - i,
{
    if i < s.len() && s[i] != sep {
        lemma_sep_end_bounds(s, sep, i + 1);
    }
}

/// The pieces of `s` from index `i` on, split at every `sep`; one piece
/// more than there are separators left.
pub open spec fn split_at(s: Seq<u8>, sep: u8, i: int) -> Seq<Seq<u8>>
    decreases s.len() - i,
    via split_at_dec
{
    if i < 0 {
        Seq::empty()
    } else {
        let j = sep_end(s, sep, i);
        if j >= s.len() {
            seq![s.subrange(i, s.len() as int)]
        } else {
            seq![s.subrange(i, j)] + split_at(s, sep, j + 1)
        }
    }
}

#[via_fn]
proof fn split_at_dec(s: Seq<u8>, sep: u8, i: int) {
    if 0 <= i <= s.len() {
        lemma_sep_end_bounds(s, sep, i);
    }
}

/// `s` split at every `sep`: the usual field decomposition, where `n`
/// separators delimit `n + 1` pieces, possibly empty.
pub open spec fn split_bytes(s: Seq<u8>, sep: u8) -> Seq<Seq<u8>> {
    split_at(s, sep, 0)
}

pub proof fn lemma_split_at_len(s: Seq<u8>, sep: u8, i: int)
    requires
        0 <= i <= s.len(),
    ensures
        split_at(s, sep, i).len() >= 1,
{
    lemma_sep_end_bounds(s, sep, i);
}

/// The byte sequences a vector of byte vectors holds.
pub open spec fn pieces_view(v: Seq<Vec<u8>>) -> Seq<Seq<u8>> {
    v.map_values(|p: Vec<u8>| p@)
}

/// Split a byte slice at every occurrence of `sep`; the executable
/// counterpart of [`split_bytes`].
pub fn split_exec(s: &[u8], sep: u8) -> (r: Vec<Vec<u8>>)
    ensures
        pieces_view(r@) == split_bytes(s@, sep),
{
    let n: usize = s.len();
    let mut pieces: Vec<Vec<u8>> = Vec::new();
    let mut i: usize = 0;
    loop
        invariant_except_break
            0 <= i <= n,
            n == s@.len(),
            split_bytes(s@, sep) == pieces_view(pieces@) + split_at(s@, sep, i as int),
        ensures
            pieces_view(pieces@) == split_bytes(s@, sep),
        decreases n - i,
    {
        let mut j: usize = i;
        while j < n && s[j] != sep
            invariant
                i <= j <= n,
                n == s@.len(),
                forall|k: int| i <= k < j ==> s@[k] != sep,
            decreases n - j,
        {
            j += 1;
        }
        proof {
            lemma_sep_end_bounds(s@, sep, i as int);
            assert(j == sep_end(s@, sep, i as int)) by {
                if (j as int) < sep_end(s@, sep, i as int) {
                    assert(s@[j as int] != sep);
                } else if (j as int) > sep_end(s@, sep, i as int) {
                    assert(s@[sep_end(s@, sep, i as int)] == sep);
                }
            }
        }
        let piece = slice_to_vec(slice_subrange(s, i, j));
        if j == n {
            proof {
                assert(pieces_view(pieces@.push(piece)) =~= pieces_view(pieces@).push(piece@));
                assert(split_at(s@, sep, i as int) =~= seq![piece@]);
                assert(pieces_view(pieces@).push(piece@) =~= pieces_view(pieces@) + seq![piece@]);
            }
            pieces.push(piece);
            break ;
        }
        proof {
            assert(split_at(s@, sep, i as int) == seq![piece@] + split_at(s@, sep, j + 1));
            assert(pieces_view(pieces@.push(piece)) =~= pieces_view(pieces@).push(piece@));
            assert(pieces_view(pieces@).push(piece@) + split_at(s@, sep, j + 1) =~= pieces_view(
                pieces@,
            ) + (seq![piece@] + split_at(s@, sep, j + 1)));
        }
        pieces.push(piece);
        i = j + 1;
    }
    pieces
}

/// ASCII case folding of one byte: upper-case letters move to lower
/// case, everything else is untouched.
pub open spec fn lower_byte(c: u8) -> u8 {
    if 65 <= c <= 90 {
        (c + 32) as u8
    } else {
        c
    }
}

/// ASCII case folding of a byte string.
pub open spec fn lower(s: Seq<u8>) -> Seq<u8> {
    Seq::new(s.len(), |i: int| lower_byte(s[i]))
}

/// Fold a byte string to lower case; the executable counterpart of
/// [`lower`].
pub fn ascii_lower(s: &[u8]) -> (r: Vec<u8>)
    ensures
        r@ == lower(s@),
{
    let n: usize = s.len();
    let mut out: Vec<u8> = Vec::new();
    let mut i: usize = 0;
    while i < n
        invariant
            i <= n,
            n == s@.len(),
            out@.len() == i,
            forall|k: int| 0 <= k < i ==> out@[k] == lower_byte(s@[k]),
        decreases n - i,
    {
        let c = s[i];
        if c >= 65 && c <= 90 {
            out.push(c + 32);
        } else {
            out.push(c);
        }
        i += 1;
    }
    proof {
        assert(out@ =~= lower(s@));
    }
    out
}

/// The decimal digits of a non-negative number, most significant first.
pub open spec fn dec_str(v: int) -> Seq<u8>
    decreases v,
{
    if v < 0 {
        Seq::empty()
    } else if v < 10 {
        seq![(48 + v) as u8]
    } else {
        dec_str(v / 10) + seq![(48 + v % 10) as u8]
    }
}

/// Render a number in decimal; the executable counterpart of
/// [`dec_str`].
pub fn dec_str_exec(v: u32) -> (r: Vec<u8>)
    ensures
        r@ == dec_str(v as int),
    decreases v,
{
    if v < 10 {
        let mut r: Vec<u8> = Vec::new();
        r.push(48 + (v as u8));
        proof {
            assert(r@ =~= dec_str(v as int));
        }
        r
    } else {
        let mut r = dec_str_exec(v / 10);
        r.push(48 + ((v % 10) as u8));
        proof {
            assert(r@ =~= dec_str((v as int) / 10) + seq![(48 + (v as int) % 10) as u8]);
        }
        r
    }
}

/// Exact equality of two byte slices.
pub fn slice_matches(a: &[u8], b: &[u8]) -> (r: bool)
    ensures
        r == (a@ == b@),
{
    if a.len() != b.len() {
        assert(a@ != b@);
        return false;
    }
    let n: usize = a.len();
    let mut i: usize = 0;
    while i < n
        invariant
            n == a@.len(),
            n == b@.len(),
            i <= n,
            forall|j: int| 0 <= j < i ==> a@[j] == b@[j],
        decreases n - i,
    {
        if a[i] != b[i] {
            assert(a@ != b@);
            return false;
        }
        i += 1;
    }
    assert(a@ =~= b@);
    true
}

} // verus!
