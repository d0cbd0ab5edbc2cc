//! Byte-for-byte block comparison and duplicate detection.
//!
//! A block that is exactly equal to one of the two most recently read
//! blocks is symptomatic of a stalled device buffer: the device has
//! re-delivered a buffer without refilling it.

use vstd::prelude::*;

verus! {

/// A block counts as a duplicate exactly when it equals one of the two
/// retained recent blocks, byte for byte.
pub open spec fn is_dup(block: Seq<u8>, recent_a: Seq<u8>, recent_b: Seq<u8>) -> bool {
    block == recent_a || block == recent_b
}

/// Exact equality of two byte vectors: equal length and equal at every index.
pub fn do_vecs_match(a: &Vec<u8>, b: &Vec<u8>) -> (r: bool)
    ensures
        r == (a@ == b@),
{
    if a.len() != b.len() {
        assert(a@ != b@);
        return false;
    }
    let n: usize = a.len();
    let mut i: usize = 0;
    while i < n
        invariant
            n == a@.len(),
            n == b@.len(),
            i <= n,
            forall|j: int| 0 <= j < i ==> a@[j] == b@[j],
        decreases n - i,
    {
        if a[i] != b[i] {
            assert(a@ != b@);
            return false;
        }
        i += 1;
    }
    assert(a@ =~= b@);
    true
}

/// A block is a duplicate when it is byte-for-byte identical to either of
/// the two retained recent blocks. A partial-length match never counts.
pub fn is_duplicate(block: &Vec<u8>, recent_a: &Vec<u8>, recent_b: &Vec<u8>) -> (r: bool)
    ensures
        r == is_dup(block@, recent_a@, recent_b@),
{
    do_vecs_match(block, recent_a) || do_vecs_match(block, recent_b)
}

/// Law: any nonempty block, standing in either recent slot, flags as a
/// duplicate of itself.
pub proof fn lemma_duplicate_of_self(x: Seq<u8>, y: Seq<u8>)
    requires
        x.len() > 0,
    ensures
        is_dup(x, x, y),
        is_dup(x, y, x),
{
}

/// Law: a block that differs from both recent slots never flags; in
/// particular, pairwise-distinct equal-length blocks are no duplicates.
pub proof fn lemma_distinct_not_duplicate(x: Seq<u8>, y: Seq<u8>, z: Seq<u8>)
    requires
        x.len() == y.len(),
        x.len() == z.len(),
        x != y,
        x != z,
        y != z,
    ensures
        !is_dup(x, y, z),
{
}

} // verus!
