//! Block quality screening.
//!
//! A raw block read over the link is screened with two heuristics before it
//! is accepted: a byte-value histogram (a spike far above the uniform
//! expectation means the link is stuck emitting a constant or near-constant
//! pattern) and a longest-run check (a long run of one byte value is a
//! stuck-link symptom of its own). Both thresholds are empirical tuning
//! constants and are exposed as parameters.

use vstd::prelude::*;

verus! {

/// Default histogram threshold factor: reject when the most frequent byte
/// occurs more than `DEFAULT_HIST_FACTOR * (len / 256)` times.
pub const DEFAULT_HIST_FACTOR: usize = 4;

/// Default run limit: reject when more than this many identical bytes
/// stand consecutively.
pub const DEFAULT_RUN_LIMIT: usize = 4;

/// How many times byte value `v` occurs in `s`.
pub open spec fn count_byte(s: Seq<u8>, v: u8) -> nat
    decreases s.len(),
{
    if s.len() == 0 {
        0
    } else {
        count_byte(s.drop_last(), v) + (if s.last() == v {
            1nat
        } else {
            0nat
        })
    }
}

/// The largest occurrence count among byte values below `k`.
pub open spec fn max_count_below(s: Seq<u8>, k: int) -> nat
    decreases k,
{
    if k <= 0 {
        0
    } else {
        let c = count_byte(s, (k - 1) as u8);
        let m = max_count_below(s, k - 1);
        if c > m {
            c
        } else {
            m
        }
    }
}

/// The occurrence count of the most frequent byte value in `s`.
pub open spec fn max_byte_count(s: Seq<u8>) -> nat {
    max_count_below(s, 256)
}

/// Length of the run of identical bytes that ends at index `i - 1` of `s`
/// (0 when `i` is 0: no bytes seen yet).
pub open spec fn run_ending_at(s: Seq<u8>, i: int) -> nat
    decreases i,
{
    if i <= 0 {
        0
    } else if i == 1 {
        1
    } else if s[i - 1] == s[i - 2] {
        run_ending_at(s, i - 1) + 1
    } else {
        1
    }
}

/// The longest run of identical consecutive bytes among the first `i` bytes.
pub open spec fn longest_run_upto(s: Seq<u8>, i: int) -> nat
    decreases i,
{
    if i <= 0 {
        0
    } else {
        let r = run_ending_at(s, i);
        let m = longest_run_upto(s, i - 1);
        if r > m {
            r
        } else {
            m
        }
    }
}

/// The longest run of identical consecutive bytes in `s`.
pub open spec fn longest_run(s: Seq<u8>) -> nat {
    longest_run_upto(s, s.len() as int)
}

/// A block passes screening with the given thresholds when its most
/// frequent byte stays within `hist_factor` times the uniform expectation
/// and no run of identical bytes exceeds `run_limit`.
pub open spec fn is_good_with(s: Seq<u8>, hist_factor: nat, run_limit: nat) -> bool {
    max_byte_count(s) <= hist_factor * (s.len() / 256) && longest_run(s) <= run_limit
}

/// A block passes screening at the default thresholds.
pub open spec fn is_good(s: Seq<u8>) -> bool {
    is_good_with(s, DEFAULT_HIST_FACTOR as nat, DEFAULT_RUN_LIMIT as nat)
}

proof fn lemma_count_le_len(s: Seq<u8>, v: u8)
    ensures
        count_byte(s, v) <= s.len(),
    decreases s.len(),
{
    if s.len() > 0 {
        lemma_count_le_len(s.drop_last(), v);
    }
}

proof fn lemma_count_take_step(s: Seq<u8>, v: u8, i: int)
    requires
        0 <= i < s.len(),
    ensures
        count_byte(s.take(i + 1), v) == count_byte(s.take(i), v) + (if s[i] == v {
            1nat
        } else {
            0nat
        }),
{
    assert(s.take(i + 1).drop_last() =~= s.take(i));
    assert(s.take(i + 1).last() == s[i]);
}

proof fn lemma_run_le(s: Seq<u8>, i: int)
    requires
        0 <= i,
    ensures
        run_ending_at(s, i) <= i,
    decreases i,
{
    if i > 1 {
        lemma_run_le(s, i - 1);
    }
}

proof fn lemma_count_all_equal(s: Seq<u8>, v: u8)
    requires
        forall|j: int| 0 <= j < s.len() ==> #[trigger] s[j] == v,
    ensures
        count_byte(s, v) == s.len(),
    decreases s.len(),
{
    if s.len() > 0 {
        lemma_count_all_equal(s.drop_last(), v);
    }
}

proof fn lemma_max_count_ge(s: Seq<u8>, v: u8, k: int)
    requires
        v < k <= 256,
    ensures
        max_count_below(s, k) >= count_byte(s, v),
    decreases k,
{
    if v < k - 1 {
        lemma_max_count_ge(s, v, k - 1);
    }
}

proof fn lemma_run_at_least(s: Seq<u8>, i: int, k: int)
    requires
        0 <= i,
        1 <= k,
        i + k <= s.len(),
        forall|j: int| i <= j < i + k ==> s[j] == s[i],
    ensures
        run_ending_at(s, i + k) >= k,
    decreases k,
{
    if k > 1 {
        lemma_run_at_least(s, i, k - 1);
    }
}

proof fn lemma_longest_ge_run(s: Seq<u8>, i: int, j: int)
    requires
        1 <= i <= j,
    ensures
        longest_run_upto(s, j) >= run_ending_at(s, i),
    decreases j,
{
    if j > i {
        lemma_longest_ge_run(s, i, j - 1);
    }
}

/// Law: a nonempty block of one constant byte value always fails
/// screening at the default thresholds.
pub proof fn lemma_constant_block_rejected(s: Seq<u8>)
    requires
        s.len() > 0,
        forall|j: int| 0 <= j < s.len() ==> #[trigger] s[j] == s[0],
    ensures
        !is_good(s),
{
    let v = s[0];
    lemma_count_all_equal(s, v);
    lemma_max_count_ge(s, v, 256);
    let len = s.len() as int;
    vstd::arithmetic::div_mod::lemma_fundamental_div_mod(len, 256);
    let q = len / 256;
    assert(len == 256 * q + len % 256);
    assert(4 * q < len);
}

/// Law: a block holding a run of five or more identical consecutive bytes
/// always fails screening at the default thresholds.
pub proof fn lemma_long_run_rejected(s: Seq<u8>, i: int)
    requires
        0 <= i,
        i + 5 <= s.len(),
        forall|j: int| i <= j < i + 5 ==> s[j] == s[i],
    ensures
        !is_good(s),
{
    lemma_run_at_least(s, i, 5);
    lemma_longest_ge_run(s, i + 5, s.len() as int);
}

/// Law: the histogram threshold is exact. A block whose most frequent
/// byte occurs at most `4 * (len / 256)` times passes the default
/// screening whenever its runs stay within bounds, and one whose most
/// frequent byte occurs even once more always fails.
pub proof fn lemma_histogram_boundary(s: Seq<u8>)
    ensures
        max_byte_count(s) <= 4 * (s.len() / 256) && longest_run(s) <= 4 ==> is_good(s),
        max_byte_count(s) > 4 * (s.len() / 256) ==> !is_good(s),
{
}

/// Screen a block against the given thresholds; see [`is_good_with`].
pub fn block_is_good_with(block: &Vec<u8>, hist_factor: usize, run_limit: usize) -> (r: bool)
    ensures
        r == is_good_with(block@, hist_factor as nat, run_limit as nat),
{
    let ghost s = block@;
    let mut hist: Vec<usize> = Vec::new();
    let mut k: usize = 0;
    while k < 256
        invariant
            k <= 256,
            hist@.len() == k,
            forall|v: int| 0 <= v < k ==> hist@[v] == 0,
        decreases 256 - k,
    {
        hist.push(0);
        k += 1;
    }

    let n: usize = block.len();
    let mut i: usize = 0;
    let mut maxrun: usize = 0;
    let mut currun: usize = 0;
    while i < n
        invariant
            i <= n,
            n == s.len(),
            s == block@,
            hist@.len() == 256,
            forall|v: int| 0 <= v < 256 ==> hist@[v] == count_byte(s.take(i as int), v as u8),
            currun == run_ending_at(s, i as int),
            maxrun == longest_run_upto(s, i as int),
        decreases n - i,
    {
        let b = block[i];
        if i == 0 {
            currun = 1;
        } else if b == block[i - 1] {
            proof {
                lemma_run_le(s, i as int);
            }
            currun = currun + 1;
        } else {
            currun = 1;
        }
        if currun > maxrun {
            maxrun = currun;
        }
        proof {
            lemma_count_le_len(s.take(i as int), b);
            lemma_count_take_step(s, b, i as int);
            assert(forall|v: u8| v != b ==> count_byte(s.take(i + 1), v) == count_byte(
                s.take(i as int),
                v,
            )) by {
                assert forall|v: u8| v != b implies count_byte(s.take(i + 1), v) == count_byte(
                    s.take(i as int),
                    v,
                ) by {
                    lemma_count_take_step(s, v, i as int);
                }
            }
            assert(s.take(i as int).len() <= i);
        }
        let idx: usize = b as usize;
        let old_count = hist[idx];
        hist.set(idx, old_count + 1);
        i += 1;
    }
    proof {
        assert(s.take(n as int) =~= s);
    }

    let mut max: usize = 0;
    let mut v: usize = 0;
    while v < 256
        invariant
            v <= 256,
            hist@.len() == 256,
            forall|u: int| 0 <= u < 256 ==> hist@[u] == count_byte(s, u as u8),
            max == max_count_below(s, v as int),
        decreases 256 - v,
    {
        if hist[v] > max {
            max = hist[v];
        }
        v += 1;
    }

    proof {
        let x = hist_factor as int;
        let y = (n / 256) as int;
        assert(x * y <= u128::MAX) by (nonlinear_arith)
            requires
                0 <= x < 0x1_0000_0000_0000_0000,
                0 <= y < 0x1_0000_0000_0000_0000,
        ;
    }
    let threshold: u128 = (hist_factor as u128) * ((n / 256) as u128);
    if (max as u128) > threshold {
        return false;
    }
    if maxrun > run_limit {
        return false;
    }
    true
}

/// Screen a block at the default thresholds; see [`is_good`].
pub fn block_is_good(block: &Vec<u8>) -> (r: bool)
    ensures
        r == is_good(block@),
{
    block_is_good_with(block, DEFAULT_HIST_FACTOR, DEFAULT_RUN_LIMIT)
}

} // verus!
