//! Quality screening and duplicate detection on concrete blocks.

use trng_client::{block_is_good, block_is_good_with, do_vecs_match, is_duplicate};

/// 256 bytes where every value in 0..64 occurs exactly four times, with
/// no two equal bytes adjacent.
fn four_of_each() -> Vec<u8> {
    let mut v = Vec::new();
    for _round in 0..4 {
        for b in 0u8..64 {
            v.push(b);
        }
    }
    v
}

/// 512 varied bytes: every value occurs exactly twice, no runs.
fn varied_512(offset: u8) -> Vec<u8> {
    let mut v = Vec::new();
    for _round in 0..2 {
        for b in 0..=255u8 {
            v.push(b.wrapping_add(offset));
        }
    }
    v
}

#[test]
fn varied_block_is_good() {
    assert!(block_is_good(&varied_512(0)));
}

#[test]
fn constant_block_is_rejected() {
    let v = vec![0xaau8; 512 * 1024];
    assert!(!block_is_good(&v));
    let small = vec![7u8; 16];
    assert!(!block_is_good(&small));
}

#[test]
fn histogram_boundary_passes_at_threshold() {
    // len 256 gives threshold 4 * (256 / 256) = 4; each value occurs
    // exactly 4 times.
    let v = four_of_each();
    assert_eq!(v.len(), 256);
    assert!(block_is_good(&v));
}

#[test]
fn histogram_boundary_fails_one_past_threshold() {
    // Make value 0 occur 5 times by overwriting the final byte (63).
    let mut v = four_of_each();
    let last = v.len() - 1;
    v[last] = 0;
    assert!(!block_is_good(&v));
}

#[test]
fn run_of_four_passes() {
    // len 512 gives threshold 8; the four 9s are the only repeats of 9.
    let mut v = vec![9u8; 4];
    for i in 0..508 {
        v.push(10 + (i % 246) as u8);
    }
    assert_eq!(v.len(), 512);
    assert!(block_is_good(&v));
}

#[test]
fn run_of_five_is_rejected() {
    // Histogram stays within threshold 8; only the run trips the check.
    let mut v = vec![9u8; 5];
    for i in 0..507 {
        v.push(10 + (i % 246) as u8);
    }
    assert_eq!(v.len(), 512);
    assert!(!block_is_good(&v));
}

#[test]
fn thresholds_are_configurable() {
    let mut v = vec![9u8; 5];
    for i in 0..507 {
        v.push(10 + (i % 246) as u8);
    }
    // A run limit of 5 tolerates the run that the default rejects.
    assert!(block_is_good_with(&v, 4, 5));
    assert!(!block_is_good_with(&v, 4, 4));
}

#[test]
fn empty_block_passes_screening() {
    assert!(block_is_good(&Vec::new()));
}

#[test]
fn duplicate_of_itself_flags() {
    let x = vec![1u8, 2, 3, 4];
    let y = vec![5u8, 6, 7, 8];
    assert!(is_duplicate(&x, &x, &y));
    assert!(is_duplicate(&x, &y, &x));
}

#[test]
fn pairwise_distinct_blocks_do_not_flag() {
    let x = vec![1u8, 2, 3, 4];
    let y = vec![5u8, 6, 7, 8];
    let z = vec![9u8, 10, 11, 12];
    assert!(!is_duplicate(&x, &y, &z));
}

#[test]
fn partial_length_match_is_no_duplicate() {
    let x = vec![1u8, 2, 3];
    let longer = vec![1u8, 2, 3, 4];
    assert!(!is_duplicate(&x, &longer, &longer));
}

#[test]
fn vecs_match_exactly() {
    let a = vec![1u8, 2, 3];
    let b = vec![1u8, 2, 3];
    let c = vec![1u8, 2, 4];
    let d = vec![1u8, 2];
    assert!(do_vecs_match(&a, &b));
    assert!(!do_vecs_match(&a, &c));
    assert!(!do_vecs_match(&a, &d));
    assert!(do_vecs_match(&Vec::new(), &Vec::new()));
}
