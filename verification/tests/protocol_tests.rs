//! Phase synchronization and acquisition-cycle scenarios against a
//! scripted mock transport.

use trng_client::{
    poll_decision, AcqConfig, AcquisitionLoop, BlockOutcome, BufferRole, PhasePoll,
};

/// A driver loop over a scripted phase register, with a fake clock that
/// advances one poll interval per `Wait`. Returns the adopted phase, the
/// forced flag, how many polls it took, and what was written to the
/// request register.
fn wait_for_next_phase(
    script: &[u32],
    current: u32,
    timeout_ms: u64,
    interval_ms: u64,
) -> (u32, bool, usize, u32) {
    let mut elapsed: u64 = 0;
    let mut polls: usize = 0;
    loop {
        let observed = script[polls.min(script.len() - 1)];
        polls += 1;
        match poll_decision(current, observed, elapsed, timeout_ms) {
            PhasePoll::Wait => {
                elapsed += interval_ms;
            }
            PhasePoll::Advance { phase, forced } => {
                // The driver acknowledges every adopted phase.
                let request_register = phase;
                return (phase, forced, polls, request_register);
            }
        }
    }
}

#[test]
fn phase_advances_within_n_polls() {
    // The register moves past `current` on the third poll.
    let script = [5u32, 5, 6];
    let (phase, forced, polls, request) = wait_for_next_phase(&script, 5, 60_000, 5);
    assert_eq!(phase, 6);
    assert!(!forced);
    assert_eq!(polls, 3);
    assert_eq!(request, 6);
}

#[test]
fn stalled_phase_forces_advance_after_timeout() {
    // The register never moves; after the deadline the stalled value is
    // adopted and written back.
    let script = [5u32];
    let (phase, forced, polls, request) = wait_for_next_phase(&script, 5, 20, 5);
    assert_eq!(phase, 5);
    assert!(forced);
    // elapsed hits the 20 ms deadline after four waits: poll five times.
    assert_eq!(polls, 5);
    assert_eq!(request, 5);
}

#[test]
fn immediate_advance_on_first_poll() {
    let script = [9u32];
    let (phase, forced, polls, _) = wait_for_next_phase(&script, 5, 60_000, 5);
    assert_eq!(phase, 9);
    assert!(!forced);
    assert_eq!(polls, 1);
}

/// 512 varied bytes: every value occurs exactly twice, no runs.
fn varied_512(offset: u8) -> Vec<u8> {
    let mut v = Vec::new();
    for _round in 0..2 {
        for b in 0..=255u8 {
            v.push(b.wrapping_add(offset));
        }
    }
    v
}

#[test]
fn roles_alternate_with_phase_parity() {
    let mut acq = AcquisitionLoop::new(AcqConfig::default());
    assert_eq!(acq.begin_cycle(1), BufferRole::A);
    assert_eq!(acq.begin_cycle(2), BufferRole::B);
    assert_eq!(acq.begin_cycle(3), BufferRole::A);
    let mut flipped = AcqConfig::default();
    flipped.odd_drains_a = false;
    let mut acq2 = AcquisitionLoop::new(flipped);
    assert_eq!(acq2.begin_cycle(1), BufferRole::B);
    assert_eq!(acq2.begin_cycle(2), BufferRole::A);
}

#[test]
fn buffer_addresses_follow_roles() {
    let acq = AcquisitionLoop::new(AcqConfig::default());
    assert_eq!(acq.buffer_address(BufferRole::A), 0x4020_0000);
    assert_eq!(acq.buffer_address(BufferRole::B), 0x4030_0000);
}

#[test]
fn scripted_cycle_emits_exactly_the_accepted_blocks() {
    let mut acq = AcquisitionLoop::new(AcqConfig::default());
    let good_1 = varied_512(0);
    let bad = vec![0u8; 512];
    let good_2 = varied_512(1);

    let mut output: Vec<u8> = Vec::new();
    let mut ok = 0;
    let mut suspicious = 0;
    let mut duplicates = 0;

    // Scripted phases {1, 2, 1, 2}: good, bad, re-delivered, good.
    let script: Vec<(u32, Vec<u8>)> = vec![
        (1, good_1.clone()),
        (2, bad.clone()),
        (1, good_1.clone()),
        (2, good_2.clone()),
    ];
    for (phase, block) in script {
        let role = acq.begin_cycle(phase);
        let (outcome, fault) = acq.process_read(role, Some(block.clone()));
        assert!(!fault);
        match outcome {
            BlockOutcome::Accepted => {
                output.extend_from_slice(&block);
                ok += 1;
            }
            BlockOutcome::Suspicious => suspicious += 1,
            BlockOutcome::Duplicate => duplicates += 1,
        }
    }

    let mut expected = good_1.clone();
    expected.extend_from_slice(&good_2);
    assert_eq!(output, expected);
    assert_eq!((ok, suspicious, duplicates), (2, 1, 1));
    assert_eq!(acq.accepted, 2);
}

#[test]
fn recent_slot_updates_even_on_rejection() {
    // A rejected block still lands in the recent window, so a stuck link
    // re-delivering it is caught as soon as screening is off.
    let mut relaxed = AcqConfig::default();
    relaxed.check_quality = false;
    let mut acq = AcquisitionLoop::new(relaxed);
    let stuck = vec![3u8; 64];
    let role = acq.begin_cycle(1);
    let (first, _) = acq.process_read(role, Some(stuck.clone()));
    assert_eq!(first, BlockOutcome::Accepted);
    let role = acq.begin_cycle(3);
    let (second, _) = acq.process_read(role, Some(stuck.clone()));
    assert_eq!(second, BlockOutcome::Duplicate);
}

#[test]
fn rejected_block_still_lands_in_recent_slot() {
    // The recent window tracks the last block read, not the last one
    // accepted.
    let mut acq = AcquisitionLoop::new(AcqConfig::default());
    let bad = vec![0u8; 512];
    let role = acq.begin_cycle(1);
    let (outcome, _) = acq.process_read(role, Some(bad.clone()));
    assert_eq!(outcome, BlockOutcome::Suspicious);
    assert_eq!(role, BufferRole::A);
    assert_eq!(acq.recent_a, bad);
    assert!(acq.recent_b.is_empty());
}

#[test]
fn transport_fault_becomes_empty_block() {
    let mut acq = AcquisitionLoop::new(AcqConfig::default());
    let role = acq.begin_cycle(1);
    let (outcome, fault) = acq.process_read(role, None);
    assert!(fault);
    // The empty block matches the freshly initialized empty recent slot.
    assert_eq!(outcome, BlockOutcome::Duplicate);
    assert_eq!(acq.accepted, 0);
}

#[test]
fn duplicate_detection_can_be_disabled() {
    let mut cfg = AcqConfig::default();
    cfg.check_duplicates = false;
    let mut acq = AcquisitionLoop::new(cfg);
    let block = varied_512(0);
    let role = acq.begin_cycle(1);
    acq.process_read(role, Some(block.clone()));
    let role = acq.begin_cycle(3);
    let (outcome, _) = acq.process_read(role, Some(block));
    assert_eq!(outcome, BlockOutcome::Accepted);
    assert_eq!(acq.accepted, 2);
}
