//! The steady-state acquisition cycle.
//!
//! Each cycle adopts a new phase, picks the buffer half whose drain turn
//! it is from the phase's parity, and routes the block read from it
//! through quality screening and duplicate detection. The recent-block
//! window tracks the last block *read* for each role — not the last one
//! accepted — so that a stuck link is caught even when rejections are
//! frequent. The driver that performs the register reads and writes sits
//! outside; this state machine makes every decision.

use vstd::prelude::*;

use crate::duplicate::is_dup;
use crate::duplicate::is_duplicate;
use crate::quality::block_is_good_with;
use crate::quality::is_good_with;
use crate::quality::DEFAULT_HIST_FACTOR;
use crate::quality::DEFAULT_RUN_LIMIT;

verus! {

/// Which of the two alternating device buffers a cycle drains.
#[derive(Clone, Copy, PartialEq, Eq, Structural, Debug)]
pub enum BufferRole {
    /// The buffer at the first base address.
    A,
    /// The buffer at the second base address.
    B,
}

/// How one block was routed.
#[derive(Clone, Copy, PartialEq, Eq, Structural, Debug)]
pub enum BlockOutcome {
    /// The block passed every enabled check and belongs on the output
    /// stream.
    Accepted,
    /// Quality screening rejected the block; it belongs in diagnostics.
    Suspicious,
    /// The block is byte-for-byte identical to a recent one; suppressed.
    Duplicate,
}

/// The configuration surface of the acquisition cycle: buffer addresses,
/// burst length, polling and timeout intervals, quality thresholds, which
/// checks are enabled, and the firmware's parity mapping.
pub struct AcqConfig {
    /// Base address of buffer role A.
    pub ram_a: u32,
    /// Base address of buffer role B.
    pub ram_b: u32,
    /// Bytes read per burst; every block has this length.
    pub burst_len: u32,
    /// Sleep between phase-register polls, in milliseconds.
    pub poll_interval_ms: u64,
    /// Soft deadline on one phase wait, in milliseconds.
    pub phase_timeout_ms: u64,
    /// Histogram threshold factor for quality screening.
    pub hist_factor: usize,
    /// Longest accepted run of identical bytes.
    pub run_limit: usize,
    /// Whether quality screening runs at all.
    pub check_quality: bool,
    /// Whether duplicate detection runs at all.
    pub check_duplicates: bool,
    /// Whether an odd phase drains role A (firmware-dependent mapping).
    pub odd_drains_a: bool,
}

impl Default for AcqConfig {
    /// The configuration observed on the target device: 512 KiB bursts
    /// from two fixed buffer addresses, a 5 ms poll, a 60 s soft
    /// deadline, both checks on at the default thresholds.
    fn default() -> (c: AcqConfig)
        ensures
            c.ram_a == 0x4020_0000u32,
            c.ram_b == 0x4030_0000u32,
            c.burst_len == 0x8_0000u32,
            c.poll_interval_ms == 5u64,
            c.phase_timeout_ms == 60_000u64,
            c.hist_factor == DEFAULT_HIST_FACTOR,
            c.run_limit == DEFAULT_RUN_LIMIT,
            c.check_quality,
            c.check_duplicates,
            c.odd_drains_a,
    {
        AcqConfig {
            ram_a: 0x4020_0000,
            ram_b: 0x4030_0000,
            burst_len: 0x8_0000,
            poll_interval_ms: 5,
            phase_timeout_ms: 60_000,
            hist_factor: DEFAULT_HIST_FACTOR,
            run_limit: DEFAULT_RUN_LIMIT,
            check_quality: true,
            check_duplicates: true,
            odd_drains_a: true,
        }
    }
}

/// Whether a block passes the configured quality screen (vacuously when
/// screening is disabled).
pub open spec fn passes_quality(c: AcqConfig, b: Seq<u8>) -> bool {
    !c.check_quality || is_good_with(b, c.hist_factor as nat, c.run_limit as nat)
}

/// Whether a block flags as a duplicate of a recent slot under the
/// configured checks (never when detection is disabled).
pub open spec fn flags_duplicate(c: AcqConfig, b: Seq<u8>, recent_a: Seq<u8>, recent_b: Seq<
    u8,
>) -> bool {
    c.check_duplicates && is_dup(b, recent_a, recent_b)
}

/// The bytes a read handed back: the block itself, or the empty block
/// when the transport call failed.
pub open spec fn block_of_read(read: Option<Vec<u8>>) -> Seq<u8> {
    match read {
        Some(b) => b@,
        None => Seq::empty(),
    }
}

/// The mutable state of the steady-state cycle: the running phase, the
/// accepted-block counter, and the two recent-block slots.
pub struct AcquisitionLoop {
    /// The configuration the loop was built with; never changes.
    pub config: AcqConfig,
    /// The phase value of the cycle being processed.
    pub phase: u32,
    /// How many blocks have been accepted onto the output stream.
    pub accepted: u64,
    /// The last block read for role A.
    pub recent_a: Vec<u8>,
    /// The last block read for role B.
    pub recent_b: Vec<u8>,
}

impl AcquisitionLoop {
    /// The buffer role a given phase drains under this configuration.
    pub open spec fn drain_role_spec(self, phase: u32) -> BufferRole {
        if (phase % 2 == 1) == self.config.odd_drains_a {
            BufferRole::A
        } else {
            BufferRole::B
        }
    }

    /// Fresh state: phase and counter at zero, both recent slots empty.
    pub fn new(config: AcqConfig) -> (s: Self)
        ensures
            s.config == config,
            s.phase == 0,
            s.accepted == 0,
            s.recent_a@ == Seq::<u8>::empty(),
            s.recent_b@ == Seq::<u8>::empty(),
    {
        AcquisitionLoop {
            config,
            phase: 0,
            accepted: 0,
            recent_a: Vec::new(),
            recent_b: Vec::new(),
        }
    }

    /// Which buffer the given phase drains; see [`Self::drain_role_spec`].
    pub fn drain_role(&self, phase: u32) -> (r: BufferRole)
        ensures
            r == self.drain_role_spec(phase),
    {
        if (phase % 2 == 1) == self.config.odd_drains_a {
            BufferRole::A
        } else {
            BufferRole::B
        }
    }

    /// The base address the driver must burst-read for a role.
    pub fn buffer_address(&self, role: BufferRole) -> (a: u32)
        ensures
            role == BufferRole::A ==> a == self.config.ram_a,
            role == BufferRole::B ==> a == self.config.ram_b,
    {
        match role {
            BufferRole::A => self.config.ram_a,
            BufferRole::B => self.config.ram_b,
        }
    }

    /// Adopt a newly synchronized phase and name the buffer whose drain
    /// turn it is. Everything else is untouched.
    pub fn begin_cycle(&mut self, new_phase: u32) -> (role: BufferRole)
        ensures
            final(self).phase == new_phase,
            final(self).config == old(self).config,
            final(self).accepted == old(self).accepted,
            final(self).recent_a == old(self).recent_a,
            final(self).recent_b == old(self).recent_b,
            role == old(self).drain_role_spec(new_phase),
    {
        self.phase = new_phase;
        self.drain_role(new_phase)
    }

    /// Route one block: screen it, check it against both recent slots,
    /// and overwrite the role's recent slot with it whatever the outcome.
    pub fn process_block(&mut self, role: BufferRole, block: Vec<u8>) -> (o: BlockOutcome)
        requires
            old(self).accepted < u64::MAX,
        ensures
            (o == BlockOutcome::Suspicious) == !passes_quality(old(self).config, block@),
            (o == BlockOutcome::Duplicate) == (passes_quality(old(self).config, block@)
                && flags_duplicate(
                old(self).config,
                block@,
                old(self).recent_a@,
                old(self).recent_b@,
            )),
            (o == BlockOutcome::Accepted) == (passes_quality(old(self).config, block@)
                && !flags_duplicate(
                old(self).config,
                block@,
                old(self).recent_a@,
                old(self).recent_b@,
            )),
            final(self).accepted == old(self).accepted + (if o == BlockOutcome::Accepted {
                1int
            } else {
                0int
            }),
            final(self).recent_a@ == (if role == BufferRole::A {
                block@
            } else {
                old(self).recent_a@
            }),
            final(self).recent_b@ == (if role == BufferRole::B {
                block@
            } else {
                old(self).recent_b@
            }),
            final(self).config == old(self).config,
            final(self).phase == old(self).phase,
    {
        let good = !self.config.check_quality || block_is_good_with(
            &block,
            self.config.hist_factor,
            self.config.run_limit,
        );
        let outcome = if !good {
            BlockOutcome::Suspicious
        } else if self.config.check_duplicates && is_duplicate(
            &block,
            &self.recent_a,
            &self.recent_b,
        ) {
            BlockOutcome::Duplicate
        } else {
            self.accepted = self.accepted + 1;
            BlockOutcome::Accepted
        };
        match role {
            BufferRole::A => {
                self.recent_a = block;
            },
            BufferRole::B => {
                self.recent_b = block;
            },
        }
        outcome
    }

    /// Route the result of one burst read. A failed transport call is
    /// treated as an empty block — non-fatal, no retry — and reported in
    /// the second component so the driver can log the anomaly.
    pub fn process_read(&mut self, role: BufferRole, read: Option<Vec<u8>>) -> (r: (
        BlockOutcome,
        bool,
    ))
        requires
            old(self).accepted < u64::MAX,
        ensures
            r.1 == (read is None),
            (r.0 == BlockOutcome::Suspicious) == !passes_quality(
                old(self).config,
                block_of_read(read),
            ),
            (r.0 == BlockOutcome::Duplicate) == (passes_quality(
                old(self).config,
                block_of_read(read),
            ) && flags_duplicate(
                old(self).config,
                block_of_read(read),
                old(self).recent_a@,
                old(self).recent_b@,
            )),
            (r.0 == BlockOutcome::Accepted) == (passes_quality(
                old(self).config,
                block_of_read(read),
            ) && !flags_duplicate(
                old(self).config,
                block_of_read(read),
                old(self).recent_a@,
                old(self).recent_b@,
            )),
            final(self).accepted == old(self).accepted + (if r.0 == BlockOutcome::Accepted {
                1int
            } else {
                0int
            }),
            final(self).recent_a@ == (if role == BufferRole::A {
                block_of_read(read)
            } else {
                old(self).recent_a@
            }),
            final(self).recent_b@ == (if role == BufferRole::B {
                block_of_read(read)
            } else {
                old(self).recent_b@
            }),
            final(self).config == old(self).config,
            final(self).phase == old(self).phase,
    {
        match read {
            Some(block) => {
                let o = self.process_block(role, block);
                (o, false)
            },
            None => {
                let o = self.process_block(role, Vec::new());
                (o, true)
            },
        }
    }
}

} // verus!
