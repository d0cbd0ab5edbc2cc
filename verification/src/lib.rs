//! Host-side acquisition client logic for an FPGA hardware random-number
//! generator reached over a register-level bridge.
//!
//! The device fills two alternating buffers and advances a phase register
//! each time one is ready; the host requests the next fill, drains the
//! buffer whose turn it is, screens the block for transport-fault
//! symptoms, drops byte-for-byte re-deliveries, and emits only validated
//! blocks. The startup address map comes from a digest-verified symbol
//! table read off the device. Every decision the client makes lives
//! here, specified and verified; the driver around it only moves bytes
//! and sleeps.

pub mod acquisition;
pub mod csr;
pub mod duplicate;
pub mod hexdump;
pub mod parse;
pub mod phase;
pub mod quality;
pub mod records;

pub use acquisition::AcqConfig;
pub use acquisition::AcquisitionLoop;
pub use acquisition::BlockOutcome;
pub use acquisition::BufferRole;
pub use csr::resolve;
pub use csr::CsrError;
pub use csr::CsrSymbolTable;
pub use duplicate::do_vecs_match;
pub use duplicate::is_duplicate;
pub use hexdump::hex_dump;
pub use parse::get_base;
pub use parse::parse_u32;
pub use phase::poll_decision;
pub use phase::PhasePoll;
pub use quality::block_is_good;
pub use quality::block_is_good_with;
