//! Foundation layer of a capability-based kernel: reconciliation of the
//! firmware physical memory map into a trustworthy inventory of page frames,
//! capability-gated virtual memory regions with guard pages, and the
//! computations behind the one-way kernel-to-user privilege transition and
//! the fast-syscall register configuration.

use vstd::prelude::*;

pub mod cap;
pub mod e820;
pub mod memory;
pub mod user;

verus! {

/// Size of one page frame in bytes.
pub const PAGE_SIZE: u64 = 4096;

} // verus!
