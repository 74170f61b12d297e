//! Process-management core of a teaching operating-system kernel.
//!
//! The crate models the task control block, a single-core scheduler, the
//! per-task virtual-address-region tracker behind the memory-mapping
//! syscalls, and the process-lifecycle syscall layer.  External
//! collaborators (the clock, the binary loader, physical memory, the
//! architecture's context-switch instruction sequence) enter only as plain
//! values handed in by the caller, so every rule in here is verified.

pub mod config;
pub mod region;
pub mod task;
pub mod manager;
pub mod syscall;
pub mod laws;
