//! Fixed parameters of the kernel core.

use vstd::prelude::*;

verus! {

/// Size of one page of virtual memory; every region boundary is a
/// multiple of it.
pub const PAGE_SIZE: usize = 4096;

/// Number of entries of the per-task syscall counter array.
pub const MAX_SYSCALL_NUM: usize = 500;

/// Scheduling weight a task gets when none is stated at creation.
pub const DEFAULT_PRIORITY: usize = 16;

/// Syscall identifiers, used to index the per-task counter array.
pub const SYSCALL_EXIT: usize = 93;

pub const SYSCALL_YIELD: usize = 124;

pub const SYSCALL_SET_PRIORITY: usize = 140;

pub const SYSCALL_GET_TIME: usize = 169;

pub const SYSCALL_GETPID: usize = 172;

pub const SYSCALL_SBRK: usize = 214;

pub const SYSCALL_MUNMAP: usize = 215;

pub const SYSCALL_FORK: usize = 220;

pub const SYSCALL_EXEC: usize = 221;

pub const SYSCALL_MMAP: usize = 222;

pub const SYSCALL_WAITPID: usize = 260;

pub const SYSCALL_SPAWN: usize = 400;

pub const SYSCALL_TASK_INFO: usize = 410;

} // verus!
