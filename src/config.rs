use vstd::prelude::*;

verus! {

/// Bytes in one page.
pub const PAGE_SIZE: usize = 4096;

/// Number of syscall numbers that the accounting recognises.
pub const MAX_SYSCALL_NUM: usize = 500;

} // verus!
