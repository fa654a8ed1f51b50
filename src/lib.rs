//! The system-call layer of a small kernel, modelled over explicit kernel
//! state: a task's address space, its descriptor table, the file system the
//! task talks to, the clock and the task's accounting.
pub mod config;
pub mod page;
pub mod mm;
pub mod fs;
pub mod task;
pub mod record;
pub mod sys_fs;
pub mod sys_process;
