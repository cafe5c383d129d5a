//! The process layer of a small RISC-V teaching kernel: locks and semaphores, deadlock
//! detection, process control blocks and the system calls that work on them.
//!
//! Scheduling, paging and the file system lie outside this crate. Where one of them has to
//! act, a function here returns a step that says what is to be done and with which values;
//! the kernel performs it and hands the result to the function that continues.

pub mod config;
pub mod fs;
pub mod mm;
pub mod sync;
pub mod syscall;
pub mod task;
pub mod word;
