//! Tasks, threads and processes.

pub mod argv;
pub mod deadlock;
pub mod detect;
pub mod fd_table;
pub mod id;
pub mod meaning;
pub mod process;
pub mod safety;
pub mod search;
pub mod task;
pub mod thread;
pub mod wait_table;
