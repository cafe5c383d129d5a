//! Synchronisation between the threads of one process.

pub mod mutex;
pub mod queue;
pub mod semaphore;
