//! System calls.
//!
//! A call that needs nothing from outside returns its result. The others return a step: either
//! the result, or what the kernel is to do next. The function that continues the call takes what
//! came of it.

pub mod fs;
pub mod links;
pub mod process;
