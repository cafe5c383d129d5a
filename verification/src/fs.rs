//! What the process layer knows of open files.

use vstd::prelude::*;

verus! {

/// An open file. Copies of the value refer to the same file.
#[derive(Clone, Copy, PartialEq, Eq, Structural, Debug)]
pub struct File {
    /// Identifies the file to the file system.
    pub handle: usize,
    /// Whether the file can be read.
    pub readable: bool,
    /// Whether the file can be written.
    pub writable: bool,
    /// The inode of a file on disk; `None` for pipes and the console.
    pub inode_id: Option<u32>,
}

/// The files that a new process starts with.
#[derive(Clone, Copy)]
pub struct Console {
    /// Standard input.
    pub stdin: File,
    /// Standard output.
    pub stdout: File,
    /// Standard error.
    pub stderr: File,
}

/// The kind of a file, as `fstat` reports it.
#[derive(Clone, Copy, PartialEq, Eq, Structural, Debug)]
pub enum StatMode {
    /// Not a file on disk.
    Null,
    /// An ordinary file.
    File,
}

/// What `fstat` reports of a file.
#[derive(Clone, Copy, PartialEq, Eq, Structural, Debug)]
pub struct Stat {
    /// The device that holds the file.
    pub dev: u64,
    /// The number of the inode.
    pub ino: u64,
    /// The kind of the file.
    pub mode: StatMode,
    /// The number of directory entries for the file.
    pub nlink: u32,
}

} // verus!
