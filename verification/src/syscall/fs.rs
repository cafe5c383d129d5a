//! File system syscalls

use crate::config::FAILURE;
use crate::fs::{File, Stat, StatMode};
use crate::mm::UserWrite;
use crate::task::process::{ProcessControlBlock, ProcessControlBlockInner};
use crate::word::{to_signed, to_word_bytes};
use vstd::prelude::*;

verus! {

/// How `read` and `write` go on.
#[derive(Clone, Copy, PartialEq, Eq, Structural, Debug)]
pub enum TransferStep {
    /// The call returns.
    Return(isize),
    /// Bytes go between the file and the user's buffer, and [`sys_transfer_done`] is told how
    /// many.
    Transfer {
        /// The file.
        file: File,
        /// Token of the address space that the buffer lies in.
        token: usize,
        /// Address of the buffer.
        buf: usize,
        /// Bytes of the buffer.
        len: usize,
    },
}

/// Only the descriptor table of the process differs.
pub open spec fn only_fds_differ(after: ProcessControlBlock, before: ProcessControlBlock) -> bool {
    after.pid == before.pid && after.inner.same_but_fd_table(&before.inner)
}

/// The file that a descriptor of the process stands for.
pub open spec fn file_of(process: &ProcessControlBlock, fd: usize) -> Option<File> {
    crate::task::fd_table::lookup(process.inner.fd_table@, fd as int)
}

fn get_file(process: &ProcessControlBlock, fd: usize) -> (file: Option<File>)
    ensures
        file == file_of(process, fd),
{
    if fd >= process.inner.fd_table.len() {
        return None;
    }
    process.inner.fd_table[fd]
}

/// write syscall
pub fn sys_write(process: &ProcessControlBlock, fd: usize, buf: usize, len: usize) -> (step:
    TransferStep)
    ensures
        step == if (buf == 0 && len > 0) || file_of(process, fd) is None || !file_of(
            process,
            fd,
        )->0.writable {
            TransferStep::Return(FAILURE)
        } else {
            TransferStep::Transfer {
                file: file_of(process, fd)->0,
                token: process.inner.memory_set.token,
                buf,
                len,
            }
        },
        ({
            let table = process.inner.fd_table@;
            let open = fd < table.len() && table[fd as int] is Some;
            let moves = open && table[fd as int]->0.writable && (buf != 0 || len == 0);
            &&& step is Transfer <==> moves
            &&& step matches TransferStep::Transfer { file, token, buf: at, len: bytes } ==> file
                == table[fd as int]->0 && token == process.inner.memory_set.token && at == buf
                && bytes == len
            &&& step matches TransferStep::Return(code) ==> code + 1 == 0
        }),
{
    if buf == 0 && len > 0 {
        return TransferStep::Return(FAILURE);
    }
    let token: usize = process.inner.get_user_token();
    match get_file(process, fd) {
        Some(file) => {
            if !file.writable {
                return TransferStep::Return(FAILURE);
            }
            TransferStep::Transfer { file, token, buf, len }
        },
        None => TransferStep::Return(FAILURE),
    }
}

/// read syscall
pub fn sys_read(process: &ProcessControlBlock, fd: usize, buf: usize, len: usize) -> (step:
    TransferStep)
    ensures
        step == if (buf == 0 && len > 0) || file_of(process, fd) is None || !file_of(
            process,
            fd,
        )->0.readable {
            TransferStep::Return(FAILURE)
        } else {
            TransferStep::Transfer {
                file: file_of(process, fd)->0,
                token: process.inner.memory_set.token,
                buf,
                len,
            }
        },
        ({
            let table = process.inner.fd_table@;
            let open = fd < table.len() && table[fd as int] is Some;
            let moves = open && table[fd as int]->0.readable && (buf != 0 || len == 0);
            &&& step is Transfer <==> moves
            &&& step matches TransferStep::Transfer { file, token, buf: at, len: bytes } ==> file
                == table[fd as int]->0 && token == process.inner.memory_set.token && at == buf
                && bytes == len
            &&& step matches TransferStep::Return(code) ==> code + 1 == 0
        }),
{
    if buf == 0 && len > 0 {
        return TransferStep::Return(FAILURE);
    }
    let token: usize = process.inner.get_user_token();
    match get_file(process, fd) {
        Some(file) => {
            if !file.readable {
                return TransferStep::Return(FAILURE);
            }
            TransferStep::Transfer { file, token, buf, len }
        },
        None => TransferStep::Return(FAILURE),
    }
}

/// The result of `read` or `write`, given the number of bytes that the file moved.
pub fn sys_transfer_done(moved: usize) -> (code: isize)
    ensures
        code == crate::word::signed(moved),
        moved <= isize::MAX ==> code == moved,
        moved > isize::MAX ==> code + usize::MAX + 1 == moved,
{
    to_signed(moved)
}

/// How `open` goes on.
#[derive(Clone, Copy, PartialEq, Eq, Structural, Debug)]
pub enum OpenStep {
    /// The call returns.
    Return(isize),
    /// The path is read from the user's address space and opened, and [`sys_open_done`] is
    /// handed the file.
    OpenPath {
        /// Token of the address space that the path lies in.
        token: usize,
        /// Address of the path.
        path: usize,
        /// How to open it.
        flags: u32,
    },
}

/// open sys
///
/// `known_flags` has the bits of all flags that the file system knows; a call with any other
/// bit fails.
pub fn sys_open(process: &ProcessControlBlock, path: usize, flags: u32, known_flags: u32) -> (step:
    OpenStep)
    ensures
        step == if path == 0 || flags & !known_flags != 0 {
            OpenStep::Return(FAILURE)
        } else {
            OpenStep::OpenPath { token: process.inner.memory_set.token, path, flags }
        },
        step is OpenPath <==> path != 0 && flags & !known_flags == 0,
        step matches OpenStep::OpenPath { token, path: at, flags: how } ==> token
            == process.inner.memory_set.token && at == path && how == flags,
        step matches OpenStep::Return(code) ==> code + 1 == 0,
{
    if path == 0 {
        return OpenStep::Return(FAILURE);
    }
    if flags & !known_flags != 0 {
        return OpenStep::Return(FAILURE);
    }
    let token: usize = process.inner.get_user_token();
    OpenStep::OpenPath { token, path, flags }
}

/// The end of `open`: a file that was opened gets the smallest free descriptor.
pub fn sys_open_done(process: &mut ProcessControlBlock, opened: Option<File>) -> (code: isize)
    ensures
        only_fds_differ(*final(process), *old(process)),
        match opened {
            Some(file) => {
                &&& code == crate::word::signed(
                    crate::task::fd_table::lowest_free(old(process).inner.fd_table@) as usize,
                )
                &&& final(process).inner.fd_table@ == crate::task::fd_table::install(
                    old(process).inner.fd_table@,
                    file,
                )
            },
            None => code == FAILURE && *final(process) == *old(process),
        },
        *final(process) == (ProcessControlBlock {
            inner: ProcessControlBlockInner {
                fd_table: final(process).inner.fd_table,
                ..old(process).inner
            },
            ..*old(process)
        }),
        opened is Some ==> {
            let before = old(process).inner.fd_table@;
            let after = final(process).inner.fd_table@;
            exists|new_fd: int|
                0 <= new_fd <= before.len() && code == crate::word::signed(new_fd as usize)
                    && #[trigger] after[new_fd] == Some(opened->0) && (forall|i: int|
                    0 <= i < new_fd ==> (#[trigger] before[i]) is Some) && (new_fd < before.len()
                    ==> before[new_fd] is None && after.len() == before.len()) && (new_fd
                    == before.len() ==> after.len() == before.len() + 1) && (forall|i: int|
                    0 <= i < before.len() && i != new_fd ==> #[trigger] after[i] == before[i])
        },
        opened is None ==> code + 1 == 0 && final(process).inner.fd_table@
            == old(process).inner.fd_table@,
{
    match opened {
        Some(file) => {
            let fd: usize = process.inner.install_file(file);
            assert(process.inner.fd_table@[fd as int] == Some(file));
            to_signed(fd)
        },
        None => FAILURE,
    }
}

/// close syscall
pub fn sys_close(process: &mut ProcessControlBlock, fd: usize) -> (code: isize)
    ensures
        only_fds_differ(*final(process), *old(process)),
        file_of(old(process), fd) is None ==> code == FAILURE && *final(process) == *old(process),
        file_of(old(process), fd) is Some ==> code == 0 && final(process).inner.fd_table@
            == crate::task::fd_table::close(old(process).inner.fd_table@, fd as int),
        *final(process) == (ProcessControlBlock {
            inner: ProcessControlBlockInner {
                fd_table: final(process).inner.fd_table,
                ..old(process).inner
            },
            ..*old(process)
        }),
        ({
            let before = old(process).inner.fd_table@;
            let after = final(process).inner.fd_table@;
            let open = fd < before.len() && before[fd as int] is Some;
            &&& after.len() == before.len()
            &&& code == if open {
                0
            } else {
                -1int
            }
            &&& open ==> after[fd as int] is None
            &&& forall|i: int|
                0 <= i < before.len() && (i != fd || !open) ==> #[trigger] after[i] == before[i]
        }),
{
    if get_file(process, fd).is_none() {
        return FAILURE;
    }
    process.inner.fd_table.set(fd, None);
    0
}

/// How `pipe` goes on.
#[derive(Clone, Copy, PartialEq, Eq, Structural, Debug)]
pub enum PipeStep {
    /// The call returns.
    Return(isize),
    /// A pipe is made, and [`sys_pipe_done`] is handed its two ends.
    MakePipe,
}

/// pipe syscall
pub fn sys_pipe(pipe: usize) -> (step: PipeStep)
    ensures
        step == if pipe == 0 {
            PipeStep::Return(FAILURE)
        } else {
            PipeStep::MakePipe
        },
{
    if pipe == 0 {
        return PipeStep::Return(FAILURE);
    }
    PipeStep::MakePipe
}

/// The end of `pipe`: both ends get a descriptor, the reading end first. The two numbers are to
/// be stored at `pipe` in the user's address space, and [`sys_pipe_stored`] ends the call.
pub fn sys_pipe_done(
    process: &mut ProcessControlBlock,
    pipe: usize,
    pipe_read: File,
    pipe_write: File,
) -> (write: UserWrite)
    ensures
        only_fds_differ(*final(process), *old(process)),
        ({
            let table = old(process).inner.fd_table@;
            let with_read = crate::task::fd_table::install(table, pipe_read);
            let read_fd = crate::task::fd_table::lowest_free(table);
            let write_fd = crate::task::fd_table::lowest_free(with_read);
            &&& final(process).inner.fd_table@ == crate::task::fd_table::install(
                with_read,
                pipe_write,
            )
            &&& write.token == old(process).inner.memory_set.token
            &&& write.addr == pipe
            &&& write.bytes@ == crate::word::word_bytes(read_fd as usize)
                + crate::word::word_bytes(write_fd as usize)
        }),
        *final(process) == (ProcessControlBlock {
            inner: ProcessControlBlockInner {
                fd_table: final(process).inner.fd_table,
                ..old(process).inner
            },
            ..*old(process)
        }),
        ({
            let before = old(process).inner.fd_table@;
            let after = final(process).inner.fd_table@;
            let word = vstd::layout::size_of::<usize>() as int;
            let read_fd = crate::word::le_value(write.bytes@.subrange(0, word));
            let write_fd = crate::word::le_value(write.bytes@.subrange(word, 2 * word));
            &&& write.bytes@.len() == 2 * word
            &&& 0 <= read_fd < write_fd < after.len()
            &&& after[read_fd] == Some(pipe_read)
            &&& after[write_fd] == Some(pipe_write)
            &&& read_fd < before.len() ==> before[read_fd] is None
            &&& write_fd < before.len() ==> before[write_fd] is None
            &&& forall|i: int|
                0 <= i < write_fd && i != read_fd ==> i < before.len() && (#[trigger] before[i])
                    is Some
            &&& forall|i: int|
                0 <= i < before.len() && i != read_fd && i != write_fd ==> #[trigger] after[i]
                    == before[i]
        }),
{
    let token: usize = process.inner.get_user_token();
    let read_fd: usize = process.inner.install_file(pipe_read);
    let write_fd: usize = process.inner.install_file(pipe_write);
    let mut bytes: Vec<u8> = to_word_bytes(read_fd);
    let mut write_bytes: Vec<u8> = to_word_bytes(write_fd);
    proof {
        let table = old(process).inner.fd_table@;
        crate::word::law_word_round_trip(read_fd);
        crate::word::law_word_round_trip(write_fd);
        crate::task::fd_table::law_installs_ascend(table, pipe_read, pipe_write);
        crate::task::fd_table::law_install_fills_the_first_gap(table, pipe_read);
        crate::task::fd_table::law_install_fills_the_first_gap(
            crate::task::fd_table::install(table, pipe_read),
            pipe_write,
        );
    }
    let ghost first = bytes@;
    let ghost second = write_bytes@;
    bytes.append(&mut write_bytes);
    assert(bytes@.subrange(0, first.len() as int) =~= first);
    assert(bytes@.subrange(first.len() as int, bytes@.len() as int) =~= second);
    proof {
        let table = old(process).inner.fd_table@;
        let mid = crate::task::fd_table::install(table, pipe_read);
        let after = process.inner.fd_table@;
        assert(after[write_fd as int] == Some(pipe_write));
        assert(mid[read_fd as int] == Some(pipe_read));
        assert(after[read_fd as int] == mid[read_fd as int]);
        assert forall|i: int| 0 <= i < write_fd && i != read_fd implies i < table.len() && (
        #[trigger] table[i]) is Some by {
            assert(mid[i] is Some);
        }
        assert forall|i: int| 0 <= i < table.len() && i != read_fd && i != write_fd implies
            #[trigger] after[i] == table[i] by {
            assert(after[i] == mid[i]);
        }
        if write_fd < table.len() {
            assert(mid[write_fd as int] is None);
        }
    }
    UserWrite { token, addr: pipe, bytes }
}

/// The result of `pipe` once the two numbers are stored.
pub fn sys_pipe_stored() -> (code: isize)
    ensures
        code == 0,
{
    0
}

/// dup syscall
pub fn sys_dup(process: &mut ProcessControlBlock, fd: usize) -> (code: isize)
    ensures
        only_fds_differ(*final(process), *old(process)),
        match file_of(old(process), fd) {
            Some(file) => {
                &&& code == crate::word::signed(
                    crate::task::fd_table::lowest_free(old(process).inner.fd_table@) as usize,
                )
                &&& final(process).inner.fd_table@ == crate::task::fd_table::install(
                    old(process).inner.fd_table@,
                    file,
                )
            },
            None => code == FAILURE && *final(process) == *old(process),
        },
        *final(process) == (ProcessControlBlock {
            inner: ProcessControlBlockInner {
                fd_table: final(process).inner.fd_table,
                ..old(process).inner
            },
            ..*old(process)
        }),
        fd < old(process).inner.fd_table@.len() && old(process).inner.fd_table@[fd as int] is Some ==> {
            let before = old(process).inner.fd_table@;
            let after = final(process).inner.fd_table@;
            exists|new_fd: int|
                0 <= new_fd <= before.len() && code == crate::word::signed(new_fd as usize)
                    && #[trigger] after[new_fd] == Some(before[fd as int]->0) && (forall|i: int|
                    0 <= i < new_fd ==> (#[trigger] before[i]) is Some) && (new_fd < before.len()
                    ==> before[new_fd] is None && after.len() == before.len()) && (new_fd
                    == before.len() ==> after.len() == before.len() + 1) && (forall|i: int|
                    0 <= i < before.len() && i != new_fd ==> #[trigger] after[i] == before[i])
        },
        !(fd < old(process).inner.fd_table@.len() && old(process).inner.fd_table@[fd as int] is Some)
            ==> code + 1 == 0 && final(process).inner.fd_table@ == old(process).inner.fd_table@,
{
    match get_file(process, fd) {
        Some(file) => {
            let new_fd: usize = process.inner.install_file(file);
            assert(process.inner.fd_table@[new_fd as int] == Some(file));
            to_signed(new_fd)
        },
        None => FAILURE,
    }
}

/// How `fstat` goes on.
#[derive(Clone, Copy, PartialEq, Eq, Structural, Debug)]
pub enum StatStep {
    /// The call returns.
    Return(isize),
    /// The directory entries for the inode are counted, and [`sys_fstat_counted`] is told how
    /// many there are.
    CountLinks {
        /// The number of the inode.
        inode_id: u32,
    },
    /// The report is stored in the user's address space, and [`sys_fstat_stored`] ends the call.
    Store {
        /// Token of the address space.
        token: usize,
        /// Where the report goes.
        addr: usize,
        /// The report.
        stat: Stat,
    },
}

/// fstat syscall
pub fn sys_fstat(process: &ProcessControlBlock, fd: usize, st: usize) -> (step: StatStep)
    ensures
        step == if st == 0 || file_of(process, fd) is None {
            StatStep::Return(FAILURE)
        } else {
            match file_of(process, fd)->0.inode_id {
                Some(inode_id) => StatStep::CountLinks { inode_id },
                None => StatStep::Store {
                    token: process.inner.memory_set.token,
                    addr: st,
                    stat: Stat { dev: 0, ino: 0, mode: StatMode::Null, nlink: 0 },
                },
            }
        },
        ({
            let table = process.inner.fd_table@;
            let open = fd < table.len() && table[fd as int] is Some;
            &&& step is Return <==> st == 0 || !open
            &&& step is CountLinks <==> st != 0 && open && table[fd as int]->0.inode_id is Some
            &&& step matches StatStep::Return(code) ==> code + 1 == 0
            &&& step matches StatStep::CountLinks { inode_id } ==> table[fd as int]->0.inode_id
                == Some(inode_id)
            &&& step matches StatStep::Store { token, addr, stat } ==> token
                == process.inner.memory_set.token && addr == st && stat.dev == 0 && stat.ino == 0
                && stat.mode == StatMode::Null && stat.nlink == 0
        }),
{
    if st == 0 {
        return StatStep::Return(FAILURE);
    }
    let token: usize = process.inner.get_user_token();
    match get_file(process, fd) {
        Some(file) => match file.inode_id {
            Some(inode_id) => StatStep::CountLinks { inode_id },
            None => StatStep::Store {
                token,
                addr: st,
                stat: Stat { dev: 0, ino: 0, mode: StatMode::Null, nlink: 0 },
            },
        },
        None => StatStep::Return(FAILURE),
    }
}

/// The rest of `fstat` for a file on disk, given the number of its directory entries.
pub fn sys_fstat_counted(process: &ProcessControlBlock, st: usize, inode_id: u32, nlink: u32) -> (step:
    StatStep)
    ensures
        step == (StatStep::Store {
            token: process.inner.memory_set.token,
            addr: st,
            stat: Stat { dev: 0, ino: inode_id as u64, mode: StatMode::File, nlink },
        }),
{
    let token: usize = process.inner.get_user_token();
    StatStep::Store {
        token,
        addr: st,
        stat: Stat { dev: 0, ino: inode_id as u64, mode: StatMode::File, nlink },
    }
}

/// The result of `fstat` once the report is stored.
pub fn sys_fstat_stored() -> (code: isize)
    ensures
        code == 0,
{
    0
}

/// How `linkat` goes on. Names are given by the address of their text in the
/// user's address space.
#[derive(Clone, Copy, PartialEq, Eq, Structural, Debug)]
pub enum LinkStep {
    /// The call returns.
    Return(isize),
    /// Both names are read, the root directory is searched for the first, and
    /// [`sys_linkat_found`] is handed its inode.
    Find {
        /// Token of the address space that the names lie in.
        token: usize,
        /// The name to look for.
        name: usize,
        /// The name to be added.
        new_name: usize,
    },
    /// An entry is added to the root directory, and [`sys_linkat_added`] is told whether that
    /// worked.
    AddEntry {
        /// Token of the address space that the text lies in.
        token: usize,
        /// The name of the entry.
        name: usize,
        /// The inode that the entry stands for.
        inode_id: u32,
    },
}

/// The first step of `linkat`.
pub open spec fn linkat_start(token: usize, old_name: usize, new_name: usize) -> LinkStep {
    if old_name == 0 || new_name == 0 {
        LinkStep::Return(FAILURE)
    } else {
        LinkStep::Find { token, name: old_name, new_name }
    }
}

/// The step of `linkat` after the search.
pub open spec fn linkat_found(token: usize, new_name: usize, found: Option<u32>) -> LinkStep {
    match found {
        Some(inode_id) => LinkStep::AddEntry { token, name: new_name, inode_id },
        None => LinkStep::Return(FAILURE),
    }
}

/// The last step of `linkat`.
pub open spec fn linkat_added(added: bool) -> LinkStep {
    if added {
        LinkStep::Return(0)
    } else {
        LinkStep::Return(FAILURE)
    }
}

/// linkat syscall
pub fn sys_linkat(process: &ProcessControlBlock, old_name: usize, new_name: usize) -> (step: LinkStep)
    ensures
        step == linkat_start(process.inner.memory_set.token, old_name, new_name),
        step is Find <==> old_name != 0 && new_name != 0,
        step matches LinkStep::Find { token, name, new_name: added } ==> token
            == process.inner.memory_set.token && name == old_name && added == new_name,
        step !is AddEntry,
        step matches LinkStep::Return(code) ==> code + 1 == 0,
{
    if old_name == 0 || new_name == 0 {
        return LinkStep::Return(FAILURE);
    }
    let token: usize = process.inner.get_user_token();
    LinkStep::Find { token, name: old_name, new_name }
}

/// The rest of `linkat`, given the inode that the old name stands for.
pub fn sys_linkat_found(process: &ProcessControlBlock, new_name: usize, found: Option<u32>) -> (step:
    LinkStep)
    ensures
        step == linkat_found(process.inner.memory_set.token, new_name, found),
        step is AddEntry <==> found is Some,
        step matches LinkStep::AddEntry { token, name, inode_id } ==> token
            == process.inner.memory_set.token && name == new_name && found == Some(inode_id),
        step !is Find,
        step matches LinkStep::Return(code) ==> code + 1 == 0,
{
    let token: usize = process.inner.get_user_token();
    match found {
        Some(inode_id) => LinkStep::AddEntry { token, name: new_name, inode_id },
        None => LinkStep::Return(FAILURE),
    }
}

/// The end of `linkat`, given whether the entry was added.
pub fn sys_linkat_added(added: bool) -> (step: LinkStep)
    ensures
        step == linkat_added(added),
        step matches LinkStep::Return(code) && code == if added {
            0
        } else {
            -1int
        },
{
    if added {
        LinkStep::Return(0)
    } else {
        LinkStep::Return(FAILURE)
    }
}

/// How `unlinkat` goes on. Names are given by the address of their text in the
/// user's address space.
#[derive(Clone, Copy, PartialEq, Eq, Structural, Debug)]
pub enum UnlinkStep {
    /// The call returns.
    Return(isize),
    /// The name is read, the root directory is searched for it, and [`sys_unlinkat_found`] is
    /// handed its inode.
    Find {
        /// Token of the address space that the text lies in.
        token: usize,
        /// The name to look for.
        name: usize,
    },
    /// The entry is removed from the root directory, and [`sys_unlinkat_removed`] is told whether
    /// there was one.
    RemoveEntry {
        /// Token of the address space that the text lies in.
        token: usize,
        /// The name of the entry.
        name: usize,
        /// The inode that the name stood for.
        inode_id: u32,
    },
    /// The directory entries for the inode are counted, and [`sys_unlinkat_counted`] is told how
    /// many are left.
    CountLinks {
        /// The inode.
        inode_id: u32,
    },
    /// The contents of the inode are freed, and [`sys_unlinkat_cleared`] ends the call.
    Clear {
        /// The inode.
        inode_id: u32,
    },
}

/// The first step of `unlinkat`.
pub open spec fn unlinkat_start(token: usize, name: usize) -> UnlinkStep {
    if name == 0 {
        UnlinkStep::Return(FAILURE)
    } else {
        UnlinkStep::Find { token, name }
    }
}

/// The step of `unlinkat` after the search.
pub open spec fn unlinkat_found(token: usize, name: usize, found: Option<u32>) -> UnlinkStep {
    match found {
        Some(inode_id) => UnlinkStep::RemoveEntry { token, name, inode_id },
        None => UnlinkStep::Return(FAILURE),
    }
}

/// The step of `unlinkat` after the removal.
pub open spec fn unlinkat_removed(inode_id: u32, removed: bool) -> UnlinkStep {
    if removed {
        UnlinkStep::CountLinks { inode_id }
    } else {
        UnlinkStep::Return(FAILURE)
    }
}

/// The step of `unlinkat` after the count.
pub open spec fn unlinkat_counted(inode_id: u32, links: u32) -> UnlinkStep {
    if links == 0 {
        UnlinkStep::Clear { inode_id }
    } else {
        UnlinkStep::Return(0)
    }
}

/// The last step of `unlinkat`, after a file has lost its last name.
pub open spec fn unlinkat_cleared() -> UnlinkStep {
    UnlinkStep::Return(0)
}

/// unlinkat syscall
pub fn sys_unlinkat(process: &ProcessControlBlock, name: usize) -> (step: UnlinkStep)
    ensures
        step == unlinkat_start(process.inner.memory_set.token, name),
        step is Find <==> name != 0,
        step is Return <==> name == 0,
        step matches UnlinkStep::Find { token, name: at } ==> token
            == process.inner.memory_set.token && at == name,
        step matches UnlinkStep::Return(code) ==> code + 1 == 0,
{
    if name == 0 {
        return UnlinkStep::Return(FAILURE);
    }
    let token: usize = process.inner.get_user_token();
    UnlinkStep::Find { token, name }
}

/// The rest of `unlinkat`, given the inode that the name stands for.
pub fn sys_unlinkat_found(process: &ProcessControlBlock, name: usize, found: Option<u32>) -> (step:
    UnlinkStep)
    ensures
        step == unlinkat_found(process.inner.memory_set.token, name, found),
        step is RemoveEntry <==> found is Some,
        step is Return <==> found is None,
        step matches UnlinkStep::RemoveEntry { token, name: at, inode_id } ==> token
            == process.inner.memory_set.token && at == name && found == Some(inode_id),
        step matches UnlinkStep::Return(code) ==> code + 1 == 0,
{
    let token: usize = process.inner.get_user_token();
    match found {
        Some(inode_id) => UnlinkStep::RemoveEntry { token, name, inode_id },
        None => UnlinkStep::Return(FAILURE),
    }
}

/// The rest of `unlinkat`, given whether the entry was removed.
pub fn sys_unlinkat_removed(inode_id: u32, removed: bool) -> (step: UnlinkStep)
    ensures
        step == unlinkat_removed(inode_id, removed),
        step is CountLinks <==> removed,
        step is Return <==> !removed,
        step matches UnlinkStep::CountLinks { inode_id: id } ==> id == inode_id,
        step matches UnlinkStep::Return(code) ==> code + 1 == 0,
{
    if !removed {
        return UnlinkStep::Return(FAILURE);
    }
    UnlinkStep::CountLinks { inode_id }
}

/// The rest of `unlinkat`, given how many entries for the inode are left.
pub fn sys_unlinkat_counted(inode_id: u32, links: u32) -> (step: UnlinkStep)
    ensures
        step == unlinkat_counted(inode_id, links),
        step is Clear <==> links == 0,
        step is Return <==> links != 0,
        step matches UnlinkStep::Clear { inode_id: id } ==> id == inode_id,
        step matches UnlinkStep::Return(code) ==> code == 0,
{
    if links == 0 {
        return UnlinkStep::Clear { inode_id };
    }
    UnlinkStep::Return(0)
}

/// The end of `unlinkat` for a file that has lost its last name.
pub fn sys_unlinkat_cleared() -> (step: UnlinkStep)
    ensures
        step == unlinkat_cleared(),
        step matches UnlinkStep::Return(code) && code == 0,
{
    UnlinkStep::Return(0)
}

} // verus!
