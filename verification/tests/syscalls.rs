use os::fs::{Console, File, Stat, StatMode};
use os::mm::{write_user_value, MapPermission, MemorySet, PageTable, PageTableEntry};
use os::syscall::fs::{
    sys_close, sys_dup, sys_fstat, sys_fstat_counted, sys_fstat_stored, sys_linkat, sys_linkat_added,
    sys_linkat_found, sys_open, sys_open_done, sys_pipe, sys_pipe_done, sys_pipe_stored, sys_read,
    sys_transfer_done, sys_unlinkat, sys_unlinkat_cleared, sys_unlinkat_counted, sys_unlinkat_found,
    sys_unlinkat_removed, sys_write, LinkStep, OpenStep, PipeStep, StatStep, TransferStep,
    UnlinkStep,
};
use os::syscall::process::{
    mmap_permission, sys_exit, sys_get_time, sys_get_time_done, sys_mmap, sys_mmap_done, sys_munmap,
    sys_munmap_done, sys_sbrk, sys_sbrk_done, sys_trace, sys_trace_read, sys_trace_written, sys_yield,
    user_range_is_accessible, user_range_is_in_reach, MapStep, SchedStep, TimeStep, TimeVal, TraceStep, UnmapStep,
};
use os::task::id::PidHandle;
use os::task::process::{KernelEntry, LoadedImage, ProcessControlBlock, UserArea};
use os::task::task::{TaskContext, TaskControlBlock, TaskStatus, MAX_SYSCALL_NUM};
use os::word::{to_signed, to_word_bytes};
use std::collections::BTreeMap;

fn file(handle: usize, readable: bool, writable: bool, inode_id: Option<u32>) -> File {
    File { handle, readable, writable, inode_id }
}

fn new_process() -> ProcessControlBlock {
    ProcessControlBlock::new(
        PidHandle(1),
        LoadedImage { memory_set: MemorySet { token: 99 }, ustack_base: 0, entry_point: 0 },
        UserArea { ustack_top: 0x1000, trap_cx_ppn: 0 },
        0,
        KernelEntry { kernel_satp: 0, trap_handler: 0 },
        Console {
            stdin: file(0, true, false, None),
            stdout: file(1, false, true, None),
            stderr: file(2, false, true, None),
        },
    )
}

fn page(r: bool, w: bool, u: bool, valid: bool) -> PageTableEntry {
    PageTableEntry { valid, flags: MapPermission { r, w, x: false, u } }
}

#[test]
fn write_checks_buffer_and_file() {
    let p = new_process();
    assert_eq!(
        sys_write(&p, 1, 0x500, 10),
        TransferStep::Transfer { file: file(1, false, true, None), token: 99, buf: 0x500, len: 10 }
    );
    assert_eq!(sys_write(&p, 1, 0, 10), TransferStep::Return(-1));
    assert_eq!(
        sys_write(&p, 2, 0, 0),
        TransferStep::Transfer { file: file(2, false, true, None), token: 99, buf: 0, len: 0 }
    );
    assert_eq!(sys_write(&p, 0, 0x500, 10), TransferStep::Return(-1));
    assert_eq!(sys_write(&p, 3, 0x500, 10), TransferStep::Return(-1));
    assert_eq!(sys_transfer_done(10), 10);
    assert_eq!(sys_transfer_done(usize::MAX), -1);
}

#[test]
fn read_checks_buffer_and_file() {
    let mut p = new_process();
    assert_eq!(
        sys_read(&p, 0, 0x500, 4),
        TransferStep::Transfer { file: file(0, true, false, None), token: 99, buf: 0x500, len: 4 }
    );
    assert_eq!(sys_read(&p, 1, 0x500, 4), TransferStep::Return(-1));
    assert_eq!(sys_read(&p, 0, 0, 1), TransferStep::Return(-1));
    assert_eq!(sys_close(&mut p, 0), 0);
    assert_eq!(sys_read(&p, 0, 0x500, 4), TransferStep::Return(-1));
}

#[test]
fn open_takes_the_lowest_descriptor() {
    let mut p = new_process();
    assert_eq!(sys_open(&p, 0, 0, 0x603), OpenStep::Return(-1));
    assert_eq!(sys_open(&p, 0x10, 4, 0x603), OpenStep::Return(-1));
    assert_eq!(
        sys_open(&p, 0x10, 0x201, 0x603),
        OpenStep::OpenPath { token: 99, path: 0x10, flags: 0x201 }
    );
    assert_eq!(sys_open_done(&mut p, None), -1);
    assert_eq!(p.inner.fd_table.len(), 3);
    assert_eq!(sys_open_done(&mut p, Some(file(5, true, true, Some(8)))), 3);
    assert_eq!(p.inner.fd_table[3], Some(file(5, true, true, Some(8))));
    assert_eq!(sys_close(&mut p, 1), 0);
    assert_eq!(sys_open_done(&mut p, Some(file(6, true, true, Some(9)))), 1);
    assert_eq!(sys_open_done(&mut p, Some(file(7, true, true, None))), 4);
}

#[test]
fn close_frees_a_descriptor_once() {
    let mut p = new_process();
    assert_eq!(sys_close(&mut p, 2), 0);
    assert_eq!(sys_close(&mut p, 2), -1);
    assert_eq!(sys_close(&mut p, 50), -1);
    assert_eq!(p.inner.fd_table.len(), 3);
}

#[test]
fn dup_shares_the_file() {
    let mut p = new_process();
    assert_eq!(sys_dup(&mut p, 1), 3);
    assert_eq!(p.inner.fd_table[3], p.inner.fd_table[1]);
    assert_eq!(sys_close(&mut p, 1), 0);
    assert_eq!(p.inner.fd_table[3], Some(file(1, false, true, None)));
    assert_eq!(sys_dup(&mut p, 1), -1);
    assert_eq!(sys_dup(&mut p, 4), -1);
    assert_eq!(sys_dup(&mut p, 3), 1);
}

#[test]
fn closing_a_duplicate_restores_the_table() {
    let mut p = new_process();
    sys_close(&mut p, 1);
    let before = p.inner.fd_table.clone();
    assert_eq!(sys_dup(&mut p, 2), 1);
    assert_eq!(sys_close(&mut p, 1), 0);
    assert_eq!(p.inner.fd_table, before);
}

#[test]
fn pipe_gives_two_descriptors() {
    let mut p = new_process();
    assert_eq!(sys_pipe(0), PipeStep::Return(-1));
    assert_eq!(sys_pipe(0x400), PipeStep::MakePipe);
    sys_close(&mut p, 0);
    let write = sys_pipe_done(&mut p, 0x400, file(10, true, false, None), file(11, false, true, None));
    assert_eq!(p.inner.fd_table[0], Some(file(10, true, false, None)));
    assert_eq!(p.inner.fd_table[3], Some(file(11, false, true, None)));
    assert_eq!(write.token, 99);
    assert_eq!(write.addr, 0x400);
    let mut expected = to_word_bytes(0);
    expected.extend(to_word_bytes(3));
    assert_eq!(write.bytes, expected);
}

#[test]
fn fstat_tells_disk_files_from_others() {
    let mut p = new_process();
    assert_eq!(sys_fstat(&p, 0, 0), StatStep::Return(-1));
    assert_eq!(sys_fstat(&p, 9, 0x300), StatStep::Return(-1));
    assert_eq!(
        sys_fstat(&p, 0, 0x300),
        StatStep::Store {
            token: 99,
            addr: 0x300,
            stat: Stat { dev: 0, ino: 0, mode: StatMode::Null, nlink: 0 },
        }
    );
    sys_open_done(&mut p, Some(file(5, true, true, Some(8))));
    assert_eq!(sys_fstat(&p, 3, 0x300), StatStep::CountLinks { inode_id: 8 });
    assert_eq!(
        sys_fstat_counted(&p, 0x300, 8, 2),
        StatStep::Store {
            token: 99,
            addr: 0x300,
            stat: Stat { dev: 0, ino: 8, mode: StatMode::File, nlink: 2 },
        }
    );
}

#[test]
fn linkat_finds_then_adds() {
    let p = new_process();
    assert_eq!(sys_linkat(&p, 0, 5), LinkStep::Return(-1));
    assert_eq!(sys_linkat(&p, 5, 0), LinkStep::Return(-1));
    assert_eq!(sys_linkat(&p, 5, 6), LinkStep::Find { token: 99, name: 5, new_name: 6 });
    assert_eq!(sys_linkat_found(&p, 6, None), LinkStep::Return(-1));
    assert_eq!(sys_linkat_found(&p, 6, Some(3)), LinkStep::AddEntry { token: 99, name: 6, inode_id: 3 });
    assert_eq!(sys_linkat_added(true), LinkStep::Return(0));
    assert_eq!(sys_linkat_added(false), LinkStep::Return(-1));
}

#[test]
fn unlinkat_clears_with_the_last_link() {
    let p = new_process();
    assert_eq!(sys_unlinkat(&p, 0), UnlinkStep::Return(-1));
    assert_eq!(sys_unlinkat(&p, 5), UnlinkStep::Find { token: 99, name: 5 });
    assert_eq!(sys_unlinkat_found(&p, 5, None), UnlinkStep::Return(-1));
    assert_eq!(sys_unlinkat_found(&p, 5, Some(3)), UnlinkStep::RemoveEntry { token: 99, name: 5, inode_id: 3 });
    assert_eq!(sys_unlinkat_removed(3, false), UnlinkStep::Return(-1));
    assert_eq!(sys_unlinkat_removed(3, true), UnlinkStep::CountLinks { inode_id: 3 });
    assert_eq!(sys_unlinkat_counted(3, 0), UnlinkStep::Clear { inode_id: 3 });
    assert_eq!(sys_unlinkat_counted(3, 1), UnlinkStep::Return(0));
}

#[test]
fn user_ranges() {
    let mut t = PageTable::empty(77);
    t.set_entry(1, page(true, true, true, true));
    t.set_entry(2, page(true, false, true, true));
    t.set_entry(3, page(true, true, false, true));
    t.set_entry(4, page(true, true, true, false));
    assert_eq!(t.translate(2), Some(page(true, false, true, true)));
    assert_eq!(t.translate(9), None);
    assert_eq!(t.token(), 77);
    assert!(user_range_is_accessible(&t, 0, 0, true));
    assert!(user_range_is_accessible(&t, 0x1000, 0x1000, true));
    assert!(user_range_is_accessible(&t, 0x1fff, 1, true));
    assert!(!user_range_is_accessible(&t, 0x1fff, 2, true));
    assert!(user_range_is_accessible(&t, 0x1fff, 2, false));
    assert!(user_range_is_accessible(&t, 0x1234, 0x1dcc, false));
    assert!(!user_range_is_accessible(&t, 0x1234, 0x1dcd, false));
    assert!(!user_range_is_accessible(&t, 0x3000, 1, false));
    assert!(!user_range_is_accessible(&t, 0x4000, 1, false));
    assert!(!user_range_is_accessible(&t, 0x0, 1, false));
    assert!(!user_range_is_accessible(&t, 0x1000, usize::MAX, false));
    assert!(!user_range_is_accessible(&t, usize::MAX, 1, false));
}

#[test]
fn ranges_in_the_last_page() {
    let last = usize::MAX / 4096;
    let start = last * 4096;
    let mut t = PageTable::empty(77);
    assert!(user_range_is_in_reach(&t, start, 8, true));
    assert!(!user_range_is_accessible(&t, start, 8, true));
    t.set_entry(last, page(true, true, true, true));
    assert!(!user_range_is_in_reach(&t, start, 8, true));
    assert!(user_range_is_in_reach(&t, start, 0, true));
    assert!(user_range_is_accessible(&t, start, 0, true));
    // the page before is not mapped
    assert!(user_range_is_in_reach(&t, start - 8, 16, true));
    assert!(!user_range_is_accessible(&t, start - 8, 16, true));
    t.set_entry(last - 1, page(true, true, true, true));
    assert!(!user_range_is_in_reach(&t, start - 8, 16, true));
    assert!(user_range_is_in_reach(&t, start - 8, 8, true));
    assert!(user_range_is_accessible(&t, start - 8, 8, true));
    assert!(user_range_is_in_reach(&t, start, usize::MAX, true));
}

#[test]
fn get_time_writes_seconds_and_microseconds() {
    let mut t = PageTable::empty(77);
    t.set_entry(1, page(true, true, true, true));
    match sys_get_time(&t, 0x1008, 0, 12_345_678) {
        TimeStep::Store(write) => {
            assert_eq!(write.token, 77);
            assert_eq!(write.addr, 0x1008);
            let mut expected = to_word_bytes(12);
            expected.extend(to_word_bytes(345_678));
            assert_eq!(write.bytes, expected);
        }
        TimeStep::Return(_) => panic!("the page is writable"),
    }
    assert!(matches!(sys_get_time(&t, 0x1ff8, 0, 5), TimeStep::Return(-1)));
    assert_eq!(TimeVal::from_us(999_999), TimeVal { sec: 0, usec: 999_999 });
    assert_eq!(TimeVal::from_us(1_000_000), TimeVal { sec: 1, usec: 0 });
}

#[test]
fn trace_reads_writes_and_counts() {
    let mut t = PageTable::empty(77);
    t.set_entry(1, page(true, true, true, true));
    t.set_entry(2, page(true, false, true, true));
    assert_eq!(sys_trace(&t, 0, 0x2004, 0, None), TraceStep::ReadByte { token: 77, addr: 0x2004 });
    assert_eq!(sys_trace(&t, 0, 0x3004, 0, None), TraceStep::Return(-1));
    assert_eq!(sys_trace_read(200), 200);
    assert_eq!(sys_trace(&t, 1, 0x1004, 0x1ff, None), TraceStep::WriteByte { token: 77, addr: 0x1004, value: 0xff });
    assert_eq!(sys_trace(&t, 1, 0x2004, 1, None), TraceStep::Return(-1));
    assert_eq!(sys_trace(&t, 2, 64, 0, Some(17)), TraceStep::Return(17));
    assert_eq!(sys_trace(&t, 2, 64, 0, None), TraceStep::Return(-1));
    assert_eq!(sys_trace(&t, 3, 64, 0, Some(17)), TraceStep::Return(-1));
}

#[test]
fn mmap_checks_its_arguments() {
    let rw = MapPermission { r: true, w: true, x: false, u: true };
    assert_eq!(sys_mmap(0x1000, 1, 3), MapStep::MapPages { start: 0x1000, len: 1, permission: rw });
    assert_eq!(sys_mmap(0x1001, 1, 3), MapStep::Return(-1));
    assert_eq!(sys_mmap(0x1000, 1, 0), MapStep::Return(-1));
    assert_eq!(sys_mmap(0x1000, 1, 8), MapStep::Return(-1));
    assert_eq!(sys_mmap(0x1000, 0, 8), MapStep::Return(-1));
    assert_eq!(sys_mmap(0x1000, 0, 1), MapStep::Return(0));
    assert_eq!(sys_mmap_done(true), 0);
    assert_eq!(sys_mmap_done(false), -1);
    assert_eq!(mmap_permission(4), Some(MapPermission { r: false, w: false, x: true, u: true }));
    assert_eq!(mmap_permission(7), Some(MapPermission { r: true, w: true, x: true, u: true }));
    assert_eq!(mmap_permission(usize::MAX), None);
}

#[test]
fn munmap_checks_its_arguments() {
    assert_eq!(sys_munmap(0x2000, 5), UnmapStep::UnmapPages { start: 0x2000, len: 5 });
    assert_eq!(sys_munmap(0x2002, 5), UnmapStep::Return(-1));
    assert_eq!(sys_munmap(0x2000, 0), UnmapStep::Return(0));
    assert_eq!(sys_munmap_done(true), 0);
    assert_eq!(sys_munmap_done(false), -1);
}

#[test]
fn sbrk_returns_the_old_end() {
    assert_eq!(sys_sbrk(-16).size, -16);
    assert_eq!(sys_sbrk_done(Some(0x7000)), 0x7000);
    assert_eq!(sys_sbrk_done(None), -1);
}

#[test]
fn scheduling_calls() {
    assert_eq!(sys_yield(), SchedStep::Suspend { result: 0 });
    assert_eq!(sys_exit(3), SchedStep::Exit { code: 3 });
    assert_eq!(sys_exit(-7), SchedStep::Exit { code: -7 });
}

#[test]
fn syscalls_are_counted() {
    let mut task = TaskControlBlock {
        task_status: TaskStatus::Ready,
        task_cx: TaskContext { ra: 0, sp: 0, s: [0; 12] },
        syscall_times: [0; MAX_SYSCALL_NUM],
    };
    task.record_syscall(64);
    task.record_syscall(64);
    task.record_syscall(511);
    task.record_syscall(512);
    task.record_syscall(usize::MAX);
    assert_eq!(task.syscall_times(64), 2);
    assert_eq!(task.syscall_times(511), 1);
    assert_eq!(task.syscall_times(65), 0);
    assert_eq!(task.syscall_times(512), 0);
    assert_eq!(task.task_status, TaskStatus::Ready);
}

#[test]
fn values_are_split_over_chunks() {
    let pieces = write_user_value(&vec![1, 2, 3, 4, 5], &vec![2, 0, 3]);
    assert_eq!(pieces, vec![vec![1u8, 2], vec![], vec![3, 4, 5]]);
    assert_eq!(pieces.concat(), vec![1, 2, 3, 4, 5]);
    assert!(write_user_value(&vec![], &vec![]).is_empty());
}

#[test]
fn words_in_memory() {
    let mut expected = vec![0u8; core::mem::size_of::<usize>()];
    expected[0] = 0x34;
    expected[1] = 0x12;
    assert_eq!(to_word_bytes(0x1234), expected);
    assert_eq!(to_word_bytes(usize::MAX), usize::MAX.to_le_bytes().to_vec());
    assert_eq!(to_signed(5), 5);
    assert_eq!(to_signed(usize::MAX), -1);
    assert_eq!(to_signed(isize::MAX as usize + 1), isize::MIN);
}

/// Carries out the steps of a link call on a directory.
fn run_link(p: &ProcessControlBlock, dir: &mut BTreeMap<usize, u32>, old: usize, new: usize) -> isize {
    let mut step = sys_linkat(p, old, new);
    loop {
        step = match step {
            LinkStep::Return(code) => return code,
            LinkStep::Find { token: _, name, new_name: _ } => {
                sys_linkat_found(p, new, dir.get(&name).copied())
            }
            LinkStep::AddEntry { token: _, name, inode_id } => {
                let added = !dir.contains_key(&name);
                if added {
                    dir.insert(name, inode_id);
                }
                sys_linkat_added(added)
            }
        };
    }
}

/// Carries out the steps of an unlink call on a directory, and says which inode was freed.
fn run_unlink(p: &ProcessControlBlock, dir: &mut BTreeMap<usize, u32>, name: usize) -> (isize, Option<u32>) {
    let mut step = sys_unlinkat(p, name);
    loop {
        step = match step {
            UnlinkStep::Return(code) => return (code, None),
            UnlinkStep::Find { token: _, name } => {
                sys_unlinkat_found(p, name, dir.get(&name).copied())
            }
            UnlinkStep::RemoveEntry { token: _, name, inode_id } => {
                sys_unlinkat_removed(inode_id, dir.remove(&name).is_some())
            }
            UnlinkStep::CountLinks { inode_id } => {
                let links = dir.values().filter(|id| **id == inode_id).count();
                sys_unlinkat_counted(inode_id, links as u32)
            }
            UnlinkStep::Clear { inode_id } => {
                assert_eq!(sys_unlinkat_cleared(), UnlinkStep::Return(0));
                return (0, Some(inode_id));
            }
        };
    }
}

#[test]
fn names_come_and_go() {
    let p = new_process();
    let mut dir: BTreeMap<usize, u32> = BTreeMap::new();
    dir.insert(100, 7);
    assert_eq!(run_link(&p, &mut dir, 100, 200), 0);
    assert_eq!(dir.get(&200), Some(&7));
    assert_eq!(run_link(&p, &mut dir, 100, 200), -1);
    assert_eq!(run_link(&p, &mut dir, 300, 400), -1);
    assert_eq!(run_unlink(&p, &mut dir, 200), (0, None));
    assert_eq!(dir.len(), 1);
    assert_eq!(run_unlink(&p, &mut dir, 200), (-1, None));
    assert_eq!(run_unlink(&p, &mut dir, 100), (0, Some(7)));
    assert!(dir.is_empty());
}

#[test]
fn finished_calls_return_zero() {
    assert_eq!(sys_get_time_done(), 0);
    assert_eq!(sys_trace_written(), 0);
    assert_eq!(sys_pipe_stored(), 0);
    assert_eq!(sys_fstat_stored(), 0);
}

#[test]
fn trace_reads_what_it_wrote() {
    let mut t = PageTable::empty(77);
    t.set_entry(1, page(true, true, true, true));
    let mut memory: BTreeMap<usize, u8> = BTreeMap::new();
    memory.insert(0x1003, 1);
    memory.insert(0x1005, 2);
    match sys_trace(&t, 1, 0x1004, 0x3a7, None) {
        TraceStep::WriteByte { token, addr, value } => {
            assert_eq!(token, 77);
            memory.insert(addr, value);
        }
        _ => panic!("the byte is writable"),
    }
    match sys_trace(&t, 0, 0x1004, 0, None) {
        TraceStep::ReadByte { token, addr } => {
            assert_eq!(token, 77);
            assert_eq!(sys_trace_read(memory[&addr]), 0xa7);
        }
        _ => panic!("the byte is readable"),
    }
    assert_eq!(memory[&0x1003], 1);
    assert_eq!(memory[&0x1005], 2);
}
