use os::fs::{Console, File};
use os::mm::MemorySet;
use os::sync::mutex::{Mutex, MutexBlocking, MutexSpin};
use os::sync::queue::WaitStep;
use os::sync::semaphore::Semaphore;
use os::task::argv::args_have_room;
use os::task::id::{PidHandle, RecycleAllocator};
use os::task::process::{KernelEntry, LoadedImage, ProcessControlBlock, UserArea};
use os::task::thread::{current_tid, task_tid, REG_A0, REG_A1, REG_SP};

fn console_file(handle: usize, readable: bool) -> File {
    File { handle, readable, writable: !readable, inode_id: None }
}

fn image(token: usize) -> LoadedImage {
    LoadedImage { memory_set: MemorySet { token }, ustack_base: 0x10000, entry_point: 0x1000 }
}

fn new_process() -> ProcessControlBlock {
    ProcessControlBlock::new(
        PidHandle(7),
        image(0x8000),
        UserArea { ustack_top: 0x12000, trap_cx_ppn: 33 },
        0xffff0000,
        KernelEntry { kernel_satp: 0x8fff, trap_handler: 0xabc },
        Console {
            stdin: console_file(0, true),
            stdout: console_file(1, false),
            stderr: console_file(2, false),
        },
    )
}

#[test]
fn new_process_has_console_and_main_thread() {
    let mut p = new_process();
    assert_eq!(p.getpid(), 7);
    assert!(!p.deadlock_detect_enabled());
    assert!(!p.has_deadlock());
    let inner = p.inner_exclusive_access();
    assert_eq!(inner.get_user_token(), 0x8000);
    assert_eq!(inner.thread_count(), 1);
    assert_eq!(inner.fd_table.len(), 3);
    assert_eq!(inner.fd_table[0].unwrap().handle, 0);
    assert_eq!(inner.fd_table[2].unwrap().handle, 2);
    assert!(inner.parent.is_none());
    let task = *inner.get_task(0);
    assert_eq!(task_tid(&task), 0);
    assert_eq!(current_tid(&Some(task)), 0);
    assert_eq!(task.kstack_top, 0xffff0000);
    assert_eq!(task.trap_cx.x[REG_SP], 0x12000);
    assert_eq!(task.trap_cx.x[REG_A0], 0);
    assert_eq!(task.trap_cx.sepc, 0x1000);
    assert_eq!(task.trap_cx.kernel_sp, 0xffff0000);
    assert_eq!(task.trap_cx.kernel_satp, 0x8fff);
    assert_eq!(task.trap_cx.trap_handler, 0xabc);
}

#[test]
fn detection_can_be_switched() {
    let mut p = new_process();
    p.set_deadlock_detect(true);
    assert!(p.deadlock_detect_enabled());
    p.set_deadlock_detect(false);
    assert!(!p.deadlock_detect_enabled());
}

#[test]
fn exec_replaces_program_and_passes_arguments() {
    let mut p = new_process();
    let args = vec![String::from("ls"), String::from("-la")];
    let top: usize = 0x5000;
    let w = core::mem::size_of::<usize>();
    let writes = p.exec(
        LoadedImage { memory_set: MemorySet { token: 0x9000 }, ustack_base: 0x20000, entry_point: 0x2000 },
        UserArea { ustack_top: top, trap_cx_ppn: 44 },
        KernelEntry { kernel_satp: 1, trap_handler: 2 },
        &args,
    );
    let argv = top - 3 * w;
    let mut memory: Vec<u8> = vec![0xee; top];
    for write in writes.iter() {
        assert_eq!(write.token, 0x9000);
        for (i, b) in write.bytes.iter().enumerate() {
            memory[write.addr + i] = *b;
        }
    }
    let word = |addr: usize| -> usize {
        let mut v: usize = 0;
        for i in (0..w).rev() {
            v = v * 256 + memory[addr + i] as usize;
        }
        v
    };
    assert_eq!(word(argv), argv - 3);
    assert_eq!(word(argv + w), argv - 7);
    assert_eq!(word(argv + 2 * w), 0);
    assert_eq!(&memory[argv - 3..argv], b"ls\0");
    assert_eq!(&memory[argv - 7..argv - 3], b"-la\0");
    assert_eq!(memory[argv - 8], 0xee);
    let task = *p.inner.get_task(0);
    let sp = (argv - 7) - (argv - 7) % w;
    assert_eq!(task.trap_cx.x[REG_SP], sp);
    assert_eq!(task.trap_cx.x[REG_A0], 2);
    assert_eq!(task.trap_cx.x[REG_A1], argv);
    assert_eq!(task.trap_cx.sepc, 0x2000);
    assert_eq!(task.trap_cx.kernel_sp, 0xffff0000);
    assert_eq!(task.res.unwrap().ustack_base, 0x20000);
    assert_eq!(task.res.unwrap().ustack_top, top);
    assert_eq!(task.trap_cx_ppn, 44);
    assert_eq!(p.inner.get_user_token(), 0x9000);
    assert_eq!(p.getpid(), 7);
}

#[test]
fn exec_without_arguments() {
    let mut p = new_process();
    let w = core::mem::size_of::<usize>();
    let writes = p.exec(
        image(1),
        UserArea { ustack_top: 0x1000, trap_cx_ppn: 1 },
        KernelEntry { kernel_satp: 1, trap_handler: 2 },
        &vec![],
    );
    assert_eq!(writes.len(), 1);
    assert_eq!(writes[0].addr, 0x1000 - w);
    assert_eq!(writes[0].bytes, vec![0u8; w]);
    assert_eq!(p.inner.get_task(0).trap_cx.x[REG_SP], 0x1000 - w);
    assert_eq!(p.inner.get_task(0).trap_cx.x[REG_A0], 0);
    assert_eq!(p.inner.get_task(0).trap_cx.x[REG_A1], 0x1000 - w);
}

#[test]
fn exec_counts_bytes_not_characters() {
    let mut p = new_process();
    let w = core::mem::size_of::<usize>();
    let writes = p.exec(
        image(1),
        UserArea { ustack_top: 0x1000, trap_cx_ppn: 1 },
        KernelEntry { kernel_satp: 1, trap_handler: 2 },
        &vec![String::from("\u{e9}")],
    );
    assert_eq!(writes[2].addr, 0x1000 - 2 * w - 3);
    assert_eq!(writes[2].bytes, vec![0xc3, 0xa9, 0]);
}

#[test]
fn fork_copies_descriptors_and_context() {
    let mut p = new_process();
    p.set_deadlock_detect(true);
    p.inner.fd_table[1] = None;
    p.inner.mutex_list.push(Some(Box::new(MutexSpin::new())));
    let child = p.fork(
        PidHandle(8),
        MemorySet { token: 0xc000 },
        UserArea { ustack_top: 0x12000, trap_cx_ppn: 55 },
        0xeeee0000,
    );
    assert_eq!(p.inner.children, vec![PidHandle(8)]);
    assert_eq!(child.getpid(), 8);
    assert_eq!(child.inner.parent, Some(PidHandle(7)));
    assert_eq!(child.inner.fd_table, p.inner.fd_table);
    assert!(child.deadlock_detect_enabled());
    assert!(child.inner.mutex_list.is_empty());
    assert!(child.inner.children.is_empty());
    assert_eq!(child.inner.get_user_token(), 0xc000);
    assert_eq!(p.inner.get_user_token(), 0x8000);
    let task = child.inner.get_task(0);
    assert_eq!(task.trap_cx.kernel_sp, 0xeeee0000);
    assert_eq!(task.trap_cx.sepc, 0x1000);
    assert_eq!(task.trap_cx.x[REG_SP], 0x12000);
    assert_eq!(task.kstack_top, 0xeeee0000);
    assert_eq!(task.res.unwrap().ustack_base, 0x10000);
    assert_eq!(task.res.unwrap().tid, 0);
}

#[test]
fn descriptors_are_the_lowest_free_ones() {
    let mut p = new_process();
    let inner = p.inner_exclusive_access();
    assert_eq!(inner.alloc_fd(), 3);
    assert_eq!(inner.fd_table.len(), 4);
    assert_eq!(inner.alloc_fd(), 3);
    inner.fd_table[1] = None;
    assert_eq!(inner.alloc_fd(), 1);
    assert_eq!(inner.install_file(console_file(9, true)), 1);
    assert_eq!(inner.install_file(console_file(10, true)), 3);
    assert_eq!(inner.install_file(console_file(11, true)), 4);
    assert_eq!(inner.fd_table[4].unwrap().handle, 11);
}

#[test]
fn thread_ids_are_recycled() {
    let mut p = new_process();
    let inner = p.inner_exclusive_access();
    assert_eq!(inner.alloc_tid(), 1);
    assert_eq!(inner.alloc_tid(), 2);
    inner.dealloc_tid(1);
    inner.dealloc_tid(0);
    assert_eq!(inner.alloc_tid(), 0);
    assert_eq!(inner.alloc_tid(), 1);
    assert_eq!(inner.alloc_tid(), 3);
    let mut a = RecycleAllocator::new();
    assert_eq!(a.alloc_id(), 0);
    a.dealloc_id(0);
    assert_eq!(a.alloc_id(), 0);
}

#[test]
fn mutex_request_that_closes_a_cycle_is_predicted() {
    let mut p = new_process();
    for _ in 0..2 {
        p.inner.mutex_list.push(Some(Box::new(MutexBlocking::new())));
    }
    p.inner.mutex_list.push(None);
    let list = &mut p.inner.mutex_list;
    assert_eq!(list[0].as_mut().unwrap().lock(1), WaitStep::Acquired);
    assert_eq!(list[1].as_mut().unwrap().lock(2), WaitStep::Acquired);
    assert!(!p.mutex_deadlock_on_request(2, 0));
    assert!(!p.mutex_deadlock_on_request(3, 0));
    // a thread that locks its own mutex again waits for itself
    assert!(p.mutex_deadlock_on_request(1, 0));
    assert!(!p.mutex_deadlock_on_request(1, 2));
    assert!(!p.mutex_deadlock_on_request(1, 3));
    assert_eq!(p.inner.mutex_list[0].as_mut().unwrap().lock(2), WaitStep::Blocked);
    assert!(!p.has_deadlock());
    assert_eq!(p.inner.waiting_mutex_of(2), Some(0));
    assert_eq!(p.inner.waiting_mutex_of(1), None);
    assert!(p.inner.mutex_chain_reaches(2, 1));
    assert!(p.inner.mutex_chain_reaches(1, 1));
    assert!(!p.inner.mutex_chain_reaches(1, 2));
    assert!(p.mutex_deadlock_on_request(1, 1));
    assert!(!p.mutex_deadlock_on_request(3, 1));
    assert_eq!(p.inner.mutex_list[1].as_mut().unwrap().lock(1), WaitStep::Blocked);
    assert!(p.has_deadlock());
    assert!(p.inner.has_mutex_deadlock());
    assert!(!p.inner.has_semaphore_deadlock());
    // a chain that runs into the cycle ends, without reaching anyone outside it
    assert!(!p.inner.mutex_chain_reaches(1, 9));
}

#[test]
fn unlocking_dissolves_the_wait() {
    let mut p = new_process();
    p.inner.mutex_list.push(Some(Box::new(MutexSpin::new())));
    let m = p.inner.mutex_list[0].as_mut().unwrap();
    m.lock(1);
    m.lock(2);
    assert_eq!(m.unlock(), Some(2));
    assert!(!p.has_deadlock());
    assert!(!p.mutex_deadlock_on_request(1, 0));
    assert!(p.mutex_deadlock_on_request(2, 0));
}

#[test]
fn semaphore_request_that_closes_a_cycle_is_predicted() {
    let mut p = new_process();
    for _ in 0..2 {
        p.inner.semaphore_list.push(Some(Semaphore::new(1)));
    }
    p.inner.semaphore_list.push(None);
    assert_eq!(p.inner.semaphore_list[0].as_mut().unwrap().down(1), WaitStep::Acquired);
    assert!(!p.semaphore_deadlock_on_request(1, 1));
    assert!(p.semaphore_deadlock_on_request(1, 0));
    assert!(!p.semaphore_deadlock_on_request(1, 2));
    assert!(!p.semaphore_deadlock_on_request(1, 3));
    assert_eq!(p.inner.semaphore_list[1].as_mut().unwrap().down(2), WaitStep::Acquired);
    assert_eq!(p.inner.semaphore_list[0].as_mut().unwrap().down(2), WaitStep::Blocked);
    assert_eq!(p.inner.waiting_semaphore_of(2), Some(0));
    assert_eq!(p.inner.waiting_semaphore_of(1), None);
    assert!(p.inner.semaphore_chain_reaches(2, 1));
    assert!(!p.inner.semaphore_chain_reaches(1, 2));
    assert!(!p.has_deadlock());
    assert!(p.semaphore_deadlock_on_request(1, 1));
    assert_eq!(p.inner.semaphore_list[1].as_mut().unwrap().down(1), WaitStep::Blocked);
    assert!(p.has_deadlock());
    assert!(p.inner.has_semaphore_deadlock());
    assert!(!p.inner.has_mutex_deadlock());
}

#[test]
fn semaphore_chain_branches_over_all_holders() {
    let mut p = new_process();
    p.inner.semaphore_list.push(Some(Semaphore::new(2)));
    p.inner.semaphore_list.push(Some(Semaphore::new(1)));
    let list = &mut p.inner.semaphore_list;
    list[0].as_mut().unwrap().down(1);
    list[0].as_mut().unwrap().down(2);
    list[1].as_mut().unwrap().down(4);
    list[0].as_mut().unwrap().down(3);
    list[1].as_mut().unwrap().down(2);
    assert!(p.inner.semaphore_chain_reaches(3, 1));
    assert!(p.inner.semaphore_chain_reaches(3, 4));
    assert!(!p.inner.semaphore_chain_reaches(1, 4));
    // 4 would wait for 1 and 2, and 2 waits for 4, but 1 can give its unit back
    assert!(!p.semaphore_deadlock_on_request(4, 0));
    assert!(!p.semaphore_deadlock_on_request(5, 0));
    // once 1 waits for 4 too, nobody can
    p.inner.semaphore_list[1].as_mut().unwrap().down(1);
    assert!(!p.has_deadlock());
    assert!(p.semaphore_deadlock_on_request(4, 0));
    assert!(!p.semaphore_deadlock_on_request(5, 0));
    p.inner.semaphore_list[0].as_mut().unwrap().down(4);
    assert!(p.has_deadlock());
}

#[test]
fn a_running_holder_rules_a_deadlock_out() {
    let mut p = new_process();
    p.inner.semaphore_list.push(Some(Semaphore::new(2)));
    let sem = p.inner.semaphore_list[0].as_mut().unwrap();
    sem.down(1);
    sem.down(2);
    assert!(!p.semaphore_deadlock_on_request(1, 0));
    assert_eq!(p.inner.semaphore_list[0].as_mut().unwrap().down(1), WaitStep::Blocked);
    // 1 waits for itself and for 2, which runs
    assert!(p.inner.has_semaphore_deadlock());
    assert!(!p.has_deadlock());
    assert!(p.semaphore_deadlock_on_request(2, 0));
}

#[test]
fn cycle_through_a_mutex_and_a_semaphore() {
    let mut p = new_process();
    p.inner.mutex_list.push(Some(Box::new(MutexBlocking::new())));
    p.inner.semaphore_list.push(Some(Semaphore::new(1)));
    p.inner.mutex_list[0].as_mut().unwrap().lock(1);
    p.inner.semaphore_list[0].as_mut().unwrap().down(2);
    assert!(!p.semaphore_deadlock_on_request(1, 0));
    assert!(!p.mutex_deadlock_on_request(2, 0));
    assert_eq!(p.inner.semaphore_list[0].as_mut().unwrap().down(1), WaitStep::Blocked);
    assert!(!p.has_deadlock());
    assert!(p.mutex_deadlock_on_request(2, 0));
    assert!(!p.mutex_deadlock_on_request(3, 0));
    assert_eq!(p.inner.mutex_list[0].as_mut().unwrap().lock(2), WaitStep::Blocked);
    assert!(p.has_deadlock());
    assert!(!p.inner.has_mutex_deadlock());
    assert!(!p.inner.has_semaphore_deadlock());
    // a bystander would wait forever too, but completes no deadlock
    assert!(!p.mutex_deadlock_on_request(3, 0));
    let mut stuck = p.inner.wait_table().stuck_threads();
    stuck.sort();
    stuck.dedup();
    assert_eq!(stuck, vec![1, 2]);
}

#[test]
fn cycle_that_starts_at_a_mutex() {
    let mut p = new_process();
    p.inner.mutex_list.push(Some(Box::new(MutexSpin::new())));
    p.inner.semaphore_list.push(Some(Semaphore::new(1)));
    p.inner.mutex_list[0].as_mut().unwrap().lock(1);
    p.inner.semaphore_list[0].as_mut().unwrap().down(2);
    assert_eq!(p.inner.mutex_list[0].as_mut().unwrap().lock(2), WaitStep::Blocked);
    assert!(p.semaphore_deadlock_on_request(1, 0));
    assert!(!p.semaphore_deadlock_on_request(3, 0));
    assert!(!p.semaphore_deadlock_on_request(1, 1));
}

#[test]
fn threads_are_counted_not_slots() {
    let mut p = new_process();
    let task = p.inner.tasks[0];
    p.inner.tasks.push(None);
    assert_eq!(p.inner.thread_count(), 1);
    p.inner.tasks.push(task);
    assert_eq!(p.inner.thread_count(), 2);
    p.inner.tasks[2] = None;
    assert_eq!(p.inner.thread_count(), 1);
    p.exec(
        image(1),
        UserArea { ustack_top: 0x1000, trap_cx_ppn: 1 },
        KernelEntry { kernel_satp: 1, trap_handler: 2 },
        &vec![],
    );
    assert_eq!(p.inner.tasks.len(), 3);
    assert!(p.inner.tasks[1].is_none());
    assert_eq!(p.inner.thread_count(), 1);
    assert_eq!(p.inner.get_task(0).trap_cx_ppn, 1);
}

#[test]
fn semaphore_with_free_units_never_deadlocks() {
    let mut p = new_process();
    p.inner.semaphore_list.push(Some(Semaphore::new(2)));
    p.inner.semaphore_list[0].as_mut().unwrap().down(1);
    assert!(!p.semaphore_deadlock_on_request(1, 0));
    p.inner.semaphore_list[0].as_mut().unwrap().down(1);
    assert!(p.semaphore_deadlock_on_request(1, 0));
}

#[test]
fn refusing_predicted_requests_prevents_deadlock() {
    let mut p = new_process();
    for _ in 0..3 {
        p.inner.mutex_list.push(Some(Box::new(MutexBlocking::new())));
    }
    let requests: [(usize, usize); 6] = [(1, 0), (2, 1), (3, 2), (1, 1), (2, 2), (3, 0)];
    let mut refused: Vec<(usize, usize)> = Vec::new();
    for (tid, id) in requests {
        if p.mutex_deadlock_on_request(tid, id) {
            refused.push((tid, id));
        } else {
            p.inner.mutex_list[id].as_mut().unwrap().lock(tid);
        }
        assert!(!p.has_deadlock());
    }
    assert_eq!(refused, vec![(3, 0)]);
}

#[test]
fn arguments_need_room() {
    let w = core::mem::size_of::<usize>();
    let args = vec![String::from("ab"), String::from("c")];
    assert!(args_have_room(3 * w + 5, &args));
    assert!(!args_have_room(3 * w + 4, &args));
    assert!(!args_have_room(2 * w, &args));
    assert!(args_have_room(w, &vec![]));
    assert!(!args_have_room(w - 1, &vec![]));
}

#[test]
fn refusing_predicted_requests_prevents_semaphore_deadlock() {
    let mut p = new_process();
    for _ in 0..2 {
        p.inner.semaphore_list.push(Some(Semaphore::new(1)));
    }
    let requests: [(usize, usize); 5] = [(1, 0), (2, 1), (1, 1), (2, 0), (2, 1)];
    let mut refused: Vec<(usize, usize)> = Vec::new();
    for (tid, id) in requests {
        if p.semaphore_deadlock_on_request(tid, id) {
            refused.push((tid, id));
        } else {
            p.inner.semaphore_list[id].as_mut().unwrap().down(tid);
        }
        assert!(!p.has_deadlock());
    }
    assert_eq!(refused, vec![(2, 0), (2, 1)]);
    let sem = p.inner.semaphore_list[1].as_mut().unwrap();
    assert_eq!(sem.up(2), Some(1));
    sem.resume_down(1);
    assert_eq!(sem.holder_tids(), vec![1]);
    assert!(!p.has_deadlock());
    assert!(!p.semaphore_deadlock_on_request(2, 0));
}

#[test]
fn refusing_prevents_deadlock_across_kinds() {
    let mut p = new_process();
    p.inner.mutex_list.push(Some(Box::new(MutexBlocking::new())));
    p.inner.semaphore_list.push(Some(Semaphore::new(2)));
    assert_eq!(p.inner.mutex_list[0].as_mut().unwrap().lock(1), WaitStep::Acquired);
    for tid in [2, 3] {
        assert!(!p.semaphore_deadlock_on_request(tid, 0));
        assert_eq!(p.inner.semaphore_list[0].as_mut().unwrap().down(tid), WaitStep::Acquired);
    }
    // 1 waits for a unit of 2 or 3
    assert!(!p.semaphore_deadlock_on_request(1, 0));
    assert_eq!(p.inner.semaphore_list[0].as_mut().unwrap().down(1), WaitStep::Blocked);
    // 2 may wait for 1 as long as 3 runs, then 3 may not
    assert!(!p.mutex_deadlock_on_request(2, 0));
    assert_eq!(p.inner.mutex_list[0].as_mut().unwrap().lock(2), WaitStep::Blocked);
    assert!(!p.has_deadlock());
    assert!(p.mutex_deadlock_on_request(3, 0));
    assert!(p.semaphore_deadlock_on_request(3, 0));
    // 3 gives its unit to 1, which unlocks the mutex for 2
    assert_eq!(p.inner.semaphore_list[0].as_mut().unwrap().up(3), Some(1));
    p.inner.semaphore_list[0].as_mut().unwrap().resume_down(1);
    assert_eq!(p.inner.mutex_list[0].as_mut().unwrap().unlock(), Some(2));
    assert_eq!(p.inner.mutex_list[0].as_mut().unwrap().resume_lock(2), WaitStep::Acquired);
    assert!(!p.has_deadlock());
}
