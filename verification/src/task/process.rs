//! Process control blocks.

use super::argv::push_args;
use super::id::{IdState, PidHandle, RecycleAllocator};
use super::thread::{TaskUserRes, ThreadControlBlock, TrapContext, REG_A0, REG_A1};
use crate::fs::{Console, File};
use crate::mm::{MemorySet, UserWrite};
use crate::sync::mutex::Mutex;
use crate::sync::semaphore::Semaphore;
use vstd::prelude::*;

verus! {

/// Pending signals of a process.
#[derive(Clone, Copy, PartialEq, Eq, Structural, Debug)]
pub struct SignalFlags {
    /// One bit for each signal.
    pub bits: u32,
}

impl SignalFlags {
    /// No signal.
    pub fn empty() -> (flags: Self)
        ensures
            flags.bits == 0,
    {
        SignalFlags { bits: 0 }
    }
}

/// A condition variable, known by its number.
#[derive(Clone, Copy, PartialEq, Eq, Structural, Debug)]
pub struct Condvar {
    /// Identifies the condition variable.
    pub id: usize,
}

/// Process Control Block
pub struct ProcessControlBlock {
    /// The id of the process, which never changes.
    pub pid: PidHandle,
    /// Everything that changes.
    pub inner: ProcessControlBlockInner,
}

/// Inner of Process Control Block
pub struct ProcessControlBlockInner {
    /// is zombie?
    pub is_zombie: bool,
    /// memory set(address space)
    pub memory_set: MemorySet,
    /// parent process
    pub parent: Option<PidHandle>,
    /// children process
    pub children: Vec<PidHandle>,
    /// exit code
    pub exit_code: i32,
    /// file descriptor table
    pub fd_table: Vec<Option<File>>,
    /// signal flags
    pub signals: SignalFlags,
    /// deadlock detection enabled?
    pub deadlock_detect: bool,
    /// tasks(also known as threads)
    pub tasks: Vec<Option<ThreadControlBlock>>,
    /// task resource allocator
    pub task_res_allocator: RecycleAllocator,
    /// mutex list
    pub mutex_list: Vec<Option<Box<dyn Mutex>>>,
    /// semaphore list
    pub semaphore_list: Vec<Option<Semaphore>>,
    /// condvar list
    pub condvar_list: Vec<Option<Condvar>>,
}

/// What loading a program into a new address space gives.
#[derive(Clone, Copy)]
pub struct LoadedImage {
    /// The address space with the program in it.
    pub memory_set: MemorySet,
    /// Base of the area for user stacks.
    pub ustack_base: usize,
    /// Address of the first instruction.
    pub entry_point: usize,
}

/// What was mapped for a thread in the user's address space.
#[derive(Clone, Copy)]
pub struct UserArea {
    /// Top of the user stack.
    pub ustack_top: usize,
    /// Physical page of the trap context.
    pub trap_cx_ppn: usize,
}

/// How a thread gets back into the kernel.
#[derive(Clone, Copy)]
pub struct KernelEntry {
    /// Token of the kernel address space.
    pub kernel_satp: usize,
    /// Address of the trap handler.
    pub trap_handler: usize,
}

/// The number of threads in a table of slots.
pub open spec fn live_threads(tasks: Seq<Option<ThreadControlBlock>>) -> int
    decreases tasks.len(),
{
    if tasks.len() == 0 {
        0
    } else if tasks.last() is Some {
        live_threads(tasks.drop_last()) + 1
    } else {
        live_threads(tasks.drop_last())
    }
}

/// A process whose main thread is there has no other exactly when its thread count is one.
pub proof fn law_single_thread_counts_one(tasks: Seq<Option<ThreadControlBlock>>)
    requires
        tasks.len() > 0,
        tasks[0] is Some,
    ensures
        live_threads(tasks) >= 1,
        live_threads(tasks) == 1 <==> forall|i: int|
            0 < i < tasks.len() ==> (#[trigger] tasks[i]) is None,
    decreases tasks.len(),
{
    let rest = tasks.drop_last();
    if tasks.len() == 1 {
        assert(live_threads(rest) == 0);
    } else {
        law_single_thread_counts_one(rest);
        if forall|i: int| 0 < i < tasks.len() ==> (#[trigger] tasks[i]) is None {
            assert(tasks[tasks.len() - 1] is None);
            assert forall|i: int| 0 < i < rest.len() implies (#[trigger] rest[i]) is None by {
                assert(tasks[i] is None);
            }
        }
        if live_threads(tasks) == 1 {
            assert forall|i: int| 0 < i < tasks.len() implies (#[trigger] tasks[i]) is None by {
                if i < rest.len() {
                    assert(rest[i] is None);
                }
            }
        }
    }
}

impl ProcessControlBlockInner {
    /// get the address of app's page table
    pub fn get_user_token(&self) -> (token: usize)
        ensures
            token == self.memory_set.token,
    {
        self.memory_set.token()
    }

    /// Only the descriptor table differs.
    pub open spec fn same_but_fd_table(&self, other: &Self) -> bool {
        *self == (ProcessControlBlockInner { fd_table: self.fd_table, ..*other })
    }

    /// allocate a new file descriptor
    pub fn alloc_fd(&mut self) -> (fd: usize)
        ensures
            fd == super::fd_table::lowest_free(old(self).fd_table@),
            fd < final(self).fd_table@.len(),
            final(self).fd_table@ == super::fd_table::with_room(old(self).fd_table@),
            final(self).same_but_fd_table(old(self)),
            ({
                let before = old(self).fd_table@;
                let after = final(self).fd_table@;
                &&& fd <= before.len()
                &&& forall|i: int| 0 <= i < fd ==> (#[trigger] before[i]) is Some
                &&& fd < before.len() ==> before[fd as int] is None && after.len() == before.len()
                &&& fd == before.len() ==> after.len() == before.len() + 1
                &&& after[fd as int] is None
                &&& forall|i: int|
                    0 <= i < before.len() && i != fd ==> #[trigger] after[i] == before[i]
            }),
            *final(self) == (ProcessControlBlockInner {
                fd_table: final(self).fd_table,
                ..*old(self)
            }),
    {
        let mut fd: usize = 0;
        while fd < self.fd_table.len()
            invariant
                *self == *old(self),
                fd <= self.fd_table@.len(),
                forall|i: int| 0 <= i < fd ==> self.fd_table@[i] is Some,
            decreases self.fd_table@.len() - fd,
        {
            if self.fd_table[fd].is_none() {
                proof {
                    super::fd_table::lemma_lowest_free_unique(self.fd_table@, fd as int);
                }
                return fd;
            }
            fd += 1;
        }
        proof {
            super::fd_table::lemma_lowest_free_unique(self.fd_table@, fd as int);
        }
        self.fd_table.push(None);
        self.fd_table.len() - 1
    }

    /// Gives a file the smallest free descriptor.
    pub fn install_file(&mut self, file: File) -> (fd: usize)
        ensures
            fd == super::fd_table::lowest_free(old(self).fd_table@),
            final(self).fd_table@ == super::fd_table::install(old(self).fd_table@, file),
            final(self).same_but_fd_table(old(self)),
            ({
                let before = old(self).fd_table@;
                let after = final(self).fd_table@;
                &&& fd <= before.len()
                &&& forall|i: int| 0 <= i < fd ==> (#[trigger] before[i]) is Some
                &&& fd < before.len() ==> before[fd as int] is None && after.len() == before.len()
                &&& fd == before.len() ==> after.len() == before.len() + 1
                &&& after[fd as int] == Some(file)
                &&& forall|i: int|
                    0 <= i < before.len() && i != fd ==> #[trigger] after[i] == before[i]
            }),
            *final(self) == (ProcessControlBlockInner {
                fd_table: final(self).fd_table,
                ..*old(self)
            }),
    {
        let fd: usize = self.alloc_fd();
        self.fd_table.set(fd, Some(file));
        fd
    }

    /// allocate a new task id
    pub fn alloc_tid(&mut self) -> (tid: usize)
        requires
            old(self).task_res_allocator@.has_next(),
        ensures
            tid == old(self).task_res_allocator@.next(),
            !old(self).task_res_allocator@.in_use().contains(tid),
            final(self).task_res_allocator@ == old(self).task_res_allocator@.taken(),
            final(self).task_res_allocator@.in_use()
                == old(self).task_res_allocator@.in_use().insert(tid),
            *final(self) == (ProcessControlBlockInner {
                task_res_allocator: final(self).task_res_allocator,
                ..*old(self)
            }),
    {
        self.task_res_allocator.alloc_id()
    }

    /// deallocate a task id
    pub fn dealloc_tid(&mut self, tid: usize)
        requires
            old(self).task_res_allocator@.in_use().contains(tid),
        ensures
            final(self).task_res_allocator@ == old(self).task_res_allocator@.returned(tid),
            final(self).task_res_allocator@.in_use()
                == old(self).task_res_allocator@.in_use().remove(tid),
            *final(self) == (ProcessControlBlockInner {
                task_res_allocator: final(self).task_res_allocator,
                ..*old(self)
            }),
    {
        self.task_res_allocator.dealloc_id(tid)
    }

    /// the count of tasks(threads) in this process
    pub fn thread_count(&self) -> (count: usize)
        ensures
            count == live_threads(self.tasks@),
    {
        let mut count: usize = 0;
        let mut i: usize = 0;
        while i < self.tasks.len()
            invariant
                i <= self.tasks@.len(),
                count <= i,
                count == live_threads(self.tasks@.take(i as int)),
            decreases self.tasks@.len() - i,
        {
            assert(self.tasks@.take(i + 1).drop_last() =~= self.tasks@.take(i as int));
            if self.tasks[i].is_some() {
                count += 1;
            }
            i += 1;
        }
        assert(self.tasks@.take(i as int) =~= self.tasks@);
        count
    }

    /// get a task with tid in this process
    pub fn get_task(&self, tid: usize) -> (task: &ThreadControlBlock)
        requires
            tid < self.tasks@.len(),
            self.tasks@[tid as int] is Some,
        ensures
            *task == self.tasks@[tid as int]->0,
    {
        self.tasks[tid].as_ref().unwrap()
    }

    /// The process has one thread, the main one, which is alive.
    pub open spec fn single_threaded(&self) -> bool {
        &&& self.tasks@.len() > 0
        &&& self.tasks@[0] is Some
        &&& self.tasks@[0]->0.res is Some
        &&& forall|i: int| 0 < i < self.tasks@.len() ==> (#[trigger] self.tasks@[i]) is None
    }

    /// The process has just been made: it is alive, and has no children, signals or locks.
    pub open spec fn newborn(&self) -> bool {
        &&& !self.is_zombie
        &&& self.exit_code == 0
        &&& self.children@ == Seq::<PidHandle>::empty()
        &&& self.signals.bits == 0
        &&& self.mutex_list@ == Seq::<Option<Box<dyn Mutex>>>::empty()
        &&& self.semaphore_list@ == Seq::<Option<Semaphore>>::empty()
        &&& self.condvar_list@ == Seq::<Option<Condvar>>::empty()
    }

    /// The only thread id in use is that of the main thread.
    pub open spec fn main_thread_only(&self) -> bool {
        &&& self.single_threaded()
        &&& self.tasks@.len() == 1
        &&& self.tasks@[0]->0.res->0.tid == 0
        &&& self.task_res_allocator@ == IdState::initial().taken()
    }

    fn fresh(
        memory_set: MemorySet,
        parent: Option<PidHandle>,
        fd_table: Vec<Option<File>>,
        deadlock_detect: bool,
    ) -> (inner: Self)
        ensures
            inner.newborn(),
            inner.memory_set == memory_set,
            inner.parent == parent,
            inner.fd_table == fd_table,
            inner.deadlock_detect == deadlock_detect,
            inner.tasks@ == Seq::<Option<ThreadControlBlock>>::empty(),
            inner.task_res_allocator@ == IdState::initial(),
    {
        ProcessControlBlockInner {
            is_zombie: false,
            memory_set,
            parent,
            children: Vec::new(),
            exit_code: 0,
            fd_table,
            signals: SignalFlags::empty(),
            deadlock_detect,
            tasks: Vec::new(),
            task_res_allocator: RecycleAllocator::new(),
            mutex_list: Vec::new(),
            semaphore_list: Vec::new(),
            condvar_list: Vec::new(),
        }
    }
}

impl ProcessControlBlock {
    /// inner_exclusive_access
    pub fn inner_exclusive_access(&mut self) -> (inner: &mut ProcessControlBlockInner)
        ensures
            *inner == old(self).inner,
            *final(self) == (ProcessControlBlock { inner: *final(inner), ..*old(self) }),
    {
        &mut self.inner
    }

    /// new process from a loaded program, with its main thread ready to enter the program
    pub fn new(
        pid: PidHandle,
        image: LoadedImage,
        area: UserArea,
        kstack_top: usize,
        kernel: KernelEntry,
        console: Console,
    ) -> (process: Self)
        ensures
            process.pid == pid,
            !process.inner.is_zombie,
            process.inner.exit_code == 0,
            process.inner.children@.len() == 0,
            process.inner.signals.bits == 0,
            process.inner.mutex_list@.len() == 0,
            process.inner.semaphore_list@.len() == 0,
            process.inner.condvar_list@.len() == 0,
            process.inner.tasks@.len() == 1,
            process.inner.tasks@[0] is Some,
            process.inner.tasks@[0]->0.res is Some,
            process.inner.task_res_allocator@.in_use() == set![0usize],
            process.inner.newborn(),
            process.inner.memory_set == image.memory_set,
            process.inner.parent is None,
            process.inner.fd_table@ == seq![
                Some(console.stdin),
                Some(console.stdout),
                Some(console.stderr),
            ],
            !process.inner.deadlock_detect,
            process.inner.main_thread_only(),
            process.inner.tasks@[0]->0.res->0 == (TaskUserRes {
                tid: 0,
                ustack_base: image.ustack_base,
                ustack_top: area.ustack_top,
                trap_cx_ppn: area.trap_cx_ppn,
            }),
            process.inner.tasks@[0]->0.kstack_top == kstack_top,
            process.inner.tasks@[0]->0.trap_cx_ppn == area.trap_cx_ppn,
            process.inner.tasks@[0]->0.trap_cx.enters(
                image.entry_point,
                area.ustack_top,
                kernel.kernel_satp,
                kstack_top,
                kernel.trap_handler,
            ),
            process.inner.tasks@[0]->0.trap_cx.x@ == TrapContext::initial_registers(
                area.ustack_top,
            ),
            process.inner.tasks@[0]->0.trap_cx.sepc == image.entry_point,
            process.inner.tasks@[0]->0.trap_cx.kernel_satp == kernel.kernel_satp,
            process.inner.tasks@[0]->0.trap_cx.kernel_sp == kstack_top,
            process.inner.tasks@[0]->0.trap_cx.trap_handler == kernel.trap_handler,
            process.inner.tasks@[0]->0.trap_cx.x@[2] == area.ustack_top,
            forall|i: int|
                0 <= i < 32 && i != 2 ==> #[trigger] process.inner.tasks@[0]->0.trap_cx.x@[i] == 0,
    {
        let mut fd_table: Vec<Option<File>> = Vec::new();
        // 0 -> stdin
        fd_table.push(Some(console.stdin));
        // 1 -> stdout
        fd_table.push(Some(console.stdout));
        // 2 -> stderr
        fd_table.push(Some(console.stderr));
        let mut inner = ProcessControlBlockInner::fresh(image.memory_set, None, fd_table, false);
        let tid: usize = inner.alloc_tid();
        let trap_cx = TrapContext::app_init_context(
            image.entry_point,
            area.ustack_top,
            kernel.kernel_satp,
            kstack_top,
            kernel.trap_handler,
        );
        let task = ThreadControlBlock {
            res: Some(
                TaskUserRes {
                    tid,
                    ustack_base: image.ustack_base,
                    ustack_top: area.ustack_top,
                    trap_cx_ppn: area.trap_cx_ppn,
                },
            ),
            kstack_top,
            trap_cx_ppn: area.trap_cx_ppn,
            trap_cx,
        };
        // add main thread to the process
        inner.tasks.push(Some(task));
        ProcessControlBlock { pid, inner }
    }

    /// Replaces the program. Only support processes with a single thread.
    ///
    /// Returns what is to be stored in the address space of `image`, in that order, before the
    /// thread runs: the arguments of the program.
    pub fn exec(
        &mut self,
        image: LoadedImage,
        area: UserArea,
        kernel: KernelEntry,
        args: &Vec<String>,
    ) -> (writes: Vec<UserWrite>)
        requires
            old(self).inner.single_threaded(),
            super::argv::args_fit(area.ustack_top as int, super::argv::arg_bytes(args@)),
        ensures
            super::argv::stores_of(writes@) == super::argv::argv_stores(
                image.memory_set.token,
                area.ustack_top as int,
                super::argv::arg_bytes(args@),
                args@.len() as int,
            ),
            writes@.len() == 2 * args@.len() + 1,
            forall|i: int|
                0 <= i < writes@.len() ==> (#[trigger] writes@[i]).token == image.memory_set.token,
            *final(self) == (ProcessControlBlock {
                inner: ProcessControlBlockInner {
                    memory_set: image.memory_set,
                    tasks: final(self).inner.tasks,
                    ..old(self).inner
                },
                ..*old(self)
            }),
            final(self).inner.single_threaded(),
            final(self).inner.tasks@ == old(self).inner.tasks@.update(
                0,
                final(self).inner.tasks@[0],
            ),
            ({
                let before = old(self).inner.tasks@[0]->0;
                let after = final(self).inner.tasks@[0]->0;
                let sp = super::argv::initial_sp(
                    area.ustack_top as int,
                    super::argv::arg_bytes(args@),
                ) as usize;
                let array = super::argv::array_addr(
                    area.ustack_top as int,
                    super::argv::arg_bytes(args@),
                ) as usize;
                &&& after.res->0 == (TaskUserRes {
                    tid: before.res->0.tid,
                    ustack_base: image.ustack_base,
                    ustack_top: area.ustack_top,
                    trap_cx_ppn: area.trap_cx_ppn,
                })
                &&& after.kstack_top == before.kstack_top
                &&& after.trap_cx_ppn == area.trap_cx_ppn
                &&& after.trap_cx.enters(
                    image.entry_point,
                    sp,
                    kernel.kernel_satp,
                    before.kstack_top,
                    kernel.trap_handler,
                )
                &&& after.trap_cx.x@ == TrapContext::initial_registers(sp).update(
                    REG_A0 as int,
                    args@.len() as usize,
                ).update(REG_A1 as int, array)
                &&& after.trap_cx.x@[10] == args@.len()
                &&& after.trap_cx.x@[11] == area.ustack_top - (args@.len() + 1)
                    * vstd::layout::size_of::<usize>()
                &&& after.trap_cx.x@[2] <= after.trap_cx.x@[11]
                &&& after.trap_cx.x@[2] as int % vstd::layout::size_of::<usize>() as int == 0
                &&& forall|i: int|
                    0 <= i < 32 && i != 2 && i != 10 && i != 11 ==> #[trigger] after.trap_cx.x@[i]
                        == 0
                &&& after.trap_cx.sepc == image.entry_point
                &&& after.trap_cx.kernel_satp == kernel.kernel_satp
                &&& after.trap_cx.kernel_sp == before.kstack_top
                &&& after.trap_cx.trap_handler == kernel.trap_handler
            }),
    {
        proof {
            let texts = super::argv::arg_bytes(args@);
            let count = args@.len() as int;
            super::argv::law_argument_registers(area.ustack_top, args@);
            super::argv::law_stores_of_arguments(
                image.memory_set.token,
                area.ustack_top as int,
                texts,
                count,
            );
        }
        // substitute memory_set
        self.inner.memory_set = image.memory_set;
        // the main thread gets its user resources again, since memory_set has been changed
        let mut task: ThreadControlBlock = *self.inner.get_task(0);
        let tid: usize = super::thread::task_tid(&task);
        task.res = Some(
            TaskUserRes {
                tid,
                ustack_base: image.ustack_base,
                ustack_top: area.ustack_top,
                trap_cx_ppn: area.trap_cx_ppn,
            },
        );
        task.trap_cx_ppn = area.trap_cx_ppn;
        // push arguments on user stack
        let layout = push_args(image.memory_set.token(), area.ustack_top, args);
        // initialize trap_cx
        let mut trap_cx = TrapContext::app_init_context(
            image.entry_point,
            layout.user_sp,
            kernel.kernel_satp,
            task.kstack_top,
            kernel.trap_handler,
        );
        trap_cx.x[REG_A0] = args.len();
        trap_cx.x[REG_A1] = layout.argv_base;
        task.trap_cx = trap_cx;
        self.inner.tasks.set(0, Some(task));
        proof {
            super::argv::law_writes_are_the_stores(layout.writes@);
            let stores = super::argv::stores_of(layout.writes@);
            assert forall|i: int| 0 <= i < layout.writes@.len() implies (
            #[trigger] layout.writes@[i]).token == image.memory_set.token by {
                assert(stores[i].token == layout.writes@[i].token);
            }
        }
        layout.writes
    }

    /// Makes a child that continues where the process is. Only support processes with a single
    /// thread.
    ///
    /// `memory_set` is a copy of the address space of the process, with the user stack and the
    /// trap context of its thread; `area` and `kstack_top` belong to the thread of the child.
    pub fn fork(
        &mut self,
        pid: PidHandle,
        memory_set: MemorySet,
        area: UserArea,
        kstack_top: usize,
    ) -> (child: ProcessControlBlock)
        requires
            old(self).inner.single_threaded(),
        ensures
            *final(self) == (ProcessControlBlock {
                inner: ProcessControlBlockInner {
                    children: final(self).inner.children,
                    ..old(self).inner
                },
                ..*old(self)
            }),
            final(self).inner.children@ == old(self).inner.children@.push(pid),
            child.pid == pid,
            !child.inner.is_zombie,
            child.inner.exit_code == 0,
            child.inner.children@.len() == 0,
            child.inner.signals.bits == 0,
            child.inner.mutex_list@.len() == 0,
            child.inner.semaphore_list@.len() == 0,
            child.inner.condvar_list@.len() == 0,
            child.inner.tasks@.len() == 1,
            child.inner.tasks@[0] is Some,
            child.inner.tasks@[0]->0.res is Some,
            child.inner.task_res_allocator@.in_use() == set![0usize],
            child.inner.newborn(),
            child.inner.memory_set == memory_set,
            child.inner.parent == Some(old(self).pid),
            child.inner.fd_table@ == old(self).inner.fd_table@,
            child.inner.deadlock_detect == old(self).inner.deadlock_detect,
            child.inner.main_thread_only(),
            ({
                let parent_task = old(self).inner.tasks@[0]->0;
                let task = child.inner.tasks@[0]->0;
                &&& task.res->0 == (TaskUserRes {
                    tid: 0,
                    ustack_base: parent_task.res->0.ustack_base,
                    ustack_top: area.ustack_top,
                    trap_cx_ppn: area.trap_cx_ppn,
                })
                &&& task.kstack_top == kstack_top
                &&& task.trap_cx_ppn == area.trap_cx_ppn
                &&& task.trap_cx == (TrapContext { kernel_sp: kstack_top, ..parent_task.trap_cx })
            }),
    {
        // copy fd table
        let mut new_fd_table: Vec<Option<File>> = Vec::new();
        let mut fd: usize = 0;
        while fd < self.inner.fd_table.len()
            invariant
                fd <= self.inner.fd_table@.len(),
                new_fd_table@ == self.inner.fd_table@.take(fd as int),
            decreases self.inner.fd_table@.len() - fd,
        {
            if let Some(file) = self.inner.fd_table[fd] {
                new_fd_table.push(Some(file));
            } else {
                new_fd_table.push(None);
            }
            fd += 1;
        }
        // create child process pcb
        let mut inner = ProcessControlBlockInner::fresh(
            memory_set,
            Some(self.pid),
            new_fd_table,
            self.inner.deadlock_detect,
        );
        // add child
        self.inner.children.push(pid);
        // create main thread of child process
        let parent_task: ThreadControlBlock = *self.inner.get_task(0);
        let tid: usize = inner.alloc_tid();
        // modify kstack_top in trap_cx of this thread
        let mut trap_cx: TrapContext = parent_task.trap_cx;
        trap_cx.kernel_sp = kstack_top;
        let task = ThreadControlBlock {
            res: Some(
                TaskUserRes {
                    tid,
                    ustack_base: parent_task.res.unwrap().ustack_base,
                    ustack_top: area.ustack_top,
                    trap_cx_ppn: area.trap_cx_ppn,
                },
            ),
            kstack_top,
            trap_cx_ppn: area.trap_cx_ppn,
            trap_cx,
        };
        // attach task to child process
        inner.tasks.push(Some(task));
        ProcessControlBlock { pid, inner }
    }

    /// get pid
    pub fn getpid(&self) -> (pid: usize)
        ensures
            pid == self.pid.0,
    {
        self.pid.0
    }

    /// Check whether deadlock detection is enabled for this process.
    pub fn deadlock_detect_enabled(&self) -> (enabled: bool)
        ensures
            enabled == self.inner.deadlock_detect,
    {
        self.inner.deadlock_detect
    }

    /// Enable or disable deadlock detection for this process.
    pub fn set_deadlock_detect(&mut self, enabled: bool)
        ensures
            *final(self) == (ProcessControlBlock {
                inner: ProcessControlBlockInner { deadlock_detect: enabled, ..old(self).inner },
                ..*old(self)
            }),
    {
        self.inner.deadlock_detect = enabled;
    }
}

/// A slot counts if a thread is in it: adding a thread to a table adds one to the count, adding an
/// empty slot adds nothing, and a table without slots has no threads.
pub proof fn law_threads_are_counted_slot_by_slot(
    tasks: Seq<Option<ThreadControlBlock>>,
    task: ThreadControlBlock,
)
    ensures
        live_threads(Seq::empty()) == 0,
        live_threads(tasks.push(Some(task))) == live_threads(tasks) + 1,
        live_threads(tasks.push(None)) == live_threads(tasks),
        0 <= live_threads(tasks) <= tasks.len(),
    decreases tasks.len(),
{
    assert(tasks.push(Some(task)).drop_last() =~= tasks);
    assert(tasks.push(None).drop_last() =~= tasks);
    if tasks.len() > 0 {
        law_threads_are_counted_slot_by_slot(tasks.drop_last(), task);
    }
}

/// Ending a thread takes one from the count, wherever its slot is.
pub proof fn law_ended_thread_is_not_counted(tasks: Seq<Option<ThreadControlBlock>>, i: int)
    requires
        0 <= i < tasks.len(),
        tasks[i] is Some,
    ensures
        live_threads(tasks.update(i, None)) == live_threads(tasks) - 1,
    decreases tasks.len(),
{
    let after = tasks.update(i, None);
    if i == tasks.len() - 1 {
        assert(after.drop_last() =~= tasks.drop_last());
    } else {
        law_ended_thread_is_not_counted(tasks.drop_last(), i);
        assert(after.drop_last() =~= tasks.drop_last().update(i, None));
    }
}

/// What `exec` and `fork` ask of a process: its first slot has a thread with its resources, and all
/// others are empty.
pub proof fn law_single_threaded_slots(inner: &ProcessControlBlockInner)
    ensures
        inner.single_threaded() <==> inner.tasks@.len() > 0 && inner.tasks@[0] is Some
            && inner.tasks@[0]->0.res is Some && live_threads(inner.tasks@) == 1,
{
    if inner.tasks@.len() > 0 && inner.tasks@[0] is Some {
        law_single_thread_counts_one(inner.tasks@);
    }
}

} // verus!
