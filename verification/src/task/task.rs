//! Types related to task management

use vstd::prelude::*;

verus! {

/// Maximum syscall id that is counted.
pub const MAX_SYSCALL_NUM: usize = 512;

/// Registers that a task switch saves.
#[derive(Clone, Copy)]
pub struct TaskContext {
    /// Return address.
    pub ra: usize,
    /// Kernel stack pointer.
    pub sp: usize,
    /// Callee-saved registers `s0` to `s11`.
    pub s: [usize; 12],
}

/// The task control block (TCB) of a task.
#[derive(Clone, Copy)]
pub struct TaskControlBlock {
    /// The task status in it's lifecycle
    pub task_status: TaskStatus,
    /// The task context
    pub task_cx: TaskContext,
    /// The syscall counts of the task.
    pub syscall_times: [u32; MAX_SYSCALL_NUM],
}

impl TaskControlBlock {
    /// How often a syscall was recorded; ids that are not counted give zero.
    pub open spec fn count_of(self, syscall_id: int) -> int {
        if 0 <= syscall_id < MAX_SYSCALL_NUM {
            self.syscall_times@[syscall_id] as int
        } else {
            0
        }
    }

    /// Record one syscall for the task.
    pub fn record_syscall(&mut self, syscall_id: usize)
        requires
            old(self).count_of(syscall_id as int) < u32::MAX,
        ensures
            final(self).task_status == old(self).task_status,
            final(self).task_cx == old(self).task_cx,
            syscall_id < MAX_SYSCALL_NUM ==> final(self).count_of(syscall_id as int) == old(
                self,
            ).count_of(syscall_id as int) + 1,
            forall|id: int|
                id != syscall_id || id >= MAX_SYSCALL_NUM ==> #[trigger] final(self).count_of(id)
                    == old(self).count_of(id),
            forall|id: int|
                0 <= id < 512 ==> #[trigger] final(self).syscall_times@[id]
                    == old(self).syscall_times@[id] + if id == syscall_id {
                    1int
                } else {
                    0
                },
    {
        if syscall_id < MAX_SYSCALL_NUM {
            self.syscall_times[syscall_id] = self.syscall_times[syscall_id] + 1;
        }
    }

    /// Query how many times the task has invoked a syscall.
    pub fn syscall_times(&self, syscall_id: usize) -> (times: isize)
        ensures
            times == self.count_of(syscall_id as int) as isize,
            self.count_of(syscall_id as int) <= isize::MAX ==> times == self.count_of(
                syscall_id as int,
            ),
            syscall_id < 512 && self.syscall_times@[syscall_id as int] <= isize::MAX ==> times
                == self.syscall_times@[syscall_id as int],
            syscall_id >= 512 ==> times == 0,
    {
        if syscall_id < MAX_SYSCALL_NUM {
            self.syscall_times[syscall_id] as isize
        } else {
            0
        }
    }
}

/// The status of a task
#[derive(Clone, Copy, PartialEq, Eq, Structural, Debug)]
pub enum TaskStatus {
    /// uninitialized
    UnInit,
    /// ready to run
    Ready,
    /// running
    Running,
    /// exited
    Exited,
}

/// The calls that are counted are the first 512, each in a counter of its own, and only a full
/// counter cannot be raised.
pub proof fn law_counters(task: TaskControlBlock, id: int)
    ensures
        0 <= id < 512 ==> task.count_of(id) == task.syscall_times@[id],
        !(0 <= id < 512) ==> task.count_of(id) == 0,
        task.syscall_times@.len() == 512,
{
}

} // verus!
