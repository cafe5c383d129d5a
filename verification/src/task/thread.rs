//! The part of a thread that the process layer keeps.

use vstd::prelude::*;

verus! {

/// Register state that is restored when a thread enters user mode.
#[derive(Clone, Copy)]
pub struct TrapContext {
    /// General registers `x0` to `x31`.
    pub x: [usize; 32],
    /// Address at which user execution continues.
    pub sepc: usize,
    /// Token of the kernel address space.
    pub kernel_satp: usize,
    /// Top of the thread's kernel stack.
    pub kernel_sp: usize,
    /// Address of the kernel's trap handler.
    pub trap_handler: usize,
}

/// Index of the stack pointer in the general registers.
pub const REG_SP: usize = 2;

/// Index of the first argument register.
pub const REG_A0: usize = 10;

/// Index of the second argument register.
pub const REG_A1: usize = 11;

impl TrapContext {
    /// All registers zero but the stack pointer.
    pub open spec fn initial_registers(sp: usize) -> Seq<usize> {
        Seq::new(32, |i: int| 0usize).update(REG_SP as int, sp)
    }

    /// The context enters user mode at `entry` with stack pointer `sp`, and comes back to the
    /// kernel with the given values.
    pub open spec fn enters(
        self,
        entry: usize,
        sp: usize,
        kernel_satp: usize,
        kernel_sp: usize,
        trap_handler: usize,
    ) -> bool {
        &&& self.sepc == entry
        &&& self.x@[REG_SP as int] == sp
        &&& self.kernel_satp == kernel_satp
        &&& self.kernel_sp == kernel_sp
        &&& self.trap_handler == trap_handler
    }

    /// A context that starts user execution at `entry` with stack pointer `sp` and all other
    /// registers zero.
    pub fn app_init_context(
        entry: usize,
        sp: usize,
        kernel_satp: usize,
        kernel_sp: usize,
        trap_handler: usize,
    ) -> (cx: Self)
        ensures
            cx.x@ == Self::initial_registers(sp),
            cx.enters(entry, sp, kernel_satp, kernel_sp, trap_handler),
            cx.sepc == entry,
            cx.kernel_satp == kernel_satp,
            cx.kernel_sp == kernel_sp,
            cx.trap_handler == trap_handler,
            cx.x@[2] == sp,
            forall|i: int| 0 <= i < 32 && i != 2 ==> #[trigger] cx.x@[i] == 0,
    {
        let mut x: [usize; 32] = [0; 32];
        x[REG_SP] = sp;
        TrapContext { x, sepc: entry, kernel_satp, kernel_sp, trap_handler }
    }
}

/// User-space resources of a live thread.
#[derive(Clone, Copy)]
pub struct TaskUserRes {
    /// Thread id, unique among the live threads of the process.
    pub tid: usize,
    /// Base of the area that holds the user stacks of the process.
    pub ustack_base: usize,
    /// Top of this thread's user stack.
    pub ustack_top: usize,
    /// Physical page that holds the trap context.
    pub trap_cx_ppn: usize,
}

/// Control block of one thread.
#[derive(Clone, Copy)]
pub struct ThreadControlBlock {
    /// User resources; `None` once the thread has exited.
    pub res: Option<TaskUserRes>,
    /// Top of the kernel stack.
    pub kstack_top: usize,
    /// Physical page of the trap context that the scheduler restores.
    pub trap_cx_ppn: usize,
    /// Contents of the trap context.
    pub trap_cx: TrapContext,
}

/// The id of a live thread.
pub fn task_tid(task: &ThreadControlBlock) -> (tid: usize)
    requires
        task.res is Some,
    ensures
        tid == task.res->0.tid,
{
    task.res.unwrap().tid
}

/// The id of the running thread.
pub fn current_tid(current: &Option<ThreadControlBlock>) -> (tid: usize)
    requires
        current is Some,
        current->0.res is Some,
    ensures
        tid == current->0.res->0.tid,
{
    task_tid(current.as_ref().unwrap())
}

} // verus!
