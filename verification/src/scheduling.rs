//! Tasks and the queue that decides which of them runs next.

use crate::address::{Frame, Page, DEPTH_MAX, PAGE_SIZE};
use crate::contexts::{ArchContext, ControlContext};
use crate::cr3::CR3Flags;
use crate::frame_manager::FrameManager;
use crate::mapper::{unmap_outcome, Mapper};
use crate::page_table::walk;
use crate::paging::PagingError;
use crate::physical_memory::PhysicalMemory;
use std::collections::VecDeque;
use vstd::prelude::*;

verus! {

/// Lowest priority of a task.
pub const PRIORITY_MIN: u8 = 1;

/// Highest priority of a task.
pub const PRIORITY_MAX: u8 = 16;

/// Bytes of stack that a task gets when it asks for no particular size.
pub const DEFAULT_STACK_SIZE: u64 = 0x5000;

/// The priority of a task, from 1 to 16.
#[derive(Clone, Copy, Debug)]
pub struct TaskPriority(u8);

impl View for TaskPriority {
    type V = u8;

    /// The priority as a number.
    closed spec fn view(&self) -> u8 {
        self.0
    }
}

impl TaskPriority {
    #[verifier::type_invariant]
    spec fn in_range(self) -> bool {
        PRIORITY_MIN <= self.0 <= PRIORITY_MAX
    }

    /// The priority with the given number, if the number is from 1 to 16.
    pub fn new(priority: u8) -> (result: Option<TaskPriority>)
        ensures
            result.is_some() <==> PRIORITY_MIN <= priority <= PRIORITY_MAX,
            result.is_some() ==> result.unwrap()@ == priority,
    {
        if PRIORITY_MIN <= priority && priority <= PRIORITY_MAX {
            Some(TaskPriority(priority))
        } else {
            None
        }
    }

    /// The priority as a number.
    pub fn get(self) -> (result: u8)
        ensures
            result == self@,
            PRIORITY_MIN <= result <= PRIORITY_MAX,
    {
        proof {
            use_type_invariant(self);
        }
        self.0
    }
}

/// How much stack a task asks for.
#[derive(Clone, Copy, Debug)]
pub enum TaskStackOption {
    /// The default size.
    Auto,
    /// This many pages, and one more below them as a guard.
    Pages(usize),
}

impl TaskStackOption {
    /// Bytes of the stack region, guard page included.
    pub open spec fn bytes(self) -> int {
        match self {
            TaskStackOption::Auto => DEFAULT_STACK_SIZE as int,
            TaskStackOption::Pages(page_count) => (page_count + 1) * PAGE_SIZE,
        }
    }

    /// Bytes of the stack region, guard page included; nothing if the number
    /// does not fit in 64 bits.
    pub fn size(&self) -> (result: Option<u64>)
        ensures
            result.is_some() <==> self.bytes() <= u64::MAX,
            result.is_some() ==> result.unwrap() == self.bytes(),
    {
        match self {
            TaskStackOption::Auto => Some(DEFAULT_STACK_SIZE),
            TaskStackOption::Pages(page_count) => {
                let pages: u64 = *page_count as u64;
                if pages < u64::MAX / PAGE_SIZE {
                    Some((pages + 1) * PAGE_SIZE)
                } else {
                    None
                }
            },
        }
    }
}

/// The stack of a task: a region of the kernel's address space whose lowest
/// page is a guard.
#[derive(Clone, Copy, Debug, PartialEq, Eq, Structural)]
pub struct TaskStack {
    /// The lowest page of the region: the guard page.
    pub base: Page,
    /// Bytes of the region.
    pub len: u64,
}

/// The root table that a task runs on, with the flags to load it with.
#[derive(Clone, Copy, Debug, PartialEq, Eq, Structural)]
pub struct RootPageTable {
    pub frame: Frame,
    pub flags: CR3Flags,
}

/// The source of task identifiers: each is used once, in rising order.
pub struct TaskIds {
    next: u64,
}

impl TaskIds {
    /// The identifier that the next task will get.
    pub closed spec fn upcoming(&self) -> u64 {
        self.next
    }

    /// A source whose first identifier is 1.
    pub fn new() -> (result: TaskIds)
        ensures
            result.upcoming() == 1,
    {
        TaskIds { next: 1 }
    }

    /// Hands out the next identifier. After the last one the count starts
    /// again at zero.
    pub fn take(&mut self) -> (result: u64)
        ensures
            result == old(self).upcoming(),
            final(self).upcoming() == if old(self).upcoming() == u64::MAX {
                0
            } else {
                (old(self).upcoming() + 1) as u64
            },
    {
        let id: u64 = self.next;
        self.next = if id == u64::MAX {
            0
        } else {
            id + 1
        };
        id
    }
}

/// One unit of execution: where it goes on, its registers, its stack and its
/// address space.
#[derive(Debug)]
pub struct Task {
    id: u64,
    prio: TaskPriority,
    pub ctrl_flow_context: ControlContext,
    pub arch_context: ArchContext,
    pub stack: TaskStack,
    pub root_page_table_args: RootPageTable,
}

impl Task {
    /// The identifier of the task.
    pub closed spec fn spec_id(&self) -> u64 {
        self.id
    }

    /// The priority of the task, as a number.
    pub closed spec fn spec_priority(&self) -> u8 {
        self.prio@
    }

    /// Where the task goes on.
    pub closed spec fn spec_control(&self) -> ControlContext {
        self.ctrl_flow_context
    }

    /// The saved registers of the task.
    pub closed spec fn spec_registers(&self) -> ArchContext {
        self.arch_context
    }

    /// The stack of the task.
    pub closed spec fn spec_stack(&self) -> TaskStack {
        self.stack
    }

    /// The root table that the task runs on.
    pub closed spec fn spec_root(&self) -> RootPageTable {
        self.root_page_table_args
    }

    /// A task that starts at `function` on the given stack.
    ///
    /// The task gets the next identifier, its instruction pointer is
    /// `function` and its stack pointer the end of the stack. The guard
    /// page, the lowest page of the stack, is unmapped in the kernel's
    /// address space without freeing its frame. If the guard page was not
    /// mapped, no task is made and no identifier used; the page is still
    /// noted for invalidation.
    pub fn new(
        ids: &mut TaskIds,
        kernel_mapper: &mut Mapper,
        pmm: &mut FrameManager,
        mem: &mut PhysicalMemory,
        priority: TaskPriority,
        function: u64,
        stack: TaskStack,
        arch_context: ArchContext,
        root_page_table_args: RootPageTable,
    ) -> (result: Result<Task, PagingError>)
        requires
            stack.base@ + stack.len <= u64::MAX,
        ensures
            ({
                let found = walk(old(mem)@, old(kernel_mapper).root(), DEPTH_MAX, stack.base@, None);
                let outcome = unmap_outcome(
                    old(pmm)@,
                    old(mem)@,
                    old(kernel_mapper).root(),
                    stack.base@,
                    None,
                    false,
                );
                &&& result.is_ok() == found.is_ok()
                &&& found matches Err(error) ==> result matches Err(e) && e == error
                &&& final(pmm)@ == old(pmm)@
                &&& final(mem)@ == outcome.1
            }),
            final(kernel_mapper).root() == old(kernel_mapper).root(),
            final(kernel_mapper).invalidations() == old(kernel_mapper).invalidations().push(
                stack.base,
            ),
            result matches Ok(task) ==> {
                &&& task.spec_id() == old(ids).upcoming()
                &&& task.spec_priority() == priority@
                &&& task.spec_control() == (ControlContext {
                    ip: function,
                    sp: (stack.base@ + stack.len) as u64,
                })
                &&& task.spec_registers() == arch_context
                &&& task.spec_stack() == stack
                &&& task.spec_root() == root_page_table_args
            },
            result.is_ok() ==> final(ids).upcoming() == if old(ids).upcoming() == u64::MAX {
                0
            } else {
                (old(ids).upcoming() + 1) as u64
            },
            result.is_err() ==> final(ids).upcoming() == old(ids).upcoming(),
    {
        match kernel_mapper.unmap(pmm, mem, stack.base, None, false) {
            Ok(()) => Ok(
                Task {
                    id: ids.take(),
                    prio: priority,
                    ctrl_flow_context: ControlContext {
                        ip: function,
                        sp: stack.base.get() + stack.len,
                    },
                    arch_context,
                    stack,
                    root_page_table_args,
                },
            ),
            Err(error) => Err(error),
        }
    }

    /// Where the task goes on.
    pub fn ctrl_flow_context(&self) -> (result: ControlContext)
        ensures
            result == self.spec_control(),
    {
        self.ctrl_flow_context
    }

    /// The saved registers of the task.
    pub fn arch_context(&self) -> (result: ArchContext)
        ensures
            result == self.spec_registers(),
    {
        self.arch_context
    }

    /// The stack of the task.
    pub fn stack(&self) -> (result: TaskStack)
        ensures
            result == self.spec_stack(),
    {
        self.stack
    }

    /// The root table that the task runs on.
    pub fn root_page_table_args(&self) -> (result: RootPageTable)
        ensures
            result == self.spec_root(),
    {
        self.root_page_table_args
    }

    /// Saves where the task was interrupted, and the registers it had.
    /// Identifier, priority, stack and root table stay.
    pub fn save_context(&mut self, control: ControlContext, registers: ArchContext)
        ensures
            final(self).spec_control() == control,
            final(self).spec_registers() == registers,
            final(self).spec_id() == old(self).spec_id(),
            final(self).spec_priority() == old(self).spec_priority(),
            final(self).spec_stack() == old(self).spec_stack(),
            final(self).spec_root() == old(self).spec_root(),
    {
        self.ctrl_flow_context = control;
        self.arch_context = registers;
    }

    /// The identifier of the task.
    pub fn id(&self) -> (result: u64)
        ensures
            result == self.spec_id(),
    {
        self.id
    }

    /// The priority of the task.
    pub fn priority(&self) -> (result: TaskPriority)
        ensures
            result@ == self.spec_priority(),
            PRIORITY_MIN <= result@ <= PRIORITY_MAX,
    {
        let priority = self.prio;
        let _ = priority.get();
        priority
    }
}

/// Sum of the priorities of the given tasks.
pub open spec fn priority_sum(tasks: Seq<Task>) -> nat
    decreases tasks.len(),
{
    if tasks.len() == 0 {
        0
    } else {
        priority_sum(tasks.drop_last()) + tasks.last().spec_priority() as nat
    }
}

/// The average priority of the given tasks, rounded down; zero for no task.
pub open spec fn average_priority(tasks: Seq<Task>) -> nat {
    if tasks.len() == 0 {
        0
    } else {
        priority_sum(tasks) / tasks.len()
    }
}

/// What a scheduler holds: whether it hands out tasks, and the tasks that
/// wait, the one that waits longest first.
pub struct SchedulerView {
    pub enabled: bool,
    pub queue: Seq<Task>,
}

/// The queue of tasks that are ready to run.
pub struct Scheduler {
    enabled: bool,
    tasks: VecDeque<Task>,
    total_priority: u128,
}

impl View for Scheduler {
    type V = SchedulerView;

    closed spec fn view(&self) -> SchedulerView {
        SchedulerView { enabled: self.enabled, queue: self.tasks@ }
    }
}

impl Scheduler {
    #[verifier::type_invariant]
    spec fn total_is_sum(self) -> bool {
        &&& self.total_priority == priority_sum(self.tasks@)
        &&& forall|i: int|
            0 <= i < self.tasks@.len() ==> PRIORITY_MIN <= (
            #[trigger] self.tasks@[i]).spec_priority() <= PRIORITY_MAX
    }

    /// A scheduler with no task.
    pub fn new(enabled: bool) -> (result: Scheduler)
        ensures
            result@.enabled == enabled,
            result@.queue == Seq::<Task>::empty(),
    {
        Scheduler { enabled, tasks: VecDeque::new(), total_priority: 0 }
    }

    /// Lets the scheduler hand out tasks.
    pub fn enable(&mut self)
        ensures
            final(self)@.enabled,
            final(self)@.queue == old(self)@.queue,
    {
        proof {
            use_type_invariant(&*self);
        }
        self.enabled = true;
    }

    /// Stops the scheduler from handing out tasks. Tasks that were handed
    /// out before are not called back.
    pub fn disable(&mut self)
        ensures
            !final(self)@.enabled,
            final(self)@.queue == old(self)@.queue,
    {
        proof {
            use_type_invariant(&*self);
        }
        self.enabled = false;
    }

    /// Whether the scheduler hands out tasks.
    pub fn is_enabled(&self) -> (result: bool)
        ensures
            result == self@.enabled,
    {
        self.enabled
    }

    /// Appends `task` to the queue.
    pub fn push_task(&mut self, task: Task)
        ensures
            final(self)@ == apply_request(old(self)@, Request::Push(task)),
            final(self)@.queue == old(self)@.queue.push(task),
            final(self)@.enabled == old(self)@.enabled,
    {
        proof {
            use_type_invariant(&*self);
            lemma_sum_bound(self.tasks@);
        }
        let enabled: bool = self.enabled;
        let priority: u8 = task.priority().get();
        let count: usize = self.tasks.len();
        let mut taken = Scheduler { enabled, tasks: VecDeque::new(), total_priority: 0 };
        core::mem::swap(self, &mut taken);
        let mut tasks = taken.tasks;
        assert(taken.total_priority <= count * 16);
        let total: u128 = taken.total_priority + priority as u128;
        proof {
            assert(tasks@.push(task).drop_last() =~= tasks@);
        }
        tasks.push_back(task);
        *self = Scheduler { enabled, tasks, total_priority: total };
    }

    /// Hands out the task that waits longest, if the scheduler is enabled
    /// and a task waits. A disabled scheduler hands out nothing and keeps
    /// its queue.
    pub fn pop_task(&mut self) -> (result: Option<Task>)
        ensures
            final(self)@ == apply_request(old(self)@, Request::Pop),
            result == handed_out(old(self)@),
            final(self)@.enabled == old(self)@.enabled,
    {
        proof {
            use_type_invariant(&*self);
        }
        if !self.enabled {
            return None;
        }
        let enabled: bool = self.enabled;
        let mut taken = Scheduler { enabled, tasks: VecDeque::new(), total_priority: 0 };
        core::mem::swap(self, &mut taken);
        let mut tasks = taken.tasks;
        let ghost before = tasks@;
        match tasks.pop_front() {
            Some(task) => {
                let priority: u8 = task.priority().get();
                proof {
                    lemma_sum_without_first(before);
                    assert(tasks@ =~= before.subrange(1, before.len() as int));
                }
                let total: u128 = taken.total_priority - priority as u128;
                *self = Scheduler { enabled, tasks, total_priority: total };
                Some(task)
            },
            None => {
                proof {
                    assert(tasks@ =~= before);
                }
                *self = Scheduler { enabled, tasks, total_priority: taken.total_priority };
                None
            },
        }
    }

    /// Sum of the priorities of the tasks in the queue.
    pub fn total_priority(&self) -> (result: u128)
        ensures
            result == priority_sum(self@.queue),
    {
        proof {
            use_type_invariant(self);
        }
        self.total_priority
    }

    /// Average priority of the tasks in the queue, rounded down; zero when
    /// the queue is empty.
    pub fn get_avg_prio(&self) -> (result: u64)
        ensures
            result == average_priority(self@.queue),
            result * self@.queue.len() <= priority_sum(self@.queue) <= result * self@.queue.len()
                + self@.queue.len(),
            self@.queue.len() == 0 ==> priority_sum(self@.queue) == 0,
            result <= PRIORITY_MAX,
    {
        proof {
            use_type_invariant(self);
            lemma_average_bounds(self.tasks@);
            lemma_sum_bound(self.tasks@);
        }
        let count: usize = self.tasks.len();
        if count == 0 {
            0
        } else {
            let total: u128 = self.total_priority;
            assert(total / (count as u128) <= 16) by (nonlinear_arith)
                requires
                    count > 0,
                    total <= count * 16,
            ;
            (total / count as u128) as u64
        }
    }

    /// Number of tasks in the queue.
    pub fn get_task_count(&self) -> (result: usize)
        ensures
            result == self@.queue.len(),
    {
        self.tasks.len()
    }
}

/// A request to a scheduler.
pub enum Request {
    /// Put a task at the end of the queue.
    Push(Task),
    /// Hand out the task that waits longest.
    Pop,
}

/// The task that a request to pop gets from the given scheduler.
pub open spec fn handed_out(scheduler: SchedulerView) -> Option<Task> {
    if scheduler.enabled && scheduler.queue.len() > 0 {
        Some(scheduler.queue[0])
    } else {
        None
    }
}

/// The scheduler after a request.
pub open spec fn apply_request(scheduler: SchedulerView, request: Request) -> SchedulerView {
    match request {
        Request::Push(task) => SchedulerView {
            enabled: scheduler.enabled,
            queue: scheduler.queue.push(task),
        },
        Request::Pop => if scheduler.enabled && scheduler.queue.len() > 0 {
            SchedulerView {
                enabled: scheduler.enabled,
                queue: scheduler.queue.subrange(1, scheduler.queue.len() as int),
            }
        } else {
            scheduler
        },
    }
}

/// The scheduler after a sequence of requests, made in order.
pub open spec fn run_requests(scheduler: SchedulerView, requests: Seq<Request>) -> SchedulerView
    decreases requests.len(),
{
    if requests.len() == 0 {
        scheduler
    } else {
        apply_request(run_requests(scheduler, requests.drop_last()), requests.last())
    }
}

/// The priorities of any tasks add up to at most 16 for each task, and to at
/// least 1 for each.
pub proof fn lemma_sum_bound(tasks: Seq<Task>)
    requires
        forall|i: int| 0 <= i < tasks.len() ==> PRIORITY_MIN <= (#[trigger] tasks[i]).spec_priority()
            <= PRIORITY_MAX,
    ensures
        tasks.len() * PRIORITY_MIN <= priority_sum(tasks) <= tasks.len() * PRIORITY_MAX,
    decreases tasks.len(),
{
    if tasks.len() > 0 {
        assert forall|i: int| 0 <= i < tasks.drop_last().len() implies PRIORITY_MIN <= (
        #[trigger] tasks.drop_last()[i]).spec_priority() <= PRIORITY_MAX by {
            assert(tasks.drop_last()[i] == tasks[i]);
        }
        lemma_sum_bound(tasks.drop_last());
    }
}

/// Taking the first task away lowers the sum by its priority.
pub proof fn lemma_sum_without_first(tasks: Seq<Task>)
    requires
        tasks.len() > 0,
    ensures
        priority_sum(tasks) == priority_sum(tasks.subrange(1, tasks.len() as int))
            + tasks[0].spec_priority(),
    decreases tasks.len(),
{
    let rest = tasks.subrange(1, tasks.len() as int);
    if tasks.len() == 1 {
        assert(tasks.drop_last() =~= Seq::<Task>::empty());
        assert(rest =~= Seq::<Task>::empty());
    } else {
        lemma_sum_without_first(tasks.drop_last());
        assert(tasks.drop_last().subrange(1, tasks.len() - 1) =~= rest.drop_last());
    }
}

/// Priority sum and average. The average times the number of tasks is at
/// most the sum of the priorities, and the sum is less than that by under
/// one per task; with no task the sum is zero.
pub proof fn lemma_average_bounds(tasks: Seq<Task>)
    ensures
        average_priority(tasks) * tasks.len() <= priority_sum(tasks),
        priority_sum(tasks) <= average_priority(tasks) * tasks.len() + tasks.len(),
        tasks.len() == 0 ==> priority_sum(tasks) == 0,
{
    if tasks.len() > 0 {
        let sum = priority_sum(tasks) as int;
        let count = tasks.len() as int;
        vstd::arithmetic::div_mod::lemma_fundamental_div_mod(sum, count);
        vstd::arithmetic::div_mod::lemma_mod_bound(sum, count);
        assert(count * (sum / count) == (sum / count) * count) by (nonlinear_arith);
    }
}

/// A disabled scheduler. Whatever is pushed and however often a task is
/// asked for, a scheduler that is disabled stays disabled, hands out
/// nothing, and its queue holds what was pushed behind what it held.
pub proof fn lemma_disabled_keeps_tasks(scheduler: SchedulerView, requests: Seq<Request>)
    requires
        !scheduler.enabled,
    ensures
        !run_requests(scheduler, requests).enabled,
        handed_out(run_requests(scheduler, requests)).is_none(),
        run_requests(scheduler, requests).queue.len() >= scheduler.queue.len(),
        requests.len() > 0 ==> run_requests(scheduler, requests).queue.len() >= run_requests(
            scheduler,
            requests.drop_last(),
        ).queue.len(),
        scheduler.queue.is_prefix_of(run_requests(scheduler, requests).queue),
    decreases requests.len(),
{
    if requests.len() > 0 {
        lemma_disabled_keeps_tasks(scheduler, requests.drop_last());
    }
}

} // verus!
