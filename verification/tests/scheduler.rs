use kernel_core::address::{Frame, Page, PageDepth};
use kernel_core::contexts::{default_arch_context, ControlContext, INTERRUPT_FLAG};
use kernel_core::cr3::CR3Flags;
use kernel_core::frame_manager::FrameManager;
use kernel_core::mapper::Mapper;
use kernel_core::memory_map::{FrameType, MemoryAttributes, MemoryDescriptor, MemoryType};
use kernel_core::paging::{PageAttributes, PagingError, PRESENT, WRITABLE};
use kernel_core::physical_memory::PhysicalMemory;
use kernel_core::scheduling::{
    RootPageTable, Scheduler, Task, TaskIds, TaskPriority, TaskStack, TaskStackOption,
};

struct Kernel {
    pmm: FrameManager,
    mem: PhysicalMemory,
    mapper: Mapper,
    ids: TaskIds,
    next_stack: u64,
}

fn kernel() -> Kernel {
    let map = vec![MemoryDescriptor {
        ty: MemoryType::Conventional,
        phys_start: 0,
        page_count: 1024,
        att: MemoryAttributes::from_bits(0),
    }];
    let mut pmm = FrameManager::try_initialize(&map).unwrap();
    let mut mem = PhysicalMemory::new();
    let mapper = Mapper::new(&mut pmm, &mut mem).unwrap();
    Kernel { pmm, mem, mapper, ids: TaskIds::new(), next_stack: 0x10_0000 }
}

fn task(kernel: &mut Kernel, priority: u8) -> Task {
    let base = Page::new(kernel.next_stack).unwrap();
    kernel.next_stack += 0x5000;
    let frame = Frame::new(base.get()).unwrap();
    let attributes = PageAttributes::from_bits(PRESENT | WRITABLE).unwrap();
    kernel
        .mapper
        .map(&mut kernel.pmm, &mut kernel.mem, base, PageDepth::min(), frame, false, attributes)
        .unwrap();
    let root = RootPageTable { frame: kernel.mapper.root_frame(), flags: CR3Flags::empty() };
    Task::new(
        &mut kernel.ids,
        &mut kernel.mapper,
        &mut kernel.pmm,
        &mut kernel.mem,
        TaskPriority::new(priority).unwrap(),
        0xFFFF_8000_0000_1000,
        TaskStack { base, len: 0x5000 },
        default_arch_context(),
        root,
    )
    .unwrap()
}

#[test]
fn average_of_three_priorities() {
    let mut kernel = kernel();
    let mut scheduler = Scheduler::new(true);
    assert_eq!(scheduler.get_avg_prio(), 0);
    for priority in [4u8, 10, 2] {
        let next = task(&mut kernel, priority);
        scheduler.push_task(next);
    }
    assert_eq!(scheduler.get_task_count(), 3);
    assert_eq!(scheduler.total_priority(), 16);
    assert_eq!(scheduler.get_avg_prio(), 5);
    let first = scheduler.pop_task().unwrap();
    assert_eq!(first.priority().get(), 4);
    assert_eq!(scheduler.get_avg_prio(), 6);
    assert_eq!(scheduler.total_priority(), 12);
}

#[test]
fn tasks_leave_in_the_order_they_came() {
    let mut kernel = kernel();
    let mut scheduler = Scheduler::new(true);
    for priority in [16u8, 1, 8, 3] {
        let next = task(&mut kernel, priority);
        scheduler.push_task(next);
    }
    let mut seen = Vec::new();
    while let Some(next) = scheduler.pop_task() {
        seen.push((next.id(), next.priority().get()));
    }
    assert_eq!(seen, vec![(1, 16), (2, 1), (3, 8), (4, 3)]);
    assert_eq!(scheduler.get_task_count(), 0);
    assert_eq!(scheduler.total_priority(), 0);
    assert_eq!(scheduler.get_avg_prio(), 0);
    assert!(scheduler.pop_task().is_none());
}

#[test]
fn a_disabled_scheduler_keeps_its_tasks() {
    let mut kernel = kernel();
    let mut scheduler = Scheduler::new(true);
    let first = task(&mut kernel, 7);
    scheduler.push_task(first);
    scheduler.disable();
    assert!(!scheduler.is_enabled());
    for _ in 0..5 {
        assert!(scheduler.pop_task().is_none());
        assert_eq!(scheduler.get_task_count(), 1);
    }
    let second = task(&mut kernel, 9);
    scheduler.push_task(second);
    assert_eq!(scheduler.get_task_count(), 2);
    assert!(scheduler.pop_task().is_none());
    assert_eq!(scheduler.get_avg_prio(), 8);
    scheduler.enable();
    assert!(scheduler.is_enabled());
    assert_eq!(scheduler.pop_task().unwrap().priority().get(), 7);
    assert_eq!(scheduler.get_task_count(), 1);
}

#[test]
fn the_average_stays_within_one_of_the_sum() {
    let mut kernel = kernel();
    let mut scheduler = Scheduler::new(true);
    for round in 0..40u32 {
        if round % 4 == 3 {
            let _ = scheduler.pop_task();
        } else {
            let next = task(&mut kernel, (round % 16 + 1) as u8);
            scheduler.push_task(next);
        }
        let count = scheduler.get_task_count() as u128;
        let average = scheduler.get_avg_prio() as u128;
        let total = scheduler.total_priority();
        assert!(average * count <= total);
        assert!(total <= average * count + count);
    }
}

#[test]
fn priorities_run_from_one_to_sixteen() {
    assert!(TaskPriority::new(0).is_none());
    assert_eq!(TaskPriority::new(1).unwrap().get(), 1);
    assert_eq!(TaskPriority::new(16).unwrap().get(), 16);
    assert!(TaskPriority::new(17).is_none());
    assert!(TaskPriority::new(255).is_none());
}

#[test]
fn stack_sizes_include_the_guard_page() {
    assert_eq!(TaskStackOption::Auto.size(), Some(0x5000));
    assert_eq!(TaskStackOption::Pages(0).size(), Some(0x1000));
    assert_eq!(TaskStackOption::Pages(4).size(), Some(0x5000));
    assert_eq!(TaskStackOption::Pages(usize::MAX).size(), None);
}

#[test]
fn a_new_task_starts_at_its_function_on_top_of_its_stack() {
    let mut kernel = kernel();
    let made = task(&mut kernel, 3);
    assert_eq!(made.id(), 1);
    assert_eq!(made.ctrl_flow_context.ip, 0xFFFF_8000_0000_1000);
    assert_eq!(made.ctrl_flow_context.sp, 0x10_0000 + 0x5000);
    assert_eq!(made.arch_context.0.rax, 0);
    assert_eq!(made.arch_context.1.flags, INTERRUPT_FLAG);
    assert_eq!(made.arch_context.1.cs, 0x8);
    assert_eq!(made.arch_context.1.ss, 0x10);
    assert_eq!(made.stack.len, 0x5000);
    assert_eq!(made.root_page_table_args.frame, kernel.mapper.root_frame());
    // the guard page is gone from the address space, its frame is not freed
    let guard = Page::new(0x10_0000).unwrap();
    assert!(!kernel.mapper.is_mapped(&kernel.mem, guard, None));
    assert_eq!(
        kernel.pmm.get_frame_type(Frame::new(0x10_0000).unwrap()),
        Some(FrameType::Usable)
    );
    let second = task(&mut kernel, 3);
    assert_eq!(second.id(), 2);
}

#[test]
fn a_task_keeps_what_it_was_interrupted_with() {
    let mut kernel = kernel();
    let mut made = task(&mut kernel, 5);
    assert_eq!(made.ctrl_flow_context().ip, 0xFFFF_8000_0000_1000);
    assert_eq!(made.stack().len, 0x5000);
    assert_eq!(made.stack().base.get(), 0x10_0000);
    assert_eq!(made.root_page_table_args().frame, kernel.mapper.root_frame());
    assert_eq!(made.arch_context(), default_arch_context());
    let mut registers = default_arch_context();
    registers.0.rax = 7;
    made.save_context(ControlContext { ip: 0x4000, sp: 0x8000 }, registers);
    assert_eq!(made.ctrl_flow_context(), ControlContext { ip: 0x4000, sp: 0x8000 });
    assert_eq!(made.arch_context().0.rax, 7);
    assert_eq!(made.id(), 1);
    assert_eq!(made.priority().get(), 5);
    assert_eq!(made.stack().len, 0x5000);
}

#[test]
fn a_task_needs_a_mapped_guard_page() {
    let mut kernel = kernel();
    let base = Page::new(0x7000_0000).unwrap();
    let root = RootPageTable { frame: kernel.mapper.root_frame(), flags: CR3Flags::empty() };
    let made = Task::new(
        &mut kernel.ids,
        &mut kernel.mapper,
        &mut kernel.pmm,
        &mut kernel.mem,
        TaskPriority::new(1).unwrap(),
        0x1000,
        TaskStack { base, len: 0x2000 },
        default_arch_context(),
        root,
    );
    assert_eq!(made.err(), Some(PagingError::NotMapped));
    assert_eq!(kernel.ids.take(), 1);
}

#[test]
fn identifiers_rise_from_one() {
    let mut ids = TaskIds::new();
    assert_eq!(ids.take(), 1);
    assert_eq!(ids.take(), 2);
    assert_eq!(ids.take(), 3);
}
