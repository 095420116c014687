use kernel_core::address::Frame;
use kernel_core::frame_manager::{FrameError, FrameManager};
use kernel_core::memory_map::{
    is_consistent, FrameType, MemoryAttributes, MemoryDescriptor, MemoryType,
};

fn region(ty: MemoryType, phys_start: u64, page_count: u64) -> MemoryDescriptor {
    MemoryDescriptor { ty, phys_start, page_count, att: MemoryAttributes::from_bits(0) }
}

fn sixteen_mebibytes() -> Vec<MemoryDescriptor> {
    vec![
        region(MemoryType::Reserved, 0, 256),
        region(MemoryType::Conventional, 0x10_0000, 3840),
    ]
}

#[test]
fn sixteen_mebibytes_with_one_reserved() {
    let pmm = FrameManager::try_initialize(&sixteen_mebibytes()).unwrap();
    assert_eq!(pmm.total_frames(), 4096);
    assert_eq!(pmm.count(FrameType::Usable), 3840);
    assert_eq!(pmm.count(FrameType::Reserved), 256);
    assert_eq!(pmm.count(FrameType::Generic), 0);
    assert_eq!(pmm.free_memory(), 15 * 1024 * 1024);
    assert_eq!(pmm.reserved_memory(), 1024 * 1024);
    assert_eq!(pmm.total_memory(), 16 * 1024 * 1024);
    assert_eq!(pmm.locked_memory(), 0);
}

#[test]
fn every_frame_gets_the_class_of_its_region() {
    let map = vec![
        region(MemoryType::Conventional, 0, 2),
        region(MemoryType::LoaderData, 0x2000, 1),
        region(MemoryType::FrameMap, 0x4000, 1),
        region(MemoryType::Mmio, 0x5000, 1),
    ];
    let pmm = FrameManager::try_initialize(&map).unwrap();
    let state = |index: u64| pmm.get_frame_type(Frame::from_index(index).unwrap());
    assert_eq!(state(0), Some(FrameType::Usable));
    assert_eq!(state(1), Some(FrameType::Usable));
    assert_eq!(state(2), Some(FrameType::BootReclaim));
    assert_eq!(state(3), Some(FrameType::Reserved));
    assert_eq!(state(4), Some(FrameType::FrameMap));
    assert_eq!(state(5), Some(FrameType::Reserved));
    assert_eq!(state(6), None);
}

#[test]
fn overlapping_and_unsorted_maps_are_refused() {
    let overlapping = vec![
        region(MemoryType::Conventional, 0, 4),
        region(MemoryType::Conventional, 0x3000, 4),
    ];
    assert!(!is_consistent(&overlapping));
    assert!(FrameManager::try_initialize(&overlapping).is_none());
    let unsorted = vec![
        region(MemoryType::Conventional, 0x8000, 1),
        region(MemoryType::Conventional, 0, 1),
    ];
    assert!(!is_consistent(&unsorted));
    let misaligned = vec![region(MemoryType::Conventional, 0x800, 1)];
    assert!(!is_consistent(&misaligned));
    assert!(is_consistent(&sixteen_mebibytes()));
    assert!(is_consistent(&Vec::new()));
}

#[test]
fn next_frame_takes_the_lowest_usable_frame() {
    let mut pmm = FrameManager::try_initialize(&sixteen_mebibytes()).unwrap();
    let first = pmm.next_frame().unwrap();
    assert_eq!(first.get(), 0x10_0000);
    let second = pmm.next_frame().unwrap();
    assert_eq!(second.get(), 0x10_1000);
    assert_eq!(pmm.get_frame_type(first), Some(FrameType::Generic));
    assert_eq!(pmm.free_frame(first), Ok(()));
    assert_eq!(pmm.next_frame().unwrap().get(), 0x10_0000);
}

#[test]
fn frames_are_conserved_over_locks_and_frees() {
    let mut pmm = FrameManager::try_initialize(&sixteen_mebibytes()).unwrap();
    let mut locks = 0usize;
    let mut frees = 0usize;
    let mut held = Vec::new();
    for round in 0..200u64 {
        if round % 3 == 2 {
            if let Some(frame) = held.pop() {
                if pmm.free_frame(frame).is_ok() {
                    frees += 1;
                }
            }
        } else if let Ok(frame) = pmm.next_frame() {
            locks += 1;
            held.push(frame);
        }
        assert_eq!(pmm.count(FrameType::Generic), locks - frees);
        assert_eq!(pmm.count(FrameType::Generic) + pmm.count(FrameType::Usable), 3840);
    }
}

#[test]
fn out_of_memory_when_nothing_is_usable() {
    let map = vec![region(MemoryType::Conventional, 0, 2)];
    let mut pmm = FrameManager::try_initialize(&map).unwrap();
    assert!(pmm.next_frame().is_ok());
    assert!(pmm.next_frame().is_ok());
    assert_eq!(pmm.next_frame(), Err(FrameError::OutOfMemory));
    assert_eq!(pmm.count(FrameType::Generic), 2);
}

#[test]
fn lock_and_free_report_the_state_they_found() {
    let mut pmm = FrameManager::try_initialize(&sixteen_mebibytes()).unwrap();
    let usable = Frame::new(0x20_0000).unwrap();
    let reserved = Frame::new(0x1000).unwrap();
    let outside = Frame::new(0x1000_0000).unwrap();
    assert_eq!(pmm.free_frame(usable), Err(FrameError::NotLocked));
    assert_eq!(pmm.lock_frame(usable), Ok(()));
    assert_eq!(pmm.lock_frame(usable), Err(FrameError::AlreadyLocked));
    assert_eq!(pmm.lock_frame(reserved), Err(FrameError::AlreadyLocked));
    assert_eq!(pmm.lock_frame(outside), Err(FrameError::AlreadyLocked));
    assert_eq!(pmm.free_frame(outside), Err(FrameError::NotLocked));
    assert_eq!(pmm.free_frame(usable), Ok(()));
    assert_eq!(pmm.get_frame_type(usable), Some(FrameType::Usable));
    assert_eq!(pmm.get_frame_type(reserved), Some(FrameType::Reserved));
}

#[test]
fn modify_type_swaps_only_from_the_expected_state() {
    let mut pmm = FrameManager::try_initialize(&sixteen_mebibytes()).unwrap();
    let reserved = Frame::new(0x1000).unwrap();
    let usable = Frame::new(0x20_0000).unwrap();
    assert_eq!(
        pmm.modify_type(reserved, FrameType::Usable, FrameType::Generic),
        Err(FrameError::TypeMismatch)
    );
    assert_eq!(pmm.get_frame_type(reserved), Some(FrameType::Reserved));
    assert_eq!(pmm.modify_type(reserved, FrameType::Reserved, FrameType::Generic), Ok(()));
    assert_eq!(pmm.get_frame_type(reserved), Some(FrameType::Generic));
    assert_eq!(
        pmm.modify_type(usable, FrameType::Usable, FrameType::Reserved),
        Err(FrameError::TypeMismatch)
    );
    assert_eq!(pmm.get_frame_type(usable), Some(FrameType::Usable));
    assert_eq!(pmm.modify_type(usable, FrameType::Usable, FrameType::Generic), Ok(()));
    assert_eq!(pmm.modify_type(usable, FrameType::Generic, FrameType::Usable), Ok(()));
    assert_eq!(
        pmm.modify_type(usable, FrameType::Usable, FrameType::Usable),
        Err(FrameError::TypeMismatch)
    );
}

#[test]
fn regions_know_their_frames_and_their_class() {
    let stack = region(MemoryType::KernelStack, 0x3000, 2);
    assert!(stack.is_valid());
    assert_eq!(stack.frame_range(), (3, 5));
    assert!(stack.is_stack_descriptor());
    assert!(stack.should_reserve());
    let free = region(MemoryType::Conventional, 0, 1);
    assert!(!free.is_stack_descriptor());
    assert!(!free.should_reserve());
    assert!(!region(MemoryType::BootServicesCode, 0, 1).should_reserve());
    assert!(region(MemoryType::FrameMap, 0, 1).should_reserve());
    assert!(region(MemoryType::AcpiReclaim, 0, 1).should_reserve());
    assert!(!region(MemoryType::Conventional, 0x10, 1).is_valid());
    assert!(!region(MemoryType::Conventional, 0, 1 << 40 | 1).is_valid());
    assert!(region(MemoryType::Conventional, 0, 1 << 40).is_valid());
    assert!(!region(MemoryType::Conventional, 0x10_0000_0000_1000, 0).is_valid());
    assert_eq!(MemoryType::Conventional.frame_type(), FrameType::Usable);
    assert_eq!(MemoryType::LoaderCode.frame_type(), FrameType::BootReclaim);
    assert_eq!(MemoryType::BootServicesData.frame_type(), FrameType::BootReclaim);
    assert_eq!(MemoryType::FrameMap.frame_type(), FrameType::FrameMap);
    assert_eq!(MemoryType::Kernel.frame_type(), FrameType::Reserved);
    assert_eq!(MemoryType::Persistent.frame_type(), FrameType::Reserved);
    let flags = MemoryAttributes::from_bits(0x8 | 0x4000);
    assert!(flags.contains(0x8));
    assert!(flags.contains(0x4008));
    assert!(!flags.contains(0x4));
}
