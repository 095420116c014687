use kernel_core::address::{Frame, Page, PageDepth};
use kernel_core::cr3::{CR3Flags, CR3, PAGE_LEVEL_CACHE_DISABLE, PAGE_LEVEL_WRITE_THROUGH};
use kernel_core::frame_manager::FrameManager;
use kernel_core::memory_map::{FrameType, MemoryAttributes, MemoryDescriptor, MemoryType};
use kernel_core::page_table::PageTable;
use kernel_core::paging::{
    AttributeModify, PageAttributes, PageTableEntry, PagingError, ALL_ATTRIBUTES, GLOBAL, HUGE,
    IN_USE,
    NO_EXECUTE, PRESENT, USERSPACE, WRITABLE,
};
use kernel_core::physical_memory::PhysicalMemory;

#[test]
fn frames_are_aligned_and_addressable() {
    assert!(Frame::new(0x1000).is_some());
    assert!(Frame::new(0x1001).is_none());
    assert!(Frame::new(0x10_0000_0000_0000).is_none());
    assert_eq!(Frame::new(0xF_FFFF_FFFF_F000).unwrap().get(), 0xF_FFFF_FFFF_F000);
    assert_eq!(Frame::new_truncate(0xFFFF_FFFF_FFFF_FFFF).get(), 0x000F_FFFF_FFFF_F000);
    assert_eq!(Frame::new_truncate(0x1234).get(), 0x1000);
    assert_eq!(Frame::from_index(3).unwrap().get(), 0x3000);
    assert_eq!(Frame::from_index(3).unwrap().index(), 3);
    assert!(Frame::from_index(1 << 40).is_none());
}

#[test]
fn pages_are_aligned() {
    assert!(Page::new(0xFFFF_8000_0000_0000).is_some());
    assert!(Page::new(0x10).is_none());
    assert_eq!(Page::new_truncate(0x1FFF).get(), 0x1000);
    assert_eq!(Page::from_index(5).unwrap().get(), 0x5000);
    assert_eq!(Page::from_index(5).unwrap().index(), 5);
    assert!(Page::from_index(u64::MAX).is_none());
}

#[test]
fn a_page_selects_one_slot_on_each_level() {
    let page = Page::new((1 << 39) * 3 + (1 << 30) * 511 + (1 << 21) * 7 + (1 << 12) * 300).unwrap();
    let depth = |level: u8| PageDepth::new(level).unwrap();
    assert_eq!(page.table_index(depth(4)), 3);
    assert_eq!(page.table_index(depth(3)), 511);
    assert_eq!(page.table_index(depth(2)), 7);
    assert_eq!(page.table_index(depth(1)), 300);
}

#[test]
fn depths_run_from_one_to_four() {
    assert!(PageDepth::new(0).is_none());
    assert!(PageDepth::new(5).is_none());
    assert_eq!(PageDepth::min().get(), 1);
    assert_eq!(PageDepth::max().get(), 4);
    assert_eq!(PageDepth::max().next().unwrap().get(), 3);
    assert!(PageDepth::min().next().is_none());
    assert_eq!(PageDepth::min().page_size(), 0x1000);
    assert_eq!(PageDepth::new(2).unwrap().page_size(), 0x20_0000);
    assert_eq!(PageDepth::new(3).unwrap().page_size(), 0x4000_0000);
    assert_eq!(PageDepth::max().page_size(), 0x80_0000_0000);
}

#[test]
fn attribute_sets_behave_as_sets() {
    let mut set = PageAttributes::empty();
    assert!(set.is_empty());
    set.insert(PageAttributes::from_bits(PRESENT | WRITABLE).unwrap());
    assert_eq!(set.bits(), PRESENT | WRITABLE);
    assert!(set.contains(PageAttributes::from_bits(PRESENT).unwrap()));
    assert!(!set.contains(PageAttributes::from_bits(PRESENT | GLOBAL).unwrap()));
    set.remove(PageAttributes::from_bits(WRITABLE | GLOBAL).unwrap());
    assert_eq!(set.bits(), PRESENT);
    set.toggle(PageAttributes::from_bits(PRESENT | NO_EXECUTE).unwrap());
    assert_eq!(set.bits(), NO_EXECUTE);
    assert_eq!(set.union(PageAttributes::from_bits(USERSPACE).unwrap()).bits(), NO_EXECUTE | USERSPACE);
    assert_eq!(PageAttributes::all().bits(), ALL_ATTRIBUTES);
    assert!(PageAttributes::from_bits(0x1000).is_none());
    assert_eq!(PageAttributes::from_bits_truncate(0xFFFF_F301).bits(), 0x301);
}

#[test]
fn an_entry_packs_frame_and_attributes() {
    let frame = Frame::new(0x1234_5000).unwrap();
    let attributes = PageAttributes::from_bits(PRESENT | WRITABLE | NO_EXECUTE).unwrap();
    let mut entry = PageTableEntry::new(frame, attributes);
    assert_eq!(entry.raw(), 0x8000_0000_1234_5003);
    assert_eq!(entry.get_frame(), frame);
    assert_eq!(entry.get_attributes(), attributes);
    assert!(entry.is_present());
    assert!(!entry.is_huge());
    entry.set_frame(Frame::new(0x7000).unwrap());
    assert_eq!(entry.raw(), 0x8000_0000_0000_7003);
    entry.set_attributes(PageAttributes::from_bits(HUGE).unwrap(), AttributeModify::Insert);
    assert!(entry.is_huge());
    entry.set_attributes(PageAttributes::from_bits(PRESENT).unwrap(), AttributeModify::Remove);
    assert!(!entry.is_present());
    entry.set_attributes(PageAttributes::from_bits(PRESENT | HUGE).unwrap(), AttributeModify::Toggle);
    assert_eq!(entry.raw(), 0x8000_0000_0000_7003);
    assert_eq!(PageTableEntry::empty().raw(), 0);
    assert_eq!(PageTableEntry::from_raw(0x55).raw(), 0x55);
    // the mark of a mapped page belongs to no attribute set
    let mut mapping = PageTableEntry::new_mapping(frame, PageAttributes::empty());
    assert_eq!(mapping.raw(), 0x1234_5000 | IN_USE);
    assert!(mapping.is_in_use());
    assert!(mapping.is_occupied());
    assert!(!mapping.is_present());
    assert!(mapping.get_attributes().is_empty());
    assert_eq!(mapping.get_frame(), frame);
    mapping.set_attributes(PageAttributes::all(), AttributeModify::Toggle);
    assert!(mapping.is_in_use());
    mapping.clear_mapping();
    assert!(!mapping.is_occupied());
    assert_eq!(mapping.raw(), ALL_ATTRIBUTES & !PRESENT);
    assert!(PageTableEntry::from_raw(PRESENT).is_occupied());
    assert!(!PageTableEntry::empty().is_occupied());
    assert!(PageAttributes::from_bits(IN_USE).is_none());
}

#[test]
fn only_present_small_entries_lead_to_a_table() {
    let frame = Frame::new(0x9000).unwrap();
    let depth = PageDepth::new(3).unwrap();
    let table = PageTable::new(depth, &PageTableEntry::new(frame, PageAttributes::from_bits(PRESENT).unwrap()))
        .unwrap();
    assert_eq!(table.frame, frame);
    assert_eq!(table.depth, depth);
    assert!(PageTable::new(depth, &PageTableEntry::new(frame, PageAttributes::empty())).is_none());
    assert!(PageTable::new(
        depth,
        &PageTableEntry::new(frame, PageAttributes::from_bits(PRESENT | HUGE).unwrap())
    )
    .is_none());
}

#[test]
fn memory_reads_zero_until_written() {
    let mut mem = PhysicalMemory::new();
    let frame = Frame::new(0x8000).unwrap();
    let other = Frame::new(0x9000).unwrap();
    assert_eq!(mem.read(frame, 511), 0);
    mem.write(frame, 511, 77);
    mem.write(frame, 0, 5);
    assert_eq!(mem.read(frame, 511), 77);
    assert_eq!(mem.read(frame, 0), 5);
    assert_eq!(mem.read(frame, 1), 0);
    assert_eq!(mem.read(other, 511), 0);
    mem.zero_frame(frame);
    assert_eq!(mem.read(frame, 511), 0);
    assert_eq!(mem.read(frame, 0), 0);
}

#[test]
fn walks_read_and_create_tables() {
    let map = vec![MemoryDescriptor {
        ty: MemoryType::Conventional,
        phys_start: 0,
        page_count: 16,
        att: MemoryAttributes::from_bits(0),
    }];
    let mut pmm = FrameManager::try_initialize(&map).unwrap();
    let mut mem = PhysicalMemory::new();
    let root = PageTable { frame: pmm.next_frame().unwrap(), depth: PageDepth::max() };
    let page = Page::new(0x20_3000).unwrap();
    assert_eq!(root.with_entry(&mem, page, None).err(), Some(PagingError::NotMapped));
    let two = PageDepth::new(2).unwrap();
    let slot = root.with_entry_create(&mut pmm, &mut mem, page, two).unwrap();
    assert_eq!(slot.depth(), two);
    assert_eq!(slot.index(), 1);
    assert_eq!(slot.entry().raw(), 0);
    assert_eq!(slot.table().get(), 0x2000);
    assert_eq!(pmm.count(FrameType::Generic), 3);
    // the entry itself is not present yet
    assert_eq!(root.with_entry(&mem, page, Some(two)).err(), Some(PagingError::NotMapped));
    let huge = PageTableEntry::new(
        Frame::new(0x20_0000).unwrap(),
        PageAttributes::from_bits(PRESENT | HUGE).unwrap(),
    );
    slot.store(&mut mem, huge);
    // a walk to a lower depth ends early at the huge entry
    let found = root.with_entry(&mem, page, Some(PageDepth::min())).unwrap();
    assert_eq!(found.depth(), two);
    assert_eq!(found.entry(), huge);
    assert_eq!(
        root.with_entry_create(&mut pmm, &mut mem, page, PageDepth::min()).err(),
        Some(PagingError::WalkInterrupted)
    );
    assert_eq!(root.get_entry(&mem, Page::new(0).unwrap()).get_frame().get(), 0x1000);
    // a table below the root cannot reach a depth above itself
    let lower = PageTable { frame: slot.table(), depth: PageDepth::min() };
    assert_eq!(
        lower.with_entry(&mem, page, Some(PageDepth::max())).err(),
        Some(PagingError::WalkInterrupted)
    );
    lower.set_entry(&mut mem, Page::new(0x5000).unwrap(), huge);
    assert_eq!(mem.read(slot.table(), 5), huge.raw());
}

#[test]
fn the_root_register_holds_frame_and_flags() {
    let frame = Frame::new(0x12_3000).unwrap();
    assert_eq!(CR3::write(&frame, None), 0x12_3000);
    let flags = CR3Flags::from_bits(PAGE_LEVEL_WRITE_THROUGH | PAGE_LEVEL_CACHE_DISABLE).unwrap();
    assert_eq!(CR3::write(&frame, Some(flags)), 0x12_3018);
    assert!(CR3Flags::from_bits(0x20).is_none());
    assert_eq!(CR3Flags::empty().bits(), 0);
    let (read, read_flags) = CR3::read(0x12_3018).unwrap();
    assert_eq!(read, frame);
    assert!(read_flags.is_none());
    let (zero, zero_flags) = CR3::read(0x18).unwrap();
    assert_eq!(zero.get(), 0);
    assert_eq!(zero_flags.unwrap().bits(), 0x18);
    assert!(CR3::read(0x8000_0000_0000_1000).is_none());
}

#[test]
fn a_creating_walk_fails_when_frames_run_out() {
    let map = vec![MemoryDescriptor {
        ty: MemoryType::Conventional,
        phys_start: 0,
        page_count: 3,
        att: MemoryAttributes::from_bits(0),
    }];
    let mut pmm = FrameManager::try_initialize(&map).unwrap();
    let mut mem = PhysicalMemory::new();
    let root = PageTable { frame: pmm.next_frame().unwrap(), depth: PageDepth::max() };
    let page = Page::new(0x1000).unwrap();
    assert_eq!(
        root.with_entry_create(&mut pmm, &mut mem, page, PageDepth::min()).err(),
        Some(PagingError::AllocError)
    );
    // the two tables that could be made stay
    assert_eq!(pmm.count(FrameType::Generic), 3);
    let three = PageDepth::new(3).unwrap();
    let reached = root.with_entry_create(&mut pmm, &mut mem, page, PageDepth::new(2).unwrap());
    assert_eq!(reached.unwrap().table().get(), 0x2000);
    assert!(root.with_entry_create(&mut pmm, &mut mem, page, three).is_ok());
    assert!(root.with_entry_create(&mut pmm, &mut mem, page, PageDepth::max()).is_ok());
}
