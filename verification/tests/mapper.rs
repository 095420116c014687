use kernel_core::address::{Frame, Page, PageDepth};
use kernel_core::frame_manager::FrameManager;
use kernel_core::mapper::{Mapper, MapperError};
use kernel_core::memory_map::{FrameType, MemoryAttributes, MemoryDescriptor, MemoryType};
use kernel_core::paging::{
    AttributeModify, PageAttributes, PagingError, DEMAND, GLOBAL, HUGE, NO_EXECUTE, PRESENT,
    WRITABLE,
};
use kernel_core::physical_memory::PhysicalMemory;

fn machine() -> (FrameManager, PhysicalMemory) {
    let map = vec![
        MemoryDescriptor {
            ty: MemoryType::Reserved,
            phys_start: 0,
            page_count: 256,
            att: MemoryAttributes::from_bits(0),
        },
        MemoryDescriptor {
            ty: MemoryType::Conventional,
            phys_start: 0x10_0000,
            page_count: 3840,
            att: MemoryAttributes::from_bits(0),
        },
    ];
    (FrameManager::try_initialize(&map).unwrap(), PhysicalMemory::new())
}

fn attributes(bits: u64) -> PageAttributes {
    PageAttributes::from_bits(bits).unwrap()
}

#[test]
fn auto_map_then_unmap_frees_the_frame() {
    let (mut pmm, mut mem) = machine();
    let mut mapper = Mapper::new(&mut pmm, &mut mem).unwrap();
    let page = Page::new(0x1000).unwrap();
    assert!(!mapper.is_mapped(&mem, page, None));
    assert_eq!(mapper.auto_map(&mut pmm, &mut mem, page, attributes(WRITABLE)), Ok(()));
    assert!(mapper.is_mapped(&mem, page, None));
    let found = mapper.get_page_attributes(&mem, page).unwrap();
    assert!(found.contains_bits(WRITABLE));
    assert_eq!(found.bits(), WRITABLE);
    let frame = mapper.get_mapped_to(&mem, page).unwrap();
    assert_eq!(frame.get(), 0x10_1000);
    assert_eq!(pmm.get_frame_type(frame), Some(FrameType::Generic));
    assert_eq!(mapper.unmap(&mut pmm, &mut mem, page, None, true), Ok(()));
    assert_eq!(pmm.get_frame_type(frame), Some(FrameType::Usable));
    assert_eq!(pmm.count(FrameType::Generic), 4);
    assert_eq!(pmm.next_frame().unwrap(), frame);
    assert!(!mapper.is_mapped(&mem, page, None));
    assert_eq!(mapper.get_mapped_to(&mem, page), None);
}

#[test]
fn new_mapper_takes_and_clears_the_first_usable_frame() {
    let (mut pmm, mut mem) = machine();
    let stale = Frame::new(0x10_0000).unwrap();
    mem.write(stale, 7, 0xFFFF);
    let mapper = Mapper::new(&mut pmm, &mut mem).unwrap();
    assert_eq!(mapper.root_frame(), stale);
    assert_eq!(mem.read(stale, 7), 0);
    assert_eq!(pmm.get_frame_type(stale), Some(FrameType::Generic));
    assert_eq!(mapper.commit_vmem_register(), Ok(0x10_0000));
}

#[test]
fn new_mapper_needs_a_frame() {
    let mut pmm = FrameManager::try_initialize(&Vec::new()).unwrap();
    let mut mem = PhysicalMemory::new();
    assert!(Mapper::new(&mut pmm, &mut mem).is_none());
}

#[test]
fn map_then_lookup_then_unmap() {
    let (mut pmm, mut mem) = machine();
    let mut mapper = Mapper::new(&mut pmm, &mut mem).unwrap();
    let page = Page::new(0x7FFF_1234_5000).unwrap();
    let frame = Frame::new(0x20_0000).unwrap();
    assert_eq!(mapper.get_mapped_to(&mem, page), None);
    assert_eq!(
        mapper.map(&mut pmm, &mut mem, page, PageDepth::min(), frame, true, attributes(PRESENT)),
        Ok(())
    );
    assert_eq!(mapper.get_mapped_to(&mem, page), Some(frame));
    assert!(mapper.is_mapped_to(&mem, page, frame));
    assert!(!mapper.is_mapped_to(&mem, page, Frame::new(0x30_0000).unwrap()));
    assert!(mapper.is_mapped(&mem, page, Some(PageDepth::min())));
    assert_eq!(pmm.get_frame_type(frame), Some(FrameType::Generic));
    // three tables were created below the root
    assert_eq!(pmm.count(FrameType::Generic), 5);
    assert_eq!(mapper.unmap(&mut pmm, &mut mem, page, None, false), Ok(()));
    assert!(!mapper.is_mapped(&mem, page, None));
    assert_eq!(mapper.get_mapped_to(&mem, page), None);
    assert_eq!(mapper.get_page_attributes(&mem, page), None);
    assert_eq!(pmm.get_frame_type(frame), Some(FrameType::Generic));
    assert_eq!(
        mapper.unmap(&mut pmm, &mut mem, page, None, false),
        Err(PagingError::NotMapped)
    );
}

#[test]
fn neighbours_share_tables_and_stay_apart() {
    let (mut pmm, mut mem) = machine();
    let mut mapper = Mapper::new(&mut pmm, &mut mem).unwrap();
    let first = Page::new(0x40_0000).unwrap();
    let second = Page::new(0x40_1000).unwrap();
    let one = Frame::new(0x50_0000).unwrap();
    let two = Frame::new(0x60_0000).unwrap();
    let present = attributes(PRESENT);
    assert!(mapper.map(&mut pmm, &mut mem, first, PageDepth::min(), one, false, present).is_ok());
    let tables = pmm.count(FrameType::Generic);
    assert!(mapper.map(&mut pmm, &mut mem, second, PageDepth::min(), two, false, present).is_ok());
    assert_eq!(pmm.count(FrameType::Generic), tables);
    assert_eq!(mapper.get_mapped_to(&mem, first), Some(one));
    assert_eq!(mapper.get_mapped_to(&mem, second), Some(two));
    assert!(mapper.unmap(&mut pmm, &mut mem, first, None, false).is_ok());
    assert_eq!(mapper.get_mapped_to(&mem, first), None);
    assert_eq!(mapper.get_mapped_to(&mem, second), Some(two));
}

#[test]
fn a_page_is_mapped_whatever_its_attributes() {
    let (mut pmm, mut mem) = machine();
    let mut mapper = Mapper::new(&mut pmm, &mut mem).unwrap();
    for (index, bits) in [0u64, WRITABLE, DEMAND, NO_EXECUTE | GLOBAL, PRESENT].into_iter().enumerate() {
        let page = Page::from_index(0x40 + index as u64).unwrap();
        let frame = Frame::from_index(0x200 + index as u64).unwrap();
        assert_eq!(
            mapper.map(&mut pmm, &mut mem, page, PageDepth::min(), frame, true, attributes(bits)),
            Ok(())
        );
        assert!(mapper.is_mapped(&mem, page, None));
        assert!(mapper.is_mapped_to(&mem, page, frame));
        assert_eq!(mapper.get_mapped_to(&mem, page), Some(frame));
        assert_eq!(mapper.get_page_attributes(&mem, page), Some(attributes(bits)));
        assert_eq!(pmm.get_frame_type(frame), Some(FrameType::Generic));
        assert_eq!(mapper.unmap(&mut pmm, &mut mem, page, None, true), Ok(()));
        assert!(!mapper.is_mapped(&mem, page, None));
        assert_eq!(mapper.get_mapped_to(&mem, page), None);
        assert_eq!(mapper.get_page_attributes(&mem, page), None);
        assert_eq!(pmm.get_frame_type(frame), Some(FrameType::Usable));
        assert_eq!(
            mapper.unmap(&mut pmm, &mut mem, page, None, true),
            Err(PagingError::NotMapped)
        );
    }
    // frame zero with no attribute at all is a mapping like any other
    let page = Page::new(0x9000).unwrap();
    let zero = Frame::new(0).unwrap();
    assert!(mapper.map(&mut pmm, &mut mem, page, PageDepth::min(), zero, false, attributes(0)).is_ok());
    assert_eq!(mapper.get_mapped_to(&mem, page), Some(zero));
    assert!(mapper.unmap(&mut pmm, &mut mem, page, None, false).is_ok());
    assert_eq!(mapper.get_mapped_to(&mem, page), None);
}

#[test]
fn map_sets_huge_above_the_lowest_depth_only() {
    let (mut pmm, mut mem) = machine();
    let mut mapper = Mapper::new(&mut pmm, &mut mem).unwrap();
    let small = Page::new(0x1000).unwrap();
    let large = Page::new(0x4000_0000).unwrap();
    let frame = Frame::new(0x20_0000).unwrap();
    let two = PageDepth::new(2).unwrap();
    assert!(mapper
        .map(&mut pmm, &mut mem, small, PageDepth::min(), frame, false, attributes(PRESENT))
        .is_ok());
    assert!(mapper.map(&mut pmm, &mut mem, large, two, frame, false, attributes(PRESENT)).is_ok());
    let small_bits = mapper.get_page_attributes(&mem, small).unwrap();
    let large_bits = mapper.get_page_attributes(&mem, large).unwrap();
    assert!(!small_bits.contains_bits(HUGE));
    assert!(large_bits.contains_bits(HUGE));
    assert_eq!(large_bits.bits(), PRESENT | HUGE);
    assert!(mapper.is_mapped(&mem, large, Some(two)));
    // the natural leaf of every page under the huge entry is that entry
    let inside = Page::new(0x4000_5000).unwrap();
    assert_eq!(mapper.get_mapped_to(&mem, inside), Some(frame));
}

#[test]
fn map_below_a_huge_page_is_a_paging_error() {
    let (mut pmm, mut mem) = machine();
    let mut mapper = Mapper::new(&mut pmm, &mut mem).unwrap();
    let large = Page::new(0x20_0000).unwrap();
    let inside = Page::new(0x20_3000).unwrap();
    let frame = Frame::new(0x40_0000).unwrap();
    let other = Frame::new(0x80_0000).unwrap();
    let two = PageDepth::new(2).unwrap();
    assert!(mapper.map(&mut pmm, &mut mem, large, two, frame, false, attributes(PRESENT)).is_ok());
    let before = pmm.count(FrameType::Generic);
    assert_eq!(
        mapper.map(&mut pmm, &mut mem, inside, PageDepth::min(), other, false, attributes(PRESENT)),
        Err(MapperError::PagingError(PagingError::WalkInterrupted))
    );
    assert_eq!(pmm.count(FrameType::Generic), before);
    assert_eq!(mapper.get_mapped_to(&mem, inside), Some(frame));
    assert_eq!(mapper.get_page_attributes(&mem, large).unwrap().bits(), PRESENT | HUGE);
}

#[test]
fn map_below_a_huge_page_fails_whatever_its_attributes() {
    for bits in [0u64, WRITABLE, DEMAND, PRESENT | WRITABLE] {
        let (mut pmm, mut mem) = machine();
        let mut mapper = Mapper::new(&mut pmm, &mut mem).unwrap();
        let large = Page::new(0x4000_0000).unwrap();
        let inside = Page::new(0x4012_3000).unwrap();
        let frame = Frame::new(0x40_0000).unwrap();
        let other = Frame::new(0x80_0000).unwrap();
        let three = PageDepth::new(3).unwrap();
        assert!(mapper.map(&mut pmm, &mut mem, large, three, frame, false, attributes(bits)).is_ok());
        let before = pmm.count(FrameType::Generic);
        for depth in [1u8, 2] {
            assert_eq!(
                mapper.map(
                    &mut pmm,
                    &mut mem,
                    inside,
                    PageDepth::new(depth).unwrap(),
                    other,
                    false,
                    attributes(PRESENT)
                ),
                Err(MapperError::PagingError(PagingError::WalkInterrupted))
            );
        }
        assert_eq!(pmm.count(FrameType::Generic), before);
        assert_eq!(pmm.get_frame_type(other), Some(FrameType::Usable));
        assert_eq!(mapper.get_mapped_to(&mem, large), Some(frame));
        assert_eq!(mapper.get_mapped_to(&mem, inside), Some(frame));
        assert_eq!(mapper.get_page_attributes(&mem, large).unwrap().bits(), bits | HUGE);
        // with locking asked for the request fails too, and the tables stay
        assert!(mapper
            .map(&mut pmm, &mut mem, inside, PageDepth::min(), other, true, attributes(PRESENT))
            .is_err());
        assert_eq!(mapper.get_mapped_to(&mem, inside), Some(frame));
    }
}

#[test]
fn map_reports_a_frame_that_cannot_be_locked() {
    let (mut pmm, mut mem) = machine();
    let mut mapper = Mapper::new(&mut pmm, &mut mem).unwrap();
    let page = Page::new(0x1000).unwrap();
    let reserved = Frame::new(0x2000).unwrap();
    assert_eq!(
        mapper.map(&mut pmm, &mut mem, page, PageDepth::min(), reserved, true, attributes(PRESENT)),
        Err(MapperError::AllocError)
    );
    assert!(!mapper.is_mapped(&mem, page, None));
    assert_eq!(pmm.count(FrameType::Generic), 1);
}

#[test]
fn map_reports_when_no_frame_is_left_for_a_table() {
    let map = vec![MemoryDescriptor {
        ty: MemoryType::Conventional,
        phys_start: 0,
        page_count: 2,
        att: MemoryAttributes::from_bits(0),
    }];
    let mut pmm = FrameManager::try_initialize(&map).unwrap();
    let mut mem = PhysicalMemory::new();
    let mut mapper = Mapper::new(&mut pmm, &mut mem).unwrap();
    let page = Page::new(0x1000).unwrap();
    let frame = Frame::new(0x8000).unwrap();
    assert_eq!(
        mapper.map(&mut pmm, &mut mem, page, PageDepth::min(), frame, false, attributes(PRESENT)),
        Err(MapperError::AllocError)
    );
    assert_eq!(pmm.count(FrameType::Usable), 0);
    assert_eq!(
        mapper.auto_map(&mut pmm, &mut mem, page, attributes(PRESENT)),
        Err(MapperError::AllocError)
    );
}

#[test]
fn auto_map_on_demand_leaves_the_frame_unlocked() {
    let (mut pmm, mut mem) = machine();
    let mut mapper = Mapper::new(&mut pmm, &mut mem).unwrap();
    let warm = Page::new(0x1000).unwrap();
    assert!(mapper.auto_map(&mut pmm, &mut mem, warm, attributes(PRESENT)).is_ok());
    let locked = pmm.count(FrameType::Generic);
    let lazy = Page::new(0x2000).unwrap();
    assert!(mapper.auto_map(&mut pmm, &mut mem, lazy, attributes(DEMAND)).is_ok());
    assert_eq!(pmm.count(FrameType::Generic), locked);
    assert!(mapper.is_mapped(&mem, lazy, None));
    assert_eq!(mapper.get_page_attributes(&mem, lazy), Some(attributes(DEMAND)));
    let named = mapper.get_mapped_to(&mem, lazy).unwrap();
    assert_eq!(pmm.get_frame_type(named), Some(FrameType::Usable));
}

#[test]
fn set_page_attributes_sets_removes_and_toggles() {
    let (mut pmm, mut mem) = machine();
    let mut mapper = Mapper::new(&mut pmm, &mut mem).unwrap();
    let page = Page::new(0x5000).unwrap();
    let frame = Frame::new(0x20_0000).unwrap();
    assert!(mapper
        .map(&mut pmm, &mut mem, page, PageDepth::min(), frame, false, attributes(PRESENT | WRITABLE))
        .is_ok());
    let extra = attributes(GLOBAL | NO_EXECUTE);
    assert_eq!(
        mapper.set_page_attributes(&mut mem, page, None, extra, AttributeModify::Insert),
        Ok(())
    );
    let once = mapper.get_page_attributes(&mem, page).unwrap();
    assert_eq!(once.bits(), PRESENT | WRITABLE | GLOBAL | NO_EXECUTE);
    assert_eq!(
        mapper.set_page_attributes(&mut mem, page, None, extra, AttributeModify::Insert),
        Ok(())
    );
    assert_eq!(mapper.get_page_attributes(&mem, page).unwrap(), once);
    assert_eq!(
        mapper.set_page_attributes(
            &mut mem,
            page,
            None,
            attributes(WRITABLE),
            AttributeModify::Remove
        ),
        Ok(())
    );
    assert_eq!(
        mapper.get_page_attributes(&mem, page).unwrap().bits(),
        PRESENT | GLOBAL | NO_EXECUTE
    );
    assert_eq!(
        mapper.set_page_attributes(
            &mut mem,
            page,
            None,
            attributes(GLOBAL | WRITABLE),
            AttributeModify::Toggle
        ),
        Ok(())
    );
    assert_eq!(
        mapper.get_page_attributes(&mem, page).unwrap().bits(),
        PRESENT | WRITABLE | NO_EXECUTE
    );
    assert_eq!(mapper.get_mapped_to(&mem, page), Some(frame));
    let absent = Page::new(0x9000_0000).unwrap();
    assert_eq!(
        mapper.set_page_attributes(&mut mem, absent, None, extra, AttributeModify::Insert),
        Err(MapperError::PagingError(PagingError::NotMapped))
    );
}

#[test]
fn every_request_notes_its_page_for_invalidation() {
    let (mut pmm, mut mem) = machine();
    let mut mapper = Mapper::new(&mut pmm, &mut mem).unwrap();
    let page = Page::new(0x5000).unwrap();
    let other = Page::new(0x6000).unwrap();
    let frame = Frame::new(0x20_0000).unwrap();
    let present = attributes(PRESENT);
    let _ = mapper.map(&mut pmm, &mut mem, page, PageDepth::min(), frame, false, present);
    let _ = mapper.set_page_attributes(&mut mem, page, None, present, AttributeModify::Insert);
    let _ = mapper.unmap(&mut pmm, &mut mem, other, None, false);
    assert_eq!(mapper.take_invalidations(), vec![page, page, other]);
    assert_eq!(mapper.take_invalidations(), Vec::new());
}

#[test]
fn a_mapper_over_an_existing_root_sees_its_mappings() {
    let (mut pmm, mut mem) = machine();
    let mut mapper = Mapper::new(&mut pmm, &mut mem).unwrap();
    let page = Page::new(0x5000).unwrap();
    let frame = Frame::new(0x20_0000).unwrap();
    assert!(mapper
        .map(&mut pmm, &mut mem, page, PageDepth::min(), frame, false, attributes(PRESENT))
        .is_ok());
    let second = Mapper::new_unsafe(mapper.root_frame());
    assert_eq!(second.get_mapped_to(&mem, page), Some(frame));
}

#[test]
fn mapping_one_page_leaves_the_others_as_they_were() {
    let (mut pmm, mut mem) = machine();
    let mut mapper = Mapper::new(&mut pmm, &mut mem).unwrap();
    let pages: Vec<Page> = [0x1000u64, 0x2000, 0x20_0000, 0x4000_0000, 0x80_0000_0000, 0x7FFF_FFFF_F000]
        .into_iter()
        .map(|address| Page::new(address).unwrap())
        .collect();
    let mut expected: Vec<Option<(Frame, PageAttributes)>> = vec![None; pages.len()];
    let look = |mapper: &Mapper, mem: &PhysicalMemory, page: Page| {
        mapper.get_mapped_to(mem, page).map(|frame| (frame, mapper.get_page_attributes(mem, page).unwrap()))
    };
    for (round, page) in pages.iter().enumerate() {
        let frame = Frame::from_index(0x300 + round as u64).unwrap();
        let bits = attributes(if round % 2 == 0 { WRITABLE } else { PRESENT | GLOBAL });
        assert!(mapper.map(&mut pmm, &mut mem, *page, PageDepth::min(), frame, false, bits).is_ok());
        expected[round] = Some((frame, bits));
        for (other, wanted) in pages.iter().zip(expected.iter()) {
            assert_eq!(look(&mapper, &mem, *other), *wanted);
        }
    }
    for (round, page) in pages.iter().enumerate() {
        assert!(mapper.unmap(&mut pmm, &mut mem, *page, None, false).is_ok());
        expected[round] = None;
        for (other, wanted) in pages.iter().zip(expected.iter()) {
            assert_eq!(look(&mapper, &mem, *other), *wanted);
        }
    }
}
