use kernel_core::address::{Frame, Page};
use kernel_core::boot::BootData;
use kernel_core::bootstrap::{
    ap_data, ap_text, identity_map, identity_map_range, init, is_mappable, kernel_bss,
    kernel_data, kernel_rodata, kernel_text, map_frame_map, map_regions, protect_range,
    region_attributes, section_pages, user_code, KernelSections, KernelSymbols, PageRange,
};
use kernel_core::frame_manager::{FrameError, FrameManager};
use kernel_core::mapper::{Mapper, MapperError};
use kernel_core::memory_map::{
    FrameType, MemoryAttributes, MemoryDescriptor, MemoryType, MEMORY_EXEC_PROTECT,
    MEMORY_READ_ONLY, MEMORY_UNCACHEABLE, MEMORY_WRITE_BACK, MEMORY_WRITE_THROUGH,
};
use kernel_core::paging::{
    PageAttributes, PagingError, GLOBAL, NO_EXECUTE, PRESENT, UNCACHEABLE, USERSPACE, WRITABLE,
    WRITE_THROUGH,
};
use kernel_core::physical_memory::PhysicalMemory;
use kernel_core::startup::{
    frame_count_hint, init_falloc, init_system_config_table, reserve_kernel_stack, StackError,
    TablePlacement,
};
use kernel_core::units::LinkerSymbol;

fn region(ty: MemoryType, phys_start: u64, page_count: u64, flags: u64) -> MemoryDescriptor {
    MemoryDescriptor { ty, phys_start, page_count, att: MemoryAttributes::from_bits(flags) }
}

fn boot_map() -> Vec<MemoryDescriptor> {
    vec![
        region(MemoryType::Reserved, 0, 16, 0),
        region(MemoryType::Kernel, 0x1_0000, 16, MEMORY_WRITE_BACK),
        region(MemoryType::LoaderData, 0x2_0000, 4, MEMORY_WRITE_BACK),
        region(MemoryType::FrameMap, 0x2_4000, 2, MEMORY_WRITE_BACK),
        region(MemoryType::KernelStack, 0x2_6000, 2, MEMORY_WRITE_BACK),
        region(MemoryType::Conventional, 0x4_0000, 192, MEMORY_WRITE_BACK),
        region(MemoryType::Mmio, 0x20_0000, 2, MEMORY_UNCACHEABLE | MEMORY_EXEC_PROTECT),
    ]
}

fn sections() -> KernelSections {
    KernelSections {
        text: PageRange { start: 0x10, end: 0x14 },
        ap_text: PageRange { start: 0x14, end: 0x15 },
        rodata: PageRange { start: 0x15, end: 0x17 },
        data: PageRange { start: 0x17, end: 0x19 },
        bss: PageRange { start: 0x19, end: 0x1B },
        ap_data: PageRange { start: 0x1B, end: 0x1C },
        user_code: PageRange { start: 0x1C, end: 0x1E },
    }
}

fn bits_of(mapper: &Mapper, mem: &PhysicalMemory, index: u64) -> Option<u64> {
    mapper
        .get_page_attributes(mem, Page::from_index(index).unwrap())
        .map(|attributes| attributes.bits())
}

#[test]
fn region_flags_give_page_attributes() {
    let of = |flags: u64| region_attributes(MemoryAttributes::from_bits(flags)).bits();
    assert_eq!(of(0), 0);
    assert_eq!(of(MEMORY_WRITE_THROUGH), WRITABLE | WRITE_THROUGH);
    assert_eq!(of(MEMORY_WRITE_BACK), WRITABLE);
    assert_eq!(of(MEMORY_WRITE_THROUGH | MEMORY_WRITE_BACK), WRITABLE);
    assert_eq!(of(MEMORY_EXEC_PROTECT), NO_EXECUTE);
    assert_eq!(of(MEMORY_UNCACHEABLE), UNCACHEABLE);
    assert_eq!(of(MEMORY_WRITE_BACK | MEMORY_READ_ONLY), 0);
    assert_eq!(of(MEMORY_WRITE_THROUGH | MEMORY_READ_ONLY | MEMORY_EXEC_PROTECT), NO_EXECUTE);
    assert_eq!(
        of(MEMORY_WRITE_THROUGH | MEMORY_UNCACHEABLE | MEMORY_EXEC_PROTECT),
        WRITABLE | WRITE_THROUGH | UNCACHEABLE | NO_EXECUTE
    );
}

#[test]
fn reserved_and_kernel_regions_are_not_mapped_as_regions() {
    assert!(!is_mappable(MemoryType::Reserved));
    assert!(!is_mappable(MemoryType::Unusable));
    assert!(!is_mappable(MemoryType::Unaccepted));
    assert!(!is_mappable(MemoryType::Kernel));
    assert!(is_mappable(MemoryType::Conventional));
    assert!(is_mappable(MemoryType::Mmio));
    assert!(is_mappable(MemoryType::LoaderData));
    assert!(is_mappable(MemoryType::FrameMap));
}

#[test]
fn sections_cover_every_page_they_touch() {
    let symbol = |address: usize| LinkerSymbol { address };
    assert_eq!(section_pages(&symbol(0x1_0000), &symbol(0x1_4000)), PageRange { start: 0x10, end: 0x14 });
    assert_eq!(section_pages(&symbol(0x1_0800), &symbol(0x1_4001)), PageRange { start: 0x10, end: 0x15 });
    assert_eq!(section_pages(&symbol(0), &symbol(0)), PageRange { start: 0, end: 0 });
    let symbols = KernelSymbols {
        text_start: symbol(0x1_0000),
        text_end: symbol(0x1_3FFF),
        rodata_start: symbol(0x1_5000),
        rodata_end: symbol(0x1_6001),
        data_start: symbol(0x1_7000),
        data_end: symbol(0x1_9000),
        bss_start: symbol(0x1_9010),
        bss_end: symbol(0x1_A000),
        ap_text_start: symbol(0x1_4000),
        ap_text_end: symbol(0x1_5000),
        ap_data_start: symbol(0x1_B000),
        ap_data_end: symbol(0x1_B008),
        user_code_start: symbol(0x1_C000),
        user_code_end: symbol(0x1_E000),
    };
    assert_eq!(kernel_text(&symbols), PageRange { start: 0x10, end: 0x14 });
    assert_eq!(kernel_rodata(&symbols), PageRange { start: 0x15, end: 0x17 });
    assert_eq!(kernel_data(&symbols), PageRange { start: 0x17, end: 0x19 });
    assert_eq!(kernel_bss(&symbols), PageRange { start: 0x19, end: 0x1A });
    assert_eq!(ap_text(&symbols), PageRange { start: 0x14, end: 0x15 });
    assert_eq!(ap_data(&symbols), PageRange { start: 0x1B, end: 0x1C });
    assert_eq!(user_code(&symbols), PageRange { start: 0x1C, end: 0x1E });
}

#[test]
fn init_maps_regions_first_and_sections_over_them() {
    let map = boot_map();
    let mut pmm = FrameManager::try_initialize(&map).unwrap();
    let mut mem = PhysicalMemory::new();
    let mut mapper = Mapper::new(&mut pmm, &mut mem).unwrap();
    let root = mapper.root_frame().get();
    assert_eq!(init(&map, &sections(), &mut mapper, &mut pmm, &mut mem), Ok(root));
    // reserved memory and holes are not mapped
    assert_eq!(bits_of(&mapper, &mem, 0), None);
    assert_eq!(bits_of(&mapper, &mem, 0x30), None);
    // regions
    assert_eq!(bits_of(&mapper, &mem, 0x20), Some(PRESENT | GLOBAL | WRITABLE));
    assert_eq!(bits_of(&mapper, &mem, 0x40), Some(PRESENT | GLOBAL | WRITABLE));
    assert_eq!(bits_of(&mapper, &mem, 0xFF), Some(PRESENT | GLOBAL | WRITABLE));
    assert_eq!(bits_of(&mapper, &mem, 0x200), Some(PRESENT | GLOBAL | UNCACHEABLE | NO_EXECUTE));
    // the kernel image is mapped section by section
    assert_eq!(bits_of(&mapper, &mem, 0x10), Some(PRESENT | GLOBAL));
    assert_eq!(bits_of(&mapper, &mem, 0x14), Some(PRESENT | GLOBAL));
    assert_eq!(bits_of(&mapper, &mem, 0x15), Some(PRESENT | GLOBAL | NO_EXECUTE));
    assert_eq!(bits_of(&mapper, &mem, 0x17), Some(PRESENT | GLOBAL | NO_EXECUTE | WRITABLE));
    assert_eq!(bits_of(&mapper, &mem, 0x1A), Some(PRESENT | GLOBAL | NO_EXECUTE | WRITABLE));
    assert_eq!(bits_of(&mapper, &mem, 0x1B), Some(PRESENT | GLOBAL | NO_EXECUTE | WRITABLE));
    assert_eq!(bits_of(&mapper, &mem, 0x1C), Some(PRESENT | USERSPACE));
    assert_eq!(bits_of(&mapper, &mem, 0x1E), None);
    // the frames behind the frame table are writable and not executable
    assert_eq!(bits_of(&mapper, &mem, 0x24), Some(PRESENT | GLOBAL | NO_EXECUTE | WRITABLE));
    assert_eq!(bits_of(&mapper, &mem, 0x25), Some(PRESENT | GLOBAL | NO_EXECUTE | WRITABLE));
    // every page stands for the frame at its own address
    for index in [0x10u64, 0x20, 0x24, 0x40, 0xFF, 0x200] {
        let page = Page::from_index(index).unwrap();
        assert_eq!(mapper.get_mapped_to(&mem, page), Frame::from_index(index));
    }
    assert!(mapper.take_invalidations().is_empty());
}

#[test]
fn later_mappings_win_over_earlier_ones() {
    let map = vec![region(MemoryType::Conventional, 0, 64, MEMORY_WRITE_BACK)];
    let mut pmm = FrameManager::try_initialize(&map).unwrap();
    let mut mem = PhysicalMemory::new();
    let mut mapper = Mapper::new(&mut pmm, &mut mem).unwrap();
    let overlap = KernelSections {
        text: PageRange { start: 8, end: 10 },
        ap_text: PageRange { start: 0, end: 0 },
        rodata: PageRange { start: 9, end: 10 },
        data: PageRange { start: 0, end: 0 },
        bss: PageRange { start: 0, end: 0 },
        ap_data: PageRange { start: 0, end: 0 },
        user_code: PageRange { start: 0, end: 0 },
    };
    assert!(init(&map, &overlap, &mut mapper, &mut pmm, &mut mem).is_ok());
    assert_eq!(bits_of(&mapper, &mem, 7), Some(PRESENT | GLOBAL | WRITABLE));
    assert_eq!(bits_of(&mapper, &mem, 8), Some(PRESENT | GLOBAL));
    assert_eq!(bits_of(&mapper, &mem, 9), Some(PRESENT | GLOBAL | NO_EXECUTE));
}

#[test]
fn init_stops_when_frames_run_out() {
    let map = vec![
        region(MemoryType::Conventional, 0, 2, MEMORY_WRITE_BACK),
        region(MemoryType::Mmio, 0x4000_0000, 1, 0),
    ];
    let mut pmm = FrameManager::try_initialize(&map).unwrap();
    let mut mem = PhysicalMemory::new();
    let mut mapper = Mapper::new(&mut pmm, &mut mem).unwrap();
    let none = PageRange { start: 0, end: 0 };
    let empty = KernelSections {
        text: none,
        ap_text: none,
        rodata: none,
        data: none,
        bss: none,
        ap_data: none,
        user_code: none,
    };
    assert_eq!(
        init(&map, &empty, &mut mapper, &mut pmm, &mut mem),
        Err(MapperError::AllocError)
    );
    assert_eq!(pmm.count(FrameType::Usable), 0);
}

#[test]
fn ranges_are_mapped_page_by_page() {
    let map = vec![region(MemoryType::Conventional, 0, 64, 0)];
    let mut pmm = FrameManager::try_initialize(&map).unwrap();
    let mut mem = PhysicalMemory::new();
    let mut mapper = Mapper::new(&mut pmm, &mut mem).unwrap();
    let present = PageAttributes::from_bits(PRESENT | WRITABLE).unwrap();
    let range = PageRange { start: 0x30, end: 0x33 };
    assert_eq!(identity_map_range(&mut mapper, &mut pmm, &mut mem, range, present), Ok(()));
    assert_eq!(bits_of(&mapper, &mem, 0x2F), None);
    assert_eq!(bits_of(&mapper, &mem, 0x30), Some(PRESENT | WRITABLE));
    assert_eq!(bits_of(&mapper, &mem, 0x32), Some(PRESENT | WRITABLE));
    assert_eq!(bits_of(&mapper, &mem, 0x33), None);
    let noted: Vec<u64> = mapper.take_invalidations().iter().map(|page| page.get()).collect();
    assert_eq!(noted, vec![0x3_0000, 0x3_1000, 0x3_2000]);
    let backwards = PageRange { start: 5, end: 2 };
    assert_eq!(identity_map_range(&mut mapper, &mut pmm, &mut mem, backwards, present), Ok(()));
    assert!(mapper.take_invalidations().is_empty());
    let page = Page::from_index(0x38).unwrap();
    assert_eq!(identity_map(&mut mapper, &mut pmm, &mut mem, page, present), Ok(()));
    assert_eq!(mapper.get_mapped_to(&mem, page), Frame::from_index(0x38));
    assert_eq!(protect_range(&mut mapper, &mut mem, PageRange { start: 0x30, end: 0x32 }), Ok(()));
    assert_eq!(bits_of(&mapper, &mem, 0x30), Some(PRESENT));
    assert_eq!(bits_of(&mapper, &mem, 0x31), Some(PRESENT));
    assert_eq!(bits_of(&mapper, &mem, 0x32), Some(PRESENT | WRITABLE));
    assert_eq!(
        protect_range(&mut mapper, &mut mem, PageRange { start: 0x32, end: 0x35 }),
        Err(MapperError::PagingError(PagingError::NotMapped))
    );
    assert_eq!(bits_of(&mapper, &mem, 0x32), Some(PRESENT));
}

#[test]
fn stages_can_be_run_one_by_one() {
    let map = boot_map();
    let mut pmm = FrameManager::try_initialize(&map).unwrap();
    let mut mem = PhysicalMemory::new();
    let mut mapper = Mapper::new(&mut pmm, &mut mem).unwrap();
    assert_eq!(map_frame_map(&mut mapper, &mut pmm, &mut mem), Ok(()));
    assert_eq!(bits_of(&mapper, &mem, 0x24), Some(PRESENT | GLOBAL | NO_EXECUTE | WRITABLE));
    assert_eq!(bits_of(&mapper, &mem, 0x26), None);
    assert_eq!(map_regions(&mut mapper, &mut pmm, &mut mem, &map), Ok(()));
    assert_eq!(bits_of(&mapper, &mem, 0x24), Some(PRESENT | GLOBAL | WRITABLE));
    assert_eq!(bits_of(&mapper, &mem, 0x26), Some(PRESENT | GLOBAL | WRITABLE));
    assert_eq!(bits_of(&mapper, &mem, 0x10), None);
}

#[test]
fn loader_memory_is_claimed_once() {
    let map = boot_map();
    let mut pmm = FrameManager::try_initialize(&map).unwrap();
    let mut boot = BootData::new(map.clone());
    assert_eq!(boot.get_memory_map(), Some(&map));
    assert_eq!(boot.get_rsdp_address(Some(0xFFFF_8000_000E_0000), 0xFFFF_8000_0000_0000), Some(0xE_0000));
    assert_eq!(boot.get_rsdp_address(Some(0xE_0000), 0xFFFF_8000_0000_0000), Some(0xE_0000));
    assert_eq!(boot.get_rsdp_address(None, 0), None);
    let loader = Frame::from_index(0x21).unwrap();
    assert_eq!(pmm.get_frame_type(loader), Some(FrameType::BootReclaim));
    // a frame that was claimed by hand before is left alone
    let early = Frame::from_index(0x22).unwrap();
    assert_eq!(pmm.modify_type(early, FrameType::BootReclaim, FrameType::Generic), Ok(()));
    assert_eq!(pmm.free_frame(early), Ok(()));
    boot.reclaim_boot_memory(&mut pmm);
    assert_eq!(pmm.get_frame_type(loader), Some(FrameType::Generic));
    assert_eq!(pmm.get_frame_type(early), Some(FrameType::Usable));
    assert_eq!(pmm.count(FrameType::BootReclaim), 0);
    assert_eq!(pmm.count(FrameType::Generic), 3);
    assert_eq!(pmm.get_frame_type(Frame::from_index(0x24).unwrap()), Some(FrameType::FrameMap));
    assert_eq!(boot.get_memory_map(), None);
    assert_eq!(boot.get_rsdp_address(Some(0xE_0000), 0), None);
}

#[test]
fn the_frame_table_goes_into_the_first_region_that_holds_it() {
    let map = boot_map();
    assert_eq!(
        init_falloc(&map),
        Some(TablePlacement {
            total_memory: 0x10_0000,
            managed_memory: (4 + 192) * 0x1000,
            table_frames: 1,
            table_start: 0x4_0000,
        })
    );
    assert_eq!(frame_count_hint(0), 0);
    assert_eq!(frame_count_hint(0x1000), 1);
    assert_eq!(frame_count_hint(4096 * 4096), 1);
    assert_eq!(frame_count_hint(4097 * 4096), 2);
    let reserved_only = vec![region(MemoryType::Reserved, 0, 8, 0)];
    assert_eq!(init_falloc(&reserved_only), None);
    let no_room = vec![region(MemoryType::LoaderData, 0, 8, 0)];
    assert_eq!(init_falloc(&no_room), None);
    assert_eq!(init_falloc(&Vec::new()), None);
}

#[test]
fn the_kernel_has_exactly_one_stack() {
    assert_eq!(reserve_kernel_stack(&boot_map()), Ok((0x26, 2)));
    let none = vec![region(MemoryType::Conventional, 0, 8, 0)];
    assert_eq!(reserve_kernel_stack(&none), Err(StackError::Missing));
    let two = vec![
        region(MemoryType::KernelStack, 0, 8, 0),
        region(MemoryType::Conventional, 0x8000, 8, 0),
        region(MemoryType::KernelStack, 0x1_0000, 8, 0),
    ];
    assert_eq!(reserve_kernel_stack(&two), Err(StackError::Multiple));
}

#[test]
fn the_configuration_table_keeps_its_frames() {
    let map = vec![region(MemoryType::Conventional, 0, 16, 0)];
    let mut pmm = FrameManager::try_initialize(&map).unwrap();
    assert_eq!(init_system_config_table(&mut pmm, 0x2010, 1024, 24), Ok(()));
    assert_eq!(pmm.count(FrameType::Generic), 6);
    assert_eq!(pmm.get_frame_type(Frame::from_index(1).unwrap()), Some(FrameType::Usable));
    assert_eq!(pmm.get_frame_type(Frame::from_index(2).unwrap()), Some(FrameType::Generic));
    assert_eq!(pmm.get_frame_type(Frame::from_index(7).unwrap()), Some(FrameType::Generic));
    assert_eq!(pmm.get_frame_type(Frame::from_index(8).unwrap()), Some(FrameType::Usable));
    assert_eq!(
        init_system_config_table(&mut pmm, 0x6000, 1024, 24),
        Err(FrameError::AlreadyLocked)
    );
    assert_eq!(init_system_config_table(&mut pmm, 0x9000, 10, 8), Ok(()));
    assert_eq!(pmm.count(FrameType::Generic), 6);
}
