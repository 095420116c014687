//! Building the kernel's address space at boot.
//!
//! The kernel maps memory onto itself: every page stands for the frame at
//! the same address. First the regions of the memory map are mapped, with
//! attributes derived from the firmware's flags; then the sections of the
//! kernel image are mapped again, with the attributes that each section
//! needs. The later mapping wins.

use crate::address::{Frame, Page, PageDepth, DEPTH_MIN, PAGE_SIZE, PHYSICAL_LIMIT};
use crate::frame_manager::FrameManager;
use crate::address::DEPTH_MAX;
use crate::mapper::{map_outcome, set_attributes_outcome, MapOutcome, Mapper, MapperError};
use crate::page_table::walk;
use crate::memory_map::{
    consistent, FrameType, MemoryAttributes, MemoryDescriptor, MemoryType, MEMORY_EXEC_PROTECT,
    MEMORY_READ_ONLY, MEMORY_UNCACHEABLE, MEMORY_WRITE_BACK, MEMORY_WRITE_THROUGH,
};
use crate::paging::{
    lemma_flags_are_attribute_bits, AttributeModify, PageAttributes, GLOBAL, NO_EXECUTE,
    PRESENT, UNCACHEABLE, USERSPACE, WRITABLE, WRITE_THROUGH,
};
use crate::physical_memory::{MemoryView, PhysicalMemory};
use crate::bootstrap_laws::{
    lemma_init_later_wins, page_after_init, regions_low, sections_low, DISTINCT_PAGES,
};
use crate::sound_tables::{sound, tables_sound, Place};
use crate::units::{align_down_div, align_up_div, LinkerSymbol};
use vstd::prelude::*;

verus! {

/// A run of pages, by page index: from `start` up to, not including, `end`.
#[derive(Clone, Copy, Debug, PartialEq, Eq, Structural)]
pub struct PageRange {
    pub start: u64,
    pub end: u64,
}

/// The addresses that the linker gave to the borders of the kernel's sections.
#[derive(Clone, Copy, Debug)]
pub struct KernelSymbols {
    pub text_start: LinkerSymbol,
    pub text_end: LinkerSymbol,
    pub rodata_start: LinkerSymbol,
    pub rodata_end: LinkerSymbol,
    pub data_start: LinkerSymbol,
    pub data_end: LinkerSymbol,
    pub bss_start: LinkerSymbol,
    pub bss_end: LinkerSymbol,
    pub ap_text_start: LinkerSymbol,
    pub ap_text_end: LinkerSymbol,
    pub ap_data_start: LinkerSymbol,
    pub ap_data_end: LinkerSymbol,
    pub user_code_start: LinkerSymbol,
    pub user_code_end: LinkerSymbol,
}

/// The pages of the kernel's sections.
#[derive(Clone, Copy, Debug)]
pub struct KernelSections {
    pub text: PageRange,
    pub ap_text: PageRange,
    pub rodata: PageRange,
    pub data: PageRange,
    pub bss: PageRange,
    pub ap_data: PageRange,
    pub user_code: PageRange,
}

/// The pages that the bytes from `start` up to `end` touch.
pub open spec fn pages_between(start: usize, end: usize) -> PageRange {
    PageRange { start: (start / 0x1000) as u64, end: ((end + 0xFFF) / 0x1000) as u64 }
}

/// The pages that the bytes between two symbols touch.
pub fn section_pages(start: &LinkerSymbol, end: &LinkerSymbol) -> (result: PageRange)
    requires
        end.address + 0x1000 <= usize::MAX,
    ensures
        result == pages_between(start.address, end.address),
{
    assert(0x1000usize & ((0x1000usize - 1) as usize) == 0) by (bit_vector);
    let first: usize = align_down_div(start.as_usize(), 0x1000);
    let behind: usize = align_up_div(end.as_usize(), 0x1000);
    PageRange { start: first as u64, end: behind as u64 }
}

/// The pages of the kernel's code.
pub fn kernel_text(symbols: &KernelSymbols) -> (result: PageRange)
    requires
        symbols.text_end.address + 0x1000 <= usize::MAX,
    ensures
        result == pages_between(symbols.text_start.address, symbols.text_end.address),
{
    section_pages(&symbols.text_start, &symbols.text_end)
}

/// The pages of the kernel's constants.
pub fn kernel_rodata(symbols: &KernelSymbols) -> (result: PageRange)
    requires
        symbols.rodata_end.address + 0x1000 <= usize::MAX,
    ensures
        result == pages_between(symbols.rodata_start.address, symbols.rodata_end.address),
{
    section_pages(&symbols.rodata_start, &symbols.rodata_end)
}

/// The pages of the kernel's initialised data.
pub fn kernel_data(symbols: &KernelSymbols) -> (result: PageRange)
    requires
        symbols.data_end.address + 0x1000 <= usize::MAX,
    ensures
        result == pages_between(symbols.data_start.address, symbols.data_end.address),
{
    section_pages(&symbols.data_start, &symbols.data_end)
}

/// The pages of the kernel's zeroed data.
pub fn kernel_bss(symbols: &KernelSymbols) -> (result: PageRange)
    requires
        symbols.bss_end.address + 0x1000 <= usize::MAX,
    ensures
        result == pages_between(symbols.bss_start.address, symbols.bss_end.address),
{
    section_pages(&symbols.bss_start, &symbols.bss_end)
}

/// The pages of the code that starts the other processors.
pub fn ap_text(symbols: &KernelSymbols) -> (result: PageRange)
    requires
        symbols.ap_text_end.address + 0x1000 <= usize::MAX,
    ensures
        result == pages_between(symbols.ap_text_start.address, symbols.ap_text_end.address),
{
    section_pages(&symbols.ap_text_start, &symbols.ap_text_end)
}

/// The pages of the data of the code that starts the other processors.
pub fn ap_data(symbols: &KernelSymbols) -> (result: PageRange)
    requires
        symbols.ap_data_end.address + 0x1000 <= usize::MAX,
    ensures
        result == pages_between(symbols.ap_data_start.address, symbols.ap_data_end.address),
{
    section_pages(&symbols.ap_data_start, &symbols.ap_data_end)
}

/// The pages of the code that runs without privilege.
pub fn user_code(symbols: &KernelSymbols) -> (result: PageRange)
    requires
        symbols.user_code_end.address + 0x1000 <= usize::MAX,
    ensures
        result == pages_between(symbols.user_code_start.address, symbols.user_code_end.address),
{
    section_pages(&symbols.user_code_start, &symbols.user_code_end)
}

/// The page attributes that the firmware's flags of a region ask for.
///
/// - writable, if the region can be write-through or write-back and is not read-only;
/// - write-through, if it can be write-through, cannot be write-back, and is not read-only;
/// - not executable, if the region is protected against execution;
/// - uncached, if the region is uncacheable.
pub open spec fn region_attribute_bits(flags: MemoryAttributes) -> u64 {
    let write_through = flags.has(MEMORY_WRITE_THROUGH);
    let write_back = flags.has(MEMORY_WRITE_BACK);
    let read_only = flags.has(MEMORY_READ_ONLY);
    (if (write_through || write_back) && !read_only {
        WRITABLE
    } else {
        0
    }) | (if write_through && !write_back && !read_only {
        WRITE_THROUGH
    } else {
        0
    }) | (if flags.has(MEMORY_EXEC_PROTECT) {
        NO_EXECUTE
    } else {
        0
    }) | (if flags.has(MEMORY_UNCACHEABLE) {
        UNCACHEABLE
    } else {
        0
    })
}

/// The page attributes that the firmware's flags of a region ask for.
pub fn region_attributes(flags: MemoryAttributes) -> (result: PageAttributes)
    ensures
        result@ == region_attribute_bits(flags),
{
    let write_through: bool = flags.contains(MEMORY_WRITE_THROUGH);
    let write_back: bool = flags.contains(MEMORY_WRITE_BACK);
    let exec_protect: bool = flags.contains(MEMORY_EXEC_PROTECT);
    let uncacheable: bool = flags.contains(MEMORY_UNCACHEABLE);
    let read_only: bool = flags.contains(MEMORY_READ_ONLY);
    proof {
        lemma_flags_are_attribute_bits();
    }
    let mut page_attribs = PageAttributes::empty();
    if write_through {
        page_attribs.insert(PageAttributes::from_bits_truncate(WRITABLE));
        page_attribs.insert(PageAttributes::from_bits_truncate(WRITE_THROUGH));
    }
    let ghost a1: u64 = page_attribs@;
    if write_back {
        page_attribs.insert(PageAttributes::from_bits_truncate(WRITABLE));
        page_attribs.remove(PageAttributes::from_bits_truncate(WRITE_THROUGH));
    }
    let ghost a2: u64 = page_attribs@;
    if exec_protect {
        page_attribs.insert(PageAttributes::from_bits_truncate(NO_EXECUTE));
    }
    let ghost a3: u64 = page_attribs@;
    if uncacheable {
        page_attribs.insert(PageAttributes::from_bits_truncate(UNCACHEABLE));
    }
    let ghost a4: u64 = page_attribs@;
    if read_only {
        page_attribs.remove(PageAttributes::from_bits_truncate(WRITABLE));
        page_attribs.remove(PageAttributes::from_bits_truncate(WRITE_THROUGH));
    }
    let ghost a5: u64 = page_attribs@;
    assert(a5 == (if (write_through || write_back) && !read_only {
        0x2u64
    } else {
        0
    }) | (if write_through && !write_back && !read_only {
        0x8u64
    } else {
        0
    }) | (if exec_protect {
        0x8000_0000_0000_0000u64
    } else {
        0
    }) | (if uncacheable {
        0x10u64
    } else {
        0
    })) by (bit_vector)
        requires
            a1 == (if write_through {
                (0u64 | 0x2u64) | 0x8u64
            } else {
                0u64
            }),
            a2 == (if write_back {
                (a1 | 0x2u64) & !0x8u64
            } else {
                a1
            }),
            a3 == (if exec_protect {
                a2 | 0x8000_0000_0000_0000u64
            } else {
                a2
            }),
            a4 == (if uncacheable {
                a3 | 0x10u64
            } else {
                a3
            }),
            a5 == (if read_only {
                (a4 & !0x2u64) & !0x8u64
            } else {
                a4
            }),
    ;
    page_attribs
}

/// Whether regions of this type are mapped at boot: all but reserved,
/// unusable and unaccepted memory, and the kernel image, whose sections are
/// mapped one by one.
pub open spec fn mappable(ty: MemoryType) -> bool {
    !(ty == MemoryType::Reserved || ty == MemoryType::Unusable || ty == MemoryType::Unaccepted
        || ty == MemoryType::Kernel)
}

/// Whether regions of this type are mapped at boot.
pub fn is_mappable(ty: MemoryType) -> (result: bool)
    ensures
        result == mappable(ty),
{
    !(ty == MemoryType::Reserved || ty == MemoryType::Unusable || ty == MemoryType::Unaccepted
        || ty == MemoryType::Kernel)
}

/// An outcome that changes nothing and succeeds.
pub open spec fn unchanged(frames: Seq<FrameType>, mem: MemoryView) -> MapOutcome {
    MapOutcome { frames, mem, result: Ok(()) }
}

/// What mapping one page onto the frame at its own address does.
pub open spec fn identity_map_outcome(
    frames: Seq<FrameType>,
    mem: MemoryView,
    root: u64,
    index: int,
    attributes: u64,
) -> MapOutcome {
    let address = (index * PAGE_SIZE) as u64;
    map_outcome(frames, mem, root, address, DEPTH_MIN, address, false, attributes)
}

/// What mapping the pages `first..end` onto themselves does, in rising
/// order. The first failure ends the run, and what was done before stays.
pub open spec fn map_range_outcome(
    frames: Seq<FrameType>,
    mem: MemoryView,
    root: u64,
    first: int,
    end: int,
    attributes: u64,
) -> MapOutcome
    decreases end - first,
{
    if first >= end {
        unchanged(frames, mem)
    } else {
        let one = identity_map_outcome(frames, mem, root, first, attributes);
        if one.result.is_err() {
            one
        } else {
            map_range_outcome(one.frames, one.mem, root, first + 1, end, attributes)
        }
    }
}

/// Number of pages of `first..end` that a run tries to map: all of them, or
/// those up to the first failure.
pub open spec fn map_range_attempts(
    frames: Seq<FrameType>,
    mem: MemoryView,
    root: u64,
    first: int,
    end: int,
    attributes: u64,
) -> int
    decreases end - first,
{
    if first >= end {
        0
    } else {
        let one = identity_map_outcome(frames, mem, root, first, attributes);
        if one.result.is_err() {
            1
        } else {
            1 + map_range_attempts(one.frames, one.mem, root, first + 1, end, attributes)
        }
    }
}

/// The attribute bits with which a region of the memory map is mapped.
pub open spec fn region_mapping_bits(region: MemoryDescriptor) -> u64 {
    PRESENT | GLOBAL | region_attribute_bits(region.att)
}

/// What mapping the regions of the memory map from number `from` on does,
/// in order. Regions that are not mappable are passed over. The first
/// failure ends the run.
pub open spec fn map_regions_outcome(
    frames: Seq<FrameType>,
    mem: MemoryView,
    root: u64,
    map: Seq<MemoryDescriptor>,
    from: int,
) -> MapOutcome
    decreases map.len() - from,
{
    if from < 0 || from >= map.len() {
        unchanged(frames, mem)
    } else {
        let region = map[from];
        let one = if mappable(region.ty) {
            map_range_outcome(
                frames,
                mem,
                root,
                region.first_frame(),
                region.end_frame(),
                region_mapping_bits(region),
            )
        } else {
            unchanged(frames, mem)
        };
        if one.result.is_err() {
            one
        } else {
            map_regions_outcome(one.frames, one.mem, root, map, from + 1)
        }
    }
}

/// What mapping the frames that back the frame table does: every frame from
/// index `from` up to `total` that is in state `FrameMap` is mapped onto
/// itself, in rising order. The first failure ends the run.
pub open spec fn map_frame_map_outcome(
    frames: Seq<FrameType>,
    mem: MemoryView,
    root: u64,
    from: int,
    total: int,
    attributes: u64,
) -> MapOutcome
    decreases total - from,
{
    if from >= total {
        unchanged(frames, mem)
    } else if 0 <= from < frames.len() && frames[from] == FrameType::FrameMap {
        let one = identity_map_outcome(frames, mem, root, from, attributes);
        if one.result.is_err() {
            one
        } else {
            map_frame_map_outcome(one.frames, one.mem, root, from + 1, total, attributes)
        }
    } else {
        map_frame_map_outcome(frames, mem, root, from + 1, total, attributes)
    }
}

/// The next stage of a sequence of stages: nothing if an earlier stage
/// failed, and the mapping of a range otherwise.
pub open spec fn then_range(
    before: MapOutcome,
    root: u64,
    range: PageRange,
    attributes: u64,
) -> MapOutcome {
    if before.result.is_err() {
        before
    } else {
        map_range_outcome(
            before.frames,
            before.mem,
            root,
            range.start as int,
            range.end as int,
            attributes,
        )
    }
}

/// The attribute bits of the kernel's code: present in every address space.
pub open spec fn text_bits() -> u64 {
    PRESENT | GLOBAL
}

/// The attribute bits of the kernel's constants: code bits, and no execution.
pub open spec fn rodata_bits() -> u64 {
    PRESENT | GLOBAL | NO_EXECUTE
}

/// The attribute bits of the kernel's data: writable, and no execution.
pub open spec fn data_bits() -> u64 {
    PRESENT | GLOBAL | NO_EXECUTE | WRITABLE
}

/// The attribute bits of the code that runs without privilege.
pub open spec fn user_bits() -> u64 {
    PRESENT | USERSPACE
}

/// What the kernel's memory initialisation does, stage by stage: the
/// regions of the memory map; the kernel's code and the start-up code of the
/// other processors; the constants; data, zeroed data and start-up data; the
/// frames that back the frame table; the unprivileged code. A stage starts
/// only if no earlier one failed.
pub open spec fn init_outcome(
    frames: Seq<FrameType>,
    mem: MemoryView,
    root: u64,
    map: Seq<MemoryDescriptor>,
    sections: KernelSections,
) -> MapOutcome {
    let regions = map_regions_outcome(frames, mem, root, map, 0);
    let text = then_range(regions, root, sections.text, text_bits());
    let ap_text = then_range(text, root, sections.ap_text, text_bits());
    let rodata = then_range(ap_text, root, sections.rodata, rodata_bits());
    let data = then_range(rodata, root, sections.data, data_bits());
    let bss = then_range(data, root, sections.bss, data_bits());
    let ap_data = then_range(bss, root, sections.ap_data, data_bits());
    let frame_map = if ap_data.result.is_err() {
        ap_data
    } else {
        map_frame_map_outcome(
            ap_data.frames,
            ap_data.mem,
            root,
            0,
            ap_data.frames.len() as int,
            data_bits(),
        )
    };
    then_range(frame_map, root, sections.user_code, user_bits())
}

/// Whether the list of pending invalidations grew from `before` to `after`
/// by pages at exactly the addresses `tried`, in that order.
pub open spec fn grew_by(before: Seq<Page>, after: Seq<Page>, tried: Seq<u64>) -> bool {
    &&& after.len() == before.len() + tried.len()
    &&& before.is_prefix_of(after)
    &&& forall|k: int| 0 <= k < tried.len() ==> (#[trigger] after[before.len() + k])@ == tried[k]
}

/// A list that grew twice grew by both parts, one after the other.
pub proof fn lemma_grew_by_chain(
    before: Seq<Page>,
    between: Seq<Page>,
    after: Seq<Page>,
    first: Seq<u64>,
    second: Seq<u64>,
)
    requires
        grew_by(before, between, first),
        grew_by(between, after, second),
    ensures
        grew_by(before, after, first + second),
{
    assert forall|k: int| 0 <= k < (first + second).len() implies (#[trigger] after[before.len()
        + k])@ == (first + second)[k] by {
        if k < first.len() {
            assert(after[before.len() + k] == between[before.len() + k]);
        } else {
            assert(after[between.len() + (k - first.len())]@ == second[k - first.len()]);
        }
    }
}

/// The addresses of the pages that a run over `first..end` tries to map.
pub open spec fn range_tried(
    frames: Seq<FrameType>,
    mem: MemoryView,
    root: u64,
    first: int,
    end: int,
    attributes: u64,
) -> Seq<u64> {
    Seq::new(
        map_range_attempts(frames, mem, root, first, end, attributes) as nat,
        |k: int| ((first + k) * PAGE_SIZE) as u64,
    )
}

/// The addresses of the pages that a run over the regions of the memory
/// map tries to map, from region number `from` on.
pub open spec fn regions_tried(
    frames: Seq<FrameType>,
    mem: MemoryView,
    root: u64,
    map: Seq<MemoryDescriptor>,
    from: int,
) -> Seq<u64>
    decreases map.len() - from,
{
    if from < 0 || from >= map.len() {
        Seq::empty()
    } else if !mappable(map[from].ty) {
        regions_tried(frames, mem, root, map, from + 1)
    } else {
        let region = map[from];
        let one = map_range_outcome(
            frames,
            mem,
            root,
            region.first_frame(),
            region.end_frame(),
            region_mapping_bits(region),
        );
        let tried = range_tried(
            frames,
            mem,
            root,
            region.first_frame(),
            region.end_frame(),
            region_mapping_bits(region),
        );
        if one.result.is_err() {
            tried
        } else {
            tried + regions_tried(one.frames, one.mem, root, map, from + 1)
        }
    }
}

/// The addresses of the pages that a run over the frames of the frame
/// table tries to map.
pub open spec fn frame_map_tried(
    frames: Seq<FrameType>,
    mem: MemoryView,
    root: u64,
    from: int,
    total: int,
    attributes: u64,
) -> Seq<u64>
    decreases total - from,
{
    if from >= total {
        Seq::empty()
    } else if 0 <= from < frames.len() && frames[from] == FrameType::FrameMap {
        let one = identity_map_outcome(frames, mem, root, from, attributes);
        if one.result.is_err() {
            seq![(from * PAGE_SIZE) as u64]
        } else {
            seq![(from * PAGE_SIZE) as u64] + frame_map_tried(
                one.frames,
                one.mem,
                root,
                from + 1,
                total,
                attributes,
            )
        }
    } else {
        frame_map_tried(frames, mem, root, from + 1, total, attributes)
    }
}

/// The pages tried up to and with the next stage: those tried before, and
/// those of the range if no earlier stage failed.
pub open spec fn then_tried(
    before: MapOutcome,
    tried: Seq<u64>,
    root: u64,
    range: PageRange,
    attributes: u64,
) -> Seq<u64> {
    if before.result.is_err() {
        tried
    } else {
        tried + range_tried(
            before.frames,
            before.mem,
            root,
            range.start as int,
            range.end as int,
            attributes,
        )
    }
}

/// The addresses of the pages that the kernel's memory initialisation
/// tries to map, in order.
pub open spec fn init_tried(
    frames: Seq<FrameType>,
    mem: MemoryView,
    root: u64,
    map: Seq<MemoryDescriptor>,
    sections: KernelSections,
) -> Seq<u64> {
    let regions = map_regions_outcome(frames, mem, root, map, 0);
    let t0 = regions_tried(frames, mem, root, map, 0);
    let text = then_range(regions, root, sections.text, text_bits());
    let t1 = then_tried(regions, t0, root, sections.text, text_bits());
    let ap_text = then_range(text, root, sections.ap_text, text_bits());
    let t2 = then_tried(text, t1, root, sections.ap_text, text_bits());
    let rodata = then_range(ap_text, root, sections.rodata, rodata_bits());
    let t3 = then_tried(ap_text, t2, root, sections.rodata, rodata_bits());
    let data = then_range(rodata, root, sections.data, data_bits());
    let t4 = then_tried(rodata, t3, root, sections.data, data_bits());
    let bss = then_range(data, root, sections.bss, data_bits());
    let t5 = then_tried(data, t4, root, sections.bss, data_bits());
    let ap_data = then_range(bss, root, sections.ap_data, data_bits());
    let t6 = then_tried(bss, t5, root, sections.ap_data, data_bits());
    let frame_map = if ap_data.result.is_err() {
        ap_data
    } else {
        map_frame_map_outcome(
            ap_data.frames,
            ap_data.mem,
            root,
            0,
            ap_data.frames.len() as int,
            data_bits(),
        )
    };
    let t7 = if ap_data.result.is_err() {
        t6
    } else {
        t6 + frame_map_tried(
            ap_data.frames,
            ap_data.mem,
            root,
            0,
            ap_data.frames.len() as int,
            data_bits(),
        )
    };
    then_tried(frame_map, t7, root, sections.user_code, user_bits())
}

/// Whether every page of the range has the address of a frame.
pub open spec fn within_physical(range: PageRange) -> bool {
    range.end <= PHYSICAL_LIMIT / PAGE_SIZE
}

/// Maps `page` onto the frame at its own address, at the lowest depth and
/// without locking the frame.
pub fn identity_map(
    mapper: &mut Mapper,
    pmm: &mut FrameManager,
    mem: &mut PhysicalMemory,
    page: Page,
    attributes: PageAttributes,
) -> (result: Result<(), MapperError>)
    requires
        page@ < PHYSICAL_LIMIT,
    ensures
        ({
            let outcome = identity_map_outcome(
                old(pmm)@,
                old(mem)@,
                old(mapper).root(),
                page@ as int / PAGE_SIZE as int,
                attributes@,
            );
            &&& final(pmm)@ == outcome.frames
            &&& final(mem)@ == outcome.mem
            &&& result == outcome.result
        }),
        final(mapper).root() == old(mapper).root(),
        final(mapper).invalidations() == old(mapper).invalidations().push(page),
{
    let address: u64 = page.get();
    let frame = Frame::new(address);
    mapper.map(pmm, mem, page, PageDepth::min(), frame.unwrap(), false, attributes)
}

/// Maps the pages of `range` onto themselves, in rising order, and stops at
/// the first failure. Every page that it tried is noted for invalidation.
pub fn identity_map_range(
    mapper: &mut Mapper,
    pmm: &mut FrameManager,
    mem: &mut PhysicalMemory,
    range: PageRange,
    attributes: PageAttributes,
) -> (result: Result<(), MapperError>)
    requires
        within_physical(range),
    ensures
        ({
            let outcome = map_range_outcome(
                old(pmm)@,
                old(mem)@,
                old(mapper).root(),
                range.start as int,
                range.end as int,
                attributes@,
            );
            &&& final(pmm)@ == outcome.frames
            &&& final(mem)@ == outcome.mem
            &&& result == outcome.result
        }),
        final(mapper).root() == old(mapper).root(),
        grew_by(
            old(mapper).invalidations(),
            final(mapper).invalidations(),
            range_tried(
                old(pmm)@,
                old(mem)@,
                old(mapper).root(),
                range.start as int,
                range.end as int,
                attributes@,
            ),
        ),
{
    let ghost root = mapper.root();
    let ghost before = mapper.invalidations();
    if range.start >= range.end {
        return Ok(());
    }
    let mut index: u64 = range.start;
    while index < range.end
        invariant
            range.start <= index <= range.end,
            within_physical(range),
            mapper.root() == root,
            root == old(mapper).root(),
            before == old(mapper).invalidations(),
            map_range_outcome(pmm@, mem@, root, index as int, range.end as int, attributes@)
                == map_range_outcome(
                old(pmm)@,
                old(mem)@,
                root,
                range.start as int,
                range.end as int,
                attributes@,
            ),
            map_range_attempts(
                old(pmm)@,
                old(mem)@,
                root,
                range.start as int,
                range.end as int,
                attributes@,
            ) == index - range.start + map_range_attempts(
                pmm@,
                mem@,
                root,
                index as int,
                range.end as int,
                attributes@,
            ),
            mapper.invalidations().len() == before.len() + index - range.start,
            before.is_prefix_of(mapper.invalidations()),
            forall|k: int|
                0 <= k < index - range.start ==> (#[trigger] mapper.invalidations()[before.len()
                    + k])@ == (range.start + k) * PAGE_SIZE,
        decreases range.end - index,
    {
        let page = Page::from_index(index);
        match identity_map(mapper, pmm, mem, page.unwrap(), attributes) {
            Ok(()) => {},
            Err(error) => {
                return Err(error);
            },
        }
        index += 1;
    }
    Ok(())
}

/// Maps every mappable region of the memory map onto itself, in the order of
/// the map, with the attributes that its flags ask for. Stops at the first
/// failure.
pub fn map_regions(
    mapper: &mut Mapper,
    pmm: &mut FrameManager,
    mem: &mut PhysicalMemory,
    memory_map: &Vec<MemoryDescriptor>,
) -> (result: Result<(), MapperError>)
    requires
        consistent(memory_map@),
    ensures
        ({
            let outcome = map_regions_outcome(
                old(pmm)@,
                old(mem)@,
                old(mapper).root(),
                memory_map@,
                0,
            );
            &&& final(pmm)@ == outcome.frames
            &&& final(mem)@ == outcome.mem
            &&& result == outcome.result
        }),
        final(mapper).root() == old(mapper).root(),
        grew_by(
            old(mapper).invalidations(),
            final(mapper).invalidations(),
            regions_tried(old(pmm)@, old(mem)@, old(mapper).root(), memory_map@, 0),
        ),
{
    let ghost root = mapper.root();
    let ghost before = mapper.invalidations();
    let ghost done: Seq<u64> = Seq::empty();
    let mut number: usize = 0;
    while number < memory_map.len()
        invariant
            number <= memory_map.len(),
            consistent(memory_map@),
            mapper.root() == root,
            root == old(mapper).root(),
            before == old(mapper).invalidations(),
            grew_by(before, mapper.invalidations(), done),
            map_regions_outcome(pmm@, mem@, root, memory_map@, number as int)
                == map_regions_outcome(old(pmm)@, old(mem)@, root, memory_map@, 0),
            done + regions_tried(pmm@, mem@, root, memory_map@, number as int) == regions_tried(
                old(pmm)@,
                old(mem)@,
                root,
                memory_map@,
                0,
            ),
        decreases memory_map.len() - number,
    {
        let region = &memory_map[number];
        if is_mappable(region.ty) {
            let (first, end) = region.frame_range();
            proof {
                lemma_flags_are_attribute_bits();
            }
            let attributes = PageAttributes::from_bits_truncate(PRESENT | GLOBAL).union(
                region_attributes(region.att),
            );
            let range = PageRange { start: first, end };
            let ghost between = mapper.invalidations();
            let ghost tried = range_tried(
                pmm@,
                mem@,
                root,
                first as int,
                end as int,
                attributes@,
            );
            let ghost rest = regions_tried(pmm@, mem@, root, memory_map@, number as int);
            let outcome = identity_map_range(mapper, pmm, mem, range, attributes);
            proof {
                lemma_grew_by_chain(before, between, mapper.invalidations(), done, tried);
                if outcome.is_ok() {
                    let next = regions_tried(pmm@, mem@, root, memory_map@, number + 1);
                    assert(rest == tried + next);
                    assert(done + (tried + next) =~= (done + tried) + next);
                }
                done = done + tried;
            }
            match outcome {
                Ok(()) => {},
                Err(error) => {
                    return Err(error);
                },
            }
        }
        number += 1;
    }
    proof {
        assert(done + Seq::<u64>::empty() =~= done);
    }
    Ok(())
}

/// Maps every frame that backs the frame table onto itself, in rising
/// order, writable and not executable. Stops at the first failure.
pub fn map_frame_map(mapper: &mut Mapper, pmm: &mut FrameManager, mem: &mut PhysicalMemory) -> (result:
    Result<(), MapperError>)
    ensures
        ({
            let outcome = map_frame_map_outcome(
                old(pmm)@,
                old(mem)@,
                old(mapper).root(),
                0,
                old(pmm)@.len() as int,
                data_bits(),
            );
            &&& final(pmm)@ == outcome.frames
            &&& final(mem)@ == outcome.mem
            &&& result == outcome.result
        }),
        final(mapper).root() == old(mapper).root(),
        grew_by(
            old(mapper).invalidations(),
            final(mapper).invalidations(),
            frame_map_tried(
                old(pmm)@,
                old(mem)@,
                old(mapper).root(),
                0,
                old(pmm)@.len() as int,
                data_bits(),
            ),
        ),
{
    let ghost root = mapper.root();
    let ghost before = mapper.invalidations();
    let ghost done: Seq<u64> = Seq::empty();
    let total: usize = pmm.total_frames();
    proof {
        lemma_flags_are_attribute_bits();
    }
    let attributes = PageAttributes::from_bits_truncate(PRESENT | GLOBAL | NO_EXECUTE | WRITABLE);
    let mut index: usize = 0;
    while index < total
        invariant
            index <= total,
            total == old(pmm)@.len(),
            total <= PHYSICAL_LIMIT / PAGE_SIZE,
            attributes@ == data_bits(),
            mapper.root() == root,
            root == old(mapper).root(),
            before == old(mapper).invalidations(),
            grew_by(before, mapper.invalidations(), done),
            map_frame_map_outcome(pmm@, mem@, root, index as int, total as int, data_bits())
                == map_frame_map_outcome(
                old(pmm)@,
                old(mem)@,
                root,
                0,
                total as int,
                data_bits(),
            ),
            done + frame_map_tried(pmm@, mem@, root, index as int, total as int, data_bits())
                == frame_map_tried(old(pmm)@, old(mem)@, root, 0, total as int, data_bits()),
        decreases total - index,
    {
        let frame = Frame::from_index(index as u64);
        let state = pmm.get_frame_type(frame.unwrap());
        if state == Some(FrameType::FrameMap) {
            let page = Page::from_index(index as u64);
            let ghost between = mapper.invalidations();
            let ghost tried = seq![(index * PAGE_SIZE) as u64];
            let ghost rest = frame_map_tried(
                pmm@,
                mem@,
                root,
                index as int,
                total as int,
                data_bits(),
            );
            let outcome = identity_map(mapper, pmm, mem, page.unwrap(), attributes);
            proof {
                assert(grew_by(between, mapper.invalidations(), tried));
                lemma_grew_by_chain(before, between, mapper.invalidations(), done, tried);
                if outcome.is_ok() {
                    let next = frame_map_tried(
                        pmm@,
                        mem@,
                        root,
                        index + 1,
                        total as int,
                        data_bits(),
                    );
                    assert(rest == tried + next);
                    assert(done + (tried + next) =~= (done + tried) + next);
                }
                done = done + tried;
            }
            match outcome {
                Ok(()) => {},
                Err(error) => {
                    return Err(error);
                },
            }
        }
        index += 1;
    }
    proof {
        assert(done + Seq::<u64>::empty() =~= done);
    }
    Ok(())
}

/// Whether the sections of the kernel lie where frames can lie.
pub open spec fn sections_within_physical(sections: KernelSections) -> bool {
    &&& within_physical(sections.text)
    &&& within_physical(sections.ap_text)
    &&& within_physical(sections.rodata)
    &&& within_physical(sections.data)
    &&& within_physical(sections.bss)
    &&& within_physical(sections.ap_data)
    &&& within_physical(sections.user_code)
}

/// Builds the kernel's address space in `mapper`, stage by stage as
/// [`init_outcome`] says, and returns the value to load into the root
/// register. Over sound tables a later stage wins over an earlier one: every
/// page ends up mapped onto itself with the attributes of the last stage
/// that maps it, and a page that no stage maps is as it was.
///
/// On success the list of pending invalidations is emptied: the switch of
/// the root discards every cached translation. The first failure ends the
/// work and is returned; what was mapped before stays.
pub fn init(
    memory_map: &Vec<MemoryDescriptor>,
    sections: &KernelSections,
    mapper: &mut Mapper,
    pmm: &mut FrameManager,
    mem: &mut PhysicalMemory,
) -> (result: Result<u64, MapperError>)
    requires
        consistent(memory_map@),
        sections_within_physical(*sections),
    ensures
        ({
            let outcome = init_outcome(
                old(pmm)@,
                old(mem)@,
                old(mapper).root(),
                memory_map@,
                *sections,
            );
            &&& final(pmm)@ == outcome.frames
            &&& final(mem)@ == outcome.mem
            &&& result == match outcome.result {
                Ok(_) => Ok::<u64, MapperError>(old(mapper).root()),
                Err(error) => Err::<u64, MapperError>(error),
            }
        }),
        final(mapper).root() == old(mapper).root(),
        result.is_ok() ==> final(mapper).invalidations() == Seq::<Page>::empty(),
        result.is_err() ==> grew_by(
            old(mapper).invalidations(),
            final(mapper).invalidations(),
            init_tried(old(pmm)@, old(mem)@, old(mapper).root(), memory_map@, *sections),
        ),
        result.is_ok() && tables_sound(old(pmm)@, old(mem)@, old(mapper).root()) && old(pmm)@.len()
            <= DISTINCT_PAGES && regions_low(memory_map@) && sections_low(*sections) ==> {
            &&& tables_sound(final(pmm)@, final(mem)@, old(mapper).root())
            &&& forall|index: int|
                0 <= index < DISTINCT_PAGES ==> #[trigger] page_after_init(
                    old(mem)@,
                    final(mem)@,
                    old(mapper).root(),
                    old(pmm)@,
                    memory_map@,
                    *sections,
                    index,
                )
        },
{
    proof {
        mem.lemma_well_shaped();
        if tables_sound(pmm@, mem@, mapper.root()) && pmm@.len() <= DISTINCT_PAGES && regions_low(
            memory_map@,
        ) && sections_low(*sections) && init_outcome(
            pmm@,
            mem@,
            mapper.root(),
            memory_map@,
            *sections,
        ).result.is_ok() {
            let places = choose|places: Map<u64, Place>| sound(pmm@, mem@, mapper.root(), places);
            lemma_init_later_wins(pmm@, mem@, mapper.root(), places, memory_map@, *sections);
        }
    }
    init_stages(memory_map, sections, mapper, pmm, mem)
}

/// The stages of [`init`], one after the other.
fn init_stages(
    memory_map: &Vec<MemoryDescriptor>,
    sections: &KernelSections,
    mapper: &mut Mapper,
    pmm: &mut FrameManager,
    mem: &mut PhysicalMemory,
) -> (result: Result<u64, MapperError>)
    requires
        consistent(memory_map@),
        sections_within_physical(*sections),
    ensures
        ({
            let outcome = init_outcome(
                old(pmm)@,
                old(mem)@,
                old(mapper).root(),
                memory_map@,
                *sections,
            );
            &&& final(pmm)@ == outcome.frames
            &&& final(mem)@ == outcome.mem
            &&& result == match outcome.result {
                Ok(_) => Ok::<u64, MapperError>(old(mapper).root()),
                Err(error) => Err::<u64, MapperError>(error),
            }
        }),
        final(mapper).root() == old(mapper).root(),
        result.is_ok() ==> final(mapper).invalidations() == Seq::<Page>::empty(),
        result.is_err() ==> grew_by(
            old(mapper).invalidations(),
            final(mapper).invalidations(),
            init_tried(old(pmm)@, old(mem)@, old(mapper).root(), memory_map@, *sections),
        ),
{
    proof {
        lemma_flags_are_attribute_bits();
    }
    let ghost root = mapper.root();
    let ghost before = mapper.invalidations();
    let text = PageAttributes::from_bits_truncate(PRESENT | GLOBAL);
    let rodata = PageAttributes::from_bits_truncate(PRESENT | GLOBAL | NO_EXECUTE);
    let data = PageAttributes::from_bits_truncate(PRESENT | GLOBAL | NO_EXECUTE | WRITABLE);
    let user = PageAttributes::from_bits_truncate(PRESENT | USERSPACE);
    let ghost t0 = regions_tried(pmm@, mem@, root, memory_map@, 0);
    match map_regions(mapper, pmm, mem, memory_map) {
        Ok(()) => {},
        Err(error) => {
            return Err(error);
        },
    }
    let ghost i0 = mapper.invalidations();
    let ghost r1 = range_tried(
        pmm@,
        mem@,
        root,
        sections.text.start as int,
        sections.text.end as int,
        text_bits(),
    );
    let stage = identity_map_range(mapper, pmm, mem, sections.text, text);
    proof {
        lemma_grew_by_chain(before, i0, mapper.invalidations(), t0, r1);
    }
    match stage {
        Ok(()) => {},
        Err(error) => {
            return Err(error);
        },
    }
    let ghost t1 = t0 + r1;
    let ghost i1 = mapper.invalidations();
    let ghost r2 = range_tried(
        pmm@,
        mem@,
        root,
        sections.ap_text.start as int,
        sections.ap_text.end as int,
        text_bits(),
    );
    let stage = identity_map_range(mapper, pmm, mem, sections.ap_text, text);
    proof {
        lemma_grew_by_chain(before, i1, mapper.invalidations(), t1, r2);
    }
    match stage {
        Ok(()) => {},
        Err(error) => {
            return Err(error);
        },
    }
    let ghost t2 = t1 + r2;
    let ghost i2 = mapper.invalidations();
    let ghost r3 = range_tried(
        pmm@,
        mem@,
        root,
        sections.rodata.start as int,
        sections.rodata.end as int,
        rodata_bits(),
    );
    let stage = identity_map_range(mapper, pmm, mem, sections.rodata, rodata);
    proof {
        lemma_grew_by_chain(before, i2, mapper.invalidations(), t2, r3);
    }
    match stage {
        Ok(()) => {},
        Err(error) => {
            return Err(error);
        },
    }
    let ghost t3 = t2 + r3;
    let ghost i3 = mapper.invalidations();
    let ghost r4 = range_tried(
        pmm@,
        mem@,
        root,
        sections.data.start as int,
        sections.data.end as int,
        data_bits(),
    );
    let stage = identity_map_range(mapper, pmm, mem, sections.data, data);
    proof {
        lemma_grew_by_chain(before, i3, mapper.invalidations(), t3, r4);
    }
    match stage {
        Ok(()) => {},
        Err(error) => {
            return Err(error);
        },
    }
    let ghost t4 = t3 + r4;
    let ghost i4 = mapper.invalidations();
    let ghost r5 = range_tried(
        pmm@,
        mem@,
        root,
        sections.bss.start as int,
        sections.bss.end as int,
        data_bits(),
    );
    let stage = identity_map_range(mapper, pmm, mem, sections.bss, data);
    proof {
        lemma_grew_by_chain(before, i4, mapper.invalidations(), t4, r5);
    }
    match stage {
        Ok(()) => {},
        Err(error) => {
            return Err(error);
        },
    }
    let ghost t5 = t4 + r5;
    let ghost i5 = mapper.invalidations();
    let ghost r6 = range_tried(
        pmm@,
        mem@,
        root,
        sections.ap_data.start as int,
        sections.ap_data.end as int,
        data_bits(),
    );
    let stage = identity_map_range(mapper, pmm, mem, sections.ap_data, data);
    proof {
        lemma_grew_by_chain(before, i5, mapper.invalidations(), t5, r6);
    }
    match stage {
        Ok(()) => {},
        Err(error) => {
            return Err(error);
        },
    }
    let ghost t6 = t5 + r6;
    let ghost i6 = mapper.invalidations();
    let ghost r7 = frame_map_tried(pmm@, mem@, root, 0, pmm@.len() as int, data_bits());
    let stage = map_frame_map(mapper, pmm, mem);
    proof {
        lemma_grew_by_chain(before, i6, mapper.invalidations(), t6, r7);
    }
    match stage {
        Ok(()) => {},
        Err(error) => {
            return Err(error);
        },
    }
    let ghost t7 = t6 + r7;
    let ghost i7 = mapper.invalidations();
    let ghost r8 = range_tried(
        pmm@,
        mem@,
        root,
        sections.user_code.start as int,
        sections.user_code.end as int,
        user_bits(),
    );
    let stage = identity_map_range(mapper, pmm, mem, sections.user_code, user);
    proof {
        lemma_grew_by_chain(before, i7, mapper.invalidations(), t7, r8);
    }
    match stage {
        Ok(()) => {},
        Err(error) => {
            return Err(error);
        },
    }
    let _ = mapper.take_invalidations();
    mapper.commit_vmem_register()
}

/// Memory after the pages `first..end` lost the permission to be written,
/// in rising order, and whether every page was mapped. The first page that
/// is not mapped ends the run.
pub open spec fn protect_range_outcome(mem: MemoryView, root: u64, first: int, end: int) -> (
    MemoryView,
    Result<(), MapperError>,
)
    decreases end - first,
{
    if first >= end {
        (mem, Ok(()))
    } else {
        match walk(mem, root, DEPTH_MAX, (first * PAGE_SIZE) as u64, None) {
            Ok(_) => protect_range_outcome(
                set_attributes_outcome(
                    mem,
                    root,
                    (first * PAGE_SIZE) as u64,
                    None,
                    WRITABLE,
                    AttributeModify::Remove,
                ),
                root,
                first + 1,
                end,
            ),
            Err(error) => (mem, Err(MapperError::PagingError(error))),
        }
    }
}

/// The addresses of the pages that a run of [`protect_range`] over
/// `first..end` tries: all of them, or those up to the first that is not
/// mapped.
pub open spec fn protect_tried(mem: MemoryView, root: u64, first: int, end: int) -> Seq<u64>
    decreases end - first,
{
    if first >= end {
        Seq::empty()
    } else {
        let address = (first * PAGE_SIZE) as u64;
        match walk(mem, root, DEPTH_MAX, address, None) {
            Ok(_) => seq![address] + protect_tried(
                set_attributes_outcome(mem, root, address, None, WRITABLE, AttributeModify::Remove),
                root,
                first + 1,
                end,
            ),
            Err(_) => seq![address],
        }
    }
}

/// Takes the permission to be written from every page of `range`, in
/// rising order, as the kernel does for its code and its constants. Stops
/// with the error of the walk at the first page that is not mapped. Every
/// page that it tried is noted for invalidation.
pub fn protect_range(mapper: &mut Mapper, mem: &mut PhysicalMemory, range: PageRange) -> (result:
    Result<(), MapperError>)
    requires
        range.end <= u64::MAX / PAGE_SIZE,
    ensures
        ({
            let outcome = protect_range_outcome(
                old(mem)@,
                old(mapper).root(),
                range.start as int,
                range.end as int,
            );
            &&& final(mem)@ == outcome.0
            &&& result == outcome.1
        }),
        final(mapper).root() == old(mapper).root(),
        grew_by(
            old(mapper).invalidations(),
            final(mapper).invalidations(),
            protect_tried(old(mem)@, old(mapper).root(), range.start as int, range.end as int),
        ),
{
    if range.start >= range.end {
        return Ok(());
    }
    proof {
        lemma_flags_are_attribute_bits();
    }
    let writable = PageAttributes::from_bits_truncate(WRITABLE);
    let ghost root = mapper.root();
    let ghost before = mapper.invalidations();
    let ghost done: Seq<u64> = Seq::empty();
    let mut index: u64 = range.start;
    while index < range.end
        invariant
            range.start <= index <= range.end,
            range.end <= u64::MAX / PAGE_SIZE,
            writable@ == WRITABLE,
            mapper.root() == root,
            root == old(mapper).root(),
            before == old(mapper).invalidations(),
            grew_by(before, mapper.invalidations(), done),
            protect_range_outcome(mem@, root, index as int, range.end as int)
                == protect_range_outcome(old(mem)@, root, range.start as int, range.end as int),
            done + protect_tried(mem@, root, index as int, range.end as int) == protect_tried(
                old(mem)@,
                root,
                range.start as int,
                range.end as int,
            ),
        decreases range.end - index,
    {
        let page = Page::from_index(index);
        let ghost between = mapper.invalidations();
        let ghost tried = seq![(index * PAGE_SIZE) as u64];
        let ghost rest = protect_tried(mem@, root, index as int, range.end as int);
        let outcome = mapper.set_page_attributes(
            mem,
            page.unwrap(),
            None,
            writable,
            AttributeModify::Remove,
        );
        proof {
            assert(grew_by(between, mapper.invalidations(), tried));
            lemma_grew_by_chain(before, between, mapper.invalidations(), done, tried);
            if outcome.is_ok() {
                let next = protect_tried(mem@, root, index + 1, range.end as int);
                assert(rest == tried + next);
                assert(done + (tried + next) =~= (done + tried) + next);
            }
            done = done + tried;
        }
        match outcome {
            Ok(()) => {},
            Err(error) => {
                return Err(error);
            },
        }
        index += 1;
    }
    proof {
        assert(done + Seq::<u64>::empty() =~= done);
    }
    Ok(())
}

} // verus!
