//! What the kernel's address space looks like after it was built: which
//! attributes each page has, and that a later mapping wins over an earlier.

use crate::address::{DEPTH_MAX, PAGE_SIZE, PHYSICAL_LIMIT};
use crate::bootstrap::{
    data_bits, identity_map_outcome, init_outcome, map_frame_map_outcome, map_range_outcome,
    map_regions_outcome, mappable, region_attribute_bits, region_mapping_bits, rodata_bits,
    text_bits, then_range, user_bits, KernelSections, PageRange,
};
use crate::mapper::MapOutcome;
use crate::memory_map::{consistent, FrameType, MemoryAttributes, MemoryDescriptor};
use crate::page_table::walk;
use crate::paging::{
    is_attribute_bits, lemma_flags_are_attribute_bits, word_attributes, word_frame,
};
use crate::physical_memory::{well_shaped, MemoryView};
use crate::sound_tables::{
    lemma_map_keeps_others, places_after_map, same_slot, sound, Place,
};
use vstd::prelude::*;

verus! {

/// Number of pages that four levels of tables can tell apart.
pub const DISTINCT_PAGES: u64 = 0x10_0000_0000;

/// The address of the page with the given index.
pub open spec fn page_of(index: int) -> u64 {
    (index * PAGE_SIZE) as u64
}

/// Whether `page` is mapped to `frame` with exactly the given attributes.
pub open spec fn maps_to(mem: MemoryView, root: u64, page: u64, frame: u64, attributes: u64) -> bool {
    let found = walk(mem, root, DEPTH_MAX, page, None);
    &&& found.is_ok()
    &&& word_frame(found.unwrap().word) == frame
    &&& word_attributes(found.unwrap().word) == attributes
}

/// Whether the frame states changed in the one way that mapping changes
/// them: frames that were usable came into use for tables.
pub open spec fn took_frames(before: Seq<FrameType>, after: Seq<FrameType>) -> bool {
    &&& after.len() == before.len()
    &&& forall|i: int|
        0 <= i < before.len() ==> #[trigger] after[i] == before[i] || (before[i]
            == FrameType::Usable && after[i] == FrameType::Generic)
}

/// Two different pages among those that the tables can tell apart select
/// different slots on some level.
pub proof fn lemma_distinct_slots(first: int, second: int)
    requires
        0 <= first < DISTINCT_PAGES,
        0 <= second < DISTINCT_PAGES,
        first != second,
    ensures
        !same_slot(page_of(first), page_of(second)),
        !same_slot(page_of(second), page_of(first)),
{
    let a: u64 = page_of(first);
    let b: u64 = page_of(second);
    assert(a != b);
    assert(((a / 0x1000) % 512 == (b / 0x1000) % 512 && (a / 0x20_0000) % 512 == (b / 0x20_0000)
        % 512 && (a / 0x4000_0000) % 512 == (b / 0x4000_0000) % 512 && (a / 0x80_0000_0000) % 512
        == (b / 0x80_0000_0000) % 512) ==> a == b) by (bit_vector)
        requires
            a % 0x1000 == 0,
            b % 0x1000 == 0,
            a < 0x1_0000_0000_0000u64,
            b < 0x1_0000_0000_0000u64,
    ;
}

/// The places of the tables after the pages `first..end` were mapped.
pub open spec fn places_after_range(
    frames: Seq<FrameType>,
    mem: MemoryView,
    root: u64,
    first: int,
    end: int,
    attributes: u64,
    places: Map<u64, Place>,
) -> Map<u64, Place>
    decreases end - first,
{
    if first >= end {
        places
    } else {
        let one = identity_map_outcome(frames, mem, root, first, attributes);
        if one.result.is_err() {
            places
        } else {
            places_after_range(
                one.frames,
                one.mem,
                root,
                first + 1,
                end,
                attributes,
                places_after_map(frames, mem, root, page_of(first), page_of(first), false, places),
            )
        }
    }
}

/// A run over a range of pages. Over sound tables, when the pages
/// `first..end` were mapped onto themselves, each of them is mapped to the
/// frame at its own address with exactly the attributes given, every other
/// page is as it was, and the tables are sound.
pub proof fn lemma_range_maps(
    frames: Seq<FrameType>,
    mem: MemoryView,
    root: u64,
    places: Map<u64, Place>,
    first: int,
    end: int,
    attributes: u64,
)
    requires
        well_shaped(mem),
        frames.len() <= PHYSICAL_LIMIT / PAGE_SIZE,
        sound(frames, mem, root, places),
        is_attribute_bits(attributes),
        0 <= first,
        end <= DISTINCT_PAGES,
        map_range_outcome(frames, mem, root, first, end, attributes).result.is_ok(),
    ensures
        ({
            let out = map_range_outcome(frames, mem, root, first, end, attributes);
            let after = places_after_range(frames, mem, root, first, end, attributes, places);
            &&& well_shaped(out.mem)
            &&& took_frames(frames, out.frames)
            &&& sound(out.frames, out.mem, root, after)
            &&& forall|q: int|
                first <= q < end ==> #[trigger] maps_to(
                    out.mem,
                    root,
                    page_of(q),
                    page_of(q),
                    attributes,
                )
            &&& forall|j: int|
                0 <= j < DISTINCT_PAGES && !(first <= j < end) ==> #[trigger] walk(
                    out.mem,
                    root,
                    DEPTH_MAX,
                    page_of(j),
                    None,
                ) == walk(mem, root, DEPTH_MAX, page_of(j), None)
        }),
    decreases end - first,
{
    if first < end {
        let page = page_of(first);
        let one = identity_map_outcome(frames, mem, root, first, attributes);
        let places1 = places_after_map(frames, mem, root, page, page, false, places);
        lemma_map_keeps_others(frames, mem, root, places, page, page, false, attributes);
        lemma_range_maps(one.frames, one.mem, root, places1, first + 1, end, attributes);
        let out = map_range_outcome(frames, mem, root, first, end, attributes);
        assert forall|q: int| first <= q < end implies #[trigger] maps_to(
            out.mem,
            root,
            page_of(q),
            page_of(q),
            attributes,
        ) by {
            if q == first {
                assert(walk(out.mem, root, DEPTH_MAX, page_of(first), None) == walk(
                    one.mem,
                    root,
                    DEPTH_MAX,
                    page_of(first),
                    None,
                ));
            }
        }
        assert forall|j: int| 0 <= j < DISTINCT_PAGES && !(first <= j < end) implies #[trigger] walk(
            out.mem,
            root,
            DEPTH_MAX,
            page_of(j),
            None,
        ) == walk(mem, root, DEPTH_MAX, page_of(j), None) by {
            lemma_distinct_slots(j, first);
            assert(walk(out.mem, root, DEPTH_MAX, page_of(j), None) == walk(
                one.mem,
                root,
                DEPTH_MAX,
                page_of(j),
                None,
            ));
        }
    }
}

/// The attributes with which regions and sections are mapped are attribute bits.
pub proof fn lemma_stage_bits(flags: MemoryAttributes)
    ensures
        is_attribute_bits(region_attribute_bits(flags)),
        is_attribute_bits(text_bits()),
        is_attribute_bits(rodata_bits()),
        is_attribute_bits(data_bits()),
        is_attribute_bits(user_bits()),
{
    lemma_flags_are_attribute_bits();
}

/// Whether every region of the map lies among the pages that the tables
/// can tell apart.
pub open spec fn regions_low(map: Seq<MemoryDescriptor>) -> bool {
    forall|i: int| 0 <= i < map.len() ==> (#[trigger] map[i]).end_frame() <= DISTINCT_PAGES
}

/// Number of the mappable region, from region `from` on, that covers page
/// `index`; -1 if there is none.
pub open spec fn covering_region(map: Seq<MemoryDescriptor>, from: int, index: int) -> int
    decreases map.len() - from,
{
    if from < 0 || from >= map.len() {
        -1
    } else if mappable(map[from].ty) && map[from].covers(index) {
        from
    } else {
        covering_region(map, from + 1, index)
    }
}

/// In a consistent map no region behind a region covers a page of it.
pub proof fn lemma_covered_once(map: Seq<MemoryDescriptor>, region: int, from: int, index: int)
    requires
        consistent(map),
        0 <= region < from,
        region < map.len(),
        map[region].covers(index),
    ensures
        covering_region(map, from, index) == -1,
    decreases map.len() - from,
{
    if from < map.len() {
        assert(map[region].end_frame() <= map[from].first_frame());
        lemma_covered_once(map, region, from + 1, index);
    }
}

/// The region that covers a page is a mappable region of the map.
pub proof fn lemma_covering_region(map: Seq<MemoryDescriptor>, from: int, index: int)
    requires
        0 <= from,
    ensures
        covering_region(map, from, index) >= 0 ==> from <= covering_region(map, from, index)
            < map.len() && mappable(map[covering_region(map, from, index)].ty)
            && map[covering_region(map, from, index)].covers(index),
        covering_region(map, from, index) >= -1,
    decreases map.len() - from,
{
    if from < map.len() && !(mappable(map[from].ty) && map[from].covers(index)) {
        lemma_covering_region(map, from + 1, index);
    }
}

/// The places of the tables after the regions from number `from` on were mapped.
pub open spec fn places_after_regions(
    frames: Seq<FrameType>,
    mem: MemoryView,
    root: u64,
    map: Seq<MemoryDescriptor>,
    from: int,
    places: Map<u64, Place>,
) -> Map<u64, Place>
    decreases map.len() - from,
{
    if from < 0 || from >= map.len() {
        places
    } else if !mappable(map[from].ty) {
        places_after_regions(frames, mem, root, map, from + 1, places)
    } else {
        let region = map[from];
        let one = map_range_outcome(
            frames,
            mem,
            root,
            region.first_frame(),
            region.end_frame(),
            region_mapping_bits(region),
        );
        if one.result.is_err() {
            places
        } else {
            places_after_regions(
                one.frames,
                one.mem,
                root,
                map,
                from + 1,
                places_after_range(
                    frames,
                    mem,
                    root,
                    region.first_frame(),
                    region.end_frame(),
                    region_mapping_bits(region),
                    places,
                ),
            )
        }
    }
}

/// What holds of page `index` after the regions from number `from` on were
/// mapped: a page of a mappable region is mapped onto itself with the
/// attributes of its region, and any other page is as it was.
pub open spec fn page_after_regions(
    before: MemoryView,
    after: MemoryView,
    root: u64,
    map: Seq<MemoryDescriptor>,
    from: int,
    index: int,
) -> bool {
    let region = covering_region(map, from, index);
    if region >= 0 {
        maps_to(after, root, page_of(index), page_of(index), region_mapping_bits(map[region]))
    } else {
        walk(after, root, DEPTH_MAX, page_of(index), None) == walk(
            before,
            root,
            DEPTH_MAX,
            page_of(index),
            None,
        )
    }
}

/// A run over the regions of the memory map. Over sound tables, when the
/// regions were mapped, every page of a mappable region is mapped onto
/// itself with the attributes of its region, every other page is as it
/// was, and the tables are sound.
pub proof fn lemma_regions_map(
    frames: Seq<FrameType>,
    mem: MemoryView,
    root: u64,
    places: Map<u64, Place>,
    map: Seq<MemoryDescriptor>,
    from: int,
)
    requires
        well_shaped(mem),
        frames.len() <= PHYSICAL_LIMIT / PAGE_SIZE,
        sound(frames, mem, root, places),
        consistent(map),
        regions_low(map),
        0 <= from,
        map_regions_outcome(frames, mem, root, map, from).result.is_ok(),
    ensures
        ({
            let out = map_regions_outcome(frames, mem, root, map, from);
            let after = places_after_regions(frames, mem, root, map, from, places);
            &&& well_shaped(out.mem)
            &&& took_frames(frames, out.frames)
            &&& sound(out.frames, out.mem, root, after)
            &&& forall|j: int|
                0 <= j < DISTINCT_PAGES ==> #[trigger] page_after_regions(
                    mem,
                    out.mem,
                    root,
                    map,
                    from,
                    j,
                )
        }),
    decreases map.len() - from,
{
    if from < map.len() {
        let region = map[from];
        let out = map_regions_outcome(frames, mem, root, map, from);
        if mappable(region.ty) {
            let bits = region_mapping_bits(region);
            lemma_stage_bits(region.att);
            lemma_flags_are_attribute_bits();
            assert(region.valid());
            let one = map_range_outcome(
                frames,
                mem,
                root,
                region.first_frame(),
                region.end_frame(),
                bits,
            );
            let places1 = places_after_range(
                frames,
                mem,
                root,
                region.first_frame(),
                region.end_frame(),
                bits,
                places,
            );
            lemma_range_maps(frames, mem, root, places, region.first_frame(), region.end_frame(), bits);
            lemma_regions_map(one.frames, one.mem, root, places1, map, from + 1);
            assert forall|j: int| 0 <= j < DISTINCT_PAGES implies #[trigger] page_after_regions(
                mem,
                out.mem,
                root,
                map,
                from,
                j,
            ) by {
                assert(page_after_regions(one.mem, out.mem, root, map, from + 1, j));
                if region.covers(j) {
                    lemma_covered_once(map, from, from + 1, j);
                    assert(maps_to(one.mem, root, page_of(j), page_of(j), bits));
                } else {
                    assert(walk(one.mem, root, DEPTH_MAX, page_of(j), None) == walk(
                        mem,
                        root,
                        DEPTH_MAX,
                        page_of(j),
                        None,
                    ));
                }
            }
        } else {
            lemma_regions_map(frames, mem, root, places, map, from + 1);
            assert forall|j: int| 0 <= j < DISTINCT_PAGES implies #[trigger] page_after_regions(
                mem,
                out.mem,
                root,
                map,
                from,
                j,
            ) by {
                assert(page_after_regions(mem, out.mem, root, map, from + 1, j));
            }
        }
    } else {
        assert forall|j: int| 0 <= j < DISTINCT_PAGES implies #[trigger] page_after_regions(
            mem,
            mem,
            root,
            map,
            from,
            j,
        ) by {}
    }
}

/// The places of the tables after the frames of the frame table from index
/// `from` on were mapped.
pub open spec fn places_after_frame_map(
    frames: Seq<FrameType>,
    mem: MemoryView,
    root: u64,
    from: int,
    total: int,
    attributes: u64,
    places: Map<u64, Place>,
) -> Map<u64, Place>
    decreases total - from,
{
    if from >= total {
        places
    } else if 0 <= from < frames.len() && frames[from] == FrameType::FrameMap {
        let one = identity_map_outcome(frames, mem, root, from, attributes);
        if one.result.is_err() {
            places
        } else {
            places_after_frame_map(
                one.frames,
                one.mem,
                root,
                from + 1,
                total,
                attributes,
                places_after_map(frames, mem, root, page_of(from), page_of(from), false, places),
            )
        }
    } else {
        places_after_frame_map(frames, mem, root, from + 1, total, attributes, places)
    }
}

/// Whether page `index` backs the frame table.
pub open spec fn backs_frame_table(frames: Seq<FrameType>, index: int) -> bool {
    0 <= index < frames.len() && frames[index] == FrameType::FrameMap
}

/// A run over the frames of the frame table. Over sound tables, when the
/// frames that back the frame table were mapped, each of them from index
/// `from` on is mapped onto itself with the attributes given, every other
/// page is as it was, and the tables are sound.
pub proof fn lemma_frame_map_maps(
    frames: Seq<FrameType>,
    mem: MemoryView,
    root: u64,
    places: Map<u64, Place>,
    from: int,
    attributes: u64,
)
    requires
        well_shaped(mem),
        frames.len() <= DISTINCT_PAGES,
        sound(frames, mem, root, places),
        is_attribute_bits(attributes),
        0 <= from,
        map_frame_map_outcome(
            frames,
            mem,
            root,
            from,
            frames.len() as int,
            attributes,
        ).result.is_ok(),
    ensures
        ({
            let total = frames.len() as int;
            let out = map_frame_map_outcome(frames, mem, root, from, total, attributes);
            let after = places_after_frame_map(frames, mem, root, from, total, attributes, places);
            &&& well_shaped(out.mem)
            &&& took_frames(frames, out.frames)
            &&& sound(out.frames, out.mem, root, after)
            &&& forall|j: int|
                from <= j && backs_frame_table(frames, j) ==> #[trigger] maps_to(
                    out.mem,
                    root,
                    page_of(j),
                    page_of(j),
                    attributes,
                )
            &&& forall|j: int|
                0 <= j < DISTINCT_PAGES && !(from <= j && backs_frame_table(frames, j))
                    ==> #[trigger] walk(out.mem, root, DEPTH_MAX, page_of(j), None) == walk(
                    mem,
                    root,
                    DEPTH_MAX,
                    page_of(j),
                    None,
                )
        }),
    decreases frames.len() - from,
{
    let total = frames.len() as int;
    if from < total {
        let out = map_frame_map_outcome(frames, mem, root, from, total, attributes);
        if frames[from] == FrameType::FrameMap {
            let page = page_of(from);
            let one = identity_map_outcome(frames, mem, root, from, attributes);
            let places1 = places_after_map(frames, mem, root, page, page, false, places);
            lemma_map_keeps_others(frames, mem, root, places, page, page, false, attributes);
            lemma_frame_map_maps(one.frames, one.mem, root, places1, from + 1, attributes);
            assert forall|j: int| from <= j && backs_frame_table(frames, j) implies #[trigger] maps_to(
                out.mem,
                root,
                page_of(j),
                page_of(j),
                attributes,
            ) by {
                assert(one.frames[j] == frames[j]);
                if j == from {
                    assert(walk(out.mem, root, DEPTH_MAX, page_of(from), None) == walk(
                        one.mem,
                        root,
                        DEPTH_MAX,
                        page_of(from),
                        None,
                    ));
                }
            }
            assert forall|j: int|
                0 <= j < DISTINCT_PAGES && !(from <= j && backs_frame_table(
                    frames,
                    j,
                )) implies #[trigger] walk(out.mem, root, DEPTH_MAX, page_of(j), None) == walk(
                mem,
                root,
                DEPTH_MAX,
                page_of(j),
                None,
            ) by {
                lemma_distinct_slots(j, from);
                if 0 <= j < frames.len() {
                    assert(one.frames[j] == frames[j] || frames[j] == FrameType::Usable);
                }
                assert(walk(out.mem, root, DEPTH_MAX, page_of(j), None) == walk(
                    one.mem,
                    root,
                    DEPTH_MAX,
                    page_of(j),
                    None,
                ));
            }
        } else {
            lemma_frame_map_maps(frames, mem, root, places, from + 1, attributes);
        }
    }
}

/// Whether page `index` lies in the range.
pub open spec fn in_range(range: PageRange, index: int) -> bool {
    range.start <= index < range.end
}

/// Whether every section lies among the pages that the tables can tell apart.
pub open spec fn sections_low(sections: KernelSections) -> bool {
    &&& sections.text.end <= DISTINCT_PAGES
    &&& sections.ap_text.end <= DISTINCT_PAGES
    &&& sections.rodata.end <= DISTINCT_PAGES
    &&& sections.data.end <= DISTINCT_PAGES
    &&& sections.bss.end <= DISTINCT_PAGES
    &&& sections.ap_data.end <= DISTINCT_PAGES
    &&& sections.user_code.end <= DISTINCT_PAGES
}

/// The attributes that the kernel's memory initialisation leaves on page
/// `index`: those of the last stage that maps the page. The stages are, from
/// last to first: the unprivileged code, the frames that back the frame
/// table, the start-up data, the zeroed data, the data, the constants, the
/// start-up code, the code, and the regions of the memory map. A page that
/// no stage maps has none.
pub open spec fn init_bits(
    frames: Seq<FrameType>,
    map: Seq<MemoryDescriptor>,
    sections: KernelSections,
    index: int,
) -> Option<u64> {
    if in_range(sections.user_code, index) {
        Some(user_bits())
    } else if backs_frame_table(frames, index) {
        Some(data_bits())
    } else if in_range(sections.ap_data, index) || in_range(sections.bss, index) || in_range(
        sections.data,
        index,
    ) {
        Some(data_bits())
    } else if in_range(sections.rodata, index) {
        Some(rodata_bits())
    } else if in_range(sections.ap_text, index) || in_range(sections.text, index) {
        Some(text_bits())
    } else if covering_region(map, 0, index) >= 0 {
        Some(region_mapping_bits(map[covering_region(map, 0, index)]))
    } else {
        None
    }
}

/// What holds of page `index` after the kernel's memory initialisation: it
/// is mapped onto itself with the attributes of the last stage that maps
/// it, or, if no stage maps it, it is as it was.
pub open spec fn page_after_init(
    before: MemoryView,
    after: MemoryView,
    root: u64,
    frames: Seq<FrameType>,
    map: Seq<MemoryDescriptor>,
    sections: KernelSections,
    index: int,
) -> bool {
    match init_bits(frames, map, sections, index) {
        Some(bits) => maps_to(after, root, page_of(index), page_of(index), bits),
        None => walk(after, root, DEPTH_MAX, page_of(index), None) == walk(
            before,
            root,
            DEPTH_MAX,
            page_of(index),
            None,
        ),
    }
}

/// Frames that were taken twice in a row were taken.
pub proof fn lemma_took_frames_chain(a: Seq<FrameType>, b: Seq<FrameType>, c: Seq<FrameType>)
    requires
        took_frames(a, b),
        took_frames(b, c),
    ensures
        took_frames(a, c),
{
    assert forall|i: int| 0 <= i < a.len() implies #[trigger] c[i] == a[i] || (a[i]
        == FrameType::Usable && c[i] == FrameType::Generic) by {
        assert(b[i] == a[i] || (a[i] == FrameType::Usable && b[i] == FrameType::Generic));
        assert(c[i] == b[i] || (b[i] == FrameType::Usable && c[i] == FrameType::Generic));
    }
}

/// What one stage over a range leaves: sound tables, and for every page
/// either the mapping of the stage or what was there before.
pub open spec fn stage_done(
    before: MapOutcome,
    after: MapOutcome,
    root: u64,
    range: PageRange,
    attributes: u64,
    places: Map<u64, Place>,
) -> bool {
    &&& well_shaped(after.mem)
    &&& took_frames(before.frames, after.frames)
    &&& sound(after.frames, after.mem, root, places)
    &&& forall|j: int|
        0 <= j < DISTINCT_PAGES ==> #[trigger] page_after_stage(
            before.mem,
            after.mem,
            root,
            range,
            attributes,
            j,
        )
}

/// What holds of a page after one stage over a range.
pub open spec fn page_after_stage(
    before: MemoryView,
    after: MemoryView,
    root: u64,
    range: PageRange,
    attributes: u64,
    index: int,
) -> bool {
    if in_range(range, index) {
        maps_to(after, root, page_of(index), page_of(index), attributes)
    } else {
        walk(after, root, DEPTH_MAX, page_of(index), None) == walk(
            before,
            root,
            DEPTH_MAX,
            page_of(index),
            None,
        )
    }
}

/// One stage over a range, on top of the stages before it.
pub proof fn lemma_stage(
    before: MapOutcome,
    root: u64,
    places: Map<u64, Place>,
    range: PageRange,
    attributes: u64,
)
    requires
        well_shaped(before.mem),
        before.frames.len() <= PHYSICAL_LIMIT / PAGE_SIZE,
        sound(before.frames, before.mem, root, places),
        is_attribute_bits(attributes),
        range.end <= DISTINCT_PAGES,
        before.result.is_ok(),
        then_range(before, root, range, attributes).result.is_ok(),
    ensures
        stage_done(
            before,
            then_range(before, root, range, attributes),
            root,
            range,
            attributes,
            places_after_range(
                before.frames,
                before.mem,
                root,
                range.start as int,
                range.end as int,
                attributes,
                places,
            ),
        ),
{
    lemma_range_maps(
        before.frames,
        before.mem,
        root,
        places,
        range.start as int,
        range.end as int,
        attributes,
    );
    let after = then_range(before, root, range, attributes);
    assert forall|j: int| 0 <= j < DISTINCT_PAGES implies #[trigger] page_after_stage(
        before.mem,
        after.mem,
        root,
        range,
        attributes,
        j,
    ) by {
        if in_range(range, j) {
            assert(maps_to(after.mem, root, page_of(j), page_of(j), attributes));
        } else {
            assert(walk(after.mem, root, DEPTH_MAX, page_of(j), None) == walk(
                before.mem,
                root,
                DEPTH_MAX,
                page_of(j),
                None,
            ));
        }
    }
}

/// Later mappings win. Over sound tables, when the kernel's memory
/// initialisation succeeded, every page is mapped onto itself with the
/// attributes of the last stage that maps it: a page of a section has the
/// attributes of the section unless a later stage holds it too, a page of
/// a region of the memory map has the attributes of its region unless a
/// section or the frame table holds it, and a page that no stage maps is as
/// it was. The tables are sound afterwards.
pub proof fn lemma_init_later_wins(
    frames: Seq<FrameType>,
    mem: MemoryView,
    root: u64,
    places: Map<u64, Place>,
    map: Seq<MemoryDescriptor>,
    sections: KernelSections,
)
    requires
        well_shaped(mem),
        frames.len() <= DISTINCT_PAGES,
        sound(frames, mem, root, places),
        consistent(map),
        regions_low(map),
        sections_low(sections),
        init_outcome(frames, mem, root, map, sections).result.is_ok(),
    ensures
        forall|j: int|
            0 <= j < DISTINCT_PAGES ==> #[trigger] page_after_init(
                mem,
                init_outcome(frames, mem, root, map, sections).mem,
                root,
                frames,
                map,
                sections,
                j,
            ),
        took_frames(frames, init_outcome(frames, mem, root, map, sections).frames),
        exists|after: Map<u64, Place>|
            sound(
                init_outcome(frames, mem, root, map, sections).frames,
                init_outcome(frames, mem, root, map, sections).mem,
                root,
                after,
            ),
{
    lemma_stage_bits(MemoryAttributes { bits: 0 });
    let stage0 = map_regions_outcome(frames, mem, root, map, 0);
    let places0 = places_after_regions(frames, mem, root, map, 0, places);
    lemma_regions_map(frames, mem, root, places, map, 0);
    let stage1 = then_range(stage0, root, sections.text, text_bits());
    let places1 = places_after_range(
        stage0.frames,
        stage0.mem,
        root,
        sections.text.start as int,
        sections.text.end as int,
        text_bits(),
        places0,
    );
    lemma_stage(stage0, root, places0, sections.text, text_bits());
    let stage2 = then_range(stage1, root, sections.ap_text, text_bits());
    let places2 = places_after_range(
        stage1.frames,
        stage1.mem,
        root,
        sections.ap_text.start as int,
        sections.ap_text.end as int,
        text_bits(),
        places1,
    );
    lemma_stage(stage1, root, places1, sections.ap_text, text_bits());
    lemma_took_frames_chain(frames, stage0.frames, stage1.frames);
    lemma_took_frames_chain(frames, stage1.frames, stage2.frames);
    let stage3 = then_range(stage2, root, sections.rodata, rodata_bits());
    let places3 = places_after_range(
        stage2.frames,
        stage2.mem,
        root,
        sections.rodata.start as int,
        sections.rodata.end as int,
        rodata_bits(),
        places2,
    );
    lemma_stage(stage2, root, places2, sections.rodata, rodata_bits());
    lemma_took_frames_chain(frames, stage2.frames, stage3.frames);
    let stage4 = then_range(stage3, root, sections.data, data_bits());
    let places4 = places_after_range(
        stage3.frames,
        stage3.mem,
        root,
        sections.data.start as int,
        sections.data.end as int,
        data_bits(),
        places3,
    );
    lemma_stage(stage3, root, places3, sections.data, data_bits());
    lemma_took_frames_chain(frames, stage3.frames, stage4.frames);
    let stage5 = then_range(stage4, root, sections.bss, data_bits());
    let places5 = places_after_range(
        stage4.frames,
        stage4.mem,
        root,
        sections.bss.start as int,
        sections.bss.end as int,
        data_bits(),
        places4,
    );
    lemma_stage(stage4, root, places4, sections.bss, data_bits());
    lemma_took_frames_chain(frames, stage4.frames, stage5.frames);
    let stage6 = then_range(stage5, root, sections.ap_data, data_bits());
    let places6 = places_after_range(
        stage5.frames,
        stage5.mem,
        root,
        sections.ap_data.start as int,
        sections.ap_data.end as int,
        data_bits(),
        places5,
    );
    lemma_stage(stage5, root, places5, sections.ap_data, data_bits());
    lemma_took_frames_chain(frames, stage5.frames, stage6.frames);
    let stage7 = map_frame_map_outcome(
        stage6.frames,
        stage6.mem,
        root,
        0,
        stage6.frames.len() as int,
        data_bits(),
    );
    let places7 = places_after_frame_map(
        stage6.frames,
        stage6.mem,
        root,
        0,
        stage6.frames.len() as int,
        data_bits(),
        places6,
    );
    lemma_frame_map_maps(stage6.frames, stage6.mem, root, places6, 0, data_bits());
    lemma_took_frames_chain(frames, stage6.frames, stage7.frames);
    let stage8 = then_range(stage7, root, sections.user_code, user_bits());
    let places8 = places_after_range(
        stage7.frames,
        stage7.mem,
        root,
        sections.user_code.start as int,
        sections.user_code.end as int,
        user_bits(),
        places7,
    );
    lemma_stage(stage7, root, places7, sections.user_code, user_bits());
    lemma_took_frames_chain(frames, stage7.frames, stage8.frames);
    assert(stage8 == init_outcome(frames, mem, root, map, sections));
    assert(sound(stage8.frames, stage8.mem, root, places8));
    assert forall|j: int| 0 <= j < DISTINCT_PAGES implies #[trigger] page_after_init(
        mem,
        stage8.mem,
        root,
        frames,
        map,
        sections,
        j,
    ) by {
        assert(page_after_regions(mem, stage0.mem, root, map, 0, j));
        assert(page_after_stage(stage0.mem, stage1.mem, root, sections.text, text_bits(), j));
        assert(page_after_stage(stage1.mem, stage2.mem, root, sections.ap_text, text_bits(), j));
        assert(page_after_stage(stage2.mem, stage3.mem, root, sections.rodata, rodata_bits(), j));
        assert(page_after_stage(stage3.mem, stage4.mem, root, sections.data, data_bits(), j));
        assert(page_after_stage(stage4.mem, stage5.mem, root, sections.bss, data_bits(), j));
        assert(page_after_stage(stage5.mem, stage6.mem, root, sections.ap_data, data_bits(), j));
        assert(backs_frame_table(stage6.frames, j) == backs_frame_table(frames, j)) by {
            if 0 <= j < frames.len() {
                assert(stage6.frames[j] == frames[j] || (frames[j] == FrameType::Usable
                    && stage6.frames[j] == FrameType::Generic));
            }
        }
        if backs_frame_table(frames, j) {
            assert(maps_to(stage7.mem, root, page_of(j), page_of(j), data_bits()));
        } else {
            assert(walk(stage7.mem, root, DEPTH_MAX, page_of(j), None) == walk(
                stage6.mem,
                root,
                DEPTH_MAX,
                page_of(j),
                None,
            ));
        }
        assert(page_after_stage(stage7.mem, stage8.mem, root, sections.user_code, user_bits(), j));
    }
}

} // verus!
