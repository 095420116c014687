//! Sound page tables: every table has one place in the hierarchy.
//!
//! Tables are sound when each of them can be given a level and a page on
//! whose way it stands, such that following an entry always leads to a
//! table one level down on the way of the same pages, and the allocator
//! holds them all. Over sound tables `map` at the lowest depth changes the
//! mapping of one page only.

use crate::address::{
    is_frame_address, table_index_of, DEPTH_MAX, DEPTH_MIN, PAGE_SIZE, PHYSICAL_LIMIT,
};
use crate::frame_manager::{apply_op, first_usable, lemma_first_usable, op_succeeds, FrameOp};
use crate::mapper::{leaf_attributes, map_outcome};
use crate::mapping_laws::{
    held, lemma_create_takes_frames, lemma_map_maps, mapped_as, proper_path,
};
use crate::memory_map::FrameType;
use crate::page_table::{walk, walk_create, SlotView};
use crate::paging::{
    compose_word, is_attribute_bits, leaf_word, lemma_link_word, word_frame, word_is_table,
    word_occupied, PagingError, PRESENT,
};
use crate::physical_memory::{
    read_word, well_shaped, write_word, zero_frame_of, zero_table, MemoryView,
};
use vstd::prelude::*;

verus! {

/// The place of a table: its level, and a page on whose way it stands.
pub struct Place {
    pub level: u8,
    pub witness: u64,
}

/// Whether two pages select the same slots in the tables above `level`.
pub open spec fn agree_above(p: u64, q: u64, level: u8) -> bool {
    &&& (level < 4 ==> table_index_of(p, 4) == table_index_of(q, 4))
    &&& (level < 3 ==> table_index_of(p, 3) == table_index_of(q, 3))
    &&& (level < 2 ==> table_index_of(p, 2) == table_index_of(q, 2))
    &&& (level < 1 ==> table_index_of(p, 1) == table_index_of(q, 1))
}

/// Whether two pages select the same slot on every level, so that the
/// tables cannot tell them apart.
pub open spec fn same_slot(p: u64, q: u64) -> bool {
    agree_above(p, q, 0)
}

/// Whether the table at `table` has a place and stands on the way of `page`.
pub open spec fn on_way(places: Map<u64, Place>, table: u64, page: u64) -> bool {
    places.contains_key(table) && agree_above(page, places[table].witness, places[table].level)
}

/// Whether the tables under `root` are sound with the given places.
pub open spec fn sound(
    frames: Seq<FrameType>,
    mem: MemoryView,
    root: u64,
    places: Map<u64, Place>,
) -> bool {
    &&& places.contains_key(root)
    &&& places[root].level == DEPTH_MAX
    &&& forall|t: u64| #[trigger]
        places.contains_key(t) ==> held(frames, t) && DEPTH_MIN <= places[t].level <= DEPTH_MAX
    &&& forall|t: u64, p: u64| #[trigger]
        on_way(places, t, p) && places[t].level > DEPTH_MIN && word_is_table(
            read_word(mem, t, table_index_of(p, places[t].level)),
        ) ==> {
            let child = word_frame(read_word(mem, t, table_index_of(p, places[t].level)));
            &&& places.contains_key(child)
            &&& places[child].level == places[t].level - 1
            &&& agree_above(p, places[child].witness, places[child].level)
        }
}

/// Whether slot `index` of the table at `table` holds what it held before a
/// page `page` was mapped, or is one of the slots that mapping the page
/// fills: the slot of the page on the lowest level, or a slot on its way
/// that was free and now leads to a new table.
pub open spec fn slot_kept(
    mem0: MemoryView,
    places0: Map<u64, Place>,
    mem1: MemoryView,
    places1: Map<u64, Place>,
    page: u64,
    table: u64,
    index: int,
) -> bool {
    let before = if places0.contains_key(table) {
        read_word(mem0, table, index)
    } else {
        0u64
    };
    let after = read_word(mem1, table, index);
    after == before || (on_way(places1, table, page) && index == table_index_of(
        page,
        places1[table].level,
    ) && (places1[table].level == DEPTH_MIN || (!word_occupied(before) && word_is_table(after)
        && !places0.contains_key(word_frame(after)))))
}

/// Whether tables and places grew from one state to the next by mapping
/// `page`: the old tables keep their places, and every slot is kept or
/// filled for the page.
pub open spec fn grown(
    mem0: MemoryView,
    places0: Map<u64, Place>,
    mem1: MemoryView,
    places1: Map<u64, Place>,
    page: u64,
) -> bool {
    &&& forall|t: u64| #[trigger]
        places0.contains_key(t) ==> places1.contains_key(t) && places1[t] == places0[t]
    &&& forall|t: u64, i: int|
        places1.contains_key(t) && 0 <= i < 512 ==> #[trigger] slot_kept(
            mem0,
            places0,
            mem1,
            places1,
            page,
            t,
            i,
        )
}

/// The places after a creating walk: those before, and one for each table
/// that the walk made.
pub open spec fn places_after(
    frames: Seq<FrameType>,
    mem: MemoryView,
    table: u64,
    level: u8,
    page: u64,
    places: Map<u64, Place>,
) -> Map<u64, Place>
    decreases level,
{
    let index = table_index_of(page, level);
    let word = read_word(mem, table, index);
    if level <= DEPTH_MIN {
        places
    } else if word_is_table(word) {
        places_after(frames, mem, word_frame(word), (level - 1) as u8, page, places)
    } else if word_occupied(word) || !op_succeeds(frames, FrameOp::Next) {
        places
    } else {
        let child = (first_usable(frames) * PAGE_SIZE) as u64;
        places_after(
            apply_op(frames, FrameOp::Next),
            write_word(zero_frame_of(mem, child), table, index, compose_word(child, PRESENT)),
            child,
            (level - 1) as u8,
            page,
            places.insert(child, Place { level: (level - 1) as u8, witness: page }),
        )
    }
}

/// Pages that agree with a third page above a level agree with each other.
pub proof fn lemma_agree_chain(p: u64, q: u64, r: u64, level: u8)
    requires
        agree_above(p, r, level),
        agree_above(q, r, level),
    ensures
        agree_above(p, q, level),
        agree_above(q, p, level),
{
}

/// Over sound tables the way of a page from a table is sound: its tables
/// stand on different levels, so none is met twice, and all are held.
pub proof fn lemma_sound_way_is_proper(
    frames: Seq<FrameType>,
    mem: MemoryView,
    root: u64,
    places: Map<u64, Place>,
    table: u64,
    page: u64,
    target: u8,
    seen: Set<u64>,
)
    requires
        sound(frames, mem, root, places),
        on_way(places, table, page),
        forall|x: u64| seen.contains(x) ==> places.contains_key(x) && places[x].level
            > places[table].level,
    ensures
        proper_path(frames, mem, table, places[table].level, page, target, seen),
    decreases places[table].level,
{
    let level = places[table].level;
    let word = read_word(mem, table, table_index_of(page, level));
    if level > target && level > DEPTH_MIN && word_is_table(word) {
        let child = word_frame(word);
        assert(on_way(places, child, page));
        lemma_sound_way_is_proper(frames, mem, root, places, child, page, target, seen.insert(table));
    }
}

/// After tables grew by mapping a page, the walk of any other page from a
/// table that existed before ends as it did before, and from a new table it
/// finds nothing.
pub proof fn lemma_other_pages_keep(
    frames0: Seq<FrameType>,
    mem0: MemoryView,
    places0: Map<u64, Place>,
    frames1: Seq<FrameType>,
    mem1: MemoryView,
    places1: Map<u64, Place>,
    root: u64,
    mapped: u64,
    table: u64,
    page: u64,
)
    requires
        sound(frames0, mem0, root, places0),
        sound(frames1, mem1, root, places1),
        grown(mem0, places0, mem1, places1, mapped),
        on_way(places1, table, page),
        !same_slot(page, mapped),
    ensures
        walk(mem1, table, places1[table].level, page, None) == if places0.contains_key(table) {
            walk(mem0, table, places1[table].level, page, None)
        } else {
            Err::<SlotView, PagingError>(PagingError::NotMapped)
        },
    decreases places1[table].level,
{
    let level = places1[table].level;
    let index = table_index_of(page, level);
    let after = read_word(mem1, table, index);
    let before = if places0.contains_key(table) {
        read_word(mem0, table, index)
    } else {
        0u64
    };
    assert(slot_kept(mem0, places0, mem1, places1, mapped, table, index));
    lemma_link_word(0);
    if after != before {
        lemma_agree_chain(page, mapped, places1[table].witness, level);
    }
    if level > DEPTH_MIN && word_is_table(after) {
        let child = word_frame(after);
        assert(on_way(places1, child, page));
        if after == before && places0.contains_key(table) {
            assert(on_way(places0, table, page));
            assert(places0.contains_key(child));
        }
        lemma_other_pages_keep(
            frames0,
            mem0,
            places0,
            frames1,
            mem1,
            places1,
            root,
            mapped,
            child,
            page,
        );
    }
}

/// A creating walk to the lowest level over sound tables leaves sound
/// tables that grew by the page, and ends in a table on the way of the page.
pub proof fn lemma_create_grows(
    base_mem: MemoryView,
    base_places: Map<u64, Place>,
    frames: Seq<FrameType>,
    mem: MemoryView,
    root: u64,
    places: Map<u64, Place>,
    table: u64,
    page: u64,
)
    requires
        well_shaped(mem),
        frames.len() <= PHYSICAL_LIMIT / PAGE_SIZE,
        sound(frames, mem, root, places),
        grown(base_mem, base_places, mem, places, page),
        on_way(places, table, page),
        walk_create(frames, mem, table, places[table].level, page, DEPTH_MIN).result.is_ok(),
    ensures
        ({
            let out = walk_create(frames, mem, table, places[table].level, page, DEPTH_MIN);
            let after = places_after(frames, mem, table, places[table].level, page, places);
            let slot = out.result.unwrap();
            &&& well_shaped(out.mem)
            &&& sound(out.frames, out.mem, root, after)
            &&& grown(base_mem, base_places, out.mem, after, page)
            &&& on_way(after, slot.table, page)
            &&& after[slot.table].level == DEPTH_MIN
            &&& slot.index == table_index_of(page, DEPTH_MIN)
            &&& slot.level == DEPTH_MIN
        }),
    decreases places[table].level,
{
    let level = places[table].level;
    let index = table_index_of(page, level);
    let word = read_word(mem, table, index);
    let lower = (level - 1) as u8;
    assert(mem.contains_key(table));
    if level == DEPTH_MIN {
    } else if word_is_table(word) {
        let child = word_frame(word);
        assert(on_way(places, child, page));
        lemma_create_grows(base_mem, base_places, frames, mem, root, places, child, page);
    } else {
        lemma_first_usable(frames);
        let first = first_usable(frames);
        let child = (first * PAGE_SIZE) as u64;
        assert((child as int) / (PAGE_SIZE as int) == first);
        assert(!held(frames, child));
        assert(!places.contains_key(child));
        assert(!base_places.contains_key(child));
        let taken = apply_op(frames, FrameOp::Next);
        let link = compose_word(child, PRESENT);
        let installed = write_word(zero_frame_of(mem, child), table, index, link);
        let more = places.insert(child, Place { level: lower, witness: page });
        lemma_link_word(child);
        assert(child != table);
        assert(well_shaped(installed)) by {
            assert forall|x: u64| #[trigger]
                installed.contains_key(x) && installed[x].len() == 512 by {
                assert(mem.contains_key(x));
            }
        }
        assert(installed[child] == zero_table());
        assert forall|t: u64, i: int| 0 <= i < 512 implies read_word(installed, t, i) == if t
            == child {
            0u64
        } else if t == table && i == index {
            link
        } else {
            read_word(mem, t, i)
        } by {
            assert(mem.contains_key(t));
        }
        assert forall|x: u64| held(frames, x) implies held(taken, x) by {}
        assert(sound(taken, installed, root, more)) by {
            assert forall|t: u64| #[trigger] more.contains_key(t) implies held(taken, t)
                && DEPTH_MIN <= more[t].level <= DEPTH_MAX by {
                if t != child {
                    assert(places.contains_key(t));
                }
            }
            assert forall|t: u64, p: u64| #[trigger]
                on_way(more, t, p) && more[t].level > DEPTH_MIN && word_is_table(
                    read_word(installed, t, table_index_of(p, more[t].level)),
                ) implies ({
                let next = word_frame(read_word(installed, t, table_index_of(p, more[t].level)));
                &&& more.contains_key(next)
                &&& more[next].level == more[t].level - 1
                &&& agree_above(p, more[next].witness, more[next].level)
            }) by {
                if t == child {
                } else if t == table && table_index_of(p, level) == index {
                    lemma_agree_chain(p, page, places[table].witness, level);
                } else {
                    assert(on_way(places, t, p));
                }
            }
        }
        assert(grown(base_mem, base_places, installed, more, page)) by {
            assert forall|t: u64| #[trigger] base_places.contains_key(t) implies more.contains_key(
                t,
            ) && more[t] == base_places[t] by {
                assert(places.contains_key(t));
            }
            assert forall|t: u64, i: int| more.contains_key(t) && 0 <= i < 512 implies #[trigger]
                slot_kept(base_mem, base_places, installed, more, page, t, i) by {
                if t == child {
                } else {
                    assert(slot_kept(base_mem, base_places, mem, places, page, t, i));
                    if t == table && i == index {
                        if base_places.contains_key(table) {
                            assert(read_word(base_mem, table, index) == word);
                        }
                    }
                }
            }
        }
        assert(on_way(more, child, page));
        lemma_create_grows(base_mem, base_places, taken, installed, root, more, child, page);
    }
}

/// The places after `map` of a page at the lowest depth.
pub open spec fn places_after_map(
    frames: Seq<FrameType>,
    mem: MemoryView,
    root: u64,
    page: u64,
    frame: u64,
    lock_frame: bool,
    places: Map<u64, Place>,
) -> Map<u64, Place> {
    let locked = if lock_frame {
        apply_op(frames, FrameOp::Lock(frame as int / PAGE_SIZE as int))
    } else {
        frames
    };
    places_after(locked, mem, root, DEPTH_MAX, page, places)
}

/// One page at a time. Over sound tables, a `map` at the lowest depth that
/// succeeds maps its page to the frame with exactly the attributes given,
/// leaves the tables sound, and leaves the walk of every other page as it
/// was: what was mapped stays mapped to the same frame with the same
/// attributes, and what was not mapped stays unmapped.
pub proof fn lemma_map_keeps_others(
    frames: Seq<FrameType>,
    mem: MemoryView,
    root: u64,
    places: Map<u64, Place>,
    page: u64,
    frame: u64,
    lock_frame: bool,
    attributes: u64,
)
    requires
        well_shaped(mem),
        frames.len() <= PHYSICAL_LIMIT / PAGE_SIZE,
        sound(frames, mem, root, places),
        is_frame_address(frame),
        is_attribute_bits(attributes),
        map_outcome(frames, mem, root, page, DEPTH_MIN, frame, lock_frame, attributes).result.is_ok(),
    ensures
        ({
            let out = map_outcome(
                frames,
                mem,
                root,
                page,
                DEPTH_MIN,
                frame,
                lock_frame,
                attributes,
            );
            let after = places_after_map(frames, mem, root, page, frame, lock_frame, places);
            &&& well_shaped(out.mem)
            &&& out.frames.len() == frames.len()
            &&& forall|i: int|
                0 <= i < frames.len() ==> #[trigger] out.frames[i] == frames[i] || (frames[i]
                    == FrameType::Usable && out.frames[i] == FrameType::Generic)
            &&& sound(out.frames, out.mem, root, after)
            &&& mapped_as(out.mem, root, page, DEPTH_MIN, frame, attributes)
            &&& forall|other: u64|
                !same_slot(other, page) ==> #[trigger] walk(out.mem, root, DEPTH_MAX, other, None)
                    == walk(mem, root, DEPTH_MAX, other, None)
        }),
{
    let lock = FrameOp::Lock(frame as int / PAGE_SIZE as int);
    let locked = if lock_frame {
        apply_op(frames, lock)
    } else {
        frames
    };
    assert forall|x: u64| held(frames, x) implies held(locked, x) by {}
    assert(sound(locked, mem, root, places)) by {
        assert forall|t: u64, p: u64| #[trigger]
            on_way(places, t, p) && places[t].level > DEPTH_MIN && word_is_table(
                read_word(mem, t, table_index_of(p, places[t].level)),
            ) implies ({
            let next = word_frame(read_word(mem, t, table_index_of(p, places[t].level)));
            &&& places.contains_key(next)
            &&& places[next].level == places[t].level - 1
            &&& agree_above(p, places[next].witness, places[next].level)
        }) by {}
    }
    assert(on_way(places, root, page));
    assert(grown(mem, places, mem, places, page)) by {
        assert forall|t: u64, i: int| places.contains_key(t) && 0 <= i < 512 implies #[trigger]
            slot_kept(mem, places, mem, places, page, t, i) by {}
    }
    lemma_sound_way_is_proper(frames, mem, root, places, root, page, DEPTH_MIN, Set::empty());
    lemma_map_maps(frames, mem, root, page, DEPTH_MIN, frame, lock_frame, attributes);
    lemma_create_grows(mem, places, locked, mem, root, places, root, page);
    lemma_create_takes_frames(locked, mem, root, DEPTH_MAX, page, DEPTH_MIN);
    let walked = walk_create(locked, mem, root, DEPTH_MAX, page, DEPTH_MIN);
    let after = places_after(locked, mem, root, DEPTH_MAX, page, places);
    let slot = walked.result.unwrap();
    let leaf = leaf_word(frame, leaf_attributes(attributes, DEPTH_MIN));
    let last = write_word(walked.mem, slot.table, slot.index, leaf);
    assert(walked.mem.contains_key(slot.table));
    assert forall|t: u64, i: int| 0 <= i < 512 implies read_word(last, t, i) == if t == slot.table
        && i == slot.index {
        leaf
    } else {
        read_word(walked.mem, t, i)
    } by {
        assert(walked.mem.contains_key(t));
    }
    assert(sound(walked.frames, last, root, after)) by {
        assert forall|t: u64, p: u64| #[trigger]
            on_way(after, t, p) && after[t].level > DEPTH_MIN && word_is_table(
                read_word(last, t, table_index_of(p, after[t].level)),
            ) implies ({
            let next = word_frame(read_word(last, t, table_index_of(p, after[t].level)));
            &&& after.contains_key(next)
            &&& after[next].level == after[t].level - 1
            &&& agree_above(p, after[next].witness, after[next].level)
        }) by {}
    }
    assert(grown(mem, places, last, after, page)) by {
        assert forall|t: u64, i: int| after.contains_key(t) && 0 <= i < 512 implies #[trigger]
            slot_kept(mem, places, last, after, page, t, i) by {
            assert(slot_kept(mem, places, walked.mem, after, page, t, i));
        }
    }
    assert forall|other: u64| !same_slot(other, page) implies #[trigger] walk(
        last,
        root,
        DEPTH_MAX,
        other,
        None,
    ) == walk(mem, root, DEPTH_MAX, other, None) by {
        assert(on_way(after, root, other));
        lemma_other_pages_keep(
            frames,
            mem,
            places,
            walked.frames,
            last,
            after,
            root,
            page,
            root,
            other,
        );
    }
}

/// Whether the tables under `root` are sound: places exist for them.
pub open spec fn tables_sound(frames: Seq<FrameType>, mem: MemoryView, root: u64) -> bool {
    exists|places: Map<u64, Place>| sound(frames, mem, root, places)
}

/// A root table that is held and holds only zeroes is sound.
pub proof fn lemma_fresh_root_is_sound(frames: Seq<FrameType>, mem: MemoryView, root: u64)
    requires
        held(frames, root),
        mem[root] == zero_table(),
    ensures
        tables_sound(frames, mem, root),
{
    let places = Map::<u64, Place>::empty().insert(root, Place { level: DEPTH_MAX, witness: 0 });
    lemma_link_word(0);
    assert(sound(frames, mem, root, places)) by {
        assert forall|t: u64, p: u64| #[trigger]
            on_way(places, t, p) && places[t].level > DEPTH_MIN && word_is_table(
                read_word(mem, t, table_index_of(p, places[t].level)),
            ) implies ({
            let next = word_frame(read_word(mem, t, table_index_of(p, places[t].level)));
            &&& places.contains_key(next)
            &&& places[next].level == places[t].level - 1
            &&& agree_above(p, places[next].witness, places[next].level)
        }) by {
            assert(t == root);
            assert(read_word(mem, root, table_index_of(p, DEPTH_MAX)) == 0);
        }
    }
}

/// Over sound tables a reading walk ends in a table on the way of its page.
pub proof fn lemma_sound_walk(
    frames: Seq<FrameType>,
    mem: MemoryView,
    root: u64,
    places: Map<u64, Place>,
    table: u64,
    page: u64,
    wanted: Option<u8>,
)
    requires
        sound(frames, mem, root, places),
        on_way(places, table, page),
        walk(mem, table, places[table].level, page, wanted).is_ok(),
    ensures
        ({
            let slot = walk(mem, table, places[table].level, page, wanted).unwrap();
            &&& on_way(places, slot.table, page)
            &&& places[slot.table].level == slot.level
            &&& slot.index == table_index_of(page, slot.level)
            &&& 0 <= slot.index < 512
        }),
    decreases places[table].level,
{
    let level = places[table].level;
    let word = read_word(mem, table, table_index_of(page, level));
    if !crate::page_table::at_target(level, wanted) && level > DEPTH_MIN && word_is_table(word) {
        assert(on_way(places, word_frame(word), page));
        lemma_sound_walk(frames, mem, root, places, word_frame(word), page, wanted);
    }
}

/// One entry at a time. Over sound tables, a write into the entry that the
/// walk of a page reaches on the lowest level leaves the tables sound and
/// leaves the walk of every other page as it was. `unmap` and
/// `set_page_attributes` make such writes.
pub proof fn lemma_leaf_write_keeps_others(
    frames: Seq<FrameType>,
    mem: MemoryView,
    root: u64,
    places: Map<u64, Place>,
    page: u64,
    wanted: Option<u8>,
    word: u64,
)
    requires
        well_shaped(mem),
        sound(frames, mem, root, places),
        walk(mem, root, DEPTH_MAX, page, wanted).is_ok(),
        walk(mem, root, DEPTH_MAX, page, wanted).unwrap().level == DEPTH_MIN,
    ensures
        ({
            let slot = walk(mem, root, DEPTH_MAX, page, wanted).unwrap();
            let after = write_word(mem, slot.table, slot.index, word);
            &&& sound(frames, after, root, places)
            &&& forall|other: u64|
                !same_slot(other, page) ==> #[trigger] walk(after, root, DEPTH_MAX, other, None)
                    == walk(mem, root, DEPTH_MAX, other, None)
        }),
{
    assert(on_way(places, root, page));
    lemma_sound_walk(frames, mem, root, places, root, page, wanted);
    let slot = walk(mem, root, DEPTH_MAX, page, wanted).unwrap();
    let after = write_word(mem, slot.table, slot.index, word);
    assert(mem.contains_key(slot.table));
    assert forall|t: u64, i: int| 0 <= i < 512 implies read_word(after, t, i) == if t == slot.table
        && i == slot.index {
        word
    } else {
        read_word(mem, t, i)
    } by {
        assert(mem.contains_key(t));
    }
    assert(sound(frames, after, root, places)) by {
        assert forall|t: u64, p: u64| #[trigger]
            on_way(places, t, p) && places[t].level > DEPTH_MIN && word_is_table(
                read_word(after, t, table_index_of(p, places[t].level)),
            ) implies ({
            let next = word_frame(read_word(after, t, table_index_of(p, places[t].level)));
            &&& places.contains_key(next)
            &&& places[next].level == places[t].level - 1
            &&& agree_above(p, places[next].witness, places[next].level)
        }) by {}
    }
    assert(grown(mem, places, after, places, page)) by {
        assert forall|t: u64, i: int| places.contains_key(t) && 0 <= i < 512 implies #[trigger]
            slot_kept(mem, places, after, places, page, t, i) by {}
    }
    assert forall|other: u64| !same_slot(other, page) implies #[trigger] walk(
        after,
        root,
        DEPTH_MAX,
        other,
        None,
    ) == walk(mem, root, DEPTH_MAX, other, None) by {
        assert(on_way(places, root, other));
        lemma_other_pages_keep(frames, mem, places, frames, after, places, root, page, root, other);
    }
}

/// Sound tables stay sound when more frames are held.
pub proof fn lemma_sound_monotone(
    frames: Seq<FrameType>,
    later: Seq<FrameType>,
    mem: MemoryView,
    root: u64,
)
    requires
        tables_sound(frames, mem, root),
        forall|x: u64| held(frames, x) ==> held(later, x),
    ensures
        tables_sound(later, mem, root),
{
    let places = choose|places: Map<u64, Place>| sound(frames, mem, root, places);
    assert(sound(later, mem, root, places)) by {
        assert forall|t: u64, p: u64| #[trigger]
            on_way(places, t, p) && places[t].level > DEPTH_MIN && word_is_table(
                read_word(mem, t, table_index_of(p, places[t].level)),
            ) implies ({
            let next = word_frame(read_word(mem, t, table_index_of(p, places[t].level)));
            &&& places.contains_key(next)
            &&& places[next].level == places[t].level - 1
            &&& agree_above(p, places[next].witness, places[next].level)
        }) by {}
    }
}

} // verus!
