//! What holds of the mapper whatever the state of the tables: laws that
//! relate one request to the next.

use crate::address::{
    is_frame_address, table_index_of, DEPTH_MAX, DEPTH_MIN, PAGE_SIZE, PHYSICAL_LIMIT,
};
use crate::frame_manager::{apply_op, first_usable, lemma_first_usable, op_succeeds, FrameOp};
use crate::mapper::{
    leaf_attributes, map_outcome, set_attributes_outcome, unmap_outcome, MapOutcome, MapperError,
};
use crate::memory_map::FrameType;
use crate::page_table::{at_target, walk, walk_create, CreateOutcome, SlotView};
use crate::paging::{
    compose_word, is_attribute_bits, leaf_word, lemma_flags_are_attribute_bits,
    lemma_insert_keeps_flags, lemma_leaf_word, lemma_link_word, lemma_unmapped_word, modify_word,
    unmapped_word, word_attributes, word_frame, word_huge, word_is_table, word_occupied,
    AttributeModify, PagingError, HUGE, PRESENT,
};
use crate::physical_memory::{
    read_word, well_shaped, write_word, zero_frame_of, zero_table, MemoryView,
};
use vstd::prelude::*;

verus! {

/// A walk that succeeds returns the word that stands in the slot it names.
pub proof fn lemma_walk_reads_slot(mem: MemoryView, table: u64, level: u8, page: u64, target: Option<u8>)
    requires
        walk(mem, table, level, page, target).is_ok(),
    ensures
        ({
            let slot = walk(mem, table, level, page, target).unwrap();
            &&& slot.word == read_word(mem, slot.table, slot.index)
            &&& 0 <= slot.index < 512
            &&& slot.index == table_index_of(page, slot.level)
            &&& slot.level <= level
            &&& word_occupied(slot.word)
        }),
    decreases level,
{
    let word = read_word(mem, table, table_index_of(page, level));
    if !at_target(level, target) && level > DEPTH_MIN && word_is_table(word) {
        lemma_walk_reads_slot(mem, word_frame(word), (level - 1) as u8, page, target);
    }
}

/// After attributes were switched on in the entry that a walk reaches, the
/// same walk reaches the same place and finds the entry with the attributes
/// on.
pub proof fn lemma_walk_after_insert(
    mem: MemoryView,
    table: u64,
    level: u8,
    page: u64,
    target: Option<u8>,
    found: SlotView,
    attributes: u64,
)
    requires
        well_shaped(mem),
        is_attribute_bits(attributes),
        walk(mem, table, level, page, target) == Ok::<SlotView, PagingError>(found),
        found.word == read_word(mem, found.table, found.index),
        0 <= found.index < 512,
    ensures
        ({
            let word = modify_word(found.word, attributes, AttributeModify::Insert);
            let after = walk(
                write_word(mem, found.table, found.index, word),
                table,
                level,
                page,
                target,
            );
            &&& after.is_ok()
            &&& after.unwrap().table == found.table
            &&& after.unwrap().index == found.index
            &&& after.unwrap().word == word
        }),
    decreases level,
{
    let index = table_index_of(page, level);
    let word = read_word(mem, table, index);
    let raised = modify_word(found.word, attributes, AttributeModify::Insert);
    let changed = write_word(mem, found.table, found.index, raised);
    let here = table == found.table && index == found.index;
    assert(mem.contains_key(table) && mem.contains_key(found.table));
    assert(read_word(changed, table, index) == if here {
        raised
    } else {
        word
    });
    lemma_insert_keeps_flags(word, attributes);
    if !at_target(level, target) && word_is_table(word) && !(here && word_huge(raised)) {
        lemma_walk_after_insert(
            mem,
            word_frame(word),
            (level - 1) as u8,
            page,
            target,
            found,
            attributes,
        );
    }
}

/// Attribute idempotence. Switching attributes of a page on twice leaves
/// the tables as switching them on once does, and the second request
/// succeeds exactly if the first did.
pub proof fn lemma_set_attributes_twice(
    mem: MemoryView,
    root: u64,
    page: u64,
    target: Option<u8>,
    attributes: u64,
)
    requires
        well_shaped(mem),
        is_attribute_bits(attributes),
    ensures
        ({
            let once = set_attributes_outcome(
                mem,
                root,
                page,
                target,
                attributes,
                AttributeModify::Insert,
            );
            &&& set_attributes_outcome(once, root, page, target, attributes, AttributeModify::Insert)
                == once
            &&& walk(once, root, DEPTH_MAX, page, target).is_ok() == walk(
                mem,
                root,
                DEPTH_MAX,
                page,
                target,
            ).is_ok()
            &&& walk(mem, root, DEPTH_MAX, page, target).is_ok() ==> word_attributes(
                walk(once, root, DEPTH_MAX, page, target).unwrap().word,
            ) == word_attributes(walk(mem, root, DEPTH_MAX, page, target).unwrap().word)
                | attributes
        }),
{
    let first = walk(mem, root, DEPTH_MAX, page, target);
    if first.is_ok() {
        let found = first.unwrap();
        lemma_walk_reads_slot(mem, root, DEPTH_MAX, page, target);
        lemma_walk_after_insert(mem, root, DEPTH_MAX, page, target, found, attributes);
        let raised = modify_word(found.word, attributes, AttributeModify::Insert);
        let once = write_word(mem, found.table, found.index, raised);
        lemma_insert_keeps_flags(found.word, attributes);
        assert(mem.contains_key(found.table));
        assert(write_word(once, found.table, found.index, raised) =~~= once);
    }
}

/// Whether the allocator will not hand out the frame at `addr`: the frame
/// is not usable, or the frame table does not have it.
pub open spec fn held(frames: Seq<FrameType>, addr: u64) -> bool {
    let index = (addr as int) / (PAGE_SIZE as int);
    !(index < frames.len() && frames[index] == FrameType::Usable)
}

/// Whether the tables that stand on the way of `page`, from the table at
/// `table` down to level `target`, are sound: each is held, and none of them
/// is met twice or is one of the tables in `seen`.
pub open spec fn proper_path(
    frames: Seq<FrameType>,
    mem: MemoryView,
    table: u64,
    level: u8,
    page: u64,
    target: u8,
    seen: Set<u64>,
) -> bool
    decreases level,
{
    let word = read_word(mem, table, table_index_of(page, level));
    &&& held(frames, table)
    &&& !seen.contains(table)
    &&& (level > target && level > DEPTH_MIN && word_is_table(word) ==> proper_path(
        frames,
        mem,
        word_frame(word),
        (level - 1) as u8,
        page,
        target,
        seen.insert(table),
    ))
}

/// Whether the way of `page` from the table at `table` leads, through
/// entries that can be followed, to the table at `last` on level `target`,
/// without passing through that table before.
pub open spec fn leads_to(
    mem: MemoryView,
    table: u64,
    level: u8,
    page: u64,
    target: u8,
    last: u64,
) -> bool
    decreases level,
{
    if level <= target {
        level == target && table == last
    } else {
        let word = read_word(mem, table, table_index_of(page, level));
        &&& table != last
        &&& word_is_table(word)
        &&& leads_to(mem, word_frame(word), (level - 1) as u8, page, target, last)
    }
}

/// A creating walk over a sound way leaves a way that leads to the slot it
/// returns, and changes none of the tables in `seen`.
pub proof fn lemma_create_builds_path(
    frames: Seq<FrameType>,
    mem: MemoryView,
    table: u64,
    level: u8,
    page: u64,
    target: u8,
    seen: Set<u64>,
)
    requires
        well_shaped(mem),
        frames.len() <= PHYSICAL_LIMIT / PAGE_SIZE,
        DEPTH_MIN <= target <= level,
        proper_path(frames, mem, table, level, page, target, seen),
        forall|x: u64| seen.contains(x) ==> held(frames, x),
        walk_create(frames, mem, table, level, page, target).result.is_ok(),
    ensures
        ({
            let out = walk_create(frames, mem, table, level, page, target);
            let slot = out.result.unwrap();
            &&& well_shaped(out.mem)
            &&& out.frames.len() == frames.len()
            &&& forall|x: u64| held(frames, x) ==> held(out.frames, x)
            &&& forall|x: u64| seen.contains(x) ==> out.mem[x] == mem[x]
            &&& leads_to(out.mem, table, level, page, target, slot.table)
            &&& !seen.contains(slot.table)
            &&& slot.index == table_index_of(page, target)
            &&& slot.level == target
        }),
    decreases level,
{
    let index = table_index_of(page, level);
    let word = read_word(mem, table, index);
    let below = seen.insert(table);
    let lower = (level - 1) as u8;
    assert(mem.contains_key(table));
    if level == target {
    } else if word_is_table(word) {
        let child = word_frame(word);
        lemma_create_builds_path(frames, mem, child, lower, page, target, below);
        let out = walk_create(frames, mem, child, lower, page, target);
        assert(below.contains(table));
        assert(out.mem[table] == mem[table]);
        assert forall|x: u64| seen.contains(x) implies out.mem[x] == mem[x] by {
            assert(below.contains(x));
        }
    } else {
        lemma_first_usable(frames);
        let first = first_usable(frames);
        let child = (first * PAGE_SIZE) as u64;
        assert((child as int) / (PAGE_SIZE as int) == first);
        assert(!held(frames, child));
        let taken = apply_op(frames, FrameOp::Next);
        let cleared = zero_frame_of(mem, child);
        let link = compose_word(child, PRESENT);
        let installed = write_word(cleared, table, index, link);
        lemma_link_word(child);
        assert(child != table);
        assert(well_shaped(installed)) by {
            assert forall|x: u64| #[trigger]
                installed.contains_key(x) && installed[x].len() == 512 by {
                assert(mem.contains_key(x));
            }
        }
        assert(installed[child] == zero_table());
        assert(!word_is_table(read_word(installed, child, table_index_of(page, lower))));
        assert forall|x: u64| held(frames, x) implies held(taken, x) by {}
        assert forall|x: u64| below.contains(x) implies held(taken, x) by {}
        assert(proper_path(taken, installed, child, lower, page, target, below));
        lemma_create_builds_path(taken, installed, child, lower, page, target, below);
        let out = walk_create(taken, installed, child, lower, page, target);
        assert(below.contains(table));
        assert(out.mem[table] == installed[table]);
        assert(read_word(installed, table, index) == link);
        assert forall|x: u64| seen.contains(x) implies out.mem[x] == mem[x] by {
            assert(below.contains(x));
            assert(mem.contains_key(x));
        }
    }
}

/// Writing into the table that a way leads to does not change the way.
pub proof fn lemma_leaf_write_keeps_path(
    mem: MemoryView,
    table: u64,
    level: u8,
    page: u64,
    target: u8,
    last: u64,
    index: int,
    word: u64,
)
    requires
        well_shaped(mem),
        0 <= index < 512,
        leads_to(mem, table, level, page, target, last),
    ensures
        leads_to(write_word(mem, last, index, word), table, level, page, target, last),
        well_shaped(write_word(mem, last, index, word)),
        read_word(write_word(mem, last, index, word), last, index) == word,
    decreases level,
{
    let changed = write_word(mem, last, index, word);
    assert(mem.contains_key(last) && mem.contains_key(table));
    assert forall|x: u64| #[trigger] changed.contains_key(x) && changed[x].len() == 512 by {
        assert(mem.contains_key(x));
    }
    if level > target {
        let next = word_frame(read_word(mem, table, table_index_of(page, level)));
        lemma_leaf_write_keeps_path(mem, next, (level - 1) as u8, page, target, last, index, word);
    }
}

/// A reading walk follows the way to its end. There it finds the page
/// mapped if the entry is taken and, above the lowest level with no depth
/// asked for, huge; and not mapped if the entry is not taken.
pub proof fn lemma_walk_follows_path(
    mem: MemoryView,
    table: u64,
    level: u8,
    page: u64,
    target: u8,
    last: u64,
    wanted: Option<u8>,
)
    requires
        DEPTH_MIN <= target,
        leads_to(mem, table, level, page, target, last),
        wanted == Some(target) || wanted.is_none(),
    ensures
        ({
            let index = table_index_of(page, target);
            let word = read_word(mem, last, index);
            let found = walk(mem, table, level, page, wanted);
            &&& !word_occupied(word) ==> found == Err::<SlotView, PagingError>(
                PagingError::NotMapped,
            )
            &&& word_occupied(word) && (at_target(target, wanted) || word_huge(word)) ==> found
                == Ok::<SlotView, PagingError>(SlotView { table: last, index, level: target, word })
        }),
    decreases level,
{
    if level > target {
        let next = word_frame(read_word(mem, table, table_index_of(page, level)));
        lemma_walk_follows_path(mem, next, (level - 1) as u8, page, target, last, wanted);
    }
}

/// A reading walk that reaches an entry over a sound way has followed a
/// way that leads to the table of that entry.
pub proof fn lemma_walk_gives_path(
    frames: Seq<FrameType>,
    mem: MemoryView,
    table: u64,
    level: u8,
    page: u64,
    wanted: Option<u8>,
    seen: Set<u64>,
)
    requires
        level >= DEPTH_MIN,
        proper_path(frames, mem, table, level, page, DEPTH_MIN, seen),
        walk(mem, table, level, page, wanted).is_ok(),
    ensures
        ({
            let slot = walk(mem, table, level, page, wanted).unwrap();
            &&& leads_to(mem, table, level, page, slot.level, slot.table)
            &&& !seen.contains(slot.table)
            &&& DEPTH_MIN <= slot.level <= level
            &&& at_target(slot.level, wanted) || slot.level > DEPTH_MIN
            &&& match wanted {
                Some(depth) => depth <= slot.level || depth > level,
                None => true,
            }
            &&& slot.index == table_index_of(page, slot.level)
            &&& slot.word == read_word(mem, slot.table, slot.index)
            &&& word_occupied(slot.word)
            &&& at_target(slot.level, wanted) || word_huge(slot.word)
        }),
    decreases level,
{
    let word = read_word(mem, table, table_index_of(page, level));
    if !at_target(level, wanted) && level > DEPTH_MIN && word_is_table(word) {
        lemma_walk_gives_path(
            frames,
            mem,
            word_frame(word),
            (level - 1) as u8,
            page,
            wanted,
            seen.insert(table),
        );
        assert(seen.insert(table).contains(table));
    }
}

/// Whether `page` is mapped to `frame` with exactly the given attributes:
/// the reading walk to the natural leaf reaches an entry on level `level`
/// that holds them.
pub open spec fn mapped_as(
    mem: MemoryView,
    root: u64,
    page: u64,
    level: u8,
    frame: u64,
    attributes: u64,
) -> bool {
    let found = walk(mem, root, DEPTH_MAX, page, None);
    &&& found.is_ok()
    &&& found.unwrap().level == level
    &&& word_frame(found.unwrap().word) == frame
    &&& word_attributes(found.unwrap().word) == attributes
    &&& walk(mem, root, DEPTH_MAX, page, Some(level)) == found
    &&& leads_to(mem, root, DEPTH_MAX, page, level, found.unwrap().table)
}

/// Whether the reading walk for `page` reaches an entry over a way that
/// does not pass through the table of that entry before.
pub open spec fn reached_simply(mem: MemoryView, root: u64, page: u64, wanted: Option<u8>) -> bool {
    let found = walk(mem, root, DEPTH_MAX, page, wanted);
    found.is_ok() && leads_to(
        mem,
        root,
        DEPTH_MAX,
        page,
        found.unwrap().level,
        found.unwrap().table,
    )
}

/// A creating walk changes the state of frames in one way only: frames
/// that were usable come into use.
pub proof fn lemma_create_takes_frames(
    frames: Seq<FrameType>,
    mem: MemoryView,
    table: u64,
    level: u8,
    page: u64,
    target: u8,
)
    ensures
        walk_create(frames, mem, table, level, page, target).frames.len() == frames.len(),
        forall|i: int|
            0 <= i < frames.len() ==> {
                let after = #[trigger] walk_create(frames, mem, table, level, page, target).frames[i];
                after == frames[i] || (frames[i] == FrameType::Usable && after
                    == FrameType::Generic)
            },
    decreases level,
{
    let index = table_index_of(page, level);
    let word = read_word(mem, table, index);
    let lower = (level - 1) as u8;
    if level == target || level <= DEPTH_MIN {
    } else if word_is_table(word) {
        lemma_create_takes_frames(frames, mem, word_frame(word), lower, page, target);
    } else if word_occupied(word) {
    } else if op_succeeds(frames, FrameOp::Next) {
        lemma_first_usable(frames);
        let child = (first_usable(frames) * PAGE_SIZE) as u64;
        let installed = write_word(
            zero_frame_of(mem, child),
            table,
            index,
            compose_word(child, PRESENT),
        );
        lemma_create_takes_frames(
            apply_op(frames, FrameOp::Next),
            installed,
            child,
            lower,
            page,
            target,
        );
    }
}

/// Whether `page` is not mapped: the reading walk to the natural leaf
/// ends with `NotMapped`.
pub open spec fn not_mapped(mem: MemoryView, root: u64, page: u64) -> bool {
    walk(mem, root, DEPTH_MAX, page, None) == Err::<SlotView, PagingError>(PagingError::NotMapped)
}

/// Map. Let the tables on the way of a page be sound: distinct frames
/// that the allocator will not hand out. When `map` succeeds, whatever the
/// attributes are, the page is mapped to the frame with exactly the
/// attributes given, and `HUGE` as well above the lowest level.
pub proof fn lemma_map_maps(
    frames: Seq<FrameType>,
    mem: MemoryView,
    root: u64,
    page: u64,
    target: u8,
    frame: u64,
    lock_frame: bool,
    attributes: u64,
)
    requires
        well_shaped(mem),
        frames.len() <= PHYSICAL_LIMIT / PAGE_SIZE,
        DEPTH_MIN <= target <= DEPTH_MAX,
        is_frame_address(frame),
        is_attribute_bits(attributes),
        proper_path(frames, mem, root, DEPTH_MAX, page, target, Set::empty()),
        map_outcome(frames, mem, root, page, target, frame, lock_frame, attributes).result.is_ok(),
    ensures
        ({
            let mapped = map_outcome(
                frames,
                mem,
                root,
                page,
                target,
                frame,
                lock_frame,
                attributes,
            );
            let slot = walk(mapped.mem, root, DEPTH_MAX, page, None).unwrap();
            &&& mapped_as(
                mapped.mem,
                root,
                page,
                target,
                frame,
                leaf_attributes(attributes, target),
            )
            &&& well_shaped(mapped.mem)
            &&& mapped.frames.len() == frames.len()
            &&& lock_frame ==> mapped.frames[frame as int / PAGE_SIZE as int] == FrameType::Generic
            &&& leads_to(mapped.mem, root, DEPTH_MAX, page, target, slot.table)
            &&& slot.index == table_index_of(page, target)
            &&& slot.word == leaf_word(frame, leaf_attributes(attributes, target))
        }),
{
    let lock = FrameOp::Lock(frame as int / PAGE_SIZE as int);
    let locked = if lock_frame {
        apply_op(frames, lock)
    } else {
        frames
    };
    assert forall|x: u64| held(frames, x) implies held(locked, x) by {}
    lemma_proper_path_monotone(frames, locked, mem, root, DEPTH_MAX, page, target, Set::empty());
    lemma_create_builds_path(locked, mem, root, DEPTH_MAX, page, target, Set::empty());
    lemma_create_takes_frames(locked, mem, root, DEPTH_MAX, page, target);
    let walked = walk_create(locked, mem, root, DEPTH_MAX, page, target);
    let slot = walked.result.unwrap();
    let bits = leaf_attributes(attributes, target);
    let leaf = leaf_word(frame, bits);
    lemma_flags_are_attribute_bits();
    assert(is_attribute_bits(bits));
    lemma_leaf_word(frame, bits);
    assert(target > DEPTH_MIN ==> word_huge(leaf)) by {
        if target > DEPTH_MIN {
            assert((attributes | HUGE) & HUGE == HUGE);
        }
    }
    assert(0 <= slot.index < 512);
    lemma_leaf_write_keeps_path(
        walked.mem,
        root,
        DEPTH_MAX,
        page,
        target,
        slot.table,
        slot.index,
        leaf,
    );
    let mapped = write_word(walked.mem, slot.table, slot.index, leaf);
    lemma_walk_follows_path(mapped, root, DEPTH_MAX, page, target, slot.table, None);
    lemma_walk_follows_path(mapped, root, DEPTH_MAX, page, target, slot.table, Some(target));
}

/// Unmap. When the reading walk reaches an entry for a page over a sound
/// way, `unmap` leaves the page not mapped.
pub proof fn lemma_unmap_unmaps(
    frames: Seq<FrameType>,
    mem: MemoryView,
    root: u64,
    page: u64,
    wanted: Option<u8>,
    free_frame: bool,
)
    requires
        well_shaped(mem),
        proper_path(frames, mem, root, DEPTH_MAX, page, DEPTH_MIN, Set::empty()) || reached_simply(
            mem,
            root,
            page,
            wanted,
        ),
        walk(mem, root, DEPTH_MAX, page, wanted).is_ok(),
    ensures
        not_mapped(unmap_outcome(frames, mem, root, page, wanted, free_frame).1, root, page),
        wanted.is_some() ==> walk(
            unmap_outcome(frames, mem, root, page, wanted, free_frame).1,
            root,
            DEPTH_MAX,
            page,
            wanted,
        ) == Err::<SlotView, PagingError>(PagingError::NotMapped),
{
    if proper_path(frames, mem, root, DEPTH_MAX, page, DEPTH_MIN, Set::empty()) {
        lemma_walk_gives_path(frames, mem, root, DEPTH_MAX, page, wanted, Set::empty());
    }
    lemma_walk_reads_slot(mem, root, DEPTH_MAX, page, wanted);
    lemma_walk_depths(mem, root, DEPTH_MAX, page, wanted);
    let slot = walk(mem, root, DEPTH_MAX, page, wanted).unwrap();
    let gone = unmapped_word(slot.word);
    lemma_unmapped_word(slot.word);
    lemma_leaf_write_keeps_path(mem, root, DEPTH_MAX, page, slot.level, slot.table, slot.index, gone);
    let after = write_word(mem, slot.table, slot.index, gone);
    lemma_walk_stops_where_nothing_is(after, root, DEPTH_MAX, page, slot.level, slot.table, None);
    if wanted.is_some() {
        lemma_walk_stops_where_nothing_is(
            after,
            root,
            DEPTH_MAX,
            page,
            slot.level,
            slot.table,
            wanted,
        );
    }
}

/// The depth at which a reading walk ends lies between the lowest depth
/// and its start, and no depth between the end and the start was asked for.
pub proof fn lemma_walk_depths(mem: MemoryView, table: u64, level: u8, page: u64, wanted: Option<u8>)
    requires
        level >= DEPTH_MIN,
        walk(mem, table, level, page, wanted).is_ok(),
    ensures
        ({
            let slot = walk(mem, table, level, page, wanted).unwrap();
            &&& DEPTH_MIN <= slot.level <= level
            &&& at_target(slot.level, wanted) || slot.level > DEPTH_MIN
            &&& match wanted {
                Some(depth) => depth <= slot.level || depth > level,
                None => true,
            }
        }),
    decreases level,
{
    let word = read_word(mem, table, table_index_of(page, level));
    if !at_target(level, wanted) && level > DEPTH_MIN && word_is_table(word) {
        lemma_walk_depths(mem, word_frame(word), (level - 1) as u8, page, wanted);
    }
}

/// A reading walk whose way leads to an entry that is not taken ends with
/// `NotMapped`, if no depth above that entry was asked for.
pub proof fn lemma_walk_stops_where_nothing_is(
    mem: MemoryView,
    table: u64,
    level: u8,
    page: u64,
    target: u8,
    last: u64,
    wanted: Option<u8>,
)
    requires
        DEPTH_MIN <= target,
        leads_to(mem, table, level, page, target, last),
        !word_occupied(read_word(mem, last, table_index_of(page, target))),
        at_target(target, wanted) || target > DEPTH_MIN,
        match wanted {
            Some(depth) => depth <= target || depth > level,
            None => true,
        },
    ensures
        walk(mem, table, level, page, wanted) == Err::<SlotView, PagingError>(
            PagingError::NotMapped,
        ),
    decreases level,
{
    if level > target {
        let next = word_frame(read_word(mem, table, table_index_of(page, level)));
        lemma_walk_stops_where_nothing_is(mem, next, (level - 1) as u8, page, target, last, wanted);
    }
}

/// Map and unmap round trip. Over sound tables, for every frame and every
/// set of attributes: after `map` succeeded the page is mapped to the frame,
/// and after `unmap` of that page it is not mapped any more.
pub proof fn lemma_map_round_trip(
    frames: Seq<FrameType>,
    mem: MemoryView,
    root: u64,
    page: u64,
    target: u8,
    frame: u64,
    lock_frame: bool,
    attributes: u64,
    free_frame: bool,
)
    requires
        well_shaped(mem),
        frames.len() <= PHYSICAL_LIMIT / PAGE_SIZE,
        DEPTH_MIN <= target <= DEPTH_MAX,
        is_frame_address(frame),
        is_attribute_bits(attributes),
        proper_path(frames, mem, root, DEPTH_MAX, page, target, Set::empty()),
        map_outcome(frames, mem, root, page, target, frame, lock_frame, attributes).result.is_ok(),
    ensures
        ({
            let mapped = map_outcome(
                frames,
                mem,
                root,
                page,
                target,
                frame,
                lock_frame,
                attributes,
            );
            let unmapped = unmap_outcome(mapped.frames, mapped.mem, root, page, None, free_frame);
            &&& mapped_as(
                mapped.mem,
                root,
                page,
                target,
                frame,
                leaf_attributes(attributes, target),
            )
            &&& not_mapped(unmapped.1, root, page)
        }),
{
    lemma_map_maps(frames, mem, root, page, target, frame, lock_frame, attributes);
    let mapped = map_outcome(frames, mem, root, page, target, frame, lock_frame, attributes);
    let slot = walk(mapped.mem, root, DEPTH_MAX, page, None).unwrap();
    let gone = unmapped_word(slot.word);
    lemma_unmapped_word(slot.word);
    lemma_leaf_write_keeps_path(
        mapped.mem,
        root,
        DEPTH_MAX,
        page,
        target,
        slot.table,
        slot.index,
        gone,
    );
    let after = write_word(mapped.mem, slot.table, slot.index, gone);
    lemma_walk_stops_where_nothing_is(after, root, DEPTH_MAX, page, target, slot.table, None);
}

/// A creating walk towards a level below an entry that maps a huge page
/// ends with `WalkInterrupted` and changes nothing.
pub proof fn lemma_create_stops_at_huge(
    frames: Seq<FrameType>,
    mem: MemoryView,
    table: u64,
    level: u8,
    page: u64,
    target: u8,
)
    requires
        DEPTH_MIN <= target,
        walk(mem, table, level, page, None).is_ok(),
        walk(mem, table, level, page, None).unwrap().level > target,
    ensures
        walk_create(frames, mem, table, level, page, target) == (CreateOutcome {
            frames,
            mem,
            result: Err(PagingError::WalkInterrupted),
        }),
    decreases level,
{
    let word = read_word(mem, table, table_index_of(page, level));
    if level > DEPTH_MIN && word_is_table(word) {
        lemma_walk_reads_slot(mem, word_frame(word), (level - 1) as u8, page, None);
        lemma_create_stops_at_huge(frames, mem, word_frame(word), (level - 1) as u8, page, target);
    }
}

/// No mapping below a huge page. When a page lies in a huge mapping,
/// whatever the attributes of that mapping are, `map` of the page at a
/// lower level never succeeds; without locking it fails with
/// `PagingError` and changes nothing, so the huge mapping stays as it was.
pub proof fn lemma_map_below_huge_fails(
    frames: Seq<FrameType>,
    mem: MemoryView,
    root: u64,
    page: u64,
    target: u8,
    frame: u64,
    lock_frame: bool,
    attributes: u64,
)
    requires
        DEPTH_MIN <= target,
        walk(mem, root, DEPTH_MAX, page, None).is_ok(),
        walk(mem, root, DEPTH_MAX, page, None).unwrap().level > target,
    ensures
        map_outcome(frames, mem, root, page, target, frame, lock_frame, attributes).result.is_err(),
        map_outcome(frames, mem, root, page, target, frame, lock_frame, attributes).mem == mem,
        !lock_frame ==> map_outcome(frames, mem, root, page, target, frame, lock_frame, attributes)
            == (MapOutcome {
            frames,
            mem,
            result: Err(MapperError::PagingError(PagingError::WalkInterrupted)),
        }),
{
    let lock = FrameOp::Lock(frame as int / PAGE_SIZE as int);
    let locked = if lock_frame {
        apply_op(frames, lock)
    } else {
        frames
    };
    lemma_create_stops_at_huge(locked, mem, root, DEPTH_MAX, page, target);
}

/// A way that is sound stays sound when more frames are held.
pub proof fn lemma_proper_path_monotone(
    frames: Seq<FrameType>,
    later: Seq<FrameType>,
    mem: MemoryView,
    table: u64,
    level: u8,
    page: u64,
    target: u8,
    seen: Set<u64>,
)
    requires
        proper_path(frames, mem, table, level, page, target, seen),
        forall|x: u64| held(frames, x) ==> held(later, x),
    ensures
        proper_path(later, mem, table, level, page, target, seen),
    decreases level,
{
    let word = read_word(mem, table, table_index_of(page, level));
    if level > target && level > DEPTH_MIN && word_is_table(word) {
        lemma_proper_path_monotone(
            frames,
            later,
            mem,
            word_frame(word),
            (level - 1) as u8,
            page,
            target,
            seen.insert(table),
        );
    }
}

/// A creating walk leaves memory well shaped, and the slot it returns lies
/// in a table.
pub proof fn lemma_create_keeps_shape(
    frames: Seq<FrameType>,
    mem: MemoryView,
    table: u64,
    level: u8,
    page: u64,
    target: u8,
)
    requires
        well_shaped(mem),
    ensures
        well_shaped(walk_create(frames, mem, table, level, page, target).mem),
        walk_create(frames, mem, table, level, page, target).result.is_ok() ==> 0
            <= walk_create(frames, mem, table, level, page, target).result.unwrap().index < 512,
    decreases level,
{
    let index = table_index_of(page, level);
    let word = read_word(mem, table, index);
    let lower = (level - 1) as u8;
    if level == target || level <= DEPTH_MIN {
    } else if word_is_table(word) {
        lemma_create_keeps_shape(frames, mem, word_frame(word), lower, page, target);
    } else if word_occupied(word) {
    } else if op_succeeds(frames, FrameOp::Next) {
        let child = (first_usable(frames) * PAGE_SIZE) as u64;
        let installed = write_word(
            zero_frame_of(mem, child),
            table,
            index,
            compose_word(child, PRESENT),
        );
        assert(mem.contains_key(table));
        assert(well_shaped(installed)) by {
            assert forall|x: u64| #[trigger]
                installed.contains_key(x) && installed[x].len() == 512 by {
                assert(mem.contains_key(x));
            }
        }
        lemma_create_keeps_shape(
            apply_op(frames, FrameOp::Next),
            installed,
            child,
            lower,
            page,
            target,
        );
    }
}

/// The huge bit. The entry that `map` writes holds the frame and exactly
/// the attributes given, and `HUGE` as well whenever it stands above the
/// lowest level; on the lowest level it holds `HUGE` only if the attributes
/// given did.
pub proof fn lemma_map_sets_huge_above_lowest(
    frames: Seq<FrameType>,
    mem: MemoryView,
    root: u64,
    page: u64,
    target: u8,
    frame: u64,
    lock_frame: bool,
    attributes: u64,
)
    requires
        well_shaped(mem),
        is_frame_address(frame),
        is_attribute_bits(attributes),
        map_outcome(frames, mem, root, page, target, frame, lock_frame, attributes).result.is_ok(),
    ensures
        ({
            let mapped = map_outcome(
                frames,
                mem,
                root,
                page,
                target,
                frame,
                lock_frame,
                attributes,
            );
            let locked = if lock_frame {
                apply_op(frames, FrameOp::Lock(frame as int / PAGE_SIZE as int))
            } else {
                frames
            };
            let slot = walk_create(locked, mem, root, DEPTH_MAX, page, target).result.unwrap();
            let entry = read_word(mapped.mem, slot.table, slot.index);
            &&& entry == leaf_word(frame, leaf_attributes(attributes, target))
            &&& word_frame(entry) == frame
            &&& word_attributes(entry) == leaf_attributes(attributes, target)
            &&& target > DEPTH_MIN ==> word_attributes(entry) & HUGE == HUGE
            &&& target <= DEPTH_MIN ==> (word_attributes(entry) & HUGE == HUGE) == (attributes
                & HUGE == HUGE)
        }),
{
    let locked = if lock_frame {
        apply_op(frames, FrameOp::Lock(frame as int / PAGE_SIZE as int))
    } else {
        frames
    };
    lemma_create_keeps_shape(locked, mem, root, DEPTH_MAX, page, target);
    let walked = walk_create(locked, mem, root, DEPTH_MAX, page, target);
    let slot = walked.result.unwrap();
    assert(walked.mem.contains_key(slot.table));
    let bits = leaf_attributes(attributes, target);
    lemma_flags_are_attribute_bits();
    lemma_leaf_word(frame, bits);
    if target > DEPTH_MIN {
        assert((attributes | HUGE) & HUGE == HUGE);
    }
}

/// The way of every page through a root table that is held and holds only
/// zeroes is sound.
pub proof fn lemma_fresh_root_is_proper(
    frames: Seq<FrameType>,
    mem: MemoryView,
    root: u64,
    page: u64,
    target: u8,
)
    requires
        held(frames, root),
        mem[root] == zero_table(),
    ensures
        proper_path(frames, mem, root, DEPTH_MAX, page, target, Set::empty()),
{
    lemma_link_word(0);
}

} // verus!
