//! One level of the page-table hierarchy, and the walks down from it.
//!
//! A [`PageTable`] is a view, not a container: it names the frame that holds
//! 512 entries and says at which depth those entries stand. Going down one
//! level is a step from one such pair to the next, through the entry that a
//! page selects.

use crate::address::{table_index_of, Frame, Page, PageDepth, DEPTH_MIN, PAGE_SIZE, TABLE_ENTRIES};
use crate::frame_manager::{apply_op, first_usable, op_succeeds, FrameManager, FrameOp};
use crate::memory_map::FrameType;
use crate::paging::{
    compose_word, lemma_flags_are_attribute_bits, word_frame, word_huge, word_is_table,
    word_occupied, PageAttributes, PageTableEntry, PagingError, PRESENT,
};
use crate::physical_memory::{read_word, write_word, zero_frame_of, MemoryView, PhysicalMemory};
use vstd::prelude::*;

verus! {

/// Where a walk ended: a slot of a table, and the word found in it.
pub struct SlotView {
    /// Address of the frame that holds the table.
    pub table: u64,
    /// Index of the slot in the table.
    pub index: int,
    /// Level of the table.
    pub level: u8,
    /// The word in the slot.
    pub word: u64,
}

/// A slot of a page table that a walk has reached.
#[derive(Clone, Copy, Debug)]
pub struct EntrySlot {
    table: Frame,
    index: usize,
    depth: PageDepth,
    entry: PageTableEntry,
}

impl View for EntrySlot {
    type V = SlotView;

    closed spec fn view(&self) -> SlotView {
        SlotView {
            table: self.table@,
            index: self.index as int,
            level: self.depth@,
            word: self.entry@,
        }
    }
}

impl EntrySlot {
    #[verifier::type_invariant]
    spec fn inside_table(self) -> bool {
        self.index < TABLE_ENTRIES
    }

    /// The frame that holds the table of the slot.
    pub fn table(&self) -> (result: Frame)
        ensures
            result@ == self@.table,
    {
        self.table
    }

    /// The index of the slot in its table.
    pub fn index(&self) -> (result: usize)
        ensures
            result == self@.index,
            result < TABLE_ENTRIES,
    {
        proof {
            use_type_invariant(self);
        }
        self.index
    }

    /// The depth of the table of the slot.
    pub fn depth(&self) -> (result: PageDepth)
        ensures
            result@ == self@.level,
    {
        self.depth
    }

    /// The entry that the walk found in the slot.
    pub fn entry(&self) -> (result: PageTableEntry)
        ensures
            result@ == self@.word,
    {
        self.entry
    }

    /// Writes `entry` into the slot.
    pub fn store(&self, mem: &mut PhysicalMemory, entry: PageTableEntry)
        ensures
            final(mem)@ == write_word(old(mem)@, self@.table, self@.index, entry@),
    {
        proof {
            use_type_invariant(self);
        }
        mem.write(self.table, self.index, entry.raw());
    }
}

/// The depth that a walk is asked to reach, as a number; `None` stands for
/// the natural leaf.
pub open spec fn depth_view(depth: Option<PageDepth>) -> Option<u8> {
    match depth {
        Some(depth) => Some(depth@),
        None => None,
    }
}

/// What a walk returned, with the slot as plain values.
pub open spec fn slot_result_view(result: Result<EntrySlot, PagingError>) -> Result<
    SlotView,
    PagingError,
> {
    match result {
        Ok(slot) => Ok(slot@),
        Err(error) => Err(error),
    }
}

/// Whether a walk that stands at `level` has arrived: at the requested
/// level, or at the lowest level if none was requested.
pub open spec fn at_target(level: u8, target: Option<u8>) -> bool {
    match target {
        Some(wanted) => wanted == level,
        None => level == DEPTH_MIN,
    }
}

/// The walk that only reads. It starts in the table at `table` of level
/// `level` and follows the entries that `page` selects.
///
/// - On arrival, it returns the slot if its entry is taken (present, or
///   marked as mapping a page), and `NotMapped` if it is not.
/// - Above the target, an entry that is present and not huge is followed
///   to the next table. A taken entry that maps a huge page ends the walk
///   early: that slot is returned. Any other entry ends it with `NotMapped`.
/// - A walk that reaches the lowest level without arriving, because the
///   requested level lies above its start, ends with `WalkInterrupted`.
pub open spec fn walk(mem: MemoryView, table: u64, level: u8, page: u64, target: Option<u8>) -> Result<
    SlotView,
    PagingError,
>
    decreases level,
{
    let index = table_index_of(page, level);
    let word = read_word(mem, table, index);
    let slot = SlotView { table, index, level, word };
    if at_target(level, target) {
        if word_occupied(word) {
            Ok(slot)
        } else {
            Err(PagingError::NotMapped)
        }
    } else if level <= DEPTH_MIN {
        Err(PagingError::WalkInterrupted)
    } else if word_is_table(word) {
        walk(mem, word_frame(word), (level - 1) as u8, page, target)
    } else if word_occupied(word) && word_huge(word) {
        Ok(slot)
    } else {
        Err(PagingError::NotMapped)
    }
}

/// The frame table, the memory and the result that a creating walk leaves.
pub struct CreateOutcome {
    pub frames: Seq<FrameType>,
    pub mem: MemoryView,
    pub result: Result<SlotView, PagingError>,
}

/// The walk that creates what is missing. It starts in the table at `table`
/// of level `level` and goes down to level `target`.
///
/// - On arrival it returns the slot, whatever its entry holds.
/// - Above the target, an entry that is present and not huge is followed
///   to the next table. Any other entry that is taken, such as one that maps
///   a huge page, ends the walk with `WalkInterrupted`, and nothing is
///   changed at it.
/// - Above the target, an entry that is not taken is replaced: the first
///   usable frame is locked, filled with zeroes and installed as a present
///   entry, and the walk goes on in it. With no usable frame the walk ends
///   with `AllocError`; tables created before that stay.
/// - A walk that cannot arrive, because the target lies above its start, ends
///   with `WalkInterrupted`.
pub open spec fn walk_create(
    frames: Seq<FrameType>,
    mem: MemoryView,
    table: u64,
    level: u8,
    page: u64,
    target: u8,
) -> CreateOutcome
    decreases level,
{
    let index = table_index_of(page, level);
    let word = read_word(mem, table, index);
    if level == target {
        CreateOutcome { frames, mem, result: Ok(SlotView { table, index, level, word }) }
    } else if level <= DEPTH_MIN {
        CreateOutcome { frames, mem, result: Err(PagingError::WalkInterrupted) }
    } else if word_is_table(word) {
        walk_create(frames, mem, word_frame(word), (level - 1) as u8, page, target)
    } else if word_occupied(word) {
        CreateOutcome { frames, mem, result: Err(PagingError::WalkInterrupted) }
    } else if !op_succeeds(frames, FrameOp::Next) {
        CreateOutcome { frames, mem, result: Err(PagingError::AllocError) }
    } else {
        let child = (first_usable(frames) * PAGE_SIZE) as u64;
        let cleared = zero_frame_of(mem, child);
        let installed = write_word(cleared, table, index, compose_word(child, PRESENT));
        walk_create(
            apply_op(frames, FrameOp::Next),
            installed,
            child,
            (level - 1) as u8,
            page,
            target,
        )
    }
}

/// One page table: the frame that holds it and the depth at which it stands.
#[derive(Clone, Copy, Debug)]
pub struct PageTable {
    /// The frame that holds the 512 entries.
    pub frame: Frame,
    /// The depth of the table.
    pub depth: PageDepth,
}

impl PageTable {
    /// The table of the given depth that `entry` points at, if the entry can
    /// be followed: present and not mapping a huge page.
    pub fn new(depth: PageDepth, entry: &PageTableEntry) -> (result: Option<PageTable>)
        ensures
            result.is_some() <==> word_is_table(entry@),
            result.is_some() ==> result.unwrap().frame@ == word_frame(entry@)
                && result.unwrap().depth == depth,
    {
        if entry.is_present() && !entry.is_huge() {
            Some(PageTable { frame: entry.get_frame(), depth })
        } else {
            None
        }
    }

    /// The entry that `page` selects in this table.
    pub fn get_entry(&self, mem: &PhysicalMemory, page: Page) -> (result: PageTableEntry)
        ensures
            result@ == read_word(mem@, self.frame@, table_index_of(page@, self.depth@)),
    {
        let index: usize = page.table_index(self.depth);
        PageTableEntry::from_raw(mem.read(self.frame, index))
    }

    /// Replaces the entry that `page` selects in this table.
    pub fn set_entry(&self, mem: &mut PhysicalMemory, page: Page, entry: PageTableEntry)
        ensures
            final(mem)@ == write_word(
                old(mem)@,
                self.frame@,
                table_index_of(page@, self.depth@),
                entry@,
            ),
    {
        let index: usize = page.table_index(self.depth);
        mem.write(self.frame, index, entry.raw());
    }

    /// Walks from this table towards the entry of `page` at depth
    /// `to_depth`, or at its natural leaf if no depth is given, without
    /// changing anything. See [`walk`] for where the walk ends.
    pub fn with_entry(&self, mem: &PhysicalMemory, page: Page, to_depth: Option<PageDepth>) -> (result:
        Result<EntrySlot, PagingError>)
        ensures
            slot_result_view(result) == walk(
                mem@,
                self.frame@,
                self.depth@,
                page@,
                depth_view(to_depth),
            ),
        decreases self.depth@,
    {
        let index: usize = page.table_index(self.depth);
        let entry = PageTableEntry::from_raw(mem.read(self.frame, index));
        let level: u8 = self.depth.get();
        let slot = EntrySlot { table: self.frame, index, depth: self.depth, entry };
        let arrived: bool = match to_depth {
            Some(wanted) => wanted.get() == level,
            None => level == DEPTH_MIN,
        };
        if arrived {
            if entry.is_occupied() {
                Ok(slot)
            } else {
                Err(PagingError::NotMapped)
            }
        } else {
            match self.depth.next() {
                None => Err(PagingError::WalkInterrupted),
                Some(lower) => {
                    if entry.is_present() && !entry.is_huge() {
                        let child = PageTable { frame: entry.get_frame(), depth: lower };
                        child.with_entry(mem, page, to_depth)
                    } else if entry.is_occupied() && entry.is_huge() {
                        Ok(slot)
                    } else {
                        Err(PagingError::NotMapped)
                    }
                },
            }
        }
    }

    /// Walks from this table down to the entry of `page` at depth
    /// `to_depth`, and creates every table that is missing on the way from
    /// frames of the physical memory manager. See [`walk_create`] for what
    /// the walk changes and where it ends.
    pub fn with_entry_create(
        &self,
        pmm: &mut FrameManager,
        mem: &mut PhysicalMemory,
        page: Page,
        to_depth: PageDepth,
    ) -> (result: Result<EntrySlot, PagingError>)
        ensures
            ({
                let outcome = walk_create(
                    old(pmm)@,
                    old(mem)@,
                    self.frame@,
                    self.depth@,
                    page@,
                    to_depth@,
                );
                &&& final(pmm)@ == outcome.frames
                &&& final(mem)@ == outcome.mem
                &&& slot_result_view(result) == outcome.result
            }),
        decreases self.depth@,
    {
        let index: usize = page.table_index(self.depth);
        let entry = PageTableEntry::from_raw(mem.read(self.frame, index));
        let level: u8 = self.depth.get();
        if to_depth.get() == level {
            return Ok(EntrySlot { table: self.frame, index, depth: self.depth, entry });
        }
        match self.depth.next() {
            None => Err(PagingError::WalkInterrupted),
            Some(lower) => {
                if entry.is_present() && !entry.is_huge() {
                    let child = PageTable { frame: entry.get_frame(), depth: lower };
                    child.with_entry_create(pmm, mem, page, to_depth)
                } else if entry.is_occupied() {
                    Err(PagingError::WalkInterrupted)
                } else {
                    match pmm.next_frame() {
                        Err(_) => Err(PagingError::AllocError),
                        Ok(frame) => {
                            proof {
                                lemma_flags_are_attribute_bits();
                            }
                            mem.zero_frame(frame);
                            let link = PageTableEntry::new(
                                frame,
                                PageAttributes::from_bits_truncate(PRESENT),
                            );
                            mem.write(self.frame, index, link.raw());
                            let child = PageTable { frame, depth: lower };
                            child.with_entry_create(pmm, mem, page, to_depth)
                        },
                    }
                }
            },
        }
    }
}

} // verus!
