//! The contents of the frames that hold page tables.
//!
//! Page tables live in physical memory. This module keeps the words of every
//! frame that was written, and reads every other frame as zeroes: memory as
//! it is after a reset. The page-table code reaches memory only through the
//! three operations here.

use crate::address::{Frame, TABLE_ENTRIES};
use std::collections::HashMap;
use vstd::prelude::*;

verus! {

/// The contents of memory: for every frame address, the 512 words of the frame.
pub type MemoryView = Map<u64, Seq<u64>>;

/// The words of a frame that holds only zeroes.
pub open spec fn zero_table() -> Seq<u64> {
    Seq::new(TABLE_ENTRIES as nat, |i: int| 0u64)
}

/// Memory in which every frame holds only zeroes.
pub open spec fn zeroed_memory() -> MemoryView {
    Map::total(|frame: u64| zero_table())
}

/// The word in slot `index` of the frame at `frame`.
pub open spec fn read_word(mem: MemoryView, frame: u64, index: int) -> u64 {
    mem[frame][index]
}

/// Memory after one word was written.
pub open spec fn write_word(mem: MemoryView, frame: u64, index: int, word: u64) -> MemoryView {
    mem.insert(frame, mem[frame].update(index, word))
}

/// Memory after one frame was filled with zeroes.
pub open spec fn zero_frame_of(mem: MemoryView, frame: u64) -> MemoryView {
    mem.insert(frame, zero_table())
}

/// Whether memory has 512 words for every frame address.
pub open spec fn well_shaped(mem: MemoryView) -> bool {
    forall|frame: u64| #[trigger] mem.contains_key(frame) && mem[frame].len() == TABLE_ENTRIES
}

/// The memory that page tables are kept in.
pub struct PhysicalMemory {
    tables: HashMap<u64, Vec<u64>>,
}

impl View for PhysicalMemory {
    type V = MemoryView;

    /// The words of every frame; a frame that was never written holds zeroes.
    closed spec fn view(&self) -> MemoryView {
        Map::total(
            |frame: u64|
                Seq::new(
                    TABLE_ENTRIES as nat,
                    |i: int|
                        if self.tables@.contains_key(frame) && i < self.tables@[frame]@.len() {
                            self.tables@[frame]@[i]
                        } else {
                            0u64
                        },
                ),
        )
    }
}

impl PhysicalMemory {
    #[verifier::type_invariant]
    spec fn whole_tables(self) -> bool {
        forall|frame: u64| #[trigger]
            self.tables@.contains_key(frame) ==> self.tables@[frame]@.len() == TABLE_ENTRIES
    }

    /// Memory has 512 words for every frame address.
    pub proof fn lemma_well_shaped(&self)
        ensures
            well_shaped(self@),
    {
    }

    /// Memory in which every frame holds only zeroes.
    pub fn new() -> (result: PhysicalMemory)
        ensures
            result@ == zeroed_memory(),
    {
        let result = PhysicalMemory { tables: HashMap::new() };
        assert(result@ =~~= zeroed_memory());
        result
    }

    /// The word in slot `index` of `frame`.
    pub fn read(&self, frame: Frame, index: usize) -> (result: u64)
        requires
            index < TABLE_ENTRIES,
        ensures
            result == read_word(self@, frame@, index as int),
    {
        proof {
            use_type_invariant(self);
        }
        let key: u64 = frame.get();
        match self.tables.get(&key) {
            Some(table) => table[index],
            None => 0,
        }
    }

    /// Writes `word` into slot `index` of `frame`.
    pub fn write(&mut self, frame: Frame, index: usize, word: u64)
        requires
            index < TABLE_ENTRIES,
        ensures
            final(self)@ == write_word(old(self)@, frame@, index as int, word),
    {
        proof {
            use_type_invariant(&*self);
        }
        let key: u64 = frame.get();
        let mut taken = PhysicalMemory { tables: HashMap::new() };
        core::mem::swap(self, &mut taken);
        let mut tables = taken.tables;
        let mut table: Vec<u64> = match tables.remove(&key) {
            Some(stored) => stored,
            None => zeroed_vec(),
        };
        table.set(index, word);
        tables.insert(key, table);
        *self = PhysicalMemory { tables };
        assert(self@ =~~= write_word(old(self)@, frame@, index as int, word));
    }

    /// Fills `frame` with zeroes.
    pub fn zero_frame(&mut self, frame: Frame)
        ensures
            final(self)@ == zero_frame_of(old(self)@, frame@),
    {
        proof {
            use_type_invariant(&*self);
        }
        let key: u64 = frame.get();
        let mut taken = PhysicalMemory { tables: HashMap::new() };
        core::mem::swap(self, &mut taken);
        let mut tables = taken.tables;
        tables.remove(&key);
        *self = PhysicalMemory { tables };
        assert(self@ =~~= zero_frame_of(old(self)@, frame@));
    }
}

fn zeroed_vec() -> (result: Vec<u64>)
    ensures
        result@ == zero_table(),
{
    let mut table: Vec<u64> = Vec::new();
    let mut filled: usize = 0;
    while filled < TABLE_ENTRIES
        invariant
            filled <= TABLE_ENTRIES,
            table@.len() == filled,
            forall|i: int| 0 <= i < filled ==> table@[i] == 0,
        decreases TABLE_ENTRIES - filled,
    {
        table.push(0);
        filled += 1;
    }
    assert(table@ =~= zero_table());
    table
}

} // verus!
