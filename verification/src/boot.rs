//! What the kernel takes over from the loader: the memory map, and the
//! memory that the loader used for itself.

use crate::address::Frame;
use crate::frame_manager::FrameManager;
use crate::memory_map::{consistent, FrameType, MemoryDescriptor};
use vstd::prelude::*;

verus! {

/// Revision of the boot protocol that the kernel asks for.
pub const LIMINE_REV: u64 = 0;

/// Whether frame `index` lies in a region that the loader used for itself.
pub open spec fn in_loader_region(map: Seq<MemoryDescriptor>, index: int) -> bool {
    exists|i: int|
        0 <= i < map.len() && (#[trigger] map[i]).ty.class() == FrameType::BootReclaim
            && map[i].covers(index)
}

/// The state of frame `index` after the loader's memory was claimed: a frame
/// of a loader region that was still marked as the loader's is in use now,
/// and every other frame is as it was.
pub open spec fn reclaimed_state(
    map: Seq<MemoryDescriptor>,
    table: Seq<FrameType>,
    index: int,
) -> FrameType {
    if table[index] == FrameType::BootReclaim && in_loader_region(map, index) {
        FrameType::Generic
    } else {
        table[index]
    }
}

/// The lower of an address and the same address less an offset, the
/// subtraction wrapping round.
pub open spec fn lower_half_address(address: u64, offset: u64) -> u64 {
    let moved: u64 = if address >= offset {
        (address - offset) as u64
    } else {
        (address + 0x1_0000_0000_0000_0000 - offset) as u64
    };
    if address <= moved {
        address
    } else {
        moved
    }
}

/// The data of the loader, which may be read until its memory is claimed.
pub struct BootData {
    memory_map: Vec<MemoryDescriptor>,
    reclaimed: bool,
}

impl BootData {
    /// The memory map that the loader handed over.
    pub closed spec fn map(&self) -> Seq<MemoryDescriptor> {
        self.memory_map@
    }

    /// Whether the loader's memory was claimed.
    pub closed spec fn is_reclaimed(&self) -> bool {
        self.reclaimed
    }

    /// The data of the loader, not yet claimed.
    pub fn new(memory_map: Vec<MemoryDescriptor>) -> (result: BootData)
        ensures
            result.map() == memory_map@,
            !result.is_reclaimed(),
    {
        BootData { memory_map, reclaimed: false }
    }

    /// The memory map, as long as the loader's memory was not claimed.
    pub fn get_memory_map(&self) -> (result: Option<&Vec<MemoryDescriptor>>)
        ensures
            result.is_some() == !self.is_reclaimed(),
            result.is_some() ==> result.unwrap()@ == self.map(),
    {
        if self.reclaimed {
            None
        } else {
            Some(&self.memory_map)
        }
    }

    /// The address of the root table of the platform description, as long
    /// as the loader's memory was not claimed and the loader gave one. The
    /// loader may give the address as it is or moved up by `offset`, the
    /// start of the window onto physical memory: the lower of the two
    /// readings is returned.
    pub fn get_rsdp_address(&self, pointer: Option<u64>, offset: u64) -> (result: Option<u64>)
        ensures
            result == if self.is_reclaimed() {
                None::<u64>
            } else {
                match pointer {
                    Some(address) => Some(lower_half_address(address, offset)),
                    None => None::<u64>,
                }
            },
    {
        if self.reclaimed {
            return None;
        }
        match pointer {
            Some(address) => {
                let moved: u64 = address.wrapping_sub(offset);
                if address <= moved {
                    Some(address)
                } else {
                    Some(moved)
                }
            },
            None => None,
        }
    }

    /// Claims the memory that the loader used for itself: every frame of a
    /// loader region that is still marked as the loader's is taken into use.
    /// After this the loader's data cannot be read any more.
    pub fn reclaim_boot_memory(&mut self, pmm: &mut FrameManager)
        requires
            !old(self).is_reclaimed(),
            consistent(old(self).map()),
        ensures
            final(self).is_reclaimed(),
            final(self).map() == old(self).map(),
            final(pmm)@.len() == old(pmm)@.len(),
            forall|index: int|
                0 <= index < old(pmm)@.len() ==> final(pmm)@[index] == reclaimed_state(
                    old(self).map(),
                    old(pmm)@,
                    index,
                ),
    {
        let ghost map = self.memory_map@;
        let ghost start = pmm@;
        let mut number: usize = 0;
        while number < self.memory_map.len()
            invariant
                number <= self.memory_map.len(),
                self.memory_map@ == map,
                consistent(map),
                !self.reclaimed,
                start == old(pmm)@,
                pmm@.len() == start.len(),
                forall|index: int|
                    0 <= index < start.len() ==> pmm@[index] == reclaimed_state(
                        map.take(number as int),
                        start,
                        index,
                    ),
            decreases self.memory_map.len() - number,
        {
            let region = &self.memory_map[number];
            let (first, end) = region.frame_range();
            if region.ty.frame_type() == FrameType::BootReclaim {
                let mut index: u64 = first;
                while index < end
                    invariant
                        first <= index <= end,
                        number < map.len(),
                        self.memory_map@ == map,
                        first == map[number as int].first_frame(),
                        end == map[number as int].end_frame(),
                        map[number as int].valid(),
                        map[number as int].ty.class() == FrameType::BootReclaim,
                        pmm@.len() == start.len(),
                        forall|at: int|
                            0 <= at < start.len() ==> pmm@[at] == if first <= at < index
                                && start[at] == FrameType::BootReclaim {
                                FrameType::Generic
                            } else {
                                reclaimed_state(map.take(number as int), start, at)
                            },
                    decreases end - index,
                {
                    let frame = Frame::from_index(index);
                    let ghost before = pmm@;
                    let _ = pmm.modify_type(
                        frame.unwrap(),
                        FrameType::BootReclaim,
                        FrameType::Generic,
                    );
                    proof {
                        if index < start.len() && start[index as int] != FrameType::BootReclaim {
                            assert(before[index as int] == start[index as int]);
                        }
                    }
                    index += 1;
                }
            }
            proof {
                let shorter = map.take(number as int);
                let longer = map.take(number + 1);
                assert(longer[number as int] == map[number as int]);
                assert forall|at: int| 0 <= at < start.len() implies pmm@[at] == reclaimed_state(
                    longer,
                    start,
                    at,
                ) by {
                    if in_loader_region(shorter, at) {
                        let i = choose|i: int|
                            0 <= i < shorter.len() && (#[trigger] shorter[i]).ty.class()
                                == FrameType::BootReclaim && shorter[i].covers(at);
                        assert(longer[i] == shorter[i]);
                    }
                    if in_loader_region(longer, at) {
                        let i = choose|i: int|
                            0 <= i < longer.len() && (#[trigger] longer[i]).ty.class()
                                == FrameType::BootReclaim && longer[i].covers(at);
                        if i < number {
                            assert(shorter[i] == longer[i]);
                        }
                    }
                }
            }
            number += 1;
        }
        proof {
            assert(map.take(number as int) =~= map);
        }
        self.reclaimed = true;
    }
}

} // verus!
