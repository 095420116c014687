//! The memory map that the firmware hands over at boot.
//!
//! The map is a list of regions, each with a physical start, a length in
//! pages, a type and attribute flags. The kernel reads it once, to classify
//! every frame and to choose the attributes of the first mappings.

use crate::address::{PAGE_SIZE, PHYSICAL_LIMIT};
use vstd::prelude::*;

verus! {

/// The region may be mapped uncached.
pub const MEMORY_UNCACHEABLE: u64 = 0x1;

/// The region may be mapped write-combining.
pub const MEMORY_WRITE_COMBINE: u64 = 0x2;

/// The region may be mapped write-through.
pub const MEMORY_WRITE_THROUGH: u64 = 0x4;

/// The region may be mapped write-back.
pub const MEMORY_WRITE_BACK: u64 = 0x8;

/// The region can be protected against writes.
pub const MEMORY_WRITE_PROTECT: u64 = 0x1000;

/// The region can be protected against reads.
pub const MEMORY_READ_PROTECT: u64 = 0x2000;

/// The region can be protected against instruction fetches.
pub const MEMORY_EXEC_PROTECT: u64 = 0x4000;

/// The region keeps its contents without power.
pub const MEMORY_NON_VOLATILE: u64 = 0x8000;

/// The region is read-only.
pub const MEMORY_READ_ONLY: u64 = 0x2_0000;

/// The firmware needs the region at run time.
pub const MEMORY_RUNTIME: u64 = 0x8000_0000_0000_0000;

/// What a region of the memory map holds.
#[derive(Clone, Copy, Debug, PartialEq, Eq, Structural)]
pub enum MemoryType {
    Reserved,
    LoaderCode,
    LoaderData,
    BootServicesCode,
    BootServicesData,
    RuntimeServicesCode,
    RuntimeServicesData,
    Conventional,
    Unusable,
    AcpiReclaim,
    AcpiNonVolatile,
    Mmio,
    MmioPortSpace,
    PalCode,
    Persistent,
    Unaccepted,
    /// The loaded kernel image.
    Kernel,
    /// The stack that the loader set up for the kernel.
    KernelStack,
    /// The memory that backs the table of frame states.
    FrameMap,
}

/// The state that a frame has in the table of the physical memory manager.
#[derive(Clone, Copy, Debug, PartialEq, Eq, Structural)]
pub enum FrameType {
    /// Free for allocation.
    Usable,
    /// Allocated and in use.
    Generic,
    /// Kept by firmware or platform; never allocated.
    Reserved,
    /// Owned by the loader during boot; the kernel may claim it afterwards.
    BootReclaim,
    /// Backs the table of frame states itself.
    FrameMap,
}

impl MemoryType {
    /// The state in which frames of a region of this type start.
    pub open spec fn class(self) -> FrameType {
        match self {
            MemoryType::Conventional => FrameType::Usable,
            MemoryType::LoaderCode
            | MemoryType::LoaderData
            | MemoryType::BootServicesCode
            | MemoryType::BootServicesData => FrameType::BootReclaim,
            MemoryType::FrameMap => FrameType::FrameMap,
            _ => FrameType::Reserved,
        }
    }

    /// The state in which frames of a region of this type start.
    pub fn frame_type(&self) -> (result: FrameType)
        ensures
            result == self.class(),
    {
        match self {
            MemoryType::Conventional => FrameType::Usable,
            MemoryType::LoaderCode
            | MemoryType::LoaderData
            | MemoryType::BootServicesCode
            | MemoryType::BootServicesData => FrameType::BootReclaim,
            MemoryType::FrameMap => FrameType::FrameMap,
            _ => FrameType::Reserved,
        }
    }
}

/// The attribute flags of a region, as the firmware reports them.
#[derive(Clone, Copy, Debug, PartialEq, Eq, Structural)]
pub struct MemoryAttributes {
    pub bits: u64,
}

impl MemoryAttributes {
    /// The flags with the given bits.
    pub fn from_bits(bits: u64) -> (result: MemoryAttributes)
        ensures
            result.bits == bits,
    {
        MemoryAttributes { bits }
    }

    /// Whether every one of the given flags is set.
    pub open spec fn has(self, flags: u64) -> bool {
        self.bits & flags == flags
    }

    /// Whether every one of the given flags is set.
    pub fn contains(&self, flags: u64) -> (result: bool)
        ensures
            result == self.has(flags),
    {
        self.bits & flags == flags
    }
}

/// One region of the memory map.
#[derive(Clone, Copy, Debug, PartialEq, Eq, Structural)]
pub struct MemoryDescriptor {
    /// What the region holds.
    pub ty: MemoryType,
    /// Physical address of the first byte.
    pub phys_start: u64,
    /// Length in pages.
    pub page_count: u64,
    /// Attribute flags.
    pub att: MemoryAttributes,
}

impl MemoryDescriptor {
    /// Whether the region starts on a frame and ends at or below the physical limit.
    pub open spec fn valid(self) -> bool {
        &&& self.phys_start % PAGE_SIZE == 0
        &&& self.phys_start + self.page_count * PAGE_SIZE <= PHYSICAL_LIMIT
    }

    /// Index of the first frame of the region.
    pub open spec fn first_frame(self) -> int {
        self.phys_start as int / PAGE_SIZE as int
    }

    /// Index of the first frame behind the region.
    pub open spec fn end_frame(self) -> int {
        self.first_frame() + self.page_count
    }

    /// Whether frame `index` lies in the region.
    pub open spec fn covers(self, index: int) -> bool {
        self.first_frame() <= index < self.end_frame()
    }

    /// Whether the region must never be handed out by the allocator, neither
    /// now nor after boot.
    pub open spec fn reserved(self) -> bool {
        self.ty.class() == FrameType::Reserved || self.ty.class() == FrameType::FrameMap
    }

    /// Whether the region starts on a frame and ends at or below the physical limit.
    pub fn is_valid(&self) -> (result: bool)
        ensures
            result == self.valid(),
    {
        self.phys_start % PAGE_SIZE == 0 && self.phys_start <= PHYSICAL_LIMIT && self.page_count
            <= (PHYSICAL_LIMIT - self.phys_start) / PAGE_SIZE
    }

    /// The frames of the region: the index of the first, and of the first behind it.
    pub fn frame_range(&self) -> (result: (u64, u64))
        requires
            self.valid(),
        ensures
            result.0 == self.first_frame(),
            result.1 == self.end_frame(),
    {
        let first: u64 = self.phys_start / PAGE_SIZE;
        (first, first + self.page_count)
    }

    /// Whether the region must never be handed out by the allocator.
    pub fn should_reserve(&self) -> (result: bool)
        ensures
            result == self.reserved(),
    {
        let class = self.ty.frame_type();
        class == FrameType::Reserved || class == FrameType::FrameMap
    }

    /// Whether the region is the stack that the loader set up for the kernel.
    pub fn is_stack_descriptor(&self) -> (result: bool)
        ensures
            result == (self.ty == MemoryType::KernelStack),
    {
        self.ty == MemoryType::KernelStack
    }
}

/// Whether a memory map can be used: every region is valid, and the regions
/// are sorted by address and do not overlap.
pub open spec fn consistent(map: Seq<MemoryDescriptor>) -> bool {
    &&& forall|i: int| 0 <= i < map.len() ==> (#[trigger] map[i]).valid()
    &&& forall|i: int, j: int|
        0 <= i < j < map.len() ==> (#[trigger] map[i]).end_frame() <= (#[trigger] map[j]).first_frame()
}

/// Number of frames from address zero to the end of the last region.
pub open spec fn frame_count(map: Seq<MemoryDescriptor>) -> int {
    if map.len() == 0 {
        0
    } else {
        map.last().end_frame()
    }
}

/// The state in which frame `index` starts under the given map: the class of
/// the region that covers it, and `Reserved` in a hole between regions.
pub open spec fn class_at(map: Seq<MemoryDescriptor>, index: int) -> FrameType
    decreases map.len(),
{
    if map.len() == 0 {
        FrameType::Reserved
    } else if map.last().covers(index) {
        map.last().ty.class()
    } else {
        class_at(map.drop_last(), index)
    }
}

/// In a consistent map a frame has the class of whichever region covers it.
pub proof fn lemma_class_of_covering_region(map: Seq<MemoryDescriptor>, i: int, index: int)
    requires
        consistent(map),
        0 <= i < map.len(),
        map[i].covers(index),
    ensures
        class_at(map, index) == map[i].ty.class(),
    decreases map.len(),
{
    if i == map.len() - 1 {
    } else {
        assert(map[i].end_frame() <= map.last().first_frame());
        let shorter = map.drop_last();
        assert(consistent(shorter)) by {
            assert forall|a: int| 0 <= a < shorter.len() implies (#[trigger] shorter[a]).valid() by {
                assert(shorter[a] == map[a]);
            }
            assert forall|a: int, b: int| 0 <= a < b < shorter.len() implies (
            #[trigger] shorter[a]).end_frame() <= (#[trigger] shorter[b]).first_frame() by {
                assert(shorter[a] == map[a]);
                assert(shorter[b] == map[b]);
            }
        }
        assert(shorter[i] == map[i]);
        lemma_class_of_covering_region(shorter, i, index);
    }
}

/// A frame that no region covers starts as `Reserved`.
pub proof fn lemma_class_of_hole(map: Seq<MemoryDescriptor>, index: int)
    requires
        forall|i: int| 0 <= i < map.len() ==> !(#[trigger] map[i]).covers(index),
    ensures
        class_at(map, index) == FrameType::Reserved,
    decreases map.len(),
{
    if map.len() > 0 {
        assert(!map[map.len() - 1].covers(index));
        let shorter = map.drop_last();
        assert forall|i: int| 0 <= i < shorter.len() implies !(#[trigger] shorter[i]).covers(
            index,
        ) by {
            assert(shorter[i] == map[i]);
        }
        lemma_class_of_hole(shorter, index);
    }
}

/// Whether a memory map can be used: every region is valid, and the regions
/// are sorted by address and do not overlap.
pub fn is_consistent(map: &Vec<MemoryDescriptor>) -> (result: bool)
    ensures
        result == consistent(map@),
{
    let mut k: usize = 0;
    while k < map.len()
        invariant
            0 <= k <= map.len(),
            forall|i: int| 0 <= i < k ==> (#[trigger] map@[i]).valid(),
            forall|i: int, j: int|
                0 <= i < j < k ==> (#[trigger] map@[i]).end_frame() <= (
                #[trigger] map@[j]).first_frame(),
        decreases map.len() - k,
    {
        let current = &map[k];
        if !current.is_valid() {
            return false;
        }
        if k > 0 {
            let previous = &map[k - 1];
            let (_, previous_end) = previous.frame_range();
            let (current_first, _) = current.frame_range();
            if previous_end > current_first {
                assert(!(map@[k - 1].end_frame() <= map@[k as int].first_frame()));
                return false;
            }
            assert forall|i: int| 0 <= i < k implies (#[trigger] map@[i]).end_frame()
                <= map@[k as int].first_frame() by {
                if i < k - 1 {
                    assert(map@[i].end_frame() <= map@[k - 1].first_frame());
                }
            }
        }
        k += 1;
    }
    true
}

} // verus!
