//! The one frame manager of the kernel, set up once at boot.

use crate::address::{Frame, PAGE_SIZE};
use crate::frame_manager::{
    apply_op, count_of, first_usable, op_succeeds, FrameManager, FrameOp,
};
use crate::memory_map::{class_at, consistent, frame_count, FrameType, MemoryDescriptor};
use vstd::prelude::*;
use x86_64::VirtAddr;

verus! {

/// First address above the address space that the kernel counts down from.
pub const ADDRESS_SPACE_TOP: u64 = 0x1_0000_0000_0000;

/// The canonical form of a virtual address: bit 47 repeated in the bits
/// above it. An address that holds other data in those bits has none.
pub open spec fn canonical_address(addr: u64) -> Option<u64> {
    if addr < 0x8000_0000_0000 || addr >= 0xFFFF_8000_0000_0000 {
        Some(addr)
    } else if addr < 0x1_0000_0000_0000 {
        Some((addr + 0xFFFF_0000_0000_0000) as u64)
    } else {
        None
    }
}

/// Calls `VirtAddr::try_new` of `x86_64`. Trusted: an address whose bits 47
/// to 63 are all zero or all one comes back unchanged; one with bit 47 set
/// and the bits above it clear comes back with those bits set; any other is
/// refused.
#[verifier::external_body]
pub(crate) fn virtual_address(addr: u64) -> (result: Option<u64>)
    ensures
        result == canonical_address(addr),
{
    match VirtAddr::try_new(addr) {
        Ok(valid) => Some(valid.as_u64()),
        Err(_) => None,
    }
}

/// The holder of the kernel's frame manager.
pub struct GlobalMemory {
    frame_allocator: Option<FrameManager>,
}

impl GlobalMemory {
    /// Whether the frame manager was set.
    pub closed spec fn configured(&self) -> bool {
        self.frame_allocator.is_some()
    }

    /// The frame table of the manager.
    pub closed spec fn table(&self) -> Seq<FrameType> {
        self.frame_allocator.unwrap()@
    }

    /// A holder without a frame manager.
    pub fn new() -> (result: GlobalMemory)
        ensures
            !result.configured(),
    {
        GlobalMemory { frame_allocator: None }
    }

    /// Sets the frame manager. It can be set once only.
    pub fn set_allocator(&mut self, frame_allocator: FrameManager)
        requires
            !old(self).configured(),
        ensures
            final(self).configured(),
            final(self).table() == frame_allocator@,
    {
        self.frame_allocator = Some(frame_allocator);
    }
}

/// Builds the frame manager for the memory map and sets it.
pub fn init_global_memory(memory: &mut GlobalMemory, memory_map: &Vec<MemoryDescriptor>)
    requires
        !old(memory).configured(),
        consistent(memory_map@),
        frame_count(memory_map@) <= usize::MAX,
    ensures
        final(memory).configured(),
        final(memory).table().len() == frame_count(memory_map@),
        forall|index: int|
            0 <= index < final(memory).table().len() ==> final(memory).table()[index] == class_at(
                memory_map@,
                index,
            ),
{
    memory.set_allocator(FrameManager::initialize(memory_map));
}

/// The frame manager.
pub fn global_memory(memory: &GlobalMemory) -> (result: &FrameManager)
    requires
        memory.configured(),
    ensures
        result@ == memory.table(),
{
    memory.frame_allocator.as_ref().unwrap()
}

/// Locks `frame`; a frame that is not usable stays as it is.
pub fn global_lock(memory: &mut GlobalMemory, frame: Frame)
    requires
        old(memory).configured(),
    ensures
        final(memory).configured(),
        final(memory).table() == apply_op(
            old(memory).table(),
            FrameOp::Lock(frame@ as int / PAGE_SIZE as int),
        ),
{
    match &mut memory.frame_allocator {
        Some(manager) => {
            let _ = manager.lock_frame(frame);
        },
        None => {},
    }
}

/// Frees `frame`; a frame that is not in use stays as it is.
pub fn global_free(memory: &mut GlobalMemory, frame: Frame)
    requires
        old(memory).configured(),
    ensures
        final(memory).configured(),
        final(memory).table() == apply_op(
            old(memory).table(),
            FrameOp::Free(frame@ as int / PAGE_SIZE as int),
        ),
{
    match &mut memory.frame_allocator {
        Some(manager) => {
            let _ = manager.free_frame(frame);
        },
        None => {},
    }
}

/// Locks the first usable frame and returns it, if there is one.
pub fn global_lock_next(memory: &mut GlobalMemory) -> (result: Option<Frame>)
    requires
        old(memory).configured(),
    ensures
        final(memory).configured(),
        final(memory).table() == apply_op(old(memory).table(), FrameOp::Next),
        result.is_some() == op_succeeds(old(memory).table(), FrameOp::Next),
        result.is_some() ==> result.unwrap()@ == first_usable(old(memory).table()) * PAGE_SIZE,
{
    match &mut memory.frame_allocator {
        Some(manager) => match manager.next_frame() {
            Ok(frame) => Some(frame),
            Err(_) => None,
        },
        None => None,
    }
}

/// Bytes of memory that the frame manager covers.
pub fn global_total(memory: &GlobalMemory) -> (result: u64)
    requires
        memory.configured(),
    ensures
        result == memory.table().len() * PAGE_SIZE,
{
    global_memory(memory).total_memory()
}

/// Bytes of memory in use.
pub fn global_locked(memory: &GlobalMemory) -> (result: u64)
    requires
        memory.configured(),
    ensures
        result == count_of(memory.table(), FrameType::Generic) * PAGE_SIZE,
{
    global_memory(memory).locked_memory()
}

/// Bytes of memory free for allocation.
pub fn global_freed(memory: &GlobalMemory) -> (result: u64)
    requires
        memory.configured(),
    ensures
        result == count_of(memory.table(), FrameType::Usable) * PAGE_SIZE,
{
    global_memory(memory).free_memory()
}

/// Bytes of memory kept by firmware or platform.
pub fn global_reserved(memory: &GlobalMemory) -> (result: u64)
    requires
        memory.configured(),
    ensures
        result == count_of(memory.table(), FrameType::Reserved) * PAGE_SIZE,
{
    global_memory(memory).reserved_memory()
}

/// The address at which memory of the size that the frame manager covers
/// ends at the top of the address space, in canonical form. Nothing if the
/// memory is larger than the address space or the address has no canonical
/// form.
pub fn global_top_offset(memory: &GlobalMemory) -> (result: Option<u64>)
    requires
        memory.configured(),
    ensures
        result == if memory.table().len() * PAGE_SIZE <= ADDRESS_SPACE_TOP {
            canonical_address((ADDRESS_SPACE_TOP - memory.table().len() * PAGE_SIZE) as u64)
        } else {
            None::<u64>
        },
{
    let total: u64 = global_total(memory);
    if total <= ADDRESS_SPACE_TOP {
        virtual_address(ADDRESS_SPACE_TOP - total)
    } else {
        None
    }
}

} // verus!
