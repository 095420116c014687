//! What the kernel works out from the memory map before the frame table
//! exists: how much memory there is, where the table can stand, and where
//! the loader put the kernel's stack.

use crate::address::{Frame, PAGE_SIZE, PHYSICAL_LIMIT};
use crate::frame_manager::{apply_op, op_succeeds, FrameError, FrameManager, FrameOp};
use crate::memory_map::{consistent, FrameType, MemoryDescriptor, MemoryType};
use vstd::prelude::*;

verus! {

/// Bytes that the frame table needs for the state of one frame.
pub const FRAME_STATE_SIZE: u64 = 1;

/// Frames that a table for `total_memory` bytes of memory takes up.
pub open spec fn frame_count_hint_of(total_memory: u64) -> int {
    (total_memory / PAGE_SIZE * FRAME_STATE_SIZE + PAGE_SIZE - 1) / PAGE_SIZE as int
}

/// Frames that a table for `total_memory` bytes of memory takes up.
pub fn frame_count_hint(total_memory: u64) -> (result: u64)
    ensures
        result == frame_count_hint_of(total_memory),
{
    (total_memory / PAGE_SIZE * FRAME_STATE_SIZE + (PAGE_SIZE - 1)) / PAGE_SIZE
}

/// Number of the region that ends the memory the allocator manages: among
/// the first `upto` regions, the last of those with the highest start that
/// are not reserved; -1 if all are reserved.
pub open spec fn highest_managed(map: Seq<MemoryDescriptor>, upto: int) -> int
    decreases upto,
{
    if upto <= 0 {
        -1
    } else {
        let before = highest_managed(map, upto - 1);
        let region = map[upto - 1];
        if !region.reserved() && (before < 0 || map[before].phys_start <= region.phys_start) {
            upto - 1
        } else {
            before
        }
    }
}

/// Bytes in the first `upto` regions that are not reserved.
pub open spec fn managed_bytes(map: Seq<MemoryDescriptor>, upto: int) -> int
    decreases upto,
{
    if upto <= 0 {
        0
    } else {
        managed_bytes(map, upto - 1) + if map[upto - 1].reserved() {
            0
        } else {
            map[upto - 1].page_count * PAGE_SIZE
        }
    }
}

/// Number of the first region from `from` on that is conventional memory of
/// at least `frames` pages; the length of the map if there is none.
pub open spec fn first_fitting(map: Seq<MemoryDescriptor>, from: int, frames: int) -> int
    decreases map.len() - from,
{
    if from < 0 || from >= map.len() {
        map.len() as int
    } else if map[from].ty == MemoryType::Conventional && map[from].page_count >= frames {
        from
    } else {
        first_fitting(map, from + 1, frames)
    }
}

/// Where the frame table goes and how much memory it covers.
#[derive(Clone, Copy, Debug, PartialEq, Eq, Structural)]
pub struct TablePlacement {
    /// Bytes from address zero to the end of the managed memory.
    pub total_memory: u64,
    /// Bytes of memory in regions that are not reserved.
    pub managed_memory: u64,
    /// Frames that the table takes up.
    pub table_frames: u64,
    /// Physical address at which the table starts.
    pub table_start: u64,
}

/// Works out where the frame table goes. The table covers memory up to the
/// end of the highest region that is not reserved, and stands at the start
/// of the first region of conventional memory that is large enough for it.
/// Returns nothing if every region is reserved or no region is large enough.
pub fn init_falloc(memory_map: &Vec<MemoryDescriptor>) -> (result: Option<TablePlacement>)
    requires
        consistent(memory_map@),
    ensures
        ({
            let map = memory_map@;
            let top = highest_managed(map, map.len() as int);
            let total = (map[top].phys_start + map[top].page_count * PAGE_SIZE) as u64;
            let frames = frame_count_hint_of(total);
            let place = first_fitting(map, 0, frames);
            &&& result.is_some() <==> top >= 0 && place < map.len()
            &&& result.is_some() ==> result.unwrap() == (TablePlacement {
                total_memory: total,
                managed_memory: managed_bytes(map, map.len() as int) as u64,
                table_frames: frames as u64,
                table_start: map[place].phys_start,
            })
        }),
{
    let count: usize = memory_map.len();
    let mut top: Option<usize> = None;
    let mut managed: u64 = 0;
    let mut number: usize = 0;
    while number < count
        invariant
            number <= count,
            count == memory_map@.len(),
            consistent(memory_map@),
            match top {
                Some(found) => found == highest_managed(memory_map@, number as int) && found
                    < number,
                None => highest_managed(memory_map@, number as int) == -1,
            },
            managed == managed_bytes(memory_map@, number as int),
            number > 0 ==> managed <= memory_map@[number - 1].end_frame() * PAGE_SIZE,
            number == 0 ==> managed == 0,
        decreases count - number,
    {
        let region = &memory_map[number];
        proof {
            if number > 0 {
                assert(memory_map@[number - 1].end_frame() <= memory_map@[number as int].first_frame());
            }
            assert(region.valid());
        }
        if !region.should_reserve() {
            let higher: bool = match top {
                Some(found) => memory_map[found].phys_start <= region.phys_start,
                None => true,
            };
            if higher {
                top = Some(number);
            }
            managed = managed + region.page_count * PAGE_SIZE;
        }
        number += 1;
    }
    match top {
        None => None,
        Some(found) => {
            assert(memory_map@[found as int].valid());
            let total: u64 = memory_map[found].phys_start + memory_map[found].page_count
                * PAGE_SIZE;
            let frames: u64 = frame_count_hint(total);
            let mut place: usize = 0;
            while place < count
                invariant
                    place <= count,
                    count == memory_map@.len(),
                    found == highest_managed(memory_map@, count as int),
                    total == memory_map@[found as int].phys_start + memory_map@[found as int].page_count
                        * PAGE_SIZE,
                    frames == frame_count_hint_of(total),
                    managed == managed_bytes(memory_map@, count as int),
                    first_fitting(memory_map@, place as int, frames as int) == first_fitting(
                        memory_map@,
                        0,
                        frames as int,
                    ),
                decreases count - place,
            {
                let region = &memory_map[place];
                if region.ty == MemoryType::Conventional && region.page_count >= frames {
                    return Some(
                        TablePlacement {
                            total_memory: total,
                            managed_memory: managed,
                            table_frames: frames,
                            table_start: region.phys_start,
                        },
                    );
                }
                place += 1;
            }
            None
        },
    }
}

/// Number of stack regions among the first `upto` regions of the map.
pub open spec fn stack_regions(map: Seq<MemoryDescriptor>, upto: int) -> int
    decreases upto,
{
    if upto <= 0 {
        0
    } else {
        stack_regions(map, upto - 1) + if map[upto - 1].ty == MemoryType::KernelStack {
            1int
        } else {
            0int
        }
    }
}

/// Number of the last stack region among the first `upto` regions; -1 if
/// there is none.
pub open spec fn last_stack_region(map: Seq<MemoryDescriptor>, upto: int) -> int
    decreases upto,
{
    if upto <= 0 {
        -1
    } else if map[upto - 1].ty == MemoryType::KernelStack {
        upto - 1
    } else {
        last_stack_region(map, upto - 1)
    }
}

/// Why the kernel's stack could not be found.
#[derive(Clone, Copy, Debug, PartialEq, Eq, Structural)]
pub enum StackError {
    /// No region of the map is a stack.
    Missing,
    /// More than one region of the map is a stack.
    Multiple,
}

/// Finds the frames of the stack that the loader set up for the kernel: the
/// index of the first, and their number. The map must hold exactly one stack
/// region.
pub fn reserve_kernel_stack(memory_map: &Vec<MemoryDescriptor>) -> (result: Result<
    (u64, u64),
    StackError,
>)
    requires
        consistent(memory_map@),
    ensures
        ({
            let map = memory_map@;
            let found = stack_regions(map, map.len() as int);
            let last = last_stack_region(map, map.len() as int);
            &&& result.is_ok() <==> found == 1
            &&& result.is_ok() ==> result.unwrap() == (
                map[last].first_frame() as u64,
                map[last].page_count,
            )
            &&& found == 0 ==> result == Err::<(u64, u64), StackError>(StackError::Missing)
            &&& found > 1 ==> result == Err::<(u64, u64), StackError>(StackError::Multiple)
        }),
{
    let count: usize = memory_map.len();
    let mut stack: Option<(u64, u64)> = None;
    let mut number: usize = 0;
    while number < count
        invariant
            number <= count,
            count == memory_map@.len(),
            consistent(memory_map@),
            stack_regions(memory_map@, number as int) <= 1,
            stack_regions(memory_map@, number as int) >= 0,
            stack.is_some() <==> stack_regions(memory_map@, number as int) == 1,
            stack.is_some() ==> {
                let last = last_stack_region(memory_map@, number as int);
                0 <= last < number && stack.unwrap() == (
                    memory_map@[last].first_frame() as u64,
                    memory_map@[last].page_count,
                )
            },
        decreases count - number,
    {
        let region = &memory_map[number];
        if region.is_stack_descriptor() {
            if stack.is_some() {
                proof {
                    lemma_stack_regions_grow(memory_map@, number + 1, count as int);
                }
                return Err(StackError::Multiple);
            }
            let (first, _) = region.frame_range();
            stack = Some((first, region.page_count));
        }
        number += 1;
    }
    match stack {
        Some(frames) => Ok(frames),
        None => Err(StackError::Missing),
    }
}

/// A longer part of the map holds no fewer stack regions than a shorter one.
pub proof fn lemma_stack_regions_grow(map: Seq<MemoryDescriptor>, shorter: int, longer: int)
    requires
        shorter <= longer,
    ensures
        stack_regions(map, shorter) <= stack_regions(map, longer),
    decreases longer - shorter,
{
    if shorter < longer {
        lemma_stack_regions_grow(map, shorter, longer - 1);
    }
}

/// The frame table after the frames `first..end` were locked in rising
/// order; the first frame that cannot be locked ends the run.
pub open spec fn lock_range(table: Seq<FrameType>, first: int, end: int) -> Seq<FrameType>
    decreases end - first,
{
    if first >= end || !op_succeeds(table, FrameOp::Lock(first)) {
        table
    } else {
        lock_range(apply_op(table, FrameOp::Lock(first)), first + 1, end)
    }
}

/// Whether every frame of `first..end` can be locked, one after the other.
pub open spec fn lock_range_succeeds(table: Seq<FrameType>, first: int, end: int) -> bool
    decreases end - first,
{
    if first >= end {
        true
    } else if !op_succeeds(table, FrameOp::Lock(first)) {
        false
    } else {
        lock_range_succeeds(apply_op(table, FrameOp::Lock(first)), first + 1, end)
    }
}

/// Whole frames that a table of `entry_count` entries of `entry_size`
/// bytes fills.
pub open spec fn config_table_frames(entry_count: u64, entry_size: u64) -> int {
    (entry_count * entry_size) / PAGE_SIZE as int
}

/// Takes the frames of the system configuration table into use, so that
/// the allocator never hands them out: the whole frames that the table
/// fills, from the frame that holds its first byte. Stops with
/// `AlreadyLocked` at the first frame that is not usable; the frames locked
/// before stay locked.
pub fn init_system_config_table(
    pmm: &mut FrameManager,
    table_address: u64,
    entry_count: u64,
    entry_size: u64,
) -> (result: Result<(), FrameError>)
    requires
        entry_count * entry_size <= u64::MAX,
        table_address / PAGE_SIZE + config_table_frames(entry_count, entry_size) <= PHYSICAL_LIMIT
            / PAGE_SIZE,
    ensures
        ({
            let first = table_address as int / PAGE_SIZE as int;
            let end = first + config_table_frames(entry_count, entry_size);
            &&& final(pmm)@ == lock_range(old(pmm)@, first, end)
            &&& result.is_ok() == lock_range_succeeds(old(pmm)@, first, end)
            &&& result.is_err() ==> result == Err::<(), FrameError>(FrameError::AlreadyLocked)
        }),
{
    let first: u64 = table_address / PAGE_SIZE;
    let frames: u64 = (entry_count * entry_size) / PAGE_SIZE;
    let end: u64 = first + frames;
    let mut index: u64 = first;
    while index < end
        invariant
            first <= index <= end,
            end <= PHYSICAL_LIMIT / PAGE_SIZE,
            first == table_address / PAGE_SIZE,
            end == first + config_table_frames(entry_count, entry_size),
            lock_range(pmm@, index as int, end as int) == lock_range(
                old(pmm)@,
                first as int,
                end as int,
            ),
            lock_range_succeeds(pmm@, index as int, end as int) == lock_range_succeeds(
                old(pmm)@,
                first as int,
                end as int,
            ),
        decreases end - index,
    {
        let frame = Frame::from_index(index);
        let ghost before = pmm@;
        assert(frame.unwrap()@ as int / PAGE_SIZE as int == index);
        match pmm.lock_frame(frame.unwrap()) {
            Ok(()) => {
                assert(op_succeeds(before, FrameOp::Lock(index as int)));
            },
            Err(_) => {
                assert(!op_succeeds(before, FrameOp::Lock(index as int)));
                assert(pmm@ == before);
                return Err(FrameError::AlreadyLocked);
            },
        }
        index += 1;
    }
    Ok(())
}

} // verus!
