//! The physical memory manager: one state per frame of physical memory.
//!
//! The manager only keeps the books. It never reads or writes the frames it
//! hands out; clearing a frame before its first use is the caller's business.

use crate::address::{Frame, PAGE_SIZE, PHYSICAL_LIMIT};
use crate::memory_map::{class_at, consistent, frame_count, is_consistent, FrameType, MemoryDescriptor};
use vstd::prelude::*;

verus! {

/// Why the manager refused a request.
#[derive(Clone, Copy, Debug, PartialEq, Eq, Structural)]
pub enum FrameError {
    /// No frame is usable.
    OutOfMemory,
    /// The frame is not usable, so it cannot be locked.
    AlreadyLocked,
    /// The frame is not in use, so it cannot be freed.
    NotLocked,
    /// The frame is not in the state that the caller expected, or the
    /// requested change of state is not one that frames can make.
    TypeMismatch,
}

/// Number of frames of `table` that are in state `ty`.
pub open spec fn count_of(table: Seq<FrameType>, ty: FrameType) -> nat
    decreases table.len(),
{
    if table.len() == 0 {
        0
    } else {
        count_of(table.drop_last(), ty) + if table.last() == ty {
            1nat
        } else {
            0nat
        }
    }
}

/// Index of the first usable frame at or behind `from`, or the length of
/// the table if there is none.
pub open spec fn first_usable_from(table: Seq<FrameType>, from: int) -> int
    decreases table.len() - from,
{
    if from >= table.len() {
        table.len() as int
    } else if table[from] == FrameType::Usable {
        from
    } else {
        first_usable_from(table, from + 1)
    }
}

/// Index of the usable frame with the lowest address, or the length of the
/// table if no frame is usable.
pub open spec fn first_usable(table: Seq<FrameType>) -> int {
    first_usable_from(table, 0)
}

/// Whether frame `index` can be locked: it is in the table and usable.
pub open spec fn can_lock(table: Seq<FrameType>, index: int) -> bool {
    0 <= index < table.len() && table[index] == FrameType::Usable
}

/// Whether frame `index` can be freed: it is in the table and in use.
pub open spec fn can_free(table: Seq<FrameType>, index: int) -> bool {
    0 <= index < table.len() && table[index] == FrameType::Generic
}

/// The changes of state that a frame can make: a usable frame is taken into
/// use, a frame in use is given back, and a reserved or loader-owned frame is
/// claimed for use.
pub open spec fn allowed_edge(from: FrameType, to: FrameType) -> bool {
    ||| from == FrameType::Usable && to == FrameType::Generic
    ||| from == FrameType::Generic && to == FrameType::Usable
    ||| from == FrameType::Reserved && to == FrameType::Generic
    ||| from == FrameType::BootReclaim && to == FrameType::Generic
}

/// Whether frame `index` can change from `from` to `to`.
pub open spec fn can_modify(table: Seq<FrameType>, index: int, from: FrameType, to: FrameType) -> bool {
    0 <= index < table.len() && table[index] == from && allowed_edge(from, to)
}

/// A request to the manager, as far as the balance of frames goes.
pub enum FrameOp {
    /// Lock the first usable frame.
    Next,
    /// Lock the frame with this index.
    Lock(int),
    /// Free the frame with this index.
    Free(int),
}

/// Whether the request succeeds on the given table.
pub open spec fn op_succeeds(table: Seq<FrameType>, op: FrameOp) -> bool {
    match op {
        FrameOp::Next => first_usable(table) < table.len(),
        FrameOp::Lock(index) => can_lock(table, index),
        FrameOp::Free(index) => can_free(table, index),
    }
}

/// The table after the request: changed in one frame if the request
/// succeeds, and unchanged if it fails.
pub open spec fn apply_op(table: Seq<FrameType>, op: FrameOp) -> Seq<FrameType> {
    if !op_succeeds(table, op) {
        table
    } else {
        match op {
            FrameOp::Next => table.update(first_usable(table), FrameType::Generic),
            FrameOp::Lock(index) => table.update(index, FrameType::Generic),
            FrameOp::Free(index) => table.update(index, FrameType::Usable),
        }
    }
}

/// The table after a sequence of requests, made in order.
pub open spec fn run_ops(table: Seq<FrameType>, ops: Seq<FrameOp>) -> Seq<FrameType>
    decreases ops.len(),
{
    if ops.len() == 0 {
        table
    } else {
        apply_op(run_ops(table, ops.drop_last()), ops.last())
    }
}

/// Number of requests of the sequence that lock a frame and succeed.
pub open spec fn locks_granted(table: Seq<FrameType>, ops: Seq<FrameOp>) -> nat
    decreases ops.len(),
{
    if ops.len() == 0 {
        0
    } else {
        let before = run_ops(table, ops.drop_last());
        locks_granted(table, ops.drop_last()) + if !(ops.last() is Free) && op_succeeds(
            before,
            ops.last(),
        ) {
            1nat
        } else {
            0nat
        }
    }
}

/// Number of requests of the sequence that free a frame and succeed.
pub open spec fn frees_granted(table: Seq<FrameType>, ops: Seq<FrameOp>) -> nat
    decreases ops.len(),
{
    if ops.len() == 0 {
        0
    } else {
        let before = run_ops(table, ops.drop_last());
        frees_granted(table, ops.drop_last()) + if ops.last() is Free && op_succeeds(
            before,
            ops.last(),
        ) {
            1nat
        } else {
            0nat
        }
    }
}

/// The first usable frame is usable, and no frame below it is.
pub proof fn lemma_first_usable(table: Seq<FrameType>)
    ensures
        0 <= first_usable(table) <= table.len(),
        first_usable(table) < table.len() ==> table[first_usable(table)] == FrameType::Usable,
        forall|j: int| 0 <= j < first_usable(table) ==> table[j] != FrameType::Usable,
{
    lemma_first_usable_from(table, 0);
}

proof fn lemma_first_usable_from(table: Seq<FrameType>, from: int)
    requires
        0 <= from <= table.len(),
    ensures
        from <= first_usable_from(table, from) <= table.len(),
        first_usable_from(table, from) < table.len() ==> table[first_usable_from(table, from)]
            == FrameType::Usable,
        forall|j: int| from <= j < first_usable_from(table, from) ==> table[j] != FrameType::Usable,
    decreases table.len() - from,
{
    if from < table.len() && table[from] != FrameType::Usable {
        lemma_first_usable_from(table, from + 1);
    }
}

/// Changing one frame moves one unit of the count from its old state to its new one.
pub proof fn lemma_count_update(table: Seq<FrameType>, index: int, to: FrameType, ty: FrameType)
    requires
        0 <= index < table.len(),
    ensures
        count_of(table.update(index, to), ty) + (if table[index] == ty {
            1nat
        } else {
            0nat
        }) == count_of(table, ty) + (if to == ty {
            1nat
        } else {
            0nat
        }),
    decreases table.len(),
{
    let updated = table.update(index, to);
    if index == table.len() - 1 {
        assert(updated.drop_last() =~= table.drop_last());
    } else {
        assert(updated.drop_last() =~= table.drop_last().update(index, to));
        lemma_count_update(table.drop_last(), index, to, ty);
    }
}

/// No state is counted more often than the table has frames.
pub proof fn lemma_count_bound(table: Seq<FrameType>, ty: FrameType)
    ensures
        count_of(table, ty) <= table.len(),
    decreases table.len(),
{
    if table.len() > 0 {
        lemma_count_bound(table.drop_last(), ty);
    }
}

/// One request keeps the number of frames that are usable or in use, and
/// moves the number in use by one exactly when it succeeds.
pub proof fn lemma_op_balance(table: Seq<FrameType>, op: FrameOp)
    ensures
        apply_op(table, op).len() == table.len(),
        count_of(apply_op(table, op), FrameType::Generic) + count_of(
            apply_op(table, op),
            FrameType::Usable,
        ) == count_of(table, FrameType::Generic) + count_of(table, FrameType::Usable),
        op_succeeds(table, op) && !(op is Free) ==> count_of(
            apply_op(table, op),
            FrameType::Generic,
        ) == count_of(table, FrameType::Generic) + 1,
        op_succeeds(table, op) && op is Free ==> count_of(apply_op(table, op), FrameType::Generic)
            + 1 == count_of(table, FrameType::Generic),
        !op_succeeds(table, op) ==> apply_op(table, op) == table,
{
    lemma_first_usable(table);
    if op_succeeds(table, op) {
        match op {
            FrameOp::Next => {
                lemma_count_update(table, first_usable(table), FrameType::Generic, FrameType::Generic);
                lemma_count_update(table, first_usable(table), FrameType::Generic, FrameType::Usable);
            },
            FrameOp::Lock(index) => {
                lemma_count_update(table, index, FrameType::Generic, FrameType::Generic);
                lemma_count_update(table, index, FrameType::Generic, FrameType::Usable);
            },
            FrameOp::Free(index) => {
                lemma_count_update(table, index, FrameType::Usable, FrameType::Generic);
                lemma_count_update(table, index, FrameType::Usable, FrameType::Usable);
            },
        }
    }
}

/// Frame conservation. After any sequence of requests to lock and to free
/// frames, the number of frames in use is the number at the start, plus the
/// locks that succeeded, minus the frees that succeeded. It never exceeds the
/// number of frames that were usable or in use at the start.
pub proof fn lemma_frame_conservation(table: Seq<FrameType>, ops: Seq<FrameOp>)
    ensures
        run_ops(table, ops).len() == table.len(),
        count_of(run_ops(table, ops), FrameType::Generic) + frees_granted(table, ops) == count_of(
            table,
            FrameType::Generic,
        ) + locks_granted(table, ops),
        count_of(run_ops(table, ops), FrameType::Generic) + count_of(
            run_ops(table, ops),
            FrameType::Usable,
        ) == count_of(table, FrameType::Generic) + count_of(table, FrameType::Usable),
        count_of(run_ops(table, ops), FrameType::Generic) <= count_of(table, FrameType::Generic)
            + count_of(table, FrameType::Usable),
    decreases ops.len(),
{
    if ops.len() > 0 {
        lemma_frame_conservation(table, ops.drop_last());
        lemma_op_balance(run_ops(table, ops.drop_last()), ops.last());
    }
}

/// Requests to lock and to free move frames along the allowed changes of
/// state only: after any sequence of them, a frame that was usable or in
/// use is usable or in use, and every other frame is in the state it had.
pub proof fn lemma_requests_follow_edges(table: Seq<FrameType>, ops: Seq<FrameOp>, index: int)
    requires
        0 <= index < table.len(),
    ensures
        run_ops(table, ops).len() == table.len(),
        ops.len() == 1 ==> run_ops(table, ops)[index] == table[index] || allowed_edge(
            table[index],
            run_ops(table, ops)[index],
        ),
        table[index] == FrameType::Usable || table[index] == FrameType::Generic ==> run_ops(
            table,
            ops,
        )[index] == FrameType::Usable || run_ops(table, ops)[index] == FrameType::Generic,
        table[index] != FrameType::Usable && table[index] != FrameType::Generic ==> run_ops(
            table,
            ops,
        )[index] == table[index],
    decreases ops.len(),
{
    if ops.len() > 0 {
        let before = run_ops(table, ops.drop_last());
        lemma_requests_follow_edges(table, ops.drop_last(), index);
        lemma_first_usable(before);
        if ops.len() == 1 {
            assert(ops.drop_last().len() == 0);
            assert(before == table);
        }
    }
}

/// The physical memory manager.
pub struct FrameManager {
    table: Vec<FrameType>,
}

impl View for FrameManager {
    type V = Seq<FrameType>;

    /// The state of every frame, by frame index.
    closed spec fn view(&self) -> Seq<FrameType> {
        self.table@
    }
}

impl FrameManager {
    #[verifier::type_invariant]
    spec fn addressable(self) -> bool {
        self.table@.len() <= PHYSICAL_LIMIT / PAGE_SIZE
    }

    /// Builds the table for a consistent memory map: one entry for every
    /// frame from address zero to the end of the last region, each in the
    /// state that its region gives it, and `Reserved` in the holes.
    pub fn initialize(memory_map: &Vec<MemoryDescriptor>) -> (result: FrameManager)
        requires
            consistent(memory_map@),
            frame_count(memory_map@) <= usize::MAX,
        ensures
            result@.len() == frame_count(memory_map@),
            forall|index: int|
                0 <= index < result@.len() ==> result@[index] == class_at(memory_map@, index),
    {
        let regions: usize = memory_map.len();
        let total: usize = if regions == 0 {
            0
        } else {
            let (_, end) = memory_map[regions - 1].frame_range();
            end as usize
        };
        let mut table: Vec<FrameType> = Vec::new();
        let mut filled: usize = 0;
        while filled < total
            invariant
                filled <= total,
                table@.len() == filled,
                forall|index: int| 0 <= index < filled ==> table@[index] == FrameType::Reserved,
            decreases total - filled,
        {
            table.push(FrameType::Reserved);
            filled += 1;
        }
        assert(memory_map@.take(0) =~= Seq::<MemoryDescriptor>::empty());
        let mut k: usize = 0;
        while k < regions
            invariant
                k <= regions,
                regions == memory_map@.len(),
                consistent(memory_map@),
                total == frame_count(memory_map@),
                table@.len() == total,
                forall|index: int|
                    0 <= index < total ==> table@[index] == class_at(
                        memory_map@.take(k as int),
                        index,
                    ),
            decreases regions - k,
        {
            let region = &memory_map[k];
            let (first, end) = region.frame_range();
            let class = region.ty.frame_type();
            assert(end <= total) by {
                if k < regions - 1 {
                    assert(memory_map@[k as int].end_frame() <= memory_map@[regions
                        - 1].first_frame());
                }
            }
            assert(memory_map@.take(k + 1).drop_last() =~= memory_map@.take(k as int));
            assert(memory_map@.take(k + 1).last() == memory_map@[k as int]);
            let mut at: usize = first as usize;
            while at < end as usize
                invariant
                    first <= at <= end <= total,
                    table@.len() == total,
                    forall|index: int|
                        0 <= index < total ==> table@[index] == if first <= index < at {
                            class
                        } else {
                            class_at(memory_map@.take(k as int), index)
                        },
                decreases end - at,
            {
                table.set(at, class);
                at += 1;
            }
            k += 1;
        }
        assert(memory_map@.take(regions as int) =~= memory_map@);
        FrameManager { table }
    }

    /// Builds the table for a memory map, or returns nothing if the map is
    /// not consistent or names more frames than a table can hold.
    pub fn try_initialize(memory_map: &Vec<MemoryDescriptor>) -> (result: Option<FrameManager>)
        ensures
            result.is_some() <==> consistent(memory_map@) && frame_count(memory_map@)
                <= usize::MAX,
            result.is_some() ==> result.unwrap()@.len() == frame_count(memory_map@),
            result.is_some() ==> forall|index: int|
                0 <= index < result.unwrap()@.len() ==> result.unwrap()@[index] == class_at(
                    memory_map@,
                    index,
                ),
    {
        if !is_consistent(memory_map) {
            return None;
        }
        if memory_map.len() > 0 {
            let (_, end) = memory_map[memory_map.len() - 1].frame_range();
            if end > usize::MAX as u64 {
                return None;
            }
        }
        Some(FrameManager::initialize(memory_map))
    }

    /// Number of frames in the table.
    pub fn total_frames(&self) -> (result: usize)
        ensures
            result == self@.len(),
            result <= PHYSICAL_LIMIT / PAGE_SIZE,
    {
        proof {
            use_type_invariant(self);
        }
        self.table.len()
    }

    /// The state of `frame`, if the table has it.
    pub fn get_frame_type(&self, frame: Frame) -> (result: Option<FrameType>)
        ensures
            result == if frame@ / PAGE_SIZE < self@.len() {
                Some(self@[frame@ as int / PAGE_SIZE as int])
            } else {
                None
            },
    {
        let index: u64 = frame.index();
        if index < self.table.len() as u64 {
            Some(self.table[index as usize])
        } else {
            None
        }
    }

    /// Locks the usable frame with the lowest address and returns it, or
    /// fails with `OutOfMemory` if no frame is usable.
    pub fn next_frame(&mut self) -> (result: Result<Frame, FrameError>)
        ensures
            final(self)@ == apply_op(old(self)@, FrameOp::Next),
            result.is_ok() == op_succeeds(old(self)@, FrameOp::Next),
            result.is_ok() ==> result.unwrap()@ == first_usable(old(self)@) * PAGE_SIZE,
            result.is_err() ==> result.unwrap_err() == FrameError::OutOfMemory,
    {
        proof {
            use_type_invariant(&*self);
            lemma_first_usable(self@);
        }
        let total: usize = self.table.len();
        let mut index: usize = 0;
        while index < total
            invariant
                index <= total,
                total == self.table@.len(),
                total <= PHYSICAL_LIMIT / PAGE_SIZE,
                self.table@ == old(self).table@,
                forall|j: int| 0 <= j < index ==> self.table@[j] != FrameType::Usable,
            decreases total - index,
        {
            if self.table[index] == FrameType::Usable {
                assert(first_usable(self@) == index) by {
                    lemma_first_usable(self@);
                }
                self.set_state(index, FrameType::Generic);
                let frame = Frame::from_index(index as u64);
                return Ok(frame.unwrap());
            }
            index += 1;
        }
        Err(FrameError::OutOfMemory)
    }

    /// Locks `frame`, or fails with `AlreadyLocked` if it is not usable.
    pub fn lock_frame(&mut self, frame: Frame) -> (result: Result<(), FrameError>)
        ensures
            final(self)@ == apply_op(old(self)@, FrameOp::Lock(frame@ as int / PAGE_SIZE as int)),
            result.is_ok() == can_lock(old(self)@, frame@ as int / PAGE_SIZE as int),
            result.is_err() ==> result.unwrap_err() == FrameError::AlreadyLocked,
    {
        let index: u64 = frame.index();
        if index < self.table.len() as u64 && self.table[index as usize] == FrameType::Usable {
            self.set_state(index as usize, FrameType::Generic);
            Ok(())
        } else {
            Err(FrameError::AlreadyLocked)
        }
    }

    /// Gives `frame` back, or fails with `NotLocked` if it is not in use.
    pub fn free_frame(&mut self, frame: Frame) -> (result: Result<(), FrameError>)
        ensures
            final(self)@ == apply_op(old(self)@, FrameOp::Free(frame@ as int / PAGE_SIZE as int)),
            result.is_ok() == can_free(old(self)@, frame@ as int / PAGE_SIZE as int),
            result.is_err() ==> result.unwrap_err() == FrameError::NotLocked,
    {
        let index: u64 = frame.index();
        if index < self.table.len() as u64 && self.table[index as usize] == FrameType::Generic {
            self.set_state(index as usize, FrameType::Usable);
            Ok(())
        } else {
            Err(FrameError::NotLocked)
        }
    }

    /// Moves `frame` from state `from` to state `to`. Fails with
    /// `TypeMismatch`, and changes nothing, if the frame is not in state
    /// `from` or if frames cannot make that change.
    pub fn modify_type(&mut self, frame: Frame, from: FrameType, to: FrameType) -> (result: Result<
        (),
        FrameError,
    >)
        ensures
            result.is_ok() == can_modify(old(self)@, frame@ as int / PAGE_SIZE as int, from, to),
            result.is_ok() ==> final(self)@ == old(self)@.update(
                frame@ as int / PAGE_SIZE as int,
                to,
            ),
            result.is_err() ==> final(self)@ == old(self)@,
            result.is_err() ==> result.unwrap_err() == FrameError::TypeMismatch,
    {
        let index: u64 = frame.index();
        let allowed: bool = (from == FrameType::Usable && to == FrameType::Generic) || (from
            == FrameType::Generic && to == FrameType::Usable) || (from == FrameType::Reserved && to
            == FrameType::Generic) || (from == FrameType::BootReclaim && to == FrameType::Generic);
        if allowed && index < self.table.len() as u64 && self.table[index as usize] == from {
            self.set_state(index as usize, to);
            Ok(())
        } else {
            Err(FrameError::TypeMismatch)
        }
    }

    /// Number of frames in state `ty`.
    pub fn count(&self, ty: FrameType) -> (result: usize)
        ensures
            result == count_of(self@, ty),
    {
        let total: usize = self.table.len();
        let mut found: usize = 0;
        let mut index: usize = 0;
        assert(self.table@.take(0) =~= Seq::<FrameType>::empty());
        while index < total
            invariant
                index <= total,
                total == self.table@.len(),
                found == count_of(self.table@.take(index as int), ty),
                found <= index,
            decreases total - index,
        {
            assert(self.table@.take(index + 1).drop_last() =~= self.table@.take(index as int));
            if self.table[index] == ty {
                found += 1;
            }
            index += 1;
        }
        assert(self.table@.take(total as int) =~= self.table@);
        found
    }

    /// Bytes of memory that the table covers.
    pub fn total_memory(&self) -> (result: u64)
        ensures
            result == self@.len() * PAGE_SIZE,
    {
        let frames: usize = self.total_frames();
        frames as u64 * PAGE_SIZE
    }

    /// Bytes of memory in use.
    pub fn locked_memory(&self) -> (result: u64)
        ensures
            result == count_of(self@, FrameType::Generic) * PAGE_SIZE,
    {
        self.bytes_in(FrameType::Generic)
    }

    /// Bytes of memory free for allocation.
    pub fn free_memory(&self) -> (result: u64)
        ensures
            result == count_of(self@, FrameType::Usable) * PAGE_SIZE,
    {
        self.bytes_in(FrameType::Usable)
    }

    /// Bytes of memory kept by firmware or platform.
    pub fn reserved_memory(&self) -> (result: u64)
        ensures
            result == count_of(self@, FrameType::Reserved) * PAGE_SIZE,
    {
        self.bytes_in(FrameType::Reserved)
    }

    fn set_state(&mut self, index: usize, ty: FrameType)
        requires
            index < old(self)@.len(),
        ensures
            final(self)@ == old(self)@.update(index as int, ty),
    {
        proof {
            use_type_invariant(&*self);
        }
        let mut taken = FrameManager { table: Vec::new() };
        core::mem::swap(self, &mut taken);
        let mut table = taken.table;
        table.set(index, ty);
        *self = FrameManager { table };
    }

    fn bytes_in(&self, ty: FrameType) -> (result: u64)
        ensures
            result == count_of(self@, ty) * PAGE_SIZE,
    {
        proof {
            use_type_invariant(self);
            lemma_count_bound(self@, ty);
        }
        let frames: usize = self.count(ty);
        frames as u64 * PAGE_SIZE
    }
}

} // verus!
