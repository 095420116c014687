//! The mapper: one address space, built and queried through its root table.

use crate::address::{Frame, Page, PageDepth, DEPTH_MAX, DEPTH_MIN, PAGE_SIZE};
use crate::cr3::CR3;
use crate::frame_manager::{
    apply_op, first_usable, lemma_first_usable, op_succeeds, FrameManager, FrameOp,
};
use crate::memory_map::FrameType;
use crate::page_table::{depth_view, walk, walk_create, PageTable};
use crate::paging::{
    compose_word, leaf_word, lemma_flags_are_attribute_bits, lemma_link_word, modify_word,
    unmapped_word, word_attributes, word_frame, AttributeModify, PageAttributes, PageTableEntry,
    PagingError, DEMAND, HUGE, PRESENT,
};
use crate::mapping_laws::{
    held, lemma_create_takes_frames, lemma_fresh_root_is_proper, lemma_map_below_huge_fails,
    lemma_map_maps, lemma_proper_path_monotone, lemma_unmap_unmaps, mapped_as, not_mapped,
    proper_path, reached_simply,
};
use crate::physical_memory::{write_word, zero_frame_of, MemoryView, PhysicalMemory};
use crate::sound_tables::{
    lemma_fresh_root_is_sound, lemma_leaf_write_keeps_others, lemma_map_keeps_others,
    lemma_sound_monotone, places_after_map, same_slot, sound, tables_sound, Place,
};
use vstd::prelude::*;

verus! {

/// Why the mapper refused a request.
#[derive(Clone, Copy, Debug, PartialEq, Eq, Structural)]
pub enum MapperError {
    /// The page is not mapped.
    NotMapped,
    /// The page is mapped already.
    AlreadyMapped,
    /// A frame could not be locked, or no frame was left for a table.
    AllocError,
    /// The root frame does not hold a page table.
    InvalidRootFrame,
    /// The address of the page is not aligned as its depth asks.
    UnalignedPageAddress,
    /// The walk through the tables did not reach the entry.
    PagingError(PagingError),
}

/// The frame table, the memory and the result that a request to the mapper leaves.
pub struct MapOutcome {
    pub frames: Seq<FrameType>,
    pub mem: MemoryView,
    pub result: Result<(), MapperError>,
}

/// The attribute bits that `map` writes: those given, and `HUGE` as well
/// when the entry stands above the lowest level.
pub open spec fn leaf_attributes(attributes: u64, target: u8) -> u64 {
    if target > DEPTH_MIN {
        attributes | HUGE
    } else {
        attributes
    }
}

/// How the mapper reports the failure of a walk.
pub open spec fn mapper_error(error: PagingError) -> MapperError {
    match error {
        PagingError::AllocError => MapperError::AllocError,
        _ => MapperError::PagingError(error),
    }
}

/// What `map` does to the frame table and to memory, and what it returns.
///
/// - If the frame is to be locked and is not usable, nothing changes and the
///   result is `AllocError`.
/// - Otherwise the frame is locked if asked for, and the creating walk goes
///   from the root to level `target`. If it arrives, the entry there is
///   overwritten with `frame`, the attributes and the mark of a mapped page,
///   and the result is `Ok`. If it fails, what it changed stays, the frame stays locked, and
///   the result is `AllocError` for a missing frame and `PagingError` for
///   anything else.
pub open spec fn map_outcome(
    frames: Seq<FrameType>,
    mem: MemoryView,
    root: u64,
    page: u64,
    target: u8,
    frame: u64,
    lock_frame: bool,
    attributes: u64,
) -> MapOutcome {
    let lock = FrameOp::Lock(frame as int / PAGE_SIZE as int);
    if lock_frame && !op_succeeds(frames, lock) {
        MapOutcome { frames, mem, result: Err(MapperError::AllocError) }
    } else {
        let locked = if lock_frame {
            apply_op(frames, lock)
        } else {
            frames
        };
        let walked = walk_create(locked, mem, root, DEPTH_MAX, page, target);
        match walked.result {
            Ok(slot) => MapOutcome {
                frames: walked.frames,
                mem: write_word(
                    walked.mem,
                    slot.table,
                    slot.index,
                    leaf_word(frame, leaf_attributes(attributes, target)),
                ),
                result: Ok(()),
            },
            Err(error) => MapOutcome {
                frames: walked.frames,
                mem: walked.mem,
                result: Err(mapper_error(error)),
            },
        }
    }
}

/// What `unmap` does to the frame table and to memory. If the reading walk
/// reaches an entry, the entry loses `PRESENT`, its mark and its frame, and the frame
/// it pointed at is freed if that was asked for and the frame is in use.
/// If the walk fails nothing changes.
pub open spec fn unmap_outcome(
    frames: Seq<FrameType>,
    mem: MemoryView,
    root: u64,
    page: u64,
    target: Option<u8>,
    free_frame: bool,
) -> (Seq<FrameType>, MemoryView) {
    match walk(mem, root, DEPTH_MAX, page, target) {
        Ok(slot) => (
            if free_frame {
                apply_op(frames, FrameOp::Free(word_frame(slot.word) as int / PAGE_SIZE as int))
            } else {
                frames
            },
            write_word(mem, slot.table, slot.index, unmapped_word(slot.word)),
        ),
        Err(_) => (frames, mem),
    }
}

/// What `auto_map` does. With no usable frame nothing changes and the result
/// is `AllocError`. Otherwise the first usable frame is mapped at the lowest
/// level; it is locked on the way unless the attributes hold `DEMAND`.
pub open spec fn auto_map_outcome(
    frames: Seq<FrameType>,
    mem: MemoryView,
    root: u64,
    page: u64,
    attributes: u64,
) -> MapOutcome {
    if !op_succeeds(frames, FrameOp::Next) {
        MapOutcome { frames, mem, result: Err(MapperError::AllocError) }
    } else {
        map_outcome(
            frames,
            mem,
            root,
            page,
            DEPTH_MIN,
            (first_usable(frames) * PAGE_SIZE) as u64,
            attributes & DEMAND != DEMAND,
            attributes,
        )
    }
}

/// Memory after `set_page_attributes`: if the reading walk reaches an entry,
/// its attributes are modified; if not, nothing changes.
pub open spec fn set_attributes_outcome(
    mem: MemoryView,
    root: u64,
    page: u64,
    target: Option<u8>,
    attributes: u64,
    mode: AttributeModify,
) -> MemoryView {
    match walk(mem, root, DEPTH_MAX, page, target) {
        Ok(slot) => write_word(mem, slot.table, slot.index, modify_word(slot.word, attributes, mode)),
        Err(_) => mem,
    }
}

/// The root frame of an address space, with the entry that leads to it.
#[derive(Clone, Copy, Debug)]
struct RootHandle {
    frame: Frame,
    entry: PageTableEntry,
}

impl RootHandle {
    #[verifier::type_invariant]
    spec fn entry_leads_to_frame(self) -> bool {
        self.entry@ == compose_word(self.frame@, PRESENT)
    }

    fn new(frame: Frame) -> (result: RootHandle)
        ensures
            result.frame@ == frame@,
    {
        proof {
            lemma_flags_are_attribute_bits();
        }
        RootHandle {
            frame,
            entry: PageTableEntry::new(frame, PageAttributes::from_bits_truncate(PRESENT)),
        }
    }

    fn table(&self) -> (result: PageTable)
        ensures
            result.frame@ == self.frame@,
            result.depth@ == DEPTH_MAX,
    {
        let addr: u64 = self.frame.get();
        proof {
            use_type_invariant(self);
            lemma_link_word(addr);
        }
        let table = PageTable::new(PageDepth::max(), &self.entry);
        table.unwrap()
    }
}

/// One address space: the root table, and the pages whose cached
/// translations are waiting to be discarded.
pub struct Mapper {
    root: RootHandle,
    pending: Vec<Page>,
}

impl Mapper {
    /// The address of the root frame.
    pub closed spec fn root(&self) -> u64 {
        self.root.frame@
    }

    /// The pages whose cached translations are waiting to be discarded,
    /// oldest first.
    pub closed spec fn invalidations(&self) -> Seq<Page> {
        self.pending@
    }

    /// A mapper with a fresh root table: the first usable frame, locked and
    /// filled with zeroes. Returns nothing, and changes nothing, if no frame
    /// is usable. The tables of a new mapper are sound.
    pub fn new(pmm: &mut FrameManager, mem: &mut PhysicalMemory) -> (result: Option<Mapper>)
        ensures
            result.is_some() == op_succeeds(old(pmm)@, FrameOp::Next),
            final(pmm)@ == apply_op(old(pmm)@, FrameOp::Next),
            result.is_some() ==> result.unwrap().root() == first_usable(old(pmm)@) * PAGE_SIZE,
            result.is_some() ==> result.unwrap().invalidations() == Seq::<Page>::empty(),
            result.is_some() ==> final(mem)@ == zero_frame_of(
                old(mem)@,
                result.unwrap().root(),
            ),
            result.is_none() ==> final(mem)@ == old(mem)@,
            result.is_some() ==> forall|page: u64, target: u8| #[trigger]
                proper_path(
                    final(pmm)@,
                    final(mem)@,
                    result.unwrap().root(),
                    DEPTH_MAX,
                    page,
                    target,
                    Set::empty(),
                ),
            result.is_some() ==> tables_sound(final(pmm)@, final(mem)@, result.unwrap().root()),
    {
        proof {
            lemma_first_usable(pmm@);
        }
        match pmm.next_frame() {
            Ok(root_frame) => {
                mem.zero_frame(root_frame);
                proof {
                    lemma_fresh_root_is_sound(pmm@, mem@, root_frame@);
                    assert forall|page: u64, target: u8| #[trigger]
                        proper_path(
                            pmm@,
                            mem@,
                            root_frame@,
                            DEPTH_MAX,
                            page,
                            target,
                            Set::empty(),
                        ) by {
                        lemma_fresh_root_is_proper(pmm@, mem@, root_frame@, page, target);
                    }
                }
                Some(Mapper { root: RootHandle::new(root_frame), pending: Vec::new() })
            },
            Err(_) => None,
        }
    }

    /// A mapper over a root table that exists already. The caller vouches
    /// that `root_frame` holds a top-level page table.
    pub fn new_unsafe(root_frame: Frame) -> (result: Mapper)
        ensures
            result.root() == root_frame@,
            result.invalidations() == Seq::<Page>::empty(),
    {
        Mapper { root: RootHandle::new(root_frame), pending: Vec::new() }
    }

    /// The root frame.
    pub fn root_frame(&self) -> (result: Frame)
        ensures
            result@ == self.root(),
    {
        self.root.frame
    }

    /// Hands out the pages whose cached translations must be discarded, and
    /// forgets them.
    pub fn take_invalidations(&mut self) -> (result: Vec<Page>)
        ensures
            result@ == old(self).invalidations(),
            final(self).invalidations() == Seq::<Page>::empty(),
            final(self).root() == old(self).root(),
    {
        let mut taken: Vec<Page> = Vec::new();
        core::mem::swap(&mut self.pending, &mut taken);
        taken
    }

    /// Maps `page` to `frame` at depth `to_depth` with the given attributes,
    /// after locking `frame` if `lock_frame` says so. See [`map_outcome`].
    /// Whatever the result, `page` is noted for invalidation.
    ///
    /// After success, and over tables that are sound on the way of the
    /// page, the page is mapped to the frame with exactly the attributes
    /// given (and `HUGE` above the lowest depth), whatever they are. Over
    /// sound tables a mapping at the lowest depth leaves every other page
    /// as it was, and the tables sound. A page that lies in a huge mapping
    /// cannot be mapped below it: the request fails and the tables stay as
    /// they were.
    pub fn map(
        &mut self,
        pmm: &mut FrameManager,
        mem: &mut PhysicalMemory,
        page: Page,
        to_depth: PageDepth,
        frame: Frame,
        lock_frame: bool,
        attributes: PageAttributes,
    ) -> (result: Result<(), MapperError>)
        ensures
            ({
                let outcome = map_outcome(
                    old(pmm)@,
                    old(mem)@,
                    old(self).root(),
                    page@,
                    to_depth@,
                    frame@,
                    lock_frame,
                    attributes@,
                );
                &&& final(pmm)@ == outcome.frames
                &&& final(mem)@ == outcome.mem
                &&& result == outcome.result
            }),
            final(self).root() == old(self).root(),
            final(self).invalidations() == old(self).invalidations().push(page),
            result.is_ok() && proper_path(
                old(pmm)@,
                old(mem)@,
                old(self).root(),
                DEPTH_MAX,
                page@,
                to_depth@,
                Set::empty(),
            ) ==> mapped_as(
                final(mem)@,
                old(self).root(),
                page@,
                to_depth@,
                frame@,
                leaf_attributes(attributes@, to_depth@),
            ),
            result.is_ok() && to_depth@ == DEPTH_MIN && tables_sound(
                old(pmm)@,
                old(mem)@,
                old(self).root(),
            ) ==> {
                &&& tables_sound(final(pmm)@, final(mem)@, old(self).root())
                &&& mapped_as(
                    final(mem)@,
                    old(self).root(),
                    page@,
                    DEPTH_MIN,
                    frame@,
                    attributes@,
                )
                &&& forall|other: u64|
                    !same_slot(other, page@) ==> #[trigger] walk(
                        final(mem)@,
                        old(self).root(),
                        DEPTH_MAX,
                        other,
                        None,
                    ) == walk(old(mem)@, old(self).root(), DEPTH_MAX, other, None)
            },
            final(pmm)@.len() == old(pmm)@.len(),
            forall|i: int|
                0 <= i < old(pmm)@.len() ==> #[trigger] final(pmm)@[i] == old(pmm)@[i] || (old(
                    pmm,
                )@[i] == FrameType::Usable && final(pmm)@[i] == FrameType::Generic),
            result.is_ok() && lock_frame ==> final(pmm)@[frame@ as int / PAGE_SIZE as int]
                == FrameType::Generic,
            walk(old(mem)@, old(self).root(), DEPTH_MAX, page@, None).is_ok() && walk(
                old(mem)@,
                old(self).root(),
                DEPTH_MAX,
                page@,
                None,
            ).unwrap().level > to_depth@ ==> {
                &&& result.is_err()
                &&& final(mem)@ == old(mem)@
                &&& !lock_frame ==> final(pmm)@ == old(pmm)@ && result == Err::<(), MapperError>(
                    MapperError::PagingError(PagingError::WalkInterrupted),
                )
            },
    {
        let ghost frames = pmm@;
        let ghost before = mem@;
        let ghost root = self.root();
        let _ = pmm.total_frames();
        let _ = frame.get();
        let _ = attributes.bits();
        let _ = to_depth.get();
        proof {
            mem.lemma_well_shaped();
            let lock = FrameOp::Lock(frame@ as int / PAGE_SIZE as int);
            let locked = if lock_frame && op_succeeds(frames, lock) {
                apply_op(frames, lock)
            } else {
                frames
            };
            lemma_create_takes_frames(locked, before, root, DEPTH_MAX, page@, to_depth@);
            if to_depth@ == DEPTH_MIN && tables_sound(frames, before, root) && map_outcome(
                frames,
                before,
                root,
                page@,
                to_depth@,
                frame@,
                lock_frame,
                attributes@,
            ).result.is_ok() {
                let places = choose|places: Map<u64, Place>| sound(frames, before, root, places);
                lemma_map_keeps_others(
                    frames,
                    before,
                    root,
                    places,
                    page@,
                    frame@,
                    lock_frame,
                    attributes@,
                );
                let outcome = map_outcome(
                    frames,
                    before,
                    root,
                    page@,
                    to_depth@,
                    frame@,
                    lock_frame,
                    attributes@,
                );
                assert(sound(
                    outcome.frames,
                    outcome.mem,
                    root,
                    places_after_map(frames, before, root, page@, frame@, lock_frame, places),
                ));
            }
            if walk(before, root, DEPTH_MAX, page@, None).is_ok() && walk(
                before,
                root,
                DEPTH_MAX,
                page@,
                None,
            ).unwrap().level > to_depth@ {
                lemma_map_below_huge_fails(
                    frames,
                    before,
                    root,
                    page@,
                    to_depth@,
                    frame@,
                    lock_frame,
                    attributes@,
                );
            }
            if map_outcome(
                frames,
                before,
                root,
                page@,
                to_depth@,
                frame@,
                lock_frame,
                attributes@,
            ).result.is_ok() && proper_path(
                frames,
                before,
                root,
                DEPTH_MAX,
                page@,
                to_depth@,
                Set::empty(),
            ) {
                lemma_map_maps(
                    frames,
                    before,
                    root,
                    page@,
                    to_depth@,
                    frame@,
                    lock_frame,
                    attributes@,
                );
            }
        }
        self.pending.push(page);
        if lock_frame {
            if pmm.lock_frame(frame).is_err() {
                return Err(MapperError::AllocError);
            }
        }
        let root_table = self.root.table();
        match root_table.with_entry_create(pmm, mem, page, to_depth) {
            Ok(slot) => {
                let mut leaf = attributes;
                if to_depth.get() > DEPTH_MIN {
                    proof {
                        lemma_flags_are_attribute_bits();
                    }
                    leaf.insert(PageAttributes::from_bits_truncate(HUGE));
                }
                slot.store(mem, PageTableEntry::new_mapping(frame, leaf));
                Ok(())
            },
            Err(PagingError::AllocError) => Err(MapperError::AllocError),
            Err(error) => Err(MapperError::PagingError(error)),
        }
    }

    /// Unmaps `page`: the entry that the walk reaches loses `PRESENT`, the
    /// mark of a mapped page and its frame, and the frame is given back to the physical memory
    /// manager if `free_frame` says so and the frame is in use. Fails, and
    /// changes nothing, if the walk does not reach a taken entry. Whatever
    /// the result, `page` is noted for invalidation. After success, and
    /// over tables that are sound on the way of the page, the page is not
    /// mapped; over sound tables, when the entry stands on the lowest level,
    /// every other page is as it was.
    pub fn unmap(
        &mut self,
        pmm: &mut FrameManager,
        mem: &mut PhysicalMemory,
        page: Page,
        to_depth: Option<PageDepth>,
        free_frame: bool,
    ) -> (result: Result<(), PagingError>)
        ensures
            ({
                let found = walk(old(mem)@, old(self).root(), DEPTH_MAX, page@, depth_view(to_depth));
                let outcome = unmap_outcome(
                    old(pmm)@,
                    old(mem)@,
                    old(self).root(),
                    page@,
                    depth_view(to_depth),
                    free_frame,
                );
                &&& result == match found {
                    Ok(_) => Ok::<(), PagingError>(()),
                    Err(error) => Err::<(), PagingError>(error),
                }
                &&& final(pmm)@ == outcome.0
                &&& final(mem)@ == outcome.1
            }),
            final(self).root() == old(self).root(),
            final(self).invalidations() == old(self).invalidations().push(page),
            result.is_ok() && (proper_path(
                old(pmm)@,
                old(mem)@,
                old(self).root(),
                DEPTH_MAX,
                page@,
                DEPTH_MIN,
                Set::empty(),
            ) || reached_simply(old(mem)@, old(self).root(), page@, depth_view(to_depth)))
                ==> not_mapped(final(mem)@, old(self).root(), page@),
            result.is_ok() && tables_sound(old(pmm)@, old(mem)@, old(self).root()) && walk(
                old(mem)@,
                old(self).root(),
                DEPTH_MAX,
                page@,
                depth_view(to_depth),
            ).unwrap().level == DEPTH_MIN ==> {
                &&& !free_frame ==> tables_sound(final(pmm)@, final(mem)@, old(self).root())
                &&& forall|other: u64|
                    !same_slot(other, page@) ==> #[trigger] walk(
                        final(mem)@,
                        old(self).root(),
                        DEPTH_MAX,
                        other,
                        None,
                    ) == walk(old(mem)@, old(self).root(), DEPTH_MAX, other, None)
            },
    {
        proof {
            mem.lemma_well_shaped();
            if tables_sound(pmm@, mem@, self.root()) && walk(
                mem@,
                self.root(),
                DEPTH_MAX,
                page@,
                depth_view(to_depth),
            ).is_ok() && walk(
                mem@,
                self.root(),
                DEPTH_MAX,
                page@,
                depth_view(to_depth),
            ).unwrap().level == DEPTH_MIN {
                let places = choose|places: Map<u64, Place>| sound(pmm@, mem@, self.root(), places);
                let slot = walk(mem@, self.root(), DEPTH_MAX, page@, depth_view(to_depth)).unwrap();
                lemma_leaf_write_keeps_others(
                    pmm@,
                    mem@,
                    self.root(),
                    places,
                    page@,
                    depth_view(to_depth),
                    unmapped_word(slot.word),
                );
            }
            if walk(mem@, self.root(), DEPTH_MAX, page@, depth_view(to_depth)).is_ok() && (
            proper_path(pmm@, mem@, self.root(), DEPTH_MAX, page@, DEPTH_MIN, Set::empty())
                || reached_simply(mem@, self.root(), page@, depth_view(to_depth))) {
                lemma_unmap_unmaps(
                    pmm@,
                    mem@,
                    self.root(),
                    page@,
                    depth_view(to_depth),
                    free_frame,
                );
            }
        }
        self.pending.push(page);
        let root_table = self.root.table();
        match root_table.with_entry(mem, page, to_depth) {
            Ok(slot) => {
                let mut entry = slot.entry();
                let frame = entry.get_frame();
                entry.clear_mapping();
                if free_frame {
                    let _ = pmm.free_frame(frame);
                }
                slot.store(mem, entry);
                Ok(())
            },
            Err(error) => Err(error),
        }
    }

    /// Maps `page` at the lowest depth to the first usable frame. The frame
    /// is locked unless the attributes hold `DEMAND`. See [`auto_map_outcome`].
    /// The page is noted for invalidation unless no frame was usable. After
    /// success, and over tables that are sound on the way of the page, the
    /// page is mapped to that frame with exactly the attributes given; over
    /// sound tables every other page is as it was.
    pub fn auto_map(
        &mut self,
        pmm: &mut FrameManager,
        mem: &mut PhysicalMemory,
        page: Page,
        attributes: PageAttributes,
    ) -> (result: Result<(), MapperError>)
        ensures
            ({
                let outcome = auto_map_outcome(
                    old(pmm)@,
                    old(mem)@,
                    old(self).root(),
                    page@,
                    attributes@,
                );
                &&& final(pmm)@ == outcome.frames
                &&& final(mem)@ == outcome.mem
                &&& result == outcome.result
            }),
            final(self).root() == old(self).root(),
            !op_succeeds(old(pmm)@, FrameOp::Next) ==> final(self).invalidations() == old(
                self,
            ).invalidations(),
            op_succeeds(old(pmm)@, FrameOp::Next) ==> final(self).invalidations() == old(
                self,
            ).invalidations().push(page),
            result.is_ok() && proper_path(
                old(pmm)@,
                old(mem)@,
                old(self).root(),
                DEPTH_MAX,
                page@,
                DEPTH_MIN,
                Set::empty(),
            ) ==> mapped_as(
                final(mem)@,
                old(self).root(),
                page@,
                DEPTH_MIN,
                (first_usable(old(pmm)@) * PAGE_SIZE) as u64,
                attributes@,
            ),
            final(pmm)@.len() == old(pmm)@.len(),
            result.is_ok() && attributes@ & DEMAND != DEMAND ==> final(pmm)@[first_usable(
                old(pmm)@,
            )] == FrameType::Generic,
            result.is_ok() && tables_sound(old(pmm)@, old(mem)@, old(self).root()) ==> {
                &&& tables_sound(final(pmm)@, final(mem)@, old(self).root())
                &&& mapped_as(
                    final(mem)@,
                    old(self).root(),
                    page@,
                    DEPTH_MIN,
                    (first_usable(old(pmm)@) * PAGE_SIZE) as u64,
                    attributes@,
                )
                &&& forall|other: u64|
                    !same_slot(other, page@) ==> #[trigger] walk(
                        final(mem)@,
                        old(self).root(),
                        DEPTH_MAX,
                        other,
                        None,
                    ) == walk(old(mem)@, old(self).root(), DEPTH_MAX, other, None)
            },
    {
        let ghost before = pmm@;
        match pmm.next_frame() {
            Ok(frame) => {
                let on_demand: bool = attributes.contains_bits(DEMAND);
                if on_demand {
                    let _ = pmm.free_frame(frame);
                    assert(pmm@ =~= before) by {
                        lemma_first_usable(before);
                    }
                }
                proof {
                    lemma_first_usable(before);
                    if tables_sound(before, mem@, self.root()) {
                        assert forall|x: u64| held(before, x) implies held(pmm@, x) by {}
                        lemma_sound_monotone(before, pmm@, mem@, self.root());
                    }
                    if proper_path(
                        before,
                        mem@,
                        self.root(),
                        DEPTH_MAX,
                        page@,
                        DEPTH_MIN,
                        Set::empty(),
                    ) {
                        assert forall|x: u64| held(before, x) implies held(pmm@, x) by {}
                        lemma_proper_path_monotone(
                            before,
                            pmm@,
                            mem@,
                            self.root(),
                            DEPTH_MAX,
                            page@,
                            DEPTH_MIN,
                            Set::empty(),
                        );
                    }
                }
                let result = self.map(pmm, mem, page, PageDepth::min(), frame, false, attributes);
                proof {
                    lemma_first_usable(before);
                }
                result
            },
            Err(_) => Err(MapperError::AllocError),
        }
    }

    /// Whether `page` is mapped: the reading walk reaches a taken entry.
    pub fn is_mapped(&self, mem: &PhysicalMemory, page: Page, depth: Option<PageDepth>) -> (result:
        bool)
        ensures
            result == walk(mem@, self.root(), DEPTH_MAX, page@, depth_view(depth)).is_ok(),
    {
        let root_table = self.root.table();
        root_table.with_entry(mem, page, depth).is_ok()
    }

    /// Whether `page` is mapped, at its natural leaf, to `frame`.
    pub fn is_mapped_to(&self, mem: &PhysicalMemory, page: Page, frame: Frame) -> (result: bool)
        ensures
            result == match walk(mem@, self.root(), DEPTH_MAX, page@, None) {
                Ok(slot) => word_frame(slot.word) == frame@,
                Err(_) => false,
            },
    {
        let root_table = self.root.table();
        match root_table.with_entry(mem, page, None) {
            Ok(slot) => slot.entry().get_frame().get() == frame.get(),
            Err(_) => false,
        }
    }

    /// The frame that `page` is mapped to at its natural leaf, if it is mapped.
    pub fn get_mapped_to(&self, mem: &PhysicalMemory, page: Page) -> (result: Option<Frame>)
        ensures
            result.is_some() == walk(mem@, self.root(), DEPTH_MAX, page@, None).is_ok(),
            result.is_some() ==> result.unwrap()@ == word_frame(
                walk(mem@, self.root(), DEPTH_MAX, page@, None).unwrap().word,
            ),
    {
        let root_table = self.root.table();
        match root_table.with_entry(mem, page, None) {
            Ok(slot) => Some(slot.entry().get_frame()),
            Err(_) => None,
        }
    }

    /// The attributes of the entry that maps `page` at its natural leaf, if
    /// it is mapped.
    pub fn get_page_attributes(&self, mem: &PhysicalMemory, page: Page) -> (result: Option<
        PageAttributes,
    >)
        ensures
            result.is_some() == walk(mem@, self.root(), DEPTH_MAX, page@, None).is_ok(),
            result.is_some() ==> result.unwrap()@ == word_attributes(
                walk(mem@, self.root(), DEPTH_MAX, page@, None).unwrap().word,
            ),
    {
        let root_table = self.root.table();
        match root_table.with_entry(mem, page, None) {
            Ok(slot) => Some(slot.entry().get_attributes()),
            Err(_) => None,
        }
    }

    /// Sets, removes or toggles attributes of the entry that maps `page`.
    /// Fails with the error of the walk, and changes nothing, if the walk
    /// does not reach a taken entry. Whatever the result, `page` is noted
    /// for invalidation. Over sound tables, when the entry stands on the
    /// lowest level, every other page is as it was.
    pub fn set_page_attributes(
        &mut self,
        mem: &mut PhysicalMemory,
        page: Page,
        depth: Option<PageDepth>,
        attributes: PageAttributes,
        modify_mode: AttributeModify,
    ) -> (result: Result<(), MapperError>)
        ensures
            ({
                let found = walk(old(mem)@, old(self).root(), DEPTH_MAX, page@, depth_view(depth));
                result == match found {
                    Ok(_) => Ok::<(), MapperError>(()),
                    Err(error) => Err::<(), MapperError>(MapperError::PagingError(error)),
                }
            }),
            final(mem)@ == set_attributes_outcome(
                old(mem)@,
                old(self).root(),
                page@,
                depth_view(depth),
                attributes@,
                modify_mode,
            ),
            final(self).root() == old(self).root(),
            final(self).invalidations() == old(self).invalidations().push(page),
            forall|frames: Seq<FrameType>|
                result.is_ok() && #[trigger] tables_sound(frames, old(mem)@, old(self).root())
                    && walk(
                    old(mem)@,
                    old(self).root(),
                    DEPTH_MAX,
                    page@,
                    depth_view(depth),
                ).unwrap().level == DEPTH_MIN ==> {
                    &&& tables_sound(frames, final(mem)@, old(self).root())
                    &&& forall|other: u64|
                        !same_slot(other, page@) ==> #[trigger] walk(
                            final(mem)@,
                            old(self).root(),
                            DEPTH_MAX,
                            other,
                            None,
                        ) == walk(old(mem)@, old(self).root(), DEPTH_MAX, other, None)
                },
    {
        proof {
            mem.lemma_well_shaped();
            let found = walk(mem@, self.root(), DEPTH_MAX, page@, depth_view(depth));
            assert forall|frames: Seq<FrameType>|
                found.is_ok() && #[trigger] tables_sound(frames, mem@, self.root())
                    && found.unwrap().level == DEPTH_MIN implies ({
                let after = set_attributes_outcome(
                    mem@,
                    self.root(),
                    page@,
                    depth_view(depth),
                    attributes@,
                    modify_mode,
                );
                &&& tables_sound(frames, after, self.root())
                &&& forall|other: u64|
                    !same_slot(other, page@) ==> #[trigger] walk(
                        after,
                        self.root(),
                        DEPTH_MAX,
                        other,
                        None,
                    ) == walk(mem@, self.root(), DEPTH_MAX, other, None)
            }) by {
                let places = choose|places: Map<u64, Place>| sound(frames, mem@, self.root(), places);
                lemma_leaf_write_keeps_others(
                    frames,
                    mem@,
                    self.root(),
                    places,
                    page@,
                    depth_view(depth),
                    modify_word(found.unwrap().word, attributes@, modify_mode),
                );
            }
        }
        self.pending.push(page);
        let root_table = self.root.table();
        match root_table.with_entry(mem, page, depth) {
            Ok(slot) => {
                let mut entry = slot.entry();
                entry.set_attributes(attributes, modify_mode);
                slot.store(mem, entry);
                Ok(())
            },
            Err(error) => Err(MapperError::PagingError(error)),
        }
    }

    /// The value to load into the root register so that this address space
    /// becomes the active one.
    pub fn commit_vmem_register(&self) -> (result: Result<u64, MapperError>)
        ensures
            result == Ok::<u64, MapperError>(self.root()),
    {
        let value: u64 = CR3::write(&self.root.frame, None);
        assert(value == self.root.frame@) by {
            let a: u64 = self.root.frame@;
            assert(a | 0u64 == a) by (bit_vector);
        }
        Ok(value)
    }
}

} // verus!
