//! Physical frames, virtual pages and page-table depths.
//!
//! A [`Frame`] names one 4 KiB granule of physical memory and a [`Page`] one
//! 4 KiB granule of a virtual address space. Both are plain values: they name
//! memory and never own it.

use vstd::prelude::*;

verus! {

/// Size in bytes of a frame and of a page.
pub const PAGE_SIZE: u64 = 0x1000;

/// Number of entries in one page table.
pub const TABLE_ENTRIES: usize = 512;

/// First physical address that no frame can have (52 address bits).
pub const PHYSICAL_LIMIT: u64 = 0x10_0000_0000_0000;

/// The bits of a 64-bit word that hold a frame address.
pub const FRAME_ADDRESS_MASK: u64 = 0x000F_FFFF_FFFF_F000;

/// Lowest page-table level: its entries map 4 KiB pages.
pub const DEPTH_MIN: u8 = 1;

/// Highest page-table level: the root table of an address space.
pub const DEPTH_MAX: u8 = 4;

/// Whether `addr` is the address of a frame: page aligned and below the
/// physical limit.
pub open spec fn is_frame_address(addr: u64) -> bool {
    addr % PAGE_SIZE == 0 && addr < PHYSICAL_LIMIT
}

/// Whether `addr` is the address of a page: page aligned.
pub open spec fn is_page_address(addr: u64) -> bool {
    addr % PAGE_SIZE == 0
}

/// The slot that the page at `addr` selects in a table of the given level.
pub open spec fn table_index_of(addr: u64, level: u8) -> int {
    if level == 1 {
        (addr as int / 0x1000) % 512
    } else if level == 2 {
        (addr as int / 0x20_0000) % 512
    } else if level == 3 {
        (addr as int / 0x4000_0000) % 512
    } else {
        (addr as int / 0x80_0000_0000) % 512
    }
}

/// One physical page, named by its aligned physical address.
#[derive(Clone, Copy, Debug, PartialEq, Eq, Structural)]
pub struct Frame {
    addr: u64,
}

impl View for Frame {
    type V = u64;

    /// The physical address of the frame.
    closed spec fn view(&self) -> u64 {
        self.addr
    }
}

impl Frame {
    #[verifier::type_invariant]
    spec fn aligned_and_addressable(self) -> bool {
        is_frame_address(self.addr)
    }

    /// The frame at `addr`, if `addr` is page aligned and below the physical limit.
    pub fn new(addr: u64) -> (result: Option<Frame>)
        ensures
            result.is_some() <==> is_frame_address(addr),
            result.is_some() ==> result.unwrap()@ == addr,
    {
        if addr % PAGE_SIZE == 0 && addr < PHYSICAL_LIMIT {
            Some(Frame { addr })
        } else {
            None
        }
    }

    /// The frame that contains `addr`, after dropping every bit that a frame
    /// address cannot have.
    pub fn new_truncate(addr: u64) -> (result: Frame)
        ensures
            result@ == addr & FRAME_ADDRESS_MASK,
            is_frame_address(result@),
    {
        let masked: u64 = addr & FRAME_ADDRESS_MASK;
        assert(masked % 0x1000 == 0 && masked < 0x10_0000_0000_0000) by (bit_vector)
            requires
                masked == addr & 0x000F_FFFF_FFFF_F000,
        ;
        Frame { addr: masked }
    }

    /// The frame with the given index, if it lies below the physical limit.
    pub fn from_index(index: u64) -> (result: Option<Frame>)
        ensures
            result.is_some() <==> index < PHYSICAL_LIMIT / PAGE_SIZE,
            result.is_some() ==> result.unwrap()@ == index * PAGE_SIZE,
    {
        if index < PHYSICAL_LIMIT / PAGE_SIZE {
            Some(Frame { addr: index * PAGE_SIZE })
        } else {
            None
        }
    }

    /// The physical address of the frame.
    pub fn get(&self) -> (result: u64)
        ensures
            result == self@,
            is_frame_address(result),
    {
        proof {
            use_type_invariant(self);
        }
        self.addr
    }

    /// The index of the frame: its address in units of frames.
    pub fn index(&self) -> (result: u64)
        ensures
            result == self@ / PAGE_SIZE,
            result * PAGE_SIZE == self@,
            result < PHYSICAL_LIMIT / PAGE_SIZE,
    {
        proof {
            use_type_invariant(self);
        }
        self.addr / PAGE_SIZE
    }
}

/// One virtual page, named by its aligned virtual address.
#[derive(Clone, Copy, Debug, PartialEq, Eq, Structural)]
pub struct Page {
    addr: u64,
}

impl View for Page {
    type V = u64;

    /// The virtual address of the page.
    closed spec fn view(&self) -> u64 {
        self.addr
    }
}

impl Page {
    #[verifier::type_invariant]
    spec fn aligned(self) -> bool {
        is_page_address(self.addr)
    }

    /// The page at `addr`, if `addr` is page aligned.
    pub fn new(addr: u64) -> (result: Option<Page>)
        ensures
            result.is_some() <==> is_page_address(addr),
            result.is_some() ==> result.unwrap()@ == addr,
    {
        if addr % PAGE_SIZE == 0 {
            Some(Page { addr })
        } else {
            None
        }
    }

    /// The page that contains `addr`.
    pub fn new_truncate(addr: u64) -> (result: Page)
        ensures
            result@ == addr - addr % PAGE_SIZE,
            is_page_address(result@),
    {
        Page { addr: addr - addr % PAGE_SIZE }
    }

    /// The page with the given index, if its address fits in 64 bits.
    pub fn from_index(index: u64) -> (result: Option<Page>)
        ensures
            result.is_some() <==> index <= u64::MAX / PAGE_SIZE,
            result.is_some() ==> result.unwrap()@ == index * PAGE_SIZE,
    {
        if index <= u64::MAX / PAGE_SIZE {
            Some(Page { addr: index * PAGE_SIZE })
        } else {
            None
        }
    }

    /// The virtual address of the page.
    pub fn get(&self) -> (result: u64)
        ensures
            result == self@,
            is_page_address(result),
    {
        proof {
            use_type_invariant(self);
        }
        self.addr
    }

    /// The index of the page: its address in units of pages.
    pub fn index(&self) -> (result: u64)
        ensures
            result == self@ / PAGE_SIZE,
            result * PAGE_SIZE == self@,
    {
        proof {
            use_type_invariant(self);
        }
        self.addr / PAGE_SIZE
    }

    /// The slot that this page selects in a table of the given depth.
    pub fn table_index(&self, depth: PageDepth) -> (result: usize)
        ensures
            result == table_index_of(self@, depth@),
            result < TABLE_ENTRIES,
    {
        let addr: u64 = self.addr;
        let level: u8 = depth.get();
        assert(((addr >> 12) & 0x1ff) == (addr / 0x1000) % 512 && ((addr >> 21) & 0x1ff) == (addr
            / 0x20_0000) % 512 && ((addr >> 30) & 0x1ff) == (addr / 0x4000_0000) % 512 && ((addr
            >> 39) & 0x1ff) == (addr / 0x80_0000_0000) % 512) by (bit_vector);
        let slot: u64 = if level == 1 {
            (addr >> 12) & 0x1ff
        } else if level == 2 {
            (addr >> 21) & 0x1ff
        } else if level == 3 {
            (addr >> 30) & 0x1ff
        } else {
            (addr >> 39) & 0x1ff
        };
        slot as usize
    }
}

/// The level of a page table, from [`DEPTH_MIN`] (tables of 4 KiB leaves) up
/// to [`DEPTH_MAX`] (the root table).
#[derive(Clone, Copy, Debug, PartialEq, Eq, Structural)]
pub struct PageDepth {
    level: u8,
}

impl View for PageDepth {
    type V = u8;

    /// The level as a number.
    closed spec fn view(&self) -> u8 {
        self.level
    }
}

impl PageDepth {
    #[verifier::type_invariant]
    spec fn in_range(self) -> bool {
        DEPTH_MIN <= self.level <= DEPTH_MAX
    }

    /// The depth with the given level, if the level exists.
    pub fn new(level: u8) -> (result: Option<PageDepth>)
        ensures
            result.is_some() <==> DEPTH_MIN <= level <= DEPTH_MAX,
            result.is_some() ==> result.unwrap()@ == level,
    {
        if DEPTH_MIN <= level && level <= DEPTH_MAX {
            Some(PageDepth { level })
        } else {
            None
        }
    }

    /// The depth of the tables whose entries map 4 KiB pages.
    pub fn min() -> (result: PageDepth)
        ensures
            result@ == DEPTH_MIN,
    {
        PageDepth { level: DEPTH_MIN }
    }

    /// The depth of a root table.
    pub fn max() -> (result: PageDepth)
        ensures
            result@ == DEPTH_MAX,
    {
        PageDepth { level: DEPTH_MAX }
    }

    /// The level as a number.
    pub fn get(&self) -> (result: u8)
        ensures
            result == self@,
            DEPTH_MIN <= result <= DEPTH_MAX,
    {
        proof {
            use_type_invariant(self);
        }
        self.level
    }

    /// The depth one level below this one, if there is one.
    pub fn next(&self) -> (result: Option<PageDepth>)
        ensures
            result.is_some() <==> self@ > DEPTH_MIN,
            result.is_some() ==> result.unwrap()@ == self@ - 1,
    {
        proof {
            use_type_invariant(self);
        }
        if self.level > DEPTH_MIN {
            Some(PageDepth { level: self.level - 1 })
        } else {
            None
        }
    }

    /// Number of bytes that one entry of a table of this depth maps.
    pub fn page_size(&self) -> (result: u64)
        ensures
            self@ == 1 ==> result == 0x1000,
            self@ == 2 ==> result == 0x20_0000,
            self@ == 3 ==> result == 0x4000_0000,
            self@ == 4 ==> result == 0x80_0000_0000,
    {
        proof {
            use_type_invariant(self);
        }
        if self.level == 1 {
            0x1000
        } else if self.level == 2 {
            0x20_0000
        } else if self.level == 3 {
            0x4000_0000
        } else {
            0x80_0000_0000
        }
    }
}

} // verus!
