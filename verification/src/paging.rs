//! Pages, frames and the address arithmetic of 4 KiB paging.

use vstd::prelude::*;
use x86_64::structures::paging::{Page as HardwarePage, PageSize, PageTableIndex, Size4KiB};
use x86_64::VirtAddr;

verus! {

/// Size in bytes of a page and of a frame.
pub const PAGE_SIZE: u64 = 4096;

/// First address that is no physical address any more (2^52).
pub const PHYS_ADDR_LIMIT: u64 = 0x10_0000_0000_0000;

/// One past the last address of the lower canonical half (2^47).
pub const LOWER_HALF_END: u64 = 0x8000_0000_0000;

/// First address of the upper canonical half (2^64 - 2^47).
pub const UPPER_HALF_START: u64 = 0xffff_8000_0000_0000;

/// Number of entries of a page table.
pub const ENTRY_COUNT: u16 = 512;

/// Bytes of virtual address space reached through one top-level entry (2^39).
pub const TOP_LEVEL_SPAN: u64 = 0x80_0000_0000;

/// The greatest multiple of the page size that is not above `addr`.
pub open spec fn page_floor(addr: int) -> int {
    addr - addr % 4096
}

/// The least multiple of the page size that is not below `addr`.
pub open spec fn page_ceil(addr: int) -> int {
    if addr % 4096 == 0 {
        addr
    } else {
        addr - addr % 4096 + 4096
    }
}

/// The number of pages from the page of the byte at `first` through the page
/// of the last of `size` bytes; for no bytes, the pages from the page of
/// `first` through the page of the byte before it.
pub open spec fn pages_spanned(first: int, size: int) -> int {
    (page_floor(first + size - 1) - page_floor(first)) / 4096 + 1
}

/// Addresses that lie equally far into their pages keep doing so when both
/// move by `shift`.
pub proof fn lemma_page_offsets_shift(a: int, b: int, shift: int)
    requires
        a % 4096 == b % 4096,
    ensures
        (a + shift) % 4096 == (b + shift) % 4096,
        page_floor(a + shift) - page_floor(a) == page_floor(b + shift) - page_floor(b),
{
    let lift = a / 4096 - b / 4096;
    assert(a + shift == 4096 * lift + (b + shift));
    vstd::arithmetic::div_mod::lemma_mod_multiples_vanish(lift, b + shift, 4096);
}

/// The pages that `size` bytes from `first` on span end with the page of the
/// last byte.
pub proof fn lemma_pages_spanned(first: int, size: int)
    requires
        size >= 0,
    ensures
        pages_spanned(first, size) >= 0,
        page_floor(first) + pages_spanned(first, size) * 4096 == page_floor(first + size - 1) + 4096,
        pages_spanned(first, size) == 0 <==> size == 0 && first % 4096 == 0,
{
    let low = first / 4096;
    let high = (first + size - 1) / 4096;
    assert(page_floor(first) == 4096 * low);
    assert(page_floor(first + size - 1) == 4096 * high);
    assert((4096 * high - 4096 * low) / 4096 == high - low);
}

/// Whether `addr` is a canonical virtual address: bits 48 to 63 repeat bit 47.
pub open spec fn canonical(addr: u64) -> bool {
    addr < LOWER_HALF_END || addr >= UPPER_HALF_START
}

/// The index of the top-level table entry through which `addr` is reached.
pub open spec fn top_level_index_of(addr: u64) -> int {
    (addr as int / 0x80_0000_0000) % 512
}

/// The lowest canonical address reached through top-level entry `slot`.
pub open spec fn slot_base(slot: int) -> int {
    if slot < 256 {
        slot * 0x80_0000_0000
    } else {
        slot * 0x80_0000_0000 + 0xffff_0000_0000_0000
    }
}

/// The number of whole pages that hold `size` bytes.
pub fn pages_needed(size: usize) -> (count: usize)
    ensures
        count == (size + 4095) / 4096,
{
    if size % 4096 == 0 {
        size / 4096
    } else {
        size / 4096 + 1
    }
}

/// A 4 KiB frame of physical memory, named by its first address.
#[derive(Clone, Copy, Debug, PartialEq, Eq, Structural)]
pub struct Frame {
    pub start: u64,
}

impl Frame {
    /// A frame starts on a page boundary and lies below the physical address limit.
    pub open spec fn wf(self) -> bool {
        self.start % 4096 == 0 && self.start < PHYS_ADDR_LIMIT
    }

    /// The frame that holds the physical address `addr`.
    pub fn containing_address(addr: u64) -> (frame: Frame)
        ensures
            frame.start == page_floor(addr as int),
            addr < PHYS_ADDR_LIMIT ==> frame.wf(),
    {
        Frame { start: addr - addr % PAGE_SIZE }
    }

    /// The first address of the frame.
    pub fn start_address(&self) -> (addr: u64)
        ensures
            addr == self.start,
    {
        self.start
    }
}

/// A 4 KiB page of virtual memory, named by its first address.
#[derive(Clone, Copy, Debug, PartialEq, Eq, Structural)]
pub struct Page {
    pub start: u64,
}

impl Page {
    /// A page starts on a page boundary at a canonical address.
    pub open spec fn wf(self) -> bool {
        self.start % 4096 == 0 && canonical(self.start)
    }

    /// The page that holds the virtual address `addr`.
    pub fn containing_address(addr: u64) -> (page: Page)
        ensures
            page.start == page_floor(addr as int),
            canonical(addr) ==> page.wf(),
    {
        Page { start: addr - addr % PAGE_SIZE }
    }

    /// The first address of the page.
    pub fn start_address(&self) -> (addr: u64)
        ensures
            addr == self.start,
    {
        self.start
    }

    /// The index of the top-level table entry through which the page is reached.
    pub fn top_level_index(&self) -> (index: u16)
        requires
            self.wf(),
        ensures
            index == top_level_index_of(self.start),
            index < ENTRY_COUNT,
    {
        top_level_index(self.start)
    }
}

/// Calls `x86_64::align_up` with the size of a 4 KiB page. It returns the
/// smallest multiple of the page size that is not below `addr`, and panics
/// where that multiple does not fit in 64 bits.
#[verifier::external_body]
pub(crate) fn align_up_to_page(addr: u64) -> (aligned: u64)
    requires
        page_ceil(addr as int) <= u64::MAX,
    ensures
        aligned == page_ceil(addr as int),
{
    x86_64::align_up(addr, Size4KiB::SIZE)
}

/// Calls `x86_64::VirtAddr::p4_index` on the canonical address `addr`: bits 39
/// to 47 of the address.
#[verifier::external_body]
pub(crate) fn top_level_index(addr: u64) -> (index: u16)
    requires
        canonical(addr),
    ensures
        index == top_level_index_of(addr),
        index < ENTRY_COUNT,
{
    u16::from(VirtAddr::new(addr).p4_index())
}

/// Calls `x86_64::structures::paging::Page::from_page_table_indices_1gib` with
/// the top-level index `slot` and the next index 0, and gives the start of
/// that page: `slot` shifted to bits 39 to 47, with bits 48 to 63 set to
/// copies of bit 47.
#[verifier::external_body]
pub(crate) fn top_level_slot_base(slot: u16) -> (base: u64)
    requires
        slot < ENTRY_COUNT,
    ensures
        base == slot_base(slot as int),
{
    HardwarePage::from_page_table_indices_1gib(PageTableIndex::new(slot), PageTableIndex::new(0))
        .start_address()
        .as_u64()
}

} // verus!
