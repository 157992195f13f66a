//! Placing the kernel's stack and preparing the hand-over of control.

use vstd::prelude::*;
use crate::address_space::{first_unused_slot, slot_used, AddressSpace, Backing, Mapped, PageFlags};
use crate::kernel::{KernelExecutable, KernelImage};
use crate::loader::{
    in_run, load_image, map_file_pages, map_run, map_zero_pages, zero_fill, LoadError, LoadState,
};
use crate::loading_laws::{lemma_zero_fill_done, lemma_zero_fill_unmapped};
use crate::memory::NutcrackerFrameAllocator;
use crate::paging::{
    page_floor, slot_base, top_level_index_of, top_level_slot_base, Frame, Page, LOWER_HALF_END,
    PAGE_SIZE,
};

verus! {

/// The size of the kernel's stack in bytes: 80 KiB.
pub const STACK_SIZE: u64 = 81920;

/// The number of pages of the kernel's stack.
pub const STACK_PAGES: u64 = 20;

/// The number of pages that are mapped for the code that hands over control.
pub const SWITCH_CODE_PAGES: u64 = 2;

/// Why no stack was placed.
#[derive(Clone, Copy, Debug, PartialEq, Eq, Structural)]
pub enum StackError {
    /// Every entry of the top-level table is in use.
    NoFreeSlot,
    /// The frame allocator is exhausted.
    OutOfFrames,
}

/// The permissions of the stack: present, writable, not executable.
pub open spec fn stack_flags() -> PageFlags {
    PageFlags { present: true, writable: true, no_execute: true }
}

/// Placing the stack: the first unused entry of the top-level table is
/// taken, the first page reached through it stays unmapped as the guard,
/// and the pages after it are mapped to fresh frames of zero bytes. The
/// result holds the address one past the stack's last byte.
pub open spec fn provision(state: LoadState) -> Result<(LoadState, int), StackError> {
    let slot = first_unused_slot(state.pages, 0);
    if slot >= 512 {
        Err(StackError::NoFreeSlot)
    } else {
        let start = slot_base(slot) + 4096;
        match zero_fill(state, start, STACK_PAGES as nat, stack_flags()) {
            Ok(placed) => Ok((placed, start + STACK_SIZE)),
            Err(_) => Err(StackError::OutOfFrames),
        }
    }
}

/// A stack that ends at `top` is in place in `after`, made from `before`:
/// the page below its first page is not mapped, each of its pages is mapped
/// present, writable and not executable to a frame of zero bytes, and every
/// page that was mapped before is mapped as it was.
pub open spec fn stack_in_place(before: Map<Page, Mapped>, after: Map<Page, Mapped>, top: int) -> bool {
    let start = top - STACK_SIZE;
    &&& !after.contains_key(Page { start: (start - 4096) as u64 })
    &&& forall|page: Page| #[trigger]
        in_run(page, start, STACK_PAGES as int) ==> after.contains_key(page) && after[page].flags
            == stack_flags() && after[page].backing == Backing::Zeroed
    &&& forall|page: Page| #[trigger]
        before.contains_key(page) ==> after.contains_key(page) && after[page] == before[page]
    &&& forall|page: Page| #[trigger]
        after.contains_key(page) ==> before.contains_key(page) || in_run(
            page,
            start,
            STACK_PAGES as int,
        )
}

proof fn lemma_first_unused_slot(pages: Map<Page, Mapped>, from: int)
    requires
        0 <= from <= 512,
    ensures
        from <= first_unused_slot(pages, from) <= 512,
        first_unused_slot(pages, from) < 512 ==> !slot_used(pages, first_unused_slot(pages, from)),
    decreases 512 - from,
{
    if from < 512 && slot_used(pages, from) {
        lemma_first_unused_slot(pages, from + 1);
    }
}

/// Every address of the span of a top-level entry is reached through that
/// entry.
proof fn lemma_slot_span(slot: int, address: u64)
    requires
        0 <= slot < 512,
        slot_base(slot) <= address < slot_base(slot) + 0x80_0000_0000,
    ensures
        top_level_index_of(address) == slot,
{
    if slot < 256 {
        assert(address as int / 0x80_0000_0000 == slot);
    } else {
        assert(0xffff_0000_0000_0000 == 0x1fffe00 * 0x80_0000_0000);
        assert(address as int / 0x80_0000_0000 == slot + 0x1fffe00);
    }
}

/// Placing the stack fails only where no entry of the top-level table is
/// unused or the frames run out. Where it succeeds, the stack is in place:
/// the page below the stack is not mapped, every page of the stack is mapped
/// present, writable and not executable to a frame of zero bytes, and every
/// page that was mapped before is mapped as before.
pub proof fn law_stack_guarded(state: LoadState)
    ensures
        match provision(state) {
            Ok((placed, top)) => stack_in_place(state.pages, placed.pages, top) && 0 <= top - STACK_SIZE
                - 4096 && top <= u64::MAX,
            Err(error) => error == (if first_unused_slot(state.pages, 0) >= 512 {
                StackError::NoFreeSlot
            } else {
                StackError::OutOfFrames
            }),
        },
{
    lemma_first_unused_slot(state.pages, 0);
    let slot = first_unused_slot(state.pages, 0);
    if slot < 512 {
        let base = slot_base(slot);
        let start = base + 4096;
        assert forall|page: Page| #[trigger]
            in_run(page, start, STACK_PAGES as int) implies !state.pages.contains_key(page) by {
            lemma_slot_span(slot, page.start);
        }
        lemma_slot_span(slot, base as u64);
        assert(!state.pages.contains_key(Page { start: base as u64 }));
        lemma_zero_fill_unmapped(state, start, STACK_PAGES as nat, stack_flags());
        if zero_fill(state, start, STACK_PAGES as nat, stack_flags()) is Ok {
            lemma_zero_fill_done(state, start, STACK_PAGES as nat, stack_flags());
            let placed = zero_fill(state, start, STACK_PAGES as nat, stack_flags())->Ok_0;
            assert(!in_run(Page { start: base as u64 }, start, STACK_PAGES as int));
            assert(stack_in_place(state.pages, placed.pages, start + STACK_SIZE));
        }
    }
}

/// Places the kernel's stack in `address_space` and returns the address one
/// past its last byte: the stack pointer to start with.
pub fn provision_stack(
    address_space: &mut AddressSpace,
    frame_allocator: &mut NutcrackerFrameAllocator,
) -> (result: Result<u64, StackError>)
    requires
        old(address_space).wf(),
        old(frame_allocator).wf(),
    ensures
        final(address_space).wf(),
        final(frame_allocator).wf(),
        final(address_space).root() == old(address_space).root(),
        match provision(LoadState { pages: old(address_space)@, allocator: old(frame_allocator)@ }) {
            Ok((placed, top)) => result == Ok::<u64, StackError>(top as u64) && top <= u64::MAX
                && final(address_space)@ == placed.pages && final(frame_allocator)@
                == placed.allocator,
            Err(error) => result == Err::<u64, StackError>(error),
        },
        result matches Ok(top) ==> stack_in_place(old(address_space)@, final(address_space)@, top as int),
{
    let ghost before = LoadState { pages: address_space@, allocator: frame_allocator@ };
    proof {
        lemma_first_unused_slot(before.pages, 0);
    }
    let slot = match address_space.first_unused_top_level_slot() {
        Some(slot) => slot,
        None => {
            return Err(StackError::NoFreeSlot);
        },
    };
    let base: u64 = top_level_slot_base(slot);
    let start: u64 = base + PAGE_SIZE;
    proof {
        law_stack_guarded(before);
    }
    let flags = PageFlags { present: true, writable: true, no_execute: true };
    match map_zero_pages(address_space, frame_allocator, start, STACK_PAGES, flags) {
        Ok(_) => Ok(start + STACK_SIZE),
        Err(_) => Err(StackError::OutOfFrames),
    }
}


/// Why the code that hands over control was not mapped.
#[derive(Clone, Copy, Debug, PartialEq, Eq, Structural)]
pub enum SwitchError {
    /// The code does not lie at addresses that are canonical as virtual
    /// addresses.
    UnsupportedAddress,
    /// A page of the code is mapped already.
    PageAlreadyMapped,
}

/// Why the kernel was not made ready.
#[derive(Clone, Copy, Debug, PartialEq, Eq, Structural)]
pub enum BootError {
    /// Loading the segments failed.
    Load(LoadError),
    /// Placing the stack failed.
    Stack(StackError),
    /// Mapping the code that hands over control failed.
    Switch(SwitchError),
}

/// What the hand-over of control takes.
#[derive(Clone, Copy, Debug, PartialEq, Eq, Structural)]
pub struct Handover {
    /// The frame of the top-level table of the new address space.
    pub page_table: Frame,
    /// The stack pointer to start with.
    pub stack_top: u64,
    /// The virtual address at which the kernel is entered.
    pub entry_point: u64,
}

/// The permissions of the code that hands over control: present, and neither
/// writable nor barred from execution.
pub open spec fn switch_code_flags() -> PageFlags {
    PageFlags { present: true, writable: false, no_execute: false }
}

/// Whether the two frames from the frame of `address` on lie at addresses
/// that are canonical as virtual addresses.
pub open spec fn switch_code_supported(address: u64) -> bool {
    page_floor(address as int) + SWITCH_CODE_PAGES * 4096 <= LOWER_HALF_END
}

/// Mapping the code that hands over control: the frame of `address` and the
/// frame after it are mapped at the virtual addresses that equal their
/// physical addresses.
pub open spec fn map_switch_code(pages: Map<Page, Mapped>, address: u64) -> Result<
    Map<Page, Mapped>,
    SwitchError,
> {
    if !switch_code_supported(address) {
        Err(SwitchError::UnsupportedAddress)
    } else {
        match map_run(
            pages,
            page_floor(address as int),
            page_floor(address as int),
            SWITCH_CODE_PAGES as int,
            switch_code_flags(),
        ) {
            Ok(mapped) => Ok(mapped),
            Err(_) => Err(SwitchError::PageAlreadyMapped),
        }
    }
}

/// Making the kernel ready: its segments are loaded, its stack is placed, and
/// the code that hands over control is mapped. The result holds what the
/// hand-over takes.
pub open spec fn boot(image: KernelImage, state: LoadState, root: Frame, code_address: u64) -> Result<
    (LoadState, Handover),
    BootError,
> {
    match load_image(image, state) {
        Err(error) => Err(BootError::Load(error)),
        Ok(loaded) => match provision(loaded) {
            Err(error) => Err(BootError::Stack(error)),
            Ok((placed, top)) => match map_switch_code(placed.pages, code_address) {
                Err(error) => Err(BootError::Switch(error)),
                Ok(pages) => Ok(
                    (
                        LoadState { pages, allocator: placed.allocator },
                        Handover { page_table: root, stack_top: top as u64, entry_point: image.entry },
                    ),
                ),
            },
        },
    }
}

/// Maps the code that hands over control, which lies at the physical address
/// `code_address`, at the same virtual address, so that it can still be
/// fetched once the new address space is active.
pub fn identity_map_switch_code(address_space: &mut AddressSpace, code_address: u64) -> (result:
    Result<(), SwitchError>)
    requires
        old(address_space).wf(),
    ensures
        final(address_space).wf(),
        final(address_space).root() == old(address_space).root(),
        match map_switch_code(old(address_space)@, code_address) {
            Ok(pages) => result is Ok && final(address_space)@ == pages,
            Err(error) => result == Err::<(), SwitchError>(error),
        },
{
    let first: u64 = code_address - code_address % PAGE_SIZE;
    if first > LOWER_HALF_END - SWITCH_CODE_PAGES * PAGE_SIZE {
        return Err(SwitchError::UnsupportedAddress);
    }
    let flags = PageFlags { present: true, writable: false, no_execute: false };
    match map_file_pages(address_space, first, first, SWITCH_CODE_PAGES, flags) {
        Ok(_) => Ok(()),
        Err(_) => Err(SwitchError::PageAlreadyMapped),
    }
}

/// Makes the kernel ready to be entered: loads its segments, places its
/// stack, and maps the code that hands over control, which lies at the
/// physical address `switch_code_address`. Returns what the hand-over takes.
pub fn load_kernel(
    kernel: &KernelExecutable,
    address_space: &mut AddressSpace,
    frame_allocator: &mut NutcrackerFrameAllocator,
    switch_code_address: u64,
) -> (result: Result<Handover, BootError>)
    requires
        kernel.wf(),
        old(address_space).wf(),
        old(frame_allocator).wf(),
    ensures
        final(address_space).wf(),
        final(frame_allocator).wf(),
        final(address_space).root() == old(address_space).root(),
        match boot(
            kernel@,
            LoadState { pages: old(address_space)@, allocator: old(frame_allocator)@ },
            old(address_space).root(),
            switch_code_address,
        ) {
            Ok((state, handover)) => result == Ok::<Handover, BootError>(handover)
                && final(address_space)@ == state.pages
                && final(frame_allocator)@ == state.allocator,
            Err(error) => result == Err::<Handover, BootError>(error),
        },
{
    let entry_point = match kernel.load_segments(address_space, frame_allocator) {
        Ok(entry_point) => entry_point,
        Err(error) => {
            return Err(BootError::Load(error));
        },
    };
    let stack_top = match provision_stack(address_space, frame_allocator) {
        Ok(stack_top) => stack_top,
        Err(error) => {
            return Err(BootError::Stack(error));
        },
    };
    if let Err(error) = identity_map_switch_code(address_space, switch_code_address) {
        return Err(BootError::Switch(error));
    }
    Ok(Handover { page_table: address_space.root_frame(), stack_top, entry_point })
}


/// At the hand-over the stack is in place as it was placed, unless the code
/// that hands over control lies on the page below the stack: that page is
/// not mapped, and every page of the stack is mapped present, writable and
/// not executable to a frame of zero bytes.
pub proof fn law_stack_guarded_at_handover(
    image: KernelImage,
    state: LoadState,
    root: Frame,
    code_address: u64,
)
    requires
        boot(image, state, root, code_address) is Ok,
        !in_run(
            Page {
                start: (boot(image, state, root, code_address)->Ok_0.1.stack_top - STACK_SIZE
                    - 4096) as u64,
            },
            page_floor(code_address as int),
            SWITCH_CODE_PAGES as int,
        ),
    ensures
        ({
            let (ready, handover) = boot(image, state, root, code_address)->Ok_0;
            let start = handover.stack_top - STACK_SIZE;
            &&& !ready.pages.contains_key(Page { start: (start - 4096) as u64 })
            &&& forall|page: Page| #[trigger]
                in_run(page, start, STACK_PAGES as int) ==> ready.pages.contains_key(page)
                    && ready.pages[page].flags == stack_flags() && ready.pages[page].backing
                    == Backing::Zeroed
        }),
{
    let loaded = load_image(image, state)->Ok_0;
    law_stack_guarded(loaded);
}

} // verus!
