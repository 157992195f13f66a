//! The sequential physical frame allocator over the firmware's memory map.

use vstd::prelude::*;
use uefi::table::boot::{MemoryDescriptor, MemoryMapIter};
use crate::paging::{page_floor, Frame, PAGE_SIZE, PHYS_ADDR_LIMIT};

verus! {

/// The memory type that the firmware gives to free, general-purpose memory.
pub const CONVENTIONAL_MEMORY: u32 = 7;

/// The address below which no frame is ever handed out.
pub const MIN_PHYS_MEMORY_ADDRESS: u64 = 10_000;

/// One span of physical memory as the firmware reports it.
#[derive(Clone, Copy, Debug, PartialEq, Eq, Structural)]
pub struct MemoryRegion {
    /// The firmware's memory type.
    pub kind: u32,
    /// The first physical address of the span.
    pub phys_start: u64,
    /// The number of 4 KiB pages in the span.
    pub page_count: u64,
}

impl MemoryRegion {
    /// Whether the span is free, general-purpose memory.
    pub open spec fn usable(self) -> bool {
        self.kind == CONVENTIONAL_MEMORY
    }

    /// One past the last address of the span.
    pub open spec fn end(self) -> int {
        self.phys_start + self.page_count * 4096
    }

    /// The start of the frame that holds the first address of the span.
    pub open spec fn first_frame(self) -> int {
        page_floor(self.phys_start as int)
    }

    /// The start of the frame that holds the last address of the span.
    pub open spec fn last_frame(self) -> int {
        page_floor(self.end() - 1)
    }
}

/// The frame that a region yields after `previous`, before the physical
/// address limit is applied: the region's first frame where `previous` lies
/// below it, else the frame after `previous` where that is not past the
/// region's last frame.
pub open spec fn candidate_frame(region: MemoryRegion, previous: int) -> Option<int> {
    if previous < region.first_frame() {
        Some(region.first_frame())
    } else if previous < region.last_frame() {
        Some(previous + 4096)
    } else {
        None
    }
}

/// The frame that a region yields after `previous`: the candidate, where it is
/// a physical address.
pub open spec fn next_frame_in(region: MemoryRegion, previous: int) -> Option<int> {
    match candidate_frame(region, previous) {
        Some(frame) => if frame < PHYS_ADDR_LIMIT {
            Some(frame)
        } else {
            None
        },
        None => None,
    }
}

/// The start of a frame that was handed out, if one was.
pub open spec fn start_of(frame: Option<Frame>) -> Option<int> {
    match frame {
        Some(frame) => Some(frame.start as int),
        None => None,
    }
}

/// Returns the next available frame of `region` after `last_frame`.
pub fn next_frame_from_descriptor(region: &MemoryRegion, last_frame: Frame) -> (next: Option<Frame>)
    requires
        last_frame.start % 4096 == 0,
    ensures
        start_of(next) == next_frame_in(*region, last_frame.start as int),
        next matches Some(frame) ==> frame.wf() && frame.start > last_frame.start,
{
    let min_frame = Frame::containing_address(region.phys_start);
    if last_frame.start < min_frame.start {
        if min_frame.start < PHYS_ADDR_LIMIT {
            return Some(min_frame);
        }
        return None;
    }
    let end: u128 = region.phys_start as u128 + region.page_count as u128 * 4096u128;
    if end == 0 {
        return None;
    }
    let last_address: u128 = end - 1;
    let max_frame: u128 = last_address - last_address % 4096u128;
    if (last_frame.start as u128) < max_frame {
        if last_frame.start < PHYS_ADDR_LIMIT - PAGE_SIZE {
            return Some(Frame { start: last_frame.start + PAGE_SIZE });
        }
    }
    None
}


/// The firmware's iterator over the memory map: `uefi::table::boot::MemoryMapIter`.
#[verifier::external_type_specification]
#[verifier::external_body]
pub struct ExMemoryMapIter<'a>(MemoryMapIter<'a>);

/// One entry of the firmware's memory map: `uefi::table::boot::MemoryDescriptor`,
/// the item type of the iterator.
#[verifier::external_type_specification]
#[verifier::external_body]
pub struct ExMemoryDescriptor(MemoryDescriptor);

/// The regions that an iterator over the memory map has yet to yield, in order.
pub uninterp spec fn remaining_regions(entries: MemoryMapIter) -> Seq<MemoryRegion>;

/// Calls `Iterator::next` of `uefi::table::boot::MemoryMapIter` and copies the
/// type, the start and the page count out of the descriptor. The iterator
/// yields the descriptors of the map in their order, each once, and `None`
/// from the end of the map on.
#[verifier::external_body]
fn next_region(entries: &mut MemoryMapIter) -> (next: Option<MemoryRegion>)
    ensures
        remaining_regions(*old(entries)).len() == 0 ==> next is None && remaining_regions(
            *final(entries),
        ) == remaining_regions(*old(entries)),
        remaining_regions(*old(entries)).len() > 0 ==> next == Some(
            remaining_regions(*old(entries))[0],
        ) && remaining_regions(*final(entries)) == remaining_regions(*old(entries)).skip(1),
{
    entries.next().map(
        |descriptor|
            MemoryRegion {
                kind: descriptor.ty.0,
                phys_start: descriptor.phys_start,
                page_count: descriptor.page_count,
            },
    )
}

/// Calls `Clone::clone` of `uefi::table::boot::MemoryMapIter`, which copies the
/// iterator's position in the same map: the copy has the same regions left.
#[verifier::external_body]
fn clone_entries<'a>(entries: &MemoryMapIter<'a>) -> (copy: MemoryMapIter<'a>)
    ensures
        remaining_regions(copy) == remaining_regions(*entries),
{
    entries.clone()
}

/// What a frame allocator is, as mathematics: the region it is consuming, the
/// highest frame it has handed out, and the regions it has not looked at yet.
pub struct AllocatorState {
    pub current: MemoryRegion,
    pub previous: nat,
    pub rest: Seq<MemoryRegion>,
}

/// The position of the first usable region of `regions`, or its length where
/// there is none.
pub open spec fn first_usable(regions: Seq<MemoryRegion>) -> int
    decreases regions.len(),
{
    if regions.len() == 0 {
        0
    } else if regions[0].usable() {
        0
    } else {
        1 + first_usable(regions.skip(1))
    }
}

/// The position of the first usable region of `regions` that yields a frame
/// after `previous`, or the length of `regions` where there is none.
pub open spec fn first_yielding(regions: Seq<MemoryRegion>, previous: int) -> int
    decreases regions.len(),
{
    if regions.len() == 0 {
        0
    } else if regions[0].usable() && next_frame_in(regions[0], previous) is Some {
        0
    } else {
        1 + first_yielding(regions.skip(1), previous)
    }
}

/// The start of the frame that holds the floor address: the allocator's
/// highest frame before any was handed out.
pub open spec fn floor_frame() -> int {
    page_floor(MIN_PHYS_MEMORY_ADDRESS as int)
}

/// The allocator that a memory map gives: its first usable region is the one
/// being consumed, the regions before it are dropped, and no frame at or
/// below the floor frame will be handed out. A map without a usable region
/// gives none.
pub open spec fn initial_state(regions: Seq<MemoryRegion>) -> Option<AllocatorState> {
    let at = first_usable(regions);
    if at < regions.len() {
        Some(
            AllocatorState {
                current: regions[at],
                previous: floor_frame() as nat,
                rest: regions.skip(at + 1),
            },
        )
    } else {
        None
    }
}

/// One allocation: the frame handed out, if any, and the allocator afterwards.
/// The current region is asked first. Where it yields nothing, the first
/// usable region among the rest that yields a frame after the highest frame
/// handed out becomes the current one; the regions before it are dropped.
/// Where none yields, the allocator is exhausted and no region is left.
#[verifier::opaque]
pub open spec fn allocate_spec(state: AllocatorState) -> (Option<int>, AllocatorState) {
    match next_frame_in(state.current, state.previous as int) {
        Some(frame) => (Some(frame), AllocatorState { previous: frame as nat, ..state }),
        None => {
            let at = first_yielding(state.rest, state.previous as int);
            if at < state.rest.len() {
                let frame = next_frame_in(state.rest[at], state.previous as int)->0;
                (
                    Some(frame),
                    AllocatorState {
                        current: state.rest[at],
                        previous: frame as nat,
                        rest: state.rest.skip(at + 1),
                    },
                )
            } else {
                (None, AllocatorState { rest: Seq::empty(), ..state })
            }
        },
    }
}

/// A sequential physical frame allocator.
pub struct NutcrackerFrameAllocator<'a> {
    memory_map_entries: MemoryMapIter<'a>,
    current_descriptor: MemoryRegion,
    previous_frame: Frame,
}

impl<'a> NutcrackerFrameAllocator<'a> {
    /// The allocator as mathematics.
    pub closed spec fn view(&self) -> AllocatorState {
        AllocatorState {
            current: self.current_descriptor,
            previous: self.previous_frame.start as nat,
            rest: remaining_regions(self.memory_map_entries),
        }
    }

    /// The highest frame handed out starts on a page boundary.
    pub closed spec fn wf(&self) -> bool {
        self.previous_frame.start % 4096 == 0
    }

    /// Creates the allocator of a memory map that holds a usable region.
    pub fn new(memory_map_entries: MemoryMapIter<'a>) -> (allocator: Self)
        requires
            initial_state(remaining_regions(memory_map_entries)) is Some,
        ensures
            Some(allocator@) == initial_state(remaining_regions(memory_map_entries)),
            allocator.wf(),
    {
        let ghost regions = remaining_regions(memory_map_entries);
        let mut entries = memory_map_entries;
        let ghost mut skipped: int = 0;
        proof {
            assert(regions.skip(0) =~= regions);
        }
        loop
            invariant
                regions == remaining_regions(memory_map_entries),
                0 <= skipped <= regions.len(),
                remaining_regions(entries) == regions.skip(skipped),
                first_usable(regions) == skipped + first_usable(regions.skip(skipped)),
                first_usable(regions) < regions.len(),
            decreases regions.len() - skipped,
        {
            let next = next_region(&mut entries);
            proof {
                if skipped < regions.len() {
                    assert(regions.skip(skipped).skip(1) =~= regions.skip(skipped + 1));
                    assert(regions.skip(skipped)[0] == regions[skipped]);
                }
            }
            match next {
                Some(region) => {
                    if region.kind == CONVENTIONAL_MEMORY {
                        return NutcrackerFrameAllocator {
                            memory_map_entries: entries,
                            current_descriptor: region,
                            previous_frame: Frame::containing_address(MIN_PHYS_MEMORY_ADDRESS),
                        };
                    }
                    proof {
                        skipped = skipped + 1;
                    }
                },
                None => {
                    return vstd::pervasive::unreached();
                },
            }
        }
    }

    /// Creates the allocator of a memory map, or nothing where the map holds no
    /// usable region.
    pub fn try_new(memory_map_entries: MemoryMapIter<'a>) -> (allocator: Option<Self>)
        ensures
            match initial_state(remaining_regions(memory_map_entries)) {
                Some(state) => allocator matches Some(made) && made@ == state && made.wf(),
                None => allocator is None,
            },
    {
        if holds_usable(clone_entries(&memory_map_entries)) {
            Some(Self::new(memory_map_entries))
        } else {
            None
        }
    }

    /// Hands out the next frame of the current region, if it has one left.
    fn allocate_next_current_descriptor_frame(&mut self) -> (next: Option<Frame>)
        requires
            old(self).wf(),
        ensures
            final(self).wf(),
            start_of(next) == next_frame_in(old(self)@.current, old(self)@.previous as int),
            final(self)@ == match next {
                Some(frame) => AllocatorState { previous: frame.start as nat, ..old(self)@ },
                None => old(self)@,
            },
            next matches Some(frame) ==> frame.wf(),
    {
        let next = next_frame_from_descriptor(&self.current_descriptor, self.previous_frame);
        if let Some(frame) = next {
            self.previous_frame = frame;
        }
        next
    }

    /// Hands out the next unused frame, or nothing where the memory map is
    /// exhausted. Frames come in strictly ascending order.
    pub fn allocate_frame(&mut self) -> (next: Option<Frame>)
        requires
            old(self).wf(),
        ensures
            final(self).wf(),
            final(self)@ == allocate_spec(old(self)@).1,
            start_of(next) == allocate_spec(old(self)@).0,
            next matches Some(frame) ==> frame.wf() && frame.start > old(self)@.previous,
    {
        proof {
            reveal(allocate_spec);
        }
        if let Some(frame) = self.allocate_next_current_descriptor_frame() {
            return Some(frame);
        }
        let ghost rest = remaining_regions(self.memory_map_entries);
        let ghost previous = self.previous_frame.start as int;
        let ghost mut skipped: int = 0;
        proof {
            assert(rest.skip(0) =~= rest);
        }
        loop
            invariant
                self.wf(),
                self.previous_frame == old(self).previous_frame,
                self.current_descriptor == old(self).current_descriptor,
                previous == self.previous_frame.start,
                rest == old(self)@.rest,
                next_frame_in(old(self)@.current, previous) is None,
                0 <= skipped <= rest.len(),
                remaining_regions(self.memory_map_entries) == rest.skip(skipped),
                first_yielding(rest, previous) == skipped + first_yielding(
                    rest.skip(skipped),
                    previous,
                ),
            decreases rest.len() - skipped,
        {
            let next = next_region(&mut self.memory_map_entries);
            proof {
                reveal(allocate_spec);
                if skipped < rest.len() {
                    assert(rest.skip(skipped).skip(1) =~= rest.skip(skipped + 1));
                    assert(rest.skip(skipped)[0] == rest[skipped]);
                }
            }
            match next {
                Some(region) => {
                    if region.kind == CONVENTIONAL_MEMORY {
                        if let Some(frame) = next_frame_from_descriptor(&region, self.previous_frame) {
                            self.current_descriptor = region;
                            self.previous_frame = frame;
                            return Some(frame);
                        }
                    }
                    proof {
                        skipped = skipped + 1;
                    }
                },
                None => {
                    proof {
                        assert(remaining_regions(self.memory_map_entries) =~= Seq::empty());
                    }
                    return None;
                },
            }
        }
    }
}

/// Whether the iterator has a usable region left.
fn holds_usable(memory_map_entries: MemoryMapIter) -> (found: bool)
    ensures
        found == (initial_state(remaining_regions(memory_map_entries)) is Some),
{
    let ghost regions = remaining_regions(memory_map_entries);
    let mut entries = memory_map_entries;
    let ghost mut skipped: int = 0;
    proof {
        assert(regions.skip(0) =~= regions);
    }
    loop
        invariant
            regions == remaining_regions(memory_map_entries),
            0 <= skipped <= regions.len(),
            remaining_regions(entries) == regions.skip(skipped),
            first_usable(regions) == skipped + first_usable(regions.skip(skipped)),
        decreases regions.len() - skipped,
    {
        let next = next_region(&mut entries);
        proof {
            if skipped < regions.len() {
                assert(regions.skip(skipped).skip(1) =~= regions.skip(skipped + 1));
                assert(regions.skip(skipped)[0] == regions[skipped]);
            }
        }
        match next {
            Some(region) => {
                if region.kind == CONVENTIONAL_MEMORY {
                    return true;
                }
                proof {
                    skipped = skipped + 1;
                }
            },
            None => {
                return false;
            },
        }
    }
}

} // verus!
