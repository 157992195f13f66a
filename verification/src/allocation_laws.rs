//! What holds of every run of the frame allocator.

use vstd::prelude::*;
use crate::memory::{
    allocate_spec, first_usable, first_yielding, floor_frame, initial_state, next_frame_in,
    AllocatorState, MemoryRegion,
};
use crate::paging::PHYS_ADDR_LIMIT;

verus! {

/// The allocator after `count` allocations.
pub open spec fn state_after(state: AllocatorState, count: nat) -> AllocatorState
    decreases count,
{
    if count == 0 {
        state
    } else {
        allocate_spec(state_after(state, (count - 1) as nat)).1
    }
}

/// What the allocation number `index`, counted from 0, hands out.
pub open spec fn nth_allocation(state: AllocatorState, index: nat) -> Option<int> {
    allocate_spec(state_after(state, index)).0
}

/// Whether the frame that starts at `frame` lies within `region`.
pub open spec fn frame_within(frame: int, region: MemoryRegion) -> bool {
    region.phys_start <= frame && frame + 4096 <= region.end()
}

/// Whether the frame that starts at `frame` shares an address with `region`.
pub open spec fn frame_touches(frame: int, region: MemoryRegion) -> bool {
    frame < region.end() && region.phys_start < frame + 4096
}

/// Whether two regions share an address.
pub open spec fn regions_overlap(a: MemoryRegion, b: MemoryRegion) -> bool {
    a.phys_start < b.end() && b.phys_start < a.end()
}

/// The usable regions of a map as the firmware reports them: each starts on a
/// page boundary and holds at least one page.
pub open spec fn usable_regions_whole(regions: Seq<MemoryRegion>) -> bool {
    forall|i: int|
        0 <= i < regions.len() && (#[trigger] regions[i]).usable() ==> regions[i].phys_start % 4096
            == 0 && regions[i].page_count >= 1
}

/// A map whose usable regions are whole, lie above the floor frame and below
/// the physical address limit, and come in ascending order without overlap.
pub open spec fn orderly(regions: Seq<MemoryRegion>) -> bool {
    &&& usable_regions_whole(regions)
    &&& forall|i: int|
        0 <= i < regions.len() && (#[trigger] regions[i]).usable() ==> regions[i].phys_start
            > floor_frame() && regions[i].end() <= PHYS_ADDR_LIMIT
    &&& forall|i: int, j: int|
        0 <= i < j < regions.len() && (#[trigger] regions[i]).usable() && (
        #[trigger] regions[j]).usable() ==> regions[i].end() <= regions[j].phys_start
}

/// The number of pages in the usable regions of a map.
pub open spec fn usable_pages(regions: Seq<MemoryRegion>) -> nat
    decreases regions.len(),
{
    if regions.len() == 0 {
        0
    } else if regions[0].usable() {
        regions[0].page_count as nat + usable_pages(regions.skip(1))
    } else {
        usable_pages(regions.skip(1))
    }
}

proof fn lemma_first_yielding(regions: Seq<MemoryRegion>, previous: int)
    ensures
        0 <= first_yielding(regions, previous) <= regions.len(),
        first_yielding(regions, previous) < regions.len() ==> regions[first_yielding(
            regions,
            previous,
        )].usable() && next_frame_in(regions[first_yielding(regions, previous)], previous) is Some,
        forall|i: int|
            0 <= i < first_yielding(regions, previous) ==> !((#[trigger] regions[i]).usable()
                && next_frame_in(regions[i], previous) is Some),
    decreases regions.len(),
{
    if regions.len() == 0 {
    } else if regions[0].usable() && next_frame_in(regions[0], previous) is Some {
    } else {
        let tail = regions.skip(1);
        lemma_first_yielding(tail, previous);
        assert forall|i: int| 0 <= i < first_yielding(regions, previous) implies !((
        #[trigger] regions[i]).usable() && next_frame_in(regions[i], previous) is Some) by {
            if i > 0 {
                assert(regions[i] == tail[i - 1]);
            }
        }
        if first_yielding(regions, previous) < regions.len() {
            assert(regions[first_yielding(regions, previous)] == tail[first_yielding(
                tail,
                previous,
            )]);
        }
    }
}

proof fn lemma_first_usable(regions: Seq<MemoryRegion>)
    ensures
        0 <= first_usable(regions) <= regions.len(),
        first_usable(regions) < regions.len() ==> regions[first_usable(regions)].usable(),
        forall|i: int| 0 <= i < first_usable(regions) ==> !(#[trigger] regions[i]).usable(),
    decreases regions.len(),
{
    if regions.len() == 0 {
    } else if regions[0].usable() {
    } else {
        let tail = regions.skip(1);
        lemma_first_usable(tail);
        assert forall|i: int| 0 <= i < first_usable(regions) implies !(
        #[trigger] regions[i]).usable() by {
            if i > 0 {
                assert(regions[i] == tail[i - 1]);
            }
        }
        if first_usable(regions) < regions.len() {
            assert(regions[first_usable(regions)] == tail[first_usable(tail)]);
        }
    }
}

/// One allocation hands out a frame above the highest handed out before, and
/// that frame is then the highest; a failed allocation leaves the highest as
/// it was.
pub proof fn lemma_allocation_raises(state: AllocatorState)
    ensures
        match allocate_spec(state).0 {
            Some(frame) => frame > state.previous && allocate_spec(state).1.previous == frame && frame
                < PHYS_ADDR_LIMIT,
            None => allocate_spec(state).1.previous == state.previous,
        },
{
    reveal(allocate_spec);
    lemma_first_yielding(state.rest, state.previous as int);
}

proof fn lemma_previous_rises(state: AllocatorState, from: nat, to: nat)
    requires
        from <= to,
    ensures
        state_after(state, from).previous <= state_after(state, to).previous,
    decreases to,
{
    if from < to {
        lemma_previous_rises(state, from, (to - 1) as nat);
        lemma_allocation_raises(state_after(state, (to - 1) as nat));
    }
}

/// The frames that an allocator hands out ascend strictly: of two successful
/// allocations the later one hands out the higher frame. So no frame is
/// handed out twice.
pub proof fn law_allocations_ascend(state: AllocatorState, earlier: nat, later: nat)
    requires
        earlier < later,
        nth_allocation(state, earlier) is Some,
        nth_allocation(state, later) is Some,
    ensures
        nth_allocation(state, earlier)->0 < nth_allocation(state, later)->0,
{
    lemma_allocation_raises(state_after(state, earlier));
    lemma_allocation_raises(state_after(state, later));
    lemma_previous_rises(state, earlier + 1, later);
}


/// An allocator that works on regions of the map `regions`: the region it
/// consumes is a usable one of the map, the regions it has left are regions of
/// the map, and its highest frame starts on a page boundary.
pub open spec fn drawn_from(state: AllocatorState, regions: Seq<MemoryRegion>) -> bool {
    &&& regions.contains(state.current)
    &&& state.current.usable()
    &&& state.previous % 4096 == 0
    &&& forall|i: int| 0 <= i < state.rest.len() ==> regions.contains(#[trigger] state.rest[i])
}

proof fn lemma_initial_drawn(regions: Seq<MemoryRegion>)
    requires
        initial_state(regions) is Some,
    ensures
        drawn_from(initial_state(regions)->0, regions),
{
    lemma_first_usable(regions);
    let at = first_usable(regions);
    let state = initial_state(regions)->0;
    assert(regions[at] == state.current);
    assert forall|i: int| 0 <= i < state.rest.len() implies regions.contains(
        #[trigger] state.rest[i],
    ) by {
        assert(state.rest[i] == regions[at + 1 + i]);
    }
}

proof fn lemma_step_drawn(state: AllocatorState, regions: Seq<MemoryRegion>)
    requires
        drawn_from(state, regions),
    ensures
        drawn_from(allocate_spec(state).1, regions),
{
    reveal(allocate_spec);
    lemma_first_yielding(state.rest, state.previous as int);
    let after = allocate_spec(state).1;
    if next_frame_in(state.current, state.previous as int) is None {
        let at = first_yielding(state.rest, state.previous as int);
        if at < state.rest.len() {
            assert(regions.contains(state.rest[at]));
            assert forall|i: int| 0 <= i < after.rest.len() implies regions.contains(
                #[trigger] after.rest[i],
            ) by {
                assert(after.rest[i] == state.rest[at + 1 + i]);
            }
        }
    }
}

proof fn lemma_states_drawn(regions: Seq<MemoryRegion>, count: nat)
    requires
        initial_state(regions) is Some,
    ensures
        drawn_from(state_after(initial_state(regions)->0, count), regions),
    decreases count,
{
    if count == 0 {
        lemma_initial_drawn(regions);
    } else {
        lemma_states_drawn(regions, (count - 1) as nat);
        lemma_step_drawn(state_after(initial_state(regions)->0, (count - 1) as nat), regions);
    }
}

proof fn lemma_yield_within(region: MemoryRegion, previous: int)
    requires
        region.phys_start % 4096 == 0,
        region.page_count >= 1,
        previous % 4096 == 0,
        next_frame_in(region, previous) is Some,
    ensures
        frame_within(next_frame_in(region, previous)->0, region),
{
}

/// Every frame handed out lies within a usable region of the memory map that
/// the allocator was made of, where the usable regions of the map start on a
/// page boundary and hold at least one page.
pub proof fn law_allocations_within_usable(regions: Seq<MemoryRegion>, index: nat)
    requires
        initial_state(regions) is Some,
        usable_regions_whole(regions),
        nth_allocation(initial_state(regions)->0, index) is Some,
    ensures
        exists|k: int|
            0 <= k < regions.len() && (#[trigger] regions[k]).usable() && frame_within(
                nth_allocation(initial_state(regions)->0, index)->0,
                regions[k],
            ),
{
    let state = state_after(initial_state(regions)->0, index);
    let frame = nth_allocation(initial_state(regions)->0, index)->0;
    reveal(allocate_spec);
    lemma_states_drawn(regions, index);
    lemma_first_yielding(state.rest, state.previous as int);
    let source = if next_frame_in(state.current, state.previous as int) is Some {
        state.current
    } else {
        state.rest[first_yielding(state.rest, state.previous as int)]
    };
    assert(regions.contains(source));
    let k = choose|k: int| 0 <= k < regions.len() && regions[k] == source;
    lemma_yield_within(regions[k], state.previous as int);
    assert(regions[k].usable() && frame_within(frame, regions[k]));
}

/// A region that is not usable and overlaps no usable region of the map is
/// never touched: no frame handed out shares an address with it. The usable
/// regions of the map start on a page boundary and hold at least one page.
pub proof fn law_unusable_region_skipped(regions: Seq<MemoryRegion>, hole: int, index: nat)
    requires
        initial_state(regions) is Some,
        usable_regions_whole(regions),
        0 <= hole < regions.len(),
        !regions[hole].usable(),
        forall|k: int|
            0 <= k < regions.len() && (#[trigger] regions[k]).usable() ==> !regions_overlap(
                regions[k],
                regions[hole],
            ),
        nth_allocation(initial_state(regions)->0, index) is Some,
    ensures
        !frame_touches(nth_allocation(initial_state(regions)->0, index)->0, regions[hole]),
{
    law_allocations_within_usable(regions, index);
}


/// The frames that `region` can still yield after `previous`, for a whole
/// region and a `previous` on a page boundary.
pub open spec fn frames_left_in(region: MemoryRegion, previous: int) -> int {
    if previous < region.phys_start {
        region.page_count as int
    } else {
        (region.end() - 4096 - previous) / 4096
    }
}

/// The frames that an allocator over an orderly map can still hand out.
pub open spec fn frames_left(state: AllocatorState) -> int {
    frames_left_in(state.current, state.previous as int) + usable_pages(state.rest)
}

/// An allocator in the middle of an orderly map: its highest frame lies
/// within or below the region it consumes, and every usable region that it
/// has left lies above that region.
pub open spec fn in_order(state: AllocatorState) -> bool {
    &&& state.current.usable()
    &&& state.current.phys_start % 4096 == 0
    &&& state.current.page_count >= 1
    &&& state.current.end() <= PHYS_ADDR_LIMIT
    &&& state.previous % 4096 == 0
    &&& state.previous + 4096 <= state.current.end()
    &&& orderly(state.rest)
    &&& forall|i: int|
        0 <= i < state.rest.len() && (#[trigger] state.rest[i]).usable() ==> state.current.end()
            <= state.rest[i].phys_start
}

proof fn lemma_orderly_skip(regions: Seq<MemoryRegion>, count: int)
    requires
        orderly(regions),
        0 <= count <= regions.len(),
    ensures
        orderly(regions.skip(count)),
{
    let tail = regions.skip(count);
    assert forall|i: int| 0 <= i < tail.len() && (#[trigger] tail[i]).usable() implies tail[i].phys_start
        % 4096 == 0 && tail[i].page_count >= 1 && tail[i].phys_start > floor_frame() && tail[i].end()
        <= PHYS_ADDR_LIMIT by {
        assert(tail[i] == regions[count + i]);
    }
    assert forall|i: int, j: int|
        0 <= i < j < tail.len() && (#[trigger] tail[i]).usable() && (
        #[trigger] tail[j]).usable() implies tail[i].end() <= tail[j].phys_start by {
        assert(tail[i] == regions[count + i]);
        assert(tail[j] == regions[count + j]);
    }
}

proof fn lemma_next_usable_yields(regions: Seq<MemoryRegion>, previous: int)
    requires
        orderly(regions),
        previous % 4096 == 0,
        forall|i: int|
            0 <= i < regions.len() && (#[trigger] regions[i]).usable() ==> previous
                < regions[i].phys_start,
    ensures
        first_yielding(regions, previous) == first_usable(regions),
        0 <= first_usable(regions) <= regions.len(),
        first_usable(regions) < regions.len() ==> {
            let at = first_usable(regions);
            &&& regions[at].usable()
            &&& next_frame_in(regions[at], previous) == Some(regions[at].phys_start as int)
            &&& usable_pages(regions) == regions[at].page_count + usable_pages(
                regions.skip(at + 1),
            )
        },
        first_usable(regions) == regions.len() ==> usable_pages(regions) == 0,
    decreases regions.len(),
{
    if regions.len() == 0 {
    } else if regions[0].usable() {
    } else {
        let tail = regions.skip(1);
        lemma_orderly_skip(regions, 1);
        assert forall|i: int| 0 <= i < tail.len() && (#[trigger] tail[i]).usable() implies previous
            < tail[i].phys_start by {
            assert(tail[i] == regions[1 + i]);
        }
        lemma_next_usable_yields(tail, previous);
        let at = first_usable(tail);
        if at < tail.len() {
            assert(tail[at] == regions[at + 1]);
            assert(tail.skip(at + 1) =~= regions.skip(at + 2));
        }
    }
}

proof fn lemma_step_in_order(state: AllocatorState)
    requires
        in_order(state),
    ensures
        in_order(allocate_spec(state).1),
        allocate_spec(state).0 is Some <==> frames_left(state) > 0,
        frames_left(state) >= 0,
        frames_left(allocate_spec(state).1) == if frames_left(state) > 0 {
            frames_left(state) - 1
        } else {
            0
        },
{
    reveal(allocate_spec);
    let after = allocate_spec(state).1;
    if next_frame_in(state.current, state.previous as int) is None {
        assert(state.previous == state.current.end() - 4096);
        assert forall|i: int|
            0 <= i < state.rest.len() && (#[trigger] state.rest[i]).usable() implies state.previous
            < state.rest[i].phys_start by {}
        lemma_next_usable_yields(state.rest, state.previous as int);
        let at = first_usable(state.rest);
        if at < state.rest.len() {
            lemma_orderly_skip(state.rest, at + 1);
            assert forall|i: int|
                0 <= i < after.rest.len() && (#[trigger] after.rest[i]).usable() implies after.current.end()
                <= after.rest[i].phys_start by {
                assert(after.rest[i] == state.rest[at + 1 + i]);
            }
        } else {
            assert(usable_pages(Seq::<MemoryRegion>::empty()) == 0);
        }
    }
}

proof fn lemma_frames_left_after(state: AllocatorState, count: nat)
    requires
        in_order(state),
    ensures
        in_order(state_after(state, count)),
        frames_left(state_after(state, count)) == if frames_left(state) > count {
            frames_left(state) - count
        } else {
            0
        },
    decreases count,
{
    if count == 0 {
        lemma_step_in_order(state);
    } else {
        lemma_frames_left_after(state, (count - 1) as nat);
        lemma_step_in_order(state_after(state, (count - 1) as nat));
    }
}

/// An allocator over an orderly map hands out as many frames as the usable
/// regions of the map hold pages, and then nothing: the allocation number
/// `index`, counted from 0, succeeds exactly where `index` is below that
/// number of pages.
pub proof fn law_exhaustion(regions: Seq<MemoryRegion>, index: nat)
    requires
        initial_state(regions) is Some,
        orderly(regions),
    ensures
        nth_allocation(initial_state(regions)->0, index) is Some <==> index < usable_pages(regions),
{
    let state = initial_state(regions)->0;
    let at = first_usable(regions);
    lemma_next_usable_yields(regions, floor_frame());
    lemma_orderly_skip(regions, at + 1);
    assert forall|i: int|
        0 <= i < state.rest.len() && (#[trigger] state.rest[i]).usable() implies state.current.end()
        <= state.rest[i].phys_start by {
        assert(state.rest[i] == regions[at + 1 + i]);
    }
    assert(in_order(state));
    assert(frames_left(state) == usable_pages(regions));
    lemma_frames_left_after(state, index);
    lemma_step_in_order(state_after(state, index));
}

} // verus!
