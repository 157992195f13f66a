//! What holds of every run of the segment loader.

use vstd::prelude::*;
use crate::address_space::{Backing, Mapped, PageFlags};
use crate::allocation_laws::lemma_allocation_raises;
use crate::elf::{Segment, SegmentKind};
use crate::kernel::{image_placed, segment_supported, KernelImage};
use crate::loader::{
    file_page_count, file_start, in_run, lemma_boundary_page, lemma_file_pages, lemma_zero_pages,
    load_image, load_one, load_pass, map_run, protect_one, protect_pass, segment_flags, with_run,
    zero_fill, zero_page_count, zero_start, LoadError, LoadState,
};
use crate::memory::allocate_spec;
use crate::paging::{
    lemma_page_offsets_shift, page_ceil, page_floor, pages_spanned, Frame, Page, PHYS_ADDR_LIMIT,
};

verus! {

/// Filling pages that are not mapped with zero never finds a page mapped: it
/// fails only where the frames run out.
pub proof fn lemma_zero_fill_unmapped(state: LoadState, page: int, count: nat, flags: PageFlags)
    requires
        page % 4096 == 0,
        0 <= page,
        page + count * 4096 <= u64::MAX + 1,
        forall|other: Page| #[trigger] in_run(other, page, count as int) ==> !state.pages.contains_key(other),
    ensures
        zero_fill(state, page, count, flags) != Err::<LoadState, LoadError>(
            LoadError::PageAlreadyMapped,
        ),
    decreases count,
{
    if count > 0 {
        let here = Page { start: page as u64 };
        assert(in_run(here, page, count as int));
        if allocate_spec(state.allocator).0 is Some {
            let frame = allocate_spec(state.allocator).0->0;
            let next = LoadState {
                pages: state.pages.insert(
                    here,
                    Mapped { frame: Frame { start: frame as u64 }, flags, backing: Backing::Zeroed },
                ),
                allocator: allocate_spec(state.allocator).1,
            };
            assert forall|other: Page| #[trigger]
                in_run(other, page + 4096, count - 1) implies !next.pages.contains_key(other) by {
                assert(in_run(other, page, count as int));
            }
            lemma_zero_fill_unmapped(next, page + 4096, (count - 1) as nat, flags);
        }
    }
}

/// Where filling pages with zero succeeds, the pages were not mapped before
/// and are mapped afterwards, with the permissions asked for, each to a frame
/// of its own that the allocator handed out and that holds zero; every other
/// page is as it was.
pub proof fn lemma_zero_fill_done(state: LoadState, page: int, count: nat, flags: PageFlags)
    requires
        page % 4096 == 0,
        0 <= page,
        page + count * 4096 <= u64::MAX + 1,
        zero_fill(state, page, count, flags) is Ok,
    ensures
        ({
            let filled = zero_fill(state, page, count, flags)->Ok_0;
            &&& state.allocator.previous <= filled.allocator.previous
            &&& forall|other: Page| #[trigger]
                filled.pages.contains_key(other) <==> state.pages.contains_key(other) || in_run(
                    other,
                    page,
                    count as int,
                )
            &&& forall|other: Page| #[trigger]
                in_run(other, page, count as int) ==> {
                    &&& !state.pages.contains_key(other)
                    &&& filled.pages[other].flags == flags
                    &&& filled.pages[other].backing == Backing::Zeroed
                    &&& state.allocator.previous < filled.pages[other].frame.start
                        <= filled.allocator.previous
                    &&& filled.pages[other].frame.start < PHYS_ADDR_LIMIT
                }
            &&& forall|other: Page| #[trigger]
                state.pages.contains_key(other) ==> filled.pages[other] == state.pages[other]
        }),
    decreases count,
{
    if count > 0 {
        let here = Page { start: page as u64 };
        let frame = allocate_spec(state.allocator).0->0;
        lemma_allocation_raises(state.allocator);
        let next = LoadState {
            pages: state.pages.insert(
                here,
                Mapped { frame: Frame { start: frame as u64 }, flags, backing: Backing::Zeroed },
            ),
            allocator: allocate_spec(state.allocator).1,
        };
        lemma_zero_fill_done(next, page + 4096, (count - 1) as nat, flags);
        let filled = zero_fill(state, page, count, flags)->Ok_0;
        assert(!in_run(here, page + 4096, count - 1));
        let rest = zero_fill(next, page + 4096, (count - 1) as nat, flags)->Ok_0;
        assert(filled == rest);
        assert forall|other: Page| #[trigger]
            filled.pages.contains_key(other) <==> state.pages.contains_key(other) || in_run(
                other,
                page,
                count as int,
            ) by {
            assert(rest.pages.contains_key(other) <==> next.pages.contains_key(other) || in_run(
                other,
                page + 4096,
                count - 1,
            ));
            if in_run(other, page, count as int) && other != here {
                assert(in_run(other, page + 4096, count - 1));
            }
        }
        assert forall|other: Page| #[trigger] state.pages.contains_key(other) implies filled.pages[other]
            == state.pages[other] by {
            assert(next.pages.contains_key(other));
            assert(rest.pages[other] == next.pages[other]);
        }
        assert forall|other: Page| #[trigger] in_run(other, page, count as int) implies {
            &&& !state.pages.contains_key(other)
            &&& filled.pages[other].flags == flags
            &&& filled.pages[other].backing == Backing::Zeroed
            &&& state.allocator.previous < filled.pages[other].frame.start
                <= filled.allocator.previous
            &&& filled.pages[other].frame.start < PHYS_ADDR_LIMIT
        } by {
            if other != here {
                assert(in_run(other, page + 4096, count - 1));
                assert(!next.pages.contains_key(other));
            } else {
                assert(next.pages.contains_key(here));
                assert(rest.pages[here] == next.pages[here]);
                assert(next.allocator.previous == frame);
            }
        }
    }
}


/// Making a segment read-only after relocation, where every page of the
/// segment is mapped, succeeds; afterwards each page of the segment has no
/// write permission and has everything else as before, and every page is
/// mapped as before but for its write permission.
pub proof fn law_read_only_after_relocation(pages: Map<Page, Mapped>, segment: Segment, page: Page)
    requires
        forall|other: Page| #[trigger]
            in_run(
                other,
                page_floor(segment.virtual_addr as int),
                pages_spanned(segment.virtual_addr as int, segment.mem_size as int),
            ) ==> pages.contains_key(other),
        pages.contains_key(page),
    ensures
        protect_one(pages, segment) is Ok,
        protect_one(pages, segment)->Ok_0.contains_key(page),
        protect_one(pages, segment)->Ok_0[page].frame == pages[page].frame,
        protect_one(pages, segment)->Ok_0[page].backing == pages[page].backing,
        protect_one(pages, segment)->Ok_0[page].flags.present == pages[page].flags.present,
        protect_one(pages, segment)->Ok_0[page].flags.no_execute == pages[page].flags.no_execute,
        protect_one(pages, segment)->Ok_0[page].flags.writable == (pages[page].flags.writable
            && !in_run(
            page,
            page_floor(segment.virtual_addr as int),
            pages_spanned(segment.virtual_addr as int, segment.mem_size as int),
        )),
{
}

/// The byte that a mapped page shows `offset` bytes into it, where `memory`
/// is what physical memory held before anything was loaded.
pub open spec fn byte_of(target: Mapped, offset: int, memory: spec_fn(int) -> u8) -> u8 {
    match target.backing {
        Backing::Existing => memory(target.frame.start + offset),
        Backing::Zeroed => 0,
        Backing::Prefix { source, length } => if offset < length {
            memory(source.start + offset)
        } else {
            0
        },
    }
}

/// The byte that is read at the virtual address `address`, if its page is
/// mapped.
pub open spec fn read_byte(pages: Map<Page, Mapped>, memory: spec_fn(int) -> u8, address: int) -> Option<
    u8,
> {
    let page = Page { start: page_floor(address) as u64 };
    if pages.contains_key(page) {
        Some(byte_of(pages[page], address % 4096, memory))
    } else {
        None
    }
}

/// Whether physical memory holds the bytes `image` from the address `start`
/// on.
pub open spec fn memory_holds(memory: spec_fn(int) -> u8, start: int, image: Seq<u8>) -> bool {
    forall|i: int| 0 <= i < image.len() ==> memory(start + i) == #[trigger] image[i]
}

/// The byte that a loaded segment shows at `address`: the byte of the file
/// where the address lies in the part of the segment that the file holds,
/// else zero.
pub open spec fn segment_byte(segment: Segment, image: Seq<u8>, address: int) -> u8 {
    if address < segment.virtual_addr + segment.file_size {
        image[segment.offset + (address - segment.virtual_addr)]
    } else {
        0
    }
}

/// Loading a segment leaves every page that was mapped before as it was.
pub proof fn law_earlier_mappings_kept(
    state: LoadState,
    segment: Segment,
    image_start: u64,
    image_len: u64,
    page: Page,
)
    requires
        segment.kind == SegmentKind::Load,
        segment_supported(segment, image_len),
        image_placed(image_start, image_len),
        load_one(state, segment, image_start) is Ok,
        state.pages.contains_key(page),
    ensures
        load_one(state, segment, image_start)->Ok_0.pages.contains_key(page),
        load_one(state, segment, image_start)->Ok_0.pages[page] == state.pages[page],
{
    lemma_load_one(state, segment, image_start, image_len);
}

/// What loading one supported segment makes of the pages, where it succeeds.
proof fn lemma_load_one(state: LoadState, segment: Segment, image_start: u64, image_len: u64)
    requires
        segment.kind == SegmentKind::Load,
        segment_supported(segment, image_len),
        image_placed(image_start, image_len),
        load_one(state, segment, image_start) is Ok,
    ensures
        ({
            let after = load_one(state, segment, image_start)->Ok_0.pages;
            let first_page = page_floor(segment.virtual_addr as int);
            let first_frame = page_floor(file_start(segment, image_start));
            let count = file_page_count(segment, image_start);
            let boundary = zero_start(segment);
            let split = segment.mem_size > segment.file_size && boundary % 4096 != 0;
            let split_page = Page { start: page_floor(boundary) as u64 };
            &&& forall|page: Page| #[trigger]
                state.pages.contains_key(page) ==> after.contains_key(page) && after[page]
                    == state.pages[page] && !in_run(page, first_page, count)
            &&& forall|page: Page| #[trigger]
                in_run(page, first_page, count) && !(split && page == split_page) ==> after.contains_key(
                    page,
                ) && after[page] == (Mapped {
                    frame: Frame { start: (first_frame + (page.start - first_page)) as u64 },
                    flags: segment_flags(segment),
                    backing: Backing::Existing,
                })
            &&& split ==> in_run(split_page, first_page, count) && after.contains_key(split_page)
                && after[split_page] == (Mapped {
                frame: Frame { start: allocate_spec(state.allocator).0->0 as u64 },
                flags: segment_flags(segment),
                backing: Backing::Prefix {
                    source: Frame { start: (first_frame + (split_page.start - first_page)) as u64 },
                    length: (boundary % 4096) as u64,
                },
            })
            &&& segment.mem_size > segment.file_size ==> forall|page: Page| #[trigger]
                in_run(page, page_ceil(boundary), zero_page_count(segment)) ==> after.contains_key(
                    page,
                ) && after[page].flags == segment_flags(segment) && after[page].backing
                    == Backing::Zeroed
        }),
{
    let flags = segment_flags(segment);
    let first_page = page_floor(segment.virtual_addr as int);
    let first_frame = page_floor(file_start(segment, image_start));
    let count = file_page_count(segment, image_start);
    let boundary = zero_start(segment);
    let mapped = with_run(state.pages, first_page, first_frame, count, flags);
    let after = load_one(state, segment, image_start)->Ok_0.pages;
    assert(map_run(state.pages, first_page, first_frame, count, flags) == Ok::<
        Map<Page, Mapped>,
        LoadError,
    >(mapped));
    assert forall|page: Page| #[trigger] state.pages.contains_key(page) implies !in_run(
        page,
        first_page,
        count,
    ) && mapped.contains_key(page) && mapped[page] == state.pages[page] by {}
    assert forall|page: Page| #[trigger] in_run(page, first_page, count) implies mapped.contains_key(
        page,
    ) && mapped[page] == (Mapped {
        frame: Frame { start: (first_frame + (page.start - first_page)) as u64 },
        flags,
        backing: Backing::Existing,
    }) by {}
    if segment.mem_size <= segment.file_size {
        assert(after == mapped);
    } else {
        lemma_zero_pages(segment, image_len);
        let zero_pages = zero_page_count(segment) as nat;
        if boundary % 4096 == 0 {
            let before = LoadState { pages: mapped, allocator: state.allocator };
            assert(load_one(state, segment, image_start) == zero_fill(
                before,
                boundary,
                zero_pages,
                flags,
            ));
            lemma_zero_fill_kept(before, boundary, zero_pages, flags);
            lemma_zero_fill_done(before, boundary, zero_pages, flags);
            assert forall|page: Page| #[trigger] state.pages.contains_key(page) implies after.contains_key(
                page,
            ) && after[page] == state.pages[page] by {
                assert(mapped.contains_key(page));
            }
            assert forall|page: Page| #[trigger] in_run(page, first_page, count) implies after.contains_key(
                page,
            ) && after[page] == mapped[page] by {
                assert(mapped.contains_key(page));
            }
        } else {
            lemma_boundary_page(segment, image_start, image_len);
            let last = Page { start: page_floor(boundary) as u64 };
            let frame = allocate_spec(state.allocator).0->0;
            lemma_allocation_raises(state.allocator);
            let target = Mapped {
                frame: Frame { start: frame as u64 },
                flags: mapped[last].flags,
                backing: Backing::Prefix {
                    source: mapped[last].frame,
                    length: (boundary % 4096) as u64,
                },
            };
            let before = LoadState {
                pages: mapped.insert(last, target),
                allocator: allocate_spec(state.allocator).1,
            };
            assert(load_one(state, segment, image_start) == zero_fill(
                before,
                page_ceil(boundary),
                zero_pages,
                flags,
            ));
            lemma_zero_fill_kept(before, page_ceil(boundary), zero_pages, flags);
            lemma_zero_fill_done(before, page_ceil(boundary), zero_pages, flags);
            assert(in_run(last, first_page, count));
            assert(before.pages.contains_key(last));
            assert(after[last] == target);
            assert forall|page: Page| #[trigger]
                in_run(page, first_page, count) && page != last implies after.contains_key(page)
                && after[page] == mapped[page] by {
                assert(before.pages.contains_key(page));
                assert(before.pages[page] == mapped[page]);
            }
            assert forall|page: Page| #[trigger] state.pages.contains_key(page) implies after.contains_key(
                page,
            ) && after[page] == state.pages[page] by {
                assert(page != last);
                assert(before.pages.contains_key(page));
                assert(before.pages[page] == mapped[page]);
            }
        }
    }
}

/// Where filling pages with zero succeeds, every page that was mapped before
/// is mapped as it was.
proof fn lemma_zero_fill_kept(state: LoadState, page: int, count: nat, flags: PageFlags)
    requires
        page % 4096 == 0,
        0 <= page,
        page + count * 4096 <= u64::MAX + 1,
        zero_fill(state, page, count, flags) is Ok,
    ensures
        forall|other: Page| #[trigger]
            state.pages.contains_key(other) ==> zero_fill(
                state,
                page,
                count,
                flags,
            )->Ok_0.pages.contains_key(other) && zero_fill(state, page, count, flags)->Ok_0.pages[other]
                == state.pages[other],
{
    lemma_zero_fill_done(state, page, count, flags);
    let filled = zero_fill(state, page, count, flags)->Ok_0;
    assert forall|other: Page| #[trigger] state.pages.contains_key(other) implies filled.pages.contains_key(
        other,
    ) && filled.pages[other] == state.pages[other] by {
        assert(filled.pages.contains_key(other) <==> state.pages.contains_key(other) || in_run(
            other,
            page,
            count as int,
        ));
    }
}

/// Loading a segment maps every page that holds a byte of the segment from
/// the file, and each such byte is read at its address in memory as the file
/// has it.
pub proof fn law_file_bytes_mapped(
    state: LoadState,
    segment: Segment,
    image_start: u64,
    image: Seq<u8>,
    memory: spec_fn(int) -> u8,
    address: int,
)
    requires
        segment.kind == SegmentKind::Load,
        image.len() <= u64::MAX,
        segment_supported(segment, image.len() as u64),
        image_placed(image_start, image.len() as u64),
        memory_holds(memory, image_start as int, image),
        load_one(state, segment, image_start) is Ok,
        segment.virtual_addr <= address < segment.virtual_addr + segment.file_size,
    ensures
        read_byte(load_one(state, segment, image_start)->Ok_0.pages, memory, address) == Some(
            image[segment.offset + (address - segment.virtual_addr)],
        ),
{
    let image_len = image.len() as u64;
    let after = load_one(state, segment, image_start)->Ok_0.pages;
    let va = segment.virtual_addr as int;
    let pa = file_start(segment, image_start);
    let page = Page { start: page_floor(address) as u64 };
    lemma_page_offsets_shift(segment.offset as int, va, 0);
    lemma_page_offsets_shift(image_start as int, 0, segment.offset as int);
    assert(pa % 4096 == va % 4096);
    lemma_page_of_file_byte(va, pa, segment.file_size as int, address);
    lemma_file_pages(segment, image_start, image_len);
    assert(in_run(page, page_floor(va), file_page_count(segment, image_start)));
    lemma_file_page_target(state, segment, image_start, image_len, page);
    let from = page_floor(pa) + (page.start - page_floor(va));
    let at = segment.offset + (address - va);
    assert(memory(image_start + at) == image[at]);
    assert(from + address % 4096 == image_start + at);
    let boundary = zero_start(segment);
    if after[page].backing != Backing::Existing {
        assert(page_floor(address) == page_floor(boundary));
        assert(address % 4096 < boundary % 4096);
    }
}

/// The page of a byte of `size` bytes that lie at `va` in memory and at `pa`
/// in physical memory, equally far into their pages.
proof fn lemma_page_of_file_byte(va: int, pa: int, size: int, address: int)
    requires
        va % 4096 == pa % 4096,
        0 <= va,
        0 <= pa,
        va <= address < va + size,
    ensures
        page_floor(address) % 4096 == 0,
        page_floor(va) <= page_floor(address) <= page_floor(va + size - 1),
        0 <= page_floor(pa) + (page_floor(address) - page_floor(va)) <= pa + size - 1,
        page_floor(pa) + (page_floor(address) - page_floor(va)) + address % 4096 == pa + (address
            - va),
{
}

/// What a page of the bytes of a loaded segment from the file is mapped to.
proof fn lemma_file_page_target(
    state: LoadState,
    segment: Segment,
    image_start: u64,
    image_len: u64,
    page: Page,
)
    requires
        segment.kind == SegmentKind::Load,
        segment_supported(segment, image_len),
        image_placed(image_start, image_len),
        load_one(state, segment, image_start) is Ok,
        in_run(
            page,
            page_floor(segment.virtual_addr as int),
            file_page_count(segment, image_start),
        ),
    ensures
        ({
            let after = load_one(state, segment, image_start)->Ok_0.pages;
            let from = Frame {
                start: (page_floor(file_start(segment, image_start)) + (page.start - page_floor(
                    segment.virtual_addr as int,
                ))) as u64,
            };
            &&& after.contains_key(page)
            &&& after[page].flags == segment_flags(segment)
            &&& after[page].backing == Backing::Existing ==> after[page].frame == from
            &&& after[page].backing != Backing::Existing ==> {
                &&& segment.mem_size > segment.file_size
                &&& zero_start(segment) % 4096 != 0
                &&& page.start == page_floor(zero_start(segment))
                &&& after[page].backing == Backing::Prefix {
                    source: from,
                    length: (zero_start(segment) % 4096) as u64,
                }
            }
        }),
{
    lemma_load_one(state, segment, image_start, image_len);
}

/// Loading a segment that is larger in memory than in the file maps every
/// page from the end of its bytes from the file through its last byte, and
/// every byte from that end on, through the end of the last page, reads as
/// zero.
pub proof fn law_zero_bytes_mapped(
    state: LoadState,
    segment: Segment,
    image_start: u64,
    image_len: u64,
    memory: spec_fn(int) -> u8,
    address: int,
)
    requires
        segment.kind == SegmentKind::Load,
        segment_supported(segment, image_len),
        image_placed(image_start, image_len),
        load_one(state, segment, image_start) is Ok,
        segment.mem_size > segment.file_size,
        segment.virtual_addr + segment.file_size <= address < page_ceil(
            segment.virtual_addr + segment.mem_size,
        ),
    ensures
        read_byte(load_one(state, segment, image_start)->Ok_0.pages, memory, address) == Some(0u8),
{
    let after = load_one(state, segment, image_start)->Ok_0.pages;
    let boundary = zero_start(segment);
    let end = segment.virtual_addr + segment.mem_size;
    let page = Page { start: page_floor(address) as u64 };
    lemma_load_one(state, segment, image_start, image_len);
    lemma_zero_pages(segment, image_len);
    lemma_page_of_zero_byte(boundary, end, address);
    if boundary % 4096 != 0 && page_floor(address) == page_floor(boundary) {
        assert(after.contains_key(page));
    } else {
        assert(in_run(page, page_ceil(boundary), zero_page_count(segment)));
        assert(after.contains_key(page));
    }
}

/// The page of a byte between `boundary` and the end of the page of the last
/// byte before `end`: the page of `boundary`, where `boundary` lies within a
/// page, with the byte at or after the boundary; else a page from the first
/// page boundary after `boundary` on.
proof fn lemma_page_of_zero_byte(boundary: int, end: int, address: int)
    requires
        0 <= boundary < end,
        boundary <= address < page_ceil(end),
    ensures
        page_floor(address) % 4096 == 0,
        0 <= page_floor(address) <= address,
        (boundary % 4096 != 0 && page_floor(address) == page_floor(boundary) && address % 4096
            >= boundary % 4096) || (page_ceil(boundary) <= page_floor(address) <= page_floor(
            end - 1,
        )),
{
}

/// Where the bytes of a segment from the file end within a page and the
/// segment goes on in memory, that page is mapped, with the permissions of
/// the segment, to a frame that the allocator hands out for it, above every
/// frame handed out before. The frame holds the bytes of the image's frame up
/// to the boundary and zero from there on; the image's frame itself is left
/// as it is.
pub proof fn law_boundary_page_copied(
    state: LoadState,
    segment: Segment,
    image_start: u64,
    image_len: u64,
)
    requires
        segment.kind == SegmentKind::Load,
        segment_supported(segment, image_len),
        image_placed(image_start, image_len),
        load_one(state, segment, image_start) is Ok,
        segment.mem_size > segment.file_size,
        zero_start(segment) % 4096 != 0,
    ensures
        ({
            let after = load_one(state, segment, image_start)->Ok_0.pages;
            let page = Page { start: page_floor(zero_start(segment)) as u64 };
            &&& !state.pages.contains_key(page)
            &&& after.contains_key(page)
            &&& after[page].flags == segment_flags(segment)
            &&& after[page].backing == Backing::Prefix {
                source: Frame {
                    start: page_floor(file_start(segment, image_start) + segment.file_size) as u64,
                },
                length: (zero_start(segment) % 4096) as u64,
            }
            &&& allocate_spec(state.allocator).0 == Some(after[page].frame.start as int)
            &&& state.allocator.previous < after[page].frame.start
        }),
{
    let va = segment.virtual_addr as int;
    let pa = file_start(segment, image_start);
    lemma_load_one(state, segment, image_start, image_len);
    lemma_allocation_raises(state.allocator);
    lemma_file_pages(segment, image_start, image_len);
    lemma_page_offsets_shift(segment.offset as int, va, 0);
    lemma_page_offsets_shift(image_start as int, 0, segment.offset as int);
    assert(pa % 4096 == va % 4096);
    lemma_page_offsets_shift(pa, va, segment.file_size as int);
}

/// Loading an image that consists of one loadable segment is loading that
/// segment.
pub proof fn law_single_segment_image(image: KernelImage, state: LoadState)
    requires
        image.segments.len() == 1,
        image.segments[0].kind == SegmentKind::Load,
    ensures
        load_image(image, state) == load_one(state, image.segments[0], image.image_start),
{
    reveal_with_fuel(load_pass, 3);
    reveal_with_fuel(protect_pass, 3);
}


/// What the second pass of loading makes of the pages, where it succeeds:
/// the same pages are mapped, to the same frames, and no page gains the
/// write permission; and each page of each segment that the pass makes
/// read-only has no write permission.
proof fn lemma_protect_pass(segments: Seq<Segment>, from: int, pages: Map<Page, Mapped>)
    requires
        0 <= from,
        protect_pass(segments, from, pages) is Ok,
    ensures
        ({
            let after = protect_pass(segments, from, pages)->Ok_0;
            &&& forall|page: Page| #[trigger]
                after.contains_key(page) <==> pages.contains_key(page)
            &&& forall|page: Page| #[trigger]
                pages.contains_key(page) ==> after[page].frame == pages[page].frame
                    && after[page].backing == pages[page].backing && after[page].flags.present
                    == pages[page].flags.present && after[page].flags.no_execute
                    == pages[page].flags.no_execute && (after[page].flags.writable
                    ==> pages[page].flags.writable)
            &&& forall|index: int, page: Page|
                from <= index < segments.len() && segments[index].kind
                    == SegmentKind::RelocationReadOnly && #[trigger] in_run(
                    page,
                    page_floor(segments[index].virtual_addr as int),
                    pages_spanned(
                        segments[index].virtual_addr as int,
                        segments[index].mem_size as int,
                    ),
                ) ==> after.contains_key(page) && !after[page].flags.writable
        }),
    decreases segments.len() - from,
{
    if from < segments.len() {
        let next = if segments[from].kind == SegmentKind::RelocationReadOnly {
            protect_one(pages, segments[from])->Ok_0
        } else {
            pages
        };
        lemma_protect_pass(segments, from + 1, next);
        let after = protect_pass(segments, from, pages)->Ok_0;
        assert forall|page: Page| #[trigger] after.contains_key(page) <==> pages.contains_key(
            page,
        ) by {
            assert(after.contains_key(page) <==> next.contains_key(page));
        }
        assert forall|page: Page| #[trigger] pages.contains_key(page) implies after[page].frame
            == pages[page].frame && after[page].backing == pages[page].backing
            && after[page].flags.present == pages[page].flags.present
            && after[page].flags.no_execute == pages[page].flags.no_execute && (
        after[page].flags.writable ==> pages[page].flags.writable) by {
            assert(next.contains_key(page));
        }
        assert forall|index: int, page: Page|
            from <= index < segments.len() && segments[index].kind
                == SegmentKind::RelocationReadOnly && #[trigger] in_run(
                page,
                page_floor(segments[index].virtual_addr as int),
                pages_spanned(segments[index].virtual_addr as int, segments[index].mem_size as int),
            ) implies after.contains_key(page) && !after[page].flags.writable by {
            if index == from {
                assert(next.contains_key(page));
                assert(!next[page].flags.writable);
            }
        }
    }
}

/// After an image is loaded, no page of a segment that is read-only after
/// relocation can be written: every page from the page of the first byte of
/// the segment through the page of its last byte is mapped without the write
/// permission.
pub proof fn law_loaded_read_only(image: KernelImage, state: LoadState, index: int, page: Page)
    requires
        load_image(image, state) is Ok,
        0 <= index < image.segments.len(),
        image.segments[index].kind == SegmentKind::RelocationReadOnly,
        in_run(
            page,
            page_floor(image.segments[index].virtual_addr as int),
            pages_spanned(
                image.segments[index].virtual_addr as int,
                image.segments[index].mem_size as int,
            ),
        ),
    ensures
        load_image(image, state)->Ok_0.pages.contains_key(page),
        !load_image(image, state)->Ok_0.pages[page].flags.writable,
{
    let loaded = load_pass(image.segments, 0, image.image_start, state)->Ok_0;
    lemma_protect_pass(image.segments, 0, loaded.pages);
}


/// The first address after what a loaded segment shows: the end of its last
/// page where it is larger in memory than in the file, else the end of its
/// bytes.
pub open spec fn segment_end(segment: Segment) -> int {
    if segment.mem_size > segment.file_size {
        page_ceil(segment.virtual_addr + segment.mem_size)
    } else {
        segment.virtual_addr + segment.file_size
    }
}

/// The first pass of loading leaves every page that is mapped as it is.
proof fn lemma_load_pass_keeps(
    segments: Seq<Segment>,
    from: int,
    image_start: u64,
    image_len: u64,
    state: LoadState,
    page: Page,
)
    requires
        0 <= from,
        image_placed(image_start, image_len),
        forall|i: int| 0 <= i < segments.len() ==> segment_supported(#[trigger] segments[i], image_len),
        load_pass(segments, from, image_start, state) is Ok,
        state.pages.contains_key(page),
    ensures
        load_pass(segments, from, image_start, state)->Ok_0.pages.contains_key(page),
        load_pass(segments, from, image_start, state)->Ok_0.pages[page] == state.pages[page],
    decreases segments.len() - from,
{
    if from < segments.len() {
        if segments[from].kind == SegmentKind::Load {
            let next = load_one(state, segments[from], image_start)->Ok_0;
            law_earlier_mappings_kept(state, segments[from], image_start, image_len, page);
            lemma_load_pass_keeps(segments, from + 1, image_start, image_len, next, page);
        } else {
            lemma_load_pass_keeps(segments, from + 1, image_start, image_len, state, page);
        }
    }
}

/// After the first pass of loading, every loadable segment reads as the file
/// has it and then as zero.
proof fn lemma_load_pass_reads(
    segments: Seq<Segment>,
    from: int,
    image_start: u64,
    image: Seq<u8>,
    memory: spec_fn(int) -> u8,
    state: LoadState,
    index: int,
    address: int,
)
    requires
        0 <= from <= index < segments.len(),
        image.len() <= u64::MAX,
        image_placed(image_start, image.len() as u64),
        forall|i: int|
            0 <= i < segments.len() ==> segment_supported(#[trigger] segments[i], image.len() as u64),
        memory_holds(memory, image_start as int, image),
        load_pass(segments, from, image_start, state) is Ok,
        segments[index].kind == SegmentKind::Load,
        segments[index].virtual_addr <= address < segment_end(segments[index]),
    ensures
        read_byte(load_pass(segments, from, image_start, state)->Ok_0.pages, memory, address)
            == Some(segment_byte(segments[index], image, address)),
    decreases index - from,
{
    let image_len = image.len() as u64;
    let page = Page { start: page_floor(address) as u64 };
    if from == index {
        let segment = segments[index];
        let next = load_one(state, segment, image_start)->Ok_0;
        if address < segment.virtual_addr + segment.file_size {
            law_file_bytes_mapped(state, segment, image_start, image, memory, address);
        } else {
            law_zero_bytes_mapped(state, segment, image_start, image_len, memory, address);
        }
        assert(next.pages.contains_key(page));
        lemma_load_pass_keeps(segments, from + 1, image_start, image_len, next, page);
    } else if segments[from].kind == SegmentKind::Load {
        let next = load_one(state, segments[from], image_start)->Ok_0;
        lemma_load_pass_reads(segments, from + 1, image_start, image, memory, next, index, address);
    } else {
        lemma_load_pass_reads(segments, from + 1, image_start, image, memory, state, index, address);
    }
}

/// After an image is loaded, every loadable segment of it reads as the file
/// has it and then as zero: each address from the start of the segment to
/// its end is mapped; where it lies in the part that the file holds, the byte
/// of the file is read there, and zero everywhere else.
pub proof fn law_loaded_image_reads(
    image: KernelImage,
    bytes: Seq<u8>,
    memory: spec_fn(int) -> u8,
    state: LoadState,
    index: int,
    address: int,
)
    requires
        image.wf(),
        bytes.len() == image.image_len,
        memory_holds(memory, image.image_start as int, bytes),
        load_image(image, state) is Ok,
        0 <= index < image.segments.len(),
        image.segments[index].kind == SegmentKind::Load,
        image.segments[index].virtual_addr <= address < segment_end(image.segments[index]),
    ensures
        read_byte(load_image(image, state)->Ok_0.pages, memory, address) == Some(
            segment_byte(image.segments[index], bytes, address),
        ),
{
    let loaded = load_pass(image.segments, 0, image.image_start, state)->Ok_0;
    lemma_load_pass_reads(image.segments, 0, image.image_start, bytes, memory, state, index, address);
    lemma_protect_pass(image.segments, 0, loaded.pages);
    let page = Page { start: page_floor(address) as u64 };
    assert(loaded.pages.contains_key(page));
}

} // verus!
