//! Mapping the segments of a kernel image into the new address space.

use vstd::prelude::*;
use crate::address_space::{AddressSpace, Backing, Mapped, PageFlags, TranslateResult};
use crate::elf::{Segment, SegmentKind};
use crate::kernel::{image_placed, segment_supported, KernelExecutable, KernelImage};
use crate::memory::{allocate_spec, AllocatorState, NutcrackerFrameAllocator};
use crate::paging::{
    align_up_to_page, lemma_page_offsets_shift, lemma_pages_spanned, page_ceil, page_floor,
    pages_spanned, Frame, Page, LOWER_HALF_END, PAGE_SIZE, PHYS_ADDR_LIMIT, UPPER_HALF_START,
};

verus! {

/// Why loading stopped.
#[derive(Clone, Copy, Debug, PartialEq, Eq, Structural)]
pub enum LoadError {
    /// A page that a segment occupies is mapped already.
    PageAlreadyMapped,
    /// The frame allocator is exhausted.
    OutOfFrames,
    /// A page of a segment to be made read-only is not mapped.
    PageNotMapped,
}

/// What loading works on: the mapped pages and the frame allocator.
pub struct LoadState {
    pub pages: Map<Page, Mapped>,
    pub allocator: AllocatorState,
}

/// Whether `page` is one of the `count` pages from the address `first` on.
pub open spec fn in_run(page: Page, first: int, count: int) -> bool {
    page.start % 4096 == 0 && first <= page.start < first + count * 4096
}

/// The permissions that a segment asks for: present always, writable where
/// the segment is writable, not executable unless the segment is executable.
pub open spec fn segment_flags(segment: Segment) -> PageFlags {
    PageFlags { present: true, writable: segment.writable, no_execute: !segment.executable }
}

/// `pages` with the `count` pages from `first_page` on mapped, one after the
/// other, to the frames from `first_frame` on, which keep what they hold.
pub open spec fn with_run(
    pages: Map<Page, Mapped>,
    first_page: int,
    first_frame: int,
    count: int,
    flags: PageFlags,
) -> Map<Page, Mapped> {
    Map::new(
        |page: Page| pages.contains_key(page) || in_run(page, first_page, count),
        |page: Page|
            if in_run(page, first_page, count) {
                Mapped {
                    frame: Frame { start: (first_frame + (page.start - first_page)) as u64 },
                    flags,
                    backing: Backing::Existing,
                }
            } else {
                pages[page]
            },
    )
}

/// Mapping the `count` pages from `first_page` on to the frames from
/// `first_frame` on: it fails where one of the pages is mapped already.
pub open spec fn map_run(
    pages: Map<Page, Mapped>,
    first_page: int,
    first_frame: int,
    count: int,
    flags: PageFlags,
) -> Result<Map<Page, Mapped>, LoadError> {
    if exists|page: Page| in_run(page, first_page, count) && #[trigger] pages.contains_key(page) {
        Err(LoadError::PageAlreadyMapped)
    } else {
        Ok(with_run(pages, first_page, first_frame, count, flags))
    }
}

/// Mapping the `count` pages from `page` on to fresh frames filled with zero,
/// page by page: for each page a frame is allocated first, and then the page
/// is mapped to it.
pub open spec fn zero_fill(state: LoadState, page: int, count: nat, flags: PageFlags) -> Result<
    LoadState,
    LoadError,
>
    decreases count,
{
    if count == 0 {
        Ok(state)
    } else {
        match allocate_spec(state.allocator).0 {
            None => Err(LoadError::OutOfFrames),
            Some(frame) => if state.pages.contains_key(Page { start: page as u64 }) {
                Err(LoadError::PageAlreadyMapped)
            } else {
                zero_fill(
                    LoadState {
                        pages: state.pages.insert(
                            Page { start: page as u64 },
                            Mapped {
                                frame: Frame { start: frame as u64 },
                                flags,
                                backing: Backing::Zeroed,
                            },
                        ),
                        allocator: allocate_spec(state.allocator).1,
                    },
                    page + 4096,
                    (count - 1) as nat,
                    flags,
                )
            },
        }
    }
}

/// Whether the `count` pages from `first` on are canonical addresses of one
/// half of the address space.
pub open spec fn run_supported(first: int, count: int) -> bool {
    &&& first % 4096 == 0
    &&& 0 <= first
    &&& 0 <= count
    &&& first + count * 4096 <= LOWER_HALF_END || (first >= UPPER_HALF_START && first + count * 4096
        <= u64::MAX + 1)
}

/// Maps the `count` pages from `first_page` on to the frames from
/// `first_frame` on.
pub(crate) fn map_file_pages(
    address_space: &mut AddressSpace,
    first_page: u64,
    first_frame: u64,
    count: u64,
    flags: PageFlags,
) -> (result: Result<(), LoadError>)
    requires
        old(address_space).wf(),
        run_supported(first_page as int, count as int),
        first_frame % 4096 == 0,
        first_frame + count * 4096 <= PHYS_ADDR_LIMIT,
    ensures
        final(address_space).wf(),
        final(address_space).root() == old(address_space).root(),
        match map_run(old(address_space)@, first_page as int, first_frame as int, count as int, flags) {
            Ok(pages) => result is Ok && final(address_space)@ == pages,
            Err(error) => result == Err::<(), LoadError>(error),
        },
{
    let ghost before = address_space@;
    let mut done: u64 = 0;
    proof {
        assert(address_space@ =~= with_run(before, first_page as int, first_frame as int, 0, flags));
    }
    while done < count
        invariant
            done <= count,
            address_space.wf(),
            address_space.root() == old(address_space).root(),
            before == old(address_space)@,
            run_supported(first_page as int, count as int),
            first_frame % 4096 == 0,
            first_frame + count * 4096 <= PHYS_ADDR_LIMIT,
            address_space@ == with_run(before, first_page as int, first_frame as int, done as int, flags),
            forall|page: Page|
                in_run(page, first_page as int, done as int) ==> !#[trigger] before.contains_key(page),
        decreases count - done,
    {
        let page = Page { start: first_page + done * PAGE_SIZE };
        let frame = Frame { start: first_frame + done * PAGE_SIZE };
        assert(!in_run(page, first_page as int, done as int));
        match address_space.map_to(page, frame, flags, Backing::Existing) {
            Ok(_) => {},
            Err(_) => {
                assert(in_run(page, first_page as int, count as int) && before.contains_key(page));
                return Err(LoadError::PageAlreadyMapped);
            },
        }
        proof {
            assert(address_space@ =~= with_run(
                before,
                first_page as int,
                first_frame as int,
                done + 1,
                flags,
            ));
        }
        done += 1;
    }
    Ok(())
}

/// Maps the `count` pages from `first_page` on to fresh frames filled with
/// zero.
pub(crate) fn map_zero_pages(
    address_space: &mut AddressSpace,
    frame_allocator: &mut NutcrackerFrameAllocator,
    first_page: u64,
    count: u64,
    flags: PageFlags,
) -> (result: Result<(), LoadError>)
    requires
        old(address_space).wf(),
        old(frame_allocator).wf(),
        run_supported(first_page as int, count as int),
    ensures
        final(address_space).wf(),
        final(frame_allocator).wf(),
        final(address_space).root() == old(address_space).root(),
        match zero_fill(
            LoadState { pages: old(address_space)@, allocator: old(frame_allocator)@ },
            first_page as int,
            count as nat,
            flags,
        ) {
            Ok(state) => result is Ok && final(address_space)@ == state.pages
                && final(frame_allocator)@ == state.allocator,
            Err(error) => result == Err::<(), LoadError>(error),
        },
{
    let ghost outcome = zero_fill(
        LoadState { pages: address_space@, allocator: frame_allocator@ },
        first_page as int,
        count as nat,
        flags,
    );
    let mut done: u64 = 0;
    while done < count
        invariant
            done <= count,
            address_space.wf(),
            frame_allocator.wf(),
            address_space.root() == old(address_space).root(),
            run_supported(first_page as int, count as int),
            outcome == zero_fill(
                LoadState { pages: old(address_space)@, allocator: old(frame_allocator)@ },
                first_page as int,
                count as nat,
                flags,
            ),
            outcome == zero_fill(
                LoadState { pages: address_space@, allocator: frame_allocator@ },
                first_page + done * 4096,
                (count - done) as nat,
                flags,
            ),
        decreases count - done,
    {
        let ghost state = LoadState { pages: address_space@, allocator: frame_allocator@ };
        let ghost at: int = first_page + done * 4096;
        assert(0 <= at <= u64::MAX - 4095 && at % 4096 == 0);
        let page = Page { start: first_page + done * PAGE_SIZE };
        assert(page.wf() && page.start == at);
        let frame = match frame_allocator.allocate_frame() {
            Some(frame) => frame,
            None => {
                assert(outcome == zero_fill(state, at, (count - done) as nat, flags));
                return Err(LoadError::OutOfFrames);
            },
        };
        match address_space.map_to(page, frame, flags, Backing::Zeroed) {
            Ok(_) => {},
            Err(_) => {
                assert(outcome == zero_fill(state, at, (count - done) as nat, flags));
                return Err(LoadError::PageAlreadyMapped);
            },
        }
        proof {
            let next = LoadState { pages: address_space@, allocator: frame_allocator@ };
            assert(zero_fill(state, at, (count - done) as nat, flags) == zero_fill(
                next,
                at + 4096,
                (count - done - 1) as nat,
                flags,
            ));
            assert(at + 4096 == first_page + (done + 1) * 4096);
        }
        done += 1;
    }
    Ok(())
}


/// The physical address of the first byte that a segment has in the file.
pub open spec fn file_start(segment: Segment, image_start: u64) -> int {
    image_start + segment.offset
}

/// The number of frames that hold the bytes which a segment has in the file:
/// from the frame of its first byte through the frame of its last byte.
pub open spec fn file_page_count(segment: Segment, image_start: u64) -> int {
    pages_spanned(file_start(segment, image_start), segment.file_size as int)
}

/// The address in memory at which the bytes from the file end and the zero
/// bytes of a segment begin.
pub open spec fn zero_start(segment: Segment) -> int {
    segment.virtual_addr + segment.file_size
}

/// The number of pages of a segment that hold zero bytes only: from the first
/// page boundary at or after the start of the zero bytes through the page of
/// the last byte of the segment.
pub open spec fn zero_page_count(segment: Segment) -> int {
    (page_floor(segment.virtual_addr + segment.mem_size - 1) - page_ceil(zero_start(segment))) / 4096
        + 1
}

/// Loading one loadable segment. The pages of its bytes in the file are
/// mapped to the frames of the image that hold them. Where the segment is
/// larger in memory than in the file, and the zero bytes start within a page,
/// that page is mapped anew, with its permissions, to a fresh frame that
/// holds the bytes before the boundary and zero from there on; and every
/// further page of the segment is mapped to a fresh frame of zero bytes.
pub open spec fn load_one(state: LoadState, segment: Segment, image_start: u64) -> Result<
    LoadState,
    LoadError,
> {
    let flags = segment_flags(segment);
    match map_run(
        state.pages,
        page_floor(segment.virtual_addr as int),
        page_floor(file_start(segment, image_start)),
        file_page_count(segment, image_start),
        flags,
    ) {
        Err(error) => Err(error),
        Ok(pages) => if segment.mem_size <= segment.file_size {
            Ok(LoadState { pages, allocator: state.allocator })
        } else if zero_start(segment) % 4096 == 0 {
            zero_fill(
                LoadState { pages, allocator: state.allocator },
                zero_start(segment),
                zero_page_count(segment) as nat,
                flags,
            )
        } else {
            let last = Page { start: page_floor(zero_start(segment)) as u64 };
            match allocate_spec(state.allocator).0 {
                None => Err(LoadError::OutOfFrames),
                Some(frame) => zero_fill(
                    LoadState {
                        pages: pages.insert(
                            last,
                            Mapped {
                                frame: Frame { start: frame as u64 },
                                flags: pages[last].flags,
                                backing: Backing::Prefix {
                                    source: pages[last].frame,
                                    length: (zero_start(segment) % 4096) as u64,
                                },
                            },
                        ),
                        allocator: allocate_spec(state.allocator).1,
                    },
                    page_ceil(zero_start(segment)),
                    zero_page_count(segment) as nat,
                    flags,
                ),
            }
        },
    }
}


/// The pages of the bytes that a supported loadable segment has in the file
/// are canonical, and their frames lie below the physical address limit.
pub proof fn lemma_file_pages(segment: Segment, image_start: u64, image_len: u64)
    requires
        segment.kind == SegmentKind::Load,
        segment_supported(segment, image_len),
        image_placed(image_start, image_len),
    ensures
        file_page_count(segment, image_start) >= 0,
        file_page_count(segment, image_start) == 0 <==> segment.file_size == 0 && file_start(
            segment,
            image_start,
        ) % 4096 == 0,
        page_floor(file_start(segment, image_start)) + file_page_count(segment, image_start) * 4096
            == page_floor(file_start(segment, image_start) + segment.file_size - 1) + 4096,
        page_floor(segment.virtual_addr as int) + file_page_count(segment, image_start) * 4096
            == page_floor(segment.virtual_addr + segment.file_size - 1) + 4096,
        run_supported(
            page_floor(segment.virtual_addr as int),
            file_page_count(segment, image_start),
        ),
        page_floor(file_start(segment, image_start)) + file_page_count(segment, image_start) * 4096
            <= PHYS_ADDR_LIMIT,
{
    let pa = file_start(segment, image_start);
    let va = segment.virtual_addr as int;
    let size = segment.file_size as int;
    lemma_page_offsets_shift(segment.offset as int, va, 0);
    lemma_page_offsets_shift(image_start as int, 0, segment.offset as int);
    assert(pa % 4096 == va % 4096);
    lemma_pages_spanned(pa, size);
    lemma_page_offsets_shift(pa, va, size - 1);
    let last = va + size - 1;
    assert(page_floor(last) + 4096 <= LOWER_HALF_END || (va >= UPPER_HALF_START && page_floor(last)
        + 4096 <= u64::MAX + 1)) by {
        if va + segment.mem_size <= LOWER_HALF_END {
            assert(last < LOWER_HALF_END);
            assert(page_floor(last) + 4096 <= LOWER_HALF_END);
        } else {
            assert(last <= u64::MAX);
            assert(page_floor(last) + 4096 <= u64::MAX + 1);
        }
    }
    assert(page_floor(va) >= UPPER_HALF_START || va < UPPER_HALF_START);
    let end = pa + size - 1;
    assert(end < PHYS_ADDR_LIMIT);
    assert(page_floor(end) + 4096 <= PHYS_ADDR_LIMIT);
}

/// Where the zero bytes of a supported loadable segment start within a page,
/// that page is the last of the pages of its bytes in the file.
pub proof fn lemma_boundary_page(segment: Segment, image_start: u64, image_len: u64)
    requires
        segment.kind == SegmentKind::Load,
        segment_supported(segment, image_len),
        image_placed(image_start, image_len),
        zero_start(segment) % 4096 != 0,
    ensures
        in_run(
            Page { start: page_floor(zero_start(segment)) as u64 },
            page_floor(segment.virtual_addr as int),
            file_page_count(segment, image_start),
        ),
        page_floor(zero_start(segment)) == page_floor(segment.virtual_addr as int) + (
        file_page_count(segment, image_start) - 1) * 4096,
{
    lemma_file_pages(segment, image_start, image_len);
    let boundary = zero_start(segment);
    assert(page_floor(boundary) == page_floor(boundary - 1));
    let pa = file_start(segment, image_start);
    lemma_page_offsets_shift(segment.offset as int, segment.virtual_addr as int, 0);
    lemma_page_offsets_shift(image_start as int, 0, segment.offset as int);
    assert(pa % 4096 == segment.virtual_addr % 4096);
}

/// The pages of zero bytes of a supported loadable segment that is larger in
/// memory than in the file are canonical.
pub proof fn lemma_zero_pages(segment: Segment, image_len: u64)
    requires
        segment.kind == SegmentKind::Load,
        segment_supported(segment, image_len),
        segment.mem_size > segment.file_size,
    ensures
        zero_page_count(segment) >= 0,
        zero_page_count(segment) == 0 <==> page_floor(segment.virtual_addr + segment.mem_size - 1)
            < page_ceil(zero_start(segment)),
        zero_page_count(segment) > 0 ==> run_supported(
            page_ceil(zero_start(segment)),
            zero_page_count(segment),
        ),
        page_ceil(zero_start(segment)) + zero_page_count(segment) * 4096 == page_floor(
            segment.virtual_addr + segment.mem_size - 1,
        ) + 4096,
        page_ceil(zero_start(segment)) % 4096 == 0,
        0 <= page_ceil(zero_start(segment)),
        page_ceil(zero_start(segment)) + zero_page_count(segment) * 4096 <= u64::MAX + 1,
{
    let boundary = zero_start(segment);
    let last = segment.virtual_addr + segment.mem_size - 1;
    let low = page_ceil(boundary) / 4096;
    let high = last / 4096;
    assert(page_ceil(boundary) == 4096 * low);
    assert(page_floor(last) == 4096 * high);
    assert((4096 * high - 4096 * low) / 4096 == high - low);
    assert(boundary <= last);
    assert(page_floor(boundary) <= page_floor(last));
    if zero_page_count(segment) > 0 {
        assert(page_floor(last) + 4096 <= LOWER_HALF_END || (segment.virtual_addr
            >= UPPER_HALF_START && page_floor(last) + 4096 <= u64::MAX + 1)) by {
            if segment.virtual_addr + segment.mem_size <= LOWER_HALF_END {
                assert(page_floor(last) + 4096 <= LOWER_HALF_END);
            } else {
                assert(page_floor(last) + 4096 <= u64::MAX + 1);
            }
        }
    }
}


/// Loads one supported loadable segment of the image at `image_start`.
fn load_segment(
    address_space: &mut AddressSpace,
    frame_allocator: &mut NutcrackerFrameAllocator,
    segment: &Segment,
    image_start: u64,
    image_len: u64,
) -> (result: Result<(), LoadError>)
    requires
        old(address_space).wf(),
        old(frame_allocator).wf(),
        segment.kind == SegmentKind::Load,
        segment_supported(*segment, image_len),
        image_placed(image_start, image_len),
    ensures
        final(address_space).wf(),
        final(frame_allocator).wf(),
        final(address_space).root() == old(address_space).root(),
        match load_one(
            LoadState { pages: old(address_space)@, allocator: old(frame_allocator)@ },
            *segment,
            image_start,
        ) {
            Ok(state) => result is Ok && final(address_space)@ == state.pages
                && final(frame_allocator)@ == state.allocator,
            Err(error) => result == Err::<(), LoadError>(error),
        },
{
    proof {
        lemma_file_pages(*segment, image_start, image_len);
    }
    let flags = PageFlags {
        present: true,
        writable: segment.writable,
        no_execute: !segment.executable,
    };
    let file_start: u64 = image_start + segment.offset;
    let first_frame: u64 = file_start - file_start % PAGE_SIZE;
    let first_page: u64 = segment.virtual_addr - segment.virtual_addr % PAGE_SIZE;
    let count: u64 = if segment.file_size == 0 {
        if file_start % PAGE_SIZE == 0 {
            0
        } else {
            1
        }
    } else {
        let last: u64 = file_start + segment.file_size - 1;
        (last - last % PAGE_SIZE - first_frame) / PAGE_SIZE + 1
    };
    assert(count == file_page_count(*segment, image_start));
    if let Err(error) = map_file_pages(address_space, first_page, first_frame, count, flags) {
        return Err(error);
    }
    if segment.mem_size <= segment.file_size {
        return Ok(());
    }
    proof {
        lemma_zero_pages(*segment, image_len);
    }
    let ghost mapped = address_space@;
    let boundary: u64 = segment.virtual_addr + segment.file_size;
    let keep: u64 = boundary % PAGE_SIZE;
    let last_byte: u64 = segment.virtual_addr + segment.mem_size - 1;
    let last_page: u64 = last_byte - last_byte % PAGE_SIZE;
    if keep != 0 {
        proof {
            lemma_boundary_page(*segment, image_start, image_len);
        }
        let page = Page::containing_address(boundary - 1);
        assert(page.start == page_floor(boundary as int));
        let target = match address_space.translate(boundary - 1) {
            TranslateResult::Mapped { target, .. } => target,
            TranslateResult::NotMapped => {
                assert(false);
                return Err(LoadError::PageNotMapped);
            },
        };
        let frame = match frame_allocator.allocate_frame() {
            Some(frame) => frame,
            None => {
                return Err(LoadError::OutOfFrames);
            },
        };
        if address_space.unmap(page).is_err() {
            assert(false);
            return Err(LoadError::PageNotMapped);
        }
        let backing = Backing::Prefix { source: target.frame, length: keep };
        if address_space.map_to(page, frame, target.flags, backing).is_err() {
            assert(false);
            return Err(LoadError::PageAlreadyMapped);
        }
        assert(address_space@ =~= mapped.insert(
            page,
            Mapped { frame, flags: target.flags, backing },
        ));
        if boundary - keep >= last_page {
            return Ok(());
        }
    }
    let first_zero_page: u64 = align_up_to_page(boundary);
    let zero_pages: u64 = (last_page - first_zero_page) / PAGE_SIZE + 1;
    map_zero_pages(address_space, frame_allocator, first_zero_page, zero_pages, flags)
}


/// `pages` with the write permission taken from the `count` pages from
/// `first` on; every page keeps its frame and its other permissions.
pub open spec fn read_only_run(pages: Map<Page, Mapped>, first: int, count: int) -> Map<
    Page,
    Mapped,
> {
    Map::new(
        |page: Page| pages.contains_key(page),
        |page: Page|
            if in_run(page, first, count) {
                Mapped { flags: PageFlags { writable: false, ..pages[page].flags }, ..pages[page] }
            } else {
                pages[page]
            },
    )
}

/// Taking the write permission from the `count` pages from `first` on: it
/// fails where one of the pages is not mapped.
pub open spec fn protect_run(pages: Map<Page, Mapped>, first: int, count: int) -> Result<
    Map<Page, Mapped>,
    LoadError,
> {
    if exists|page: Page| #[trigger] in_run(page, first, count) && !pages.contains_key(page) {
        Err(LoadError::PageNotMapped)
    } else {
        Ok(read_only_run(pages, first, count))
    }
}

/// Making one segment read-only after relocation: the write permission is
/// taken from every page from the page of its first byte through the page of
/// its last byte.
pub open spec fn protect_one(pages: Map<Page, Mapped>, segment: Segment) -> Result<
    Map<Page, Mapped>,
    LoadError,
> {
    protect_run(
        pages,
        page_floor(segment.virtual_addr as int),
        pages_spanned(segment.virtual_addr as int, segment.mem_size as int),
    )
}

/// The first pass of loading, from the segment at `from` on: every loadable
/// segment is loaded, in file order.
pub open spec fn load_pass(segments: Seq<Segment>, from: int, image_start: u64, state: LoadState) -> Result<
    LoadState,
    LoadError,
>
    decreases segments.len() - from,
{
    if from < 0 || from >= segments.len() {
        Ok(state)
    } else if segments[from].kind == SegmentKind::Load {
        match load_one(state, segments[from], image_start) {
            Ok(next) => load_pass(segments, from + 1, image_start, next),
            Err(error) => Err(error),
        }
    } else {
        load_pass(segments, from + 1, image_start, state)
    }
}

/// The second pass of loading, from the segment at `from` on: every segment
/// that is read-only after relocation is made so, in file order.
pub open spec fn protect_pass(segments: Seq<Segment>, from: int, pages: Map<Page, Mapped>) -> Result<
    Map<Page, Mapped>,
    LoadError,
>
    decreases segments.len() - from,
{
    if from < 0 || from >= segments.len() {
        Ok(pages)
    } else if segments[from].kind == SegmentKind::RelocationReadOnly {
        match protect_one(pages, segments[from]) {
            Ok(next) => protect_pass(segments, from + 1, next),
            Err(error) => Err(error),
        }
    } else {
        protect_pass(segments, from + 1, pages)
    }
}

/// Loading an image: the first pass over all segments, then the second.
/// Segments that are neither loadable nor read-only after relocation are
/// passed over.
pub open spec fn load_image(image: KernelImage, state: LoadState) -> Result<LoadState, LoadError> {
    match load_pass(image.segments, 0, image.image_start, state) {
        Err(error) => Err(error),
        Ok(loaded) => match protect_pass(image.segments, 0, loaded.pages) {
            Err(error) => Err(error),
            Ok(pages) => Ok(LoadState { pages, allocator: loaded.allocator }),
        },
    }
}

/// The pages of a supported segment that is read-only after relocation are
/// canonical.
proof fn lemma_protected_pages(segment: Segment, image_len: u64)
    requires
        segment.kind == SegmentKind::RelocationReadOnly,
        segment_supported(segment, image_len),
    ensures
        run_supported(
            page_floor(segment.virtual_addr as int),
            pages_spanned(segment.virtual_addr as int, segment.mem_size as int),
        ),
        page_floor(segment.virtual_addr as int) + pages_spanned(
            segment.virtual_addr as int,
            segment.mem_size as int,
        ) * 4096 == page_floor(segment.virtual_addr + segment.mem_size - 1) + 4096,
{
    let va = segment.virtual_addr as int;
    lemma_pages_spanned(va, segment.mem_size as int);
    let last = va + segment.mem_size - 1;
    assert(page_floor(last) + 4096 <= LOWER_HALF_END || (va >= UPPER_HALF_START && page_floor(last)
        + 4096 <= u64::MAX + 1)) by {
        if va + segment.mem_size <= LOWER_HALF_END {
            assert(page_floor(last) + 4096 <= LOWER_HALF_END);
        } else {
            assert(page_floor(last) + 4096 <= u64::MAX + 1);
        }
    }
    assert(page_floor(va) >= UPPER_HALF_START || va < UPPER_HALF_START);
}

/// Takes the write permission from the `count` pages from `first_page` on.
fn protect_pages(address_space: &mut AddressSpace, first_page: u64, count: u64) -> (result: Result<
    (),
    LoadError,
>)
    requires
        old(address_space).wf(),
        run_supported(first_page as int, count as int),
    ensures
        final(address_space).wf(),
        final(address_space).root() == old(address_space).root(),
        match protect_run(old(address_space)@, first_page as int, count as int) {
            Ok(pages) => result is Ok && final(address_space)@ == pages,
            Err(error) => result == Err::<(), LoadError>(error),
        },
{
    let ghost before = address_space@;
    let mut done: u64 = 0;
    proof {
        assert(address_space@ =~= read_only_run(before, first_page as int, 0));
    }
    while done < count
        invariant
            done <= count,
            address_space.wf(),
            address_space.root() == old(address_space).root(),
            before == old(address_space)@,
            run_supported(first_page as int, count as int),
            address_space@ == read_only_run(before, first_page as int, done as int),
            forall|page: Page|
                #[trigger] in_run(page, first_page as int, done as int) ==> before.contains_key(page),
        decreases count - done,
    {
        let address: u64 = first_page + done * PAGE_SIZE;
        let page = Page::containing_address(address);
        assert(page.start == address);
        assert(!in_run(page, first_page as int, done as int));
        assert(in_run(page, first_page as int, count as int));
        let target = match address_space.translate(address) {
            TranslateResult::Mapped { target, .. } => target,
            TranslateResult::NotMapped => {
                return Err(LoadError::PageNotMapped);
            },
        };
        if target.flags.writable {
            let flags = PageFlags {
                present: target.flags.present,
                writable: false,
                no_execute: target.flags.no_execute,
            };
            if address_space.update_flags(page, flags).is_err() {
                assert(false);
                return Err(LoadError::PageNotMapped);
            }
        }
        proof {
            assert(address_space@ =~= read_only_run(before, first_page as int, done + 1));
            assert forall|other: Page| #[trigger]
                in_run(other, first_page as int, done + 1) implies before.contains_key(other) by {
                if !in_run(other, first_page as int, done as int) {
                    assert(other.start == address);
                }
            }
        }
        done += 1;
    }
    Ok(())
}

impl KernelExecutable {
    /// Maps the segments of the image into `address_space`, with fresh frames
    /// from `frame_allocator` where a segment needs them, and returns the
    /// virtual address at which the kernel is entered.
    pub fn load_segments(
        &self,
        address_space: &mut AddressSpace,
        frame_allocator: &mut NutcrackerFrameAllocator,
    ) -> (result: Result<u64, LoadError>)
        requires
            self.wf(),
            old(address_space).wf(),
            old(frame_allocator).wf(),
        ensures
            final(address_space).wf(),
            final(frame_allocator).wf(),
            final(address_space).root() == old(address_space).root(),
            match load_image(
                self@,
                LoadState { pages: old(address_space)@, allocator: old(frame_allocator)@ },
            ) {
                Ok(state) => result == Ok::<u64, LoadError>(self@.entry) && final(address_space)@
                    == state.pages && final(frame_allocator)@ == state.allocator,
                Err(error) => result == Err::<u64, LoadError>(error),
            },
    {
        let ghost start = LoadState { pages: address_space@, allocator: frame_allocator@ };
        proof {
            self.lemma_view();
        }
        let mut at: usize = 0;
        while at < self.segments.len()
            invariant
                at <= self.segments.len(),
                self.wf(),
                address_space.wf(),
                frame_allocator.wf(),
                address_space.root() == old(address_space).root(),
                start == (LoadState { pages: old(address_space)@, allocator: old(frame_allocator)@ }),
                load_pass(self.segments@, 0, self.image_start, start) == load_pass(
                    self.segments@,
                    at as int,
                    self.image_start,
                    LoadState { pages: address_space@, allocator: frame_allocator@ },
                ),
            decreases self.segments.len() - at,
        {
            proof {
                self.lemma_view();
            }
            let segment = &self.segments[at];
            if segment.kind == SegmentKind::Load {
                let loaded = load_segment(
                    address_space,
                    frame_allocator,
                    segment,
                    self.image_start,
                    self.image_len,
                );
                if let Err(error) = loaded {
                    return Err(error);
                }
            }
            at += 1;
        }
        let ghost loaded = address_space@;
        at = 0;
        while at < self.segments.len()
            invariant
                at <= self.segments.len(),
                self.wf(),
                address_space.wf(),
                frame_allocator.wf(),
                address_space.root() == old(address_space).root(),
                start == (LoadState { pages: old(address_space)@, allocator: old(frame_allocator)@ }),
                load_pass(self.segments@, 0, self.image_start, start) == Ok::<LoadState, LoadError>(
                    LoadState { pages: loaded, allocator: frame_allocator@ },
                ),
                protect_pass(self.segments@, 0, loaded) == protect_pass(
                    self.segments@,
                    at as int,
                    address_space@,
                ),
            decreases self.segments.len() - at,
        {
            proof {
                self.lemma_view();
            }
            let segment = &self.segments[at];
            if segment.kind == SegmentKind::RelocationReadOnly {
                proof {
                    lemma_protected_pages(*segment, self.image_len);
                }
                let first_page: u64 = segment.virtual_addr - segment.virtual_addr % PAGE_SIZE;
                let count: u64 = if segment.mem_size == 0 {
                    if segment.virtual_addr % PAGE_SIZE == 0 {
                        0
                    } else {
                        1
                    }
                } else {
                    let last: u64 = segment.virtual_addr + segment.mem_size - 1;
                    (last - last % PAGE_SIZE - first_page) / PAGE_SIZE + 1
                };
                if let Err(error) = protect_pages(address_space, first_page, count) {
                    return Err(error);
                }
            }
            at += 1;
        }
        proof {
            self.lemma_view();
        }
        Ok(self.entry)
    }
}

} // verus!
