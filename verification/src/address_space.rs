//! The address space under construction: which page is mapped to which frame,
//! with which permissions, and what the frame holds.

use vstd::prelude::*;
use crate::memory::{allocate_spec, NutcrackerFrameAllocator};
use crate::paging::{page_floor, top_level_index_of, Frame, Page, ENTRY_COUNT, PAGE_SIZE};

verus! {

/// The permissions of a mapping.
#[derive(Clone, Copy, Debug, PartialEq, Eq, Structural)]
pub struct PageFlags {
    pub present: bool,
    pub writable: bool,
    pub no_execute: bool,
}

/// What the frame behind a mapping holds when control is handed over.
#[derive(Clone, Copy, Debug, PartialEq, Eq, Structural)]
pub enum Backing {
    /// What physical memory held at the frame before: the mapping aliases it.
    Existing,
    /// Zero in every byte of a fresh frame.
    Zeroed,
    /// A fresh frame whose first `length` bytes are copied from the frame
    /// `source`; every byte from `length` on is zero.
    Prefix { source: Frame, length: u64 },
}

/// The target of a mapped page.
#[derive(Clone, Copy, Debug, PartialEq, Eq, Structural)]
pub struct Mapped {
    pub frame: Frame,
    pub flags: PageFlags,
    pub backing: Backing,
}

/// One mapping of the address space.
#[derive(Clone, Copy, Debug, PartialEq, Eq, Structural)]
pub struct Mapping {
    pub page: Page,
    pub target: Mapped,
}

/// Why a page could not be mapped.
#[derive(Clone, Copy, Debug, PartialEq, Eq, Structural)]
pub enum MapToError {
    /// The page is mapped already.
    PageAlreadyMapped,
}

/// Why a page could not be unmapped.
#[derive(Clone, Copy, Debug, PartialEq, Eq, Structural)]
pub enum UnmapError {
    /// The page is not mapped.
    PageNotMapped,
}

/// Why the permissions of a page could not be changed.
#[derive(Clone, Copy, Debug, PartialEq, Eq, Structural)]
pub enum FlagUpdateError {
    /// The page is not mapped.
    PageNotMapped,
}

/// The result of translating a virtual address.
#[derive(Clone, Copy, Debug, PartialEq, Eq, Structural)]
pub enum TranslateResult {
    /// The address lies `offset` bytes into a page with this target.
    Mapped { target: Mapped, offset: u64 },
    /// The page of the address is not mapped.
    NotMapped,
}

/// Whether a page of `mappings` is `page`.
pub open spec fn maps_page(mappings: Seq<Mapping>, page: Page) -> bool {
    exists|i: int| 0 <= i < mappings.len() && (#[trigger] mappings[i]).page == page
}

/// A position of `page` in `mappings`.
pub open spec fn position_of(mappings: Seq<Mapping>, page: Page) -> int {
    choose|i: int| 0 <= i < mappings.len() && (#[trigger] mappings[i]).page == page
}

/// No page occurs twice in `mappings`.
pub open spec fn pages_distinct(mappings: Seq<Mapping>) -> bool {
    forall|i: int, j: int|
        0 <= i < j < mappings.len() ==> (#[trigger] mappings[i]).page != (
        #[trigger] mappings[j]).page
}

/// The mappings as a map from page to target.
pub open spec fn as_map(mappings: Seq<Mapping>) -> Map<Page, Mapped> {
    Map::new(
        |page: Page| maps_page(mappings, page),
        |page: Page| mappings[position_of(mappings, page)].target,
    )
}

/// Whether some page of `pages` is reached through the top-level entry `slot`.
pub open spec fn slot_used(pages: Map<Page, Mapped>, slot: int) -> bool {
    exists|page: Page| #[trigger] pages.contains_key(page) && top_level_index_of(page.start) == slot
}

/// The first top-level entry through which no page of `pages` is reached, or
/// the number of entries where every entry is used.
pub open spec fn first_unused_slot(pages: Map<Page, Mapped>, from: int) -> int
    decreases 512 - from,
{
    if from >= 512 {
        512
    } else if !slot_used(pages, from) {
        from
    } else {
        first_unused_slot(pages, from + 1)
    }
}

/// Whether one of the first `upto` mappings is reached through the top-level
/// entry `slot`.
spec fn reaches(mappings: Seq<Mapping>, upto: int, slot: int) -> bool {
    exists|j: int|
        0 <= j < upto && top_level_index_of((#[trigger] mappings[j]).page.start) == slot
}

proof fn lemma_reaches_all(mappings: Seq<Mapping>, slot: int)
    ensures
        reaches(mappings, mappings.len() as int, slot) <==> slot_used(as_map(mappings), slot),
{
    if reaches(mappings, mappings.len() as int, slot) {
        let j = choose|j: int|
            0 <= j < mappings.len() && top_level_index_of((#[trigger] mappings[j]).page.start)
                == slot;
        assert(maps_page(mappings, mappings[j].page));
        assert(as_map(mappings).contains_key(mappings[j].page));
    }
    if slot_used(as_map(mappings), slot) {
        let page = choose|page: Page| #[trigger]
            as_map(mappings).contains_key(page) && top_level_index_of(page.start) == slot;
        let j = position_of(mappings, page);
        assert(top_level_index_of(mappings[j].page.start) == slot);
    }
}

proof fn lemma_as_map_at(mappings: Seq<Mapping>, at: int)
    requires
        pages_distinct(mappings),
        0 <= at < mappings.len(),
    ensures
        as_map(mappings).contains_key(mappings[at].page),
        as_map(mappings)[mappings[at].page] == mappings[at].target,
{
    assert(maps_page(mappings, mappings[at].page));
}

proof fn lemma_as_map_push(mappings: Seq<Mapping>, mapping: Mapping)
    requires
        pages_distinct(mappings),
        !maps_page(mappings, mapping.page),
    ensures
        pages_distinct(mappings.push(mapping)),
        as_map(mappings.push(mapping)) == as_map(mappings).insert(mapping.page, mapping.target),
{
    let grown = mappings.push(mapping);
    assert(pages_distinct(grown));
    assert forall|page: Page| maps_page(grown, page) <==> (page == mapping.page || maps_page(
        mappings,
        page,
    )) by {
        if maps_page(grown, page) {
            let i = position_of(grown, page);
            if i < mappings.len() {
                assert(mappings[i].page == page);
            }
        }
        if maps_page(mappings, page) {
            let i = position_of(mappings, page);
            assert(grown[i].page == page);
        }
        if page == mapping.page {
            assert(grown[mappings.len() as int].page == page);
        }
    }
    assert forall|page: Page| maps_page(grown, page) implies #[trigger] as_map(grown)[page]
        == as_map(mappings).insert(mapping.page, mapping.target)[page] by {
        let i = position_of(grown, page);
        lemma_as_map_at(grown, i);
        if i < mappings.len() {
            lemma_as_map_at(mappings, i);
        }
    }
    assert(as_map(grown) =~= as_map(mappings).insert(mapping.page, mapping.target));
}

proof fn lemma_as_map_remove(mappings: Seq<Mapping>, at: int)
    requires
        pages_distinct(mappings),
        0 <= at < mappings.len(),
    ensures
        pages_distinct(mappings.remove(at)),
        as_map(mappings.remove(at)) == as_map(mappings).remove(mappings[at].page),
{
    let shrunk = mappings.remove(at);
    let gone = mappings[at].page;
    assert forall|i: int, j: int| 0 <= i < j < shrunk.len() implies (#[trigger] shrunk[i]).page != (
    #[trigger] shrunk[j]).page by {
        let i0 = if i < at { i } else { i + 1 };
        let j0 = if j < at { j } else { j + 1 };
        assert(shrunk[i] == mappings[i0]);
        assert(shrunk[j] == mappings[j0]);
    }
    assert forall|page: Page| maps_page(shrunk, page) <==> (page != gone && maps_page(
        mappings,
        page,
    )) by {
        if maps_page(shrunk, page) {
            let i = position_of(shrunk, page);
            let i0 = if i < at { i } else { i + 1 };
            assert(shrunk[i] == mappings[i0]);
            assert(mappings[i0].page == page);
        }
        if page != gone && maps_page(mappings, page) {
            let i = position_of(mappings, page);
            let i1 = if i < at { i } else { i - 1 };
            assert(shrunk[i1] == mappings[i]);
        }
    }
    assert forall|page: Page| maps_page(shrunk, page) implies #[trigger] as_map(shrunk)[page]
        == as_map(mappings)[page] by {
        let i = position_of(shrunk, page);
        let i0 = if i < at { i } else { i + 1 };
        assert(shrunk[i] == mappings[i0]);
        lemma_as_map_at(shrunk, i);
        lemma_as_map_at(mappings, i0);
    }
    assert(as_map(shrunk) =~= as_map(mappings).remove(gone));
}

proof fn lemma_as_map_update(mappings: Seq<Mapping>, at: int, target: Mapped)
    requires
        pages_distinct(mappings),
        0 <= at < mappings.len(),
    ensures
        pages_distinct(mappings.update(at, Mapping { page: mappings[at].page, target })),
        as_map(mappings.update(at, Mapping { page: mappings[at].page, target })) == as_map(
            mappings,
        ).insert(mappings[at].page, target),
{
    let page_at = mappings[at].page;
    let changed = mappings.update(at, Mapping { page: page_at, target });
    assert forall|i: int, j: int| 0 <= i < j < changed.len() implies (
    #[trigger] changed[i]).page != (#[trigger] changed[j]).page by {
        assert(changed[i].page == mappings[i].page);
        assert(changed[j].page == mappings[j].page);
    }
    assert forall|page: Page| maps_page(changed, page) <==> maps_page(mappings, page) by {
        if maps_page(changed, page) {
            let i = position_of(changed, page);
            assert(mappings[i].page == page);
        }
        if maps_page(mappings, page) {
            let i = position_of(mappings, page);
            assert(changed[i].page == page);
        }
    }
    assert forall|page: Page| maps_page(changed, page) implies #[trigger] as_map(changed)[page]
        == as_map(mappings).insert(page_at, target)[page] by {
        let i = position_of(changed, page);
        lemma_as_map_at(changed, i);
        assert(mappings[i].page == page);
        lemma_as_map_at(mappings, i);
    }
    assert(as_map(changed) =~= as_map(mappings).insert(page_at, target));
}

/// An address space under construction, rooted in the frame of its top-level
/// table.
pub struct AddressSpace {
    root: Frame,
    mappings: Vec<Mapping>,
}

impl AddressSpace {
    /// The mapped pages and their targets.
    pub closed spec fn view(&self) -> Map<Page, Mapped> {
        as_map(self.mappings@)
    }

    /// The frame of the top-level table.
    pub closed spec fn root(&self) -> Frame {
        self.root
    }

    /// The mappings in the order in which they were made.
    pub closed spec fn entries(&self) -> Seq<Mapping> {
        self.mappings@
    }

    /// No page is mapped twice, and every mapped page is a page and every
    /// target frame a frame.
    pub closed spec fn wf(&self) -> bool {
        &&& pages_distinct(self.mappings@)
        &&& forall|i: int|
            0 <= i < self.mappings.len() ==> (#[trigger] self.mappings[i]).page.wf()
                && self.mappings[i].target.frame.wf()
    }

    /// An address space without mappings, rooted in `root`.
    pub fn new(root: Frame) -> (space: Self)
        ensures
            space.wf(),
            space.root() == root,
            space@ == Map::<Page, Mapped>::empty(),
    {
        let space = AddressSpace { root, mappings: Vec::new() };
        assert(space@ =~= Map::<Page, Mapped>::empty());
        space
    }

    /// The frame of the top-level table.
    pub fn root_frame(&self) -> (root: Frame)
        ensures
            root == self.root(),
    {
        self.root
    }

    /// The mappings in the order in which they were made.
    pub fn mappings(&self) -> (mappings: &Vec<Mapping>)
        ensures
            mappings@ == self.entries(),
    {
        &self.mappings
    }

    /// Looks up the page of the virtual address `address`.
    pub fn translate(&self, address: u64) -> (result: TranslateResult)
        requires
            self.wf(),
        ensures
            result == (if self@.contains_key(Page { start: page_floor(address as int) as u64 }) {
                TranslateResult::Mapped {
                    target: self@[Page { start: page_floor(address as int) as u64 }],
                    offset: (address % 4096) as u64,
                }
            } else {
                TranslateResult::NotMapped
            }),
    {
        let page = Page::containing_address(address);
        match self.find(page) {
            Some(at) => {
                proof {
                    lemma_as_map_at(self.mappings@, at as int);
                }
                TranslateResult::Mapped { target: self.mappings[at].target, offset: address % PAGE_SIZE }
            },
            None => TranslateResult::NotMapped,
        }
    }

    /// Maps `page` to `frame` with the permissions `flags`. A page that is
    /// mapped already is left as it is.
    pub fn map_to(&mut self, page: Page, frame: Frame, flags: PageFlags, backing: Backing) -> (result:
        Result<(), MapToError>)
        requires
            old(self).wf(),
            page.wf(),
            frame.wf(),
        ensures
            final(self).wf(),
            final(self).root() == old(self).root(),
            old(self)@.contains_key(page) ==> result == Err::<(), MapToError>(
                MapToError::PageAlreadyMapped,
            ) && final(self)@ == old(self)@,
            !old(self)@.contains_key(page) ==> result == Ok::<(), MapToError>(()) && final(self)@
                == old(self)@.insert(page, Mapped { frame, flags, backing }),
    {
        match self.find(page) {
            Some(at) => {
                proof {
                    lemma_as_map_at(self.mappings@, at as int);
                }
                Err(MapToError::PageAlreadyMapped)
            },
            None => {
                let mapping = Mapping { page, target: Mapped { frame, flags, backing } };
                proof {
                    lemma_as_map_push(self.mappings@, mapping);
                }
                self.mappings.push(mapping);
                Ok(())
            },
        }
    }

    /// Removes the mapping of `page` and returns its target.
    pub fn unmap(&mut self, page: Page) -> (result: Result<Mapped, UnmapError>)
        requires
            old(self).wf(),
        ensures
            final(self).wf(),
            final(self).root() == old(self).root(),
            old(self)@.contains_key(page) ==> result == Ok::<Mapped, UnmapError>(old(self)@[page])
                && final(self)@ == old(self)@.remove(page),
            !old(self)@.contains_key(page) ==> result == Err::<Mapped, UnmapError>(
                UnmapError::PageNotMapped,
            ) && final(self)@ == old(self)@,
    {
        match self.find(page) {
            Some(at) => {
                proof {
                    lemma_as_map_at(self.mappings@, at as int);
                    lemma_as_map_remove(self.mappings@, at as int);
                }
                let removed = self.mappings.remove(at);
                Ok(removed.target)
            },
            None => Err(UnmapError::PageNotMapped),
        }
    }

    /// Replaces the permissions of the mapped page `page` by `flags`.
    pub fn update_flags(&mut self, page: Page, flags: PageFlags) -> (result: Result<
        (),
        FlagUpdateError,
    >)
        requires
            old(self).wf(),
        ensures
            final(self).wf(),
            final(self).root() == old(self).root(),
            old(self)@.contains_key(page) ==> result == Ok::<(), FlagUpdateError>(()) && final(self)@
                == old(self)@.insert(page, Mapped { flags, ..old(self)@[page] }),
            !old(self)@.contains_key(page) ==> result == Err::<(), FlagUpdateError>(
                FlagUpdateError::PageNotMapped,
            ) && final(self)@ == old(self)@,
    {
        match self.find(page) {
            Some(at) => {
                let before = self.mappings[at];
                let target = Mapped { frame: before.target.frame, flags, backing: before.target.backing };
                proof {
                    lemma_as_map_at(self.mappings@, at as int);
                    lemma_as_map_update(self.mappings@, at as int, target);
                }
                self.mappings.set(at, Mapping { page: before.page, target });
                Ok(())
            },
            None => Err(FlagUpdateError::PageNotMapped),
        }
    }

    /// The first entry of the top-level table through which no mapped page is
    /// reached, or nothing where every entry is in use.
    pub fn first_unused_top_level_slot(&self) -> (slot: Option<u16>)
        requires
            self.wf(),
        ensures
            match slot {
                Some(free) => free < ENTRY_COUNT && free == first_unused_slot(self@, 0),
                None => first_unused_slot(self@, 0) == 512,
            },
    {
        let mut used: Vec<bool> = Vec::new();
        while used.len() < 512
            invariant
                used.len() <= 512,
                forall|k: int| 0 <= k < used.len() ==> !used[k],
            decreases 512 - used.len(),
        {
            used.push(false);
        }
        let mut at: usize = 0;
        while at < self.mappings.len()
            invariant
                self.wf(),
                at <= self.mappings.len(),
                used.len() == 512,
                forall|k: int| 0 <= k < 512 ==> (#[trigger] used[k] <==> reaches(self.mappings@, at as int, k)),
            decreases self.mappings.len() - at,
        {
            let index = self.mappings[at].page.top_level_index();
            let ghost before = used@;
            used.set(index as usize, true);
            proof {
                assert forall|k: int| 0 <= k < 512 implies (#[trigger] used[k] <==> reaches(
                    self.mappings@,
                    at + 1,
                    k,
                )) by {
                    if reaches(self.mappings@, at + 1, k) {
                        let j = choose|j: int|
                            0 <= j < at + 1 && top_level_index_of(
                                (#[trigger] self.mappings@[j]).page.start,
                            ) == k;
                        if j < at {
                            assert(reaches(self.mappings@, at as int, k));
                        }
                    }
                    if before[k] {
                        assert(reaches(self.mappings@, at as int, k));
                        let j = choose|j: int|
                            0 <= j < at && top_level_index_of(
                                (#[trigger] self.mappings@[j]).page.start,
                            ) == k;
                        assert(0 <= j < at + 1);
                    }
                    if k == index {
                        assert(top_level_index_of(self.mappings@[at as int].page.start) == k);
                    }
                }
            }
            at += 1;
        }
        let mut slot: u16 = 0;
        while slot < 512
            invariant
                slot <= 512,
                used.len() == 512,
                at == self.mappings.len(),
                forall|k: int| 0 <= k < 512 ==> (#[trigger] used[k] <==> reaches(self.mappings@, at as int, k)),
                first_unused_slot(self@, 0) == first_unused_slot(self@, slot as int),
            decreases 512 - slot,
        {
            proof {
                lemma_reaches_all(self.mappings@, slot as int);
            }
            if !used[slot as usize] {
                return Some(slot);
            }
            slot += 1;
        }
        None
    }

    /// The position of `page` among the mappings.
    fn find(&self, page: Page) -> (found: Option<usize>)
        ensures
            match found {
                Some(at) => at < self.mappings.len() && self.mappings[at as int].page == page,
                None => !maps_page(self.mappings@, page),
            },
    {
        let mut at: usize = 0;
        while at < self.mappings.len()
            invariant
                at <= self.mappings.len(),
                forall|i: int| 0 <= i < at ==> (#[trigger] self.mappings[i]).page != page,
            decreases self.mappings.len() - at,
        {
            if self.mappings[at].page == page {
                return Some(at);
            }
            at += 1;
        }
        None
    }
}


/// Allocates the frame of a fresh top-level table and makes the empty address
/// space rooted in it. Nothing is made where no frame is left.
pub fn create_kernel_page_table(frame_allocator: &mut NutcrackerFrameAllocator) -> (made: Option<
    (Frame, AddressSpace),
>)
    requires
        old(frame_allocator).wf(),
    ensures
        final(frame_allocator).wf(),
        final(frame_allocator)@ == allocate_spec(old(frame_allocator)@).1,
        match made {
            Some((root, space)) => allocate_spec(old(frame_allocator)@).0 == Some(root.start as int)
                && root.wf() && space.wf() && space.root() == root && space@ == Map::<
                Page,
                Mapped,
            >::empty(),
            None => allocate_spec(old(frame_allocator)@).0 is None,
        },
{
    match frame_allocator.allocate_frame() {
        Some(root) => Some((root, AddressSpace::new(root))),
        None => None,
    }
}

} // verus!
