use bootloader::address_space::{AddressSpace, Backing, Mapped, Mapping, PageFlags, TranslateResult};
use bootloader::elf::{Segment, SegmentKind, EXECUTABLE};
use bootloader::kernel::KernelExecutable;
use bootloader::loader::LoadError;
use bootloader::memory::NutcrackerFrameAllocator;
use bootloader::paging::{Frame, Page};
use uefi::table::boot::MemoryMap;

const IMAGE: u64 = 0x4000_0000;
const POOL: u64 = 0x10_0000;

fn pool_bytes(page_count: u64) -> Vec<u8> {
    let mut bytes = Vec::new();
    bytes.extend_from_slice(&7u32.to_le_bytes());
    bytes.extend_from_slice(&0u32.to_le_bytes());
    bytes.extend_from_slice(&POOL.to_le_bytes());
    bytes.extend_from_slice(&0u64.to_le_bytes());
    bytes.extend_from_slice(&page_count.to_le_bytes());
    bytes.extend_from_slice(&0u64.to_le_bytes());
    bytes
}

fn load(offset: u64, file_size: u64, mem_size: u64, virtual_addr: u64, writable: bool, executable: bool) -> Segment {
    Segment { kind: SegmentKind::Load, offset, file_size, mem_size, virtual_addr, writable, executable }
}

fn read_only(virtual_addr: u64, mem_size: u64) -> Segment {
    Segment {
        kind: SegmentKind::RelocationReadOnly,
        offset: 0,
        file_size: 0,
        mem_size,
        virtual_addr,
        writable: false,
        executable: false,
    }
}

fn flags(writable: bool, executable: bool) -> PageFlags {
    PageFlags { present: true, writable, no_execute: !executable }
}

fn existing(page: u64, frame: u64, flags: PageFlags) -> Mapping {
    Mapping {
        page: Page { start: page },
        target: Mapped { frame: Frame { start: frame }, flags, backing: Backing::Existing },
    }
}

fn zeroed(page: u64, frame: u64, flags: PageFlags) -> Mapping {
    Mapping {
        page: Page { start: page },
        target: Mapped { frame: Frame { start: frame }, flags, backing: Backing::Zeroed },
    }
}

fn prefix(page: u64, frame: u64, flags: PageFlags, source: u64, length: u64) -> Mapping {
    Mapping {
        page: Page { start: page },
        target: Mapped {
            frame: Frame { start: frame },
            flags,
            backing: Backing::Prefix { source: Frame { start: source }, length },
        },
    }
}

/// Loads the segments into an empty address space, with `frames` frames to
/// allocate, and returns the result, the mappings, and the next free frame.
fn run(segments: Vec<Segment>, frames: u64) -> (Result<u64, LoadError>, Vec<Mapping>, Option<Frame>) {
    let kernel = KernelExecutable::from_parts(EXECUTABLE, 0x40_0040, segments, IMAGE, 0x10_0000).unwrap();
    let mut bytes = pool_bytes(frames);
    let map = MemoryMap::from_raw(&mut bytes, 40);
    let mut allocator = NutcrackerFrameAllocator::try_new(map.entries()).unwrap();
    let mut space = AddressSpace::new(Frame { start: 0x7000 });
    let result = kernel.load_segments(&mut space, &mut allocator);
    let mappings = space.mappings().clone();
    (result, mappings, allocator.allocate_frame())
}

fn sorted(mut mappings: Vec<Mapping>) -> Vec<Mapping> {
    mappings.sort_by_key(|mapping| mapping.page.start);
    mappings
}

#[test]
fn segment_without_zero_bytes_aliases_the_image() {
    let (result, mappings, next) = run(vec![load(0x1000, 0x2800, 0x2800, 0x40_0000, false, true)], 4);
    assert_eq!(result, Ok(0x40_0040));
    let code = flags(false, true);
    assert_eq!(
        mappings,
        vec![
            existing(0x40_0000, IMAGE + 0x1000, code),
            existing(0x40_1000, IMAGE + 0x2000, code),
            existing(0x40_2000, IMAGE + 0x3000, code),
        ]
    );
    assert_eq!(next, Some(Frame { start: POOL }));
}

#[test]
fn segment_larger_in_memory_is_covered_and_zero_filled() {
    let (result, mappings, next) = run(vec![load(0x1000, 0x1800, 0x4000, 0x40_0000, true, false)], 8);
    assert_eq!(result, Ok(0x40_0040));
    let data = flags(true, false);
    assert_eq!(
        sorted(mappings),
        vec![
            existing(0x40_0000, IMAGE + 0x1000, data),
            prefix(0x40_1000, POOL, data, IMAGE + 0x2000, 0x800),
            zeroed(0x40_2000, POOL + 0x1000, data),
            zeroed(0x40_3000, POOL + 0x2000, data),
        ]
    );
    assert_eq!(next, Some(Frame { start: POOL + 0x3000 }));
}

#[test]
fn zero_bytes_that_start_on_a_page_boundary_copy_nothing() {
    let (result, mappings, next) = run(vec![load(0x2000, 0x1000, 0x2001, 0x40_0000, true, false)], 8);
    assert_eq!(result, Ok(0x40_0040));
    let data = flags(true, false);
    assert_eq!(
        mappings,
        vec![
            existing(0x40_0000, IMAGE + 0x2000, data),
            zeroed(0x40_1000, POOL, data),
            zeroed(0x40_2000, POOL + 0x1000, data),
        ]
    );
    assert_eq!(next, Some(Frame { start: POOL + 0x2000 }));
}

#[test]
fn zero_bytes_within_the_last_file_page_take_one_fresh_frame() {
    let (result, mappings, next) = run(vec![load(0, 0x234, 0x800, 0x40_0000, true, false)], 8);
    assert_eq!(result, Ok(0x40_0040));
    assert_eq!(mappings, vec![prefix(0x40_0000, POOL, flags(true, false), IMAGE, 0x234)]);
    assert_eq!(next, Some(Frame { start: POOL + 0x1000 }));
}

#[test]
fn boundary_page_of_one_segment_leaves_the_other_segment_alone() {
    let segments = vec![
        load(0x1000, 0x1000, 0x1000, 0x40_0000, false, true),
        load(0x2000, 0x10, 0x20, 0x40_1000, true, false),
    ];
    let (result, mappings, _) = run(segments, 8);
    assert_eq!(result, Ok(0x40_0040));
    assert_eq!(
        mappings,
        vec![
            existing(0x40_0000, IMAGE + 0x1000, flags(false, true)),
            prefix(0x40_1000, POOL, flags(true, false), IMAGE + 0x2000, 0x10),
        ]
    );
}

#[test]
fn segment_without_file_bytes_within_a_page() {
    let (result, mappings, next) = run(vec![load(0x800, 0, 0x100, 0x40_0800, true, false)], 8);
    assert_eq!(result, Ok(0x40_0040));
    assert_eq!(mappings, vec![prefix(0x40_0000, POOL, flags(true, false), IMAGE, 0x800)]);
    assert_eq!(next, Some(Frame { start: POOL + 0x1000 }));
}

#[test]
fn segment_without_file_bytes_on_a_page_boundary() {
    let (result, mappings, next) = run(vec![load(0x1000, 0, 0x1001, 0x40_0000, true, false)], 8);
    assert_eq!(result, Ok(0x40_0040));
    let data = flags(true, false);
    assert_eq!(mappings, vec![zeroed(0x40_0000, POOL, data), zeroed(0x40_1000, POOL + 0x1000, data)]);
    assert_eq!(next, Some(Frame { start: POOL + 0x2000 }));
}

#[test]
fn empty_segment_maps_nothing() {
    let (result, mappings, next) = run(vec![load(0x1000, 0, 0, 0x40_0000, true, false)], 8);
    assert_eq!(result, Ok(0x40_0040));
    assert!(mappings.is_empty());
    assert_eq!(next, Some(Frame { start: POOL }));
}

#[test]
fn segment_in_the_upper_half() {
    let (result, mappings, _) = run(vec![load(0x1000, 0x800, 0x1800, 0xffff_ffff_8000_0000, true, true)], 8);
    assert_eq!(result, Ok(0x40_0040));
    let all = flags(true, true);
    assert_eq!(
        sorted(mappings),
        vec![
            prefix(0xffff_ffff_8000_0000, POOL, all, IMAGE + 0x1000, 0x800),
            zeroed(0xffff_ffff_8000_1000, POOL + 0x1000, all),
        ]
    );
}

#[test]
fn segment_in_the_last_page_of_the_address_space() {
    let (result, mappings, next) = run(vec![load(0, 0x10, 0x20, 0xffff_ffff_ffff_f000, true, false)], 8);
    assert_eq!(result, Ok(0x40_0040));
    assert_eq!(mappings, vec![prefix(0xffff_ffff_ffff_f000, POOL, flags(true, false), IMAGE, 0x10)]);
    assert_eq!(next, Some(Frame { start: POOL + 0x1000 }));
}

#[test]
fn read_only_after_relocation_takes_the_write_permission() {
    let segments = vec![
        read_only(0x40_1000, 0x1001),
        load(0x1000, 0x4000, 0x4000, 0x40_0000, true, false),
    ];
    let (result, mappings, _) = run(segments, 8);
    assert_eq!(result, Ok(0x40_0040));
    assert_eq!(
        mappings,
        vec![
            existing(0x40_0000, IMAGE + 0x1000, flags(true, false)),
            existing(0x40_1000, IMAGE + 0x2000, flags(false, false)),
            existing(0x40_2000, IMAGE + 0x3000, flags(false, false)),
            existing(0x40_3000, IMAGE + 0x4000, flags(true, false)),
        ]
    );
}

#[test]
fn read_only_after_relocation_keeps_the_other_permissions() {
    let segments = vec![
        load(0x1000, 0x1000, 0x1000, 0x40_0000, false, true),
        load(0x2000, 0x1000, 0x2000, 0x40_1000, true, true),
        read_only(0x40_0800, 0x1000),
        read_only(0x40_2000, 0),
        read_only(0x40_2800, 0),
    ];
    let (result, mappings, _) = run(segments, 8);
    assert_eq!(result, Ok(0x40_0040));
    assert_eq!(
        mappings,
        vec![
            existing(0x40_0000, IMAGE + 0x1000, flags(false, true)),
            existing(0x40_1000, IMAGE + 0x2000, flags(false, true)),
            zeroed(0x40_2000, POOL, flags(false, true)),
        ]
    );
}

#[test]
fn read_only_after_relocation_of_an_unmapped_page_fails() {
    let segments = vec![load(0x1000, 0x1000, 0x1000, 0x40_0000, true, false), read_only(0x40_0000, 0x1001)];
    let (result, _, _) = run(segments, 8);
    assert_eq!(result, Err(LoadError::PageNotMapped));
}

#[test]
fn segments_that_share_a_page_fail() {
    let segments = vec![
        load(0x1000, 0x800, 0x800, 0x40_0000, false, true),
        load(0x1800, 0x100, 0x100, 0x40_0800, true, false),
    ];
    let (result, _, _) = run(segments, 8);
    assert_eq!(result, Err(LoadError::PageAlreadyMapped));
    let zero_onto_file = vec![
        load(0x2000, 0x1000, 0x1000, 0x40_1000, false, true),
        load(0x1000, 0x1000, 0x2000, 0x40_0000, true, false),
    ];
    let (result, _, _) = run(zero_onto_file, 8);
    assert_eq!(result, Err(LoadError::PageAlreadyMapped));
}

#[test]
fn loading_fails_when_the_frames_run_out() {
    let segments = vec![load(0x1000, 0x1800, 0x4000, 0x40_0000, true, false)];
    assert_eq!(run(segments.clone(), 3).0, Ok(0x40_0040));
    assert_eq!(run(segments.clone(), 2).0, Err(LoadError::OutOfFrames));
    assert_eq!(run(segments.clone(), 1).0, Err(LoadError::OutOfFrames));
    let mut bytes = pool_bytes(1);
    let map = MemoryMap::from_raw(&mut bytes, 40);
    let mut allocator = NutcrackerFrameAllocator::try_new(map.entries()).unwrap();
    assert_eq!(allocator.allocate_frame(), Some(Frame { start: POOL }));
    let kernel = KernelExecutable::from_parts(EXECUTABLE, 0, segments, IMAGE, 0x10_0000).unwrap();
    let mut space = AddressSpace::new(Frame { start: 0x7000 });
    assert_eq!(kernel.load_segments(&mut space, &mut allocator), Err(LoadError::OutOfFrames));
}

#[test]
fn frame_is_allocated_before_the_page_is_looked_at() {
    let segments = vec![
        load(0x2000, 0x1000, 0x1000, 0x40_1000, false, true),
        load(0x1000, 0x1000, 0x2000, 0x40_0000, true, false),
    ];
    let kernel = KernelExecutable::from_parts(EXECUTABLE, 0, segments, IMAGE, 0x10_0000).unwrap();
    let mut bytes = pool_bytes(1);
    let map = MemoryMap::from_raw(&mut bytes, 40);
    let mut allocator = NutcrackerFrameAllocator::try_new(map.entries()).unwrap();
    assert_eq!(allocator.allocate_frame(), Some(Frame { start: POOL }));
    let mut space = AddressSpace::new(Frame { start: 0x7000 });
    assert_eq!(kernel.load_segments(&mut space, &mut allocator), Err(LoadError::OutOfFrames));
}

#[test]
fn other_segments_are_passed_over() {
    let other = Segment {
        kind: SegmentKind::Other,
        offset: 0,
        file_size: 0x4000,
        mem_size: 0x8000,
        virtual_addr: 0x40_0000,
        writable: true,
        executable: true,
    };
    let (result, mappings, next) = run(vec![other, load(0x1000, 0x1000, 0x1000, 0x40_0000, false, true)], 8);
    assert_eq!(result, Ok(0x40_0040));
    assert_eq!(mappings, vec![existing(0x40_0000, IMAGE + 0x1000, flags(false, true))]);
    assert_eq!(next, Some(Frame { start: POOL }));
}

#[test]
fn loading_into_a_space_with_the_page_mapped_fails() {
    let kernel = KernelExecutable::from_parts(EXECUTABLE, 0, vec![load(0x1000, 0x2000, 0x2000, 0x40_0000, false, true)], IMAGE, 0x10_0000).unwrap();
    let mut bytes = pool_bytes(4);
    let map = MemoryMap::from_raw(&mut bytes, 40);
    let mut allocator = NutcrackerFrameAllocator::try_new(map.entries()).unwrap();
    let mut space = AddressSpace::new(Frame { start: 0x7000 });
    assert_eq!(
        space.map_to(Page { start: 0x40_1000 }, Frame { start: 0x9000 }, flags(true, false), Backing::Existing),
        Ok(())
    );
    assert_eq!(kernel.load_segments(&mut space, &mut allocator), Err(LoadError::PageAlreadyMapped));
}

#[test]
fn every_page_of_the_segment_translates() {
    let kernel = KernelExecutable::from_parts(EXECUTABLE, 0x40_0000, vec![load(0x1000, 0x1234, 0x5000, 0x40_0000, true, false)], IMAGE, 0x10_0000).unwrap();
    let mut bytes = pool_bytes(16);
    let map = MemoryMap::from_raw(&mut bytes, 40);
    let mut allocator = NutcrackerFrameAllocator::try_new(map.entries()).unwrap();
    let mut space = AddressSpace::new(Frame { start: 0x7000 });
    assert_eq!(kernel.load_segments(&mut space, &mut allocator), Ok(0x40_0000));
    for address in (0x40_0000u64..0x40_5000).step_by(0x400) {
        match space.translate(address) {
            TranslateResult::Mapped { target, offset } => {
                assert_eq!(offset, address % 4096);
                assert_eq!(target.flags, flags(true, false));
                let expected = if address < 0x40_1000 {
                    Backing::Existing
                } else if address < 0x40_2000 {
                    Backing::Prefix { source: Frame { start: IMAGE + 0x2000 }, length: 0x234 }
                } else {
                    Backing::Zeroed
                };
                assert_eq!(target.backing, expected);
            }
            TranslateResult::NotMapped => panic!("a page of the segment is not mapped"),
        }
    }
    assert_eq!(space.translate(0x40_5000), TranslateResult::NotMapped);
    assert_eq!(space.translate(0x3f_ffff), TranslateResult::NotMapped);
    assert_eq!(space.mappings().len(), 5);
}

/// The byte that is read at `address`, where physical memory holds `image`
/// from the address `IMAGE` on.
fn read(space: &AddressSpace, image: &[u8], address: u64) -> Option<u8> {
    match space.translate(address) {
        TranslateResult::NotMapped => None,
        TranslateResult::Mapped { target, offset } => Some(match target.backing {
            Backing::Existing => image[(target.frame.start - IMAGE + offset) as usize],
            Backing::Zeroed => 0,
            Backing::Prefix { source, length } => {
                if offset < length {
                    image[(source.start - IMAGE + offset) as usize]
                } else {
                    0
                }
            }
        }),
    }
}

#[test]
fn loaded_segment_reads_as_the_file_and_then_as_zero() {
    let image: Vec<u8> = (0..0x4000u32).map(|at| (at % 251) as u8 + 1).collect();
    let segment = load(0x1234, 0x1111, 0x3456, 0x40_0234, true, false);
    let kernel = KernelExecutable::from_parts(EXECUTABLE, 0, vec![segment], IMAGE, 0x4000).unwrap();
    let mut bytes = pool_bytes(16);
    let map = MemoryMap::from_raw(&mut bytes, 40);
    let mut allocator = NutcrackerFrameAllocator::try_new(map.entries()).unwrap();
    let mut space = AddressSpace::new(Frame { start: 0x7000 });
    assert_eq!(kernel.load_segments(&mut space, &mut allocator), Ok(0));
    for address in 0x40_0234u64..0x40_0234 + 0x1111 {
        assert_eq!(read(&space, &image, address), Some(image[(0x1234 + address - 0x40_0234) as usize]));
    }
    for address in 0x40_0234u64 + 0x1111..0x40_4000 {
        assert_eq!(read(&space, &image, address), Some(0));
    }
    assert_eq!(read(&space, &image, 0x40_4000), None);
    assert_eq!(read(&space, &image, 0x40_0233), Some(image[0x1233]));
    assert_eq!(read(&space, &image, 0x3f_ffff), None);
    assert_eq!(space.mappings().len(), 4);
}
