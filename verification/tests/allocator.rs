use bootloader::memory::{
    next_frame_from_descriptor, MemoryRegion, NutcrackerFrameAllocator, CONVENTIONAL_MEMORY,
    MIN_PHYS_MEMORY_ADDRESS,
};
use bootloader::paging::Frame;
use uefi::table::boot::{MemoryMap, MemoryType};

const RESERVED: u32 = 0;
const USABLE: u32 = 7;

fn region(kind: u32, phys_start: u64, page_count: u64) -> MemoryRegion {
    MemoryRegion { kind, phys_start, page_count }
}

fn descriptor_bytes(regions: &[MemoryRegion]) -> Vec<u8> {
    let mut bytes = Vec::new();
    for region in regions {
        bytes.extend_from_slice(&region.kind.to_le_bytes());
        bytes.extend_from_slice(&0u32.to_le_bytes());
        bytes.extend_from_slice(&region.phys_start.to_le_bytes());
        bytes.extend_from_slice(&0u64.to_le_bytes());
        bytes.extend_from_slice(&region.page_count.to_le_bytes());
        bytes.extend_from_slice(&0u64.to_le_bytes());
    }
    bytes
}

fn drain(regions: &[MemoryRegion], limit: usize) -> Vec<u64> {
    let mut bytes = descriptor_bytes(regions);
    let map = MemoryMap::from_raw(&mut bytes, 40);
    let mut allocator = NutcrackerFrameAllocator::try_new(map.entries()).unwrap();
    let mut frames = Vec::new();
    while frames.len() < limit {
        match allocator.allocate_frame() {
            Some(frame) => frames.push(frame.start),
            None => break,
        }
    }
    frames
}

#[test]
fn conventional_memory_is_the_usable_kind() {
    assert_eq!(MemoryType::CONVENTIONAL.0, CONVENTIONAL_MEMORY);
    assert_eq!(USABLE, CONVENTIONAL_MEMORY);
    assert_eq!(MemoryType::RESERVED.0, RESERVED);
}

#[test]
fn frames_come_in_ascending_order_within_a_region() {
    let regions = [region(USABLE, 0x100000, 3)];
    let mut bytes = descriptor_bytes(&regions);
    let map = MemoryMap::from_raw(&mut bytes, 40);
    let mut allocator = NutcrackerFrameAllocator::try_new(map.entries()).unwrap();
    assert_eq!(allocator.allocate_frame(), Some(Frame { start: 0x100000 }));
    assert_eq!(allocator.allocate_frame(), Some(Frame { start: 0x101000 }));
    assert_eq!(allocator.allocate_frame(), Some(Frame { start: 0x102000 }));
    assert_eq!(allocator.allocate_frame(), None);
    assert_eq!(allocator.allocate_frame(), None);
}

#[test]
fn new_takes_a_map_with_a_usable_region() {
    let regions = [region(RESERVED, 0x50000, 1), region(USABLE, 0x100000, 1)];
    let mut bytes = descriptor_bytes(&regions);
    let map = MemoryMap::from_raw(&mut bytes, 40);
    let mut allocator = NutcrackerFrameAllocator::new(map.entries());
    assert_eq!(allocator.allocate_frame(), Some(Frame { start: 0x100000 }));
    assert_eq!(allocator.allocate_frame(), None);
}

#[test]
fn no_allocator_without_a_usable_region() {
    let regions = [region(RESERVED, 0x100000, 4), region(3, 0x200000, 4)];
    let mut bytes = descriptor_bytes(&regions);
    let map = MemoryMap::from_raw(&mut bytes, 40);
    assert!(NutcrackerFrameAllocator::try_new(map.entries()).is_none());
    let mut nothing: Vec<u8> = Vec::new();
    let empty = MemoryMap::from_raw(&mut nothing, 40);
    assert!(NutcrackerFrameAllocator::try_new(empty.entries()).is_none());
}

#[test]
fn no_frame_at_or_below_the_floor() {
    assert_eq!(MIN_PHYS_MEMORY_ADDRESS, 10_000);
    let frames = drain(&[region(USABLE, 0, 5)], 10);
    assert_eq!(frames, vec![0x3000, 0x4000]);
}

#[test]
fn strictly_ascending_and_within_usable_regions() {
    let regions = [
        region(USABLE, 0x100000, 2),
        region(RESERVED, 0x102000, 2),
        region(USABLE, 0x104000, 3),
    ];
    let frames = drain(&regions, 100);
    assert_eq!(frames, vec![0x100000, 0x101000, 0x104000, 0x105000, 0x106000]);
    for pair in frames.windows(2) {
        assert!(pair[0] < pair[1]);
    }
    for frame in &frames {
        assert!(regions.iter().any(|r| r.kind == USABLE
            && r.phys_start <= *frame
            && *frame + 4096 <= r.phys_start + r.page_count * 4096));
    }
}

#[test]
fn exhausted_after_as_many_frames_as_usable_pages() {
    let regions = [
        region(RESERVED, 0x80000, 8),
        region(USABLE, 0x100000, 2),
        region(USABLE, 0x200000, 1),
        region(2, 0x300000, 16),
        region(USABLE, 0x400000, 4),
    ];
    let mut bytes = descriptor_bytes(&regions);
    let map = MemoryMap::from_raw(&mut bytes, 40);
    let mut allocator = NutcrackerFrameAllocator::try_new(map.entries()).unwrap();
    let mut seen = Vec::new();
    for _ in 0..7 {
        let frame = allocator.allocate_frame().unwrap();
        assert!(!seen.contains(&frame.start));
        seen.push(frame.start);
    }
    assert_eq!(allocator.allocate_frame(), None);
    assert_eq!(
        seen,
        vec![0x100000, 0x101000, 0x200000, 0x400000, 0x401000, 0x402000, 0x403000]
    );
}

#[test]
fn unusable_region_between_usable_regions_is_skipped() {
    let regions = [
        region(USABLE, 0x100000, 1),
        region(RESERVED, 0x101000, 4),
        region(USABLE, 0x105000, 1),
    ];
    let frames = drain(&regions, 100);
    assert_eq!(frames, vec![0x100000, 0x105000]);
    for frame in frames {
        assert!(!(0x101000 <= frame && frame < 0x105000));
    }
}

#[test]
fn first_frame_of_a_later_region_is_handed_out_once() {
    let regions = [region(USABLE, 0x100000, 1), region(USABLE, 0x200000, 2)];
    let frames = drain(&regions, 100);
    assert_eq!(frames, vec![0x100000, 0x200000, 0x201000]);
}

#[test]
fn region_below_the_highest_frame_yields_nothing() {
    let regions = [region(USABLE, 0x400000, 1), region(USABLE, 0x200000, 2)];
    let frames = drain(&regions, 100);
    assert_eq!(frames, vec![0x400000]);
}

#[test]
fn region_that_starts_within_a_frame_yields_that_frame() {
    let frames = drain(&[region(USABLE, 0x100800, 1)], 100);
    assert_eq!(frames, vec![0x100000, 0x101000]);
}

#[test]
fn no_frame_at_or_above_the_physical_address_limit() {
    let frames = drain(&[region(USABLE, 0x000f_ffff_ffff_e000, 4)], 100);
    assert_eq!(frames, vec![0x000f_ffff_ffff_e000, 0x000f_ffff_ffff_f000]);
    let mut bytes = descriptor_bytes(&[region(RESERVED, 0, 1), region(USABLE, 1 << 52, 4)]);
    let map = MemoryMap::from_raw(&mut bytes, 40);
    let mut allocator = NutcrackerFrameAllocator::try_new(map.entries()).unwrap();
    assert_eq!(allocator.allocate_frame(), None);
}

#[test]
fn region_whose_end_does_not_fit_in_64_bits() {
    let frames = drain(&[region(USABLE, 0x000f_ffff_ffff_f000, u64::MAX)], 100);
    assert_eq!(frames, vec![0x000f_ffff_ffff_f000]);
}

#[test]
fn next_frame_of_a_region() {
    let usable = region(USABLE, 0x100000, 3);
    assert_eq!(
        next_frame_from_descriptor(&usable, Frame { start: 0x2000 }),
        Some(Frame { start: 0x100000 })
    );
    assert_eq!(
        next_frame_from_descriptor(&usable, Frame { start: 0x100000 }),
        Some(Frame { start: 0x101000 })
    );
    assert_eq!(
        next_frame_from_descriptor(&usable, Frame { start: 0x101000 }),
        Some(Frame { start: 0x102000 })
    );
    assert_eq!(next_frame_from_descriptor(&usable, Frame { start: 0x102000 }), None);
    assert_eq!(next_frame_from_descriptor(&usable, Frame { start: 0x500000 }), None);
    let nothing = region(USABLE, 0, 0);
    assert_eq!(next_frame_from_descriptor(&nothing, Frame { start: 0 }), None);
}
