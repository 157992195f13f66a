use bootloader::address_space::{
    create_kernel_page_table, AddressSpace, Backing, Mapped, Mapping, PageFlags, TranslateResult,
};
use bootloader::boot::{
    identity_map_switch_code, load_kernel, provision_stack, BootError, Handover, StackError,
    SwitchError, STACK_PAGES, STACK_SIZE, SWITCH_CODE_PAGES,
};
use bootloader::elf::EXECUTABLE;
use bootloader::kernel::KernelExecutable;
use bootloader::loader::LoadError;
use bootloader::memory::NutcrackerFrameAllocator;
use bootloader::paging::{Frame, Page};
use uefi::table::boot::MemoryMap;

const POOL: u64 = 0x10_0000;
const STACK: PageFlags = PageFlags { present: true, writable: true, no_execute: true };
const CODE: PageFlags = PageFlags { present: true, writable: false, no_execute: false };

fn pool_bytes(page_count: u64) -> Vec<u8> {
    let mut bytes = Vec::new();
    bytes.extend_from_slice(&7u32.to_le_bytes());
    bytes.extend_from_slice(&0u32.to_le_bytes());
    bytes.extend_from_slice(&POOL.to_le_bytes());
    bytes.extend_from_slice(&0u64.to_le_bytes());
    bytes.extend_from_slice(&page_count.to_le_bytes());
    bytes.extend_from_slice(&0u64.to_le_bytes());
    bytes
}

fn mapped(space: &AddressSpace, address: u64) -> Option<Mapped> {
    match space.translate(address) {
        TranslateResult::Mapped { target, .. } => Some(target),
        TranslateResult::NotMapped => None,
    }
}

fn program_header(flags: u32, offset: u64, vaddr: u64, filesz: u64, memsz: u64) -> Vec<u8> {
    let mut bytes = Vec::new();
    bytes.extend_from_slice(&1u32.to_le_bytes());
    bytes.extend_from_slice(&flags.to_le_bytes());
    bytes.extend_from_slice(&offset.to_le_bytes());
    bytes.extend_from_slice(&vaddr.to_le_bytes());
    bytes.extend_from_slice(&vaddr.to_le_bytes());
    bytes.extend_from_slice(&filesz.to_le_bytes());
    bytes.extend_from_slice(&memsz.to_le_bytes());
    bytes.extend_from_slice(&0x1000u64.to_le_bytes());
    bytes
}

/// An executable with an executable segment of four pages and a writable
/// segment of one page in the file and three pages in memory, in a buffer
/// that starts at `.1` on an 8-byte boundary.
fn two_segment_image(entry: u64) -> (Vec<u8>, usize, usize) {
    let mut bytes = vec![0x7f, b'E', b'L', b'F', 2, 1, 1, 0];
    bytes.extend_from_slice(&[0u8; 8]);
    bytes.extend_from_slice(&EXECUTABLE.to_le_bytes());
    bytes.extend_from_slice(&0x3eu16.to_le_bytes());
    bytes.extend_from_slice(&1u32.to_le_bytes());
    bytes.extend_from_slice(&entry.to_le_bytes());
    bytes.extend_from_slice(&64u64.to_le_bytes());
    bytes.extend_from_slice(&0u64.to_le_bytes());
    bytes.extend_from_slice(&0u32.to_le_bytes());
    bytes.extend_from_slice(&64u16.to_le_bytes());
    bytes.extend_from_slice(&56u16.to_le_bytes());
    bytes.extend_from_slice(&2u16.to_le_bytes());
    bytes.extend_from_slice(&[0u8; 6]);
    bytes.extend_from_slice(&program_header(5, 0x1000, 0x40_0000, 0x4000, 0x4000));
    bytes.extend_from_slice(&program_header(6, 0x5000, 0x40_4000, 0x1000, 0x3000));
    bytes.resize(0x6001, 0xaa);
    let len = bytes.len();
    let mut buffer = vec![0u8; len + 8];
    let offset = buffer.as_ptr().align_offset(8);
    buffer[offset..offset + len].copy_from_slice(&bytes);
    (buffer, offset, len)
}

#[test]
fn stack_goes_to_the_first_unused_slot() {
    assert_eq!(STACK_SIZE, 81920);
    assert_eq!(STACK_PAGES * 4096, STACK_SIZE);
    let mut bytes = pool_bytes(64);
    let map = MemoryMap::from_raw(&mut bytes, 40);
    let mut allocator = NutcrackerFrameAllocator::try_new(map.entries()).unwrap();
    let mut space = AddressSpace::new(Frame { start: 0x7000 });
    assert_eq!(provision_stack(&mut space, &mut allocator), Ok(0x1000 + 81920));
    assert_eq!(mapped(&space, 0), None);
    assert_eq!(mapped(&space, 0xfff), None);
    for index in 0..20u64 {
        let expected = Mapped { frame: Frame { start: POOL + index * 4096 }, flags: STACK, backing: Backing::Zeroed };
        assert_eq!(mapped(&space, 0x1000 + index * 4096), Some(expected));
        assert_eq!(mapped(&space, 0x1fff + index * 4096), Some(expected));
    }
    assert_eq!(mapped(&space, 0x15000), None);
    assert_eq!(space.mappings().len(), 20);
    assert_eq!(allocator.allocate_frame(), Some(Frame { start: POOL + 20 * 4096 }));
}

#[test]
fn stack_guard_page_is_not_mapped() {
    let mut bytes = pool_bytes(64);
    let map = MemoryMap::from_raw(&mut bytes, 40);
    let mut allocator = NutcrackerFrameAllocator::try_new(map.entries()).unwrap();
    let mut space = AddressSpace::new(Frame { start: 0x7000 });
    assert_eq!(space.map_to(Page { start: 0x40_0000 }, Frame { start: 0x9000 }, CODE, Backing::Existing), Ok(()));
    assert_eq!(space.map_to(Page { start: 1 << 39 }, Frame { start: 0xa000 }, CODE, Backing::Existing), Ok(()));
    let top = provision_stack(&mut space, &mut allocator).unwrap();
    assert_eq!(top, (2 << 39) + 0x1000 + 81920);
    let start = top - STACK_SIZE;
    assert_eq!(mapped(&space, start - 4096), None);
    assert_eq!(mapped(&space, start - 1), None);
    for address in (start..top).step_by(4096) {
        let target = mapped(&space, address).unwrap();
        assert_eq!(target.flags, STACK);
        assert_eq!(target.backing, Backing::Zeroed);
    }
    assert_eq!(mapped(&space, top), None);
    assert_eq!(mapped(&space, 0x40_0000).unwrap().frame, Frame { start: 0x9000 });
    assert_eq!(mapped(&space, 1 << 39).unwrap().frame, Frame { start: 0xa000 });
}

#[test]
fn stack_in_the_upper_half() {
    let mut bytes = pool_bytes(64);
    let map = MemoryMap::from_raw(&mut bytes, 40);
    let mut allocator = NutcrackerFrameAllocator::try_new(map.entries()).unwrap();
    let mut space = AddressSpace::new(Frame { start: 0x7000 });
    for slot in 0..256u64 {
        assert_eq!(space.map_to(Page { start: slot << 39 }, Frame { start: 0x9000 }, CODE, Backing::Existing), Ok(()));
    }
    assert_eq!(provision_stack(&mut space, &mut allocator), Ok(0xffff_8000_0001_5000));
    assert_eq!(mapped(&space, 0xffff_8000_0000_0000), None);
    assert_eq!(mapped(&space, 0xffff_8000_0000_1000).unwrap().frame, Frame { start: POOL });
    assert_eq!(mapped(&space, 0xffff_8000_0001_4000).unwrap().frame, Frame { start: POOL + 19 * 4096 });
}

#[test]
fn no_stack_without_an_unused_slot() {
    let mut bytes = pool_bytes(64);
    let map = MemoryMap::from_raw(&mut bytes, 40);
    let mut allocator = NutcrackerFrameAllocator::try_new(map.entries()).unwrap();
    let mut space = AddressSpace::new(Frame { start: 0x7000 });
    for slot in 0..512u64 {
        let start = if slot < 256 { slot << 39 } else { (slot << 39) | 0xffff_0000_0000_0000 };
        assert_eq!(space.map_to(Page { start }, Frame { start: 0x9000 }, CODE, Backing::Existing), Ok(()));
    }
    assert_eq!(provision_stack(&mut space, &mut allocator), Err(StackError::NoFreeSlot));
    assert_eq!(space.mappings().len(), 512);
    assert_eq!(allocator.allocate_frame(), Some(Frame { start: POOL }));
}

#[test]
fn no_stack_without_enough_frames() {
    let mut bytes = pool_bytes(19);
    let map = MemoryMap::from_raw(&mut bytes, 40);
    let mut allocator = NutcrackerFrameAllocator::try_new(map.entries()).unwrap();
    let mut space = AddressSpace::new(Frame { start: 0x7000 });
    assert_eq!(provision_stack(&mut space, &mut allocator), Err(StackError::OutOfFrames));
    let mut bytes = pool_bytes(20);
    let map = MemoryMap::from_raw(&mut bytes, 40);
    let mut allocator = NutcrackerFrameAllocator::try_new(map.entries()).unwrap();
    let mut space = AddressSpace::new(Frame { start: 0x7000 });
    assert!(provision_stack(&mut space, &mut allocator).is_ok());
}

#[test]
fn switch_code_is_mapped_where_it_lies() {
    assert_eq!(SWITCH_CODE_PAGES, 2);
    let mut space = AddressSpace::new(Frame { start: 0x7000 });
    assert_eq!(identity_map_switch_code(&mut space, 0x7f00_0123), Ok(()));
    assert_eq!(
        space.mappings(),
        &vec![
            Mapping {
                page: Page { start: 0x7f00_0000 },
                target: Mapped { frame: Frame { start: 0x7f00_0000 }, flags: CODE, backing: Backing::Existing },
            },
            Mapping {
                page: Page { start: 0x7f00_1000 },
                target: Mapped { frame: Frame { start: 0x7f00_1000 }, flags: CODE, backing: Backing::Existing },
            },
        ]
    );
}

#[test]
fn switch_code_on_a_mapped_page_fails() {
    let mut space = AddressSpace::new(Frame { start: 0x7000 });
    assert_eq!(space.map_to(Page { start: 0x7f00_1000 }, Frame { start: 0x9000 }, STACK, Backing::Zeroed), Ok(()));
    assert_eq!(identity_map_switch_code(&mut space, 0x7f00_0000), Err(SwitchError::PageAlreadyMapped));
    assert_eq!(identity_map_switch_code(&mut space, 0x7f00_1fff), Err(SwitchError::PageAlreadyMapped));
    assert_eq!(identity_map_switch_code(&mut space, 0x7f00_2000), Ok(()));
}

#[test]
fn switch_code_outside_the_lower_half_fails() {
    let mut space = AddressSpace::new(Frame { start: 0x7000 });
    assert_eq!(identity_map_switch_code(&mut space, 0x7fff_ffff_f000), Err(SwitchError::UnsupportedAddress));
    assert_eq!(identity_map_switch_code(&mut space, 0x8000_0000_0000), Err(SwitchError::UnsupportedAddress));
    assert_eq!(identity_map_switch_code(&mut space, u64::MAX), Err(SwitchError::UnsupportedAddress));
    assert!(space.mappings().is_empty());
    assert_eq!(identity_map_switch_code(&mut space, 0x7fff_ffff_efff), Ok(()));
    assert_eq!(mapped(&space, 0x7fff_ffff_f000).unwrap().frame, Frame { start: 0x7fff_ffff_f000 });
}

#[test]
fn two_segment_kernel_in_one_mebibyte() {
    let (buffer, offset, len) = two_segment_image(0x40_0abc);
    let kernel = KernelExecutable::parse(&buffer[offset..offset + len], 0x4000_0000).unwrap();
    let mut bytes = pool_bytes(256);
    let map = MemoryMap::from_raw(&mut bytes, 40);
    let mut allocator = NutcrackerFrameAllocator::try_new(map.entries()).unwrap();
    let (root, mut space) = create_kernel_page_table(&mut allocator).unwrap();
    assert_eq!(root, Frame { start: POOL });
    let handover = load_kernel(&kernel, &mut space, &mut allocator, 0x7e00_0040).unwrap();
    assert_eq!(
        handover,
        Handover { page_table: root, stack_top: (1 << 39) + 0x1000 + 81920, entry_point: 0x40_0abc }
    );
    let image_pages = space
        .mappings()
        .iter()
        .filter(|mapping| 0x40_0000 <= mapping.page.start && mapping.page.start < 0x40_7000)
        .count();
    assert_eq!(image_pages, 7);
    let stack_pages = space
        .mappings()
        .iter()
        .filter(|mapping| mapping.page.start >> 39 == 1)
        .count();
    assert_eq!(stack_pages, 20);
    assert_eq!(space.mappings().len(), 7 + 20 + 2);
    let code = PageFlags { present: true, writable: false, no_execute: false };
    let data = PageFlags { present: true, writable: true, no_execute: true };
    for index in 0..4u64 {
        let expected = Mapped { frame: Frame { start: 0x4000_1000 + index * 4096 }, flags: code, backing: Backing::Existing };
        assert_eq!(mapped(&space, 0x40_0000 + index * 4096), Some(expected));
    }
    assert_eq!(
        mapped(&space, 0x40_4000),
        Some(Mapped { frame: Frame { start: 0x4000_5000 }, flags: data, backing: Backing::Existing })
    );
    assert_eq!(
        mapped(&space, 0x40_5000),
        Some(Mapped { frame: Frame { start: POOL + 0x1000 }, flags: data, backing: Backing::Zeroed })
    );
    assert_eq!(
        mapped(&space, 0x40_6000),
        Some(Mapped { frame: Frame { start: POOL + 0x2000 }, flags: data, backing: Backing::Zeroed })
    );
    assert_eq!(mapped(&space, 0x40_7000), None);
    assert_eq!(mapped(&space, 1 << 39), None);
    assert_eq!(mapped(&space, (1 << 39) + 0x1000).unwrap().frame, Frame { start: POOL + 0x3000 });
    assert_eq!(mapped(&space, handover.stack_top - 1).unwrap().frame, Frame { start: POOL + 22 * 4096 });
    assert_eq!(mapped(&space, handover.stack_top), None);
    assert_eq!(mapped(&space, 0x7e00_0000).unwrap().frame, Frame { start: 0x7e00_0000 });
    assert_eq!(mapped(&space, 0x7e00_1000).unwrap().frame, Frame { start: 0x7e00_1000 });
    assert_eq!(allocator.allocate_frame(), Some(Frame { start: POOL + 23 * 4096 }));
}

#[test]
fn load_kernel_reports_which_step_failed() {
    let (buffer, offset, len) = two_segment_image(0x40_0000);
    let kernel = KernelExecutable::parse(&buffer[offset..offset + len], 0x4000_0000).unwrap();
    let attempt = |frames: u64, code: u64| {
        let mut bytes = pool_bytes(frames);
        let map = MemoryMap::from_raw(&mut bytes, 40);
        let mut allocator = NutcrackerFrameAllocator::try_new(map.entries()).unwrap();
        let mut space = AddressSpace::new(Frame { start: 0x7000 });
        load_kernel(&kernel, &mut space, &mut allocator, code)
    };
    assert_eq!(attempt(1, 0x7e00_0000), Err(BootError::Load(LoadError::OutOfFrames)));
    assert_eq!(attempt(21, 0x7e00_0000), Err(BootError::Stack(StackError::OutOfFrames)));
    assert_eq!(attempt(22, 0x40_0000), Err(BootError::Switch(SwitchError::PageAlreadyMapped)));
    assert_eq!(attempt(22, 1 << 47), Err(BootError::Switch(SwitchError::UnsupportedAddress)));
    assert!(attempt(22, 0x7e00_0000).is_ok());
}
