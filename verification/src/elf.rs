//! What the ELF reader tells of an image: the fields of its header and of its
//! program headers, and whether they pass the reader's own checks.

use vstd::prelude::*;
use xmas_elf::header;
use xmas_elf::program::{self, Type};
use xmas_elf::ElfFile;

verus! {

/// The file type of an executable image.
pub const EXECUTABLE: u16 = 2;

/// The fields of an ELF header that loading reads.
#[derive(Clone, Copy, Debug, PartialEq, Eq, Structural)]
pub struct ElfHeader {
    /// Whether the image is of the 64-bit class; else it is of the 32-bit class.
    pub wide: bool,
    pub file_type: u16,
    pub entry_point: u64,
    pub ph_offset: u64,
    pub ph_entry_size: u16,
    pub ph_count: u16,
    pub sh_offset: u64,
    pub sh_entry_size: u16,
    pub sh_count: u16,
}

/// What a segment is for.
#[derive(Clone, Copy, Debug, PartialEq, Eq, Structural)]
pub enum SegmentKind {
    /// To be mapped into memory.
    Load,
    /// Writable while the image is relocated, read-only afterwards.
    RelocationReadOnly,
    /// Any other type that the reader knows.
    Other,
    /// A type that the reader does not know.
    Invalid,
}

/// One program header of an image.
#[derive(Clone, Copy, Debug, PartialEq, Eq, Structural)]
pub struct Segment {
    pub kind: SegmentKind,
    pub offset: u64,
    pub file_size: u64,
    pub mem_size: u64,
    pub virtual_addr: u64,
    pub writable: bool,
    pub executable: bool,
}

/// The header that the reader finds in an image, if it finds one.
pub uninterp spec fn elf_header(data: Seq<u8>) -> Option<ElfHeader>;

/// Whether the header of an image passes the reader's check.
pub uninterp spec fn elf_header_sane(data: Seq<u8>) -> bool;

/// The program header that the reader finds at `index`, if it finds one.
pub uninterp spec fn elf_program_header(data: Seq<u8>, index: u16) -> Option<Segment>;

/// Whether the program header at `index` passes the reader's check.
pub uninterp spec fn elf_program_header_sane(data: Seq<u8>, index: u16) -> bool;

/// The size in bytes that the reader reads of one program header.
pub open spec fn program_header_size(wide: bool) -> int {
    if wide {
        56
    } else {
        32
    }
}

/// The greatest sum of offset and file size that the reader can form.
pub open spec fn offset_limit(wide: bool) -> int {
    if wide {
        u64::MAX as int
    } else {
        u32::MAX as int
    }
}

/// The reader can check the header `found`: the ends of the two header
/// tables fit in 64 bits.
pub open spec fn header_checkable(found: ElfHeader) -> bool {
    &&& found.ph_offset + found.ph_entry_size * found.ph_count <= u64::MAX
    &&& found.sh_offset + found.sh_entry_size * found.sh_count <= u64::MAX
}

/// The alignment in bytes of the reader's type for a program header.
pub open spec fn program_header_alignment(wide: bool) -> int {
    if wide {
        8
    } else {
        4
    }
}

/// The reader can read the program header at `index` of an image of `len`
/// bytes with the header `found`: the entry lies within the image, is as
/// large as the reader's own type for it, and starts where that type can
/// start in an image that starts on an 8-byte boundary.
pub open spec fn program_header_readable(found: ElfHeader, len: int, index: u16) -> bool {
    &&& index < found.ph_count
    &&& found.ph_offset + (index + 1) * found.ph_entry_size <= len
    &&& found.ph_entry_size >= program_header_size(found.wide)
    &&& found.ph_offset as int % program_header_alignment(found.wide) == 0
    &&& found.ph_entry_size as int % program_header_alignment(found.wide) == 0
}

/// The image does not start on an 8-byte boundary, so the reader cannot read
/// it in place.
#[derive(Clone, Copy, Debug, PartialEq, Eq, Structural)]
pub struct Misaligned;

/// Calls `xmas_elf::ElfFile::new` on an image that starts on an 8-byte
/// boundary, and copies the class, the type, the entry point and the places of
/// the two header tables out of the header it made. The reader reads the
/// headers in place, so it is not called on an image that starts elsewhere.
#[verifier::external_body]
pub(crate) fn read_elf_header(data: &[u8]) -> (read: Result<Option<ElfHeader>, Misaligned>)
    ensures
        read matches Ok(found) ==> found == elf_header(data@),
{
    if data.as_ptr().align_offset(8) != 0 {
        return Err(Misaligned);
    }
    let Ok(elf) = ElfFile::new(data) else { return Ok(None) };
    let pt2 = elf.header.pt2;
    let wide = elf.header.pt1.class() == header::Class::SixtyFour;
    let (file_type, entry_point) = (pt2.type_().0, pt2.entry_point());
    let (ph_offset, ph_entry_size, ph_count) = (pt2.ph_offset(), pt2.ph_entry_size(), pt2.ph_count());
    let (sh_offset, sh_entry_size, sh_count) = (pt2.sh_offset(), pt2.sh_entry_size(), pt2.sh_count());
    Ok(Some(ElfHeader { wide, file_type, entry_point, ph_offset, ph_entry_size, ph_count, sh_offset, sh_entry_size, sh_count }))
}

/// Calls `xmas_elf::header::sanity_check` on the reader's view of an image that
/// starts on an 8-byte boundary, and reports whether the header passed. The
/// check adds up the place and the size of each header table, so both sums
/// have to fit in 64 bits.
#[verifier::external_body]
pub(crate) fn check_elf_header(data: &[u8]) -> (checked: Result<bool, Misaligned>)
    requires
        elf_header(data@) is Some,
        header_checkable(elf_header(data@)->0),
    ensures
        checked matches Ok(sane) ==> sane == elf_header_sane(data@),
{
    if data.as_ptr().align_offset(8) != 0 {
        return Err(Misaligned);
    }
    match ElfFile::new(data) {
        Ok(elf) => Ok(header::sanity_check(&elf).is_ok()),
        Err(_) => Ok(false),
    }
}

/// Calls `xmas_elf::ElfFile::program_header` on the reader's view of an image
/// that starts on an 8-byte boundary, and copies the type, the place in the
/// file, the two sizes, the virtual address and the write and execute
/// permissions out of the program header it made. The reader reads the entry
/// in place, so the entry has to be readable.
#[verifier::external_body]
pub(crate) fn read_program_header(data: &[u8], index: u16) -> (read: Result<
    Option<Segment>,
    Misaligned,
>)
    requires
        elf_header(data@) is Some,
        program_header_readable(elf_header(data@)->0, data@.len() as int, index),
    ensures
        read matches Ok(found) ==> found == elf_program_header(data@, index),
{
    if data.as_ptr().align_offset(8) != 0 {
        return Err(Misaligned);
    }
    let Ok(elf) = ElfFile::new(data) else { return Ok(None) };
    let Ok(found) = elf.program_header(index) else { return Ok(None) };
    let flags = found.flags();
    let kind = match found.get_type() {
        Ok(Type::Load) => SegmentKind::Load,
        Ok(Type::GnuRelro) => SegmentKind::RelocationReadOnly,
        Ok(_) => SegmentKind::Other,
        Err(_) => SegmentKind::Invalid,
    };
    Ok(Some(Segment { kind, offset: found.offset(), file_size: found.file_size(), mem_size: found.mem_size(), virtual_addr: found.virtual_addr(), writable: flags.is_write(), executable: flags.is_execute() }))
}

/// Calls `xmas_elf::program::sanity_check` on the program header at `index` of
/// the reader's view of an image that starts on an 8-byte boundary, and
/// reports whether it passed. The reader reads the entry in place, so the
/// entry has to be readable, and the check adds the file size to the place in
/// the file, so that sum has to fit in the width of the image's class.
#[verifier::external_body]
pub(crate) fn check_program_header(data: &[u8], index: u16) -> (checked: Result<bool, Misaligned>)
    requires
        elf_header(data@) is Some,
        program_header_readable(elf_header(data@)->0, data@.len() as int, index),
        elf_program_header(data@, index) is Some,
        elf_program_header(data@, index)->0.offset + elf_program_header(data@, index)->0.file_size
            <= offset_limit(elf_header(data@)->0.wide),
    ensures
        checked matches Ok(sane) ==> sane == elf_program_header_sane(data@, index),
{
    if data.as_ptr().align_offset(8) != 0 {
        return Err(Misaligned);
    }
    let Ok(elf) = ElfFile::new(data) else { return Ok(false) };
    match elf.program_header(index) {
        Ok(found) => Ok(program::sanity_check(found, &elf).is_ok()),
        Err(_) => Ok(false),
    }
}

} // verus!
