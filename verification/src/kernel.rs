//! The kernel's executable image: reading it and checking that it can be
//! loaded.

use vstd::prelude::*;
use crate::elf::{
    check_elf_header, check_program_header, elf_header, elf_header_sane, elf_program_header,
    elf_program_header_sane, header_checkable, offset_limit, program_header_readable,
    read_elf_header, read_program_header, ElfHeader, Segment, SegmentKind, EXECUTABLE,
};
use crate::paging::{LOWER_HALF_END, PAGE_SIZE, PHYS_ADDR_LIMIT, UPPER_HALF_START};

verus! {

/// Why an image was not accepted.
#[derive(Clone, Copy, Debug, PartialEq, Eq, Structural)]
pub enum ParseError {
    /// The image does not start on an 8-byte boundary, where the reader can
    /// read it.
    Misaligned,
    /// The reader found no ELF header in the image.
    InvalidImage,
    /// The header did not pass the reader's check, or the reader cannot check it.
    InvalidHeader,
    /// A program header did not pass the reader's check, or the reader cannot
    /// read it.
    InvalidProgramHeader,
    /// The image is not an executable.
    NotExecutable,
    /// The image does not start on a page boundary or does not end below the
    /// physical address limit.
    UnsupportedLoadAddress,
    /// A segment cannot be mapped as it is described.
    UnsupportedSegment,
}

/// Whether `size` bytes from the virtual address `start` on are canonical
/// addresses of one half of the address space, with an end that fits in 64
/// bits.
pub open spec fn virtual_range_supported(start: u64, size: u64) -> bool {
    start + size <= LOWER_HALF_END || (start >= UPPER_HALF_START && start + size <= u64::MAX)
}

/// Whether a segment of an image of `image_len` bytes can be mapped. A
/// loadable segment occupies no more of the file than of memory, lies within
/// the image, starts as far into a page in memory as in the file, and lies in
/// a supported range of virtual addresses. A segment to be made read-only
/// lies in such a range. A segment of unknown type is not supported.
pub open spec fn segment_supported(segment: Segment, image_len: u64) -> bool {
    match segment.kind {
        SegmentKind::Load => {
            &&& segment.file_size <= segment.mem_size
            &&& segment.offset + segment.file_size <= image_len
            &&& segment.virtual_addr % 4096 == segment.offset % 4096
            &&& virtual_range_supported(segment.virtual_addr, segment.mem_size)
        },
        SegmentKind::RelocationReadOnly => virtual_range_supported(
            segment.virtual_addr,
            segment.mem_size,
        ),
        SegmentKind::Other => true,
        SegmentKind::Invalid => false,
    }
}

/// Whether an image of `len` bytes at the physical address `start` starts on
/// a page boundary and ends below the physical address limit.
pub open spec fn image_placed(start: u64, len: u64) -> bool {
    start % 4096 == 0 && start + len <= PHYS_ADDR_LIMIT
}

/// The number of program headers that the reader lists for an image with the
/// header `found`: none where the header gives the table no place or its
/// entries no size.
pub open spec fn listed_program_headers(found: ElfHeader) -> int {
    if found.ph_offset > 0 && found.ph_entry_size > 0 {
        found.ph_count as int
    } else {
        0
    }
}

/// The program headers that the reader lists for an image.
pub open spec fn listed_segments(data: Seq<u8>) -> Seq<Segment> {
    Seq::new(
        listed_program_headers(elf_header(data)->0) as nat,
        |i: int| elf_program_header(data, i as u16)->0,
    )
}

/// Whether the program header at `index` of an image with the header
/// `found` is accepted: the reader can read it and finds it, can form the end
/// of its bytes in the file, and passes it in its check.
pub open spec fn program_header_accepted(data: Seq<u8>, found: ElfHeader, index: int) -> bool {
    &&& program_header_readable(found, data.len() as int, index as u16)
    &&& elf_program_header(data, index as u16) matches Some(segment)
    &&& segment.offset + segment.file_size <= offset_limit(found.wide)
    &&& elf_program_header_sane(data, index as u16)
}

/// Why an image that the reader has read is not accepted, if it is not: it
/// is no executable, or it is not placed as required, or one of its segments
/// is not supported.
pub open spec fn refusal(file_type: u16, segments: Seq<Segment>, image_start: u64, image_len: u64) -> Option<
    ParseError,
> {
    if file_type != EXECUTABLE {
        Some(ParseError::NotExecutable)
    } else if !image_placed(image_start, image_len) {
        Some(ParseError::UnsupportedLoadAddress)
    } else if exists|i: int|
        0 <= i < segments.len() && !segment_supported(#[trigger] segments[i], image_len) {
        Some(ParseError::UnsupportedSegment)
    } else {
        None
    }
}

/// What parsing makes of an image that lies at the physical address
/// `image_start` and starts on an 8-byte boundary. The reader has to find a
/// header; the header has to be one that the reader can check and that passes
/// the check; each program header that the reader lists has to be accepted;
/// and nothing else may stand against the image.
pub open spec fn parse_spec(data: Seq<u8>, image_start: u64) -> Result<KernelImage, ParseError> {
    match elf_header(data) {
        None => Err(ParseError::InvalidImage),
        Some(found) => if !header_checkable(found) || !elf_header_sane(data) {
            Err(ParseError::InvalidHeader)
        } else if exists|i: int|
            0 <= i < listed_program_headers(found) && !#[trigger] program_header_accepted(
                data,
                found,
                i,
            ) {
            Err(ParseError::InvalidProgramHeader)
        } else {
            match refusal(found.file_type, listed_segments(data), image_start, data.len() as u64) {
                Some(error) => Err(error),
                None => Ok(
                    KernelImage {
                        entry: found.entry_point,
                        segments: listed_segments(data),
                        image_start,
                        image_len: data.len() as u64,
                    },
                ),
            }
        },
    }
}

/// A kernel image as mathematics.
pub struct KernelImage {
    /// The virtual address at which the kernel is entered.
    pub entry: u64,
    /// The program headers in file order.
    pub segments: Seq<Segment>,
    /// The physical address of the first byte of the image.
    pub image_start: u64,
    /// The number of bytes of the image.
    pub image_len: u64,
}

impl KernelImage {
    /// The image is placed as required and each of its segments is supported.
    pub open spec fn wf(self) -> bool {
        &&& image_placed(self.image_start, self.image_len)
        &&& forall|i: int|
            0 <= i < self.segments.len() ==> segment_supported(
                #[trigger] self.segments[i],
                self.image_len,
            )
    }
}

/// The kernel's executable image, parsed and checked.
pub struct KernelExecutable {
    pub(crate) entry: u64,
    pub(crate) segments: Vec<Segment>,
    pub(crate) image_start: u64,
    pub(crate) image_len: u64,
}

/// Whether `segment` is supported in an image of `image_len` bytes.
fn is_segment_supported(segment: &Segment, image_len: u64) -> (supported: bool)
    ensures
        supported == segment_supported(*segment, image_len),
{
    match segment.kind {
        SegmentKind::Load => {
            segment.file_size <= segment.mem_size && segment.offset <= image_len && segment.file_size
                <= image_len - segment.offset && segment.virtual_addr % PAGE_SIZE == segment.offset
                % PAGE_SIZE && is_virtual_range_supported(segment.virtual_addr, segment.mem_size)
        },
        SegmentKind::RelocationReadOnly => is_virtual_range_supported(
            segment.virtual_addr,
            segment.mem_size,
        ),
        SegmentKind::Other => true,
        SegmentKind::Invalid => false,
    }
}

/// Whether `size` bytes from `start` on lie in a supported range of virtual
/// addresses.
fn is_virtual_range_supported(start: u64, size: u64) -> (supported: bool)
    ensures
        supported == virtual_range_supported(start, size),
{
    if start <= LOWER_HALF_END && size <= LOWER_HALF_END - start {
        true
    } else {
        start >= UPPER_HALF_START && size <= u64::MAX - start
    }
}

/// Whether the reader can check the header `found`.
fn is_header_checkable(found: &ElfHeader) -> (checkable: bool)
    ensures
        checkable == header_checkable(*found),
{
    let ph_size: u64 = table_size(found.ph_entry_size, found.ph_count);
    let sh_size: u64 = table_size(found.sh_entry_size, found.sh_count);
    found.ph_offset <= u64::MAX - ph_size && found.sh_offset <= u64::MAX - sh_size
}

/// The size in bytes of a table of `count` entries of `entry_size` bytes.
fn table_size(entry_size: u16, count: u16) -> (size: u64)
    ensures
        size == entry_size * count,
{
    assert(entry_size * count <= 0xffff * 0xffff) by (nonlinear_arith)
        requires
            entry_size <= 0xffff,
            count <= 0xffff,
    ;
    entry_size as u64 * count as u64
}

/// Whether the reader can read the program header at `index` of an image of
/// `len` bytes with the header `found`.
fn is_program_header_readable(found: &ElfHeader, len: u64, index: u16) -> (readable: bool)
    ensures
        readable == program_header_readable(*found, len as int, index),
{
    if index >= found.ph_count {
        return false;
    }
    let end_in_table: u64 = table_size(found.ph_entry_size, index + 1);
    let within = found.ph_offset <= len && end_in_table <= len - found.ph_offset;
    if found.wide {
        within && found.ph_entry_size >= 56 && found.ph_offset % 8 == 0 && found.ph_entry_size % 8 == 0
    } else {
        within && found.ph_entry_size >= 32 && found.ph_offset % 4 == 0 && found.ph_entry_size % 4 == 0
    }
}

/// Whether the place of `segment` in the file and its size in the file add
/// up to a number that the reader can form for an image of this class.
fn is_end_formable(segment: &Segment, wide: bool) -> (formable: bool)
    ensures
        formable == (segment.offset + segment.file_size <= offset_limit(wide)),
{
    let limit: u64 = if wide {
        u64::MAX
    } else {
        0xffff_ffff
    };
    segment.offset <= limit && segment.file_size <= limit - segment.offset
}

impl KernelExecutable {
    /// Reads the image `data`, which lies at the physical address
    /// `image_start`, with the ELF reader, and accepts it where the reader's
    /// checks pass, the image is an executable, and it is placed and made up
    /// as loading requires. An image that does not start on an 8-byte
    /// boundary is not read.
    pub fn parse(data: &[u8], image_start: u64) -> (parsed: Result<KernelExecutable, ParseError>)
        ensures
            (parsed is Err && parsed->Err_0 == ParseError::Misaligned) || (match parse_spec(
                data@,
                image_start,
            ) {
                Ok(image) => parsed matches Ok(kernel) && kernel.wf() && kernel@ == image,
                Err(error) => parsed matches Err(refused) && refused == error,
            }),
    {
        let found = match read_elf_header(data) {
            Ok(Some(found)) => found,
            Ok(None) => {
                return Err(ParseError::InvalidImage);
            },
            Err(_) => {
                return Err(ParseError::Misaligned);
            },
        };
        if !is_header_checkable(&found) {
            return Err(ParseError::InvalidHeader);
        }
        match check_elf_header(data) {
            Ok(true) => {},
            Ok(false) => {
                return Err(ParseError::InvalidHeader);
            },
            Err(_) => {
                return Err(ParseError::Misaligned);
            },
        }
        let len = data.len() as u64;
        let mut segments: Vec<Segment> = Vec::new();
        if found.ph_offset > 0 && found.ph_entry_size > 0 {
            let mut index: u16 = 0;
            while index < found.ph_count
                invariant
                    index <= found.ph_count,
                    len == data@.len(),
                    elf_header(data@) == Some(found),
                    header_checkable(found),
                    elf_header_sane(data@),
                    found.ph_offset > 0 && found.ph_entry_size > 0,
                    segments.len() == index,
                    forall|i: int|
                        0 <= i < index ==> #[trigger] program_header_accepted(data@, found, i)
                            && elf_program_header(data@, i as u16) == Some(segments[i]),
                decreases found.ph_count - index,
            {
                if !is_program_header_readable(&found, len, index) {
                    assert(!program_header_accepted(data@, found, index as int));
                    return Err(ParseError::InvalidProgramHeader);
                }
                let segment = match read_program_header(data, index) {
                    Ok(Some(segment)) => segment,
                    Ok(None) => {
                        assert(!program_header_accepted(data@, found, index as int));
                        return Err(ParseError::InvalidProgramHeader);
                    },
                    Err(_) => {
                        return Err(ParseError::Misaligned);
                    },
                };
                if !is_end_formable(&segment, found.wide) {
                    assert(!program_header_accepted(data@, found, index as int));
                    return Err(ParseError::InvalidProgramHeader);
                }
                match check_program_header(data, index) {
                    Ok(true) => {},
                    Ok(false) => {
                        assert(!program_header_accepted(data@, found, index as int));
                        return Err(ParseError::InvalidProgramHeader);
                    },
                    Err(_) => {
                        return Err(ParseError::Misaligned);
                    },
                }
                assert(program_header_accepted(data@, found, index as int));
                let ghost before = segments@;
                segments.push(segment);
                proof {
                    assert forall|i: int| 0 <= i < index + 1 implies #[trigger] program_header_accepted(
                        data@,
                        found,
                        i,
                    ) && elf_program_header(data@, i as u16) == Some(segments[i]) by {
                        if i < index {
                            assert(program_header_accepted(data@, found, i));
                            assert(segments[i] == before[i]);
                        }
                    }
                }
                index += 1;
            }
        }
        proof {
            assert forall|i: int| 0 <= i < segments.len() implies segments[i] == listed_segments(
                data@,
            )[i] by {
                assert(program_header_accepted(data@, found, i));
            }
            assert(segments@ =~= listed_segments(data@));
        }
        KernelExecutable::from_parts(found.file_type, found.entry_point, segments, image_start, len)
    }

    /// The image as mathematics.
    pub closed spec fn view(&self) -> KernelImage {
        KernelImage {
            entry: self.entry,
            segments: self.segments@,
            image_start: self.image_start,
            image_len: self.image_len,
        }
    }

    /// The image is placed as required and each of its segments is supported.
    pub closed spec fn wf(&self) -> bool {
        self@.wf()
    }

    /// What the view and the validity of the image are made of.
    pub(crate) proof fn lemma_view(&self)
        ensures
            self@ == (KernelImage {
                entry: self.entry,
                segments: self.segments@,
                image_start: self.image_start,
                image_len: self.image_len,
            }),
            self.wf() == self@.wf(),
    {
    }

    /// The virtual address at which the kernel is entered.
    pub fn entry_point(&self) -> (entry: u64)
        ensures
            entry == self@.entry,
    {
        self.entry
    }

    /// The program headers in file order.
    pub fn segments(&self) -> (segments: &Vec<Segment>)
        ensures
            segments@ == self@.segments,
    {
        &self.segments
    }

    /// Makes the image of `image_len` bytes at the physical address
    /// `image_start` with the file type `file_type`, the entry point `entry`
    /// and the program headers `segments`, where it is an executable, is
    /// placed as required, and every segment is supported.
    pub fn from_parts(
        file_type: u16,
        entry: u64,
        segments: Vec<Segment>,
        image_start: u64,
        image_len: u64,
    ) -> (made: Result<KernelExecutable, ParseError>)
        ensures
            match refusal(file_type, segments@, image_start, image_len) {
                Some(error) => made matches Err(refused) && refused == error,
                None => made matches Ok(kernel) && kernel.wf() && kernel@ == (KernelImage {
                    entry,
                    segments: segments@,
                    image_start,
                    image_len,
                }),
            },
    {
        if file_type != EXECUTABLE {
            return Err(ParseError::NotExecutable);
        }
        if image_start % PAGE_SIZE != 0 || image_start > PHYS_ADDR_LIMIT || image_len > PHYS_ADDR_LIMIT
            - image_start {
            return Err(ParseError::UnsupportedLoadAddress);
        }
        let mut at: usize = 0;
        while at < segments.len()
            invariant
                at <= segments.len(),
                file_type == EXECUTABLE,
                image_placed(image_start, image_len),
                forall|i: int| 0 <= i < at ==> segment_supported(#[trigger] segments[i], image_len),
            decreases segments.len() - at,
        {
            if !is_segment_supported(&segments[at], image_len) {
                return Err(ParseError::UnsupportedSegment);
            }
            at += 1;
        }
        Ok(KernelExecutable { entry, segments, image_start, image_len })
    }
}

} // verus!
