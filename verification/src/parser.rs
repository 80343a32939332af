//! Layout parsing and address translation.
//!
//! The parser reads just enough of the image headers to recover the image
//! base and the section table. The translator maps raw file offsets to
//! virtual addresses and virtual addresses to section names, over whatever
//! sections were recovered.

use crate::bytes::{fits, has_bytes, le_u16, le_u32, le_u64, lemma_le_ranges, read_u16_le, read_u32_le, read_u64_le};
use vstd::arithmetic::div_mod::lemma_mod_multiples_basic;
use vstd::prelude::*;
use vstd::slice::slice_subrange;
use vstd::utf8::{decode_utf8, valid_utf8};

verus! {

/// Size of the legacy header every image starts with.
pub const DOS_HEADER_SIZE: usize = 0x40;

/// Where the legacy header stores the offset of the extended headers.
pub const NT_OFFSET_FIELD: usize = 0x3C;

/// Size of the extended headers: signature, file header and the 64-bit
/// optional header. The section table follows them directly.
pub const NT_HEADERS_SIZE: usize = 0x108;

/// Offsets of the fields read from the extended headers, relative to their
/// start.
pub const SECTION_COUNT_FIELD: usize = 0x06;

pub const MAGIC_FIELD: usize = 0x18;

pub const IMAGE_BASE_64_FIELD: usize = 0x30;

pub const IMAGE_BASE_32_FIELD: usize = 0x34;

pub const SECTION_ALIGNMENT_FIELD: usize = 0x38;

/// The magic value that marks a 64-bit image.
pub const MAGIC_PE32_PLUS: u16 = 0x20B;

/// Size of one section-table entry, and the offsets of its fields.
pub const SECTION_ENTRY_SIZE: usize = 0x28;

pub const ENTRY_NAME_SIZE: usize = 0x08;

pub const ENTRY_VIRTUAL_SIZE_FIELD: usize = 0x08;

pub const ENTRY_VIRTUAL_ADDRESS_FIELD: usize = 0x0C;

pub const ENTRY_RAW_SIZE_FIELD: usize = 0x10;

pub const ENTRY_RAW_OFFSET_FIELD: usize = 0x14;

/// One entry of the section table.
#[derive(Debug, Clone)]
pub struct Section {
    /// Offset of the section from the image base, once loaded.
    pub virtual_address: usize,
    /// Size of the section once loaded, rounded up to the section alignment.
    pub virtual_size: usize,
    /// Offset of the section's bytes in the file.
    pub raw_offset: usize,
    /// Number of bytes the section occupies in the file.
    pub raw_size: usize,
    /// Name of the section, without its padding.
    pub name: String,
}

/// The mathematical content of a [`Section`].
pub struct SectionView {
    pub virtual_address: int,
    pub virtual_size: int,
    pub raw_offset: int,
    pub raw_size: int,
    pub name: Seq<char>,
}

impl View for Section {
    type V = SectionView;

    open spec fn view(&self) -> SectionView {
        SectionView {
            virtual_address: self.virtual_address as int,
            virtual_size: self.virtual_size as int,
            raw_offset: self.raw_offset as int,
            raw_size: self.raw_size as int,
            name: self.name@,
        }
    }
}

impl DeepView for Section {
    type V = SectionView;

    open spec fn deep_view(&self) -> SectionView {
        self@
    }
}

/// What the headers say about the image as a whole.
#[derive(Debug, Clone)]
pub struct PEInfo {
    /// The address the image prefers to be loaded at.
    pub image_base: usize,
}

/// Why a buffer yielded less than a full layout.
#[derive(Debug, Clone, Copy, PartialEq, Eq, Structural)]
pub enum LayoutFault {
    /// The buffer is shorter than the legacy header.
    NoDosHeader,
    /// The extended headers would reach past the end of the buffer.
    NoNtHeaders,
    /// A section-table entry would reach past the end of the buffer.
    SectionOutOfBounds,
    /// A section's size cannot be rounded to the declared alignment: the
    /// alignment is zero, or the rounded size does not fit a machine word.
    SectionNotAlignable,
}

/// Everything the parser recovers from a buffer.
#[derive(Debug, Clone)]
pub struct Layout {
    /// The sections read, in table order.
    pub sections: Vec<Section>,
    /// The image information, when the headers are present.
    pub info: Option<PEInfo>,
    /// What stopped the parser early, if anything did.
    pub fault: Option<LayoutFault>,
}

/// Offset of the extended headers, as the legacy header declares it.
pub open spec fn nt_offset(buf: Seq<u8>) -> int {
    le_u32(buf, NT_OFFSET_FIELD as int)
}

/// Whether both header regions lie inside the buffer.
pub open spec fn has_headers(buf: Seq<u8>) -> bool {
    &&& buf.len() >= DOS_HEADER_SIZE
    &&& nt_offset(buf) + NT_HEADERS_SIZE <= buf.len()
}

/// Whether the headers mark the image as 64-bit.
pub open spec fn is_pe32_plus(buf: Seq<u8>) -> bool {
    le_u16(buf, nt_offset(buf) + MAGIC_FIELD) == MAGIC_PE32_PLUS
}

/// The declared image base: an 8-byte field in a 64-bit image, a 4-byte field
/// otherwise, held in a machine word.
pub open spec fn image_base_of(buf: Seq<u8>) -> usize {
    if is_pe32_plus(buf) {
        le_u64(buf, nt_offset(buf) + IMAGE_BASE_64_FIELD) as usize
    } else {
        le_u32(buf, nt_offset(buf) + IMAGE_BASE_32_FIELD) as usize
    }
}

/// The declared section alignment.
pub open spec fn alignment_of(buf: Seq<u8>) -> int {
    le_u32(buf, nt_offset(buf) + SECTION_ALIGNMENT_FIELD)
}

/// The declared number of sections.
pub open spec fn declared_sections(buf: Seq<u8>) -> int {
    le_u16(buf, nt_offset(buf) + SECTION_COUNT_FIELD)
}

/// `size` rounded up to the nearest multiple of `alignment`.
pub open spec fn round_up(size: int, alignment: int) -> int {
    ((size + alignment - 1) / alignment) * alignment
}

/// Whether `size` is a multiple of a positive `alignment`.
pub open spec fn is_aligned(size: int, alignment: int) -> bool {
    alignment > 0 && size % alignment == 0
}

/// Offset of the section-table entry with the given index.
pub open spec fn entry_at(buf: Seq<u8>, index: int) -> int {
    nt_offset(buf) + NT_HEADERS_SIZE + index * SECTION_ENTRY_SIZE
}

/// Whether the entry with the given index lies inside the buffer.
pub open spec fn entry_in_bounds(buf: Seq<u8>, index: int) -> bool {
    entry_at(buf, index) + SECTION_ENTRY_SIZE <= buf.len()
}

/// The virtual size the entry declares, before rounding.
pub open spec fn entry_declared_size(buf: Seq<u8>, index: int) -> int {
    le_u32(buf, entry_at(buf, index) + ENTRY_VIRTUAL_SIZE_FIELD)
}

/// Whether the entry's size can be rounded up to the declared alignment and
/// held in a machine word.
pub open spec fn entry_alignable(buf: Seq<u8>, index: int) -> bool {
    &&& alignment_of(buf) > 0
    &&& round_up(entry_declared_size(buf, index), alignment_of(buf)) <= usize::MAX
}

/// Whether the entry with the given index can be turned into a section.
pub open spec fn entry_usable(buf: Seq<u8>, index: int) -> bool {
    entry_in_bounds(buf, index) && entry_alignable(buf, index)
}

/// `text` without the NUL characters at its end.
pub open spec fn without_trailing_nul(text: Seq<char>) -> Seq<char>
    decreases text.len(),
{
    if text.len() > 0 && text.last() == '\0' {
        without_trailing_nul(text.drop_last())
    } else {
        text
    }
}

/// The name an 8-byte name field stands for: its text without the NUL
/// padding, or the empty name when the field is not well-formed UTF-8.
pub open spec fn section_name_of(field: Seq<u8>) -> Seq<char> {
    if valid_utf8(field) {
        without_trailing_nul(decode_utf8(field))
    } else {
        Seq::empty()
    }
}

/// Text has no more characters than its encoding has bytes.
pub proof fn lemma_decode_len(bytes: Seq<u8>)
    requires
        valid_utf8(bytes),
    ensures
        decode_utf8(bytes).len() <= bytes.len(),
    decreases bytes.len(),
{
    if bytes.len() > 0 {
        let rest = vstd::utf8::pop_first_scalar(bytes);
        assert(1 <= vstd::utf8::length_of_first_scalar(bytes) <= bytes.len());
        lemma_decode_len(rest);
    }
}

/// Stripping only ever shortens.
pub proof fn lemma_without_trailing_nul_len(text: Seq<char>)
    ensures
        without_trailing_nul(text).len() <= text.len(),
    decreases text.len(),
{
    if text.len() > 0 && text.last() == '\0' {
        lemma_without_trailing_nul_len(text.drop_last());
    }
}

/// A name has no more characters than its field has bytes.
pub proof fn lemma_section_name_len(field: Seq<u8>)
    ensures
        section_name_of(field).len() <= field.len(),
{
    if valid_utf8(field) {
        lemma_decode_len(field);
        lemma_without_trailing_nul_len(decode_utf8(field));
    }
}

/// The section that the entry with the given index describes.
pub open spec fn entry_section(buf: Seq<u8>, index: int) -> SectionView {
    let at = entry_at(buf, index);
    SectionView {
        virtual_address: le_u32(buf, at + ENTRY_VIRTUAL_ADDRESS_FIELD),
        virtual_size: round_up(entry_declared_size(buf, index), alignment_of(buf)),
        raw_offset: le_u32(buf, at + ENTRY_RAW_OFFSET_FIELD),
        raw_size: le_u32(buf, at + ENTRY_RAW_SIZE_FIELD),
        name: section_name_of(buf.subrange(at, at + ENTRY_NAME_SIZE)),
    }
}

/// How many of the first `count` entries are read: all those before the first
/// unusable one.
pub open spec fn usable_prefix(buf: Seq<u8>, count: int) -> int
    decreases count,
{
    if count <= 0 {
        0
    } else {
        let before = usable_prefix(buf, count - 1);
        if before == count - 1 && entry_usable(buf, count - 1) {
            count
        } else {
            before
        }
    }
}

/// The sections recovered from a buffer whose headers are present.
pub open spec fn parsed_sections(buf: Seq<u8>) -> Seq<SectionView> {
    Seq::new(
        usable_prefix(buf, declared_sections(buf)) as nat,
        |index: int| entry_section(buf, index),
    )
}

/// What, if anything, keeps a buffer from yielding a full layout.
pub open spec fn layout_fault_of(buf: Seq<u8>) -> Option<LayoutFault> {
    let read = usable_prefix(buf, declared_sections(buf));
    if buf.len() < DOS_HEADER_SIZE {
        Some(LayoutFault::NoDosHeader)
    } else if !has_headers(buf) {
        Some(LayoutFault::NoNtHeaders)
    } else if read == declared_sections(buf) {
        None
    } else if !entry_in_bounds(buf, read) {
        Some(LayoutFault::SectionOutOfBounds)
    } else {
        Some(LayoutFault::SectionNotAlignable)
    }
}

/// The prefix that is read ends at the first unusable entry: every entry
/// before it is usable, and it is the whole table or stops at an entry that
/// is not.
pub proof fn lemma_usable_prefix(buf: Seq<u8>, count: int)
    requires
        0 <= count,
    ensures
        0 <= usable_prefix(buf, count) <= count,
        forall|i: int| 0 <= i < usable_prefix(buf, count) ==> #[trigger] entry_usable(buf, i),
        usable_prefix(buf, count) < count ==> !entry_usable(buf, usable_prefix(buf, count)),
    decreases count,
{
    if count > 0 {
        lemma_usable_prefix(buf, count - 1);
    }
}

/// Once an unusable entry has been met, a longer table reads no further.
proof fn lemma_usable_prefix_stops(buf: Seq<u8>, stop: int, count: int)
    requires
        0 <= stop < count,
        usable_prefix(buf, stop) == stop,
        !entry_usable(buf, stop),
    ensures
        usable_prefix(buf, count) == stop,
    decreases count,
{
    if count > stop + 1 {
        lemma_usable_prefix_stops(buf, stop, count - 1);
    }
}

/// A size rounded up to a positive alignment is a multiple of it, and lies
/// less than one alignment above the size.
pub proof fn lemma_round_up(size: int, alignment: int)
    requires
        0 <= size,
        0 < alignment,
    ensures
        round_up(size, alignment) % alignment == 0,
        size <= round_up(size, alignment) < size + alignment,
{
    let quotient = (size + alignment - 1) / alignment;
    lemma_mod_multiples_basic(quotient, alignment);
    vstd::arithmetic::div_mod::lemma_fundamental_div_mod(size + alignment - 1, alignment);
    vstd::arithmetic::div_mod::lemma_mod_bound(size + alignment - 1, alignment);
    assert(alignment * quotient == quotient * alignment) by (nonlinear_arith);
}

/// What holds of every section recovered from a buffer: its virtual size is
/// a multiple of the declared alignment, which is then not zero; its name
/// has at most eight characters; and its other fields are 32-bit values.
pub proof fn lemma_parsed_sections(buf: Seq<u8>, index: int)
    requires
        has_headers(buf),
        0 <= index < parsed_sections(buf).len(),
    ensures
        is_aligned(parsed_sections(buf)[index].virtual_size, alignment_of(buf)),
        parsed_sections(buf)[index].name.len() <= ENTRY_NAME_SIZE,
        0 <= parsed_sections(buf)[index].virtual_address <= u32::MAX,
        0 <= parsed_sections(buf)[index].raw_offset <= u32::MAX,
        0 <= parsed_sections(buf)[index].raw_size <= u32::MAX,
        parsed_sections(buf)[index].virtual_size <= usize::MAX,
{
    let at = entry_at(buf, index);
    lemma_le_ranges(buf, NT_OFFSET_FIELD as int);
    lemma_le_ranges(buf, nt_offset(buf) + SECTION_COUNT_FIELD);
    lemma_usable_prefix(buf, declared_sections(buf));
    assert(entry_usable(buf, index));
    lemma_le_ranges(buf, at + ENTRY_VIRTUAL_SIZE_FIELD);
    lemma_le_ranges(buf, at + ENTRY_VIRTUAL_ADDRESS_FIELD);
    lemma_le_ranges(buf, at + ENTRY_RAW_OFFSET_FIELD);
    lemma_le_ranges(buf, at + ENTRY_RAW_SIZE_FIELD);
    lemma_round_up(entry_declared_size(buf, index), alignment_of(buf));
    lemma_section_name_len(buf.subrange(at, at + ENTRY_NAME_SIZE));
}

/// `core::str::from_utf8`: the text that `bytes` encode, exactly when they
/// are well-formed UTF-8. Nothing is claimed beyond what the function
/// documents: it accepts the well-formed inputs and returns them as text.
#[verifier::external_body]
fn utf8_text(bytes: &[u8]) -> (r: Option<&str>)
    ensures
        r is Some <==> valid_utf8(bytes@),
        r matches Some(text) ==> text@ == decode_utf8(bytes@),
{
    match core::str::from_utf8(bytes) {
        Ok(text) => Some(text),
        Err(_) => None,
    }
}

/// Copies `text` without the NUL characters at its end.
pub fn strip_trailing_nul(text: &str) -> (r: String)
    ensures
        r@ == without_trailing_nul(text@),
{
    let mut keep: usize = text.unicode_len();
    assert(text@.subrange(0, keep as int) =~= text@);
    while keep > 0 && text.get_char(keep - 1) == '\0'
        invariant
            keep <= text@.len(),
            without_trailing_nul(text@) == without_trailing_nul(text@.subrange(0, keep as int)),
        decreases keep,
    {
        assert(text@.subrange(0, keep as int).drop_last() =~= text@.subrange(0, keep - 1));
        keep -= 1;
    }
    text.substring_char(0, keep).to_owned()
}

/// Reads the name held in the 8-byte field at `at`.
fn read_section_name(buffer: &[u8], at: usize) -> (name: String)
    requires
        fits(buffer@.len() as int, at as int, ENTRY_NAME_SIZE as int),
        buffer@.len() <= usize::MAX,
    ensures
        name@ == section_name_of(buffer@.subrange(at as int, at + ENTRY_NAME_SIZE)),
{
    let field: &[u8] = slice_subrange(buffer, at, at + ENTRY_NAME_SIZE);
    match utf8_text(field) {
        Some(text) => strip_trailing_nul(text),
        None => String::new(),
    }
}

/// Rounds `size` up to a multiple of `alignment`, when the alignment is not
/// zero and the result fits a machine word.
pub fn align_size(size: u32, alignment: u32) -> (r: Option<usize>)
    ensures
        r is Some <==> (alignment > 0 && round_up(size as int, alignment as int) <= usize::MAX),
        r matches Some(rounded) ==> rounded == round_up(size as int, alignment as int),
{
    if alignment == 0 {
        return None;
    }
    let step: u64 = alignment as u64;
    let quotient: u64 = (size as u64 + step - 1) / step;
    proof {
        lemma_round_up(size as int, alignment as int);
    }
    let rounded: u64 = quotient * step;
    if rounded > usize::MAX as u64 {
        None
    } else {
        Some(rounded as usize)
    }
}

/// Reads the entry with the given index from the section table that starts
/// at `table`, given the declared alignment.
fn read_entry(buffer: &[u8], table: usize, index: usize, alignment: u32) -> (r: Option<Section>)
    requires
        table == entry_at(buffer@, 0),
        alignment == alignment_of(buffer@),
        entry_in_bounds(buffer@, index as int),
        buffer@.len() <= usize::MAX,
    ensures
        r is Some <==> entry_alignable(buffer@, index as int),
        r matches Some(section) ==> section@ == entry_section(buffer@, index as int),
{
    let at: usize = table + index * SECTION_ENTRY_SIZE;
    let declared: u32 = read_u32_le(buffer, at + ENTRY_VIRTUAL_SIZE_FIELD).unwrap();
    let virtual_size: usize = match align_size(declared, alignment) {
        Some(rounded) => rounded,
        None => {
            return None;
        },
    };
    let virtual_address: u32 = read_u32_le(buffer, at + ENTRY_VIRTUAL_ADDRESS_FIELD).unwrap();
    let raw_size: u32 = read_u32_le(buffer, at + ENTRY_RAW_SIZE_FIELD).unwrap();
    let raw_offset: u32 = read_u32_le(buffer, at + ENTRY_RAW_OFFSET_FIELD).unwrap();
    let name: String = read_section_name(buffer, at);
    Some(
        Section {
            virtual_address: virtual_address as usize,
            virtual_size,
            raw_offset: raw_offset as usize,
            raw_size: raw_size as usize,
            name,
        },
    )
}

/// Parses the image headers and the section table of `buffer`.
///
/// A buffer without room for both header regions yields no sections and no
/// image information. Otherwise the image base is read from the headers and
/// the section table is walked until the declared number of entries has been
/// read or one of them cannot be used; the sections read up to then are
/// kept. Each section's virtual size is a multiple of the declared alignment.
pub fn parse_layout(buffer: &[u8]) -> (layout: Layout)
    ensures
        layout.fault == layout_fault_of(buffer@),
        !has_headers(buffer@) ==> layout.sections@.len() == 0 && layout.info is None,
        has_headers(buffer@) ==> layout.sections.deep_view() == parsed_sections(buffer@),
        has_headers(buffer@) ==> layout.info == Some(
            (PEInfo { image_base: image_base_of(buffer@) }),
        ),
        forall|i: int|
            0 <= i < layout.sections@.len() ==> is_aligned(
                (#[trigger] layout.sections@[i]).virtual_size as int,
                alignment_of(buffer@),
            ),
        forall|i: int|
            0 <= i < layout.sections@.len() ==> (#[trigger] layout.sections@[i]).name@.len()
                <= ENTRY_NAME_SIZE,
{
    let mut sections: Vec<Section> = Vec::new();
    if !has_bytes(buffer, 0, DOS_HEADER_SIZE) {
        return Layout { sections, info: None, fault: Some(LayoutFault::NoDosHeader) };
    }
    let declared_offset: u32 = read_u32_le(buffer, NT_OFFSET_FIELD).unwrap();
    if (buffer.len() as u64) < declared_offset as u64 + NT_HEADERS_SIZE as u64 {
        return Layout { sections, info: None, fault: Some(LayoutFault::NoNtHeaders) };
    }
    let nt: usize = declared_offset as usize;
    let magic: u16 = read_u16_le(buffer, nt + MAGIC_FIELD).unwrap();
    let image_base: usize = if magic == MAGIC_PE32_PLUS {
        #[verifier::truncate]
        (read_u64_le(buffer, nt + IMAGE_BASE_64_FIELD).unwrap() as usize)
    } else {
        read_u32_le(buffer, nt + IMAGE_BASE_32_FIELD).unwrap() as usize
    };
    let alignment: u32 = read_u32_le(buffer, nt + SECTION_ALIGNMENT_FIELD).unwrap();
    let count: usize = read_u16_le(buffer, nt + SECTION_COUNT_FIELD).unwrap() as usize;
    let table: usize = nt + NT_HEADERS_SIZE;
    let mut fault: Option<LayoutFault> = None;
    let mut index: usize = 0;
    while index < count
        invariant_except_break
            fault is None,
        invariant
            index <= count == declared_sections(buffer@),
            count <= 0xFFFF,
            has_headers(buffer@),
            buffer@.len() <= usize::MAX,
            table == nt_offset(buffer@) + NT_HEADERS_SIZE,
            alignment == alignment_of(buffer@),
            usable_prefix(buffer@, index as int) == index,
            sections.deep_view() =~= Seq::new(index as nat, |i: int| entry_section(buffer@, i)),
            forall|i: int|
                0 <= i < sections@.len() ==> is_aligned(
                    (#[trigger] sections@[i]).virtual_size as int,
                    alignment as int,
                ),
        ensures
            sections.deep_view() == parsed_sections(buffer@),
            fault == layout_fault_of(buffer@),
            forall|i: int|
                0 <= i < sections@.len() ==> is_aligned(
                    (#[trigger] sections@[i]).virtual_size as int,
                    alignment as int,
                ),
        decreases count - index,
    {
        if !has_bytes(buffer, table, index * SECTION_ENTRY_SIZE + SECTION_ENTRY_SIZE) {
            proof {
                lemma_usable_prefix_stops(buffer@, index as int, count as int);
            }
            fault = Some(LayoutFault::SectionOutOfBounds);
            break ;
        }
        match read_entry(buffer, table, index, alignment) {
            Some(section) => {
                proof {
                    lemma_le_ranges(
                        buffer@,
                        entry_at(buffer@, index as int) + ENTRY_VIRTUAL_SIZE_FIELD,
                    );
                    lemma_round_up(
                        entry_declared_size(buffer@, index as int),
                        alignment_of(buffer@),
                    );
                }
                let ghost before = sections.deep_view();
                let ghost added = section@;
                sections.push(section);
                assert(sections.deep_view() =~= before.push(added));
            },
            None => {
                proof {
                    lemma_usable_prefix_stops(buffer@, index as int, count as int);
                }
                fault = Some(LayoutFault::SectionNotAlignable);
                break ;
            },
        }
        index += 1;
    }
    proof {
        assert forall|i: int| 0 <= i < sections@.len() implies (#[trigger] sections@[i]).name@.len()
            <= ENTRY_NAME_SIZE by {
            assert(sections.deep_view()[i] == sections@[i]@);
            lemma_parsed_sections(buffer@, i);
        }
    }
    Layout { sections, info: Some(PEInfo { image_base }), fault }
}

/// Parses the image headers and the section table of `buffer`; the second
/// argument is accepted for callers that carry a rebasing override and is not
/// used. See [`parse_layout`] for what is read.
pub fn get_sections_and_pe_info(buffer: &[u8], _base: usize) -> (r: (Vec<Section>, Option<PEInfo>))
    ensures
        buffer@.len() < DOS_HEADER_SIZE ==> r.0@.len() == 0 && r.1 is None,
        !has_headers(buffer@) ==> r.0@.len() == 0 && r.1 is None,
        has_headers(buffer@) ==> r.0.deep_view() == parsed_sections(buffer@),
        has_headers(buffer@) ==> r.1 == Some((PEInfo { image_base: image_base_of(buffer@) })),
        forall|i: int|
            0 <= i < r.0@.len() ==> is_aligned(
                (#[trigger] r.0@[i]).virtual_size as int,
                alignment_of(buffer@),
            ),
        forall|i: int| 0 <= i < r.0@.len() ==> (#[trigger] r.0@[i]).name@.len() <= ENTRY_NAME_SIZE,
{
    let layout: Layout = parse_layout(buffer);
    (layout.sections, layout.info)
}

/// Whether the section's bytes in the file include the offset `raw`.
pub open spec fn raw_contains(section: SectionView, raw: int) -> bool {
    section.raw_offset <= raw < section.raw_offset + section.raw_size
}

/// Whether the section's loaded range includes `address`.
pub open spec fn virtual_contains(section: SectionView, address: int) -> bool {
    section.virtual_address <= address < section.virtual_address + section.virtual_size
}

/// Index of the first section at or after `from` whose file range includes
/// `raw`.
pub open spec fn raw_owner_from(sections: Seq<SectionView>, raw: int, from: int) -> Option<int>
    decreases sections.len() - from,
{
    if from >= sections.len() {
        None
    } else if raw_contains(sections[from], raw) {
        Some(from)
    } else {
        raw_owner_from(sections, raw, from + 1)
    }
}

/// Index of the first section whose file range includes `raw`. Sections may
/// overlap; table order decides.
pub open spec fn raw_owner(sections: Seq<SectionView>, raw: int) -> Option<int> {
    raw_owner_from(sections, raw, 0)
}

/// Index of the first section at or after `from` whose loaded range includes
/// `address`.
pub open spec fn virtual_owner_from(sections: Seq<SectionView>, address: int, from: int) -> Option<
    int,
>
    decreases sections.len() - from,
{
    if from >= sections.len() {
        None
    } else if virtual_contains(sections[from], address) {
        Some(from)
    } else {
        virtual_owner_from(sections, address, from + 1)
    }
}

/// Index of the first section whose loaded range includes `address`.
pub open spec fn virtual_owner(sections: Seq<SectionView>, address: int) -> Option<int> {
    virtual_owner_from(sections, address, 0)
}

/// The virtual address of the file offset `raw` inside `section`, for an
/// image loaded at `image_base`.
pub open spec fn translated(section: SectionView, raw: int, image_base: int) -> int {
    section.virtual_address + (raw - section.raw_offset) + image_base
}

/// The virtual address of the file offset `raw`: translated through the first
/// section that includes it, provided the address fits a machine word.
pub open spec fn raw_to_virtual(sections: Seq<SectionView>, raw: int, image_base: int) -> Option<
    int,
> {
    match raw_owner(sections, raw) {
        Some(index) => {
            let address = translated(sections[index], raw, image_base);
            if address <= usize::MAX {
                Some(address)
            } else {
                None
            }
        },
        None => None,
    }
}

/// The name reported for addresses that no section includes.
pub open spec fn unknown_name() -> Seq<char> {
    "unknown"@
}

/// The name of the first section whose loaded range includes `address`, or
/// the unknown name.
pub open spec fn section_name_for(sections: Seq<SectionView>, address: int) -> Seq<char> {
    match virtual_owner(sections, address) {
        Some(index) => sections[index].name,
        None => unknown_name(),
    }
}

/// The owner of a file offset is the first section that includes it; there
/// is none exactly when no section does.
pub proof fn lemma_raw_owner(sections: Seq<SectionView>, raw: int, from: int)
    requires
        0 <= from,
    ensures
        raw_owner_from(sections, raw, from) matches Some(index) ==> {
            &&& from <= index < sections.len()
            &&& raw_contains(sections[index], raw)
            &&& forall|j: int| from <= j < index ==> !raw_contains(#[trigger] sections[j], raw)
        },
        raw_owner_from(sections, raw, from) is None ==> forall|j: int|
            from <= j < sections.len() ==> !raw_contains(#[trigger] sections[j], raw),
    decreases sections.len() - from,
{
    if from < sections.len() && !raw_contains(sections[from], raw) {
        lemma_raw_owner(sections, raw, from + 1);
    }
}

/// The owner of a virtual address is the first section that includes it;
/// there is none exactly when no section does.
pub proof fn lemma_virtual_owner(sections: Seq<SectionView>, address: int, from: int)
    requires
        0 <= from,
    ensures
        virtual_owner_from(sections, address, from) matches Some(index) ==> {
            &&& from <= index < sections.len()
            &&& virtual_contains(sections[index], address)
            &&& forall|j: int|
                from <= j < index ==> !virtual_contains(#[trigger] sections[j], address)
        },
        virtual_owner_from(sections, address, from) is None ==> forall|j: int|
            from <= j < sections.len() ==> !virtual_contains(#[trigger] sections[j], address),
    decreases sections.len() - from,
{
    if from < sections.len() && !virtual_contains(sections[from], address) {
        lemma_virtual_owner(sections, address, from + 1);
    }
}

/// Translating a file offset and looking the result up again names the
/// section the offset came from, whenever the translated address lies in
/// that section's loaded range and every earlier section that also includes
/// it bears the same name.
///
/// Both conditions are needed. The lookup compares against ranges that are
/// relative to the image base, so an address translated with a base that
/// pushes it out of the section's range is not found there; and table order
/// decides between overlapping sections.
pub proof fn lemma_translate_then_name(
    sections: Seq<SectionView>,
    index: int,
    raw: int,
    image_base: int,
)
    requires
        raw_owner(sections, raw) == Some(index),
        virtual_contains(sections[index], translated(sections[index], raw, image_base)),
        forall|j: int|
            0 <= j < index && virtual_contains(
                #[trigger] sections[j],
                translated(sections[index], raw, image_base),
            ) ==> sections[j].name == sections[index].name,
    ensures
        section_name_for(sections, translated(sections[index], raw, image_base))
            == sections[index].name,
        raw_to_virtual(sections, raw, image_base) matches Some(address) ==> section_name_for(
            sections,
            address,
        ) == sections[index].name,
{
    let address = translated(sections[index], raw, image_base);
    lemma_raw_owner(sections, raw, 0);
    lemma_virtual_owner(sections, address, 0);
}

/// For an image based at zero whose sections are at least as large loaded as
/// on file and do not overlap once loaded, every file offset inside a section
/// translates to an address that is named after that section.
pub proof fn lemma_round_trip(sections: Seq<SectionView>, index: int, raw: int)
    requires
        0 <= index < sections.len(),
        raw_contains(sections[index], raw),
        forall|j: int|
            0 <= j < sections.len() ==> 0 <= (#[trigger] sections[j]).raw_size
                <= sections[j].virtual_size,
        forall|j: int, k: int|
            0 <= j < k < sections.len() ==> {
                ||| (#[trigger] sections[j]).raw_offset + sections[j].raw_size <= (
                #[trigger] sections[k]).raw_offset
                ||| sections[k].raw_offset + sections[k].raw_size <= sections[j].raw_offset
            },
        forall|j: int, k: int|
            0 <= j < k < sections.len() ==> {
                ||| (#[trigger] sections[j]).virtual_address + sections[j].virtual_size <= (
                #[trigger] sections[k]).virtual_address
                ||| sections[k].virtual_address + sections[k].virtual_size
                    <= sections[j].virtual_address
            },
    ensures
        raw_owner(sections, raw) == Some(index),
        section_name_for(sections, translated(sections[index], raw, 0)) == sections[index].name,
{
    let address = translated(sections[index], raw, 0);
    lemma_raw_owner(sections, raw, 0);
    lemma_virtual_owner(sections, address, 0);
}

/// Translates a raw file offset to a virtual address.
///
/// The sections are searched in table order and the first one whose file
/// range includes the offset decides. Nothing is returned when no section
/// includes the offset, or when the translated address does not fit a machine
/// word.
pub fn va_from_raw_address(raw_address: usize, sections: &[Section], image_base: usize) -> (r:
    Option<usize>)
    ensures
        r is Some <==> raw_to_virtual(
            sections.deep_view(),
            raw_address as int,
            image_base as int,
        ) is Some,
        r matches Some(address) ==> raw_to_virtual(
            sections.deep_view(),
            raw_address as int,
            image_base as int,
        ) == Some(address as int),
{
    let mut i: usize = 0;
    while i < sections.len()
        invariant
            i <= sections@.len(),
            sections.deep_view().len() == sections@.len(),
            raw_owner(sections.deep_view(), raw_address as int) == raw_owner_from(
                sections.deep_view(),
                raw_address as int,
                i as int,
            ),
        decreases sections@.len() - i,
    {
        let section: &Section = &sections[i];
        assert(sections.deep_view()[i as int] == section@);
        if raw_address >= section.raw_offset && raw_address - section.raw_offset
            < section.raw_size {
            let within: usize = raw_address - section.raw_offset;
            return match section.virtual_address.checked_add(within) {
                Some(relative) => relative.checked_add(image_base),
                None => None,
            };
        }
        i += 1;
    }
    None
}

/// Names the section that a virtual address falls in.
///
/// The sections are searched in table order and the first one whose loaded
/// range includes the address gives its name; `unknown` is returned when none
/// does, which includes the case of an empty table.
pub fn find_section_name(sections: &[Section], address: usize) -> (r: String)
    ensures
        r@ == section_name_for(sections.deep_view(), address as int),
{
    let mut i: usize = 0;
    while i < sections.len()
        invariant
            i <= sections@.len(),
            sections.deep_view().len() == sections@.len(),
            virtual_owner(sections.deep_view(), address as int) == virtual_owner_from(
                sections.deep_view(),
                address as int,
                i as int,
            ),
        decreases sections@.len() - i,
    {
        let section: &Section = &sections[i];
        assert(sections.deep_view()[i as int] == section@);
        if address >= section.virtual_address && address - section.virtual_address
            < section.virtual_size {
            return section.name.clone();
        }
        i += 1;
    }
    "unknown".to_owned()
}

} // verus!
