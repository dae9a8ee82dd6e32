//! The sections of ELF, Mach-O and PE binaries, and the sections that the
//! binaries of a batch have in common.

use vstd::prelude::*;
use vstd::slice::slice_subrange;
use vstd::string::StringExecFns;
use goblin::mach::load_command::{CommandVariant, LoadCommand};
use goblin::mach::segment::Segment as MachSegment;
use crate::error::CompressionError;
use crate::hash::{blake3_digest, blake3_hash};
use crate::text::bytes_equal;

verus! {

// ---------------------------------------------------------------------------
// What the object parser reports
// ---------------------------------------------------------------------------

/// The container format of a binary.
#[derive(Debug, Clone, Copy, PartialEq, Eq, Structural)]
pub enum ObjectFormat {
    /// ELF, 32 or 64 bits.
    Elf,
    /// Mach-O for one architecture.
    MachO,
    /// Mach-O for several architectures.
    MachOFat,
    /// PE, 32 or 64 bits.
    Pe,
    /// Anything else that the parser knows, or nothing it knows.
    Other,
}

/// One section as its header describes it.
#[derive(Debug)]
pub struct RawSection {
    /// The name, where the binary gives one that can be read.
    pub name: Option<String>,
    /// Where the section starts in the file.
    pub offset: u64,
    /// How long it is in the file.
    pub size: u64,
    /// The flags of the section header, in the encoding of the format.
    pub flags: u64,
}

/// A section header as plain values: name, offset, size, flags.
pub type SectionView = (Option<Seq<char>>, u64, u64, u64);

/// A segment as plain values: name, offset, size, executable, hash.
pub type SegmentView = (Seq<char>, nat, nat, bool, Seq<u8>);

/// The section headers as plain values.
pub open spec fn section_views(sections: Seq<RawSection>) -> Seq<SectionView> {
    Seq::new(
        sections.len(),
        |k: int|
            (
                match sections[k].name {
                    Some(name) => Some(name@),
                    None => None,
                },
                sections[k].offset,
                sections[k].size,
                sections[k].flags,
            ),
    )
}

/// The format that goblin takes a file to have from its first sixteen bytes,
/// `head`.
pub uninterp spec fn goblin_hint(head: Seq<u8>) -> Option<ObjectFormat>;

/// The machine number and the section headers that goblin reads from `data`
/// as an ELF file.
pub uninterp spec fn elf_image(data: Seq<u8>) -> Option<(u16, Seq<SectionView>)>;

/// What goblin reads from the header of `data` as a Mach-O file for one
/// architecture: the CPU type, the number of load commands, their total
/// size, and the length of the header itself.
pub uninterp spec fn macho_header(data: Seq<u8>) -> Option<(u32, usize, u32, usize)>;

/// Where the load command at `offset` of the Mach-O file `data` ends, as
/// goblin reads it.
pub uninterp spec fn macho_command(data: Seq<u8>, offset: usize) -> Option<usize>;

/// The sections that goblin reads from the load command at `offset` of the
/// Mach-O file `data` if the command is a 32-bit segment.
pub uninterp spec fn macho_sections32_at(data: Seq<u8>, offset: usize) -> Option<Seq<SectionView>>;

/// The sections that goblin reads from the load command at `offset` of the
/// Mach-O file `data` if the command is a 64-bit segment.
pub uninterp spec fn macho_sections64_at(data: Seq<u8>, offset: usize) -> Option<Seq<SectionView>>;

/// The offset and the size of the first architecture that goblin finds in
/// `data` as a Mach-O file for several.
pub uninterp spec fn fat_first_arch(data: Seq<u8>) -> Option<(u32, u32)>;

/// Whether goblin reads `data` as a 64-bit PE file, and the sections it finds.
pub uninterp spec fn pe_image(data: Seq<u8>) -> Option<(bool, Seq<SectionView>)>;

/// `goblin::peek_bytes`, with the hint that it returns turned into an
/// `ObjectFormat`. It compares the sixteen bytes with the magic numbers of the
/// formats and parses nothing else.
#[verifier::external_body]
fn peek_with_goblin(head: &[u8; 16]) -> (r: Option<ObjectFormat>)
    ensures
        r == goblin_hint(head@),
{
    match goblin::peek_bytes(head) {
        Ok(goblin::Hint::Elf(_)) => Some(ObjectFormat::Elf),
        Ok(goblin::Hint::Mach(_)) => Some(ObjectFormat::MachO),
        Ok(goblin::Hint::MachFat(_)) => Some(ObjectFormat::MachOFat),
        Ok(goblin::Hint::PE) => Some(ObjectFormat::Pe),
        Ok(_) => Some(ObjectFormat::Other),
        Err(_) => None,
    }
}

/// `goblin::elf::Elf::parse`, with `e_machine` of the header and, of each
/// section header, the name that `shdr_strtab.get_at` finds for `sh_name`,
/// `sh_offset`, `sh_size` and `sh_flags`; or the text of its error.
#[verifier::external_body]
fn elf_with_goblin(data: &[u8]) -> (r: Result<(u16, Vec<RawSection>), String>)
    ensures
        match r {
            Ok((machine, sections)) => elf_image(data@) == Some(
                (machine, section_views(sections@)),
            ),
            Err(_) => elf_image(data@) is None,
        },
{
    let elf = goblin::elf::Elf::parse(data).map_err(|e| e.to_string())?;
    let sections = elf.section_headers.iter().map(
        |s| RawSection {
            name: elf.shdr_strtab.get_at(s.sh_name).map(str::to_string),
            offset: s.sh_offset,
            size: s.sh_size,
            flags: s.sh_flags,
        },
    ).collect();
    Ok((elf.header.e_machine, sections))
}

/// `goblin::mach::parse_magic_and_ctx` at offset 0, then the
/// `goblin::mach::header::Header` that `scroll` reads at offset 0 with the
/// context found: `cputype()`, `ncmds` and `sizeofcmds` of the header, and
/// the size that the header has in that context. Bytes that start with no
/// Mach-O magic number have no context and give an error without text.
#[verifier::external_body]
fn macho_header_with_goblin(data: &[u8]) -> (r: Result<(u32, usize, u32, usize), String>)
    ensures
        match r {
            Ok(header) => macho_header(data@) == Some(header),
            Err(_) => macho_header(data@) is None,
        },
{
    let found = goblin::mach::parse_magic_and_ctx(data, 0).map_err(|e| e.to_string())?;
    let ctx = found.1.ok_or_else(String::new)?;
    let read: Result<goblin::mach::header::Header, goblin::error::Error> =
        scroll::Pread::pread_with(data, 0, ctx);
    let header = read.map_err(|e| e.to_string())?;
    let size = <goblin::mach::header::Header as scroll::ctx::SizeWith<
        goblin::container::Ctx,
    >>::size_with(&ctx);
    Ok((header.cputype(), header.ncmds, header.sizeofcmds, size))
}

/// `goblin::mach::parse_magic_and_ctx` at offset 0, then
/// `goblin::mach::load_command::LoadCommand::parse` at `offset`: the offset
/// behind the command, which is `offset` and the size that the command gives
/// for itself.
#[verifier::external_body]
fn macho_command_with_goblin(data: &[u8], offset: usize) -> (r: Result<usize, String>)
    ensures
        match r {
            Ok(next) => macho_command(data@, offset) == Some(next),
            Err(_) => macho_command(data@, offset) is None,
        },
{
    let found = goblin::mach::parse_magic_and_ctx(data, 0).map_err(|e| e.to_string())?;
    let ctx = found.1.ok_or_else(String::new)?;
    let mut next = offset;
    LoadCommand::parse(data, &mut next, ctx.le).map_err(|e| e.to_string())?;
    Ok(next)
}

/// `goblin::mach::parse_magic_and_ctx` at offset 0, then `LoadCommand::parse`
/// at `offset`, then, where the command is a 32-bit segment,
/// `Segment::from_32` and `sections()` on the segment: of each section
/// `name()`, `offset`, `size` and `flags`. Any other command, and a segment
/// whose sections cannot be read, give none; a command that cannot be read,
/// and a segment that lies outside of the file, give nothing.
#[verifier::external_body]
fn macho_sections32_with_goblin(data: &[u8], offset: usize) -> (r: Option<Vec<RawSection>>)
    ensures
        match r {
            Some(sections) => macho_sections32_at(data@, offset) == Some(
                section_views(sections@),
            ),
            None => macho_sections32_at(data@, offset) is None,
        },
{
    let ctx = goblin::mach::parse_magic_and_ctx(data, 0).ok()?.1?;
    let cmd = LoadCommand::parse(data, &mut { offset }, ctx.le).ok()?;
    let found = match cmd.command {
        CommandVariant::Segment32(c) => MachSegment::from_32(data, &c, cmd.offset, ctx).ok()?.sections().unwrap_or_default(),
        _ => Vec::new(),
    };
    let sections = found.into_iter().map(|(s, _)| RawSection {
        name: s.name().ok().map(str::to_string), offset: s.offset.into(), size: s.size, flags: s.flags.into(),
    });
    Some(sections.collect())
}

/// `goblin::mach::parse_magic_and_ctx` at offset 0, then `LoadCommand::parse`
/// at `offset`, then, where the command is a 64-bit segment,
/// `Segment::from_64` and `sections()` on the segment: of each section
/// `name()`, `offset`, `size` and `flags`. Any other command, and a segment
/// whose sections cannot be read, give none; a command that cannot be read,
/// and a segment that lies outside of the file, give nothing.
#[verifier::external_body]
fn macho_sections64_with_goblin(data: &[u8], offset: usize) -> (r: Option<Vec<RawSection>>)
    ensures
        match r {
            Some(sections) => macho_sections64_at(data@, offset) == Some(
                section_views(sections@),
            ),
            None => macho_sections64_at(data@, offset) is None,
        },
{
    let ctx = goblin::mach::parse_magic_and_ctx(data, 0).ok()?.1?;
    let cmd = LoadCommand::parse(data, &mut { offset }, ctx.le).ok()?;
    let found = match cmd.command {
        CommandVariant::Segment64(c) => MachSegment::from_64(data, &c, cmd.offset, ctx).ok()?.sections().unwrap_or_default(),
        _ => Vec::new(),
    };
    let sections = found.into_iter().map(|(s, _)| RawSection {
        name: s.name().ok().map(str::to_string), offset: s.offset.into(), size: s.size, flags: s.flags.into(),
    });
    Some(sections.collect())
}

/// `goblin::mach::MultiArch::new`, then the first item of `iter_arches`:
/// `offset` and `size` of the first architecture of a Mach-O file for
/// several. Neither reads more than the table at the start of the file.
#[verifier::external_body]
fn fat_with_goblin(data: &[u8]) -> (r: Option<(u32, u32)>)
    ensures
        r == fat_first_arch(data@),
{
    let fat = goblin::mach::MultiArch::new(data).ok()?;
    let arch = fat.iter_arches().next()?.ok()?;
    Some((arch.offset, arch.size))
}

/// `goblin::pe::PE::parse`, with `is_64` and, of each entry of the section
/// table, `name()`, `pointer_to_raw_data`, `size_of_raw_data` and
/// `characteristics`; or the text of its error.
#[verifier::external_body]
fn pe_with_goblin(data: &[u8]) -> (r: Result<(bool, Vec<RawSection>), String>)
    ensures
        match r {
            Ok((wide, sections)) => pe_image(data@) == Some((wide, section_views(sections@))),
            Err(_) => pe_image(data@) is None,
        },
{
    let pe = goblin::pe::PE::parse(data).map_err(|e| e.to_string())?;
    let sections = pe.sections.iter().map(
        |s| RawSection {
            name: s.name().ok().map(str::to_string),
            offset: u64::from(s.pointer_to_raw_data),
            size: u64::from(s.size_of_raw_data),
            flags: u64::from(s.characteristics),
        },
    ).collect();
    Ok((pe.is_64, sections))
}

// ---------------------------------------------------------------------------
// Segments
// ---------------------------------------------------------------------------

/// A section of a binary that lies within the file and is not empty.
#[derive(Debug, Clone)]
pub struct Segment {
    /// The name of the section, empty where the binary gives none.
    pub name: String,
    /// Where the section starts.
    pub offset: usize,
    /// How long it is.
    pub size: usize,
    /// Whether the section holds code.
    pub executable: bool,
    /// The BLAKE3 digest of its bytes.
    pub hash: [u8; 32],
}

/// A binary with its sections.
#[derive(Debug)]
pub struct ParsedBinary {
    /// The target that the binary is for.
    pub target: String,
    /// The architecture that the binary says it is for.
    pub arch: String,
    /// The sections, in the order of their headers.
    pub segments: Vec<Segment>,
    /// The bytes of the binary.
    pub data: Vec<u8>,
}

/// `SHF_EXECINSTR`: an ELF section that holds code.
pub const ELF_EXECUTABLE: u64 = 0x4;

/// `S_ATTR_PURE_INSTRUCTIONS | S_ATTR_SOME_INSTRUCTIONS`: a Mach-O section
/// that holds code.
pub const MACHO_EXECUTABLE: u64 = 0x8000_0400;

/// `IMAGE_SCN_MEM_EXECUTE`: a PE section that holds code.
pub const PE_EXECUTABLE: u64 = 0x2000_0000;

/// A segment as plain values.
pub open spec fn segment_view(s: Segment) -> SegmentView {
    (s.name@, s.offset as nat, s.size as nat, s.executable, s.hash@)
}

/// The segments as plain values.
pub open spec fn segment_views(segments: Seq<Segment>) -> Seq<SegmentView> {
    Seq::new(segments.len(), |k: int| segment_view(segments[k]))
}

/// Whether a section is kept: it is not empty and lies within the file.
pub open spec fn section_kept(len: nat, section: SectionView) -> bool {
    section.2 != 0 && section.1 + section.2 <= len
}

/// The segment that a kept section gives: executable if one of the bits of
/// `mask` is set in its flags, with the digest of its bytes.
pub open spec fn segment_of(data: Seq<u8>, mask: u64, section: SectionView) -> SegmentView {
    (
        match section.0 {
            Some(name) => name,
            None => Seq::empty(),
        },
        section.1 as nat,
        section.2 as nat,
        section.3 & mask != 0,
        blake3_digest(data.subrange(section.1 as int, section.1 + section.2)),
    )
}

/// The segments of the first `n` sections: one for each that is kept, in
/// order.
pub open spec fn segments_of(data: Seq<u8>, mask: u64, sections: Seq<SectionView>, n: int) -> Seq<
    SegmentView,
>
    decreases n,
{
    if n <= 0 {
        Seq::empty()
    } else if section_kept(data.len(), sections[n - 1]) {
        segments_of(data, mask, sections, n - 1).push(segment_of(data, mask, sections[n - 1]))
    } else {
        segments_of(data, mask, sections, n - 1)
    }
}

/// Turns section headers into segments: each section that is not empty and
/// lies within `data` gives one, executable if its flags hold a bit of
/// `mask`.
pub fn collect_segments(data: &[u8], mask: u64, sections: &Vec<RawSection>) -> (segments: Vec<
    Segment,
>)
    ensures
        segment_views(segments@) == segments_of(
            data@,
            mask,
            section_views(sections@),
            sections@.len() as int,
        ),
{
    let ghost views = section_views(sections@);
    let mut segments: Vec<Segment> = Vec::new();
    let mut i: usize = 0;
    while i < sections.len()
        invariant
            i <= sections@.len(),
            views == section_views(sections@),
            segment_views(segments@) == segments_of(data@, mask, views, i as int),
        decreases sections@.len() - i,
    {
        let section = &sections[i];
        assert(views[i as int] == (
            match section.name {
                Some(name) => Some(name@),
                None => None,
            },
            section.offset,
            section.size,
            section.flags,
        ));
        let fits = section.size != 0 && (section.offset as u128) + (section.size as u128)
            <= data.len() as u128;
        if fits {
            let offset = section.offset as usize;
            let size = section.size as usize;
            let name = match &section.name {
                Some(name) => name.clone(),
                None => String::new(),
            };
            let hash = blake3_hash(slice_subrange(data, offset, offset + size));
            let segment = Segment {
                name,
                offset,
                size,
                executable: section.flags & mask != 0,
                hash,
            };
            let ghost before = segments@;
            segments.push(segment);
            assert(segment_views(segments@) =~= segment_views(before).push(
                segment_of(data@, mask, views[i as int]),
            ));
        }
        i += 1;
    }
    segments
}

/// The name of the architecture that an ELF machine number stands for.
pub open spec fn elf_arch(machine: u16) -> Seq<char> {
    if machine == 62 {
        "x86_64"@
    } else if machine == 3 {
        "i686"@
    } else if machine == 183 {
        "aarch64"@
    } else if machine == 40 {
        "arm"@
    } else if machine == 243 {
        "riscv64"@
    } else if machine == 21 {
        "ppc64"@
    } else {
        "unknown"@
    }
}

/// The name of the architecture that a Mach-O CPU type stands for.
pub open spec fn macho_arch(cpu: u32) -> Seq<char> {
    if cpu == 0x0100_0007 {
        "x86_64"@
    } else if cpu == 0x0100_000C {
        "aarch64"@
    } else if cpu == 12 {
        "arm"@
    } else {
        "unknown"@
    }
}

/// The name of the architecture of a PE file.
pub open spec fn pe_arch(wide: bool) -> Seq<char> {
    if wide {
        "x86_64"@
    } else {
        "i686"@
    }
}

/// What is found out about a binary that tells nothing: no segments, and an
/// unknown architecture.
pub open spec fn nothing_known() -> (Seq<char>, Seq<SegmentView>) {
    ("unknown"@, Seq::empty())
}

/// The sections of `n` load commands of the Mach-O file `data` from `offset`
/// on, command by command, if all of them can be read. A command is a 32-bit
/// segment, a 64-bit segment or neither, and has sections only as what it
/// is.
pub open spec fn macho_sections(data: Seq<u8>, offset: usize, n: nat) -> Option<Seq<SectionView>>
    decreases n,
{
    if n == 0 {
        Some(Seq::empty())
    } else {
        match (
            macho_command(data, offset),
            macho_sections32_at(data, offset),
            macho_sections64_at(data, offset),
        ) {
            (Some(next), Some(narrow), Some(wide)) => match macho_sections(
                data,
                next,
                (n - 1) as nat,
            ) {
                Some(rest) => Some(narrow + wide + rest),
                None => None,
            },
            _ => None,
        }
    }
}

/// The CPU type and the sections of `data` as a Mach-O file for one
/// architecture: the header has to be readable and to announce no more load
/// commands than the file can hold, and every load command has to be
/// readable.
pub open spec fn macho_image(data: Seq<u8>) -> Option<(u32, Seq<SectionView>)> {
    match macho_header(data) {
        None => None,
        Some((cpu, count, size, start)) => if count > size / 8 || size > data.len() {
            None
        } else {
            match macho_sections(data, start, count as nat) {
                Some(sections) => Some((cpu, sections)),
                None => None,
            }
        },
    }
}

/// What the analysis of a Mach-O image gives.
pub open spec fn macho_analysis(data: Seq<u8>, image: (u32, Seq<SectionView>)) -> (
    Seq<char>,
    Seq<SegmentView>,
) {
    (macho_arch(image.0), segments_of(data, MACHO_EXECUTABLE, image.1, image.1.len() as int))
}

/// The format that the first sixteen bytes of `data` hint at, if there are
/// as many and they hint at one.
pub open spec fn format_of(data: Seq<u8>) -> Option<ObjectFormat> {
    if data.len() < 16 {
        None
    } else {
        goblin_hint(data.subrange(0, 16))
    }
}

/// The first architecture of a Mach-O file for several, if it lies within the
/// file and is a Mach-O file for one.
pub open spec fn first_slice(data: Seq<u8>) -> Option<Seq<u8>> {
    match fat_first_arch(data) {
        Some((offset, size)) => if offset + size <= data.len() && format_of(
            data.subrange(offset as int, offset + size),
        ) == Some(ObjectFormat::MachO) {
            Some(data.subrange(offset as int, offset + size))
        } else {
            None
        },
        None => None,
    }
}

/// The architecture and the segments of `data`. What is recognised as
/// neither ELF, Mach-O nor PE tells nothing, and so does a file of fewer
/// than sixteen bytes. What is recognised as one of them has to be readable
/// as that, else there is no analysis. A Mach-O file for several
/// architectures is analysed by its first, and tells nothing if that cannot
/// be read.
pub open spec fn analysis(data: Seq<u8>) -> Option<(Seq<char>, Seq<SegmentView>)> {
    match format_of(data) {
        None => Some(nothing_known()),
        Some(ObjectFormat::Other) => Some(nothing_known()),
        Some(ObjectFormat::Elf) => match elf_image(data) {
            Some((machine, sections)) => Some(
                (
                    elf_arch(machine),
                    segments_of(data, ELF_EXECUTABLE, sections, sections.len() as int),
                ),
            ),
            None => None,
        },
        Some(ObjectFormat::MachO) => match macho_image(data) {
            Some(image) => Some(macho_analysis(data, image)),
            None => None,
        },
        Some(ObjectFormat::MachOFat) => Some(
            match first_slice(data) {
                Some(slice) => match macho_image(slice) {
                    Some(image) => macho_analysis(slice, image),
                    None => nothing_known(),
                },
                None => nothing_known(),
            },
        ),
        Some(ObjectFormat::Pe) => match pe_image(data) {
            Some((wide, sections)) => Some(
                (pe_arch(wide), segments_of(data, PE_EXECUTABLE, sections, sections.len() as int)),
            ),
            None => None,
        },
    }
}

/// What a function of the analysis returns: the segments and the
/// architecture, or the text of what went wrong.
pub open spec fn analysed(
    r: Result<(Vec<Segment>, String), String>,
    expected: Option<(Seq<char>, Seq<SegmentView>)>,
) -> bool {
    match r {
        Ok((segments, arch)) => expected == Some((arch@, segment_views(segments@))),
        Err(_) => expected is None,
    }
}

/// Finds the format that the first sixteen bytes of `data` hint at.
fn probe(data: &[u8]) -> (r: Option<ObjectFormat>)
    ensures
        r == format_of(data@),
{
    if data.len() < 16 {
        return None;
    }
    let head: [u8; 16] = [
        data[0],
        data[1],
        data[2],
        data[3],
        data[4],
        data[5],
        data[6],
        data[7],
        data[8],
        data[9],
        data[10],
        data[11],
        data[12],
        data[13],
        data[14],
        data[15],
    ];
    assert(head@ =~= data@.subrange(0, 16));
    peek_with_goblin(&head)
}

fn nothing() -> (r: (Vec<Segment>, String))
    ensures
        (r.1@, segment_views(r.0@)) == nothing_known(),
{
    let segments: Vec<Segment> = Vec::new();
    assert(segment_views(segments@) =~= Seq::empty());
    (segments, "unknown".to_owned())
}

/// The segments and the architecture of an ELF file.
fn parse_elf(data: &[u8]) -> (r: Result<(Vec<Segment>, String), String>)
    ensures
        analysed(
            r,
            match elf_image(data@) {
                Some((machine, sections)) => Some(
                    (
                        elf_arch(machine),
                        segments_of(data@, ELF_EXECUTABLE, sections, sections.len() as int),
                    ),
                ),
                None => None,
            },
        ),
{
    match elf_with_goblin(data) {
        Ok((machine, sections)) => {
            let arch = if machine == 62 {
                "x86_64"
            } else if machine == 3 {
                "i686"
            } else if machine == 183 {
                "aarch64"
            } else if machine == 40 {
                "arm"
            } else if machine == 243 {
                "riscv64"
            } else if machine == 21 {
                "ppc64"
            } else {
                "unknown"
            };
            Ok((collect_segments(data, ELF_EXECUTABLE, &sections), arch.to_owned()))
        },
        Err(text) => Err(text),
    }
}

proof fn lemma_section_views_append(a: Seq<RawSection>, b: Seq<RawSection>)
    ensures
        section_views(a + b) == section_views(a) + section_views(b),
{
    assert(section_views(a + b) =~= section_views(a) + section_views(b));
}

/// Reads the sections of the load commands of a Mach-O file, command by
/// command.
fn read_macho_sections(data: &[u8], start: usize, count: usize) -> (r: Result<
    Vec<RawSection>,
    String,
>)
    ensures
        match r {
            Ok(sections) => macho_sections(data@, start, count as nat) == Some(
                section_views(sections@),
            ),
            Err(_) => macho_sections(data@, start, count as nat) is None,
        },
{
    let mut sections: Vec<RawSection> = Vec::new();
    let mut offset = start;
    let mut done: usize = 0;
    assert(section_views(sections@) =~= Seq::empty());
    while done < count
        invariant
            done <= count,
            macho_sections(data@, start, count as nat) == match macho_sections(
                data@,
                offset,
                (count - done) as nat,
            ) {
                Some(rest) => Some(section_views(sections@) + rest),
                None => None,
            },
        decreases count - done,
    {
        let next = match macho_command_with_goblin(data, offset) {
            Ok(next) => next,
            Err(text) => {
                return Err(text);
            },
        };
        let mut narrow = match macho_sections32_with_goblin(data, offset) {
            Some(found) => found,
            None => {
                return Err("Segment cannot be read".to_owned());
            },
        };
        let mut wide = match macho_sections64_with_goblin(data, offset) {
            Some(found) => found,
            None => {
                return Err("Segment cannot be read".to_owned());
            },
        };
        proof {
            lemma_section_views_append(sections@, narrow@);
            lemma_section_views_append(sections@ + narrow@, wide@);
            let rest = macho_sections(data@, next, (count - done - 1) as nat);
            if rest is Some {
                assert(section_views(sections@) + (section_views(narrow@) + section_views(wide@)
                    + rest->0) =~= (section_views(sections@) + section_views(narrow@)
                    + section_views(wide@)) + rest->0);
            }
        }
        sections.append(&mut narrow);
        sections.append(&mut wide);
        offset = next;
        done += 1;
    }
    assert(section_views(sections@) + Seq::<SectionView>::empty() =~= section_views(sections@));
    Ok(sections)
}

/// The segments and the architecture of a Mach-O file for one architecture.
fn parse_macho_binary(data: &[u8]) -> (r: Result<(Vec<Segment>, String), String>)
    ensures
        analysed(
            r,
            match macho_image(data@) {
                Some(image) => Some(macho_analysis(data@, image)),
                None => None,
            },
        ),
{
    let (cpu, count, size, start) = match macho_header_with_goblin(data) {
        Ok(header) => header,
        Err(text) => {
            return Err(text);
        },
    };
    if count as u64 > (size / 8) as u64 || size as u64 > data.len() as u64 {
        return Err("Buffer is too short for the load commands".to_owned());
    }
    let sections = match read_macho_sections(data, start, count) {
        Ok(sections) => sections,
        Err(text) => {
            return Err(text);
        },
    };
    let arch = if cpu == 0x0100_0007 {
        "x86_64"
    } else if cpu == 0x0100_000C {
        "aarch64"
    } else if cpu == 12 {
        "arm"
    } else {
        "unknown"
    };
    Ok((collect_segments(data, MACHO_EXECUTABLE, &sections), arch.to_owned()))
}

/// The segments and the architecture of a Mach-O file for several
/// architectures: those of the first, if it lies within the file and can be
/// read; else nothing.
fn parse_mach(data: &[u8]) -> (r: (Vec<Segment>, String))
    ensures
        (r.1@, segment_views(r.0@)) == match first_slice(data@) {
            Some(slice) => match macho_image(slice) {
                Some(image) => macho_analysis(slice, image),
                None => nothing_known(),
            },
            None => nothing_known(),
        },
{
    match fat_with_goblin(data) {
        Some((offset, size)) => {
            if (offset as u64) + (size as u64) <= data.len() as u64 {
                let start = offset as usize;
                let end = start + size as usize;
                let slice = slice_subrange(data, start, end);
                match probe(slice) {
                    Some(ObjectFormat::MachO) => match parse_macho_binary(slice) {
                        Ok(found) => found,
                        Err(_) => nothing(),
                    },
                    _ => nothing(),
                }
            } else {
                nothing()
            }
        },
        None => nothing(),
    }
}

/// The segments and the architecture of a PE file.
fn parse_pe(data: &[u8]) -> (r: Result<(Vec<Segment>, String), String>)
    ensures
        analysed(
            r,
            match pe_image(data@) {
                Some((wide, sections)) => Some(
                    (
                        pe_arch(wide),
                        segments_of(data@, PE_EXECUTABLE, sections, sections.len() as int),
                    ),
                ),
                None => None,
            },
        ),
{
    match pe_with_goblin(data) {
        Ok((wide, sections)) => {
            let arch = if wide {
                "x86_64"
            } else {
                "i686"
            };
            Ok((collect_segments(data, PE_EXECUTABLE, &sections), arch.to_owned()))
        },
        Err(text) => Err(text),
    }
}

/// The indices among the first `n` segments of those that hold code.
pub open spec fn executable_indices(segments: Seq<Segment>, n: int) -> Seq<int>
    decreases n,
{
    if n <= 0 {
        Seq::empty()
    } else if segments[n - 1].executable {
        executable_indices(segments, n - 1).push(n - 1)
    } else {
        executable_indices(segments, n - 1)
    }
}

impl ParsedBinary {
    /// Analyses a binary. What is not recognised as ELF, Mach-O or PE has no
    /// segments and an unknown architecture; that is no error. What is
    /// recognised as one of them and cannot be read as that is a parse error.
    pub fn parse(target: &str, data: Vec<u8>) -> (r: Result<Self, CompressionError>)
        ensures
            match r {
                Ok(parsed) => parsed.target@ == target@ && parsed.data@ == data@ && analysis(data@)
                    == Some((parsed.arch@, segment_views(parsed.segments@))),
                Err(CompressionError::Parse(_)) => analysis(data@) is None,
                Err(_) => false,
            },
            format_of(data@) is None || format_of(data@) == Some(ObjectFormat::Other)
                || format_of(data@) == Some(ObjectFormat::MachOFat) ==> r is Ok,
    {
        let found = match probe(data.as_slice()) {
            Some(ObjectFormat::Elf) => parse_elf(data.as_slice()),
            Some(ObjectFormat::MachO) => parse_macho_binary(data.as_slice()),
            Some(ObjectFormat::MachOFat) => Ok(parse_mach(data.as_slice())),
            Some(ObjectFormat::Pe) => parse_pe(data.as_slice()),
            Some(ObjectFormat::Other) => Ok(nothing()),
            None => Ok(nothing()),
        };
        match found {
            Ok((segments, arch)) => Ok(
                ParsedBinary { target: target.to_owned(), arch, segments, data },
            ),
            Err(text) => {
                let mut message = "Failed to parse binary: ".to_owned();
                message.append(text.as_str());
                Err(CompressionError::Parse(message))
            },
        }
    }

    /// The segments that hold code, in order.
    pub fn executable_segments(&self) -> (found: Vec<&Segment>)
        ensures
            found@.len() == executable_indices(self.segments@, self.segments@.len() as int).len(),
            forall|k: int|
                0 <= k < found@.len() ==> *(#[trigger] found@[k]) == self.segments@[executable_indices(
                    self.segments@,
                    self.segments@.len() as int,
                )[k]],
    {
        let mut found: Vec<&Segment> = Vec::new();
        let ghost mut picked: Seq<int> = Seq::empty();
        let mut i: usize = 0;
        while i < self.segments.len()
            invariant
                i <= self.segments@.len(),
                picked == executable_indices(self.segments@, i as int),
                found@.len() == picked.len(),
                forall|k: int| 0 <= k < picked.len() ==> 0 <= #[trigger] picked[k] < i,
                forall|k: int|
                    0 <= k < found@.len() ==> *(#[trigger] found@[k]) == self.segments@[picked[k]],
            decreases self.segments@.len() - i,
        {
            if self.segments[i].executable {
                found.push(&self.segments[i]);
                proof {
                    picked = picked.push(i as int);
                }
            }
            i += 1;
        }
        found
    }

    /// The bytes of a segment: those of the binary from the offset of the
    /// segment on, as many as its size says and the binary has.
    pub fn segment_data(&self, segment: &Segment) -> (bytes: &[u8])
        ensures
            bytes@ == self.data@.subrange(
                segment_start(self.data@.len(), segment.offset as nat) as int,
                segment_end(self.data@.len(), segment.offset as nat, segment.size as nat) as int,
            ),
    {
        let len = self.data.len();
        let start = if segment.offset <= len {
            segment.offset
        } else {
            len
        };
        let end = if segment.size <= len - start {
            start + segment.size
        } else {
            len
        };
        slice_subrange(self.data.as_slice(), start, end)
    }
}

/// Where the bytes of a segment start in a binary of `len` bytes.
pub open spec fn segment_start(len: nat, offset: nat) -> nat {
    if offset <= len {
        offset
    } else {
        len
    }
}

/// Where the bytes of a segment end in a binary of `len` bytes.
pub open spec fn segment_end(len: nat, offset: nat, size: nat) -> nat {
    if offset + size <= len {
        offset + size
    } else {
        len
    }
}

// ---------------------------------------------------------------------------
// Sections that binaries have in common
// ---------------------------------------------------------------------------

/// A segment of a batch as plain values: its hash, the index of its binary,
/// its index in the binary, and its size.
pub type Place = (Seq<u8>, int, int, nat);

/// The first `n` segments of binary `b` as places, in order.
pub open spec fn places_in(segments: Seq<Segment>, b: int, n: int) -> Seq<Place>
    decreases n,
{
    if n <= 0 {
        Seq::empty()
    } else {
        places_in(segments, b, n - 1).push(
            (segments[n - 1].hash@, b, n - 1, segments[n - 1].size as nat),
        )
    }
}

/// The segments of the first `n` binaries as places, binary by binary.
pub open spec fn places(binaries: Seq<ParsedBinary>, n: int) -> Seq<Place>
    decreases n,
{
    if n <= 0 {
        Seq::empty()
    } else {
        places(binaries, n - 1) + places_in(
            binaries[n - 1].segments@,
            n - 1,
            binaries[n - 1].segments@.len() as int,
        )
    }
}

/// Whether the hash of place `i` occurs at an earlier place.
pub open spec fn seen_before(all: Seq<Place>, i: int) -> bool {
    exists|j: int| 0 <= j < i && #[trigger] all[j].0 == all[i].0
}

/// Where among the first `n` places `hash` occurs: binary and segment index
/// of each, in order.
pub open spec fn occurrences(all: Seq<Place>, hash: Seq<u8>, n: int) -> Seq<(int, int)>
    decreases n,
{
    if n <= 0 {
        Seq::empty()
    } else if all[n - 1].0 == hash {
        occurrences(all, hash, n - 1).push((all[n - 1].1, all[n - 1].2))
    } else {
        occurrences(all, hash, n - 1)
    }
}

/// The hashes that occur more than once, each with all the places where it
/// occurs, in the order in which the hashes occur first among the first `n`
/// places.
pub open spec fn duplicate_sets(all: Seq<Place>, n: int) -> Seq<(Seq<u8>, Seq<(int, int)>)>
    decreases n,
{
    if n <= 0 {
        Seq::empty()
    } else if !seen_before(all, n - 1) && occurrences(all, all[n - 1].0, all.len() as int).len()
        >= 2 {
        duplicate_sets(all, n - 1).push(
            (all[n - 1].0, occurrences(all, all[n - 1].0, all.len() as int)),
        )
    } else {
        duplicate_sets(all, n - 1)
    }
}

/// The total size of those of the first `n` places whose hash occurs at an
/// earlier place.
pub open spec fn repeated_size(all: Seq<Place>, n: int) -> nat
    decreases n,
{
    if n <= 0 {
        0
    } else {
        repeated_size(all, n - 1) + if seen_before(all, n - 1) {
            all[n - 1].3
        } else {
            0nat
        }
    }
}

/// A hash with every place where it occurs in a batch.
#[derive(Debug)]
pub struct DuplicateSet {
    /// The hash.
    pub hash: [u8; 32],
    /// The binary and the segment index of each occurrence, in order.
    pub locations: Vec<(usize, usize)>,
}

/// The hashes that occur more than once in a batch, each once, in the order
/// in which they occur first.
#[derive(Debug)]
pub struct Duplicates {
    /// One set for each hash.
    pub sets: Vec<DuplicateSet>,
}

/// A set of duplicates as plain values.
pub open spec fn set_view(set: DuplicateSet) -> (Seq<u8>, Seq<(int, int)>) {
    (set.hash@, Seq::new(set.locations@.len(), |k: int| (set.locations@[k].0 as int, set.locations@[k].1 as int)))
}

impl Duplicates {
    /// The sets as plain values.
    pub open spec fn view(&self) -> Seq<(Seq<u8>, Seq<(int, int)>)> {
        Seq::new(self.sets@.len(), |k: int| set_view(self.sets@[k]))
    }

    /// How many hashes occur more than once.
    pub fn len(&self) -> (n: usize)
        ensures
            n == self@.len(),
    {
        self.sets.len()
    }

    /// Whether there is no hash that occurs more than once.
    pub fn is_empty(&self) -> (r: bool)
        ensures
            r == (self@.len() == 0),
    {
        self.sets.len() == 0
    }

    /// The places where `hash` occurs, if it occurs more than once.
    pub fn get(&self, hash: &[u8; 32]) -> (r: Option<&Vec<(usize, usize)>>)
        ensures
            match r {
                Some(locations) => exists|k: int|
                    0 <= k < self.sets@.len() && (#[trigger] self.sets@[k]).hash@ == hash@
                        && *locations == self.sets@[k].locations,
                None => forall|k: int|
                    0 <= k < self.sets@.len() ==> (#[trigger] self.sets@[k]).hash@ != hash@,
            },
    {
        let mut i: usize = 0;
        while i < self.sets.len()
            invariant
                i <= self.sets@.len(),
                forall|k: int| 0 <= k < i ==> (#[trigger] self.sets@[k]).hash@ != hash@,
            decreases self.sets@.len() - i,
        {
            if bytes_equal(&self.sets[i].hash, hash) {
                return Some(&self.sets[i].locations);
            }
            i += 1;
        }
        None
    }

    /// Whether `hash` occurs more than once.
    pub fn contains_key(&self, hash: &[u8; 32]) -> (r: bool)
        ensures
            r == exists|k: int|
                0 <= k < self.sets@.len() && (#[trigger] self.sets@[k]).hash@ == hash@,
    {
        self.get(hash).is_some()
    }
}

/// A segment of a batch: where it stands, its hash and its size.
struct Located {
    hash: [u8; 32],
    binary: usize,
    segment: usize,
    size: usize,
}

spec fn located_views(all: Seq<Located>) -> Seq<Place> {
    Seq::new(
        all.len(),
        |k: int| (all[k].hash@, all[k].binary as int, all[k].segment as int, all[k].size as nat),
    )
}

/// Lists the segments of a batch, binary by binary.
fn locate(binaries: &[ParsedBinary]) -> (all: Vec<Located>)
    ensures
        located_views(all@) == places(binaries@, binaries@.len() as int),
{
    let mut all: Vec<Located> = Vec::new();
    let mut b: usize = 0;
    assert(located_views(all@) =~= places(binaries@, 0));
    while b < binaries.len()
        invariant
            b <= binaries@.len(),
            located_views(all@) == places(binaries@, b as int),
        decreases binaries@.len() - b,
    {
        let segments = &binaries[b].segments;
        let mut s: usize = 0;
        assert(located_views(all@) =~= places(binaries@, b as int) + places_in(
            segments@,
            b as int,
            0,
        ));
        while s < segments.len()
            invariant
                s <= segments@.len(),
                b < binaries@.len(),
                segments@ == binaries@[b as int].segments@,
                located_views(all@) == places(binaries@, b as int) + places_in(
                    segments@,
                    b as int,
                    s as int,
                ),
            decreases segments@.len() - s,
        {
            let ghost before = all@;
            all.push(
                Located {
                    hash: segments[s].hash,
                    binary: b,
                    segment: s,
                    size: segments[s].size,
                },
            );
            assert(located_views(all@) =~= located_views(before).push(
                (segments@[s as int].hash@, b as int, s as int, segments@[s as int].size as nat),
            ));
            assert(located_views(all@) =~= places(binaries@, b as int) + places_in(
                segments@,
                b as int,
                s + 1,
            ));
            s += 1;
        }
        b += 1;
    }
    all
}

/// Whether the hash of place `i` occurs at an earlier place.
fn occurs_before(all: &Vec<Located>, i: usize) -> (r: bool)
    requires
        i < all@.len(),
    ensures
        r == seen_before(located_views(all@), i as int),
{
    let ghost views = located_views(all@);
    let mut j: usize = 0;
    while j < i
        invariant
            j <= i < all@.len(),
            views == located_views(all@),
            forall|k: int| 0 <= k < j ==> (#[trigger] views[k]).0 != views[i as int].0,
        decreases i - j,
    {
        if bytes_equal(&all[j].hash, &all[i].hash) {
            assert(views[j as int].0 == views[i as int].0);
            return true;
        }
        j += 1;
    }
    false
}

/// Each set of duplicates belongs to a hash that occurs first at some place,
/// and no two sets belong to the same hash.
pub proof fn lemma_duplicate_sets_distinct(all: Seq<Place>, n: int)
    requires
        0 <= n <= all.len(),
    ensures
        forall|p: int|
            0 <= p < duplicate_sets(all, n).len() ==> exists|k: int|
                0 <= k < n && #[trigger] all[k].0 == (#[trigger] duplicate_sets(all, n)[p]).0,
        forall|p: int, q: int|
            0 <= p < q < duplicate_sets(all, n).len() ==> (#[trigger] duplicate_sets(all, n)[p]).0
                != (#[trigger] duplicate_sets(all, n)[q]).0,
    decreases n,
{
    if n > 0 {
        lemma_duplicate_sets_distinct(all, n - 1);
        let before = duplicate_sets(all, n - 1);
        let now = duplicate_sets(all, n);
        assert forall|p: int| 0 <= p < now.len() implies exists|k: int|
            0 <= k < n && #[trigger] all[k].0 == (#[trigger] now[p]).0 by {
            if p < before.len() {
                assert(now[p] == before[p]);
                let k = choose|k: int| 0 <= k < n - 1 && #[trigger] all[k].0 == before[p].0;
                assert(all[k].0 == now[p].0);
            } else {
                assert(all[n - 1].0 == now[p].0);
            }
        }
        assert forall|p: int, q: int| 0 <= p < q < now.len() implies (#[trigger] now[p]).0 != (
        #[trigger] now[q]).0 by {
            assert(now[p] == before[p]);
            if q < before.len() {
                assert(now[q] == before[q]);
            } else {
                let k = choose|k: int| 0 <= k < n - 1 && #[trigger] all[k].0 == before[p].0;
                if now[p].0 == now[q].0 {
                    assert(all[k].0 == all[n - 1].0);
                    assert(seen_before(all, n - 1));
                }
            }
        }
    }
}

proof fn lemma_occurrences_grow(all: Seq<Place>, hash: Seq<u8>, n: int, m: int)
    requires
        0 <= n <= m,
    ensures
        occurrences(all, hash, n).len() <= occurrences(all, hash, m).len(),
        n < m && all[n].0 == hash ==> occurrences(all, hash, n).len() < occurrences(
            all,
            hash,
            m,
        ).len(),
    decreases m - n,
{
    if n < m {
        lemma_occurrences_grow(all, hash, n, m - 1);
    }
}

proof fn lemma_occurs_somewhere(all: Seq<Place>, hash: Seq<u8>, n: int) -> (k: int)
    requires
        0 <= n,
        occurrences(all, hash, n).len() >= 1,
    ensures
        0 <= k < n,
        all[k].0 == hash,
        !seen_before(all, k),
    decreases n,
{
    if all[n - 1].0 == hash && occurrences(all, hash, n - 1).len() == 0 {
        if seen_before(all, n - 1) {
            let j = choose|j: int| 0 <= j < n - 1 && #[trigger] all[j].0 == all[n - 1].0;
            lemma_occurrences_grow(all, hash, j, n - 1);
            lemma_occurrences_grow(all, hash, 0, j);
        }
        n - 1
    } else {
        lemma_occurs_somewhere(all, hash, n - 1)
    }
}

proof fn lemma_duplicate_sets_hold(all: Seq<Place>, n: int)
    requires
        0 <= n <= all.len(),
    ensures
        forall|p: int|
            0 <= p < duplicate_sets(all, n).len() ==> (#[trigger] duplicate_sets(all, n)[p]).1
                == occurrences(all, duplicate_sets(all, n)[p].0, all.len() as int)
                && duplicate_sets(all, n)[p].1.len() >= 2,
        forall|k: int|
            0 <= k < n && !seen_before(all, k) && occurrences(
                all,
                (#[trigger] all[k]).0,
                all.len() as int,
            ).len() >= 2 ==> exists|p: int|
                0 <= p < duplicate_sets(all, n).len() && (#[trigger] duplicate_sets(
                    all,
                    n,
                )[p]).0 == all[k].0,
    decreases n,
{
    if n > 0 {
        lemma_duplicate_sets_hold(all, n - 1);
        let before = duplicate_sets(all, n - 1);
        let now = duplicate_sets(all, n);
        assert forall|p: int| 0 <= p < now.len() implies (#[trigger] now[p]).1 == occurrences(
            all,
            now[p].0,
            all.len() as int,
        ) && now[p].1.len() >= 2 by {
            if p < before.len() {
                assert(now[p] == before[p]);
            }
        }
        assert forall|k: int|
            0 <= k < n && !seen_before(all, k) && occurrences(
                all,
                (#[trigger] all[k]).0,
                all.len() as int,
            ).len() >= 2 implies exists|p: int|
            0 <= p < now.len() && (#[trigger] now[p]).0 == all[k].0 by {
            if k < n - 1 {
                let p = choose|p: int|
                    0 <= p < before.len() && (#[trigger] before[p]).0 == all[k].0;
                assert(now[p] == before[p]);
            } else {
                assert(now[now.len() - 1].0 == all[k].0);
            }
        }
    }
}

/// The sets of duplicates are those of the hashes that occur twice or more:
/// a hash has a set exactly if it occurs at two places at least, and its set
/// holds all the places where it occurs.
pub proof fn lemma_duplicates_are_the_repeated(all: Seq<Place>, hash: Seq<u8>)
    ensures
        (exists|p: int|
            0 <= p < duplicate_sets(all, all.len() as int).len() && (#[trigger] duplicate_sets(
                all,
                all.len() as int,
            )[p]).0 == hash) <==> occurrences(all, hash, all.len() as int).len() >= 2,
        forall|p: int|
            0 <= p < duplicate_sets(all, all.len() as int).len() ==> (#[trigger] duplicate_sets(
                all,
                all.len() as int,
            )[p]).1 == occurrences(
                all,
                duplicate_sets(all, all.len() as int)[p].0,
                all.len() as int,
            ),
{
    let n = all.len() as int;
    let sets = duplicate_sets(all, n);
    lemma_duplicate_sets_hold(all, n);
    if occurrences(all, hash, n).len() >= 2 {
        let k = lemma_occurs_somewhere(all, hash, n);
        assert(occurrences(all, all[k].0, n).len() >= 2);
        let p = choose|p: int| 0 <= p < sets.len() && (#[trigger] sets[p]).0 == all[k].0;
        assert(sets[p].0 == hash);
    }
    if exists|p: int| 0 <= p < sets.len() && (#[trigger] sets[p]).0 == hash {
        let p = choose|p: int| 0 <= p < sets.len() && (#[trigger] sets[p]).0 == hash;
        assert(sets[p].1 == occurrences(all, sets[p].0, n));
    }
}

/// Finds the segments that occur more than once in a batch, by their hash.
/// No hash has two sets.
pub fn find_duplicates(binaries: &[ParsedBinary]) -> (found: Duplicates)
    ensures
        found@ == duplicate_sets(
            places(binaries@, binaries@.len() as int),
            places(binaries@, binaries@.len() as int).len() as int,
        ),
        forall|p: int, q: int|
            0 <= p < q < found@.len() ==> (#[trigger] found@[p]).0 != (#[trigger] found@[q]).0,
{
    proof {
        lemma_duplicate_sets_distinct(
            places(binaries@, binaries@.len() as int),
            places(binaries@, binaries@.len() as int).len() as int,
        );
    }
    let all = locate(binaries);
    let ghost views = located_views(all@);
    let n = all.len();
    let mut sets: Vec<DuplicateSet> = Vec::new();
    let mut i: usize = 0;
    while i < n
        invariant
            i <= n,
            n == all@.len(),
            views == located_views(all@),
            Seq::new(sets@.len(), |k: int| set_view(sets@[k])) == duplicate_sets(views, i as int),
        decreases n - i,
    {
        if !occurs_before(&all, i) {
            let mut locations: Vec<(usize, usize)> = Vec::new();
            let mut k: usize = 0;
            while k < n
                invariant
                    k <= n,
                    i < n,
                    n == all@.len(),
                    views == located_views(all@),
                    Seq::new(
                        locations@.len(),
                        |q: int| (locations@[q].0 as int, locations@[q].1 as int),
                    ) == occurrences(views, views[i as int].0, k as int),
                decreases n - k,
            {
                let ghost before = locations@;
                if bytes_equal(&all[k].hash, &all[i].hash) {
                    locations.push((all[k].binary, all[k].segment));
                    assert(Seq::new(
                        locations@.len(),
                        |q: int| (locations@[q].0 as int, locations@[q].1 as int),
                    ) =~= Seq::new(
                        before.len(),
                        |q: int| (before[q].0 as int, before[q].1 as int),
                    ).push((views[k as int].1, views[k as int].2)));
                }
                k += 1;
            }
            if locations.len() >= 2 {
                let ghost before = sets@;
                let set = DuplicateSet { hash: all[i].hash, locations };
                sets.push(set);
                assert(Seq::new(sets@.len(), |k: int| set_view(sets@[k])) =~= Seq::new(
                    before.len(),
                    |k: int| set_view(before[k]),
                ).push(set_view(set)));
            }
        }
        i += 1;
    }
    Duplicates { sets }
}

/// The bytes that would be saved if every segment that occurs more than once
/// in a batch were stored once: the total size of the later occurrences, or
/// the largest number there is where that is less.
pub fn estimate_savings(binaries: &[ParsedBinary]) -> (savings: usize)
    ensures
        savings == if repeated_size(
            places(binaries@, binaries@.len() as int),
            places(binaries@, binaries@.len() as int).len() as int,
        ) <= usize::MAX {
            repeated_size(
                places(binaries@, binaries@.len() as int),
                places(binaries@, binaries@.len() as int).len() as int,
            )
        } else {
            usize::MAX as nat
        },
{
    let all = locate(binaries);
    let ghost views = located_views(all@);
    let n = all.len();
    let mut savings: usize = 0;
    let mut i: usize = 0;
    while i < n
        invariant
            i <= n,
            n == all@.len(),
            views == located_views(all@),
            savings == if repeated_size(views, i as int) <= usize::MAX {
                repeated_size(views, i as int)
            } else {
                usize::MAX as nat
            },
        decreases n - i,
    {
        if occurs_before(&all, i) {
            let size = all[i].size;
            savings = if size <= usize::MAX - savings {
                savings + size
            } else {
                usize::MAX
            };
        }
        i += 1;
    }
    savings
}

} // verus!
