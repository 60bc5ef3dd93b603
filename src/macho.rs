//! Sections of a Mach-O module, read from its load commands.
use vstd::prelude::*;

use crate::bytes::copy_range;
use crate::module_memory::{ModuleMemory, ModuleMemoryReadError};

verus! {

/// Magic number of a 64-bit Mach-O header.
pub const MH_MAGIC_64: u32 = 0xfeedfacf;

/// File type of an executable.
pub const MH_EXECUTE: u32 = 0x2;

/// File type of a dynamic library.
pub const MH_DYLIB: u32 = 0x6;

/// Load command of a 64-bit segment.
pub const LC_SEGMENT_64: u32 = 0x19;

/// Size of a 64-bit Mach-O header.
pub const HEADER_SIZE_64: u64 = 32;

/// Size of a load command's leading type and size.
pub const LOAD_COMMAND_SIZE: u64 = 8;

/// Size of a 64-bit segment command.
pub const SEGMENT_COMMAND_SIZE_64: u64 = 72;

/// Size of a 64-bit section entry.
pub const SECTION_SIZE_64: u64 = 80;

/// The name of the data segment, zero-padded to 16 bytes.
pub open spec fn data_segment_name() -> Seq<u8> {
    seq![0x5fu8, 0x5fu8, 0x44u8, 0x41u8, 0x54u8, 0x41u8, 0u8, 0u8, 0u8, 0u8, 0u8, 0u8, 0u8, 0u8, 0u8, 0u8]
}

/// What the section lookup reads of a Mach-O header.
#[derive(Clone, Copy, Debug, PartialEq, Eq, Structural)]
pub struct MachHeaderInfo {
    pub magic: u32,
    pub filetype: u32,
    pub sizeofcmds: u32,
}

/// Whether goblin reads `b` as a Mach-O header: `Err` if not, `Ok(None)`
/// if it finds no parsing context, else whether the container is 64-bit and
/// whether it is little-endian.
pub uninterp spec fn macho_context_of(b: Seq<u8>) -> Result<Option<(bool, bool)>, ()>;

/// The header goblin reads from `b` in the given context.
pub uninterp spec fn macho_header_of(b: Seq<u8>, big: bool, little: bool) -> Option<MachHeaderInfo>;

/// The type and size of the load command goblin reads from `b`.
pub uninterp spec fn load_command_of(b: Seq<u8>, little: bool) -> Option<(u32, u32)>;

/// The segment name and section count goblin reads from `b`.
pub uninterp spec fn segment_command_of(b: Seq<u8>, little: bool) -> Option<(Seq<u8>, u32)>;

/// The section name and file offset goblin reads from `b`.
pub uninterp spec fn section64_of(b: Seq<u8>, little: bool) -> Option<(Seq<u8>, u32)>;

/// Relies on `goblin::mach::parse_magic_and_ctx`: the container size and
/// byte order of the header at the start of `bytes`.
#[verifier::external_body]
fn macho_context(bytes: &[u8]) -> (r: Result<Option<(bool, bool)>, ()>)
    ensures
        r == macho_context_of(bytes@),
{
    match goblin::mach::parse_magic_and_ctx(bytes, 0) {
        Ok((_, Some(ctx))) => Ok(Some((ctx.container.is_big(), ctx.le.is_little()))),
        Ok((_, None)) => Ok(None),
        Err(_) => Err(()),
    }
}

/// Relies on `goblin::mach::header::Header::try_from_ctx`: the header's
/// magic, file type and size of its load commands.
#[verifier::external_body]
fn macho_header(bytes: &[u8], big: bool, little: bool) -> (r: Option<MachHeaderInfo>)
    ensures
        r == macho_header_of(bytes@, big, little),
{
    let container = if big {
        goblin::container::Container::Big
    } else {
        goblin::container::Container::Little
    };
    let endian = if little {
        scroll::Endian::Little
    } else {
        scroll::Endian::Big
    };
    <goblin::mach::header::Header as scroll::ctx::TryFromCtx<goblin::container::Ctx>>::try_from_ctx(
        bytes,
        goblin::container::Ctx::new(container, endian),
    ).ok().map(|(h, _)| MachHeaderInfo { magic: h.magic, filetype: h.filetype, sizeofcmds: h.sizeofcmds })
}

/// Relies on `goblin::mach::load_command::LoadCommandHeader::try_from_ctx`:
/// the command's type and size.
#[verifier::external_body]
fn load_command(bytes: &[u8], little: bool) -> (r: Option<(u32, u32)>)
    ensures
        r == load_command_of(bytes@, little),
{
    let endian = if little {
        scroll::Endian::Little
    } else {
        scroll::Endian::Big
    };
    <goblin::mach::load_command::LoadCommandHeader as scroll::ctx::TryFromCtx<scroll::Endian>>::try_from_ctx(
        bytes,
        endian,
    ).ok().map(|(c, _)| (c.cmd, c.cmdsize))
}

/// Relies on `goblin::mach::load_command::SegmentCommand64::try_from_ctx`:
/// the segment's name and number of sections.
#[verifier::external_body]
fn segment_command(bytes: &[u8], little: bool) -> (r: Option<([u8; 16], u32)>)
    ensures
        match r {
            Some((name, n)) => segment_command_of(bytes@, little) == Some((name@, n)),
            None => segment_command_of(bytes@, little) is None,
        },
{
    let endian = if little {
        scroll::Endian::Little
    } else {
        scroll::Endian::Big
    };
    <goblin::mach::load_command::SegmentCommand64 as scroll::ctx::TryFromCtx<scroll::Endian>>::try_from_ctx(
        bytes,
        endian,
    ).ok().map(|(s, _)| (s.segname, s.nsects))
}

/// Relies on `goblin::mach::load_command::Section64::try_from_ctx`: the
/// section's name and file offset.
#[verifier::external_body]
fn section_64(bytes: &[u8], little: bool) -> (r: Option<([u8; 16], u32)>)
    ensures
        match r {
            Some((name, off)) => section64_of(bytes@, little) == Some((name@, off)),
            None => section64_of(bytes@, little) is None,
        },
{
    let endian = if little {
        scroll::Endian::Little
    } else {
        scroll::Endian::Big
    };
    <goblin::mach::load_command::Section64 as scroll::ctx::TryFromCtx<scroll::Endian>>::try_from_ctx(
        bytes,
        endian,
    ).ok().map(|(s, _)| (s.sectname, s.offset))
}

/// Why a Mach-O module could not be read.
#[derive(Clone, Copy, Debug, PartialEq, Eq, Structural)]
pub enum ModuleReaderError {
    ReadModuleMemory(ModuleMemoryReadError),
    /// A header or command does not parse.
    GoblinParsing,
    /// The header gives no parsing context.
    MissingCtx,
    /// A load command claims a size of zero.
    MalformedLoadCommand,
}

/// Index of the first section from `k` on, among the `n` entries of 80
/// bytes in `b`, named `name`; `Err` if one of those before it does not
/// parse or lies past `b`.
pub open spec fn section_in(b: Seq<u8>, n: int, little: bool, name: Seq<u8>, k: int) -> Result<
    Option<u32>,
    (),
>
    decreases n - k,
{
    if k < 0 || k >= n {
        Ok(None)
    } else if 80 * k > b.len() {
        Err(())
    } else {
        match section64_of(b.subrange(80 * k, b.len() as int), little) {
            None => Err(()),
            Some((sname, off)) => if sname == name {
                Ok(Some(off))
            } else {
                section_in(b, n, little, name, k + 1)
            },
        }
    }
}

/// Whether two 16-byte names are equal.
fn name16_eq(a: &[u8; 16], b: &[u8; 16]) -> (r: bool)
    ensures
        r == (a@ == b@),
{
    let mut i: usize = 0;
    while i < 16
        invariant
            i <= 16,
            a@.len() == 16,
            b@.len() == 16,
            forall|j: int| 0 <= j < i ==> a@[j] == b@[j],
        decreases 16 - i,
    {
        if a[i] != b[i] {
            assert(a@[i as int] != b@[i as int]);
            return false;
        }
        i = i + 1;
    }
    assert(a@ =~= b@);
    true
}

/// The file offset of the section named `name` among the `count`
/// entries in `bytes` (see `section_in`).
pub fn find_in_sections(bytes: &Vec<u8>, count: u32, little: bool, name: &[u8; 16]) -> (r: Result<
    Option<usize>,
    ModuleReaderError,
>)
    ensures
        match section_in(bytes@, count as int, little, name@, 0) {
            Ok(Some(off)) => r == Ok::<Option<usize>, ModuleReaderError>(Some(off as usize)),
            Ok(None) => r == Ok::<Option<usize>, ModuleReaderError>(None),
            Err(()) => r == Err::<Option<usize>, ModuleReaderError>(ModuleReaderError::GoblinParsing),
        },
{
    let mut k: u32 = 0;
    let mut offset: u64 = 0;
    while k < count
        invariant
            k <= count,
            offset == 80 * k,
            section_in(bytes@, count as int, little, name@, 0) == section_in(
                bytes@,
                count as int,
                little,
                name@,
                k as int,
            ),
        decreases count - k,
    {
        if offset > bytes.len() as u64 {
            return Err(ModuleReaderError::GoblinParsing);
        }
        let rest = copy_range(bytes.as_slice(), offset as usize, bytes.len());
        match section_64(rest.as_slice(), little) {
            None => {
                return Err(ModuleReaderError::GoblinParsing);
            },
            Some((sname, off)) => {
                if name16_eq(&sname, name) {
                    return Ok(Some(off as usize));
                }
            },
        }
        offset = offset + 80;
        k = k + 1;
    }
    Ok(None)
}

/// The kind of a failed lookup.
pub enum LookupFailure {
    Read,
    Parse,
    Malformed,
}

/// `r` is the outcome `spec` describes.
pub open spec fn outcome_is(r: Result<Option<usize>, ModuleReaderError>, spec: Result<Option<u32>, LookupFailure>) -> bool {
    match spec {
        Ok(Some(off)) => r == Ok::<Option<usize>, ModuleReaderError>(Some(off as usize)),
        Ok(None) => r == Ok::<Option<usize>, ModuleReaderError>(None),
        Err(LookupFailure::Read) => r matches Err(ModuleReaderError::ReadModuleMemory(_)),
        Err(LookupFailure::Parse) => r == Err::<Option<usize>, ModuleReaderError>(ModuleReaderError::GoblinParsing),
        Err(LookupFailure::Malformed) => r == Err::<Option<usize>, ModuleReaderError>(ModuleReaderError::MalformedLoadCommand),
    }
}

/// The section found in the segment command at `off` of the module bytes
/// `b`, if it is the `__DATA` segment and every read and parse on the way
/// succeeds.
pub open spec fn segment_hit(b: Seq<u8>, little: bool, off: int, name: Seq<u8>) -> Result<Option<u32>, LookupFailure> {
    if off + SEGMENT_COMMAND_SIZE_64 > b.len() {
        Err(LookupFailure::Read)
    } else {
        match segment_command_of(b.subrange(off, off + SEGMENT_COMMAND_SIZE_64), little) {
            None => Err(LookupFailure::Parse),
            Some((segname, n)) => if segname != data_segment_name() {
                Ok(None)
            } else {
                let start = off + SEGMENT_COMMAND_SIZE_64;
                if start + SECTION_SIZE_64 * n > b.len() {
                    Err(LookupFailure::Read)
                } else {
                    match section_in(b.subrange(start, start + SECTION_SIZE_64 * n), n as int, little, name, 0) {
                        Ok(x) => Ok(x),
                        Err(()) => Err(LookupFailure::Parse),
                    }
                }
            },
        }
    }
}

/// The walk over the load commands from `off` to `end` of the module bytes
/// `b`.
pub open spec fn commands_from(b: Seq<u8>, little: bool, off: int, end: int, name: Seq<u8>) -> Result<Option<u32>, LookupFailure>
    decreases end - off,
{
    if off >= end {
        Ok(None)
    } else if off + LOAD_COMMAND_SIZE > b.len() {
        Err(LookupFailure::Read)
    } else {
        match load_command_of(b.subrange(off, off + LOAD_COMMAND_SIZE), little) {
            None => Err(LookupFailure::Parse),
            Some((cmd, size)) => {
                let hit = if cmd == LC_SEGMENT_64 {
                    segment_hit(b, little, off, name)
                } else {
                    Ok(None)
                };
                if hit matches Ok(Some(_)) {
                    hit
                } else if size == 0 {
                    Err(LookupFailure::Malformed)
                } else if off + size >= end {
                    Ok(None)
                } else {
                    commands_from(b, little, off + size, end, name)
                }
            },
        }
    }
}

/// Reads the sections of a 64-bit Mach-O module through its memory.
pub struct ModuleReader<'a> {
    module_memory: ModuleMemory<'a>,
    header: MachHeaderInfo,
    little_endian: bool,
}

impl<'a> ModuleReader<'a> {
    /// The header the reader parsed.
    pub closed spec fn header_view(&self) -> MachHeaderInfo {
        self.header
    }

    /// Whether the module is little-endian.
    pub closed spec fn little_view(&self) -> bool {
        self.little_endian
    }

    /// The module's bytes, if they are a local buffer.
    pub closed spec fn slice_view(&self) -> Option<Seq<u8>> {
        match self.module_memory {
            ModuleMemory::Slice(s) => Some(s@),
            _ => None,
        }
    }

    /// Reads and parses the module's header (its first 32 bytes).
    pub fn new(module_memory: ModuleMemory<'a>) -> (r: Result<Self, ModuleReaderError>)
        ensures
            module_memory matches ModuleMemory::Slice(s) ==> {
                let h = s@.subrange(0, HEADER_SIZE_64 as int);
                if s@.len() < HEADER_SIZE_64 {
                    r matches Err(ModuleReaderError::ReadModuleMemory(_))
                } else {
                    match macho_context_of(h) {
                        Err(()) => r == Err::<Self, ModuleReaderError>(ModuleReaderError::GoblinParsing),
                        Ok(None) => r == Err::<Self, ModuleReaderError>(ModuleReaderError::MissingCtx),
                        Ok(Some((big, little))) => match macho_header_of(h, big, little) {
                            None => r == Err::<Self, ModuleReaderError>(ModuleReaderError::GoblinParsing),
                            Some(hd) => r matches Ok(m) && m.header_view() == hd && m.little_view() == little,
                        },
                    }
                }
            },
    {
        let mut mm = module_memory;
        let bytes = match mm.read(0, HEADER_SIZE_64) {
            Ok(b) => b,
            Err(e) => {
                return Err(ModuleReaderError::ReadModuleMemory(e));
            },
        };
        let (big, little) = match macho_context(bytes.as_slice()) {
            Ok(Some(c)) => c,
            Ok(None) => {
                return Err(ModuleReaderError::MissingCtx);
            },
            Err(()) => {
                return Err(ModuleReaderError::GoblinParsing);
            },
        };
        let header = match macho_header(bytes.as_slice(), big, little) {
            Some(h) => h,
            None => {
                return Err(ModuleReaderError::GoblinParsing);
            },
        };
        Ok(ModuleReader { module_memory: mm, header, little_endian: little })
    }

    /// The file offset of the section named `section_name` in the `__DATA`
    /// segment. Only 64-bit executables and dynamic libraries are searched;
    /// for anything else the answer is `None`.
    pub fn find_section(&mut self, section_name: &[u8; 16]) -> (r: Result<
        Option<usize>,
        ModuleReaderError,
    >)
        ensures
            !(old(self).header_view().magic == MH_MAGIC_64 && (old(self).header_view().filetype
                == MH_EXECUTE || old(self).header_view().filetype == MH_DYLIB)) ==> r == Ok::<
                Option<usize>,
                ModuleReaderError,
            >(None),
            old(self).header_view().magic == MH_MAGIC_64 && (old(self).header_view().filetype
                == MH_EXECUTE || old(self).header_view().filetype == MH_DYLIB) ==> match old(
                self).slice_view() {
                Some(b) => outcome_is(
                    r,
                    commands_from(
                        b,
                        old(self).little_view(),
                        HEADER_SIZE_64 as int,
                        HEADER_SIZE_64 + old(self).header_view().sizeofcmds,
                        section_name@,
                    ),
                ),
                None => true,
            },
    {
        if !(self.header.magic == MH_MAGIC_64 && (self.header.filetype == MH_EXECUTE
            || self.header.filetype == MH_DYLIB)) {
            return Ok(None);
        }
        let mut offset: u64 = HEADER_SIZE_64;
        let end: u64 = HEADER_SIZE_64 + self.header.sizeofcmds as u64;
        while offset < end
            invariant
                end <= HEADER_SIZE_64 + u32::MAX,
                end == HEADER_SIZE_64 + self.header.sizeofcmds,
                HEADER_SIZE_64 <= offset,
                self.header == old(self).header,
                self.little_endian == old(self).little_endian,
                self.slice_view() == old(self).slice_view(),
                match self.slice_view() {
                    Some(b) => commands_from(
                        b,
                        self.little_endian,
                        HEADER_SIZE_64 as int,
                        end as int,
                        section_name@,
                    ) == commands_from(b, self.little_endian, offset as int, end as int, section_name@),
                    None => true,
                },
                self.header.magic == MH_MAGIC_64 && (self.header.filetype == MH_EXECUTE
                    || self.header.filetype == MH_DYLIB),
            decreases end - offset,
        {
            let bytes = match self.module_memory.read(offset, LOAD_COMMAND_SIZE) {
                Ok(b) => b,
                Err(e) => {
                    return Err(ModuleReaderError::ReadModuleMemory(e));
                },
            };
            let (cmd, cmdsize) = match load_command(bytes.as_slice(), self.little_endian) {
                Some(c) => c,
                None => {
                    return Err(ModuleReaderError::GoblinParsing);
                },
            };
            if cmd == LC_SEGMENT_64 {
                if let Ok(Some(found)) = self.find_section_in_segment(offset, section_name) {
                    return Ok(Some(found));
                }
            }
            if cmdsize == 0 {
                return Err(ModuleReaderError::MalformedLoadCommand);
            }
            let next = offset + cmdsize as u64;
            if next >= end {
                return Ok(None);
            }
            offset = next;
        }
        Ok(None)
    }

    /// The file offset of the section named `section_name`, if the
    /// segment command at `segment_offset` is the `__DATA` segment and holds
    /// it.
    fn find_section_in_segment(&mut self, segment_offset: u64, section_name: &[u8; 16]) -> (r:
        Result<Option<usize>, ModuleReaderError>)
        requires
            segment_offset <= HEADER_SIZE_64 + u32::MAX,
        ensures
            final(self).header == old(self).header,
            final(self).little_endian == old(self).little_endian,
            final(self).slice_view() == old(self).slice_view(),
            match old(self).slice_view() {
                Some(b) => outcome_is(
                    r,
                    segment_hit(b, old(self).little_endian, segment_offset as int, section_name@),
                ),
                None => true,
            },
    {
        let bytes = match self.module_memory.read(segment_offset, SEGMENT_COMMAND_SIZE_64) {
            Ok(b) => b,
            Err(e) => {
                return Err(ModuleReaderError::ReadModuleMemory(e));
            },
        };
        let (segname, nsects) = match segment_command(bytes.as_slice(), self.little_endian) {
            Some(s) => s,
            None => {
                return Err(ModuleReaderError::GoblinParsing);
            },
        };
        if !is_data_segment(&segname) {
            return Ok(None);
        }
        let sections_offset = segment_offset + SEGMENT_COMMAND_SIZE_64;
        let sections = match self.module_memory.read(sections_offset, SECTION_SIZE_64 * nsects as u64) {
            Ok(b) => b,
            Err(e) => {
                return Err(ModuleReaderError::ReadModuleMemory(e));
            },
        };
        find_in_sections(&sections, nsects, self.little_endian, section_name)
    }
}

/// Whether `name` is `__DATA`, zero-padded.
fn is_data_segment(name: &[u8; 16]) -> (r: bool)
    ensures
        r == (name@ == data_segment_name()),
{
    let data: [u8; 16] = [0x5f, 0x5f, 0x44, 0x41, 0x54, 0x41, 0, 0, 0, 0, 0, 0, 0, 0, 0, 0];
    assert(data@ =~= data_segment_name());
    name16_eq(name, &data)
}

} // verus!
