//! Sections of a PE module, read from its first page.
use vstd::prelude::*;

use crate::module_memory::{ModuleMemory, ModuleMemoryReadError};

verus! {

/// Bytes of the module read to find its sections.
pub const PE_PAGE_SIZE: u64 = 4096;

/// Size of the PE signature.
pub const SIZEOF_PE_MAGIC: u64 = 4;

/// Size of the COFF file header.
pub const SIZEOF_COFF_HEADER: u64 = 20;

/// What the section lookup reads of a PE header.
#[derive(Clone, Copy, Debug, PartialEq, Eq, Structural)]
pub struct PeHeaderInfo {
    /// Offset of the PE signature.
    pub pe_pointer: u32,
    /// Size of the optional header that precedes the section table.
    pub size_of_optional_header: u16,
}

/// What the section lookup reads of a section table entry.
#[derive(Clone, Copy, Debug, PartialEq, Eq)]
pub struct PeSection {
    pub name: [u8; 8],
    pub virtual_address: u32,
}

/// The header that goblin reads from `b`, if it parses.
pub uninterp spec fn pe_header_of(b: Seq<u8>) -> Option<PeHeaderInfo>;

/// The section table that goblin reads from `b` at `offset`, if it parses.
pub uninterp spec fn pe_sections_of(b: Seq<u8>, offset: int) -> Option<Seq<(Seq<u8>, u32)>>;

/// Relies on `goblin::pe::header::Header::parse`: the DOS header's PE
/// pointer and the COFF header's optional-header size.
#[verifier::external_body]
fn pe_header(bytes: &[u8]) -> (r: Option<PeHeaderInfo>)
    ensures
        r == pe_header_of(bytes@),
{
    goblin::pe::header::Header::parse(bytes).ok().map(
        |h| PeHeaderInfo {
            pe_pointer: h.dos_header.pe_pointer,
            size_of_optional_header: h.coff_header.size_of_optional_header,
        },
    )
}

/// Relies on `goblin::pe::header::CoffHeader::sections`: the section table
/// at `offset`, as many entries as the COFF header gives.
#[verifier::external_body]
fn pe_sections(bytes: &[u8], offset: usize) -> (r: Option<Vec<PeSection>>)
    ensures
        match r {
            Some(v) => pe_sections_of(bytes@, offset as int) == Some(
                v@.map_values(|s: PeSection| (s.name@, s.virtual_address)),
            ),
            None => pe_sections_of(bytes@, offset as int) is None,
        },
{
    let mut off = offset;
    goblin::pe::header::Header::parse(bytes).ok().and_then(
        |h| h.coff_header.sections(bytes, &mut off).ok(),
    ).map(
        |v| v.iter().map(
            |s| PeSection { name: s.name, virtual_address: s.virtual_address },
        ).collect(),
    )
}

/// Why a PE module could not be read.
#[derive(Clone, Copy, Debug, PartialEq, Eq, Structural)]
pub enum ModuleReaderError {
    ReadModuleMemory(ModuleMemoryReadError),
    /// The header or the section table does not parse.
    GoblinParsing,
}

/// Offset of the section table that follows the optional header.
pub open spec fn section_table_offset(h: PeHeaderInfo) -> int {
    h.pe_pointer + SIZEOF_PE_MAGIC + SIZEOF_COFF_HEADER + h.size_of_optional_header
}

/// Index of the first section named `name`.
pub open spec fn first_named(secs: Seq<(Seq<u8>, u32)>, name: Seq<u8>, k: int) -> Option<int>
    decreases secs.len() - k,
{
    if k < 0 || k >= secs.len() {
        None
    } else if secs[k].0 == name {
        Some(k)
    } else {
        first_named(secs, name, k + 1)
    }
}

/// The virtual address of the first section named `name` in the page `b`,
/// `Ok(None)` if none is, `Err` if the page does not parse.
pub open spec fn pe_find_section(b: Seq<u8>, name: Seq<u8>) -> Result<Option<u32>, ()> {
    match pe_header_of(b) {
        None => Err(()),
        Some(h) => if section_table_offset(h) > usize::MAX {
            Err(())
        } else {
            match pe_sections_of(b, section_table_offset(h)) {
            None => Err(()),
            Some(secs) => match first_named(secs, name, 0) {
                Some(i) => Ok(Some(secs[i].1)),
                None => Ok(None),
            },
        }},
    }
}

/// Whether two 8-byte names are equal.
fn name8_eq(a: &[u8; 8], b: &[u8; 8]) -> (r: bool)
    ensures
        r == (a@ == b@),
{
    let mut i: usize = 0;
    while i < 8
        invariant
            i <= 8,
            a@.len() == 8,
            b@.len() == 8,
            forall|j: int| 0 <= j < i ==> a@[j] == b@[j],
        decreases 8 - i,
    {
        if a[i] != b[i] {
            assert(a@[i as int] != b@[i as int]);
            return false;
        }
        i = i + 1;
    }
    assert(a@ =~= b@);
    true
}

/// Reads the sections of a PE module from its first page.
pub struct ModuleReader {
    first_page: Vec<u8>,
}

impl ModuleReader {
    /// The bytes the reader holds.
    pub closed spec fn page(&self) -> Seq<u8> {
        self.first_page@
    }

    /// Reads the first page of the module.
    pub fn new(module_memory: ModuleMemory) -> (r: Result<Self, ModuleReaderError>)
        ensures
            match module_memory {
                ModuleMemory::Slice(s) => match r {
                    Ok(m) => PE_PAGE_SIZE <= s@.len() && m.page() == s@.subrange(
                        0,
                        PE_PAGE_SIZE as int,
                    ),
                    Err(_) => PE_PAGE_SIZE > s@.len(),
                },
                ModuleMemory::Process { .. } => r matches Ok(m) ==> m.page().len()
                    <= PE_PAGE_SIZE,
            },
    {
        let mut mm = module_memory;
        match mm.read(0, PE_PAGE_SIZE) {
            Ok(bytes) => Ok(ModuleReader { first_page: bytes }),
            Err(e) => Err(ModuleReaderError::ReadModuleMemory(e)),
        }
    }

    /// The virtual address of the section named `section_name`.
    pub fn find_section(&self, section_name: &[u8; 8]) -> (r: Result<Option<usize>, ModuleReaderError>)
        ensures
            match pe_find_section(self.page(), section_name@) {
                Ok(Some(va)) => r == Ok::<Option<usize>, ModuleReaderError>(Some(va as usize)),
                Ok(None) => r == Ok::<Option<usize>, ModuleReaderError>(None),
                Err(()) => r == Err::<Option<usize>, ModuleReaderError>(
                    ModuleReaderError::GoblinParsing,
                ),
            },
    {
        let header = match pe_header(self.first_page.as_slice()) {
            Some(h) => h,
            None => {
                return Err(ModuleReaderError::GoblinParsing);
            },
        };
        let offset: u64 = header.pe_pointer as u64 + SIZEOF_PE_MAGIC + SIZEOF_COFF_HEADER
            + header.size_of_optional_header as u64;
        if offset > usize::MAX as u64 {
            return Err(ModuleReaderError::GoblinParsing);
        }
        let sections = match pe_sections(self.first_page.as_slice(), offset as usize) {
            Some(v) => v,
            None => {
                return Err(ModuleReaderError::GoblinParsing);
            },
        };
        let ghost secs = sections@.map_values(|s: PeSection| (s.name@, s.virtual_address));
        let mut k: usize = 0;
        while k < sections.len()
            invariant
                k <= sections@.len(),
                secs == sections@.map_values(|s: PeSection| (s.name@, s.virtual_address)),
                pe_header_of(self.page()) == Some(header),
                section_table_offset(header) == offset as int,
                offset <= usize::MAX,
                pe_sections_of(self.page(), offset as int) == Some(secs),
                first_named(secs, section_name@, 0) == first_named(secs, section_name@, k as int),
            decreases sections@.len() - k,
        {
            if name8_eq(&sections[k].name, section_name) {
                return Ok(Some(sections[k].virtual_address as usize));
            }
            k = k + 1;
        }
        Ok(None)
    }
}

} // verus!
