//! The build identity of an ELF module, from its bytes.
use vstd::prelude::*;

use crate::bytes::copy_range;

verus! {

/// Note type of a GNU build identifier.
pub const NT_GNU_BUILD_ID: u32 = 3;

/// Section type of program data.
pub const SHT_PROGBITS: u32 = 1;

/// Section flag: occupies memory at run time.
pub const SHF_ALLOC: u64 = 2;

/// Section flag: holds executable instructions.
pub const SHF_EXECINSTR: u64 = 4;

/// Size in bytes of an identity derived from the text section.
pub const IDENTIFIER_SIZE: usize = 16;

/// Bytes of the text section folded into a derived identity.
pub const TEXT_HASH_LEN: usize = 4096;

/// What the identity lookup reads of a section header.
#[derive(Clone, Copy, Debug, PartialEq, Eq, Structural)]
pub struct ElfSection {
    pub sh_type: u32,
    pub sh_flags: u64,
    pub sh_offset: u64,
    pub sh_size: u64,
}

/// A note: its type and its descriptor.
#[derive(Clone, Debug)]
pub struct ElfNote {
    pub n_type: u32,
    pub desc: Vec<u8>,
}

/// The section headers that goblin reads from ELF bytes `b`, or `None` if
/// it cannot parse them.
pub uninterp spec fn elf_sections_of(b: Seq<u8>) -> Option<Seq<ElfSection>>;

/// The notes of the `PT_NOTE` segments that goblin reads from `b`, up to
/// the first malformed one.
pub uninterp spec fn elf_segment_notes_of(b: Seq<u8>) -> Seq<(u32, Seq<u8>)>;

/// The notes of the `.note.gnu.build-id` sections that goblin reads from
/// `b`, up to the first malformed one.
pub uninterp spec fn elf_build_id_section_notes_of(b: Seq<u8>) -> Seq<(u32, Seq<u8>)>;

/// The views of notes.
pub open spec fn notes_view(v: Seq<ElfNote>) -> Seq<(u32, Seq<u8>)> {
    v.map_values(|n: ElfNote| (n.n_type, n.desc@))
}

/// Relies on `goblin::elf::Elf::parse`: its section headers, or `None`
/// when the bytes do not parse as ELF.
#[verifier::external_body]
fn elf_sections(bytes: &[u8]) -> (r: Option<Vec<ElfSection>>)
    ensures
        match r {
            Some(v) => elf_sections_of(bytes@) == Some(v@),
            None => elf_sections_of(bytes@) is None,
        },
{
    goblin::elf::Elf::parse(bytes).ok().map(
        |elf| elf.section_headers.iter().map(
            |h| ElfSection {
                sh_type: h.sh_type,
                sh_flags: h.sh_flags,
                sh_offset: h.sh_offset,
                sh_size: h.sh_size,
            },
        ).collect(),
    )
}

/// Relies on `goblin::elf::Elf::iter_note_headers`: the notes of the
/// `PT_NOTE` segments, up to the first one that does not parse.
#[verifier::external_body]
fn elf_segment_notes(bytes: &[u8]) -> (r: Vec<ElfNote>)
    ensures
        notes_view(r@) == elf_segment_notes_of(bytes@),
{
    match goblin::elf::Elf::parse(bytes).ok().and_then(|elf| elf.iter_note_headers(bytes)) {
        Some(notes) => notes.map_while(|n| n.ok()).map(
            |n| ElfNote { n_type: n.n_type, desc: n.desc.to_vec() },
        ).collect(),
        None => Vec::new(),
    }
}

/// Relies on `goblin::elf::Elf::iter_note_sections`: the notes of the
/// sections named `.note.gnu.build-id`, up to the first one that does not
/// parse.
#[verifier::external_body]
fn elf_build_id_section_notes(bytes: &[u8]) -> (r: Vec<ElfNote>)
    ensures
        notes_view(r@) == elf_build_id_section_notes_of(bytes@),
{
    match goblin::elf::Elf::parse(bytes).ok().and_then(
        |elf| elf.iter_note_sections(bytes, Some(".note.gnu.build-id")),
    ) {
        Some(notes) => notes.map_while(|n| n.ok()).map(
            |n| ElfNote { n_type: n.n_type, desc: n.desc.to_vec() },
        ).collect(),
        None => Vec::new(),
    }
}

/// Why no identity could be had.
#[derive(Clone, Copy, Debug, PartialEq, Eq, Structural)]
pub enum IdentifierError {
    /// The bytes do not parse as ELF.
    ParseFailure,
    /// No build-id note and no executable program section.
    NoBuildId,
    /// The text section is shorter than 4 KiB or runs past the bytes.
    TextSectionTooSmall,
    /// The mapping must not be opened (it lives under `/dev/`).
    UnsafeToOpen,
}

/// The descriptor of the first build-id note.
pub open spec fn first_build_id(notes: Seq<(u32, Seq<u8>)>) -> Option<Seq<u8>>
    decreases notes.len(),
{
    if notes.len() == 0 {
        None
    } else if notes[0].0 == NT_GNU_BUILD_ID {
        Some(notes[0].1)
    } else {
        first_build_id(notes.drop_first())
    }
}

/// The section is allocated, executable program data.
pub open spec fn is_text(s: ElfSection) -> bool {
    s.sh_type == SHT_PROGBITS && s.sh_flags & SHF_ALLOC != 0 && s.sh_flags & SHF_EXECINSTR != 0
}

/// Index of the first text section from `k` on.
pub open spec fn first_text_from(secs: Seq<ElfSection>, k: int) -> Option<int>
    decreases secs.len() - k,
{
    if k < 0 || k >= secs.len() {
        None
    } else if is_text(secs[k]) {
        Some(k)
    } else {
        first_text_from(secs, k + 1)
    }
}

/// Byte `j` of the fold of the first `n` blocks of 16 bytes at `off`.
pub open spec fn fold_byte(b: Seq<u8>, off: int, j: int, n: int) -> u8
    decreases n,
{
    if n <= 0 {
        0
    } else {
        fold_byte(b, off, j, n - 1) ^ b[off + 16 * (n - 1) + j]
    }
}

/// The 4 KiB at `off`, XOR-folded into 16 bytes.
pub open spec fn text_fold(b: Seq<u8>, off: int) -> Seq<u8> {
    Seq::new(16, |j: int| fold_byte(b, off, j, 256))
}

/// The identity of a module from what goblin read of it: the first
/// build-id note of its segments, else of its build-id sections, else the
/// fold of the first 4 KiB of its first text section.
pub open spec fn identifier_of(
    seg: Seq<(u32, Seq<u8>)>,
    sec: Seq<(u32, Seq<u8>)>,
    sections: Seq<ElfSection>,
    b: Seq<u8>,
) -> Result<Seq<u8>, IdentifierError> {
    match first_build_id(seg) {
        Some(d) => Ok(d),
        None => match first_build_id(sec) {
            Some(d) => Ok(d),
            None => match first_text_from(sections, 0) {
                Some(i) => {
                    let s = sections[i];
                    if s.sh_size >= TEXT_HASH_LEN && s.sh_offset + TEXT_HASH_LEN <= b.len() {
                        Ok(text_fold(b, s.sh_offset as int))
                    } else {
                        Err(IdentifierError::TextSectionTooSmall)
                    }
                },
                None => Err(IdentifierError::NoBuildId),
            },
        },
    }
}

/// The descriptor of the first build-id note.
fn find_build_id(notes: &Vec<ElfNote>) -> (r: Option<&Vec<u8>>)
    ensures
        match first_build_id(notes_view(notes@)) {
            Some(d) => r matches Some(v) && v@ == d,
            None => r is None,
        },
{
    let ghost nv = notes_view(notes@);
    assert(nv.subrange(0, nv.len() as int) =~= nv);
    let mut k: usize = 0;
    while k < notes.len()
        invariant
            k <= notes@.len(),
            nv == notes_view(notes@),
            first_build_id(nv) == first_build_id(nv.subrange(k as int, nv.len() as int)),
        decreases notes@.len() - k,
    {
        proof {
            assert(nv.subrange(k as int, nv.len() as int).drop_first() =~= nv.subrange(
                k + 1,
                nv.len() as int,
            ));
        }
        if notes[k].n_type == NT_GNU_BUILD_ID {
            return Some(&notes[k].desc);
        }
        k = k + 1;
    }
    None
}

/// Index of the first text section.
fn find_text_section(sections: &Vec<ElfSection>) -> (r: Option<usize>)
    ensures
        match r {
            Some(i) => first_text_from(sections@, 0) == Some(i as int) && i < sections@.len(),
            None => first_text_from(sections@, 0) is None,
        },
{
    let mut k: usize = 0;
    while k < sections.len()
        invariant
            k <= sections@.len(),
            first_text_from(sections@, 0) == first_text_from(sections@, k as int),
        decreases sections@.len() - k,
    {
        let s = sections[k];
        if s.sh_type == SHT_PROGBITS && s.sh_flags & SHF_ALLOC != 0 && s.sh_flags & SHF_EXECINSTR
            != 0 {
            return Some(k);
        }
        k = k + 1;
    }
    None
}

/// XOR-folds the 4 KiB at `off` into 16 bytes.
fn fold_text(bytes: &[u8], off: usize) -> (r: Vec<u8>)
    requires
        off + TEXT_HASH_LEN <= bytes@.len(),
    ensures
        r@ == text_fold(bytes@, off as int),
{
    let mut result: Vec<u8> = vec![0u8; IDENTIFIER_SIZE];
    let blen = bytes.len();
    let mut n: usize = 0;
    while n < 256
        invariant
            blen == bytes@.len(),
            n <= 256,
            off + TEXT_HASH_LEN <= bytes@.len(),
            result@.len() == 16,
            forall|j: int| 0 <= j < 16 ==> #[trigger] result@[j] == fold_byte(bytes@, off as int, j, n as int),
        decreases 256 - n,
    {
        let mut j: usize = 0;
        while j < IDENTIFIER_SIZE
            invariant
                blen == bytes@.len(),
                j <= 16,
                n < 256,
                off + TEXT_HASH_LEN <= bytes@.len(),
                result@.len() == 16,
                forall|i: int| 0 <= i < j ==> #[trigger] result@[i] == fold_byte(bytes@, off as int, i, n + 1),
                forall|i: int| j <= i < 16 ==> #[trigger] result@[i] == fold_byte(bytes@, off as int, i, n as int),
            decreases 16 - j,
        {
            assert(16 * n + j < 4096) by (nonlinear_arith)
                requires
                    n < 256,
                    j < 16,
            ;
            let x = result[j] ^ bytes[off + 16 * n + j];
            result.set(j, x);
            j = j + 1;
        }
        n = n + 1;
    }
    assert(result@ =~= text_fold(bytes@, off as int));
    result
}

/// The identity of a module from what goblin read of it (see
/// `identifier_of`).
pub fn identifier_from_parts(
    segment_notes: &Vec<ElfNote>,
    section_notes: &Vec<ElfNote>,
    sections: &Vec<ElfSection>,
    bytes: &[u8],
) -> (r: Result<Vec<u8>, IdentifierError>)
    ensures
        match r {
            Ok(v) => identifier_of(notes_view(segment_notes@), notes_view(section_notes@), sections@, bytes@)
                == Ok::<Seq<u8>, IdentifierError>(v@),
            Err(e) => identifier_of(notes_view(segment_notes@), notes_view(section_notes@), sections@, bytes@)
                == Err::<Seq<u8>, IdentifierError>(e),
        },
{
    if let Some(d) = find_build_id(segment_notes) {
        let v = copy_range(d.as_slice(), 0, d.len());
        assert(v@ =~= d@);
        return Ok(v);
    }
    if let Some(d) = find_build_id(section_notes) {
        let v = copy_range(d.as_slice(), 0, d.len());
        assert(v@ =~= d@);
        return Ok(v);
    }
    match find_text_section(sections) {
        Some(i) => {
            let s = sections[i];
            if s.sh_size >= TEXT_HASH_LEN as u64 && s.sh_offset <= bytes.len() as u64 && bytes.len() as u64 - s.sh_offset >= TEXT_HASH_LEN as u64 {
                Ok(fold_text(bytes, s.sh_offset as usize))
            } else {
                Err(IdentifierError::TextSectionTooSmall)
            }
        },
        None => Err(IdentifierError::NoBuildId),
    }
}

/// `r` is the identity of the module whose bytes are `b`: a parse failure
/// if goblin cannot read its section headers, else `identifier_of` what
/// goblin read.
pub open spec fn identity_result(b: Seq<u8>, r: Result<Seq<u8>, IdentifierError>) -> bool {
    match elf_sections_of(b) {
        None => r == Err::<Seq<u8>, IdentifierError>(IdentifierError::ParseFailure),
        Some(sections) => r == identifier_of(
            elf_segment_notes_of(b),
            elf_build_id_section_notes_of(b),
            sections,
            b,
        ),
    }
}

/// A module's identity depends on its bytes alone: the same bytes, read
/// on two runs, give the same identity.
pub proof fn lemma_identity_repeatable(
    b: Seq<u8>,
    r1: Result<Seq<u8>, IdentifierError>,
    r2: Result<Seq<u8>, IdentifierError>,
)
    requires
        identity_result(b, r1),
        identity_result(b, r2),
    ensures
        r1 == r2,
{
}

/// The build identity of the ELF module whose bytes are `bytes`: its
/// build-id note, or else a fold of the first 4 KiB of its text section.
pub fn elf_file_identifier_from_mapped_file(bytes: &[u8]) -> (r: Result<Vec<u8>, IdentifierError>)
    ensures
        identity_result(
            bytes@,
            match r {
                Ok(v) => Ok(v@),
                Err(e) => Err(e),
            },
        ),
{
    let sections = match elf_sections(bytes) {
        Some(s) => s,
        None => {
            return Err(IdentifierError::ParseFailure);
        },
    };
    let segment_notes = elf_segment_notes(bytes);
    let section_notes = elf_build_id_section_notes(bytes);
    identifier_from_parts(&segment_notes, &section_notes, &sections, bytes)
}

} // verus!
