use minidump_writer::elf_id::{
    elf_file_identifier_from_mapped_file, identifier_from_parts, ElfNote, ElfSection,
    IdentifierError,
};
use minidump_writer::linux_ptrace_dumper::LinuxPtraceDumper;

fn put16(v: &mut Vec<u8>, x: u16) {
    v.extend_from_slice(&x.to_le_bytes());
}
fn put32(v: &mut Vec<u8>, x: u32) {
    v.extend_from_slice(&x.to_le_bytes());
}
fn put64(v: &mut Vec<u8>, x: u64) {
    v.extend_from_slice(&x.to_le_bytes());
}

fn elf_header(phnum: u16, shoff: u64, shnum: u16, shstrndx: u16) -> Vec<u8> {
    let mut v = vec![0x7f, b'E', b'L', b'F', 2, 1, 1, 0, 0, 0, 0, 0, 0, 0, 0, 0];
    put16(&mut v, 2); // ET_EXEC
    put16(&mut v, 0x3e); // x86-64
    put32(&mut v, 1);
    put64(&mut v, 0); // entry
    put64(&mut v, if phnum > 0 { 64 } else { 0 }); // phoff
    put64(&mut v, shoff);
    put32(&mut v, 0);
    put16(&mut v, 64);
    put16(&mut v, 56);
    put16(&mut v, phnum);
    put16(&mut v, 64);
    put16(&mut v, shnum);
    put16(&mut v, shstrndx);
    v
}

/// An ELF whose only program header is a `PT_NOTE` holding a GNU build id.
fn elf_with_build_id(desc: &[u8]) -> Vec<u8> {
    let mut v = elf_header(1, 0, 0, 0);
    let note_off = 64 + 56;
    let note_len = 12 + 4 + desc.len();
    put32(&mut v, 4); // PT_NOTE
    put32(&mut v, 4);
    put64(&mut v, note_off as u64);
    put64(&mut v, 0);
    put64(&mut v, 0);
    put64(&mut v, note_len as u64);
    put64(&mut v, note_len as u64);
    put64(&mut v, 4);
    put32(&mut v, 4);
    put32(&mut v, desc.len() as u32);
    put32(&mut v, 3); // NT_GNU_BUILD_ID
    v.extend_from_slice(b"GNU\0");
    v.extend_from_slice(desc);
    v
}

fn section_header(v: &mut Vec<u8>, name: u32, sh_type: u32, flags: u64, offset: u64, size: u64) {
    put32(v, name);
    put32(v, sh_type);
    put64(v, flags);
    put64(v, 0);
    put64(v, offset);
    put64(v, size);
    put32(v, 0);
    put32(v, 0);
    put64(v, 1);
    put64(v, 0);
}

/// An ELF with no notes and one allocated, executable program section of
/// 4 KiB filled with `fill`.
fn elf_with_text(fill: u8) -> Vec<u8> {
    let text_off = 64u64;
    let strtab_off = text_off + 4096;
    let strtab = b"\0.text\0.shstrtab\0";
    let shoff = strtab_off + strtab.len() as u64;
    let mut v = elf_header(0, shoff, 3, 2);
    v.extend_from_slice(&vec![fill; 4096]);
    v.extend_from_slice(strtab);
    section_header(&mut v, 0, 0, 0, 0, 0);
    section_header(&mut v, 1, 1, 2 | 4, text_off, 4096);
    section_header(&mut v, 7, 3, 0, strtab_off, strtab.len() as u64);
    v
}

#[test]
fn build_id_note_is_the_identity() {
    let desc: Vec<u8> = (1..=20).collect();
    let elf = elf_with_build_id(&desc);
    assert_eq!(elf_file_identifier_from_mapped_file(&elf), Ok(desc));
}

#[test]
fn without_a_note_the_text_section_is_folded() {
    // 256 equal blocks cancel out under XOR.
    let elf = elf_with_text(0xAA);
    assert_eq!(elf_file_identifier_from_mapped_file(&elf), Ok(vec![0u8; 16]));
}

#[test]
fn garbage_does_not_parse() {
    assert_eq!(
        elf_file_identifier_from_mapped_file(&[1, 2, 3, 4]),
        Err(IdentifierError::ParseFailure)
    );
}

fn note(t: u32, d: &[u8]) -> ElfNote {
    ElfNote { n_type: t, desc: d.to_vec() }
}

fn text(offset: u64, size: u64) -> ElfSection {
    ElfSection { sh_type: 1, sh_flags: 6, sh_offset: offset, sh_size: size }
}

#[test]
fn segment_notes_come_before_section_notes() {
    let seg = vec![note(1, &[9]), note(3, &[1, 2])];
    let sec = vec![note(3, &[3, 4])];
    assert_eq!(identifier_from_parts(&seg, &sec, &vec![], &[]), Ok(vec![1, 2]));
    assert_eq!(identifier_from_parts(&vec![note(1, &[9])], &sec, &vec![], &[]), Ok(vec![3, 4]));
}

#[test]
fn fold_of_the_first_page_of_text() {
    let mut bytes = vec![0u8; 16];
    for i in 0..4096usize {
        bytes.push((i % 251) as u8);
    }
    let mut expected = [0u8; 16];
    for i in 0..4096usize {
        expected[i % 16] ^= (i % 251) as u8;
    }
    let data = ElfSection { sh_type: 1, sh_flags: 2, sh_offset: 0, sh_size: 4096 };
    let secs = vec![data, text(16, 4096)];
    assert_eq!(identifier_from_parts(&vec![], &vec![], &secs, &bytes), Ok(expected.to_vec()));
}

#[test]
fn text_section_errors() {
    let bytes = vec![0u8; 5000];
    assert_eq!(
        identifier_from_parts(&vec![], &vec![], &vec![text(0, 100)], &bytes),
        Err(IdentifierError::TextSectionTooSmall)
    );
    assert_eq!(
        identifier_from_parts(&vec![], &vec![], &vec![text(4000, 4096)], &bytes),
        Err(IdentifierError::TextSectionTooSmall)
    );
    let data = ElfSection { sh_type: 1, sh_flags: 2, sh_offset: 0, sh_size: 4096 };
    assert_eq!(
        identifier_from_parts(&vec![], &vec![], &vec![data], &bytes),
        Err(IdentifierError::NoBuildId)
    );
}

#[test]
fn mapping_under_dev_has_no_identity() {
    let maps = "00400000-00401000 r--s 00000000 00:05 1 /dev/zero\n00500000-00501000 r-xp 00000000 00:05 2 /bin/x\n";
    let d = LinuxPtraceDumper::new(1, &[0u8; 16], &Vec::new(), maps.as_bytes());
    assert_eq!(d.elf_identifier_for_mapping_index(0, &[]), Err(IdentifierError::UnsafeToOpen));
    let desc = vec![5u8; 8];
    assert_eq!(d.elf_identifier_for_mapping_index(1, &elf_with_build_id(&desc)), Ok(desc));
}
