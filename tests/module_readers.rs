use minidump_writer::macho;
use minidump_writer::module_lookup::{
    find_module_start, image_name_matches, module_list_step, module_name_matches, ModuleListStep,
};
use minidump_writer::module_memory::{ModuleMemory, ReadError};
use minidump_writer::pe;
use minidump_writer::process_reader::ProcessReader;

fn put16(v: &mut Vec<u8>, x: u16) {
    v.extend_from_slice(&x.to_le_bytes());
}
fn put32(v: &mut Vec<u8>, x: u32) {
    v.extend_from_slice(&x.to_le_bytes());
}
fn put64(v: &mut Vec<u8>, x: u64) {
    v.extend_from_slice(&x.to_le_bytes());
}

fn pe_image() -> Vec<u8> {
    let mut v = vec![0u8; 4096];
    v[0] = b'M';
    v[1] = b'Z';
    v[0x3c..0x40].copy_from_slice(&0x80u32.to_le_bytes());
    let mut h = Vec::new();
    h.extend_from_slice(b"PE\0\0");
    put16(&mut h, 0x8664);
    put16(&mut h, 2); // sections
    put32(&mut h, 0);
    put32(&mut h, 0);
    put32(&mut h, 0);
    put16(&mut h, 0); // no optional header
    put16(&mut h, 0x22);
    for (name, va) in [(b".text\0\0\0", 0x1000u32), (b".data\0\0\0", 0x3000u32)] {
        h.extend_from_slice(name);
        put32(&mut h, 0x100);
        put32(&mut h, va);
        put32(&mut h, 0x200);
        put32(&mut h, 0x400);
        put32(&mut h, 0);
        put32(&mut h, 0);
        put16(&mut h, 0);
        put16(&mut h, 0);
        put32(&mut h, 0);
    }
    v[0x80..0x80 + h.len()].copy_from_slice(&h);
    v
}

#[test]
fn pe_section_by_name() {
    let image = pe_image();
    let reader = pe::ModuleReader::new(ModuleMemory::from_slice(&image)).unwrap();
    assert_eq!(reader.find_section(b".data\0\0\0").unwrap(), Some(0x3000));
    assert_eq!(reader.find_section(b".text\0\0\0").unwrap(), Some(0x1000));
    assert_eq!(reader.find_section(b".rdata\0\0").unwrap(), None);
    let short = vec![0u8; 100];
    assert!(pe::ModuleReader::new(ModuleMemory::from_slice(&short)).is_err());
    let junk = vec![0u8; 4096];
    let r = pe::ModuleReader::new(ModuleMemory::from_slice(&junk)).unwrap();
    assert!(matches!(r.find_section(b".data\0\0\0"), Err(pe::ModuleReaderError::GoblinParsing)));
}

fn name16(s: &[u8]) -> [u8; 16] {
    let mut n = [0u8; 16];
    n[..s.len()].copy_from_slice(s);
    n
}

fn macho_image(filetype: u32) -> Vec<u8> {
    let mut v = Vec::new();
    put32(&mut v, 0xfeedfacf);
    put32(&mut v, 0x0100_0007);
    put32(&mut v, 3);
    put32(&mut v, filetype);
    put32(&mut v, 1);
    put32(&mut v, 72 + 80);
    put32(&mut v, 0);
    put32(&mut v, 0);
    put32(&mut v, 0x19);
    put32(&mut v, 72 + 80);
    v.extend_from_slice(&name16(b"__DATA"));
    for _ in 0..4 {
        put64(&mut v, 0);
    }
    put32(&mut v, 3);
    put32(&mut v, 3);
    put32(&mut v, 1); // nsects
    put32(&mut v, 0);
    v.extend_from_slice(&name16(b"__crash_info"));
    v.extend_from_slice(&name16(b"__DATA"));
    put64(&mut v, 0x4000);
    put64(&mut v, 0x40);
    put32(&mut v, 0x1234);
    for _ in 0..7 {
        put32(&mut v, 0);
    }
    v
}

#[test]
fn macho_section_in_data_segment() {
    let image = macho_image(2);
    let mut reader = macho::ModuleReader::new(ModuleMemory::from_slice(&image)).unwrap();
    assert_eq!(reader.find_section(&name16(b"__crash_info")).unwrap(), Some(0x1234));
    assert_eq!(reader.find_section(&name16(b"__other")).unwrap(), None);
    let object = macho_image(1);
    let mut reader = macho::ModuleReader::new(ModuleMemory::from_slice(&object)).unwrap();
    assert_eq!(reader.find_section(&name16(b"__crash_info")).unwrap(), None);
}

#[test]
fn slice_reads_check_their_bounds() {
    let data = [1u8, 2, 3, 4, 5];
    let mut m = ModuleMemory::from_slice(&data);
    assert_eq!(m.read(1, 3).unwrap(), vec![2, 3, 4]);
    assert_eq!(m.read(5, 0).unwrap(), Vec::<u8>::new());
    assert_eq!(m.read(4, 2).unwrap_err().error, ReadError::OutOfBounds);
    let e = m.read(u64::MAX, 2).unwrap_err();
    assert_eq!(e.error, ReadError::Overflow);
    assert_eq!((e.offset, e.length, e.start_address), (u64::MAX, 2, None));
    assert_eq!(m.absolute_to_relative(7), Some(7));
    assert_eq!(m.relative_to_absolute(7), Some(7));
    assert!(!m.is_process_memory());
}

#[test]
fn process_reads_check_their_arguments() {
    let mut reader = ProcessReader::new(-1);
    let mut m = ModuleMemory::from_process(&mut reader, 0x1000);
    assert!(m.is_process_memory());
    assert_eq!(m.absolute_to_relative(0x1800), Some(0x800));
    assert_eq!(m.absolute_to_relative(0x800), None);
    assert_eq!(m.relative_to_absolute(0x10), Some(0x1010));
    assert_eq!(m.relative_to_absolute(u64::MAX), None);
    let e = m.read(0, 0).unwrap_err();
    assert_eq!(e.error, ReadError::ZeroLengthProcessRead);
    assert_eq!(e.start_address, Some(0x1000));
    assert_eq!(m.read(u64::MAX, 1).unwrap_err().error, ReadError::Overflow);
    assert!(matches!(m.read(0, 8).unwrap_err().error, ReadError::CopyError(_)));
}

#[test]
fn unreadable_process_fails_every_read() {
    let mut reader = ProcessReader::new(-1);
    let mut buf = vec![0u8; 16];
    let e = reader.read(0x1000, &mut buf).unwrap_err();
    assert_eq!((e.child, e.src, e.length), (-1, 0x1000, 16));
    let again = reader.read(0x2000, &mut buf).unwrap_err();
    assert_eq!(again.source, e.source);
    assert!(reader.read_all_to_vec(0x1000, 4).is_err());
    assert!(reader.copy_nul_terminated_string(0x1000).is_err());
}

#[test]
fn module_found_by_its_path() {
    let maps = b"00400000-00401000 r-xp 00000000 08:01 1 /usr/bin/prog\n7f0000000000-7f0000001000 r-xp 00000000 08:01 2 /lib/libc.so.6\n";
    let mut reader = ProcessReader::new(-1);
    let found = reader.find_module(maps, &b"/lib/libc.so.6".to_vec()).unwrap();
    assert_eq!(found.relative_to_absolute(0), Some(0x7f0000000000));
    assert!(reader.find_module(maps, &b"libc.so.6".to_vec()).is_err());
    let ms = minidump_writer::maps::parse_maps(maps, 0);
    assert_eq!(find_module_start(&ms, &b"/usr/bin/prog".to_vec()), Some(0x400000));
}

#[test]
fn image_and_module_names() {
    assert!(image_name_matches(&b"/usr/lib/libfoo.dylib".to_vec(), &b"libfoo.dylib".to_vec()));
    assert!(image_name_matches(&b"libfoo.dylib".to_vec(), &b"libfoo.dylib".to_vec()));
    assert!(!image_name_matches(&b"/usr/lib/libfoo.dylib".to_vec(), &b"lib/libfoo.dylib".to_vec()));
    assert!(!image_name_matches(&b"/usr/lib/".to_vec(), &b"lib".to_vec()));
    let a: Vec<u16> = "XUL.dll".encode_utf16().collect();
    let b: Vec<u16> = "xul.DLL".encode_utf16().collect();
    let c: Vec<u16> = "xul.dl".encode_utf16().collect();
    assert!(module_name_matches(&a, &b));
    assert!(!module_name_matches(&a, &c));
}

#[test]
fn module_list_grows_until_it_fits() {
    assert_eq!(module_list_step(800, 1600, true, 8), ModuleListStep::Grow(200));
    assert_eq!(module_list_step(800, 400, false, 8), ModuleListStep::Failed);
    assert_eq!(module_list_step(800, 400, true, 8), ModuleListStep::Done(50));
}
