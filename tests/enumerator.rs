use minidump_writer::auxv::{auxv_get, parse_auxv, AuxvPair, AT_ENTRY, AT_SYSINFO_EHDR};
use minidump_writer::linux_ptrace_dumper::{
    is_mapped_file_safe_to_open, keep_suspended, parse_task_id, DumperError, LinuxPtraceDumper,
    ModuleSource,
};
use minidump_writer::maps::{parse_maps, parse_maps_line};

const MAPS: &str = "\
00400000-00401000 r-xp 00000000 08:01 1234       /usr/bin/prog
00401000-00402000 rw-p 00001000 08:01 1234       /usr/bin/prog
7f0000000000-7f0000010000 r-xp 00000000 08:01 99 /lib/libc.so.6
7fff00000000-7fff00021000 rw-p 00000000 00:00 0  [stack]
7fff00100000-7fff00102000 r-xp 00000000 00:00 0  [vdso]
";

fn auxv_bytes(pairs: &[(u64, u64)]) -> Vec<u8> {
    let mut v = Vec::new();
    for (k, val) in pairs {
        v.extend_from_slice(&k.to_le_bytes());
        v.extend_from_slice(&val.to_le_bytes());
    }
    v.extend_from_slice(&[0u8; 16]);
    v
}

fn dumper(auxv: &[(u64, u64)]) -> LinuxPtraceDumper {
    let tasks = vec![b"100".to_vec(), b"101".to_vec(), b"x".to_vec()];
    LinuxPtraceDumper::new(100, &auxv_bytes(auxv), &tasks, MAPS.as_bytes())
}

#[test]
fn maps_line_fields() {
    let r = parse_maps_line(b"7fe34a863000-7fe34a864000 rw-p 00009000 00:31 4746408   /usr/lib64/libogg.so.0.8.4")
        .unwrap();
    assert_eq!(r.start_address, 0x7fe34a863000);
    assert_eq!(r.end_address, 0x7fe34a864000);
    assert_eq!(r.offset, 0x9000);
    assert!(r.readable && r.writable && !r.executable);
    assert_eq!(r.path.unwrap(), b"/usr/lib64/libogg.so.0.8.4".to_vec());
    let anon = parse_maps_line(b"00400000-00401000 ---p 00000000 00:00 0").unwrap();
    assert!(anon.path.is_none());
    assert!(parse_maps_line(b"00400000 r-xp").is_none());
    assert!(parse_maps_line(b"00401000-00400000 r-xp 00000000 00:00 0").is_none());
    assert!(parse_maps_line(b"").is_none());
}

#[test]
fn adjacent_regions_of_one_file_are_folded() {
    let ms = parse_maps(MAPS.as_bytes(), 0);
    assert_eq!(ms.len(), 4);
    assert_eq!(ms[0].start_address, 0x400000);
    assert_eq!(ms[0].size, 0x2000);
    assert_eq!(ms[0].system_mapping_info.end_address, 0x402000);
    assert!(ms[0].executable);
    assert_eq!(ms[0].name.as_deref(), Some(&b"/usr/bin/prog"[..]));
    assert_eq!(ms[3].name.as_deref(), Some(&b"[vdso]"[..]));
}

#[test]
fn vdso_is_named_linux_gate() {
    let ms = parse_maps(MAPS.as_bytes(), 0x7fff00100000);
    assert_eq!(ms[3].name.as_deref(), Some(&b"linux-gate.so"[..]));
    assert_eq!(ms[3].offset, 0);
}

#[test]
fn regions_out_of_order_are_dropped() {
    let text = "00500000-00600000 r-xp 00000000 00:00 0 /a\n00400000-00450000 r-xp 00000000 00:00 0 /b\n";
    let ms = parse_maps(text.as_bytes(), 0);
    assert_eq!(ms.len(), 1);
}

#[test]
fn auxv_pairs_until_terminator() {
    let mut bytes = auxv_bytes(&[(AT_ENTRY, 0x400100), (AT_SYSINFO_EHDR, 0x7fff00100000)]);
    bytes.extend_from_slice(&auxv_bytes(&[(5, 5)]));
    let v = parse_auxv(&bytes);
    assert_eq!(v, vec![
        AuxvPair { key: AT_ENTRY, value: 0x400100 },
        AuxvPair { key: AT_SYSINFO_EHDR, value: 0x7fff00100000 },
    ]);
    assert_eq!(auxv_get(&v, AT_ENTRY), Some(0x400100));
    assert_eq!(auxv_get(&v, 77), None);
    let repeated = parse_auxv(&auxv_bytes(&[(7, 1), (7, 2)]));
    assert_eq!(auxv_get(&repeated, 7), Some(2));
    assert!(parse_auxv(&[1, 2, 3]).is_empty());
}

#[test]
fn task_entries_parse_as_thread_ids() {
    assert_eq!(parse_task_id(&b"123".to_vec()), Some(123));
    assert_eq!(parse_task_id(&b"+7".to_vec()), Some(7));
    assert_eq!(parse_task_id(&b"-5".to_vec()), Some(-5));
    assert_eq!(parse_task_id(&b"2147483647".to_vec()), Some(i32::MAX));
    assert_eq!(parse_task_id(&b"-2147483648".to_vec()), Some(i32::MIN));
    assert_eq!(parse_task_id(&b"2147483648".to_vec()), None);
    assert_eq!(parse_task_id(&b"99999999999999999999".to_vec()), None);
    assert_eq!(parse_task_id(&b"12a".to_vec()), None);
    assert_eq!(parse_task_id(&b"-".to_vec()), None);
    assert_eq!(parse_task_id(&b"".to_vec()), None);
}

#[test]
fn dumper_reads_threads_auxv_and_mappings() {
    let d = dumper(&[(AT_SYSINFO_EHDR, 0x7fff00100000)]);
    assert_eq!(d.threads, vec![100, 101]);
    assert_eq!(d.mappings.len(), 4);
    assert_eq!(d.mappings[3].name.as_deref(), Some(&b"linux-gate.so"[..]));
    assert!(!d.threads_suspended);
}

#[test]
fn mapping_holding_the_entry_point_comes_first() {
    let d = dumper(&[(AT_ENTRY, 0x7f0000000100)]);
    assert_eq!(d.mappings[0].name.as_deref(), Some(&b"/lib/libc.so.6"[..]));
    assert_eq!(d.mappings[1].name.as_deref(), Some(&b"/usr/bin/prog"[..]));
    let same = dumper(&[(AT_ENTRY, 0x400100)]);
    assert_eq!(same.mappings[0].name.as_deref(), Some(&b"/usr/bin/prog"[..]));
}

#[test]
fn every_address_of_a_mapping_finds_it() {
    let d = dumper(&[]);
    for m in &d.mappings {
        for x in [m.start_address, m.start_address + m.size / 2, m.start_address + m.size - 1] {
            let found = d.find_mapping(x).unwrap();
            assert_eq!(found.start_address, m.start_address);
            let found = d.find_mapping_no_bias(x).unwrap();
            assert_eq!(found.start_address, m.start_address);
        }
    }
    assert!(d.find_mapping(0x10).is_none());
    assert!(d.find_mapping(0x402000).is_none());
}

#[test]
fn repeated_enumeration_gives_the_same_mappings() {
    let a = dumper(&[(AT_ENTRY, 0x400100)]);
    let b = dumper(&[(AT_ENTRY, 0x400100)]);
    assert_eq!(a.mappings.len(), b.mappings.len());
    for (x, y) in a.mappings.iter().zip(b.mappings.iter()) {
        assert_eq!(x.start_address, y.start_address);
        assert_eq!(x.size, y.size);
        assert_eq!(x.name, y.name);
    }
}

#[test]
fn stack_range_is_page_aligned_and_capped() {
    let d = dumper(&[]);
    // Stack mapping 7fff00000000-7fff00021000.
    assert_eq!(d.stack_range(0x7fff00000123, 0x1000), Ok((0x7fff00000000, 32 * 1024)));
    assert_eq!(d.stack_range(0x7fff0001f010, 0x1000), Ok((0x7fff0001f000, 0x2000)));
    assert_eq!(d.stack_range(0x10, 0x1000), Err(DumperError::NoStackMapping));
}

#[test]
fn stack_info_uses_the_system_page_size() {
    let d = dumper(&[]);
    // x86-64 Linux uses 4 KiB pages.
    assert_eq!(d.get_stack_info(0x7fff00000123), Ok((0x7fff00000000, 32 * 1024)));
    assert_eq!(d.get_stack_info(0x10), Err(DumperError::NoStackMapping));
}

#[test]
fn thread_index_past_the_list_is_an_error() {
    let d = dumper(&[]);
    assert_eq!(d.get_thread_info_by_index(1), Ok(101));
    assert_eq!(
        d.get_thread_info_by_index(2),
        Err(DumperError::ThreadIndexOutOfBounds { index: 2, count: 2 })
    );
}

#[test]
fn sandboxed_thread_is_dropped_from_the_list() {
    // Thread 2's stack pointer read 0, so its suspension failed.
    assert_eq!(keep_suspended(&vec![1, 2, 3], &vec![true, false, true]), vec![1, 3]);
    assert_eq!(keep_suspended(&vec![1, 2], &vec![false, false]), Vec::<i32>::new());
}

#[test]
fn resuming_without_suspending_succeeds() {
    let mut d = dumper(&[]);
    assert_eq!(d.resume_threads(), Ok(()));
    assert!(!d.threads_suspended);
}

#[test]
fn device_files_are_not_opened() {
    assert!(!is_mapped_file_safe_to_open(&Some(b"/dev/zero".to_vec())));
    assert!(is_mapped_file_safe_to_open(&Some(b"/devices/x".to_vec())));
    assert!(is_mapped_file_safe_to_open(&None));
    let d = dumper(&[(AT_SYSINFO_EHDR, 0x7fff00100000)]);
    match d.module_source(3) {
        Ok(ModuleSource::LinuxGate { start, size }) => {
            assert_eq!(start, 0x7fff00100000);
            assert_eq!(size, 0x2000);
        }
        other => panic!("unexpected {:?}", other),
    }
    match d.module_source(0) {
        Ok(ModuleSource::File { path, offset }) => {
            assert_eq!(path, b"/usr/bin/prog".to_vec());
            assert_eq!(offset, 0);
        }
        other => panic!("unexpected {:?}", other),
    }
}
