use minidump_writer::dump_writer::{
    DumpError, DumpSession, MDRawDirectory, SinkWrite, LINUX_CPU_INFO, LINUX_LSB_RELEASE,
    MD_HEADER_SIGNATURE, MD_HEADER_VERSION, THREAD_LIST_STREAM,
};
use minidump_writer::linux_ptrace_dumper::LinuxPtraceDumper;
use minidump_writer::minidump_writer::{DumpStreams, MinidumpWriter, WriterError, NUM_STREAMS};

fn streams() -> DumpStreams {
    DumpStreams {
        thread_list: vec![1; 10],
        mappings: vec![2; 20],
        app_memory: vec![3; 5],
        memory_list: vec![4; 7],
        exception: None,
        system_info: vec![6; 3],
        cpu_info: Some(b"processor : 0\n".to_vec()),
        proc_status: Some(b"Name: prog\n".to_vec()),
        lsb_release: None,
        os_release: Some(b"ID=linux\n".to_vec()),
        cmd_line: Some(b"prog\0".to_vec()),
        environ: None,
        auxv: Some(vec![9; 32]),
        maps: Some(vec![b'm'; 2000]),
        dso_debug: vec![8; 4],
    }
}

fn u32_at(b: &[u8], p: usize) -> u32 {
    u32::from_le_bytes([b[p], b[p + 1], b[p + 2], b[p + 3]])
}

fn apply(writes: &[SinkWrite]) -> Vec<u8> {
    let mut img: Vec<u8> = Vec::new();
    for w in writes {
        let p = w.position as usize;
        if img.len() < p + w.bytes.len() {
            img.resize(p + w.bytes.len(), 0);
        }
        img[p..p + w.bytes.len()].copy_from_slice(&w.bytes);
    }
    img
}

fn entry(img: &[u8], i: usize) -> (u32, u32, u32) {
    let p = 32 + 12 * i;
    (u32_at(img, p), u32_at(img, p + 4), u32_at(img, p + 8))
}

#[test]
fn header_and_directory_are_in_place() {
    let w = MinidumpWriter::new(10, 11);
    let (session, _) = w.generate_dump(streams(), 1_700_000_000).unwrap();
    let buf = session.buffer();
    assert_eq!(u32_at(buf, 0), MD_HEADER_SIGNATURE);
    assert_eq!(u32_at(buf, 4), MD_HEADER_VERSION);
    assert_eq!(u32_at(buf, 8), NUM_STREAMS);
    assert_eq!(u32_at(buf, 12), 32);
    assert_eq!(u32_at(buf, 16), 0);
    assert_eq!(u32_at(buf, 20), 1_700_000_000);
    assert_eq!(&buf[24..32], &[0u8; 8]);
    assert_eq!(session.entries().len(), 13);
    assert_eq!(session.directory().position(), 32);
}

#[test]
fn every_entry_points_at_its_body() {
    let w = MinidumpWriter::new(10, 11);
    let st = streams();
    let expected: Vec<Vec<u8>> = vec![
        st.thread_list.clone(),
        st.mappings.clone(),
        st.memory_list.clone(),
        Vec::new(),
        st.system_info.clone(),
        st.cpu_info.clone().unwrap(),
        st.proc_status.clone().unwrap(),
        st.os_release.clone().unwrap(),
        st.cmd_line.clone().unwrap(),
        Vec::new(),
        st.auxv.clone().unwrap(),
        vec![b'm'; 1008],
        st.dso_debug.clone(),
    ];
    let (session, _) = w.generate_dump(st, 0).unwrap();
    let buf = session.buffer();
    for (i, e) in session.entries().iter().enumerate() {
        let (rva, size) = (e.location.rva as usize, e.location.data_size as usize);
        assert!(rva + size <= buf.len());
        assert_eq!(&buf[rva..rva + size], &expected[i][..]);
    }
    assert_eq!(session.entries()[0].stream_type, THREAD_LIST_STREAM);
    assert_eq!(session.entries()[7].stream_type, LINUX_LSB_RELEASE);
}

#[test]
fn reading_the_sink_back_gives_the_same_streams() {
    let w = MinidumpWriter::new(10, 11);
    let (session, writes) = w.generate_dump(streams(), 0).unwrap();
    let img = apply(&writes);
    assert_eq!(&img[..], &session.buffer()[..]);
    for (i, e) in session.entries().iter().enumerate() {
        let (t, size, rva) = entry(&img, i);
        assert_eq!(t, e.stream_type);
        assert_eq!(size, e.location.data_size);
        assert_eq!(rva, e.location.rva);
        assert_eq!(&img[rva as usize..(rva + size) as usize], &session.buffer()[rva as usize..(rva + size) as usize]);
    }
}

#[test]
fn bodies_reach_the_sink_before_their_entries() {
    let w = MinidumpWriter::new(10, 11);
    let (session, writes) = w.generate_dump(streams(), 0).unwrap();
    // After any prefix of the writes, an entry that is set points at bytes
    // that are already there.
    for n in 1..=writes.len() {
        let img = apply(&writes[..n]);
        for i in 0..session.entries().len() {
            let (t, size, rva) = entry(&img, i);
            if t != 0 {
                assert!((rva + size) as usize <= img.len());
                assert_eq!(
                    &img[rva as usize..(rva + size) as usize],
                    &session.buffer()[rva as usize..(rva + size) as usize]
                );
            }
        }
    }
}

#[test]
fn unreadable_cpu_info_leaves_a_zero_entry() {
    let w = MinidumpWriter::new(10, 11);
    let mut st = streams();
    st.cpu_info = None;
    let (session, writes) = w.generate_dump(st, 0).unwrap();
    let img = apply(&writes);
    assert_eq!(entry(&img, 5), (0, 0, 0));
    assert_eq!(session.entries()[5], MDRawDirectory {
        stream_type: 0,
        location: minidump_writer::dump_writer::MDLocationDescriptor { data_size: 0, rva: 0 },
    });
    assert_eq!(session.entries()[6].stream_type, 0x47670004);
    assert_eq!(session.entries()[6].location.data_size, 11);
    assert_ne!(session.entries()[4].stream_type, 0);
}

#[test]
fn lsb_release_is_preferred_to_os_release() {
    let w = MinidumpWriter::new(10, 11);
    let mut st = streams();
    st.lsb_release = Some(b"DISTRIB_ID=x\n".to_vec());
    let (session, _) = w.generate_dump(st, 0).unwrap();
    let e = session.entries()[7];
    let buf = session.buffer();
    assert_eq!(&buf[e.location.rva as usize..(e.location.rva + e.location.data_size) as usize], b"DISTRIB_ID=x\n");
}

#[test]
fn file_captures_are_capped() {
    let (mut s, first) = DumpSession::begin(2, 0).unwrap();
    assert_eq!(first.position, 0);
    assert_eq!(first.bytes.len(), 32 + 24);
    let big = vec![7u8; 5000];
    let ws = s.write_file_capture(LINUX_CPU_INFO, Some(big.as_slice())).unwrap();
    assert_eq!(ws.len(), 2);
    assert_eq!(ws[0].position, 56);
    assert_eq!(ws[0].bytes.len(), 1008);
    assert_eq!(ws[1].position, 32);
    assert_eq!(s.entries()[0].location.data_size, 1008);
    assert_eq!(s.entries()[0].location.rva, 56);
    let ws = s.write_file_capture(LINUX_CPU_INFO, None).unwrap();
    assert_eq!(ws.len(), 1);
    assert_eq!(ws[0].bytes, vec![0u8; 12]);
}

#[test]
fn a_full_directory_refuses_more_streams() {
    let (mut s, _) = DumpSession::begin(1, 0).unwrap();
    assert!(s.write_stream(1, &[1, 2]).is_ok());
    assert!(matches!(s.write_stream(2, &[3]), Err(DumpError::DirectoryFull)));
    assert!(matches!(s.write_missing(), Err(DumpError::DirectoryFull)));
    let w = s.write_unlisted(&[9, 9]).unwrap();
    assert_eq!(w.position, 32 + 12 + 2);
    assert_eq!(s.buffer().len(), 32 + 12 + 4);
}

#[test]
fn a_directory_too_large_for_32_bit_offsets_is_refused() {
    assert!(matches!(DumpSession::begin(u32::MAX, 0), Err(DumpError::TooLarge)));
}

#[test]
fn writer_options_are_set() {
    let mut w = MinidumpWriter::new(10, 11);
    w.set_minidump_size_limit(1 << 20)
        .set_principal_mapping_address(0x400000)
        .skip_stacks_if_mapping_unreferenced()
        .sanitize_stack();
    assert_eq!(w.process_id, 10);
    assert_eq!(w.blamed_thread, 11);
    assert_eq!(w.minidump_size_limit, Some(1 << 20));
    assert_eq!(w.principal_mapping_address, Some(0x400000));
    assert!(w.skip_stacks_if_mapping_unreferenced);
    assert!(w.sanitize_stack);
    assert!(w.principal_mapping.is_none());
}

#[test]
fn skipping_stacks_refuses_the_dump_after_finding_the_principal_mapping() {
    let maps = "00400000-00402000 r-xp 00000000 08:01 1 /usr/bin/prog\n";
    let d = LinuxPtraceDumper::new(1, &[0u8; 16], &Vec::new(), maps.as_bytes());
    let mut w = MinidumpWriter::new(1, 1);
    assert_eq!(w.check_principal_mapping(&d), Ok(()));
    w.set_principal_mapping_address(0x401000).skip_stacks_if_mapping_unreferenced();
    assert_eq!(w.check_principal_mapping(&d), Err(WriterError::PrincipalMappingUnreferenced));
    let pm = w.principal_mapping.as_ref().unwrap();
    assert_eq!((pm.start_address, pm.size), (0x400000, 0x2000));
    assert_eq!(pm.name.as_deref(), Some(&b"/usr/bin/prog"[..]));
}
