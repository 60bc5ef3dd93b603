use minidump_writer::linux_ptrace_dumper::{
    merge, sandbox_skip, suspend_decision, DumperError, LinuxPtraceDumper, SuspendError,
};
use minidump_writer::mapping::{copy_mapping, MappingInfo, SystemMappingInfo};
use minidump_writer::process_reader::{
    place_chunk, place_word, read_all_step, settle, FileProbe, Style,
};

const ENOSYS: i32 = 38;
const EIO: i32 = 5;
const ESRCH: i32 = 3;
const EPERM: i32 = 1;

#[test]
fn probe_falls_through_to_peeking() {
    // Scatter/gather reads are missing and /proc/<pid>/mem reads fail.
    assert_eq!(settle(Err(ENOSYS), None, None), None);
    assert_eq!(settle(Err(ENOSYS), Some(FileProbe::ReadFailed(EIO)), None), None);
    assert_eq!(
        settle(Err(ENOSYS), Some(FileProbe::ReadFailed(EIO)), Some(Ok(16))),
        Some((Style::Ptrace, Ok(16)))
    );
}

#[test]
fn first_working_mechanism_is_kept() {
    assert_eq!(settle(Ok(8), None, None), Some((Style::VirtualMem, Ok(8))));
    assert_eq!(
        settle(Err(EPERM), Some(FileProbe::Read { fd: 7, n: 8 }), None),
        Some((Style::File { fd: 7 }, Ok(8)))
    );
}

#[test]
fn all_probes_failing_make_the_reader_unavailable() {
    assert_eq!(
        settle(Err(ENOSYS), Some(FileProbe::OpenFailed(EPERM)), Some(Err(ESRCH))),
        Some((Style::Unavailable { vmem: ENOSYS, file: EPERM, ptrace: ESRCH }, Err(ESRCH)))
    );
}

#[test]
fn peeked_words_land_in_memory_order() {
    let mut dst = vec![0xffu8; 12];
    place_word(&mut dst, 2, 0x0807060504030201, 8);
    assert_eq!(dst, vec![0xff, 0xff, 1, 2, 3, 4, 5, 6, 7, 8, 0xff, 0xff]);
    let mut tail = vec![0u8; 3];
    place_word(&mut tail, 0, 0x0807060504030201, 3);
    assert_eq!(tail, vec![1, 2, 3]);
}

#[test]
fn read_all_steps_place_chunks_and_stop_on_empty_reads() {
    let mut dst = vec![0u8; 6];
    assert_eq!(read_all_step(&mut dst, 2, &vec![9, 8, 7, 6], 3), Some(5));
    assert_eq!(dst, vec![0, 0, 9, 8, 7, 0]);
    assert_eq!(read_all_step(&mut dst, 5, &vec![1], 0), None);
    assert_eq!(dst, vec![0, 0, 9, 8, 7, 0]);
    let mut d = vec![0u8; 4];
    place_chunk(&mut d, 1, &vec![5, 6, 7], 2);
    assert_eq!(d, vec![0, 5, 6, 0]);
}

#[test]
fn threads_with_a_null_or_unreadable_stack_pointer_are_left_out() {
    assert!(sandbox_skip(Ok(0)));
    assert!(sandbox_skip(Err(ESRCH)));
    assert!(!sandbox_skip(Ok(0x7fff_0000)));
}

#[test]
fn suspension_outcomes_decide_the_result() {
    assert_eq!(suspend_decision(Err(EPERM), None, None, None), Some(Err(SuspendError::Attach(EPERM))));
    assert_eq!(suspend_decision(Ok(()), None, None, None), None);
    assert_eq!(suspend_decision(Ok(()), Some(Err(4)), None, None), Some(Err(SuspendError::Wait(4))));
    assert_eq!(suspend_decision(Ok(()), Some(Ok(())), Some(Ok(0x1000)), None), Some(Ok(())));
    // A stack pointer of 0 needs the detach first.
    assert_eq!(suspend_decision(Ok(()), Some(Ok(())), Some(Ok(0)), None), None);
    assert_eq!(
        suspend_decision(Ok(()), Some(Ok(())), Some(Ok(0)), Some(Ok(()))),
        Some(Err(SuspendError::SandboxedThread))
    );
    assert_eq!(
        suspend_decision(Ok(()), Some(Ok(())), Some(Err(ESRCH)), Some(Err(ESRCH))),
        Some(Err(SuspendError::Detach(ESRCH)))
    );
}

#[test]
fn the_last_failed_resume_is_reported() {
    let r = merge(Ok(()), Err(3));
    assert_eq!(r, Err(DumperError::Resume(3)));
    let r = merge(r, Ok(()));
    assert_eq!(r, Err(DumperError::Resume(3)));
    assert_eq!(merge(r, Err(9)), Err(DumperError::Resume(9)));
}

#[test]
fn only_suspended_threads_are_resumed() {
    let tasks = vec![b"10".to_vec(), b"11".to_vec()];
    let mut d = LinuxPtraceDumper::new(10, &[0u8; 16], &tasks, b"");
    assert!(d.threads_to_resume().is_empty());
    d.threads_suspended = true;
    assert_eq!(d.threads_to_resume(), vec![10, 11]);
}

#[test]
fn a_copied_mapping_keeps_its_values() {
    let m = MappingInfo {
        start_address: 0x1000,
        size: 0x2000,
        system_mapping_info: SystemMappingInfo { start_address: 0x1000, end_address: 0x3000 },
        offset: 0x40,
        executable: true,
        name: Some(b"/bin/x".to_vec()),
    };
    let c = copy_mapping(&m);
    assert_eq!((c.start_address, c.size, c.offset, c.executable), (0x1000, 0x2000, 0x40, true));
    assert_eq!(c.system_mapping_info, m.system_mapping_info);
    assert_eq!(c.name, m.name);
}
