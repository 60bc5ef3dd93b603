use minidump_writer::mapping::{MappingInfo, SystemMappingInfo};
use minidump_writer::sanitize::{executable_filter, sanitize_stack, DEFACED};

fn mapping(start: usize, end: usize, executable: bool) -> MappingInfo {
    MappingInfo {
        start_address: start,
        size: end - start,
        system_mapping_info: SystemMappingInfo { start_address: start, end_address: end },
        offset: 0,
        executable,
        name: None,
    }
}

fn words(ws: &[u64]) -> Vec<u8> {
    let mut v = Vec::new();
    for w in ws {
        v.extend_from_slice(&w.to_le_bytes());
    }
    v
}

fn word_at(s: &[u8], i: usize) -> u64 {
    let mut b = [0u8; 8];
    b.copy_from_slice(&s[8 * i..8 * i + 8]);
    u64::from_le_bytes(b)
}

#[test]
fn pointer_into_executable_mapping_is_kept() {
    let maps = vec![mapping(0x1000, 0x2000, true)];
    let mut stack = words(&[0x1800]);
    sanitize_stack(&maps, &mut stack, 0x7000_0000, 0);
    assert_eq!(word_at(&stack, 0), 0x1800);
}

#[test]
fn pointer_into_data_mapping_is_redacted() {
    let maps = vec![mapping(0x1000, 0x2000, false)];
    let mut stack = words(&[0x1800]);
    sanitize_stack(&maps, &mut stack, 0x7000_0000, 0);
    assert_eq!(word_at(&stack, 0), DEFACED);
    assert_eq!(&stack[0..8], &[0xed, 0xac, 0xef, 0x0d, 0xed, 0xac, 0xef, 0x0d]);
}

#[test]
fn small_integers_of_either_sign_are_kept() {
    let maps = vec![mapping(0x1000, 0x2000, false)];
    let mut stack = words(&[0, 5, 4096, u64::MAX, u64::MAX - 4095, 4097, u64::MAX - 4096]);
    sanitize_stack(&maps, &mut stack, 0x7000_0000, 0);
    assert_eq!(word_at(&stack, 0), 0);
    assert_eq!(word_at(&stack, 1), 5);
    assert_eq!(word_at(&stack, 2), 4096);
    assert_eq!(word_at(&stack, 3), u64::MAX);
    assert_eq!(word_at(&stack, 4), u64::MAX - 4095);
    assert_eq!(word_at(&stack, 5), DEFACED);
    assert_eq!(word_at(&stack, 6), DEFACED);
}

#[test]
fn pointers_into_the_stack_mapping_are_kept() {
    let maps = vec![mapping(0x10_0000, 0x20_0000, false)];
    let mut stack = words(&[0x18_0000, 0x30_0000]);
    sanitize_stack(&maps, &mut stack, 0x10_0010, 0);
    assert_eq!(word_at(&stack, 0), 0x18_0000);
    assert_eq!(word_at(&stack, 1), DEFACED);
}

#[test]
fn bytes_below_the_stack_pointer_and_a_trailing_partial_word_are_zeroed() {
    let maps = vec![mapping(0x1000, 0x2000, true)];
    let mut stack = vec![0x11u8; 8 * 3 + 3];
    stack[8..16].copy_from_slice(&0x1800u64.to_le_bytes());
    stack[16..24].copy_from_slice(&7u64.to_le_bytes());
    // sp_offset 3 rounds up to the word at byte 8.
    sanitize_stack(&maps, &mut stack, 0x7000_0000, 3);
    assert_eq!(&stack[0..8], &[0u8; 8]);
    assert_eq!(word_at(&stack, 1), 0x1800);
    assert_eq!(word_at(&stack, 2), 7);
    assert_eq!(&stack[24..27], &[0u8; 3]);
}

#[test]
fn redacted_words_lie_in_no_executable_mapping() {
    let maps = vec![
        mapping(0x40_0000, 0x40_1000, true),
        mapping(0x40_1000, 0x50_0000, false),
        mapping(0x7f00_0000_0000, 0x7f00_0001_0000, true),
    ];
    let input = [0x40_0800u64, 0x40_2000, 0x7f00_0000_8000, 0x7f00_0002_0000, 0x1234_5678_9abc];
    let mut stack = words(&input);
    sanitize_stack(&maps, &mut stack, 0x10, 0);
    for (i, w) in input.iter().enumerate() {
        let out = word_at(&stack, i);
        let in_exec = maps
            .iter()
            .any(|m| m.executable && m.start_address as u64 <= *w && *w < (m.start_address + m.size) as u64);
        if out == DEFACED {
            assert!(!in_exec);
        } else {
            assert_eq!(out, *w);
            assert!(in_exec);
        }
    }
    assert_eq!(word_at(&stack, 0), 0x40_0800);
    assert_eq!(word_at(&stack, 1), DEFACED);
    assert_eq!(word_at(&stack, 2), 0x7f00_0000_8000);
    assert_eq!(word_at(&stack, 3), DEFACED);
    assert_eq!(word_at(&stack, 4), DEFACED);
}

#[test]
fn filter_marks_the_slots_of_executable_mappings_only() {
    let maps = vec![mapping(0x1000, 0x2000, true), mapping(0x60_0000, 0x70_0000, false)];
    let f = executable_filter(&maps);
    assert_eq!(f.len(), 2048);
    assert!(f[0]);
    assert_eq!(f.iter().filter(|b| **b).count(), 1);
    // A mapping that ends exactly on a slot boundary also marks that slot.
    let maps = vec![mapping(0x20_0000, 0x40_0000, true)];
    let f = executable_filter(&maps);
    assert!(f[1] && f[2]);
    assert_eq!(f.iter().filter(|b| **b).count(), 2);
}
