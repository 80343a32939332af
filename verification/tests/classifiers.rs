use ohms::routines::{
    contains_address, find_byte, is_eat_hook, is_entry_redirected, is_ext_hook, is_iat_hook,
    is_in_ranges, is_inline_hook, is_load_xor_jump, is_syscall_routine, is_table_hook,
    is_tls_hook, is_vmt_hook, SEARCH_WINDOW,
};

fn load_xor_jump(register: u8) -> Vec<u8> {
    let mut bytes: Vec<u8> = vec![0x48, 0xB8 + register];
    bytes.extend_from_slice(&[0x11, 0x22, 0x33, 0x44, 0x55, 0x66, 0x77, 0x08]);
    bytes.extend_from_slice(&[0x31, 0xC0, 0xFF, 0xE0 + register]);
    bytes
}

#[test]
fn inline_signature_is_recognised() {
    let buffer: Vec<u8> = vec![0x4C, 0x8B, 0xD1, 0xB8, 0x00, 0x00, 0x00, 0x00];
    assert!(is_inline_hook(&buffer, 0));
    assert!(!is_inline_hook(&buffer, 1));
}

#[test]
fn inline_signature_needs_all_four_bytes() {
    assert!(is_inline_hook(&[0x4C, 0x8B, 0xD1, 0xB8], 0));
    assert!(is_inline_hook(&[0x00, 0x4C, 0x8B, 0xD1, 0xB8], 1));
    assert!(!is_inline_hook(&[0x4C, 0x8B, 0xD1], 0));
    assert!(!is_inline_hook(&[0x4C, 0x8B, 0xD1, 0xB9], 0));
    assert!(!is_inline_hook(&[0x4D, 0x8B, 0xD1, 0xB8], 0));
    assert!(!is_inline_hook(&[], 0));
}

#[test]
fn inline_offset_past_the_end_is_no_match() {
    let buffer: Vec<u8> = vec![0x4C, 0x8B, 0xD1, 0xB8];
    assert!(!is_inline_hook(&buffer, 4));
    assert!(!is_inline_hook(&buffer, 5));
    assert!(!is_inline_hook(&buffer, usize::MAX));
    assert!(!is_inline_hook(&buffer, usize::MAX - 3));
}

#[test]
fn syscall_between_store_and_return() {
    let buffer: Vec<u8> = vec![
        0x00, 0x00, 0x00, 0x00, 0x48, 0x89, 0x4C, 0x24, 0x08, 0xB8, 0x01, 0x00, 0x00, 0x00, 0x0F,
        0x05, 0xC3, 0x00, 0x00,
    ];
    assert_eq!(is_syscall_routine(&buffer, 14), Some((4, 17)));
    assert_eq!(is_syscall_routine(&buffer, 13), None);
    assert_eq!(is_syscall_routine(&buffer, 15), None);
}

#[test]
fn syscall_start_stops_at_an_earlier_return() {
    let buffer: Vec<u8> = vec![0x48, 0x89, 0x00, 0xC3, 0x11, 0x0F, 0x05, 0x22, 0xC2, 0x33];
    assert_eq!(is_syscall_routine(&buffer, 5), Some((3, 9)));
}

#[test]
fn syscall_filler_is_not_part_of_the_trampoline() {
    let buffer: Vec<u8> = vec![0xC3, 0x10, 0x0F, 0x05, 0x11, 0x22, 0x90, 0xC3];
    assert_eq!(is_syscall_routine(&buffer, 2), Some((0, 6)));
    let padded: Vec<u8> = vec![0xC3, 0x10, 0x0F, 0x05, 0x11, 0x22, 0xCC, 0xC3];
    assert_eq!(is_syscall_routine(&padded, 2), Some((0, 6)));
}

#[test]
fn syscall_followed_by_filler_is_no_trampoline() {
    assert_eq!(is_syscall_routine(&[0x48, 0x89, 0x0F, 0x05, 0x90, 0xC3], 2), None);
    assert_eq!(is_syscall_routine(&[0x48, 0x89, 0x0F, 0x05, 0xCC, 0xC3], 2), None);
}

#[test]
fn syscall_at_the_start_or_the_end_is_no_trampoline() {
    assert_eq!(is_syscall_routine(&[0x0F, 0x05, 0x11, 0xC3], 0), None);
    assert_eq!(is_syscall_routine(&[0x48, 0x89, 0x0F, 0x05], 2), None);
    assert_eq!(is_syscall_routine(&[0x48, 0x89, 0x0F], 2), None);
    assert_eq!(is_syscall_routine(&[0x48, 0x89, 0x0F, 0x05], usize::MAX), None);
    assert_eq!(is_syscall_routine(&[0x48, 0x89, 0x0F, 0x05], usize::MAX - 1), None);
}

#[test]
fn syscall_without_markers_spans_what_was_searched() {
    let mut buffer: Vec<u8> = vec![0x11; 600];
    buffer[300] = 0x0F;
    buffer[301] = 0x05;
    assert_eq!(SEARCH_WINDOW, 200);
    assert_eq!(is_syscall_routine(&buffer, 300), Some((100, 500)));
    let mut short: Vec<u8> = vec![0x11; 40];
    short[10] = 0x0F;
    short[11] = 0x05;
    assert_eq!(is_syscall_routine(&short, 10), Some((0, 40)));
}

#[test]
fn syscall_markers_at_the_edge_of_the_window() {
    let mut buffer: Vec<u8> = vec![0x11; 600];
    buffer[300] = 0x0F;
    buffer[301] = 0x05;
    buffer[100] = 0xC3;
    buffer[101] = 0xC3;
    buffer[499] = 0xC3;
    buffer[500] = 0xC3;
    assert_eq!(is_syscall_routine(&buffer, 300), Some((101, 500)));
    buffer[101] = 0x11;
    buffer[499] = 0x11;
    assert_eq!(is_syscall_routine(&buffer, 300), Some((100, 500)));
}

#[test]
fn syscall_bounds_enclose_the_instruction() {
    let mut buffer: Vec<u8> = Vec::new();
    for i in 0..512usize {
        buffer.push(match i % 7 {
            0 => 0x0F,
            1 => 0x05,
            2 => 0x48,
            3 => 0x89,
            4 => 0xC3,
            5 => 0x90,
            _ => 0x11,
        });
    }
    for offset in 0..buffer.len() + 4 {
        if let Some((start, end)) = is_syscall_routine(&buffer, offset) {
            assert!(start < offset);
            assert!(end > offset + 2);
            assert!(end <= buffer.len());
        }
    }
}

#[test]
fn classifiers_run_on_short_buffers() {
    let prefixes: Vec<Vec<u8>> = vec![
        vec![0x4C, 0x8B, 0xD1, 0xB8],
        vec![0x0F, 0x05],
        vec![0xE8],
        vec![0xE9, 0x01],
        vec![0x48, 0xB8],
        vec![0x31, 0xC0, 0xFF],
        vec![0xCC, 0xCC, 0xCC],
        vec![0x48, 0x89, 0x0F, 0x05],
    ];
    for prefix in prefixes.iter() {
        for cut in 0..=prefix.len() {
            for len in cut..=16usize {
                let mut buffer: Vec<u8> = vec![0x11; len - cut];
                buffer.extend_from_slice(&prefix[..cut]);
                assert!(buffer.len() <= 16);
                for offset in 0..=len + 1 {
                    let _ = is_inline_hook(&buffer, offset);
                    let _ = is_syscall_routine(&buffer, offset);
                    let _ = is_iat_hook(&buffer, offset, &[0x10]);
                    let _ = is_ext_hook(&buffer, offset);
                    let _ = is_load_xor_jump(&buffer, offset);
                    if let Some((start, end)) = is_syscall_routine(&buffer, offset) {
                        assert!(start < offset && offset + 2 < end && end <= buffer.len());
                    }
                }
                let _ = is_inline_hook(&buffer, usize::MAX);
                let _ = is_syscall_routine(&buffer, usize::MAX);
                let _ = is_iat_hook(&buffer, usize::MAX, &[]);
                let _ = is_ext_hook(&buffer, usize::MAX);
                assert!(!is_vmt_hook(&[0x48, 0x11], &[], &buffer) || buffer.len() >= 14);
                assert!(!is_eat_hook(&[0x48, 0x11], &[], &buffer) || buffer.len() >= 14);
                let _ = is_tls_hook(&[0x48, 0x11], &[(0, 0x100)], &buffer);
            }
        }
    }
}

#[test]
fn iat_branch_to_a_known_thunk_is_clean() {
    let call: Vec<u8> = vec![0xE8, 0x10, 0x00, 0x00, 0x00];
    assert!(!is_iat_hook(&call, 0, &[0x15]));
    assert!(!is_iat_hook(&call, 0, &[0x01, 0x15, 0x30]));
    let jump: Vec<u8> = vec![0xE9, 0x10, 0x00, 0x00, 0x00];
    assert!(!is_iat_hook(&jump, 0, &[0x15]));
}

#[test]
fn iat_branch_to_an_unknown_target_is_flagged() {
    let call: Vec<u8> = vec![0xE8, 0x10, 0x00, 0x00, 0x00];
    assert!(is_iat_hook(&call, 0, &[0x14, 0x16]));
    assert!(is_iat_hook(&call, 0, &[]));
    let jump: Vec<u8> = vec![0x00, 0x00, 0xE9, 0x00, 0x01, 0x00, 0x00];
    assert!(is_iat_hook(&jump, 2, &[0x105]));
    assert!(!is_iat_hook(&jump, 2, &[0x107]));
}

#[test]
fn iat_branch_target_takes_the_displacement_as_signed() {
    let mut buffer: Vec<u8> = vec![0x00; 0x10];
    buffer.extend_from_slice(&[0xE9, 0xFB, 0xFF, 0xFF, 0xFF]);
    assert!(!is_iat_hook(&buffer, 0x10, &[0x10]));
    assert!(is_iat_hook(&buffer, 0x10, &[0x11]));
    let wrapping: Vec<u8> = vec![0xE8, 0xFA, 0xFF, 0xFF, 0xFF];
    assert!(!is_iat_hook(&wrapping, 0, &[usize::MAX]));
    assert!(is_iat_hook(&wrapping, 0, &[0]));
    let lowest: Vec<u8> = vec![0xE8, 0x00, 0x00, 0x00, 0x80];
    assert!(!is_iat_hook(&lowest, 0, &[5usize.wrapping_sub(0x8000_0000)]));
    let highest: Vec<u8> = vec![0xE8, 0xFF, 0xFF, 0xFF, 0x7F];
    assert!(!is_iat_hook(&highest, 0, &[0x8000_0004]));
}

#[test]
fn iat_needs_five_bytes_for_a_branch() {
    assert!(!is_iat_hook(&[0xE8, 0x10, 0x00, 0x00], 0, &[]));
    assert!(!is_iat_hook(&[0xE8, 0x10, 0x00, 0x00, 0x00], 1, &[]));
    assert!(!is_iat_hook(&[0x90, 0x10, 0x00, 0x00, 0x00], 0, &[]));
    assert!(!is_iat_hook(&[], 0, &[]));
}

#[test]
fn iat_obfuscated_jump_through_rax() {
    let pattern: Vec<u8> = load_xor_jump(0);
    assert_eq!(pattern.len(), 14);
    assert!(is_iat_hook(&pattern, 0, &[]));
    assert!(is_iat_hook(&pattern, 0, &[0x15]));
    let mut with_33: Vec<u8> = pattern.clone();
    with_33[10] = 0x33;
    with_33[13] = 0xE7;
    assert!(is_iat_hook(&with_33, 0, &[]));
    let through_rcx: Vec<u8> = load_xor_jump(1);
    assert!(!is_iat_hook(&through_rcx, 0, &[]));
    assert!(is_load_xor_jump(&through_rcx, 0));
}

#[test]
fn iat_obfuscated_jump_needs_its_whole_window() {
    let pattern: Vec<u8> = load_xor_jump(0);
    assert!(!is_iat_hook(&pattern[..13], 0, &[]));
    assert!(!is_iat_hook(&pattern[..12], 0, &[]));
    let mut broken: Vec<u8> = pattern.clone();
    broken[13] = 0xE8;
    assert!(!is_iat_hook(&broken, 0, &[]));
    broken[13] = 0xE0;
    broken[12] = 0xFE;
    assert!(!is_iat_hook(&broken, 0, &[]));
    broken[12] = 0xFF;
    broken[10] = 0x32;
    assert!(!is_iat_hook(&broken, 0, &[]));
}

#[test]
fn ext_load_and_jump_through_any_register() {
    for register in 0..8u8 {
        let mut buffer: Vec<u8> = vec![0x48, 0xB8 + register];
        buffer.extend_from_slice(&[0x00; 8]);
        buffer.extend_from_slice(&[0xFF, 0xE0 + (7 - register)]);
        assert!(is_ext_hook(&buffer, 0));
        assert!(!is_ext_hook(&buffer[..11], 0));
    }
    let mut other: Vec<u8> = vec![0x48, 0xC0];
    other.extend_from_slice(&[0x00; 8]);
    other.extend_from_slice(&[0xFF, 0xE0]);
    assert!(!is_ext_hook(&other, 0));
    other[1] = 0xB8;
    other[11] = 0xE8;
    assert!(!is_ext_hook(&other, 0));
}

#[test]
fn ext_xor_and_jump() {
    let mut buffer: Vec<u8> = vec![0x31, 0xC0, 0xFF, 0xE0];
    assert!(!is_ext_hook(&buffer, 0));
    buffer.extend_from_slice(&[0x00; 8]);
    assert!(is_ext_hook(&buffer, 0));
    buffer[0] = 0x33;
    buffer[3] = 0xE5;
    assert!(is_ext_hook(&buffer, 0));
    buffer[0] = 0x32;
    assert!(!is_ext_hook(&buffer, 0));
}

#[test]
fn ext_looks_through_breakpoint_padding() {
    let mut redirect: Vec<u8> = vec![0x48, 0xBB];
    redirect.extend_from_slice(&[0x00; 8]);
    redirect.extend_from_slice(&[0xFF, 0xE3]);
    let mut two: Vec<u8> = vec![0xCC, 0xCC];
    two.extend_from_slice(&redirect);
    assert!(is_ext_hook(&two, 0));
    let mut five: Vec<u8> = vec![0xCC; 5];
    five.extend_from_slice(&redirect);
    assert!(is_ext_hook(&five, 0));
    assert!(is_ext_hook(&five, 3));
    assert!(!is_ext_hook(&five, 4));
    let mut one: Vec<u8> = vec![0xCC];
    one.extend_from_slice(&redirect);
    assert!(!is_ext_hook(&one, 0));
    assert!(is_ext_hook(&one, 1));
}

#[test]
fn ext_padding_that_leads_nowhere() {
    assert!(!is_ext_hook(&[0xCC; 32], 0));
    let mut buffer: Vec<u8> = vec![0xCC; 4];
    buffer.extend_from_slice(&[0x48, 0xB8, 0x00, 0x00, 0x00, 0x00, 0x00, 0x00, 0x00, 0x00, 0xFF]);
    assert!(!is_ext_hook(&buffer, 0));
    let mut padded_padding: Vec<u8> = vec![0xCC, 0xCC, 0x11, 0xCC, 0xCC];
    padded_padding.extend_from_slice(&[0x31, 0xC0, 0xFF, 0xE0, 0, 0, 0, 0, 0, 0, 0, 0]);
    assert!(!is_ext_hook(&padded_padding, 0));
    assert!(is_ext_hook(&padded_padding, 3));
}

#[test]
fn address_lists_and_ranges() {
    assert!(contains_address(&[1, 2, 3], 3));
    assert!(!contains_address(&[1, 2, 3], 4));
    assert!(!contains_address(&[], 0));
    assert!(is_in_ranges(&[(10, 20), (30, 40)], 10));
    assert!(is_in_ranges(&[(10, 20), (30, 40)], 39));
    assert!(!is_in_ranges(&[(10, 20), (30, 40)], 20));
    assert!(!is_in_ranges(&[(10, 20), (30, 40)], 9));
    assert!(!is_in_ranges(&[(20, 10)], 15));
    assert!(!is_in_ranges(&[], 0));
}

#[test]
fn first_byte_of_a_value_is_found() {
    assert_eq!(find_byte(&[0x10, 0x48, 0x20, 0x48], 0x48), Some(1));
    assert_eq!(find_byte(&[0x10, 0x48, 0x20, 0x48], 0x49), None);
    assert_eq!(find_byte(&[0x10, 0x48], 0x148), None);
    assert_eq!(find_byte(&[], 0), None);
}

#[test]
fn entry_value_that_leads_to_a_jump() {
    let pattern: Vec<u8> = load_xor_jump(3);
    assert!(is_entry_redirected(&pattern, 0x48));
    assert!(!is_entry_redirected(&pattern, 0x11));
    assert!(!is_entry_redirected(&pattern, 0x1048));
    let mut later: Vec<u8> = vec![0x48, 0x00];
    later.extend_from_slice(&pattern);
    assert!(!is_entry_redirected(&later, 0x48));
    let mut shifted: Vec<u8> = vec![0x00, 0x00];
    shifted.extend_from_slice(&pattern);
    assert!(is_entry_redirected(&shifted, 0x48));
    assert!(!is_entry_redirected(&shifted[..15], 0x48));
}

#[test]
fn tls_callback_outside_every_range_is_flagged() {
    assert!(is_tls_hook(&[0x3000], &[(0x1000, 0x2000)], &[]));
    assert!(is_tls_hook(&[0x1000, 0x2000], &[(0x1000, 0x2000)], &[]));
    assert!(is_tls_hook(&[0x1000], &[], &[]));
    assert!(!is_tls_hook(&[0x1000, 0x1FFF], &[(0x1000, 0x2000)], &[]));
    assert!(!is_tls_hook(&[], &[], &[]));
}

#[test]
fn tls_callback_inside_a_range_is_checked_against_the_buffer() {
    let pattern: Vec<u8> = load_xor_jump(2);
    assert!(is_tls_hook(&[0x48], &[(0, 0x100)], &pattern));
    assert!(!is_tls_hook(&[0x47], &[(0, 0x100)], &pattern));
    assert!(!is_tls_hook(&[0x48], &[(0, 0x100)], &pattern[..13]));
}

#[test]
fn vmt_entry_is_flagged_only_when_unknown_and_redirected() {
    let pattern: Vec<u8> = load_xor_jump(0);
    assert!(is_vmt_hook(&[0x48], &[], &pattern));
    assert!(is_vmt_hook(&[0x10, 0x48], &[0x10], &pattern));
    assert!(!is_vmt_hook(&[0x48], &[0x48], &pattern));
    assert!(!is_vmt_hook(&[0x11], &[], &pattern));
    assert!(!is_vmt_hook(&[0x48], &[], &pattern[..13]));
    assert!(!is_vmt_hook(&[], &[], &pattern));
}

#[test]
fn eat_entry_is_flagged_only_when_unknown_and_redirected() {
    let pattern: Vec<u8> = load_xor_jump(5);
    assert!(is_eat_hook(&[0x48], &[], &pattern));
    assert!(is_eat_hook(&[0x10, 0x48], &[0x10], &pattern));
    assert!(!is_eat_hook(&[0x48], &[0x48], &pattern));
    assert!(!is_eat_hook(&[0x11], &[], &pattern));
    assert!(!is_eat_hook(&[0x48], &[], &[]));
    assert_eq!(
        is_table_hook(&[0x48], &[], &pattern),
        is_eat_hook(&[0x48], &[], &pattern)
    );
}
