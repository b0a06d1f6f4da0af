use ashmaize::hex::{format_hex16, parse_hex_u32};
use ashmaize::mining::{
    append_bytes, cpu_step, gpu_batch_step, SearchStep, batch_preimages, challenge_suffix, first_good_index, hash_structure_good, init_rom,
    next_cpu_nonce, nonce_preimage, parse_difficulty_mask, solution_nonce, RomGenerationType,
    GB, GPU_BATCH_SIZE, GPU_NONCE_START, MB, NO_SOLUTION,
};

#[test]
fn good_hash_within_mask() {
    let mut hash = [0xffu8; 64];
    hash[0] = 0x00;
    hash[1] = 0x00;
    hash[2] = 0x0f;
    hash[3] = 0xff;
    assert!(hash_structure_good(&hash, 0x0000_ffff));
    assert!(!hash_structure_good(&hash, 0x0000_00ff));
}

#[test]
fn good_hash_reads_prefix_big_endian() {
    let hash = [0x01u8, 0x00, 0x00, 0x00, 0xff];
    assert!(!hash_structure_good(&hash, 0x00ff_ffff));
    assert!(hash_structure_good(&hash, 0x01ff_ffff));
    let hash = [0x00u8, 0x00, 0x00, 0x01];
    assert!(hash_structure_good(&hash, 0x0000_0001));
    assert!(!hash_structure_good(&hash, 0x0000_0000));
}

#[test]
fn short_hash_is_never_good() {
    assert!(!hash_structure_good(&[0, 0, 0], 0xffff_ffff));
    assert!(!hash_structure_good(&[], 0xffff_ffff));
}

#[test]
fn full_mask_accepts_every_hash() {
    assert!(hash_structure_good(&[0xff, 0xff, 0xff, 0xff], 0xffff_ffff));
}

#[test]
fn wider_mask_keeps_good_hash_good() {
    let hash = [0x00u8, 0x0a, 0x00, 0x00];
    assert!(hash_structure_good(&hash, 0x000f_0000));
    assert!(hash_structure_good(&hash, 0x00ff_ff00));
}

#[test]
fn hex16_matches_format() {
    for n in [0u64, 1, 0xff, 0x1234_5678_9abc_def0, u64::MAX, GPU_NONCE_START] {
        assert_eq!(format_hex16(n), format!("{:016x}", n).into_bytes());
    }
    assert_eq!(format_hex16(0x1234), b"0000000000001234".to_vec());
}

#[test]
fn parse_hex_cases() {
    assert_eq!(parse_hex_u32(b"ff"), Some(255));
    assert_eq!(parse_hex_u32(b"+1A"), Some(26));
    assert_eq!(parse_hex_u32(b"FFFFFFFF"), Some(u32::MAX));
    assert_eq!(parse_hex_u32(b"0000000000ff"), Some(255));
    assert_eq!(parse_hex_u32(b""), None);
    assert_eq!(parse_hex_u32(b"+"), None);
    assert_eq!(parse_hex_u32(b"-1"), None);
    assert_eq!(parse_hex_u32(b"++1"), None);
    assert_eq!(parse_hex_u32(b"100000000"), None);
    assert_eq!(parse_hex_u32(b"12g4"), None);
    assert_eq!(parse_hex_u32(b" 12"), None);
}

#[test]
fn parse_hex_agrees_with_from_str_radix() {
    for s in ["0", "ff", "FF", "+ff", "-ff", "", "+", "fffffffff", "0000FFFF", "1f3A", "x", "7fffffff"] {
        assert_eq!(parse_hex_u32(s.as_bytes()), u32::from_str_radix(s, 16).ok(), "input {:?}", s);
    }
}

#[test]
fn difficulty_mask_parses_hex() {
    assert_eq!(parse_difficulty_mask("0000FFFF"), Some(0xffff));
    assert_eq!(parse_difficulty_mask("zz"), None);
}

#[test]
fn suffix_is_fields_in_order() {
    let s = challenge_suffix("addr", "**D07C10", "000FFFFF", "abc123", "2025-10-19T08:59:59.000Z", "509681483");
    assert_eq!(s, b"addr**D07C10000FFFFFabc1232025-10-19T08:59:59.000Z509681483".to_vec());
}

#[test]
fn preimage_is_hex_nonce_then_suffix() {
    let p = nonce_preimage(255, b"abc");
    assert_eq!(p, b"00000000000000ffabc".to_vec());
    assert_eq!(p, format!("{:016x}{}", 255u64, "abc").into_bytes());
}

#[test]
fn distinct_nonces_give_distinct_preimages() {
    assert_ne!(nonce_preimage(1, b"s"), nonce_preimage(16, b"s"));
}

#[test]
fn batch_preimages_follow_nonces() {
    let batch = batch_preimages(GPU_NONCE_START, 3, b"xy");
    assert_eq!(batch.len(), 3);
    for (i, p) in batch.iter().enumerate() {
        assert_eq!(*p, format!("{:016x}xy", GPU_NONCE_START + i as u64).into_bytes());
    }
    assert!(batch_preimages(7, 0, b"xy").is_empty());
}

#[test]
fn first_good_index_finds_earliest() {
    let bad = [0xffu8; 64];
    let mut good = [0xffu8; 64];
    good[0] = 0;
    good[1] = 0;
    let hashes = vec![bad, good, good];
    assert_eq!(first_good_index(&hashes, 0x0000_ffff), Some(1));
    assert_eq!(first_good_index(&hashes, 0x0000_00ff), None);
    assert_eq!(first_good_index(&[], 0xffff_ffff), None);
}

#[test]
fn sentinel_means_no_solution() {
    assert_eq!(solution_nonce(NO_SOLUTION), None);
    assert_eq!(solution_nonce(u64::MAX), None);
    assert_eq!(solution_nonce(42), Some(42));
}

#[test]
fn cpu_workers_step_by_stride() {
    assert_eq!(next_cpu_nonce(3, 8), 11);
    let mut seen = std::collections::HashSet::new();
    for t in 0..4u64 {
        let mut n = t;
        for _ in 0..50 {
            assert!(seen.insert(n));
            n = next_cpu_nonce(n, 4);
        }
    }
}

#[test]
fn rom_parameters_of_a_challenge() {
    let p = init_rom("deadbeef");
    assert_eq!(p.key, b"deadbeef".to_vec());
    assert_eq!(p.generation, RomGenerationType::TwoStep { pre_size: 16 * MB, mixing_numbers: 4 });
    assert_eq!(p.size, GB);
    assert_eq!(GB, 1024 * MB);
    assert_eq!(GPU_BATCH_SIZE, 10000);
}

#[test]
fn parse_reads_sixteen_digit_form() {
    for m in [0u32, 1, 0xffff, u32::MAX] {
        assert_eq!(parse_hex_u32(&format_hex16(m as u64)), Some(m));
    }
}

#[test]
fn cpu_step_stops_on_solution() {
    let good = [0u8, 0, 0, 0];
    let bad = [0xffu8, 0, 0, 0];
    assert_eq!(cpu_step(5, 3, &good, 0), SearchStep::Found(5));
    assert_eq!(cpu_step(5, 3, &bad, 0), SearchStep::Continue(8));
    assert_eq!(cpu_step(u64::MAX, 3, &good, 0), SearchStep::Found(u64::MAX));
}

#[test]
fn gpu_step_reports_first_solution_or_next_batch() {
    let bad = [0xffu8; 64];
    let good = [0u8; 64];
    assert_eq!(gpu_batch_step(GPU_NONCE_START, &[bad, bad, good, good], 0), SearchStep::Found(GPU_NONCE_START + 2));
    assert_eq!(
        gpu_batch_step(GPU_NONCE_START, &[bad, bad], 0),
        SearchStep::Continue(GPU_NONCE_START + GPU_BATCH_SIZE as u64)
    );
}

#[test]
fn append_bytes_extends() {
    let mut v = b"ab".to_vec();
    append_bytes(&mut v, b"cd");
    assert_eq!(v, b"abcd".to_vec());
}
