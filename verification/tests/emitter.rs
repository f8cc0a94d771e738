use grey::emitter::{build_code_blob, build_standard_program, pack_bitmask};

#[test]
fn test_pack_bitmask() {
    // All ones for 3 bits
    assert_eq!(pack_bitmask(&[1, 1, 1]), vec![0x07]);
    // Alternating for 8 bits
    assert_eq!(pack_bitmask(&[1, 0, 1, 0, 1, 0, 1, 0]), vec![0x55]);
    // 9 bits → 2 bytes
    assert_eq!(pack_bitmask(&[1, 0, 1, 0, 1, 0, 1, 0, 1]), vec![0x55, 0x01]);
}

#[test]
fn test_build_code_blob_minimal() {
    // 3 instructions: trap, fallthrough, trap
    let code = vec![0, 1, 0];
    let bitmask = vec![1, 1, 1];
    let jump_table = vec![];

    let blob = build_code_blob(&code, &bitmask, &jump_table);

    // Parse: E₄(0), E₁(1), E₄(3), [no jump entries], code, packed_bitmask
    assert_eq!(&blob[0..4], &[0, 0, 0, 0]); // |j| = 0 as u32 LE
    assert_eq!(blob[4], 1); // z = 1
    assert_eq!(&blob[5..9], &[3, 0, 0, 0]); // |c| = 3 as u32 LE
    assert_eq!(&blob[9..12], &[0, 1, 0]); // code
    assert_eq!(blob[12], 0x07); // bitmask: 111 packed
}

#[test]
fn pack_bitmask_empty_and_nonzero_bytes() {
    assert_eq!(pack_bitmask(&[]), Vec::<u8>::new());
    // Any non-zero byte counts as a set bit.
    assert_eq!(pack_bitmask(&[0, 7, 0, 0, 0, 0, 0, 0xFF]), vec![0x82]);
    // Sixteen bits, the last one set.
    let mut mask = vec![0u8; 16];
    mask[15] = 1;
    assert_eq!(pack_bitmask(&mask), vec![0x00, 0x80]);
}

#[test]
fn pack_bitmask_bit_positions() {
    let mask: Vec<u8> = (0..20).map(|i| if i % 3 == 0 { 1 } else { 0 }).collect();
    let packed = pack_bitmask(&mask);
    assert_eq!(packed.len(), 3);
    for i in 0..24 {
        let bit = (packed[i / 8] >> (i % 8)) & 1 == 1;
        assert_eq!(bit, i < 20 && i % 3 == 0, "bit {i}");
    }
}

#[test]
fn code_blob_entry_size_two_bytes() {
    let blob = build_code_blob(&[0], &[1], &[0x0102, 0x03]);
    assert_eq!(
        blob,
        vec![2, 0, 0, 0, 2, 1, 0, 0, 0, 0x02, 0x01, 0x03, 0x00, 0, 0x01]
    );
}

#[test]
fn code_blob_entry_size_three_and_four_bytes() {
    let blob3 = build_code_blob(&[], &[], &[0x01_0000]);
    assert_eq!(blob3, vec![1, 0, 0, 0, 3, 0, 0, 0, 0, 0x00, 0x00, 0x01]);
    let blob4 = build_code_blob(&[], &[], &[0x0100_0000, 5]);
    assert_eq!(
        blob4,
        vec![2, 0, 0, 0, 4, 0, 0, 0, 0, 0, 0, 0, 1, 5, 0, 0, 0]
    );
}

#[test]
fn code_blob_entry_size_one_byte_boundary() {
    let blob = build_code_blob(&[], &[], &[0xFF, 0]);
    assert_eq!(blob, vec![2, 0, 0, 0, 1, 0, 0, 0, 0, 0xFF, 0x00]);
}

#[test]
fn standard_program_layout() {
    let code = vec![0, 1, 0];
    let bitmask = vec![1, 1, 1];
    let program = build_standard_program(&[0xAA, 0xBB], &[0xCC], 0x0102, 4096, &code, &bitmask, &[]);
    let blob = build_code_blob(&code, &bitmask, &[]);
    let mut expected = vec![
        2, 0, 0, // |o|
        1, 0, 0, // |w|
        0x02, 0x01, // heap pages
        0x00, 0x10, 0x00, // stack size 4096
        0xAA, 0xBB, // o
        0xCC, // w
    ];
    expected.extend_from_slice(&(blob.len() as u32).to_le_bytes());
    expected.extend_from_slice(&blob);
    assert_eq!(program, expected);
    assert_eq!(program.len(), 11 + 3 + 4 + 13);
}

fn le(bytes: &[u8]) -> u64 {
    bytes.iter().rev().fold(0u64, |acc, &b| (acc << 8) | b as u64)
}

/// Reads a standard program back: (ro, rw, heap pages, stack, jump table, code, mask bits).
fn read_program(p: &[u8]) -> Option<(Vec<u8>, Vec<u8>, u64, u64, Vec<u64>, Vec<u8>, Vec<bool>)> {
    if p.len() < 11 {
        return None;
    }
    let (ro, rw) = (le(&p[0..3]) as usize, le(&p[3..6]) as usize);
    let (heap, stack) = (le(&p[6..8]), le(&p[8..11]));
    let len_at = 11 + ro + rw;
    if p.len() < len_at + 4 {
        return None;
    }
    let blob = &p[len_at + 4..];
    if blob.len() as u64 != le(&p[len_at..len_at + 4]) || blob.len() < 9 {
        return None;
    }
    let (jlen, z, clen) = (le(&blob[0..4]) as usize, blob[4] as usize, le(&blob[5..9]) as usize);
    let code_at = 9 + jlen * z;
    let mask_at = code_at + clen;
    if !(1..=4).contains(&z) || mask_at + clen.div_ceil(8) != blob.len() {
        return None;
    }
    let jumps = (0..jlen).map(|i| le(&blob[9 + i * z..9 + i * z + z])).collect();
    let mask = (0..clen).map(|i| (blob[mask_at + i / 8] >> (i % 8)) & 1 == 1).collect();
    Some((p[11..11 + ro].to_vec(), p[11 + ro..len_at].to_vec(), heap, stack, jumps, blob[code_at..mask_at].to_vec(), mask))
}

#[test]
fn test_build_standard_program_round_trip() {
    let code = vec![0, 1, 0];
    let bitmask = vec![1, 1, 1];
    let blob = build_standard_program(&[], &[], 0, 4096, &code, &bitmask, &[]);

    // Should be readable back as the program it was built from.
    let parts = read_program(&blob);
    assert!(parts.is_some(), "Standard program blob should be loadable");
    assert_eq!(
        parts.unwrap(),
        (vec![], vec![], 0, 4096, vec![], code, vec![true, true, true])
    );
}

#[test]
fn standard_program_round_trip_with_data_and_jumps() {
    let code: Vec<u8> = (0..11).collect();
    let bitmask: Vec<u8> = (0..11).map(|i| if i % 4 == 0 { 9 } else { 0 }).collect();
    let jumps = [0x1_0000, 7, 0x20];
    let blob = build_standard_program(&[1, 2, 3], &[4; 300], 17, 0xFF_FFFF, &code, &bitmask, &jumps);
    let (ro, rw, heap, stack, table, c, mask) = read_program(&blob).expect("readable");
    assert_eq!((ro, rw.len(), heap, stack), (vec![1, 2, 3], 300, 17, 0xFF_FFFF));
    assert_eq!(table, vec![0x1_0000, 7, 0x20]);
    assert_eq!(c, code);
    assert_eq!(mask, bitmask.iter().map(|&b| b != 0).collect::<Vec<_>>());
}
