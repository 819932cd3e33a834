use bootloader::crc::{crc32, make_crc32_table};

#[test]
fn crc32_empty() {
    assert_eq!(crc32(&[]), 0x0000_0000);
}

#[test]
fn crc32_known_vector() {
    let data = b"123456789";
    assert_eq!(crc32(data), 0xCBF4_3926);
}

#[test]
fn crc32_single_byte() {
    assert_eq!(crc32(&[0x00]), 0xD202_EF8D);
}

#[test]
fn crc32_text_vector() {
    assert_eq!(crc32(b"The quick brown fox jumps over the lazy dog"), 0x414F_A339);
}

#[test]
fn crc32_all_ones_bytes() {
    assert_eq!(crc32(&[0xFF, 0xFF, 0xFF, 0xFF]), 0xFFFF_FFFF);
}

#[test]
fn crc32_table_entries() {
    let table = make_crc32_table();
    assert_eq!(table.len(), 256);
    assert_eq!(table[0], 0x0000_0000);
    assert_eq!(table[1], 0x7707_3096);
    assert_eq!(table[128], 0xEDB8_8320);
    assert_eq!(table[255], 0x2D02_EF8D);
}

/// Reference bit-by-bit CRC-32, used to cross-check the table-driven one.
fn bitwise_crc32(data: &[u8]) -> u32 {
    let mut crc: u32 = 0xFFFF_FFFF;
    for &b in data {
        crc ^= b as u32;
        for _ in 0..8 {
            crc = if crc & 1 != 0 { (crc >> 1) ^ 0xEDB8_8320 } else { crc >> 1 };
        }
    }
    crc ^ 0xFFFF_FFFF
}

#[test]
fn crc32_matches_bitwise_definition() {
    let data: Vec<u8> = (0..1000u32).map(|i| (i.wrapping_mul(31) ^ (i >> 3)) as u8).collect();
    for len in [0usize, 1, 2, 7, 255, 256, 999, 1000] {
        assert_eq!(crc32(&data[..len]), bitwise_crc32(&data[..len]));
    }
}

#[test]
fn crc32_residue_constant() {
    for data in [&b""[..], &b"123456789"[..], &[0xA5u8; 300][..]] {
        let mut framed = data.to_vec();
        framed.extend_from_slice(&crc32(data).to_le_bytes());
        assert_eq!(crc32(&framed), 0x2144_DF1C);
    }
}

#[test]
fn crc32_affine_over_xor() {
    let a = b"bootloader image".to_vec();
    let b = b"recovery channel".to_vec();
    let c = b"0123456789abcdef".to_vec();
    let x: Vec<u8> = (0..a.len()).map(|i| a[i] ^ b[i] ^ c[i]).collect();
    assert_eq!(crc32(&x), crc32(&a) ^ crc32(&b) ^ crc32(&c));
}

#[test]
fn crc32_detects_single_bit_errors() {
    let data: Vec<u8> = (0..64u32).map(|i| (i * 13) as u8).collect();
    let good = crc32(&data);
    for i in 0..data.len() {
        for bit in 0..8 {
            let mut bad = data.clone();
            bad[i] ^= 1 << bit;
            assert_ne!(crc32(&bad), good);
        }
    }
}
