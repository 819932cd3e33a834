use bootloader::check::check_image;
use bootloader::crc::crc32;
use bootloader::types::{AppHeader, BootError, APP_HEADER_SIZE, APP_MAGIC, MAX_IMAGE_SIZE};

fn region(magic: u32, size: u32, crc: u32, image: &[u8]) -> Vec<u8> {
    let mut r = Vec::new();
    r.extend_from_slice(&magic.to_le_bytes());
    r.extend_from_slice(&0x0001_0002u32.to_le_bytes());
    r.extend_from_slice(&size.to_le_bytes());
    r.extend_from_slice(&crc.to_le_bytes());
    r.extend_from_slice(&0x0800_8101u32.to_le_bytes());
    r.extend_from_slice(image);
    r
}

#[test]
fn header_parse_little_endian() {
    let r = region(APP_MAGIC, 9, 0xCBF4_3926, &[]);
    let h = AppHeader::parse(&r);
    assert_eq!(
        h,
        AppHeader { magic: 0xDEAD_BEEF, version: 0x0001_0002, size: 9, crc32: 0xCBF4_3926, entry_point: 0x0800_8101 }
    );
    assert_eq!(APP_HEADER_SIZE, 20);
}

#[test]
fn check_image_valid() {
    let r = region(APP_MAGIC, 9, 0xCBF4_3926, b"123456789");
    let h = check_image(&r).unwrap();
    assert_eq!(h.size, 9);
    assert_eq!(h.crc32, 0xCBF4_3926);
    assert_eq!(h.entry_point, 0x0800_8101);
}

#[test]
fn check_image_ignores_bytes_after_image() {
    let mut image = b"123456789".to_vec();
    image.extend_from_slice(&[0xFF; 64]);
    let r = region(APP_MAGIC, 9, 0xCBF4_3926, &image);
    assert!(check_image(&r).is_ok());
}

#[test]
fn check_image_blank_flash() {
    let r = vec![0xFFu8; 64];
    assert_eq!(check_image(&r), Err(BootError::InvalidMagic));
}

#[test]
fn check_image_bad_magic_wins() {
    let r = region(0xDEAD_BEEE, MAX_IMAGE_SIZE + 1, 0, &[]);
    assert_eq!(check_image(&r), Err(BootError::InvalidMagic));
}

#[test]
fn check_image_too_large() {
    let r = region(APP_MAGIC, MAX_IMAGE_SIZE + 1, 0, &[]);
    assert_eq!(check_image(&r), Err(BootError::ImageTooLarge));
}

#[test]
fn check_image_bad_crc() {
    let r = region(APP_MAGIC, 9, 0xCBF4_3927, b"123456789");
    assert_eq!(check_image(&r), Err(BootError::InvalidCrc));
}

#[test]
fn check_image_corrupted_byte() {
    let r = region(APP_MAGIC, 9, 0xCBF4_3926, b"123456788");
    assert_eq!(check_image(&r), Err(BootError::InvalidCrc));
}

#[test]
fn check_image_empty_image() {
    let r = region(APP_MAGIC, 0, 0, &[]);
    assert!(check_image(&r).is_ok());
}

#[test]
fn check_image_largest_size() {
    let image = vec![0x5Au8; MAX_IMAGE_SIZE as usize - 1];
    let crc = crc32(&image);
    let r = region(APP_MAGIC, MAX_IMAGE_SIZE - 1, crc, &image);
    assert_eq!(check_image(&r).map(|h| h.size), Ok(MAX_IMAGE_SIZE - 1));
}

#[test]
fn check_image_refuses_480_kib() {
    let image = vec![0x5Au8; MAX_IMAGE_SIZE as usize];
    let crc = crc32(&image);
    let r = region(APP_MAGIC, MAX_IMAGE_SIZE, crc, &image);
    assert_eq!(check_image(&r), Err(BootError::ImageTooLarge));
}
