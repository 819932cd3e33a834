use bootloader::flash::{addr_to_sector, flash_erase_command, FLASH_CR_LOCK, FLASH_CR_PG};
use bootloader::regs::modify_field;
use bootloader::types::{BootError, APP_BASE};

#[test]
fn sector_of_app_base() {
    assert_eq!(addr_to_sector(APP_BASE), Ok(2));
}

#[test]
fn sector_boundaries() {
    assert_eq!(addr_to_sector(0x0800_BFFF), Ok(2));
    assert_eq!(addr_to_sector(0x0800_C000), Ok(3));
    assert_eq!(addr_to_sector(0x0800_FFFF), Ok(3));
    assert_eq!(addr_to_sector(0x0801_0000), Ok(4));
    assert_eq!(addr_to_sector(0x0801_FFFF), Ok(4));
    assert_eq!(addr_to_sector(0x0802_0000), Ok(5));
    assert_eq!(addr_to_sector(0x0803_FFFF), Ok(5));
    assert_eq!(addr_to_sector(0x0804_0000), Ok(6));
    assert_eq!(addr_to_sector(0x0805_FFFF), Ok(6));
    assert_eq!(addr_to_sector(0x0806_0000), Ok(7));
    assert_eq!(addr_to_sector(0x0807_FFFF), Ok(7));
}

#[test]
fn sector_outside_app_area() {
    assert_eq!(addr_to_sector(0x0800_0000), Err(BootError::FlashError));
    assert_eq!(addr_to_sector(0x0800_7FFF), Err(BootError::FlashError));
    assert_eq!(addr_to_sector(0x0808_0000), Err(BootError::FlashError));
    assert_eq!(addr_to_sector(0), Err(BootError::FlashError));
    assert_eq!(addr_to_sector(u32::MAX), Err(BootError::FlashError));
}

#[test]
fn erase_command_word() {
    assert_eq!(flash_erase_command(2), 0x0001_0012);
    assert_eq!(flash_erase_command(7), 0x0001_003A);
    assert_eq!(flash_erase_command(0), 0x0001_0002);
}

#[test]
fn modify_field_sets_and_clears() {
    // PA2 and PA3 to alternate function mode.
    assert_eq!(modify_field(0xA800_0000, 0xF0, 0xA0), 0xA800_00A0);
    assert_eq!(modify_field(0xFFFF_FFFF, 0xF0, 0xA0), 0xFFFF_FFAF);
    // PA2 and PA3 to AF7.
    assert_eq!(modify_field(0x1234_5678, 0x00FF_FF00, 0x0077_7700), 0x1277_7778);
    // PG set and clear, LOCK set.
    assert_eq!(modify_field(0x0000_0080, FLASH_CR_PG, FLASH_CR_PG), 0x0000_0081);
    assert_eq!(modify_field(0x0000_0081, FLASH_CR_PG, 0), 0x0000_0080);
    assert_eq!(modify_field(0x0000_0000, FLASH_CR_LOCK, FLASH_CR_LOCK), 0x8000_0000);
}
