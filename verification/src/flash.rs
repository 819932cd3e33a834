use vstd::prelude::*;

use crate::types::BootError;

verus! {

/// First unlock key of the flash controller (FLASH_KEYR).
pub const FLASH_KEY1: u32 = 0x4567_0123;

/// Second unlock key of the flash controller (FLASH_KEYR).
pub const FLASH_KEY2: u32 = 0xCDEF_89AB;

/// FLASH_CR bit PG: byte programming enabled.
pub const FLASH_CR_PG: u32 = 0x0000_0001;

/// FLASH_CR bit LOCK: control register locked.
pub const FLASH_CR_LOCK: u32 = 0x8000_0000;

/// FLASH_SR bit BSY: an operation is in progress.
pub const FLASH_SR_BSY: u32 = 0x0001_0000;

/// Start address of flash sector `n` of the STM32F411 (512 KiB: four
/// sectors of 16 KiB, one of 64 KiB, three of 128 KiB).
pub open spec fn sector_start(n: int) -> int {
    if n <= 4 {
        0x0800_0000 + n * 0x4000
    } else {
        0x0802_0000 + (n - 5) * 0x2_0000
    }
}

/// Size in bytes of flash sector `n` of the STM32F411.
pub open spec fn sector_size(n: int) -> int {
    if n <= 3 {
        0x4000
    } else if n == 4 {
        0x1_0000
    } else {
        0x2_0000
    }
}

/// `addr` lies in flash sector `n`.
pub open spec fn in_sector(addr: u32, n: int) -> bool {
    sector_start(n) <= addr < sector_start(n) + sector_size(n)
}

/// The sector that holds `addr`, for an address in the flash.
pub open spec fn sector_of(addr: int) -> int {
    if addr < sector_start(1) {
        0
    } else if addr < sector_start(2) {
        1
    } else if addr < sector_start(3) {
        2
    } else if addr < sector_start(4) {
        3
    } else if addr < sector_start(5) {
        4
    } else if addr < sector_start(6) {
        5
    } else if addr < sector_start(7) {
        6
    } else {
        7
    }
}

/// The sectors `first..=last` are contiguous: every address from the start
/// of `first` to the end of `last` lies in one of them, the one that
/// `sector_of` names.
pub proof fn lemma_sectors_cover(first: int, last: int, addr: int)
    requires
        0 <= first <= last <= 7,
        sector_start(first) <= addr < sector_start(last) + sector_size(last),
    ensures
        first <= sector_of(addr) <= last,
        in_sector_int(addr, sector_of(addr)),
{
}

/// `addr` lies in flash sector `n` (over mathematical integers).
pub open spec fn in_sector_int(addr: int, n: int) -> bool {
    sector_start(n) <= addr < sector_start(n) + sector_size(n)
}

/// The flash sector (2 to 7, the sectors that may hold the application)
/// that contains `addr`; `FlashError` for any address outside them.
pub fn addr_to_sector(addr: u32) -> (r: Result<u8, BootError>)
    ensures
        r matches Ok(n) ==> 2 <= n <= 7 && in_sector(addr, n as int) && n == sector_of(
            addr as int,
        ),
        r is Err ==> r == Err::<u8, BootError>(BootError::FlashError),
        r is Ok <==> sector_start(2) <= addr < sector_start(7) + sector_size(7),
{
    if 0x0800_8000 <= addr && addr <= 0x0800_BFFF {
        Ok(2)
    } else if 0x0800_C000 <= addr && addr <= 0x0800_FFFF {
        Ok(3)
    } else if 0x0801_0000 <= addr && addr <= 0x0801_FFFF {
        Ok(4)
    } else if 0x0802_0000 <= addr && addr <= 0x0803_FFFF {
        Ok(5)
    } else if 0x0804_0000 <= addr && addr <= 0x0805_FFFF {
        Ok(6)
    } else if 0x0806_0000 <= addr && addr <= 0x0807_FFFF {
        Ok(7)
    } else {
        Err(BootError::FlashError)
    }
}

/// The FLASH_CR value that starts the erase of sector `sector`:
/// SNB (bits 3 and up) = `sector`, SER (bit 1) and STRT (bit 16) set.
pub fn flash_erase_command(sector: u8) -> (r: u32)
    ensures
        r == sector * 8 + 2 + 0x1_0000,
{
    let s: u32 = sector as u32;
    let r = (s << 3) | (1 << 1) | (1 << 16);
    assert(r == s * 8 + 2 + 0x1_0000) by (bit_vector)
        requires
            s < 256,
            r == (s << 3) | (1u32 << 1u32) | (1u32 << 16u32),
    ;
    r
}

} // verus!
