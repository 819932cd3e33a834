use vstd::prelude::*;

verus! {

/// Value expected in `AppHeader::magic`. A blank flash area reads as
/// `0xFFFF_FFFF`, so an erased or corrupted header is rejected at once.
pub const APP_MAGIC: u32 = 0xDEAD_BEEF;

/// Flash address where the application area (header, then image) starts.
pub const APP_BASE: u32 = 0x0800_8000;

/// The 480 KiB bound on image sizes (in bytes, header excluded): the
/// application area, header included, spans 480 KiB of flash. A stored image
/// passes `check_image` only below it; the recovery protocol accepts an
/// announced size up to it.
pub const MAX_IMAGE_SIZE: u32 = 491520;

/// Size in bytes of the header laid out at `APP_BASE` (five `u32` fields).
pub const APP_HEADER_SIZE: usize = 20;

/// Header of the application image, stored at the very start of the
/// application area, as five little-endian `u32` words in field order.
#[derive(Clone, Copy, Debug, PartialEq, Eq, Structural)]
pub struct AppHeader {
    /// Must equal `APP_MAGIC`.
    pub magic: u32,
    /// Encoded version (for example `0x0001_0002` for v1.0.2).
    pub version: u32,
    /// Image size in bytes, header excluded.
    pub size: u32,
    /// CRC-32 of the image, header excluded.
    pub crc32: u32,
    /// Entry address of the application.
    pub entry_point: u32,
}

/// Errors of the boot sequence.
#[derive(Clone, Copy, Debug, PartialEq, Eq, Structural)]
pub enum BootError {
    InvalidMagic,
    InvalidCrc,
    ImageTooLarge,
    FlashError,
    UartError,
}

/// The little-endian `u32` stored in `s[off..off + 4]`.
pub open spec fn spec_u32_le(s: Seq<u8>, off: int) -> u32 {
    (s[off] + s[off + 1] * 256 + s[off + 2] * 65536 + s[off + 3] * 16777216) as u32
}

/// The header whose little-endian words are the first twenty bytes of `s`.
pub open spec fn spec_header(s: Seq<u8>) -> AppHeader {
    AppHeader {
        magic: spec_u32_le(s, 0),
        version: spec_u32_le(s, 4),
        size: spec_u32_le(s, 8),
        crc32: spec_u32_le(s, 12),
        entry_point: spec_u32_le(s, 16),
    }
}

/// Each field of the decoded header is the little-endian number held in its
/// four bytes, in field order: magic at 0, version at 4, size at 8, CRC at
/// 12, entry point at 16. Every bit of the stored words is kept.
pub proof fn lemma_header_fields(s: Seq<u8>)
    requires
        s.len() >= 20,
    ensures
        spec_header(s).magic as int == s[0] + s[1] * 256 + s[2] * 65536 + s[3] * 16777216,
        spec_header(s).version as int == s[4] + s[5] * 256 + s[6] * 65536 + s[7] * 16777216,
        spec_header(s).size as int == s[8] + s[9] * 256 + s[10] * 65536 + s[11] * 16777216,
        spec_header(s).crc32 as int == s[12] + s[13] * 256 + s[14] * 65536 + s[15] * 16777216,
        spec_header(s).entry_point as int == s[16] + s[17] * 256 + s[18] * 65536 + s[19]
            * 16777216,
{
}

/// Reads the little-endian `u32` at `bytes[off..off + 4]`.
pub fn read_u32_le(bytes: &[u8], off: usize) -> (r: u32)
    requires
        off + 4 <= bytes@.len(),
    ensures
        r == spec_u32_le(bytes@, off as int),
        r as int == bytes@[off as int] + bytes@[off + 1] * 256 + bytes@[off + 2] * 65536
            + bytes@[off + 3] * 16777216,
{
    let b0 = bytes[off] as u32;
    let b1 = bytes[off + 1] as u32;
    let b2 = bytes[off + 2] as u32;
    let b3 = bytes[off + 3] as u32;
    b0 + b1 * 256 + b2 * 65536 + b3 * 16777216
}

impl AppHeader {
    /// Decodes the header from the first `APP_HEADER_SIZE` bytes of `bytes`.
    pub fn parse(bytes: &[u8]) -> (h: AppHeader)
        requires
            bytes@.len() >= APP_HEADER_SIZE,
        ensures
            h == spec_header(bytes@),
            h.magic as int == bytes@[0] + bytes@[1] * 256 + bytes@[2] * 65536 + bytes@[3]
                * 16777216,
            h.version as int == bytes@[4] + bytes@[5] * 256 + bytes@[6] * 65536 + bytes@[7]
                * 16777216,
            h.size as int == bytes@[8] + bytes@[9] * 256 + bytes@[10] * 65536 + bytes@[11]
                * 16777216,
            h.crc32 as int == bytes@[12] + bytes@[13] * 256 + bytes@[14] * 65536 + bytes@[15]
                * 16777216,
            h.entry_point as int == bytes@[16] + bytes@[17] * 256 + bytes@[18] * 65536
                + bytes@[19] * 16777216,
    {
        proof {
            lemma_header_fields(bytes@);
        }
        AppHeader {
            magic: read_u32_le(bytes, 0),
            version: read_u32_le(bytes, 4),
            size: read_u32_le(bytes, 8),
            crc32: read_u32_le(bytes, 12),
            entry_point: read_u32_le(bytes, 16),
        }
    }
}

} // verus!
