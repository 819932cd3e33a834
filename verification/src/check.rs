use vstd::prelude::*;

use crate::crc::{crc32, spec_crc32};
use crate::types::{
    spec_header, AppHeader, BootError, APP_HEADER_SIZE, APP_MAGIC, MAX_IMAGE_SIZE,
};

verus! {

/// The image bytes that the header of `region` covers: the `size` bytes
/// that follow the header.
pub open spec fn spec_image(region: Seq<u8>) -> Seq<u8> {
    region.subrange(
        APP_HEADER_SIZE as int,
        APP_HEADER_SIZE as int + spec_header(region).size as int,
    )
}

/// What the checks read of `region` exists: the header, and the image
/// bytes whenever the header passes the magic and size checks.
pub open spec fn region_readable(region: Seq<u8>) -> bool {
    &&& region.len() >= APP_HEADER_SIZE
    &&& (spec_header(region).magic == APP_MAGIC && spec_header(region).size < MAX_IMAGE_SIZE)
        ==> region.len() >= APP_HEADER_SIZE as int + spec_header(region).size as int
}

/// Validates the application area `region` (the bytes from `APP_BASE` on):
/// the magic word, then the size (below 480 KiB), then the CRC-32 of the image
/// against the header. Returns the header when all three hold.
pub fn check_image(region: &[u8]) -> (r: Result<AppHeader, BootError>)
    requires
        region_readable(region@),
    ensures
        r == Err::<AppHeader, BootError>(BootError::InvalidMagic) <==> spec_header(region@).magic
            != APP_MAGIC,
        r == Err::<AppHeader, BootError>(BootError::ImageTooLarge) <==> (spec_header(
            region@,
        ).magic == APP_MAGIC && spec_header(region@).size >= MAX_IMAGE_SIZE),
        r == Err::<AppHeader, BootError>(BootError::InvalidCrc) <==> (spec_header(region@).magic
            == APP_MAGIC && spec_header(region@).size < MAX_IMAGE_SIZE && spec_crc32(
            spec_image(region@),
        ) != spec_header(region@).crc32),
        r is Ok <==> (spec_header(region@).magic == APP_MAGIC && spec_header(region@).size
            < MAX_IMAGE_SIZE && spec_crc32(spec_image(region@)) == spec_header(region@).crc32),
        r matches Ok(h) ==> h == spec_header(region@),
{
    let header = AppHeader::parse(region);
    if header.magic != APP_MAGIC {
        return Err(BootError::InvalidMagic);
    }
    if header.size >= MAX_IMAGE_SIZE {
        return Err(BootError::ImageTooLarge);
    }
    let end: usize = APP_HEADER_SIZE + header.size as usize;
    let image = slice_range(region, APP_HEADER_SIZE, end);
    let crc = crc32(image);
    if crc != header.crc32 {
        return Err(BootError::InvalidCrc);
    }
    Ok(header)
}

/// An erased flash area, whose bytes read `0xFF`, never passes as an
/// image: its magic word reads `0xFFFF_FFFF`, so `check_image` reports
/// `InvalidMagic` for it.
pub proof fn lemma_blank_header_rejected(region: Seq<u8>)
    requires
        region.len() >= APP_HEADER_SIZE,
        region[0] == 0xFF,
        region[1] == 0xFF,
        region[2] == 0xFF,
        region[3] == 0xFF,
    ensures
        spec_header(region).magic == 0xFFFF_FFFF,
        spec_header(region).magic != APP_MAGIC,
{
}

/// The bytes `s[start..end]`.
fn slice_range(s: &[u8], start: usize, end: usize) -> (r: &[u8])
    requires
        start <= end <= s@.len(),
    ensures
        r@ == s@.subrange(start as int, end as int),
{
    &s[start..end]
}

} // verus!
