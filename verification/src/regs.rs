use vstd::prelude::*;

verus! {

/// The register value `reg` with the bits selected by `mask` replaced by
/// `value` (read-modify-write of a register field).
pub fn modify_field(reg: u32, mask: u32, value: u32) -> (r: u32)
    requires
        value & !mask == 0,
    ensures
        r & mask == value,
        r & !mask == reg & !mask,
{
    let r = (reg & !mask) | value;
    assert(r & mask == value && r & !mask == reg & !mask) by (bit_vector)
        requires
            value & !mask == 0,
            r == (reg & !mask) | value,
    ;
    r
}

} // verus!
