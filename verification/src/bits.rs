//! Single-bit access on bytes, used by the socket allocator bitmap and the
//! PHY configuration register.

use vstd::prelude::*;

verus! {

/// Bit `bit` of `value`, bit 0 being the least significant.
pub open spec fn spec_get_bit(value: u8, bit: u8) -> bool {
    value & (1u8 << bit) != 0
}

/// `value` with bit `bit` forced to `set`, all other bits unchanged.
pub open spec fn spec_set_bit(value: u8, bit: u8, set: bool) -> u8 {
    if set {
        value | (1u8 << bit)
    } else {
        value & !(1u8 << bit)
    }
}

/// Relies on bit_field's `BitField::get_bit` for `u8`: it returns whether
/// `value & (1 << bit)` is non-zero, and panics when `bit` is 8 or more.
#[verifier::external_body]
pub(crate) fn u8_get_bit(value: u8, bit: usize) -> (r: bool)
    requires
        bit < 8,
    ensures
        r == spec_get_bit(value, bit as u8),
{
    bit_field::BitField::get_bit(&value, bit)
}

/// Relies on bit_field's `BitField::set_bit` for `u8`: it ors `1 << bit` in
/// when `set` holds and masks it out otherwise, and panics when `bit` is 8 or
/// more.
#[verifier::external_body]
pub(crate) fn u8_set_bit(value: u8, bit: usize, set: bool) -> (r: u8)
    requires
        bit < 8,
    ensures
        r == spec_set_bit(value, bit as u8, set),
{
    let mut v = value;
    bit_field::BitField::set_bit(&mut v, bit, set);
    v
}

} // verus!
