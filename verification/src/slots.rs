//! Arithmetic on 256-bit storage slots.

use vstd::prelude::*;

verus! {

/// The largest multiple of the slot width that a `u64` holds.
pub const LAST_BOUNDARY: u64 = 0xFFFF_FFFF_FFFF_FF00;

/// The smallest multiple of 256 that is not below `bits`.
pub open spec fn round_up(bits: nat) -> nat {
    ((bits + 255) / 256 * 256) as nat
}

/// The number of slots needed to hold `bits` bits.
pub open spec fn slots_for(bits: nat) -> nat {
    (bits + 255) / 256
}

/// Rounds `size` up to the next slot boundary.
pub fn snap_to_upper_256(size: u64) -> (r: u64)
    requires
        size <= LAST_BOUNDARY,
    ensures
        r == round_up(size as nat),
        r % 256 == 0,
        size <= r < size + 256,
{
    let over: u64 = size % 256;
    if over == 0 {
        size
    } else {
        size + 256 - over
    }
}

/// The number of slots that `bits` bits occupy.
pub fn slot_count(bits: u64) -> (r: u64)
    ensures
        r == slots_for(bits as nat),
        r * 256 == round_up(bits as nat),
{
    if bits % 256 == 0 {
        bits / 256
    } else {
        bits / 256 + 1
    }
}

} // verus!
