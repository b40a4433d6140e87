//! The byte order of the machine.

use vstd::prelude::*;

verus! {

/// `u16::from_ne_bytes`: two bytes as a number, in the byte order of the machine. Which of
/// the two orders that is, is left open.
#[verifier::external_body]
pub(crate) fn native_u16(first: u8, second: u8) -> (r: u16)
    ensures
        r == first + 256 * second || r == 256 * first + second,
{
    u16::from_ne_bytes([first, second])
}

} // verus!
