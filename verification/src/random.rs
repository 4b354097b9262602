//! Chance.

use rand::Rng;
use crate::call::result_of;
use vstd::prelude::*;

verus! {

/// Calls `Rng::random` of the generator that `rand::rng` gives, for an array of bytes. Nothing
/// is claimed of the bytes: each call draws anew.
#[verifier::external_body]
pub(crate) fn random_bytes<const N: usize>() -> (r: [u8; N]) {
    rand::rng().random()
}

/// The bytes are ones that chance drew.
pub closed spec fn drawn<const N: usize>(bytes: [u8; N]) -> bool {
    call_ensures(random_bytes::<N>, (), bytes)
}

/// Draws bytes at random.
pub(crate) fn draw<const N: usize>() -> (r: [u8; N])
    ensures
        drawn(r),
{
    result_of(random_bytes::<N>)
}

} // verus!
