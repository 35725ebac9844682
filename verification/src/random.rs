//! Sources of chance: uniform integers from `rand` and fresh identifiers from `uuid`.
use vstd::prelude::*;
use rand::Rng;

verus! {

/// Calls `rand::Rng::gen_range` on the thread-local generator with the range
/// `low..high`. The crate documents that it panics on an empty range and
/// otherwise returns a value of the range; which value is left to chance, so
/// nothing more is claimed.
#[verifier::external_body]
pub(crate) fn random_between(low: i128, high: i128) -> (r: i128)
    requires
        low < high,
    ensures
        low <= r < high,
{
    rand::thread_rng().gen_range(low..high)
}

/// The identifier is a random (version 4) UUID of the RFC 4122 variant: its
/// version field holds 4 and the top two bits of its variant field are `10`.
pub open spec fn is_random_uuid(id: u128) -> bool {
    id & 0x0000_0000_0000_F000_C000_0000_0000_0000u128 == 0x0000_0000_0000_4000_8000_0000_0000_0000u128
}

/// Calls `uuid::Uuid::new_v4` and returns the identifier's 128 bits
/// (`Uuid::as_u128`, big-endian as `Uuid::from_u128` took them). Claimed: the
/// version and variant bits that `new_v4` sets over its random bits, as
/// [`is_random_uuid`] states; the remaining bits are left to chance.
#[verifier::external_body]
pub(crate) fn new_uuid() -> (id: u128)
    ensures
        is_random_uuid(id),
{
    uuid::Uuid::new_v4().as_u128()
}

} // verus!
