//! Random draws: schedule offsets and identifiers.

use rand::Rng;
use vstd::prelude::*;

verus! {

/// Calls `rand::thread_rng().gen_range(low..=high)`: a uniformly drawn number
/// of the closed range. The range must not be empty (the call panics then).
#[verifier::external_body]
pub(crate) fn random_in_range(low: u64, high: u64) -> (r: u64)
    requires
        low <= high,
    ensures
        low <= r <= high,
{
    rand::thread_rng().gen_range(low..=high)
}

/// A 128-bit identifier laid out as a random (version 4, RFC 9562 variant)
/// UUID: the version nibble is 4 and the two variant bits are `10`.
pub open spec fn is_uuid_v4(id: u128) -> bool {
    &&& (id >> 76u128) & 0xfu128 == 4u128
    &&& (id >> 62u128) & 0x3u128 == 2u128
}

/// Calls `uuid::Uuid::new_v4` and takes the UUID as its big-endian `u128`
/// (`Uuid::as_u128`). The source masks random bits into the version and
/// variant fields; the contract states those fields. The call panics if the
/// system offers no random bytes, which no argument can rule out.
#[verifier::external_body]
pub(crate) fn new_uuid_v4() -> (id: u128)
    ensures
        is_uuid_v4(id),
{
    uuid::Uuid::new_v4().as_u128()
}

} // verus!
