//! Identifiers that tell outputs apart.

use vstd::prelude::*;

verus! {

/// Whether 128 bits are a random UUID: the four bits of its version are 4, and
/// the two bits of its variant are binary 10.
pub open spec fn is_random_uuid(id: u128) -> bool {
    &&& (id as nat / 0x1000_0000_0000_0000_0000nat) % 16 == 4
    &&& (id as nat / 0x4000_0000_0000_0000nat) % 4 == 2
}

/// `uuid::Uuid::new_v4`: a random UUID, as its 128 bits. All of them but those of
/// the version and the variant are left to chance.
#[verifier::external_body]
pub(crate) fn new_unique_id() -> (id: u128)
    ensures
        is_random_uuid(id),
{
    uuid::Uuid::new_v4().as_u128()
}

} // verus!
