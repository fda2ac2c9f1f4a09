//! Identifiers of port forwarders.
use vstd::prelude::*;

verus! {

/// What every version-4 UUID value has: the version field (bits 79..76)
/// reads 4 and the variant (bits 63..62) reads `10`.
pub open spec fn has_uuid_v4_shape(id: u128) -> bool {
    &&& (id >> 76u128) & 0xfu128 == 4u128
    &&& (id >> 62u128) & 0x3u128 == 2u128
}

/// A fresh random identifier: the value of a new version-4 UUID
/// (`uuid::Uuid::new_v4`, read with `Uuid::as_u128`). The random bits are
/// unconstrained; the version field reads 4 and the variant bits read `10`.
#[verifier::external_body]
pub(crate) fn fresh_id() -> (id: u128)
    ensures
        (id >> 76u128) & 0xfu128 == 4u128,
        (id >> 62u128) & 0x3u128 == 2u128,
{
    uuid::Uuid::new_v4().as_u128()
}

} // verus!
