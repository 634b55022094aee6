use vstd::prelude::*;

verus! {

/// Whether `id` has the shape of a random UUID: version 4 of the variant of RFC 9562.
pub open spec fn is_random_uuid(id: u128) -> bool {
    (id >> 76u128) & 0xfu128 == 4 && (id >> 62u128) & 0x3u128 == 2
}

/// A new identifier for a position, an order or a session: a random
/// UUID from `uuid::Uuid::new_v4`, as its 128-bit number. Its version and
/// variant bits are fixed; nothing is promised of the others.
#[verifier::external_body]
pub(crate) fn fresh_id() -> (r: u128)
    ensures
        is_random_uuid(r),
{
    uuid::Uuid::new_v4().as_u128()
}

} // verus!
