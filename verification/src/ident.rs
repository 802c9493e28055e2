//! Fresh identifiers for entities.

use vstd::prelude::*;

verus! {

/// The bits that every random (version 4) identifier has in common: the
/// version nibble is 4 and the two variant bits are `10`.
pub open spec fn is_random_id(id: u128) -> bool {
    id & 0x0000_0000_0000_f000_c000_0000_0000_0000u128
        == 0x0000_0000_0000_4000_8000_0000_0000_0000u128
}

/// Calls `uuid::Uuid::new_v4` and unpacks the result with `Uuid::as_u128`
/// (big-endian, so integer order is the identifier's own order).
///
/// Trusted: the value is random, so the contract only names what the source
/// fixes for every outcome, the version and variant bits. The call panics if
/// the operating system cannot supply random bytes.
#[verifier::external_body]
pub(crate) fn fresh_id() -> (id: u128)
    ensures
        is_random_id(id),
{
    uuid::Uuid::new_v4().as_u128()
}

/// What `Uuid`'s `Display` writes for an identifier: its hexadecimal
/// digits in lower case, in groups of 8, 4, 4, 4 and 12 joined by hyphens.
pub uninterp spec fn id_text(id: u128) -> Seq<char>;

/// Packs `id` with `uuid::Uuid::from_u128` and writes it with `to_string`.
///
/// Trusted: the text depends on the identifier alone and is named `id_text`.
#[verifier::external_body]
pub(crate) fn write_id(id: u128) -> (text: String)
    ensures
        text@ == id_text(id),
{
    uuid::Uuid::from_u128(id).to_string()
}

} // verus!
