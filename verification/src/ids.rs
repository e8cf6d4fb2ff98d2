//! Identifiers of containers, library items and engine entities.

use vstd::prelude::*;

verus! {

/// Mask of the version nibble and of the two variant bits of a UUID held as a `u128`.
pub const UUID_VERSION_VARIANT_MASK: u128 = 0xF000_C000_0000_0000_0000u128;

/// Version 4 (random) and RFC 4122 variant bits of a UUID held as a `u128`.
pub const UUID_V4_BITS: u128 = 0x4000_8000_0000_0000_0000u128;

/// A fresh random UUID, as its big-endian `u128` value.
///
/// Calls `uuid::Uuid::new_v4` and `Uuid::as_u128`. The value is random, so only
/// the fixed version and variant bits, which `new_v4` sets by masking, are stated.
#[verifier::external_body]
fn random_uuid_value() -> (r: u128)
    ensures
        r & UUID_VERSION_VARIANT_MASK == UUID_V4_BITS,
{
    uuid::Uuid::new_v4().as_u128()
}

/// Identifies a container (a node of the scene) by its UUID value.
#[derive(Clone, Copy, Debug, PartialEq, Eq, Hash, PartialOrd, Ord, Structural)]
pub struct ContainerId(pub u128);

/// Identifies an item of the library (a shape or a texture) by its UUID value.
#[derive(Clone, Copy, Debug, PartialEq, Eq, Hash, PartialOrd, Ord, Structural)]
pub struct LibraryId(pub u128);

impl ContainerId {
    /// A new random container id.
    pub fn new() -> (r: ContainerId)
        ensures
            r.0 & UUID_VERSION_VARIANT_MASK == UUID_V4_BITS,
    {
        ContainerId(random_uuid_value())
    }
}

impl LibraryId {
    /// A new random library id.
    pub fn new() -> (r: LibraryId)
        ensures
            r.0 & UUID_VERSION_VARIANT_MASK == UUID_V4_BITS,
    {
        LibraryId(random_uuid_value())
    }
}

/// An engine entity, held as the packed value of its index and generation.
pub type EntityId = u64;

} // verus!
