//! Entity identifiers.
use vstd::prelude::*;

verus! {

/// An entity of the game world, identified by its bits.
#[derive(Clone, Copy, Debug, PartialEq, Eq, Structural)]
pub struct Entity(pub u64);

/// The numeric id of an entry in one of the game's registries (entity types, blocks).
#[derive(Clone, Copy, Debug, PartialEq, Eq, Structural)]
pub struct RegistryId(pub u32);

} // verus!
