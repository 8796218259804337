//! Fixed-capacity entity arena with generation-checked handles, plus a
//! delta codec that writes a compact binary log of the slots that changed
//! between two snapshots of the arena and applies such a log to rebuild
//! the newer snapshot from the older one.

pub mod collection;
pub mod deltaserializable;
pub mod entities;
pub mod entity;
pub mod slots;

pub use crate::collection::Collection;
pub use crate::collection::CollectionIntoIterator;
pub use crate::collection::CollectionIntoIteratorMut;
pub use crate::entities::Entities;
pub use crate::entities::EntitiesIntoIterator;
pub use crate::entities::EntityID;

pub use crate::deltaserializable::DecodeError;
pub use crate::deltaserializable::DeltaSerializable;
pub use crate::entity::Entity;
pub use crate::entity::ID;

// Re-exported for crates that implement the payload contract without
// running the verifier: the ghost members of `DeltaSerializable` and
// `Entity` name these types in their signatures.
pub use vstd::prelude::int;
pub use vstd::prelude::Seq;

use vstd::prelude::*;

verus! {

/// Total number of slots in an arena.
pub const CAPACITY: usize = 65535 / 4;

/// Size of each allocation half.  Slots `0 .. HALF_CAPACITY` form the
/// replicated range (covered by the delta codec), slots
/// `HALF_CAPACITY .. 2 * HALF_CAPACITY` the local range.
pub const HALF_CAPACITY: usize = CAPACITY / 2;

} // verus!
