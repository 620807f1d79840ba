//! Identifiers for items, locations and world flags.

use vstd::prelude::*;

verus! {

/// The integer behind every identifier.
pub type Key = u32;

/// An identifier that belongs to one domain of the game content.
///
/// Two keys of one domain are the same key exactly when their integers are
/// equal; the order of the integers is the order in which a map lists its keys.
pub trait DomainKey: Copy + Sized {
    /// The integer that identifies the key within its domain.
    spec fn raw(self) -> Key;

    /// Reads the integer that identifies the key.
    fn id(&self) -> (r: Key)
        ensures
            r == self.raw(),
    ;

    /// Distinct keys never share an integer.
    proof fn raw_is_injective(a: Self, b: Self)
        ensures
            a.raw() == b.raw() ==> a == b,
    ;
}

/// Identifies a location.
#[derive(Debug, Copy, Clone, PartialEq, Eq, PartialOrd, Ord, Hash, Structural)]
pub struct LocationKey(pub Key);

/// Identifies a world-state flag.
#[derive(Debug, Copy, Clone, PartialEq, Eq, PartialOrd, Ord, Hash, Structural)]
pub struct StateKey(pub Key);

impl DomainKey for LocationKey {
    open spec fn raw(self) -> Key {
        self.0
    }

    fn id(&self) -> (r: Key) {
        self.0
    }

    proof fn raw_is_injective(a: Self, b: Self) {
    }
}

impl DomainKey for StateKey {
    open spec fn raw(self) -> Key {
        self.0
    }

    fn id(&self) -> (r: Key) {
        self.0
    }

    proof fn raw_is_injective(a: Self, b: Self) {
    }
}

} // verus!
