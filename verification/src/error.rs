//! What can go wrong, and who is to blame for it.

use vstd::prelude::*;

verus! {

/// A defect of the static content. It is the author's to mend, and is best
/// found when the content is loaded.
#[derive(Debug, Copy, Clone, PartialEq, Eq, Structural)]
pub enum ContentError {
    /// A key is named that the closed-world map it belongs to does not have.
    UnknownKey,
    /// No description of a location matches the world state: the list lacks
    /// its catch-all.
    NoMatchingDescription,
    /// Two transitions can answer the same command in the same state.
    AmbiguousTransition,
}

/// The outcome of a command that changed nothing. It is part of the normal
/// flow of a game and is reported to the player.
#[derive(Debug, Copy, Clone, PartialEq, Eq, Structural)]
pub enum TransitionError {
    /// The transition that was handed in is not legal in the current state.
    NotApplicable,
    /// No transition of the given command is legal in the current state.
    NoValidTransition,
}

} // verus!
