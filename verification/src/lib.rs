//! State-and-transition core of a text-adventure engine.
//!
//! The crate tracks a player's inventory, a set of named world flags and the
//! current location, and decides which transitions between game states are
//! legal. A transition is applied as one step: all of its changes or none.
//!
//! Every map is closed-world: its key set is fixed when the content is
//! loaded, and every later read or write names a key that is already there.
//! Content is checked against that rule once, with `Game::validate` and
//! `Game::check_transitions`; what passed these checks never meets an unknown
//! key again.
//!
//! - [`key`]: the identifiers of items, locations and flags.
//! - [`keymap`]: the map that inventory and world state are made of, with
//!   the subset check and the merge that both share.
//! - [`inventory`]: the inventory and its description.
//! - [`content`]: descriptions, and the choice of the one that matches.
//! - [`transition`]: game states, transitions, and the step from one state
//!   to the next.
//! - [`selection`]: the choice of the transition that answers a command.
//! - [`game`]: the state together with the content it is played on.
//! - [`error`]: what is reported when content is defective or a command is
//!   refused.

pub mod content;
pub mod error;
pub mod game;
pub mod inventory;
pub mod key;
pub mod keymap;
pub mod selection;
pub mod transition;

pub use content::{Description, ItemData, LocationData, Locations, StateMap};
pub use error::{ContentError, TransitionError};
pub use game::Game;
pub use key::{DomainKey, Key, LocationKey, StateKey};
pub use selection::{find_collision, Selection};
pub use transition::{GameState, Transition, TransitionTest};
