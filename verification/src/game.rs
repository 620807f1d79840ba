//! The game: the one live state together with the static content.

use crate::content::{all_predicates_known, is_first_match, Description, ItemData, Locations};
use crate::error::{ContentError, TransitionError};
use crate::inventory::{inventory_text, ItemMap};
use crate::keymap::{agrees, covers};
use crate::selection::{collision_free, find_collision};
use crate::transition::{applicable, applied, known, views, GameState, Transition, TransitionView};
use vstd::prelude::*;

verus! {

/// A running game.
#[derive(Debug, PartialEq, Eq)]
pub struct Game {
    /// The current state of the game.
    pub state: GameState,
    /// The data of every item.
    pub items: ItemMap<ItemData>,
    /// The data of every location.
    pub locations: Locations,
}

impl Game {
    /// Whether state and content fit together: the current location is a
    /// known location, the inventory has exactly the items that have data,
    /// and the world state has every flag that a description asks for.
    pub open spec fn wf(&self) -> bool {
        &&& self.locations@.contains_key(self.state.current_location)
        &&& covers(self.items@, self.state.inventory@)
        &&& covers(self.state.inventory@, self.items@)
        &&& all_predicates_known(self.locations@, self.state.world_state@)
    }

    /// Whether `transition` names only what this game knows: items of the
    /// inventory, flags of the world state, and known locations.
    pub open spec fn admits(&self, transition: TransitionView) -> bool {
        &&& known(self.state@, transition)
        &&& self.locations@.contains_key(transition.test.location)
        &&& match transition.new_location {
            Some(location) => self.locations@.contains_key(location),
            None => true,
        }
    }

    /// Whether every one of `transitions` names only what this game knows.
    pub open spec fn admits_all(&self, transitions: Seq<TransitionView>) -> bool {
        forall|at: int| 0 <= at < transitions.len() ==> self.admits(#[trigger] transitions[at])
    }

    /// Checks that state and content fit together.
    pub fn validate(&self) -> (checked: Result<(), ContentError>)
        ensures
            checked is Ok <==> self.wf(),
            checked is Err ==> checked == Err::<(), ContentError>(ContentError::UnknownKey),
    {
        if self.locations.contains_key(self.state.current_location) && self.items.covers(
            &self.state.inventory.0,
        ) && self.state.inventory.0.covers(&self.items) && self.locations.are_covered_by(
            &self.state.world_state,
        ) {
            Ok(())
        } else {
            Err(ContentError::UnknownKey)
        }
    }

    /// Makes a game from a starting state and the static content, once they
    /// are found to fit together.
    pub fn new(state: GameState, items: ItemMap<ItemData>, locations: Locations) -> (made: Result<
        Game,
        ContentError,
    >)
        ensures
            match made {
                Ok(game) => game.wf() && game.state == state && game.items == items && game.locations
                    == locations,
                Err(error) => error == ContentError::UnknownKey && !(Game { state, items, locations }).wf(),
            },
    {
        let game = Game { state, items, locations };
        match game.validate() {
            Ok(_) => Ok(game),
            Err(error) => Err(error),
        }
    }

    /// Checks that `transition` names only what this game knows.
    pub fn check_transition(&self, transition: &Transition) -> (checked: Result<(), ContentError>)
        ensures
            checked is Ok <==> self.admits(transition@),
            checked is Err ==> checked == Err::<(), ContentError>(ContentError::UnknownKey),
    {
        let target_known = match transition.new_location {
            Some(location) => self.locations.contains_key(location),
            None => true,
        };
        if target_known && self.locations.contains_key(transition.test.location) && self.state.knows(
            transition,
        ) {
            Ok(())
        } else {
            Err(ContentError::UnknownKey)
        }
    }

    /// Checks the transitions of a game when they are loaded: that every one
    /// of them names only what this game knows, and that no two of them can
    /// answer the same command in the same state. An unknown key is reported
    /// before an ambiguity.
    pub fn check_transitions(&self, transitions: &Vec<Transition>) -> (checked: Result<
        (),
        ContentError,
    >)
        ensures
            checked is Ok <==> self.admits_all(views(transitions@)) && collision_free(
                views(transitions@),
            ),
            checked == Err::<(), ContentError>(ContentError::UnknownKey) <==> !self.admits_all(
                views(transitions@),
            ),
            checked == Err::<(), ContentError>(ContentError::AmbiguousTransition)
                <==> self.admits_all(views(transitions@)) && !collision_free(views(transitions@)),
    {
        let n = transitions.len();
        let mut at: usize = 0;
        while at < n
            invariant
                at <= n,
                n == transitions@.len(),
                forall|earlier: int|
                    0 <= earlier < at ==> self.admits(#[trigger] views(transitions@)[earlier]),
            decreases n - at,
        {
            if self.check_transition(&transitions[at]).is_err() {
                assert(!self.admits(views(transitions@)[at as int]));
                return Err(ContentError::UnknownKey);
            }
            at += 1;
        }
        match find_collision(transitions) {
            Some(_) => Err(ContentError::AmbiguousTransition),
            None => Ok(()),
        }
    }

    /// Applies `transition` if it is legal in the current state, as one
    /// step. The content is never touched, and where the transition is not
    /// legal the state stays as it was.
    pub fn apply(&mut self, transition: &Transition) -> (done: Result<(), TransitionError>)
        requires
            old(self).wf(),
            old(self).admits(transition@),
        ensures
            match done {
                Ok(_) => applicable(old(self).state@, transition@.test) && final(self).state@
                    == applied(old(self).state@, transition@),
                Err(error) => error == TransitionError::NotApplicable && !applicable(
                    old(self).state@,
                    transition@.test,
                ) && *final(self) == *old(self),
            },
            final(self).items == old(self).items,
            final(self).locations == old(self).locations,
            final(self).wf(),
            forall|other: TransitionView| old(self).admits(other) ==> final(self).admits(other),
    {
        self.state.apply(transition)
    }

    /// Selects the description of the current location: the first one whose
    /// predicate agrees with the world state.
    pub fn describe_current_location(&self) -> (found: Result<&Description, ContentError>)
        requires
            self.wf(),
        ensures
            match found {
                Ok(description) => exists|at: int|
                    is_first_match(
                        self.locations@[self.state.current_location]@,
                        self.state.world_state@,
                        at,
                    ) && description@ == #[trigger] self.locations@[self.state.current_location]@[at],
                Err(error) => error == ContentError::NoMatchingDescription && forall|at: int|
                    0 <= at < self.locations@[self.state.current_location]@.len() ==> !agrees(
                        self.state.world_state@,
                        #[trigger] self.locations@[self.state.current_location]@[at].state,
                    ),
            },
    {
        match self.locations.get(self.state.current_location) {
            Some(data) => data.resolve(&self.state.world_state),
            None => vstd::pervasive::unreached(),
        }
    }

    /// Describes the contents of the inventory, each present item by its
    /// name.
    pub fn describe_inventory(&self) -> (text: String)
        requires
            self.wf(),
        ensures
            text@ == inventory_text(self.state.inventory@, self.items@),
    {
        self.state.inventory.describe(&self.items)
    }
}

} // verus!
