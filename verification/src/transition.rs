//! The transition engine: which transitions are legal in a game state, and
//! what a legal transition makes of the state.

use crate::content::StateMap;
use crate::error::TransitionError;
use crate::inventory::{Inventory, ItemKey, ItemMap};
use crate::key::{LocationKey, StateKey};
use crate::keymap::{agrees, covers, merged};
use vstd::prelude::*;

verus! {

/// The game state.
#[derive(Debug, PartialEq, Eq)]
pub struct GameState {
    /// The current location as a key.
    pub current_location: LocationKey,
    /// For each item, whether it is present or not.
    pub inventory: Inventory,
    /// All the possible states and whether they are active or not.
    pub world_state: StateMap<bool>,
}

/// A game state as plain values.
pub struct StateView {
    /// The current location.
    pub current_location: LocationKey,
    /// For each known item, whether it is present.
    pub inventory: Map<ItemKey, bool>,
    /// For each known flag, whether it is active.
    pub world_state: Map<StateKey, bool>,
}

impl View for GameState {
    type V = StateView;

    open spec fn view(&self) -> StateView {
        StateView {
            current_location: self.current_location,
            inventory: self.inventory@,
            world_state: self.world_state@,
        }
    }
}

impl Clone for GameState {
    /// Copies the state: a snapshot that later steps do not touch.
    fn clone(&self) -> (copy: Self)
        ensures
            copy@ == self@,
    {
        let copy = GameState {
            current_location: self.current_location,
            inventory: self.inventory.clone(),
            world_state: self.world_state.clone(),
        };
        assert(copy.world_state@ =~= self.world_state@);
        copy
    }
}

/// Information required to test whether a transition is possible.
#[derive(Debug, PartialEq, Eq)]
pub struct TransitionTest {
    /// All transitions are only possible at a single location.
    pub location: LocationKey,
    /// The values that items must have in the inventory for the transition
    /// to be valid.
    pub required_items: ItemMap<bool>,
    /// The values that states must have for the transition to be valid.
    pub world_state: StateMap<bool>,
}

/// The test of a transition as plain values.
pub struct TestView {
    /// The location at which the transition is possible.
    pub location: LocationKey,
    /// The values that items must have in the inventory.
    pub required_items: Map<ItemKey, bool>,
    /// The values that states must have.
    pub world_state: Map<StateKey, bool>,
}

impl View for TransitionTest {
    type V = TestView;

    open spec fn view(&self) -> TestView {
        TestView {
            location: self.location,
            required_items: self.required_items@,
            world_state: self.world_state@,
        }
    }
}

/// A possible transition between states.
#[derive(Debug, PartialEq, Eq)]
pub struct Transition {
    /// The command that corresponds to this transition.
    pub cmd: String,
    /// When this transition is valid.
    pub test: TransitionTest,
    /// All the item changes that happen during this transition. They are
    /// merged with the inventory to update it.
    pub item_change: ItemMap<bool>,
    /// If the transition involves a location change, the new location.
    pub new_location: Option<LocationKey>,
    /// All the world state changes that happen during this transition. They
    /// are merged with the world state to update it.
    pub state_change: StateMap<bool>,
}

/// A transition as plain values.
pub struct TransitionView {
    /// The command that corresponds to the transition.
    pub cmd: Seq<char>,
    /// When the transition is valid.
    pub test: TestView,
    /// The item changes that happen during the transition.
    pub item_change: Map<ItemKey, bool>,
    /// The new location, if the transition changes the location.
    pub new_location: Option<LocationKey>,
    /// The world state changes that happen during the transition.
    pub state_change: Map<StateKey, bool>,
}

impl View for Transition {
    type V = TransitionView;

    open spec fn view(&self) -> TransitionView {
        TransitionView {
            cmd: self.cmd@,
            test: self.test@,
            item_change: self.item_change@,
            new_location: self.new_location,
            state_change: self.state_change@,
        }
    }
}

/// Whether `state` knows every key that `test` names.
pub open spec fn test_known(state: StateView, test: TestView) -> bool {
    &&& covers(state.inventory, test.required_items)
    &&& covers(state.world_state, test.world_state)
}

/// Whether `state` knows every key that `transition` names, in its test and
/// in its changes: the closed-world condition on a transition.
pub open spec fn known(state: StateView, transition: TransitionView) -> bool {
    &&& test_known(state, transition.test)
    &&& covers(state.inventory, transition.item_change)
    &&& covers(state.world_state, transition.state_change)
}

/// Whether a transition with the test `test` is legal in `state`: the player
/// is at its location, and inventory and world state agree with what it
/// requires.
pub open spec fn applicable(state: StateView, test: TestView) -> bool {
    &&& test.location == state.current_location
    &&& agrees(state.inventory, test.required_items)
    &&& agrees(state.world_state, test.world_state)
}

/// The state that `transition` makes of `state`: its item changes merged
/// into the inventory, its state changes merged into the world state, and the
/// player moved to its new location, if it has one.
pub open spec fn applied(state: StateView, transition: TransitionView) -> StateView {
    StateView {
        current_location: match transition.new_location {
            Some(location) => location,
            None => state.current_location,
        },
        inventory: merged(state.inventory, transition.item_change),
        world_state: merged(state.world_state, transition.state_change),
    }
}

/// The transitions of `transitions` as plain values, in their order.
pub open spec fn views(transitions: Seq<Transition>) -> Seq<TransitionView> {
    Seq::new(transitions.len(), |at: int| transitions[at]@)
}

/// Whether `state` knows every key that any of `transitions` names.
pub open spec fn all_known(state: StateView, transitions: Seq<TransitionView>) -> bool {
    forall|at: int| 0 <= at < transitions.len() ==> known(state, #[trigger] transitions[at])
}

impl GameState {
    /// Whether the state knows every key that `transition` names.
    pub fn knows(&self, transition: &Transition) -> (all: bool)
        ensures
            all == known(self@, transition@),
    {
        self.inventory.0.covers(&transition.test.required_items) && self.world_state.covers(
            &transition.test.world_state,
        ) && self.inventory.0.covers(&transition.item_change) && self.world_state.covers(
            &transition.state_change,
        )
    }

    /// Whether the state knows every key that any of `transitions` names.
    pub fn knows_all(&self, transitions: &Vec<Transition>) -> (all: bool)
        ensures
            all == all_known(self@, views(transitions@)),
    {
        let n = transitions.len();
        let mut at: usize = 0;
        while at < n
            invariant
                at <= n,
                n == transitions@.len(),
                forall|earlier: int|
                    0 <= earlier < at ==> known(self@, #[trigger] views(transitions@)[earlier]),
            decreases n - at,
        {
            if !self.knows(&transitions[at]) {
                assert(!known(self@, views(transitions@)[at as int]));
                return false;
            }
            at += 1;
        }
        true
    }

    /// Decides whether a transition with the test `test` is legal in this
    /// state.
    pub fn is_applicable(&self, test: &TransitionTest) -> (legal: bool)
        requires
            test_known(self@, test@),
        ensures
            legal == applicable(self@, test@),
    {
        test.location == self.current_location && self.inventory.check(&test.required_items)
            && self.world_state.agrees_with(&test.world_state)
    }

    /// Applies `transition` if it is legal in this state, as one step: either
    /// all of its changes are made, or the state stays as it was.
    pub fn apply(&mut self, transition: &Transition) -> (done: Result<(), TransitionError>)
        requires
            known(old(self)@, transition@),
        ensures
            match done {
                Ok(_) => applicable(old(self)@, transition@.test) && final(self)@ == applied(
                    old(self)@,
                    transition@,
                ),
                Err(error) => error == TransitionError::NotApplicable && !applicable(
                    old(self)@,
                    transition@.test,
                ) && *final(self) == *old(self),
            },
            final(self)@.inventory.dom() == old(self)@.inventory.dom(),
            final(self)@.world_state.dom() == old(self)@.world_state.dom(),
    {
        if !self.is_applicable(&transition.test) {
            return Err(TransitionError::NotApplicable);
        }
        self.inventory.merge_changes(&transition.item_change);
        self.world_state.merge(&transition.state_change);
        if let Some(location) = transition.new_location {
            self.current_location = location;
        }
        Ok(())
    }
}

/// A transition never changes which keys a state knows: what the state
/// knew before a step, it knows after it.
pub proof fn lemma_known_after_step(state: StateView, step: TransitionView, other: TransitionView)
    requires
        known(state, step),
        known(state, other),
    ensures
        applied(state, step).inventory.dom() == state.inventory.dom(),
        applied(state, step).world_state.dom() == state.world_state.dom(),
        known(applied(state, step), other),
{
}

/// The state reached from `state` by trying `steps` one after the other:
/// a step that is legal where it is tried is applied, any other is skipped.
pub open spec fn after(state: StateView, steps: Seq<TransitionView>) -> StateView
    decreases steps.len(),
{
    if steps.len() == 0 {
        state
    } else {
        let reached = after(state, steps.drop_last());
        if applicable(reached, steps.last().test) {
            applied(reached, steps.last())
        } else {
            reached
        }
    }
}

/// The closed world stays closed: where a state knows every key of the
/// transitions that are tried on it, every state reached by them has the
/// same items and the same flags, and so knows every key that the first
/// state knew.
pub proof fn lemma_world_stays_closed(
    state: StateView,
    steps: Seq<TransitionView>,
    other: TransitionView,
)
    requires
        all_known(state, steps),
        known(state, other),
    ensures
        after(state, steps).inventory.dom() == state.inventory.dom(),
        after(state, steps).world_state.dom() == state.world_state.dom(),
        known(after(state, steps), other),
    decreases steps.len(),
{
    if steps.len() > 0 {
        let earlier = steps.drop_last();
        lemma_world_stays_closed(state, earlier, steps.last());
    }
}

} // verus!
