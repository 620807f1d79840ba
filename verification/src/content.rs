//! Static content: what the game says about items and locations.

use crate::error::ContentError;
use crate::key::{LocationKey, StateKey};
use crate::keymap::{agrees, covers, lists, KeyMap};
use vstd::prelude::*;

verus! {

/// A collection of states, each with a value.
pub type StateMap<T> = KeyMap<StateKey, T>;

/// Static data on an item.
#[derive(Debug, PartialEq, Eq)]
pub struct ItemData {
    /// The item's name for displaying in the inventory.
    pub name: String,
    /// A longer description for when you are looking at it specifically.
    pub description: String,
}

/// A description of an item or a location.
#[derive(Debug, PartialEq, Eq)]
pub struct Description {
    /// The description is only valid if all these states match the world
    /// state.
    state: StateMap<bool>,
    /// The text of the description.
    short: String,
    /// A longer text, for when the item or location is studied in detail.
    long: String,
}

/// What a description says, and when.
pub struct DescriptionView {
    /// The values that the world state must hold for the description to be
    /// valid.
    pub state: Map<StateKey, bool>,
    /// The text of the description.
    pub short: Seq<char>,
    /// The longer text.
    pub long: Seq<char>,
}

impl View for Description {
    type V = DescriptionView;

    closed spec fn view(&self) -> DescriptionView {
        DescriptionView { state: self.state@, short: self.short@, long: self.long@ }
    }
}

impl Description {
    /// Makes a description that is valid where the world state agrees with
    /// `state`.
    pub fn new(state: StateMap<bool>, short: String, long: String) -> (description: Self)
        ensures
            description@ == (DescriptionView { state: state@, short: short@, long: long@ }),
    {
        Description { state, short, long }
    }

    /// The values that the world state must hold for the description to be
    /// valid.
    pub fn state(&self) -> (state: &StateMap<bool>)
        ensures
            state@ == self@.state,
    {
        &self.state
    }

    /// The text of the description.
    pub fn short(&self) -> (text: &str)
        ensures
            text@ == self@.short,
    {
        self.short.as_str()
    }

    /// The longer text of the description.
    pub fn long(&self) -> (text: &str)
        ensures
            text@ == self@.long,
    {
        self.long.as_str()
    }
}

/// Whether `at` is the position of the first of `descriptions` whose
/// predicate agrees with `world`.
pub open spec fn is_first_match(
    descriptions: Seq<DescriptionView>,
    world: Map<StateKey, bool>,
    at: int,
) -> bool {
    &&& 0 <= at < descriptions.len()
    &&& agrees(world, descriptions[at].state)
    &&& forall|earlier: int| 0 <= earlier < at ==> !agrees(world, #[trigger] descriptions[earlier].state)
}

/// Whether `world` has every key that a predicate of `descriptions` names.
pub open spec fn predicates_known(
    descriptions: Seq<DescriptionView>,
    world: Map<StateKey, bool>,
) -> bool {
    forall|at: int| 0 <= at < descriptions.len() ==> covers(world, #[trigger] descriptions[at].state)
}

/// Whether the last of `descriptions` has a predicate without keys, which
/// agrees with every world state.
pub open spec fn ends_with_catch_all(descriptions: Seq<DescriptionView>) -> bool {
    descriptions.len() > 0 && descriptions.last().state == Map::<StateKey, bool>::empty()
}

/// The first match is one description: two positions that both are the first
/// match are the same position.
pub proof fn lemma_first_match_is_unique(
    descriptions: Seq<DescriptionView>,
    world: Map<StateKey, bool>,
    one: int,
    other: int,
)
    requires
        is_first_match(descriptions, world, one),
        is_first_match(descriptions, world, other),
    ensures
        one == other,
{
}

/// Where the description at `at` agrees with the world state, the list has a
/// first match, at `at` or before it.
pub proof fn lemma_match_has_a_first(
    descriptions: Seq<DescriptionView>,
    world: Map<StateKey, bool>,
    at: int,
)
    requires
        0 <= at < descriptions.len(),
        agrees(world, descriptions[at].state),
    ensures
        exists|first: int| 0 <= first <= at && is_first_match(descriptions, world, first),
    decreases at,
{
    if exists|earlier: int| 0 <= earlier < at && agrees(world, #[trigger] descriptions[earlier].state) {
        let earlier = choose|earlier: int|
            0 <= earlier < at && agrees(world, #[trigger] descriptions[earlier].state);
        lemma_match_has_a_first(descriptions, world, earlier);
    } else {
        assert(is_first_match(descriptions, world, at));
    }
}

/// A list that ends with a catch-all has a match in every world state.
pub proof fn lemma_catch_all_always_matches(
    descriptions: Seq<DescriptionView>,
    world: Map<StateKey, bool>,
)
    requires
        ends_with_catch_all(descriptions),
    ensures
        exists|first: int| is_first_match(descriptions, world, first),
{
    lemma_match_has_a_first(descriptions, world, descriptions.len() - 1);
}

/// What the game says about a location.
#[derive(Debug, PartialEq, Eq)]
pub struct LocationData {
    /// A list of descriptions that are searched until one matches the
    /// current state. The last of this list should be a catch-all.
    descriptions: Vec<Description>,
}

impl View for LocationData {
    type V = Seq<DescriptionView>;

    closed spec fn view(&self) -> Seq<DescriptionView> {
        Seq::new(self.descriptions@.len(), |at: int| self.descriptions@[at]@)
    }
}

impl LocationData {
    /// Makes the data of a location from its descriptions, in the order in
    /// which they are to be searched.
    pub fn new(descriptions: Vec<Description>) -> (data: Self)
        ensures
            data@.len() == descriptions@.len(),
            forall|at: int| 0 <= at < descriptions@.len() ==> data@[at] == descriptions@[at]@,
    {
        LocationData { descriptions }
    }

    /// The number of descriptions.
    pub fn len(&self) -> (n: usize)
        ensures
            n == self@.len(),
    {
        self.descriptions.len()
    }

    /// The description at position `at`.
    pub fn description(&self, at: usize) -> (description: &Description)
        requires
            at < self@.len(),
        ensures
            description@ == self@[at as int],
    {
        &self.descriptions[at]
    }

    /// Whether the list of descriptions ends with a catch-all, as the list
    /// of every location should.
    pub fn has_catch_all(&self) -> (found: bool)
        ensures
            found == ends_with_catch_all(self@),
    {
        let n = self.descriptions.len();
        if n == 0 {
            return false;
        }
        self.descriptions[n - 1].state.is_empty()
    }

    /// Whether `world_state` has every key that a predicate of this location
    /// names.
    pub fn is_covered_by(&self, world_state: &StateMap<bool>) -> (all: bool)
        ensures
            all == predicates_known(self@, world_state@),
    {
        let n = self.descriptions.len();
        let mut at: usize = 0;
        while at < n
            invariant
                at <= n,
                n == self@.len(),
                n == self.descriptions@.len(),
                forall|earlier: int|
                    0 <= earlier < at ==> covers(world_state@, #[trigger] self@[earlier].state),
            decreases n - at,
        {
            if !world_state.covers(&self.descriptions[at].state) {
                assert(!covers(world_state@, self@[at as int].state));
                return false;
            }
            at += 1;
        }
        true
    }

    /// Selects the first description whose predicate agrees with
    /// `world_state`. Without such a description the search is exhausted,
    /// which is a defect of the content.
    pub fn resolve(&self, world_state: &StateMap<bool>) -> (found: Result<&Description, ContentError>)
        requires
            predicates_known(self@, world_state@),
        ensures
            match found {
                Ok(description) => exists|at: int|
                    is_first_match(self@, world_state@, at) && description@ == #[trigger] self@[at],
                Err(error) => error == ContentError::NoMatchingDescription && forall|at: int|
                    0 <= at < self@.len() ==> !agrees(world_state@, #[trigger] self@[at].state),
            },
    {
        let n = self.descriptions.len();
        let mut at: usize = 0;
        while at < n
            invariant
                at <= n,
                n == self@.len(),
                n == self.descriptions@.len(),
                predicates_known(self@, world_state@),
                forall|earlier: int|
                    0 <= earlier < at ==> !agrees(world_state@, #[trigger] self@[earlier].state),
            decreases n - at,
        {
            let description = &self.descriptions[at];
            assert(covers(world_state@, self@[at as int].state));
            if world_state.agrees_with(&description.state) {
                return Ok(description);
            }
            at += 1;
        }
        Err(ContentError::NoMatchingDescription)
    }
}

/// Whether `world` has every key that a predicate of any of `locations`
/// names.
pub open spec fn all_predicates_known(
    locations: Map<LocationKey, LocationData>,
    world: Map<StateKey, bool>,
) -> bool {
    forall|location: LocationKey| #[trigger]
        locations.contains_key(location) ==> predicates_known(locations[location]@, world)
}

/// All the locations, each with what the game says about it.
#[derive(Debug, PartialEq, Eq)]
pub struct Locations(KeyMap<LocationKey, LocationData>);

impl View for Locations {
    type V = Map<LocationKey, LocationData>;

    closed spec fn view(&self) -> Map<LocationKey, LocationData> {
        self.0@
    }
}

impl Locations {
    /// Makes a collection without locations.
    pub fn new() -> (locations: Self)
        ensures
            locations@ == Map::<LocationKey, LocationData>::empty(),
    {
        Locations(KeyMap::new())
    }

    /// Gives the location `key` the data `data`, and hands back the data that
    /// the location had before, if it was known.
    pub fn insert(&mut self, key: LocationKey, data: LocationData) -> (previous: Option<LocationData>)
        ensures
            final(self)@ == old(self)@.insert(key, data),
            match previous {
                Some(held) => old(self)@.contains_key(key) && held == old(self)@[key],
                None => !old(self)@.contains_key(key),
            },
    {
        self.0.insert(key, data)
    }

    /// Whether the location `key` is known.
    pub fn contains_key(&self, key: LocationKey) -> (found: bool)
        ensures
            found == self@.contains_key(key),
    {
        self.0.contains_key(key)
    }

    /// Whether `world_state` has every key that a predicate of any location
    /// names.
    pub fn are_covered_by(&self, world_state: &StateMap<bool>) -> (all: bool)
        ensures
            all == all_predicates_known(self@, world_state@),
    {
        let n = self.0.len();
        let mut at: usize = 0;
        while at < n
            invariant
                at <= n,
                n == self.0.keys().len(),
                lists(self.0.keys(), self@),
                forall|earlier: int|
                    0 <= earlier < at ==> predicates_known(
                        self@[#[trigger] self.0.keys()[earlier]]@,
                        world_state@,
                    ),
            decreases n - at,
        {
            assert(self.0.keys().contains(self.0.keys()[at as int]));
            if !self.0.value_at(at).is_covered_by(world_state) {
                return false;
            }
            at += 1;
        }
        true
    }

    /// The data of the location `key`, if it is known.
    pub fn get(&self, key: LocationKey) -> (data: Option<&LocationData>)
        ensures
            match data {
                Some(held) => self@.contains_key(key) && *held == self@[key],
                None => !self@.contains_key(key),
            },
    {
        self.0.get(key)
    }
}

} // verus!
