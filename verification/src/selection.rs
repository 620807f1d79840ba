//! Commands: which transition answers a command in a game state, and what
//! happens where several do.
//!
//! The transition that was defined first wins. That more than one transition
//! answers a command is a defect of the content; it can be found when the
//! content is loaded, and it is reported when it happens.

use crate::error::TransitionError;
use crate::keymap::{compatible, merged};
use crate::transition::{
    all_known, applicable, applied, known, test_known, views, GameState, StateView, Transition,
    TransitionView,
};
use vstd::prelude::*;

verus! {

/// Whether `transition` answers the command `cmd` in `state`: it carries
/// that command and is legal there.
pub open spec fn is_candidate(state: StateView, cmd: Seq<char>, transition: TransitionView) -> bool {
    transition.cmd == cmd && applicable(state, transition.test)
}

/// Whether `at` is the position of the first of `transitions` that answers
/// `cmd` in `state`. Where several transitions answer a command, the one
/// that was defined first wins.
pub open spec fn is_first_candidate(
    state: StateView,
    cmd: Seq<char>,
    transitions: Seq<TransitionView>,
    at: int,
) -> bool {
    &&& 0 <= at < transitions.len()
    &&& is_candidate(state, cmd, transitions[at])
    &&& forall|earlier: int|
        0 <= earlier < at ==> !is_candidate(state, cmd, #[trigger] transitions[earlier])
}

/// Whether more than one of `transitions` answers `cmd` in `state`.
pub open spec fn is_ambiguous(
    state: StateView,
    cmd: Seq<char>,
    transitions: Seq<TransitionView>,
) -> bool {
    exists|first: int, second: int|
        #![trigger transitions[first], transitions[second]]
        0 <= first < second < transitions.len() && is_candidate(state, cmd, transitions[first])
            && is_candidate(state, cmd, transitions[second])
}

/// Whether none of `transitions` answers `cmd` in `state`.
pub open spec fn no_candidate(
    state: StateView,
    cmd: Seq<char>,
    transitions: Seq<TransitionView>,
) -> bool {
    forall|at: int|
        0 <= at < transitions.len() ==> !is_candidate(state, cmd, #[trigger] transitions[at])
}

/// Whether `one` and `other` can answer the same command in the same state:
/// they carry the same command at the same location, and nothing that one of
/// them requires contradicts what the other requires.
pub open spec fn can_collide(one: TransitionView, other: TransitionView) -> bool {
    &&& one.cmd == other.cmd
    &&& one.test.location == other.test.location
    &&& compatible(one.test.required_items, other.test.required_items)
    &&& compatible(one.test.world_state, other.test.world_state)
}

/// Whether no two of `transitions` can collide.
pub open spec fn collision_free(transitions: Seq<TransitionView>) -> bool {
    forall|first: int, second: int|
        #![trigger transitions[first], transitions[second]]
        0 <= first < second < transitions.len() ==> !can_collide(
            transitions[first],
            transitions[second],
        )
}

/// Whether the pair of positions `(first, second)` comes before the pair
/// `(other_first, other_second)` or is that pair.
pub open spec fn pair_not_after(first: int, second: int, other_first: int, other_second: int) -> bool {
    first < other_first || (first == other_first && second <= other_second)
}

/// The transition that was chosen for a command.
#[derive(Debug, Copy, Clone, PartialEq, Eq, Structural)]
pub struct Selection {
    /// The position of the chosen transition in the list that was searched.
    pub index: usize,
    /// Whether a later transition of the list answers the command as well:
    /// a defect of the content, which the choice of the first resolves.
    pub ambiguous: bool,
}

impl Transition {
    /// Whether this transition and `other` can answer the same command in
    /// the same state.
    pub fn collides_with(&self, other: &Transition) -> (collide: bool)
        ensures
            collide == can_collide(self@, other@),
    {
        self.cmd == other.cmd && self.test.location == other.test.location
            && self.test.required_items.is_compatible_with(&other.test.required_items)
            && self.test.world_state.is_compatible_with(&other.test.world_state)
    }
}

/// Looks for two transitions that can answer the same command in the same
/// state, and gives the positions of the first such pair.
pub fn find_collision(transitions: &Vec<Transition>) -> (found: Option<(usize, usize)>)
    ensures
        match found {
            Some((first, second)) => first < second < transitions@.len() && can_collide(
                views(transitions@)[first as int],
                views(transitions@)[second as int],
            ) && forall|a: int, b: int|
                #![trigger views(transitions@)[a], views(transitions@)[b]]
                0 <= a < b < transitions@.len() && can_collide(
                    views(transitions@)[a],
                    views(transitions@)[b],
                ) ==> pair_not_after(first as int, second as int, a, b),
            None => collision_free(views(transitions@)),
        },
{
    let ghost all = views(transitions@);
    let n = transitions.len();
    let mut first: usize = 0;
    while first < n
        invariant
            first <= n,
            n == transitions@.len(),
            all == views(transitions@),
            forall|a: int, b: int|
                #![trigger all[a], all[b]]
                0 <= a < first && a < b < n ==> !can_collide(all[a], all[b]),
        decreases n - first,
    {
        let mut second: usize = first + 1;
        while second < n
            invariant
                first < second <= n,
                n == transitions@.len(),
                all == views(transitions@),
                forall|a: int, b: int|
                    #![trigger all[a], all[b]]
                    0 <= a < first && a < b < n ==> !can_collide(all[a], all[b]),
                forall|b: int|
                    first < b < second ==> !can_collide(all[first as int], #[trigger] all[b]),
            decreases n - second,
        {
            if transitions[first].collides_with(&transitions[second]) {
                return Some((first, second));
            }
            second += 1;
        }
        first += 1;
    }
    None
}

impl GameState {
    /// Whether `transition` carries the command `cmd` and is legal in this
    /// state.
    fn is_answered_by(&self, cmd: &String, transition: &Transition) -> (answer: bool)
        requires
            test_known(self@, transition@.test),
        ensures
            answer == is_candidate(self@, cmd@, transition@),
    {
        transition.cmd == *cmd && self.is_applicable(&transition.test)
    }

    /// Whether `transition` answers the command `cmd` in this state.
    pub fn answers(&self, cmd: &str, transition: &Transition) -> (answer: bool)
        requires
            test_known(self@, transition@.test),
        ensures
            answer == is_candidate(self@, cmd@, transition@),
    {
        let cmd = String::from_str(cmd);
        self.is_answered_by(&cmd, transition)
    }

    /// Chooses the transition for the command `cmd`: the first of
    /// `transitions` that carries the command and is legal in this state.
    /// The result also says whether a later one would have answered too.
    pub fn select(&self, cmd: &str, transitions: &Vec<Transition>) -> (chosen: Result<
        Selection,
        TransitionError,
    >)
        requires
            all_known(self@, views(transitions@)),
        ensures
            match chosen {
                Ok(selection) => is_first_candidate(
                    self@,
                    cmd@,
                    views(transitions@),
                    selection.index as int,
                ) && selection.ambiguous == is_ambiguous(self@, cmd@, views(transitions@)),
                Err(error) => error == TransitionError::NoValidTransition && no_candidate(
                    self@,
                    cmd@,
                    views(transitions@),
                ),
            },
    {
        let ghost all = views(transitions@);
        let wanted = String::from_str(cmd);
        let n = transitions.len();
        let mut first: usize = 0;
        let mut found = false;
        while first < n && !found
            invariant
                first <= n,
                n == transitions@.len(),
                all == views(transitions@),
                wanted@ == cmd@,
                all_known(self@, all),
                found ==> first < n && is_candidate(self@, cmd@, all[first as int]),
                forall|earlier: int|
                    0 <= earlier < first ==> !is_candidate(self@, cmd@, #[trigger] all[earlier]),
            decreases n - first + (if found { 0int } else { 1int }),
        {
            assert(known(self@, all[first as int]));
            if self.is_answered_by(&wanted, &transitions[first]) {
                found = true;
            } else {
                first += 1;
            }
        }
        if !found {
            return Err(TransitionError::NoValidTransition);
        }
        let mut later: usize = first + 1;
        while later < n
            invariant
                first < later <= n,
                n == transitions@.len(),
                all == views(transitions@),
                wanted@ == cmd@,
                all_known(self@, all),
                is_first_candidate(self@, cmd@, all, first as int),
                forall|between: int|
                    first < between < later ==> !is_candidate(self@, cmd@, #[trigger] all[between]),
            decreases n - later,
        {
            assert(known(self@, all[later as int]));
            if self.is_answered_by(&wanted, &transitions[later]) {
                return Ok(Selection { index: first, ambiguous: true });
            }
            later += 1;
        }
        Ok(Selection { index: first, ambiguous: false })
    }

    /// Performs the command `cmd`: chooses its transition as `select` does
    /// and applies it. Where no transition answers, the state stays as it
    /// was.
    pub fn perform(&mut self, cmd: &str, transitions: &Vec<Transition>) -> (done: Result<
        Selection,
        TransitionError,
    >)
        requires
            all_known(old(self)@, views(transitions@)),
        ensures
            match done {
                Ok(selection) => is_first_candidate(
                    old(self)@,
                    cmd@,
                    views(transitions@),
                    selection.index as int,
                ) && selection.ambiguous == is_ambiguous(old(self)@, cmd@, views(transitions@))
                    && final(self)@ == applied(
                    old(self)@,
                    views(transitions@)[selection.index as int],
                ),
                Err(error) => error == TransitionError::NoValidTransition && no_candidate(
                    old(self)@,
                    cmd@,
                    views(transitions@),
                ) && *final(self) == *old(self),
            },
            final(self)@.inventory.dom() == old(self)@.inventory.dom(),
            final(self)@.world_state.dom() == old(self)@.world_state.dom(),
    {
        match self.select(cmd, transitions) {
            Ok(selection) => {
                let step = self.apply(&transitions[selection.index]);
                Ok(selection)
            },
            Err(error) => Err(error),
        }
    }
}

/// The choice among several answers is fixed by the list alone: a command
/// has at most one first candidate in a state.
pub proof fn lemma_choice_is_determined(
    state: StateView,
    cmd: Seq<char>,
    transitions: Seq<TransitionView>,
    one: int,
    other: int,
)
    requires
        is_first_candidate(state, cmd, transitions, one),
        is_first_candidate(state, cmd, transitions, other),
    ensures
        one == other,
{
}

/// Transitions of which no two can collide never make a command ambiguous,
/// in whatever state.
pub proof fn lemma_collision_free_is_unambiguous(
    state: StateView,
    cmd: Seq<char>,
    transitions: Seq<TransitionView>,
)
    requires
        collision_free(transitions),
    ensures
        !is_ambiguous(state, cmd, transitions),
{
}

/// The state in which two transitions that can collide do collide: `state`
/// moved to their location, with what both of them require merged in.
pub open spec fn meeting_state(state: StateView, one: TransitionView, other: TransitionView) -> StateView {
    StateView {
        current_location: one.test.location,
        inventory: merged(
            merged(state.inventory, one.test.required_items),
            other.test.required_items,
        ),
        world_state: merged(merged(state.world_state, one.test.world_state), other.test.world_state),
    }
}

/// Two transitions that can collide do so in some state of the same closed
/// world: in their meeting state both answer their command.
pub proof fn lemma_collision_can_happen(state: StateView, one: TransitionView, other: TransitionView)
    requires
        can_collide(one, other),
        known(state, one),
        known(state, other),
    ensures
        meeting_state(state, one, other).inventory.dom() == state.inventory.dom(),
        meeting_state(state, one, other).world_state.dom() == state.world_state.dom(),
        is_candidate(meeting_state(state, one, other), one.cmd, one),
        is_candidate(meeting_state(state, one, other), one.cmd, other),
{
}

/// A command is ambiguous exactly when a transition after its first
/// candidate answers it too.
pub proof fn lemma_ambiguity_is_a_second_answer(
    state: StateView,
    cmd: Seq<char>,
    transitions: Seq<TransitionView>,
    first: int,
)
    requires
        is_first_candidate(state, cmd, transitions, first),
    ensures
        is_ambiguous(state, cmd, transitions) <==> exists|later: int|
            first < later < transitions.len() && is_candidate(
                state,
                cmd,
                #[trigger] transitions[later],
            ),
{
}

} // verus!
