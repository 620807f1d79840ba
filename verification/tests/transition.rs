use text_adventure::inventory::{Inventory, ItemKey, ItemMap};
use text_adventure::{find_collision, Selection};
use text_adventure::{GameState, LocationKey, StateKey, StateMap, Transition, TransitionError, TransitionTest};

const A: LocationKey = LocationKey(1);
const B: LocationKey = LocationKey(2);
const KEY: u32 = 10;
const LAMP: u32 = 11;
const DOOR_OPEN: u32 = 20;
const HAS_LIGHT: u32 = 21;

fn items(entries: &[(u32, bool)]) -> ItemMap<bool> {
    let mut map = ItemMap::new();
    for (key, value) in entries {
        map.insert(ItemKey(*key), *value);
    }
    map
}

fn flags(entries: &[(u32, bool)]) -> StateMap<bool> {
    let mut map = StateMap::new();
    for (key, value) in entries {
        map.insert(StateKey(*key), *value);
    }
    map
}

fn state(location: LocationKey, inventory: &[(u32, bool)], world: &[(u32, bool)]) -> GameState {
    GameState {
        current_location: location,
        inventory: Inventory(items(inventory)),
        world_state: flags(world),
    }
}

fn transition(
    cmd: &str,
    location: LocationKey,
    required_items: &[(u32, bool)],
    world_state: &[(u32, bool)],
    item_change: &[(u32, bool)],
    state_change: &[(u32, bool)],
    new_location: Option<LocationKey>,
) -> Transition {
    Transition {
        cmd: cmd.to_string(),
        test: TransitionTest {
            location,
            required_items: items(required_items),
            world_state: flags(world_state),
        },
        item_change: items(item_change),
        new_location,
        state_change: flags(state_change),
    }
}

fn take_key() -> Transition {
    transition("take key", A, &[], &[], &[(KEY, true)], &[], None)
}

fn open_door() -> Transition {
    transition("open door", A, &[(KEY, true)], &[], &[], &[(DOOR_OPEN, true)], Some(B))
}

fn start() -> GameState {
    state(A, &[(KEY, false)], &[(DOOR_OPEN, false)])
}

#[test]
fn a_transition_is_legal_only_at_its_location() {
    let test = TransitionTest { location: A, required_items: items(&[]), world_state: flags(&[]) };
    assert!(state(A, &[], &[]).is_applicable(&test));
    assert!(!state(B, &[], &[]).is_applicable(&test));
}

#[test]
fn a_transition_is_legal_only_with_the_required_items() {
    let test = TransitionTest {
        location: A,
        required_items: items(&[(KEY, true), (LAMP, false)]),
        world_state: flags(&[]),
    };
    assert!(state(A, &[(KEY, true), (LAMP, false)], &[]).is_applicable(&test));
    assert!(!state(A, &[(KEY, false), (LAMP, false)], &[]).is_applicable(&test));
    assert!(!state(A, &[(KEY, true), (LAMP, true)], &[]).is_applicable(&test));
}

#[test]
fn a_transition_is_legal_only_in_the_required_world_state() {
    let test = TransitionTest {
        location: A,
        required_items: items(&[]),
        world_state: flags(&[(HAS_LIGHT, true)]),
    };
    assert!(state(A, &[], &[(HAS_LIGHT, true), (DOOR_OPEN, false)]).is_applicable(&test));
    assert!(!state(A, &[], &[(HAS_LIGHT, false), (DOOR_OPEN, false)]).is_applicable(&test));
}

#[test]
fn end_to_end_take_the_key_and_open_the_door() {
    let mut game = start();
    assert!(!game.is_applicable(&open_door().test));
    assert_eq!(game.apply(&take_key()), Ok(()));
    assert_eq!(game.inventory, Inventory(items(&[(KEY, true)])));
    assert_eq!(game.current_location, A);
    assert_eq!(game.world_state, flags(&[(DOOR_OPEN, false)]));
    assert!(game.is_applicable(&open_door().test));
    assert_eq!(game.apply(&open_door()), Ok(()));
    assert_eq!(game.current_location, B);
    assert_eq!(game.world_state, flags(&[(DOOR_OPEN, true)]));
    assert_eq!(game.inventory, Inventory(items(&[(KEY, true)])));
}

#[test]
fn an_illegal_transition_leaves_the_state_untouched() {
    let mut game = start();
    let before = game.clone();
    assert_eq!(game.apply(&open_door()), Err(TransitionError::NotApplicable));
    assert_eq!(game, before);
    assert_eq!(game, start());
}

#[test]
fn an_illegal_transition_is_refused_for_each_reason() {
    let wrong_place = transition("go", B, &[], &[], &[(KEY, true)], &[(DOOR_OPEN, true)], Some(A));
    let wrong_item = transition("go", A, &[(KEY, true)], &[], &[(KEY, false)], &[], Some(B));
    let wrong_flag = transition("go", A, &[], &[(DOOR_OPEN, true)], &[], &[(DOOR_OPEN, false)], None);
    for refused in [wrong_place, wrong_item, wrong_flag] {
        let mut game = start();
        assert_eq!(game.apply(&refused), Err(TransitionError::NotApplicable));
        assert_eq!(game, start());
    }
}

#[test]
fn a_transition_without_a_new_location_stays_in_place() {
    let mut game = start();
    assert_eq!(game.apply(&take_key()), Ok(()));
    assert_eq!(game.current_location, A);
}

#[test]
fn a_transition_changes_only_what_it_names() {
    let mut game = state(A, &[(KEY, false), (LAMP, true)], &[(DOOR_OPEN, false), (HAS_LIGHT, true)]);
    let step = transition("swap", A, &[], &[], &[(KEY, true)], &[(HAS_LIGHT, false)], None);
    assert_eq!(game.apply(&step), Ok(()));
    assert_eq!(
        game,
        state(A, &[(KEY, true), (LAMP, true)], &[(DOOR_OPEN, false), (HAS_LIGHT, false)])
    );
}

#[test]
fn the_key_sets_survive_every_step() {
    let mut game = start();
    let steps = vec![take_key(), open_door()];
    assert!(game.knows_all(&steps));
    for step in &steps {
        assert_eq!(game.apply(step), Ok(()));
        assert!(game.knows_all(&steps));
        assert_eq!(game.inventory.0.len(), 1);
        assert_eq!(game.world_state.len(), 1);
    }
}

#[test]
fn a_state_knows_a_transition_when_it_has_all_its_keys() {
    let game = start();
    assert!(game.knows(&take_key()));
    assert!(game.knows(&open_door()));
    assert!(!game.knows(&transition("x", A, &[(LAMP, true)], &[], &[], &[], None)));
    assert!(!game.knows(&transition("x", A, &[], &[(HAS_LIGHT, true)], &[], &[], None)));
    assert!(!game.knows(&transition("x", A, &[], &[], &[(LAMP, true)], &[], None)));
    assert!(!game.knows(&transition("x", A, &[], &[], &[], &[(HAS_LIGHT, true)], None)));
    assert!(!game.knows_all(&vec![take_key(), transition("x", A, &[(LAMP, true)], &[], &[], &[], None)]));
    assert!(game.knows_all(&vec![]));
}

#[test]
fn select_takes_the_transition_of_the_command() {
    let game = start();
    let all = vec![open_door(), take_key()];
    assert_eq!(
        game.select("take key", &all),
        Ok(Selection { index: 1, ambiguous: false })
    );
}

#[test]
fn select_reports_a_command_without_a_legal_transition() {
    let game = start();
    let all = vec![open_door(), take_key()];
    assert_eq!(game.select("open door", &all), Err(TransitionError::NoValidTransition));
    assert_eq!(game.select("sing", &all), Err(TransitionError::NoValidTransition));
    assert_eq!(game.select("take key", &vec![]), Err(TransitionError::NoValidTransition));
}

#[test]
fn select_resolves_an_ambiguity_to_the_first_defined() {
    let game = state(A, &[(KEY, true)], &[(DOOR_OPEN, false)]);
    let north = transition("go", A, &[], &[], &[], &[], Some(B));
    let locked = transition("go", A, &[(KEY, false)], &[], &[], &[], None);
    let with_key = transition("go", A, &[(KEY, true)], &[], &[], &[(DOOR_OPEN, true)], Some(B));
    let all = vec![locked, with_key, north];
    let cmd = "go";
    for _ in 0..5 {
        assert_eq!(game.select(cmd, &all), Ok(Selection { index: 1, ambiguous: true }));
    }
}

#[test]
fn select_skips_transitions_of_other_commands() {
    let game = state(A, &[(KEY, true)], &[(DOOR_OPEN, false)]);
    let all = vec![
        transition("look", A, &[], &[], &[], &[], None),
        transition("go", B, &[], &[], &[], &[], None),
        transition("go", A, &[], &[], &[], &[], Some(B)),
        transition("look", A, &[], &[], &[], &[], None),
    ];
    assert_eq!(game.select("go", &all), Ok(Selection { index: 2, ambiguous: false }));
    assert_eq!(game.select("look", &all), Ok(Selection { index: 0, ambiguous: true }));
}

#[test]
fn answers_asks_for_the_command_and_the_test() {
    let game = start();
    assert!(game.answers("take key", &take_key()));
    assert!(!game.answers("take", &take_key()));
    assert!(!game.answers("open door", &open_door()));
}

#[test]
fn perform_applies_the_selected_transition() {
    let mut game = start();
    let all = vec![open_door(), take_key()];
    assert_eq!(
        game.perform("take key", &all),
        Ok(Selection { index: 1, ambiguous: false })
    );
    assert_eq!(game, state(A, &[(KEY, true)], &[(DOOR_OPEN, false)]));
    assert_eq!(
        game.perform("open door", &all),
        Ok(Selection { index: 0, ambiguous: false })
    );
    assert_eq!(game, state(B, &[(KEY, true)], &[(DOOR_OPEN, true)]));
}

#[test]
fn perform_leaves_the_state_untouched_without_a_legal_transition() {
    let mut game = start();
    let all = vec![open_door(), take_key()];
    assert_eq!(game.perform("open door", &all), Err(TransitionError::NoValidTransition));
    assert_eq!(game, start());
}

#[test]
fn perform_applies_the_first_of_two_answers() {
    let mut game = start();
    let stay = transition("go", A, &[], &[], &[], &[(DOOR_OPEN, true)], None);
    let leave = transition("go", A, &[], &[], &[(KEY, true)], &[], Some(B));
    let all = vec![stay, leave];
    assert_eq!(game.perform("go", &all), Ok(Selection { index: 0, ambiguous: true }));
    assert_eq!(game, state(A, &[(KEY, false)], &[(DOOR_OPEN, true)]));
}

#[test]
fn transitions_collide_when_their_tests_can_hold_together() {
    let plain = transition("go", A, &[], &[], &[], &[], None);
    let with_key = transition("go", A, &[(KEY, true)], &[], &[], &[], None);
    let without_key = transition("go", A, &[(KEY, false)], &[], &[], &[], None);
    let with_lamp = transition("go", A, &[(LAMP, true)], &[(HAS_LIGHT, true)], &[], &[], None);
    let in_the_dark = transition("go", A, &[(KEY, true)], &[(HAS_LIGHT, false)], &[], &[], None);
    let elsewhere = transition("go", B, &[], &[], &[], &[], None);
    let other_cmd = transition("run", A, &[], &[], &[], &[], None);
    assert!(plain.collides_with(&with_key));
    assert!(with_key.collides_with(&plain));
    assert!(plain.collides_with(&plain));
    assert!(with_key.collides_with(&with_lamp));
    assert!(!with_key.collides_with(&without_key));
    assert!(!with_lamp.collides_with(&in_the_dark));
    assert!(!plain.collides_with(&elsewhere));
    assert!(!plain.collides_with(&other_cmd));
}

#[test]
fn find_collision_gives_the_first_pair() {
    let with_key = || transition("go", A, &[(KEY, true)], &[], &[], &[], None);
    let without_key = || transition("go", A, &[(KEY, false)], &[], &[], &[], None);
    let plain = || transition("go", A, &[], &[], &[], &[], None);
    assert_eq!(find_collision(&vec![]), None);
    assert_eq!(find_collision(&vec![plain()]), None);
    assert_eq!(find_collision(&vec![with_key(), without_key()]), None);
    assert_eq!(find_collision(&vec![take_key(), open_door()]), None);
    assert_eq!(find_collision(&vec![with_key(), without_key(), plain()]), Some((0, 2)));
    assert_eq!(find_collision(&vec![take_key(), with_key(), plain(), plain()]), Some((1, 2)));
    assert_eq!(find_collision(&vec![with_key(), take_key(), plain(), without_key()]), Some((0, 2)));
}

#[test]
fn a_snapshot_is_not_touched_by_later_steps() {
    let mut game = start();
    let snapshot = game.clone();
    assert_eq!(game.apply(&take_key()), Ok(()));
    assert_eq!(snapshot, start());
    assert_ne!(game, snapshot);
}
