use text_adventure::keymap::KeyMap;
use text_adventure::{DomainKey, StateKey, StateMap};

fn flags(entries: &[(u32, bool)]) -> StateMap<bool> {
    let mut map = StateMap::new();
    for (key, value) in entries {
        map.insert(StateKey(*key), *value);
    }
    map
}

#[test]
fn new_map_has_no_keys() {
    let map: StateMap<bool> = KeyMap::new();
    assert_eq!(map.len(), 0);
    assert_eq!(map.get(StateKey(0)), None);
    assert!(!map.contains_key(StateKey(0)));
}

#[test]
fn insert_reports_the_previous_value() {
    let mut map = StateMap::new();
    assert_eq!(map.insert(StateKey(7), true), None);
    assert_eq!(map.insert(StateKey(7), false), Some(true));
    assert_eq!(map.insert(StateKey(7), false), Some(false));
    assert_eq!(map.len(), 1);
    assert_eq!(map.get(StateKey(7)), Some(&false));
}

#[test]
fn keys_are_listed_in_ascending_order_whatever_the_insertion_order() {
    let map = flags(&[(30, true), (10, false), (20, true), (0, false), (u32::MAX, true)]);
    assert_eq!(map.len(), 5);
    let keys: Vec<StateKey> = (0..map.len()).map(|at| map.key_at(at)).collect();
    assert_eq!(
        keys,
        vec![StateKey(0), StateKey(10), StateKey(20), StateKey(30), StateKey(u32::MAX)]
    );
    let values: Vec<bool> = (0..map.len()).map(|at| *map.value_at(at)).collect();
    assert_eq!(values, vec![false, false, true, true, true]);
}

#[test]
fn insertion_order_does_not_tell_two_maps_apart() {
    let one = flags(&[(1, true), (2, false), (3, true)]);
    let other = flags(&[(3, true), (1, true), (2, false)]);
    assert_eq!(one, other);
}

#[test]
fn get_finds_every_key_and_no_other() {
    let map = flags(&[(2, true), (4, false), (6, true), (8, false)]);
    assert_eq!(map.get(StateKey(2)), Some(&true));
    assert_eq!(map.get(StateKey(4)), Some(&false));
    assert_eq!(map.get(StateKey(6)), Some(&true));
    assert_eq!(map.get(StateKey(8)), Some(&false));
    for missing in [0, 1, 3, 5, 7, 9] {
        assert_eq!(map.get(StateKey(missing)), None);
        assert!(!map.contains_key(StateKey(missing)));
    }
}

#[test]
fn covers_holds_exactly_when_every_key_is_known() {
    let full = flags(&[(1, true), (2, false), (3, true)]);
    assert!(full.covers(&flags(&[])));
    assert!(full.covers(&flags(&[(2, true)])));
    assert!(full.covers(&flags(&[(1, false), (3, false)])));
    assert!(!full.covers(&flags(&[(4, true)])));
    assert!(!full.covers(&flags(&[(1, true), (0, true)])));
    assert!(!flags(&[]).covers(&full));
}

#[test]
fn agrees_with_compares_only_the_keys_of_the_subset() {
    let full = flags(&[(1, true), (2, false), (3, true)]);
    assert!(full.agrees_with(&flags(&[])));
    assert!(full.agrees_with(&flags(&[(2, false)])));
    assert!(full.agrees_with(&flags(&[(1, true), (2, false), (3, true)])));
    assert!(!full.agrees_with(&flags(&[(2, true)])));
    assert!(!full.agrees_with(&flags(&[(1, true), (3, false)])));
}

#[test]
fn an_empty_map_agrees_with_an_empty_subset() {
    assert!(flags(&[]).agrees_with(&flags(&[])));
}

#[test]
fn merge_overwrites_the_named_keys_and_keeps_the_others() {
    let mut map = flags(&[(1, false), (2, false), (3, true)]);
    map.merge(&flags(&[(1, true), (3, false)]));
    assert_eq!(map, flags(&[(1, true), (2, false), (3, false)]));
}

#[test]
fn merging_nothing_changes_nothing() {
    let mut map = flags(&[(1, false), (2, true)]);
    map.merge(&flags(&[]));
    assert_eq!(map, flags(&[(1, false), (2, true)]));
}

#[test]
fn a_merged_map_agrees_with_the_changes() {
    let changes = flags(&[(2, true), (5, false)]);
    let mut map = flags(&[(1, false), (2, false), (5, true)]);
    assert!(!map.agrees_with(&changes));
    map.merge(&changes);
    assert!(map.agrees_with(&changes));
}

#[test]
fn clone_copies_every_entry() {
    let map = flags(&[(9, true), (4, false)]);
    let copy = map.clone();
    assert_eq!(copy, map);
    assert_eq!(copy.get(StateKey(9)), Some(&true));
    assert_eq!(copy.get(StateKey(4)), Some(&false));
}

#[test]
fn keys_of_a_domain_are_ordered_by_their_integer() {
    assert_eq!(StateKey(7).id(), 7);
    assert!(StateKey(1) < StateKey(2));
    assert_eq!(StateKey(3), StateKey(3));
    assert_ne!(StateKey(3), StateKey(4));
}

#[test]
fn is_empty_tells_a_map_without_keys() {
    assert!(flags(&[]).is_empty());
    assert!(!flags(&[(0, false)]).is_empty());
}

#[test]
fn compatible_maps_never_contradict_each_other() {
    let one = flags(&[(1, true), (2, false)]);
    assert!(one.is_compatible_with(&flags(&[])));
    assert!(flags(&[]).is_compatible_with(&one));
    assert!(one.is_compatible_with(&flags(&[(2, false), (3, true)])));
    assert!(one.is_compatible_with(&flags(&[(3, false)])));
    assert!(!one.is_compatible_with(&flags(&[(1, false)])));
    assert!(!flags(&[(1, false), (5, true)]).is_compatible_with(&one));
}
