//! The player's inventory: for every known item, whether it is held.

use crate::content::ItemData;
use crate::key::{DomainKey, Key};
use crate::keymap::{agrees, covers, key_order, lists, merged, KeyMap};
use vstd::prelude::*;
use vstd::std_specs::convert::FromSpecImpl;

verus! {

/// Identifies an item.
#[derive(Debug, Copy, Clone, PartialEq, Eq, PartialOrd, Ord, Hash, Structural)]
pub struct ItemKey(pub Key);

impl DomainKey for ItemKey {
    open spec fn raw(self) -> Key {
        self.0
    }

    fn id(&self) -> (r: Key) {
        self.0
    }

    proof fn raw_is_injective(a: Self, b: Self) {
    }
}

/// All the items, each with a value.
pub type ItemMap<T> = KeyMap<ItemKey, T>;

/// A player inventory: for each known item, whether it is present.
#[derive(Debug, PartialEq, Eq)]
pub struct Inventory(pub ItemMap<bool>);

impl View for Inventory {
    type V = Map<ItemKey, bool>;

    open spec fn view(&self) -> Map<ItemKey, bool> {
        self.0@
    }
}

/// The sentence that opens every description of an inventory.
pub open spec fn inventory_heading() -> Seq<char> {
    "Your inventory contains: \n"@
}

/// What stands between two names in the description of an inventory.
pub open spec fn name_separator() -> Seq<char> {
    ", "@
}

/// The names of the items among `keys` that `held` marks as present, in the
/// order of `keys`.
pub open spec fn held_names(
    keys: Seq<ItemKey>,
    held: Map<ItemKey, bool>,
    items: Map<ItemKey, ItemData>,
) -> Seq<Seq<char>>
    decreases keys.len(),
{
    if keys.len() == 0 {
        Seq::empty()
    } else {
        let earlier = held_names(keys.drop_last(), held, items);
        if held[keys.last()] {
            earlier.push(items[keys.last()].name@)
        } else {
            earlier
        }
    }
}

/// `names` written one after the other with `separator` between each two.
pub open spec fn joined(names: Seq<Seq<char>>, separator: Seq<char>) -> Seq<char>
    decreases names.len(),
{
    if names.len() == 0 {
        Seq::empty()
    } else if names.len() == 1 {
        names[0]
    } else {
        joined(names.drop_last(), separator) + separator + names.last()
    }
}

/// The description of an inventory: the heading, then the names of the items
/// that are present, in ascending key order, separated by commas.
pub open spec fn inventory_text(held: Map<ItemKey, bool>, items: Map<ItemKey, ItemData>) -> Seq<
    char,
> {
    inventory_heading() + joined(held_names(key_order(held), held, items), name_separator())
}

/// Whether `items` has the data of every item that `held` marks as present.
pub open spec fn names_known(held: Map<ItemKey, bool>, items: Map<ItemKey, ItemData>) -> bool {
    forall|key: ItemKey| #[trigger] held.contains_key(key) && held[key] ==> items.contains_key(key)
}

impl Inventory {
    /// Takes a set of changes from a transition and writes each of them over
    /// the entry of the same item. Items that `changes` does not name keep
    /// their value, and the set of known items stays as it is.
    ///
    /// The inventory is a closed world: every item of `changes` must be known
    /// to it.
    pub fn merge_changes(&mut self, changes: &ItemMap<bool>)
        requires
            covers(old(self)@, changes@),
        ensures
            final(self)@ == merged(old(self)@, changes@),
            final(self)@.dom() == old(self)@.dom(),
    {
        self.0.merge(changes);
    }

    /// Checks a subset of the inventory for agreement: whether every item
    /// that `subset` names has the value that `subset` gives it. A subset
    /// without items agrees with every inventory.
    ///
    /// The inventory is a closed world: every item of `subset` must be known
    /// to it.
    pub fn check(&self, subset: &ItemMap<bool>) -> (same: bool)
        requires
            covers(self@, subset@),
        ensures
            same == agrees(self@, subset@),
    {
        self.0.agrees_with(subset)
    }

    /// Whether `items` has the data of every item that is present, so that
    /// the inventory can be described.
    pub fn can_describe(&self, items: &ItemMap<ItemData>) -> (known: bool)
        ensures
            known == names_known(self@, items@),
    {
        let n = self.0.len();
        let mut at: usize = 0;
        while at < n
            invariant
                at <= n,
                n == self.0.keys().len(),
                lists(self.0.keys(), self@),
                forall|i: int|
                    0 <= i < at && self@[#[trigger] self.0.keys()[i]] ==> items@.contains_key(
                        self.0.keys()[i],
                    ),
            decreases n - at,
        {
            let key = self.0.key_at(at);
            assert(self.0.keys().contains(key));
            if *self.0.value_at(at) && !items.contains_key(key) {
                return false;
            }
            at += 1;
        }
        true
    }

    /// Describes the contents of the inventory: the heading, then the name of
    /// every item that is present, in ascending key order, with a comma and a
    /// space between each two names.
    ///
    /// The name of an item is looked up in `items`, which must have the data
    /// of every item that is present.
    pub fn describe(&self, items: &ItemMap<ItemData>) -> (text: String)
        requires
            names_known(self@, items@),
        ensures
            text@ == inventory_text(self@, items@),
            lists(key_order(self@), self@),
    {
        let mut text = String::new();
        text.append("Your inventory contains: \n");
        let n = self.0.len();
        let ghost keys = self.0.keys();
        let mut first = true;
        let mut at: usize = 0;
        while at < n
            invariant
                at <= n,
                n == keys.len(),
                keys == self.0.keys(),
                lists(keys, self@),
                names_known(self@, items@),
                first == (held_names(keys.take(at as int), self@, items@).len() == 0),
                text@ == inventory_heading() + joined(
                    held_names(keys.take(at as int), self@, items@),
                    name_separator(),
                ),
            decreases n - at,
        {
            let key = self.0.key_at(at);
            let present = *self.0.value_at(at);
            proof {
                assert(keys.take(at + 1).drop_last() =~= keys.take(at as int));
                assert(keys.contains(key));
            }
            if present {
                let ghost names = held_names(keys.take(at as int), self@, items@);
                let name = match items.get(key) {
                    Some(data) => data.name.as_str(),
                    None => vstd::pervasive::unreached(),
                };
                if !first {
                    text.append(", ");
                }
                text.append(name);
                first = false;
                proof {
                    assert(names.push(name@).drop_last() =~= names);
                }
            }
            at += 1;
        }
        proof {
            assert(keys.take(n as int) =~= keys);
        }
        text
    }
}

impl Clone for Inventory {
    /// Copies the inventory with the value of every item.
    fn clone(&self) -> (copy: Self)
        ensures
            copy@ == self@,
    {
        Inventory(self.0.clone())
    }
}

impl From<ItemMap<bool>> for Inventory {
    fn from(map: ItemMap<bool>) -> (inventory: Self) {
        Inventory(map)
    }
}

impl FromSpecImpl<ItemMap<bool>> for Inventory {
    open spec fn obeys_from_spec() -> bool {
        true
    }

    open spec fn from_spec(map: ItemMap<bool>) -> Self {
        Inventory(map)
    }
}

} // verus!
