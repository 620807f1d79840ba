//! A closed-world map from the keys of one domain to values.
//!
//! The map is modelled as a `Map<K, T>`. Its keys have one listing in
//! ascending order of their integers, and every function that walks a map
//! walks it in that order, so what is computed from a map depends on its
//! contents alone.

use crate::key::DomainKey;
use vstd::prelude::*;

verus! {

/// Whether the integers of `keys` strictly increase from front to back.
pub open spec fn ascending<K: DomainKey>(keys: Seq<K>) -> bool {
    forall|i: int, j: int|
        0 <= i < j < keys.len() ==> (#[trigger] keys[i]).raw() < (#[trigger] keys[j]).raw()
}

/// Whether `keys` names every key of `m`, and no other, in ascending order.
pub open spec fn lists<K: DomainKey, T>(keys: Seq<K>, m: Map<K, T>) -> bool {
    &&& ascending(keys)
    &&& forall|k: K|
        #![trigger keys.contains(k)]
        #![trigger m.contains_key(k)]
        keys.contains(k) <==> m.contains_key(k)
}

/// The keys of `m` in ascending order, where `m` has finitely many keys.
pub open spec fn key_order<K: DomainKey, T>(m: Map<K, T>) -> Seq<K> {
    choose|keys: Seq<K>| lists(keys, m)
}

/// Two ascending listings of the same map agree on their first `n` keys.
proof fn lemma_listings_share_prefix<K: DomainKey, T>(a: Seq<K>, b: Seq<K>, m: Map<K, T>, n: nat)
    requires
        lists(a, m),
        lists(b, m),
        n <= a.len(),
        n <= b.len(),
    ensures
        forall|i: int| 0 <= i < n ==> a[i] == b[i],
    decreases n,
{
    if n > 0 {
        lemma_listings_share_prefix(a, b, m, (n - 1) as nat);
        let last = n - 1;
        lemma_next_key_is_not_smaller(a, b, m, last);
        lemma_next_key_is_not_smaller(b, a, m, last);
        K::raw_is_injective(a[last], b[last]);
    }
}

/// Where two listings of the same map agree before `at`, the key of `a` at
/// `at` is not smaller than the key of `b` there: a smaller one would have to
/// stand earlier in `b`, and so twice in `a`.
proof fn lemma_next_key_is_not_smaller<K: DomainKey, T>(a: Seq<K>, b: Seq<K>, m: Map<K, T>, at: int)
    requires
        lists(a, m),
        lists(b, m),
        0 <= at < a.len(),
        0 <= at < b.len(),
        forall|i: int| 0 <= i < at ==> a[i] == b[i],
    ensures
        b[at].raw() <= a[at].raw(),
{
    if a[at].raw() < b[at].raw() {
        assert(b.contains(a[at]));
    }
}

/// A listing that agrees with another one over the whole of that other one is
/// no longer than it: a further key would stand twice in the longer listing.
proof fn lemma_listing_is_not_longer<K: DomainKey, T>(long: Seq<K>, short: Seq<K>, m: Map<K, T>)
    requires
        lists(long, m),
        lists(short, m),
        short.len() <= long.len(),
        forall|i: int| 0 <= i < short.len() ==> long[i] == short[i],
    ensures
        long.len() == short.len(),
{
    if short.len() < long.len() {
        let extra = long[short.len() as int];
        assert(short.contains(extra));
    }
}

/// A map has at most one ascending listing of its keys.
pub proof fn lemma_listing_is_unique<K: DomainKey, T>(a: Seq<K>, b: Seq<K>, m: Map<K, T>)
    requires
        lists(a, m),
        lists(b, m),
    ensures
        a == b,
{
    if a.len() <= b.len() {
        lemma_listings_share_prefix(a, b, m, a.len());
        lemma_listing_is_not_longer(b, a, m);
    } else {
        lemma_listings_share_prefix(a, b, m, b.len());
        lemma_listing_is_not_longer(a, b, m);
    }
}

/// The ascending listing of a map's keys is `keys` once `keys` lists the map.
pub proof fn lemma_key_order_is<K: DomainKey, T>(keys: Seq<K>, m: Map<K, T>)
    requires
        lists(keys, m),
    ensures
        key_order(m) == keys,
{
    lemma_listing_is_unique(key_order(m), keys, m);
}

/// A map whose keys can be listed has finitely many keys: as many as the
/// listing is long.
pub proof fn lemma_listed_map_is_finite<K: DomainKey, T>(keys: Seq<K>, m: Map<K, T>)
    requires
        lists(keys, m),
    ensures
        m.dom().finite(),
        m.dom().len() == keys.len(),
{
    assert(keys.to_set() =~= m.dom());
    keys.unique_seq_to_set();
}

/// Whether every key of `other` is a key of `m`: the closed-world condition
/// under which `other` may be read against `m` or written over it.
pub open spec fn covers<K, T, U>(m: Map<K, T>, other: Map<K, U>) -> bool {
    forall|key: K| #[trigger] other.contains_key(key) ==> m.contains_key(key)
}

/// Whether `full` holds, for every key of `subset`, the value that `subset`
/// holds for it. A `subset` without keys agrees with every map.
pub open spec fn agrees<K>(full: Map<K, bool>, subset: Map<K, bool>) -> bool {
    forall|key: K| #[trigger]
        subset.contains_key(key) ==> full.contains_key(key) && full[key] == subset[key]
}

/// Whether `one` and `other` give the same value to every key that both of
/// them name, so that one map can agree with both.
pub open spec fn compatible<K>(one: Map<K, bool>, other: Map<K, bool>) -> bool {
    forall|key: K|
        #![trigger one.contains_key(key)]
        #![trigger other.contains_key(key)]
        one.contains_key(key) && other.contains_key(key) ==> one[key] == other[key]
}

/// `base` with every entry of `changes` written over it.
pub open spec fn merged<K>(base: Map<K, bool>, changes: Map<K, bool>) -> Map<K, bool> {
    base.union_prefer_right(changes)
}

/// Whether `key` stands among the first `n` keys of `keys`.
pub open spec fn listed_before<K>(keys: Seq<K>, key: K, n: int) -> bool {
    exists|at: int| 0 <= at < n && at < keys.len() && keys[at] == key
}

/// A map agrees with a subset exactly when the subset is without keys or the
/// map holds, for every key of the subset, the value that the subset holds.
/// So the empty subset agrees with every map.
pub proof fn lemma_agreement_by_entries<K>(full: Map<K, bool>, subset: Map<K, bool>)
    ensures
        agrees(full, subset) <==> (subset == Map::<K, bool>::empty() || (forall|key: K| #[trigger]
            subset.contains_key(key) ==> full.contains_key(key) && full[key] == subset[key])),
        agrees(full, Map::<K, bool>::empty()),
{
}

/// Merging changes into a map that has all their keys leaves the key set as
/// it is, gives every key of the changes its new value, and keeps the value
/// of every other key.
pub proof fn lemma_merge_overwrites<K>(base: Map<K, bool>, changes: Map<K, bool>)
    requires
        covers(base, changes),
    ensures
        merged(base, changes).dom() == base.dom(),
        forall|key: K| changes.contains_key(key) ==> merged(base, changes)[key] == changes[key],
        forall|key: K|
            base.contains_key(key) && !changes.contains_key(key) ==> merged(base, changes)[key]
                == base[key],
{
}

/// Merging the same changes a second time changes nothing.
pub proof fn lemma_merge_is_idempotent<K>(base: Map<K, bool>, changes: Map<K, bool>)
    ensures
        merged(merged(base, changes), changes) == merged(base, changes),
{
}

/// After changes were merged into a map, the map agrees with them.
pub proof fn lemma_merged_agrees_with_changes<K>(base: Map<K, bool>, changes: Map<K, bool>)
    ensures
        agrees(merged(base, changes), changes),
{
}

/// Two subsets that one map agrees with are compatible.
pub proof fn lemma_agreeing_subsets_are_compatible<K>(
    full: Map<K, bool>,
    one: Map<K, bool>,
    other: Map<K, bool>,
)
    requires
        agrees(full, one),
        agrees(full, other),
    ensures
        compatible(one, other),
{
}

/// Two compatible subsets have a map that agrees with both: any map that has
/// their keys, once both were merged into it.
pub proof fn lemma_compatible_subsets_can_agree<K>(
    base: Map<K, bool>,
    one: Map<K, bool>,
    other: Map<K, bool>,
)
    requires
        compatible(one, other),
    ensures
        agrees(merged(merged(base, one), other), one),
        agrees(merged(merged(base, one), other), other),
{
}

/// A map from the keys of one domain to values, kept in ascending key order.
#[derive(Debug, PartialEq, Eq)]
pub struct KeyMap<K: DomainKey, T> {
    entries: Vec<(K, T)>,
}

/// Whether the keys of `entries` strictly increase from front to back.
spec fn strictly_sorted<K: DomainKey, T>(entries: Seq<(K, T)>) -> bool {
    forall|i: int, j: int|
        0 <= i < j < entries.len() ==> (#[trigger] entries[i]).0.raw() < (
        #[trigger] entries[j]).0.raw()
}

/// Whether `entries` holds `key` at position `at`.
spec fn holds_at<K: DomainKey, T>(entries: Seq<(K, T)>, key: K, at: int) -> bool {
    0 <= at < entries.len() && entries[at].0 == key
}

/// The map that `entries` stands for.
spec fn map_of<K: DomainKey, T>(entries: Seq<(K, T)>) -> Map<K, T> {
    Map::new(
        |key: K| exists|at: int| holds_at(entries, key, at),
        |key: K| entries[choose|at: int| holds_at(entries, key, at)].1,
    )
}

/// The keys of `entries`, front to back.
spec fn keys_of<K: DomainKey, T>(entries: Seq<(K, T)>) -> Seq<K> {
    Seq::new(entries.len(), |at: int| entries[at].0)
}

/// In sorted entries every position is the only one that holds its key, so
/// the map has that key with the value found there.
proof fn lemma_entry_is_mapped<K: DomainKey, T>(entries: Seq<(K, T)>, at: int)
    requires
        strictly_sorted(entries),
        0 <= at < entries.len(),
    ensures
        map_of(entries).contains_key(entries[at].0),
        map_of(entries)[entries[at].0] == entries[at].1,
{
    assert(holds_at(entries, entries[at].0, at));
}

/// The keys of sorted entries are the ascending listing of their map.
proof fn lemma_keys_are_listed<K: DomainKey, T>(entries: Seq<(K, T)>)
    requires
        strictly_sorted(entries),
    ensures
        lists(keys_of(entries), map_of(entries)),
        key_order(map_of(entries)) == keys_of(entries),
{
    let keys = keys_of(entries);
    let m = map_of(entries);
    assert forall|key: K| keys.contains(key) <==> m.contains_key(key) by {
        if keys.contains(key) {
            let at = choose|at: int| 0 <= at < keys.len() && keys[at] == key;
            assert(holds_at(entries, key, at));
        }
        if m.contains_key(key) {
            let at = choose|at: int| holds_at(entries, key, at);
            assert(keys[at] == key);
        }
    }
    lemma_key_order_is(keys, m);
}

/// Replacing or adding the entry of `key` changes the map at `key` alone:
/// `after` holds `key` with `value` at `at`, and every other key is held with
/// the same value in `before` and in `after`.
proof fn lemma_map_after_insert<K: DomainKey, T>(
    before: Seq<(K, T)>,
    after: Seq<(K, T)>,
    key: K,
    value: T,
    at: int,
)
    requires
        strictly_sorted(before),
        strictly_sorted(after),
        0 <= at < after.len(),
        after[at] == (key, value),
        forall|q: K, i: int|
            #![trigger holds_at(before, q, i)]
            holds_at(before, q, i) && q != key ==> exists|j: int|
                #![trigger holds_at(after, q, j)]
                holds_at(after, q, j) && after[j].1 == before[i].1,
        forall|q: K, j: int|
            #![trigger holds_at(after, q, j)]
            holds_at(after, q, j) && j != at ==> exists|i: int|
                #![trigger holds_at(before, q, i)]
                holds_at(before, q, i) && before[i].1 == after[j].1,
    ensures
        map_of(after) == map_of(before).insert(key, value),
{
    lemma_entry_is_mapped(after, at);
}

impl<K: DomainKey, T> View for KeyMap<K, T> {
    type V = Map<K, T>;

    closed spec fn view(&self) -> Map<K, T> {
        map_of(self.entries@)
    }
}

impl<K: DomainKey, T> KeyMap<K, T> {
    #[verifier::type_invariant]
    spec fn well_formed(self) -> bool {
        strictly_sorted(self.entries@)
    }

    /// The keys of the map in ascending order: the order in which the map is
    /// walked.
    pub open spec fn keys(&self) -> Seq<K> {
        key_order(self@)
    }

    /// Makes a map without keys.
    pub fn new() -> (m: Self)
        ensures
            m@ == Map::<K, T>::empty(),
    {
        let m = KeyMap { entries: Vec::new() };
        m
    }

    /// The number of keys. The map has finitely many keys, and `keys` lists
    /// each of them once.
    pub fn len(&self) -> (n: usize)
        ensures
            self@.dom().finite(),
            n == self@.len(),
            n == self.keys().len(),
            lists(self.keys(), self@),
    {
        proof {
            use_type_invariant(self);
            lemma_keys_are_listed(self.entries@);
            lemma_listed_map_is_finite(self.keys(), self@);
        }
        self.entries.len()
    }

    /// Whether the map is without keys.
    pub fn is_empty(&self) -> (empty: bool)
        ensures
            empty == (self@ == Map::<K, T>::empty()),
    {
        let n = self.len();
        proof {
            if n == 0 {
                assert(self@ =~= Map::<K, T>::empty());
            }
        }
        n == 0
    }

    /// The position of the first entry whose key is not smaller than `key`.
    fn lower_bound(&self, key: K) -> (at: usize)
        ensures
            at <= self.entries@.len(),
            forall|i: int| 0 <= i < at ==> (#[trigger] self.entries@[i]).0.raw() < key.raw(),
            forall|i: int|
                at <= i < self.entries@.len() ==> key.raw() <= (#[trigger] self.entries@[i]).0.raw(),
    {
        proof {
            use_type_invariant(self);
        }
        let wanted = key.id();
        let mut low: usize = 0;
        let mut high: usize = self.entries.len();
        while low < high
            invariant
                low <= high <= self.entries@.len(),
                wanted == key.raw(),
                strictly_sorted(self.entries@),
                forall|i: int| 0 <= i < low ==> (#[trigger] self.entries@[i]).0.raw() < wanted,
                forall|i: int|
                    high <= i < self.entries@.len() ==> wanted <= (#[trigger] self.entries@[i]).0.raw(),
            decreases high - low,
        {
            let middle = low + (high - low) / 2;
            if self.entries[middle].0.id() < wanted {
                low = middle + 1;
            } else {
                high = middle;
            }
        }
        low
    }

    /// Whether the entry at `at`, the lower bound of `key`, holds `key`.
    fn found_at(&self, key: K, at: usize) -> (found: bool)
        requires
            at <= self.entries@.len(),
            forall|i: int| 0 <= i < at ==> (#[trigger] self.entries@[i]).0.raw() < key.raw(),
            forall|i: int|
                at <= i < self.entries@.len() ==> key.raw() <= (#[trigger] self.entries@[i]).0.raw(),
        ensures
            found == self@.contains_key(key),
            found ==> at < self.entries@.len() && self.entries@[at as int].0 == key
                && self@[key] == self.entries@[at as int].1,
    {
        proof {
            use_type_invariant(self);
        }
        if at < self.entries.len() && self.entries[at].0.id() == key.id() {
            proof {
                K::raw_is_injective(self.entries@[at as int].0, key);
                lemma_entry_is_mapped(self.entries@, at as int);
            }
            true
        } else {
            false
        }
    }

    /// Whether the map has `key`.
    pub fn contains_key(&self, key: K) -> (found: bool)
        ensures
            found == self@.contains_key(key),
    {
        let at = self.lower_bound(key);
        self.found_at(key, at)
    }

    /// Gives `key` the value `value`, and hands back the value that the key
    /// had before, if the map had the key.
    pub fn insert(&mut self, key: K, value: T) -> (previous: Option<T>)
        ensures
            final(self)@ == old(self)@.insert(key, value),
            match previous {
                Some(v) => old(self)@.contains_key(key) && v == old(self)@[key],
                None => !old(self)@.contains_key(key),
            },
    {
        proof {
            use_type_invariant(&*self);
        }
        let at = self.lower_bound(key);
        let found = self.found_at(key, at);
        let ghost before = self.entries@;
        let mut entries: Vec<(K, T)> = Vec::new();
        std::mem::swap(&mut entries, &mut self.entries);
        let previous = if found {
            let mut entry = (key, value);
            entries.set_and_swap(at, &mut entry);
            Some(entry.1)
        } else {
            proof {
                assert forall|i: int| 0 <= i < before.len() implies (#[trigger] before[i]).0.raw()
                    != key.raw() by {
                    if before[i].0.raw() == key.raw() {
                        K::raw_is_injective(before[i].0, key);
                        assert(holds_at(before, key, i));
                    }
                }
            }
            entries.insert(at, (key, value));
            None
        };
        proof {
            let after = entries@;
            let shift: int = if found { 0 } else { 1 };
            assert forall|q: K, i: int|
                #![trigger holds_at(before, q, i)]
                holds_at(before, q, i) && q != key implies exists|j: int|
                #![trigger holds_at(after, q, j)]
                holds_at(after, q, j) && after[j].1 == before[i].1 by {
                let to = if i < at { i } else { i + shift };
                assert(holds_at(after, q, to));
            }
            assert forall|q: K, j: int|
                #![trigger holds_at(after, q, j)]
                holds_at(after, q, j) && j != at implies exists|i: int|
                #![trigger holds_at(before, q, i)]
                holds_at(before, q, i) && before[i].1 == after[j].1 by {
                let from = if j < at { j } else { j - shift };
                assert(holds_at(before, q, from));
            }
            lemma_map_after_insert(before, after, key, value, at as int);
        }
        self.entries = entries;
        previous
    }

    /// The key at position `at` of the ascending listing.
    pub fn key_at(&self, at: usize) -> (key: K)
        requires
            at < self.keys().len(),
        ensures
            key == self.keys()[at as int],
    {
        proof {
            use_type_invariant(self);
            lemma_keys_are_listed(self.entries@);
        }
        self.entries[at].0
    }

    /// The value of the key at position `at` of the ascending listing.
    pub fn value_at(&self, at: usize) -> (value: &T)
        requires
            at < self.keys().len(),
        ensures
            *value == self@[self.keys()[at as int]],
    {
        proof {
            use_type_invariant(self);
            lemma_keys_are_listed(self.entries@);
            lemma_entry_is_mapped(self.entries@, at as int);
        }
        &self.entries[at].1
    }

    /// The value of `key`, if the map has the key.
    pub fn get(&self, key: K) -> (value: Option<&T>)
        ensures
            match value {
                Some(v) => self@.contains_key(key) && *v == self@[key],
                None => !self@.contains_key(key),
            },
    {
        let at = self.lower_bound(key);
        if self.found_at(key, at) {
            Some(&self.entries[at].1)
        } else {
            None
        }
    }

    /// Whether this map has every key of `other`.
    pub fn covers<U>(&self, other: &KeyMap<K, U>) -> (all: bool)
        ensures
            all == covers(self@, other@),
    {
        let n = other.len();
        let mut at: usize = 0;
        while at < n
            invariant
                at <= n,
                n == other.keys().len(),
                lists(other.keys(), other@),
                forall|i: int| 0 <= i < at ==> self@.contains_key(#[trigger] other.keys()[i]),
            decreases n - at,
        {
            let key = other.key_at(at);
            if !self.contains_key(key) {
                assert(other.keys().contains(key));
                return false;
            }
            at += 1;
        }
        true
    }
}

impl<K: DomainKey> KeyMap<K, bool> {
    /// Whether this map holds, for every key of `subset`, the value that
    /// `subset` holds for it. Every key of `subset` must be a key of this
    /// map.
    pub fn agrees_with(&self, subset: &KeyMap<K, bool>) -> (same: bool)
        requires
            covers(self@, subset@),
        ensures
            same == agrees(self@, subset@),
    {
        let n = subset.len();
        let mut at: usize = 0;
        while at < n
            invariant
                at <= n,
                n == subset.keys().len(),
                lists(subset.keys(), subset@),
                covers(self@, subset@),
                forall|i: int|
                    0 <= i < at ==> self@[#[trigger] subset.keys()[i]] == subset@[subset.keys()[i]],
            decreases n - at,
        {
            let key = subset.key_at(at);
            let wanted = *subset.value_at(at);
            assert(subset.keys().contains(key));
            let held = match self.get(key) {
                Some(value) => *value,
                None => vstd::pervasive::unreached(),
            };
            if held != wanted {
                return false;
            }
            at += 1;
        }
        true
    }

    /// Whether this map and `other` give the same value to every key that
    /// both of them name.
    pub fn is_compatible_with(&self, other: &KeyMap<K, bool>) -> (same: bool)
        ensures
            same == compatible(self@, other@),
    {
        let n = self.len();
        let mut at: usize = 0;
        while at < n
            invariant
                at <= n,
                n == self.keys().len(),
                lists(self.keys(), self@),
                forall|i: int|
                    0 <= i < at && other@.contains_key(#[trigger] self.keys()[i]) ==> self@[self.keys()[i]]
                        == other@[self.keys()[i]],
            decreases n - at,
        {
            let key = self.key_at(at);
            let mine = *self.value_at(at);
            if let Some(theirs) = other.get(key) {
                if *theirs != mine {
                    return false;
                }
            }
            at += 1;
        }
        true
    }

    /// Writes every entry of `changes` over the entry of the same key. Every
    /// key of `changes` must be a key of this map, so that the map neither
    /// grows nor shrinks.
    pub fn merge(&mut self, changes: &KeyMap<K, bool>)
        requires
            covers(old(self)@, changes@),
        ensures
            final(self)@ == merged(old(self)@, changes@),
            final(self)@.dom() == old(self)@.dom(),
    {
        let n = changes.len();
        let mut at: usize = 0;
        while at < n
            invariant
                at <= n,
                n == changes.keys().len(),
                lists(changes.keys(), changes@),
                covers(old(self)@, changes@),
                self@.dom() == old(self)@.dom(),
                forall|key: K|
                    self@.contains_key(key) ==> self@[key] == if listed_before(
                        changes.keys(),
                        key,
                        at as int,
                    ) {
                        changes@[key]
                    } else {
                        old(self)@[key]
                    },
            decreases n - at,
        {
            let key = changes.key_at(at);
            let value = *changes.value_at(at);
            assert(changes.keys().contains(key));
            self.insert(key, value);
            at += 1;
        }
    }
}

impl<K: DomainKey, T: Clone> Clone for KeyMap<K, T> {
    /// Copies the map: the copy has the same keys, each with a clone of its
    /// value.
    fn clone(&self) -> (copy: Self)
        ensures
            copy@.dom() == self@.dom(),
            forall|key: K| #[trigger] copy@.contains_key(key) ==> cloned(self@[key], copy@[key]),
    {
        proof {
            use_type_invariant(self);
        }
        let n = self.entries.len();
        let mut entries: Vec<(K, T)> = Vec::new();
        let mut at: usize = 0;
        while at < n
            invariant
                at <= n,
                n == self.entries@.len(),
                entries@.len() == at,
                forall|i: int|
                    0 <= i < at ==> (#[trigger] entries@[i]).0 == self.entries@[i].0 && cloned(
                        self.entries@[i].1,
                        entries@[i].1,
                    ),
            decreases n - at,
        {
            let value = self.entries[at].1.clone();
            entries.push((self.entries[at].0, value));
            at += 1;
        }
        let copy = KeyMap { entries };
        proof {
            assert forall|key: K| copy@.contains_key(key) <==> self@.contains_key(key) by {
                if copy@.contains_key(key) {
                    let at = choose|at: int| holds_at(copy.entries@, key, at);
                    assert(holds_at(self.entries@, key, at));
                }
                if self@.contains_key(key) {
                    let at = choose|at: int| holds_at(self.entries@, key, at);
                    assert(holds_at(copy.entries@, key, at));
                }
            }
        }
        copy
    }
}

} // verus!
