//! A map keyed by account address, kept as a list of entries with distinct keys.
use crate::position::AccountId;
use vstd::prelude::*;
use vstd::std_specs::cmp::{PartialEqSpec, PartialEqSpecImpl};

verus! {

/// What a list of entries says of each key: the last entry for it counts.
pub open spec fn entries_map<V>(entries: Seq<(AccountId, V)>) -> Map<AccountId, V>
    decreases entries.len(),
{
    if entries.len() == 0 {
        Map::empty()
    } else {
        entries_map(entries.drop_last()).insert(entries.last().0, entries.last().1)
    }
}

pub open spec fn keys_distinct<V>(entries: Seq<(AccountId, V)>) -> bool {
    forall|i: int, j: int|
        #![trigger entries[i], entries[j]]
        0 <= i < j < entries.len() ==> entries[i].0 != entries[j].0
}

/// With distinct keys the map holds exactly the listed entries.
pub proof fn lemma_entries_map<V>(entries: Seq<(AccountId, V)>)
    requires
        keys_distinct(entries),
    ensures
        forall|i: int|
            #![trigger entries[i]]
            0 <= i < entries.len() ==> entries_map(entries).contains_key(entries[i].0) && entries_map(
                entries,
            )[entries[i].0] == entries[i].1,
        forall|k: AccountId|
            #[trigger] entries_map(entries).contains_key(k) ==> exists|i: int|
                0 <= i < entries.len() && #[trigger] entries[i].0 == k,
    decreases entries.len(),
{
    if entries.len() > 0 {
        let rest = entries.drop_last();
        assert forall|i: int, j: int|
            #![trigger rest[i], rest[j]]
            0 <= i < j < rest.len() implies rest[i].0 != rest[j].0 by {
            assert(rest[i] == entries[i] && rest[j] == entries[j]);
        }
        lemma_entries_map(rest);
        assert forall|i: int|
            #![trigger entries[i]]
            0 <= i < entries.len() implies entries_map(entries).contains_key(entries[i].0)
            && entries_map(entries)[entries[i].0] == entries[i].1 by {
            if i < rest.len() {
                assert(rest[i] == entries[i]);
                assert(entries[i].0 != entries[entries.len() - 1].0);
            }
        }
        assert forall|k: AccountId| #[trigger]
            entries_map(entries).contains_key(k) implies exists|i: int|
            0 <= i < entries.len() && #[trigger] entries[i].0 == k by {
            if k == entries.last().0 {
                assert(entries[entries.len() - 1].0 == k);
            } else {
                assert(entries_map(rest).contains_key(k));
                let i = choose|i: int| 0 <= i < rest.len() && #[trigger] rest[i].0 == k;
                assert(entries[i].0 == k);
            }
        }
    }
}

#[derive(Debug)]
pub struct IdMap<V> {
    entries: Vec<(AccountId, V)>,
}

impl<V> View for IdMap<V> {
    type V = Map<AccountId, V>;

    closed spec fn view(&self) -> Map<AccountId, V> {
        entries_map(self.entries@)
    }
}

impl<V> IdMap<V> {
    #[verifier::type_invariant]
    spec fn distinct(self) -> bool {
        keys_distinct(self.entries@)
    }

    pub fn new() -> (map: Self)
        ensures
            map@ == Map::<AccountId, V>::empty(),
    {
        IdMap { entries: Vec::new() }
    }

    /// Index of the entry for `key`; the number of entries where there is none.
    fn find(&self, key: AccountId) -> (index: usize)
        ensures
            index <= self.entries@.len(),
            index < self.entries@.len() ==> self.entries@[index as int].0 == key
                && self@.contains_key(key) && self@[key] == self.entries@[index as int].1,
            index == self.entries@.len() ==> !self@.contains_key(key),
    {
        proof {
            use_type_invariant(self);
            lemma_entries_map(self.entries@);
        }
        let mut i: usize = 0;
        while i < self.entries.len()
            invariant
                i <= self.entries@.len(),
                forall|j: int|
                    #![trigger self.entries@[j]]
                    0 <= j < i ==> self.entries@[j].0 != key,
                forall|j: int|
                    #![trigger self.entries@[j]]
                    0 <= j < self.entries@.len() ==> entries_map(self.entries@).contains_key(
                        self.entries@[j].0,
                    ) && entries_map(self.entries@)[self.entries@[j].0] == self.entries@[j].1,
            decreases self.entries.len() - i,
        {
            if self.entries[i].0 == key {
                return i;
            }
            i = i + 1;
        }
        i
    }

    pub fn get(&self, key: AccountId) -> (value: Option<&V>)
        ensures
            value is Some <==> self@.contains_key(key),
            value matches Some(v) ==> *v == self@[key],
    {
        let index = self.find(key);
        if index < self.entries.len() {
            Some(&self.entries[index].1)
        } else {
            None
        }
    }

    pub fn contains_key(&self, key: AccountId) -> (found: bool)
        ensures
            found == self@.contains_key(key),
    {
        self.find(key) < self.entries.len()
    }

    /// Number of keys held.
    pub fn len(&self) -> (len: usize)
        ensures
            self@.dom().finite(),
            len == self@.dom().len(),
    {
        proof {
            use_type_invariant(self);
            lemma_entries_count(self.entries@);
        }
        self.entries.len()
    }

    /// Binds `key` to `value`, replacing what it was bound to.
    pub fn insert(&mut self, key: AccountId, value: V)
        ensures
            final(self)@ == old(self)@.insert(key, value),
    {
        let index = self.find(key);
        let mut entries: Vec<(AccountId, V)> = Vec::new();
        proof {
            use_type_invariant(&*self);
        }
        std::mem::swap(&mut entries, &mut self.entries);
        let ghost before = entries@;
        proof {
            lemma_entries_map(before);
        }
        if index < entries.len() {
            entries.set(index, (key, value));
        } else {
            entries.push((key, value));
        }
        proof {
            assert(keys_distinct(entries@)) by {
                assert forall|i: int, j: int|
                    #![trigger entries@[i], entries@[j]]
                    0 <= i < j < entries@.len() implies entries@[i].0 != entries@[j].0 by {
                    if i < before.len() && j < before.len() {
                        assert(before[i].0 != before[j].0);
                    } else {
                        assert(before[i].0 != key);
                    }
                }
            }
            lemma_entries_map(entries@);
            assert(entries_map(entries@) =~= entries_map(before).insert(key, value)) by {
                assert forall|k: AccountId|
                    entries_map(entries@).contains_key(k) == entries_map(before).insert(
                        key,
                        value,
                    ).contains_key(k) by {
                    if entries_map(entries@).contains_key(k) {
                        let i = choose|i: int|
                            0 <= i < entries@.len() && #[trigger] entries@[i].0 == k;
                        if k != key {
                            assert(before[i] == entries@[i]);
                        }
                    }
                    if entries_map(before).contains_key(k) {
                        let i = choose|i: int| 0 <= i < before.len() && #[trigger] before[i].0 == k;
                        assert(entries@[i].0 == k);
                    }
                    assert(entries@[index as int].0 == key);
                }
                assert forall|k: AccountId|
                    entries_map(entries@).contains_key(k) implies entries_map(entries@)[k]
                    == entries_map(before).insert(key, value)[k] by {
                    let i = choose|i: int| 0 <= i < entries@.len() && #[trigger] entries@[i].0 == k;
                    if k != key {
                        assert(before[i] == entries@[i]);
                    } else {
                        assert(entries@[index as int].0 == key);
                    }
                }
            }
        }
        self.entries = entries;
    }
}

/// With distinct keys the map has as many keys as the list has entries.
proof fn lemma_entries_count<V>(entries: Seq<(AccountId, V)>)
    requires
        keys_distinct(entries),
    ensures
        entries_map(entries).dom().finite(),
        entries_map(entries).dom().len() == entries.len(),
    decreases entries.len(),
{
    if entries.len() > 0 {
        let rest = entries.drop_last();
        assert forall|i: int, j: int|
            #![trigger rest[i], rest[j]]
            0 <= i < j < rest.len() implies rest[i].0 != rest[j].0 by {
            assert(rest[i] == entries[i] && rest[j] == entries[j]);
        }
        lemma_entries_count(rest);
        lemma_entries_map(rest);
        assert(!entries_map(rest).contains_key(entries.last().0)) by {
            if entries_map(rest).contains_key(entries.last().0) {
                let i = choose|i: int|
                    0 <= i < rest.len() && #[trigger] rest[i].0 == entries.last().0;
                assert(entries[i].0 == entries[entries.len() - 1].0);
            }
        }
        assert(entries_map(entries).dom() =~= entries_map(rest).dom().insert(entries.last().0));
    } else {
        assert(entries_map(entries).dom() =~= Set::<AccountId>::empty());
    }
}

/// Two maps are equal where they hold the same keys with equal values, in whatever order they
/// came.
impl<V: PartialEq> PartialEqSpecImpl for IdMap<V> {
    open spec fn obeys_eq_spec() -> bool {
        V::obeys_eq_spec()
    }

    open spec fn eq_spec(&self, other: &Self) -> bool {
        &&& self@.dom() == other@.dom()
        &&& forall|k: AccountId| #[trigger]
            self@.contains_key(k) ==> self@[k].eq_spec(&other@[k])
    }
}

impl<V: PartialEq> PartialEq for IdMap<V> {
    fn eq(&self, other: &Self) -> (r: bool) {
        proof {
            use_type_invariant(self);
            use_type_invariant(other);
            lemma_entries_map(self.entries@);
            lemma_entries_count(self.entries@);
            lemma_entries_count(other.entries@);
        }
        if self.entries.len() != other.entries.len() {
            return false;
        }
        let mut i: usize = 0;
        while i < self.entries.len()
            invariant
                i <= self.entries@.len(),
                forall|j: int|
                    #![trigger self.entries@[j]]
                    0 <= j < self.entries@.len() ==> self@.contains_key(self.entries@[j].0)
                        && self@[self.entries@[j].0] == self.entries@[j].1,
                forall|j: int|
                    #![trigger self.entries@[j]]
                    0 <= j < i ==> other@.contains_key(self.entries@[j].0) && (V::obeys_eq_spec()
                        ==> self.entries@[j].1.eq_spec(&other@[self.entries@[j].0])),
            decreases self.entries.len() - i,
        {
            let entry = &self.entries[i];
            assert(self@.contains_key(entry.0) && self@[entry.0] == entry.1);
            match other.get(entry.0) {
                Some(value) => {
                    if entry.1 != *value {
                        return false;
                    }
                },
                None => {
                    return false;
                },
            }
            i = i + 1;
        }
        proof {
            assert(self@.dom().subset_of(other@.dom())) by {
                assert forall|k: AccountId| self@.contains_key(k) implies other@.contains_key(
                    k,
                ) by {
                    let j = choose|j: int|
                        0 <= j < self.entries@.len() && #[trigger] self.entries@[j].0 == k;
                    assert(other@.contains_key(self.entries@[j].0));
                }
            }
            vstd::set_lib::lemma_subset_equality(self@.dom(), other@.dom());
            assert forall|k: AccountId| #[trigger]
                self@.contains_key(k) && V::obeys_eq_spec() implies self@[k].eq_spec(
                &other@[k],
            ) by {
                let j = choose|j: int|
                    0 <= j < self.entries@.len() && #[trigger] self.entries@[j].0 == k;
                assert(self@[self.entries@[j].0] == self.entries@[j].1);
            }
        }
        true
    }
}

impl<V: Eq> Eq for IdMap<V> {

}

impl<V: Clone> Clone for IdMap<V> {
    fn clone(&self) -> (copy: Self)
        ensures
            copy@.dom() == self@.dom(),
            forall|k: AccountId| #[trigger]
                self@.contains_key(k) ==> cloned::<V>(self@[k], copy@[k]),
    {
        let mut copy: Vec<(AccountId, V)> = Vec::new();
        let mut i: usize = 0;
        proof {
            use_type_invariant(self);
        }
        while i < self.entries.len()
            invariant
                i <= self.entries@.len(),
                copy@.len() == i,
                keys_distinct(self.entries@),
                forall|j: int|
                    #![trigger copy@[j]]
                    0 <= j < i ==> copy@[j].0 == self.entries@[j].0 && cloned::<V>(
                        self.entries@[j].1,
                        copy@[j].1,
                    ),
            decreases self.entries.len() - i,
        {
            let entry = &self.entries[i];
            copy.push((entry.0, entry.1.clone()));
            i = i + 1;
        }
        proof {
            assert(keys_distinct(copy@)) by {
                assert forall|i: int, j: int|
                    #![trigger copy@[i], copy@[j]]
                    0 <= i < j < copy@.len() implies copy@[i].0 != copy@[j].0 by {
                    assert(self.entries@[i].0 != self.entries@[j].0);
                }
            }
            lemma_entries_map(self.entries@);
            lemma_entries_map(copy@);
            assert forall|k: AccountId|
                entries_map(copy@).contains_key(k) == entries_map(self.entries@).contains_key(
                    k,
                ) by {
                if entries_map(copy@).contains_key(k) {
                    let i = choose|i: int| 0 <= i < copy@.len() && #[trigger] copy@[i].0 == k;
                    assert(self.entries@[i].0 == k);
                }
                if entries_map(self.entries@).contains_key(k) {
                    let i = choose|i: int|
                        0 <= i < self.entries@.len() && #[trigger] self.entries@[i].0 == k;
                    assert(copy@[i].0 == k);
                }
            }
            assert(entries_map(copy@).dom() =~= entries_map(self.entries@).dom());
            assert forall|k: AccountId| #[trigger]
                entries_map(self.entries@).contains_key(k) implies cloned::<V>(
                entries_map(self.entries@)[k],
                entries_map(copy@)[k],
            ) by {
                let i = choose|i: int|
                    0 <= i < self.entries@.len() && #[trigger] self.entries@[i].0 == k;
                assert(copy@[i].0 == k);
            }
        }
        IdMap { entries: copy }
    }
}

/// Two maps are equal exactly where each key of one is a key of the other and has an equal value
/// there.
pub proof fn law_maps_are_equal_by_what_they_hold<V: PartialEq>(a: IdMap<V>, b: IdMap<V>)
    ensures
        PartialEqSpec::eq_spec(&a, &b) <==> {
            &&& forall|k: AccountId| #[trigger] a@.contains_key(k) <==> b@.contains_key(k)
            &&& forall|k: AccountId| #[trigger]
                a@.contains_key(k) ==> PartialEqSpec::eq_spec(&a@[k], &b@[k])
        },
{
    if forall|k: AccountId| #[trigger] a@.contains_key(k) <==> b@.contains_key(k) {
        assert(a@.dom() =~= b@.dom());
    }
}

/// A value that is put into a map is what the map gives for its key from then on, and every other
/// key keeps its value.
pub proof fn law_maps_give_back_what_was_put_in<V>(
    before: Map<AccountId, V>,
    after: IdMap<V>,
    key: AccountId,
    value: V,
    got: Option<&V>,
    other: AccountId,
    kept: Option<&V>,
)
    requires
        after@ == before.insert(key, value),
        call_ensures(IdMap::<V>::get, (&after, key), got),
        call_ensures(IdMap::<V>::get, (&after, other), kept),
    ensures
        got is Some && *(got->0) == value,
        other != key ==> (kept is Some <==> before.contains_key(other)),
        other != key && kept is Some ==> *(kept->0) == before[other],
{
}

} // verus!
