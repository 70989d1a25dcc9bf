//! A mapping from text keys to text values, as carried in the metadata,
//! parameters and credentials of protocol messages.
//!
//! The entries are kept in insertion order and no key occurs twice. Contracts
//! speak of a mapping through its view, a mathematical map.

use vstd::prelude::*;
use vstd::std_specs::cmp::PartialEqSpecImpl;

verus! {

/// The view of one stored entry.
pub type Pair = (Seq<char>, Seq<char>);

/// The views of the stored entries, in order.
pub open spec fn pairs_of(entries: Seq<(String, String)>) -> Seq<Pair> {
    Seq::new(entries.len(), |i: int| (entries[i].0@, entries[i].1@))
}

/// Whether entry `i` of `pairs` is the one stored under `key`.
pub open spec fn holds(pairs: Seq<Pair>, key: Seq<char>, i: int) -> bool {
    0 <= i < pairs.len() && pairs[i].0 == key
}

/// Whether no key occurs twice in `pairs`.
pub open spec fn distinct(pairs: Seq<Pair>) -> bool {
    forall|i: int, j: int|
        0 <= i < j < pairs.len() ==> (#[trigger] pairs[i]).0 != (#[trigger] pairs[j]).0
}

/// The map that `pairs` spells out.
pub open spec fn as_map(pairs: Seq<Pair>) -> Map<Seq<char>, Seq<char>> {
    Map::new(
        |key: Seq<char>| exists|i: int| holds(pairs, key, i),
        |key: Seq<char>| pairs[choose|i: int| holds(pairs, key, i)].1,
    )
}

/// With distinct keys, the map holds each pair and nothing else.
pub proof fn lemma_as_map(pairs: Seq<Pair>)
    requires
        distinct(pairs),
    ensures
        forall|i: int|
            0 <= i < pairs.len() ==> as_map(pairs).contains_key((#[trigger] pairs[i]).0) && as_map(
                pairs,
            )[pairs[i].0] == pairs[i].1,
        forall|key: Seq<char>| #[trigger]
            as_map(pairs).contains_key(key) ==> exists|i: int| holds(pairs, key, i),
{
    assert forall|i: int| 0 <= i < pairs.len() implies as_map(pairs).contains_key(
        (#[trigger] pairs[i]).0,
    ) && as_map(pairs)[pairs[i].0] == pairs[i].1 by {
        let key = pairs[i].0;
        assert(holds(pairs, key, i));
        let c = choose|c: int| holds(pairs, key, c);
        assert(holds(pairs, key, c));
        if c < i {
            assert(pairs[c].0 != pairs[i].0);
        } else if i < c {
            assert(pairs[i].0 != pairs[c].0);
        }
    }
}

/// Appending a pair under a fresh key inserts it into the map.
proof fn lemma_push(pairs: Seq<Pair>, key: Seq<char>, value: Seq<char>)
    requires
        distinct(pairs),
        forall|i: int| !holds(pairs, key, i),
    ensures
        distinct(pairs.push((key, value))),
        as_map(pairs.push((key, value))) == as_map(pairs).insert(key, value),
{
    let longer = pairs.push((key, value));
    assert forall|i: int, j: int| 0 <= i < j < longer.len() implies (#[trigger] longer[i]).0 != (
    #[trigger] longer[j]).0 by {
        if j < pairs.len() {
            assert(pairs[i].0 != pairs[j].0);
        } else {
            assert(!holds(pairs, key, i));
        }
    }
    lemma_as_map(pairs);
    lemma_as_map(longer);
    let left = as_map(longer);
    let right = as_map(pairs).insert(key, value);
    assert forall|k: Seq<char>| left.contains_key(k) <==> right.contains_key(k) by {
        if left.contains_key(k) {
            let i = choose|i: int| holds(longer, k, i);
            assert(holds(longer, k, i));
            if i < pairs.len() {
                assert(holds(pairs, k, i));
            }
        }
        if right.contains_key(k) && k != key {
            let i = choose|i: int| holds(pairs, k, i);
            assert(holds(pairs, k, i));
            assert(holds(longer, k, i));
        }
        if k == key {
            assert(holds(longer, k, pairs.len() as int));
        }
    }
    assert forall|k: Seq<char>| left.contains_key(k) implies left[k] == right[k] by {
        let i = choose|i: int| holds(longer, k, i);
        assert(holds(longer, k, i));
        assert(left[longer[i].0] == longer[i].1);
        if i < pairs.len() {
            assert(holds(pairs, k, i));
            assert(as_map(pairs)[pairs[i].0] == pairs[i].1);
        }
    }
    assert(left =~= right);
}

/// With distinct keys, the map is finite and has as many entries as there
/// are pairs.
pub proof fn lemma_as_map_len(pairs: Seq<Pair>)
    requires
        distinct(pairs),
    ensures
        as_map(pairs).dom().finite(),
        as_map(pairs).len() == pairs.len(),
    decreases pairs.len(),
{
    if pairs.len() == 0 {
        assert(as_map(pairs) =~= Map::<Seq<char>, Seq<char>>::empty());
    } else {
        let shorter = pairs.drop_last();
        let last = pairs.last();
        assert(distinct(shorter)) by {
            assert forall|i: int, j: int| 0 <= i < j < shorter.len() implies (
            #[trigger] shorter[i]).0 != (#[trigger] shorter[j]).0 by {
                assert(pairs[i].0 != pairs[j].0);
            }
        }
        assert forall|i: int| !holds(shorter, last.0, i) by {
            if holds(shorter, last.0, i) {
                assert(pairs[i].0 != pairs[pairs.len() - 1].0);
            }
        }
        lemma_as_map_len(shorter);
        lemma_push(shorter, last.0, last.1);
        assert(shorter.push((last.0, last.1)) =~= pairs);
    }
}

/// Replacing the value stored under a key that is present updates the map.
proof fn lemma_replace(pairs: Seq<Pair>, at: int, key: Seq<char>, value: Seq<char>)
    requires
        distinct(pairs),
        holds(pairs, key, at),
    ensures
        distinct(pairs.update(at, (key, value))),
        as_map(pairs.update(at, (key, value))) == as_map(pairs).insert(key, value),
{
    let changed = pairs.update(at, (key, value));
    assert forall|i: int, j: int| 0 <= i < j < changed.len() implies (#[trigger] changed[i]).0 != (
    #[trigger] changed[j]).0 by {
        assert(pairs[i].0 != pairs[j].0);
    }
    lemma_as_map(pairs);
    lemma_as_map(changed);
    let left = as_map(changed);
    let right = as_map(pairs).insert(key, value);
    assert forall|k: Seq<char>| left.contains_key(k) <==> right.contains_key(k) by {
        if left.contains_key(k) {
            let i = choose|i: int| holds(changed, k, i);
            assert(holds(changed, k, i));
            assert(holds(pairs, k, i));
        }
        if right.contains_key(k) && k != key {
            let i = choose|i: int| holds(pairs, k, i);
            assert(holds(pairs, k, i));
            assert(holds(changed, k, i));
        }
        if k == key {
            assert(holds(changed, k, at));
        }
    }
    assert forall|k: Seq<char>| left.contains_key(k) implies left[k] == right[k] by {
        let i = choose|i: int| holds(changed, k, i);
        assert(holds(changed, k, i));
        assert(left[changed[i].0] == changed[i].1);
        if i != at {
            assert(holds(pairs, k, i));
            assert(as_map(pairs)[pairs[i].0] == pairs[i].1);
            if i < at {
                assert(pairs[i].0 != pairs[at].0);
            } else {
                assert(pairs[at].0 != pairs[i].0);
            }
        }
    }
    assert(left =~= right);
}

/// A mapping from text keys to text values.
#[derive(Debug)]
pub struct Mapping {
    entries: Vec<(String, String)>,
}

impl View for Mapping {
    type V = Map<Seq<char>, Seq<char>>;

    closed spec fn view(&self) -> Map<Seq<char>, Seq<char>> {
        as_map(self.pairs())
    }
}

impl Mapping {
    /// The entries in the order in which their keys were first inserted.
    pub closed spec fn pairs(&self) -> Seq<Pair> {
        pairs_of(self.entries@)
    }

    #[verifier::type_invariant]
    spec fn well_formed(&self) -> bool {
        distinct(self.pairs())
    }

    /// The view holds exactly the stored pairs, each key once.
    pub proof fn lemma_pairs(&self)
        requires
            distinct(self.pairs()),
        ensures
            self@ == as_map(self.pairs()),
            forall|i: int|
                0 <= i < self.pairs().len() ==> self@.contains_pair(
                    (#[trigger] self.pairs()[i]).0,
                    self.pairs()[i].1,
                ),
            forall|key: Seq<char>| #[trigger]
                self@.contains_key(key) ==> exists|i: int| holds(self.pairs(), key, i),
    {
        lemma_as_map(self.pairs());
    }

    /// The empty mapping.
    pub fn new() -> (mapping: Mapping)
        ensures
            mapping@ == Map::<Seq<char>, Seq<char>>::empty(),
            mapping.pairs() == Seq::<Pair>::empty(),
    {
        let mapping = Mapping { entries: Vec::new() };
        assert(mapping.pairs() =~= Seq::<Pair>::empty());
        assert(mapping@ =~= Map::<Seq<char>, Seq<char>>::empty());
        mapping
    }

    /// The number of entries.
    pub fn len(&self) -> (count: usize)
        ensures
            count == self@.len(),
            count == self.pairs().len(),
            self@.dom().finite(),
            distinct(self.pairs()),
    {
        proof {
            use_type_invariant(&*self);
            lemma_as_map_len(self.pairs());
        }
        self.entries.len()
    }

    /// Entry `i` in insertion order.
    pub fn entry(&self, i: usize) -> (entry: (&String, &String))
        requires
            i < self.pairs().len(),
        ensures
            (entry.0@, entry.1@) == self.pairs()[i as int],
            self@.contains_pair(entry.0@, entry.1@),
    {
        proof {
            use_type_invariant(&*self);
            lemma_as_map(self.pairs());
        }
        (&self.entries[i].0, &self.entries[i].1)
    }

    /// The position of `key` among the entries, if it is present.
    fn position(entries: &Vec<(String, String)>, key: &String) -> (found: Option<usize>)
        ensures
            match found {
                Some(i) => holds(pairs_of(entries@), key@, i as int),
                None => forall|i: int| !holds(pairs_of(entries@), key@, i),
            },
    {
        let mut i: usize = 0;
        while i < entries.len()
            invariant
                i <= entries@.len(),
                forall|j: int| 0 <= j < i ==> !holds(pairs_of(entries@), key@, j),
            decreases entries@.len() - i,
        {
            if entries[i].0 == *key {
                return Some(i);
            }
            i += 1;
        }
        None
    }

    /// The value stored under `key`, if there is one.
    pub fn get(&self, key: &String) -> (found: Option<&String>)
        ensures
            match found {
                Some(value) => self@.contains_key(key@) && self@[key@] == value@,
                None => !self@.contains_key(key@),
            },
    {
        proof {
            use_type_invariant(&*self);
            lemma_as_map(self.pairs());
        }
        match Self::position(&self.entries, key) {
            Some(i) => {
                assert(self.pairs()[i as int].0 == key@);
                Some(&self.entries[i].1)
            },
            None => None,
        }
    }

    /// Stores `value` under `key`. A key that is present keeps its place and
    /// gets the new value; a fresh key goes to the end.
    pub fn insert(&mut self, key: String, value: String)
        ensures
            final(self)@ == old(self)@.insert(key@, value@),
            forall|i: int|
                holds(old(self).pairs(), key@, i) ==> final(self).pairs()
                    == old(self).pairs().update(i, (key@, value@)),
            (forall|i: int| !holds(old(self).pairs(), key@, i)) ==> final(self).pairs()
                == old(self).pairs().push((key@, value@)),
    {
        proof {
            use_type_invariant(&*self);
        }
        let mut entries: Vec<(String, String)> = Vec::new();
        core::mem::swap(&mut entries, &mut self.entries);
        let ghost before = pairs_of(entries@);
        let ghost key_view = key@;
        let ghost value_view = value@;
        match Self::position(&entries, &key) {
            Some(i) => {
                let _ = entries.remove(i);
                entries.insert(i, (key, value));
                proof {
                    lemma_replace(before, i as int, key_view, value_view);
                    assert(pairs_of(entries@) =~= before.update(i as int, (key_view, value_view)));
                }
            },
            None => {
                entries.push((key, value));
                proof {
                    lemma_push(before, key_view, value_view);
                    assert(pairs_of(entries@) =~= before.push((key_view, value_view)));
                }
            },
        }
        self.entries = entries;
    }

    /// Whether every entry of `self` is an entry of `other`.
    pub fn included_in(&self, other: &Mapping) -> (included: bool)
        ensures
            included == self@.submap_of(other@),
    {
        proof {
            use_type_invariant(&*self);
            lemma_as_map(self.pairs());
        }
        let mut i: usize = 0;
        while i < self.entries.len()
            invariant
                i <= self.entries@.len(),
                distinct(self.pairs()),
                forall|j: int|
                    0 <= j < i ==> other@.contains_pair(
                        (#[trigger] self.pairs()[j]).0,
                        self.pairs()[j].1,
                    ),
            decreases self.entries@.len() - i,
        {
            proof {
                lemma_as_map(self.pairs());
            }
            let matched: bool = match other.get(&self.entries[i].0) {
                Some(value) => *value == self.entries[i].1,
                None => false,
            };
            if !matched {
                assert(self@.contains_key(self.pairs()[i as int].0));
                return false;
            }
            i += 1;
        }
        proof {
            lemma_as_map(self.pairs());
            assert forall|key: Seq<char>| #[trigger] self@.contains_key(key) implies other@.contains_key(
                key,
            ) && self@[key] == other@[key] by {
                let j = choose|j: int| holds(self.pairs(), key, j);
                assert(holds(self.pairs(), key, j));
                assert(other@.contains_pair(self.pairs()[j].0, self.pairs()[j].1));
            }
        }
        true
    }

    /// Whether the two mappings hold the same entries, in whatever order.
    pub fn same(&self, other: &Mapping) -> (same: bool)
        ensures
            same == (self@ == other@),
    {
        let same: bool = self.included_in(other) && other.included_in(self);
        proof {
            if same {
                assert(self@ =~= other@);
            }
        }
        same
    }
}

impl Clone for Mapping {
    fn clone(&self) -> (copy: Mapping)
        ensures
            copy@ == self@,
            copy.pairs() == self.pairs(),
    {
        proof {
            use_type_invariant(&*self);
        }
        let mut entries: Vec<(String, String)> = Vec::with_capacity(self.entries.len());
        let mut i: usize = 0;
        while i < self.entries.len()
            invariant
                i <= self.entries@.len(),
                entries@.len() == i,
                forall|j: int| 0 <= j < i ==> pairs_of(entries@)[j] == self.pairs()[j],
            decreases self.entries@.len() - i,
        {
            let key: String = self.entries[i].0.clone();
            let value: String = self.entries[i].1.clone();
            entries.push((key, value));
            i += 1;
        }
        assert(pairs_of(entries@) =~= self.pairs());
        Mapping { entries }
    }
}

impl PartialEq for Mapping {
    fn eq(&self, other: &Mapping) -> (same: bool) {
        self.same(other)
    }
}

impl PartialEqSpecImpl for Mapping {
    open spec fn obeys_eq_spec() -> bool {
        true
    }

    open spec fn eq_spec(&self, other: &Mapping) -> bool {
        self@ == other@
    }
}

} // verus!
