//! A set of key strings that only grows.

use std::collections::HashMap;
use vstd::prelude::*;
use vstd::std_specs::hash::group_hash_axioms;
use crate::text::{hash_of, hash_str, str_eq};

verus! {

/// The strings of `s`, each as the sequence of its characters.
pub open spec fn string_views(s: Seq<String>) -> Seq<Seq<char>> {
    Seq::new(s.len(), |i: int| s[i]@)
}

/// The elements of `s` without repeats, each where it first occurs.
pub open spec fn first_occurrences(s: Seq<Seq<char>>) -> Seq<Seq<char>>
    decreases s.len(),
{
    if s.len() == 0 {
        s
    } else {
        let init = first_occurrences(s.drop_last());
        if s.drop_last().contains(s.last()) {
            init
        } else {
            init.push(s.last())
        }
    }
}

/// One more element joins the first occurrences only if it is new.
pub proof fn lemma_first_occurrences_push(s: Seq<Seq<char>>, x: Seq<char>)
    ensures
        first_occurrences(s.push(x)) == if s.contains(x) {
            first_occurrences(s)
        } else {
            first_occurrences(s).push(x)
        },
{
    assert(s.push(x).drop_last() =~= s);
}

/// The first occurrences hold every element of the sequence, and each once.
pub proof fn lemma_first_occurrences(s: Seq<Seq<char>>)
    ensures
        first_occurrences(s).no_duplicates(),
        first_occurrences(s).to_set() == s.to_set(),
    decreases s.len(),
{
    if s.len() == 0 {
    } else {
        let init = s.drop_last();
        let x = s.last();
        lemma_first_occurrences(init);
        assert(s =~= init.push(x));
        init.lemma_push_to_set_commute(x);
        if init.contains(x) {
            assert(init.to_set().contains(x));
            assert(init.to_set().insert(x) =~= init.to_set());
        } else {
            let found = first_occurrences(init);
            found.lemma_push_to_set_commute(x);
            assert(!found.to_set().contains(x));
            assert(!found.contains(x));
            assert(found.push(x).no_duplicates());
        }
    }
}

/// The first occurrences of two joined sequences are those of the first,
/// and behind them those of the second that the first does not have.
pub proof fn lemma_first_occurrences_add(a: Seq<Seq<char>>, b: Seq<Seq<char>>)
    ensures
        first_occurrences(a + b) == first_occurrences(a) + first_occurrences(b).filter(
            |key: Seq<char>| !a.to_set().contains(key),
        ),
    decreases b.len(),
{
    let fresh = |key: Seq<char>| !a.to_set().contains(key);
    reveal(Seq::filter);
    if b.len() == 0 {
        assert(a + b =~= a);
        assert(first_occurrences(b).filter(fresh) =~= Seq::<Seq<char>>::empty());
        assert(first_occurrences(a) + Seq::<Seq<char>>::empty() =~= first_occurrences(a));
    } else {
        let init = b.drop_last();
        let x = b.last();
        lemma_first_occurrences_add(a, init);
        assert(a + b =~= (a + init).push(x));
        assert(b =~= init.push(x));
        lemma_first_occurrences_push(a + init, x);
        lemma_first_occurrences_push(init, x);
        first_occurrences(init).lemma_filter_push(x, fresh);
        vstd::seq_lib::lemma_seq_concat_contains_all_elements(a, init, x);
        assert((a + init).contains(x) <==> a.contains(x) || init.contains(x));
        if !(a + init).contains(x) {
            assert(first_occurrences(a) + first_occurrences(init).filter(fresh).push(x)
                =~= (first_occurrences(a) + first_occurrences(init).filter(fresh)).push(x));
        }
    }
}

/// The places that `index` holds under `hash`.
spec fn places_of(index: Map<u64, Vec<usize>>, hash: u64) -> Seq<usize> {
    if index.contains_key(hash) {
        index[hash]@
    } else {
        Seq::empty()
    }
}

/// Whether one of `places` is the position `at`.
spec fn has_place(places: Seq<usize>, at: int) -> bool {
    exists|k: int| 0 <= k < places.len() && #[trigger] places[k] == at
}

/// Whether `index` leads to every string of `names`: under the hash of the
/// string stands its position, and every position that the index holds is
/// one of `names`.
spec fn is_index_of(index: Map<u64, Vec<usize>>, names: Seq<Seq<char>>) -> bool {
    &&& forall|i: int|
        0 <= i < names.len() ==> has_place(places_of(index, hash_of(#[trigger] names[i])), i)
    &&& forall|hash: u64, j: int|
        0 <= j < places_of(index, hash).len() ==> (#[trigger] places_of(index, hash)[j])
            < names.len()
}

/// Where none of the places under the hash of `key` holds `key`, no place
/// does.
proof fn lemma_index_miss(index: Map<u64, Vec<usize>>, names: Seq<Seq<char>>, key: Seq<char>)
    requires
        is_index_of(index, names),
        forall|k: int|
            0 <= k < places_of(index, hash_of(key)).len() ==> names[(#[trigger] places_of(
                index,
                hash_of(key),
            )[k]) as int] != key,
    ensures
        !names.contains(key),
{
    let places = places_of(index, hash_of(key));
    assert forall|i: int| 0 <= i < names.len() implies names[i] != key by {
        if names[i] == key {
            assert(has_place(places_of(index, hash_of(names[i])), i));
            let k = choose|k: int| 0 <= k < places.len() && #[trigger] places[k] == i;
            assert(names[places[k] as int] != key);
        }
    }
}

/// A new string at the end of `names`, and its position at the end of the
/// places under its hash, keep the index in order.
proof fn lemma_index_grows(
    index: Map<u64, Vec<usize>>,
    grown: Map<u64, Vec<usize>>,
    names: Seq<Seq<char>>,
    key: Seq<char>,
    at: usize,
)
    requires
        is_index_of(index, names),
        at == names.len(),
        places_of(grown, hash_of(key)) == places_of(index, hash_of(key)).push(at),
        forall|hash: u64| hash != hash_of(key) ==> places_of(grown, hash) == places_of(index, hash),
    ensures
        is_index_of(grown, names.push(key)),
{
    let more = names.push(key);
    let hash = hash_of(key);
    let old_places = places_of(index, hash);
    assert forall|i: int| 0 <= i < more.len() implies has_place(
        places_of(grown, hash_of(#[trigger] more[i])),
        i,
    ) by {
        if i < names.len() {
            assert(more[i] == names[i]);
            let there = places_of(index, hash_of(names[i]));
            assert(has_place(there, i));
            let j = choose|j: int| 0 <= j < there.len() && #[trigger] there[j] == i;
            assert(places_of(grown, hash_of(names[i]))[j] == i);
        } else {
            assert(places_of(grown, hash)[old_places.len() as int] == i);
        }
    }
    assert forall|h: u64, j: int| 0 <= j < places_of(grown, h).len() implies (#[trigger] places_of(
        grown,
        h,
    )[j]) < more.len() by {
        if h == hash {
            if j < old_places.len() {
                assert(places_of(index, hash)[j] < names.len());
            }
        } else {
            assert(places_of(index, h)[j] < names.len());
        }
    }
}

/// The places that the index holds under `hash`.
fn lookup(index: &HashMap<u64, Vec<usize>>, hash: u64) -> (res: Option<&Vec<usize>>)
    ensures
        match res {
            Some(places) => places@ == places_of(index@, hash),
            None => places_of(index@, hash) == Seq::<usize>::empty(),
        },
{
    broadcast use group_hash_axioms;

    index.get(&hash)
}

/// Puts `at` behind the places that the index holds under `hash`.
fn add_place(index: &mut HashMap<u64, Vec<usize>>, hash: u64, at: usize)
    ensures
        places_of(final(index)@, hash) == places_of(old(index)@, hash).push(at),
        forall|other: u64|
            other != hash ==> places_of(final(index)@, other) == places_of(old(index)@, other),
{
    broadcast use group_hash_axioms;

    let mut places = match index.remove(&hash) {
        Some(places) => places,
        None => Vec::new(),
    };
    places.push(at);
    index.insert(hash, places);
}

/// A set of unique key strings.
///
/// The keys are kept in the order in which they first arrived, and no key
/// is stored twice. An index by hash leads to the place of each key. The
/// view forgets the order.
pub struct KeySet {
    keys: Vec<String>,
    index: HashMap<u64, Vec<usize>>,
}

impl View for KeySet {
    type V = Set<Seq<char>>;

    open spec fn view(&self) -> Set<Seq<char>> {
        self.order().to_set()
    }
}

impl KeySet {
    #[verifier::type_invariant]
    spec fn well_formed(&self) -> bool {
        &&& string_views(self.keys@).no_duplicates()
        &&& is_index_of(self.index@, string_views(self.keys@))
    }

    /// The keys in the order in which they were first inserted.
    pub closed spec fn order(&self) -> Seq<Seq<char>> {
        string_views(self.keys@)
    }

    /// The empty set.
    pub fn new() -> (res: KeySet)
        ensures
            res.order() == Seq::<Seq<char>>::empty(),
            res@ == Set::<Seq<char>>::empty(),
    {
        let res = KeySet { keys: Vec::new(), index: HashMap::new() };
        assert(res.order() =~= Seq::<Seq<char>>::empty());
        assert(res@ =~= Set::<Seq<char>>::empty());
        res
    }

    /// The set of the keys of a list: each key once, where the list first
    /// has it.
    pub fn from_keys(keys: &Vec<String>) -> (res: KeySet)
        ensures
            res.order() == first_occurrences(string_views(keys@)),
            res@ == string_views(keys@).to_set(),
    {
        let mut res = KeySet::new();
        let ghost all = string_views(keys@);
        assert(all.take(0) =~= Seq::<Seq<char>>::empty());
        let mut i: usize = 0;
        while i < keys.len()
            invariant
                i <= keys.len(),
                all == string_views(keys@),
                res.order() == first_occurrences(all.take(i as int)),
                res@ == all.take(i as int).to_set(),
            decreases keys.len() - i,
        {
            res.insert_str(keys[i].as_str());
            proof {
                all.lemma_take_succ_push(i as int);
                lemma_first_occurrences_push(all.take(i as int), all[i as int]);
                all.take(i as int).lemma_push_to_set_commute(all[i as int]);
            }
            i += 1;
        }
        assert(all.take(i as int) =~= all);
        res
    }

    /// Where `key` stands in the order of the set, given its hash.
    fn find(&self, key: &str, hash: u64) -> (res: Option<usize>)
        requires
            hash == hash_of(key@),
        ensures
            match res {
                Some(at) => at < self.order().len() && self.order()[at as int] == key@,
                None => !self@.contains(key@),
            },
    {
        proof {
            use_type_invariant(self);
        }
        let ghost names = self.order();
        match lookup(&self.index, hash) {
            None => {
                proof {
                    lemma_index_miss(self.index@, names, key@);
                }
                None
            },
            Some(places) => {
                let mut j: usize = 0;
                while j < places.len()
                    invariant
                        j <= places.len(),
                        names == self.order(),
                        hash == hash_of(key@),
                        places@ == places_of(self.index@, hash),
                        is_index_of(self.index@, names),
                        forall|k: int| 0 <= k < j ==> names[(#[trigger] places@[k]) as int] != key@,
                    decreases places.len() - j,
                {
                    let at = places[j];
                    assert(at == places_of(self.index@, hash)[j as int]);
                    if str_eq(self.keys[at].as_str(), key) {
                        return Some(at);
                    }
                    j += 1;
                }
                proof {
                    lemma_index_miss(self.index@, names, key@);
                }
                None
            },
        }
    }

    /// Puts a key that the set does not have behind the others.
    fn push_new(&mut self, key: String, hash: u64)
        requires
            hash == hash_of(key@),
            !old(self)@.contains(key@),
        ensures
            final(self)@ == old(self)@.insert(key@),
            final(self).order() == old(self).order().push(key@),
    {
        proof {
            use_type_invariant(&*self);
        }
        let ghost before = self.order();
        let ghost k = key@;
        let mut taken = KeySet::new();
        std::mem::swap(self, &mut taken);
        let KeySet { mut keys, mut index } = taken;
        let ghost old_index = index@;
        let at = keys.len();
        add_place(&mut index, hash, at);
        keys.push(key);
        proof {
            assert(string_views(keys@) =~= before.push(k));
            before.lemma_push_to_set_commute(k);
            lemma_index_grows(old_index, index@, before, k, at);
        }
        *self = KeySet { keys, index };
    }

    /// Where `key` stands in the order of the set, if the set has it.
    pub fn position(&self, key: &str) -> (res: Option<usize>)
        ensures
            match res {
                Some(at) => at < self.order().len() && self.order()[at as int] == key@,
                None => !self@.contains(key@),
            },
    {
        self.find(key, hash_str(key))
    }

    /// Whether `key` is in the set.
    pub fn contains(&self, key: &str) -> (res: bool)
        ensures
            res == self@.contains(key@),
    {
        self.position(key).is_some()
    }

    /// Adds `key`. Returns whether the key was new.
    pub fn insert(&mut self, key: String) -> (added: bool)
        ensures
            final(self)@ == old(self)@.insert(key@),
            added == !old(self)@.contains(key@),
            final(self).order() == if added {
                old(self).order().push(key@)
            } else {
                old(self).order()
            },
    {
        let hash = hash_str(key.as_str());
        if self.find(key.as_str(), hash).is_some() {
            assert(self@ =~= self@.insert(key@));
            false
        } else {
            self.push_new(key, hash);
            true
        }
    }

    /// Adds a copy of `key`, which is made only where the key is new.
    /// Returns whether the key was new.
    pub fn insert_str(&mut self, key: &str) -> (added: bool)
        ensures
            final(self)@ == old(self)@.insert(key@),
            added == !old(self)@.contains(key@),
            final(self).order() == if added {
                old(self).order().push(key@)
            } else {
                old(self).order()
            },
    {
        let hash = hash_str(key);
        if self.find(key, hash).is_some() {
            assert(self@ =~= self@.insert(key@));
            false
        } else {
            self.push_new(key.to_owned(), hash);
            true
        }
    }

    /// The number of keys.
    pub fn len(&self) -> (n: usize)
        ensures
            n == self@.len(),
            n == self.order().len(),
            self@.finite(),
    {
        proof {
            use_type_invariant(self);
            self.order().unique_seq_to_set();
        }
        self.keys.len()
    }

    /// Whether the set holds no key.
    pub fn is_empty(&self) -> (res: bool)
        ensures
            res == (self@ == Set::<Seq<char>>::empty()),
    {
        let n = self.len();
        proof {
            if n == 0 {
                assert(self@ =~= Set::<Seq<char>>::empty());
            } else {
                assert(self@.contains(self.order()[0]));
            }
        }
        n == 0
    }

    /// The keys, in the order in which they were first inserted.
    pub fn keys(&self) -> (res: &Vec<String>)
        ensures
            string_views(res@) == self.order(),
            self.order().no_duplicates(),
            self@ == self.order().to_set(),
    {
        proof {
            use_type_invariant(self);
        }
        &self.keys
    }

    /// Adds every key of `other`. The set only grows: the keys that were
    /// there stay, in their order, and the new ones follow in the order
    /// that they have in `other`.
    pub fn merge(&mut self, other: &KeySet)
        ensures
            final(self)@ == old(self)@.union(other@),
            final(self).order() == old(self).order() + other.order().filter(
                |key: Seq<char>| !old(self)@.contains(key),
            ),
    {
        let ghost before = self.order();
        let ghost before_set = self@;
        let ghost fresh = |key: Seq<char>| !before_set.contains(key);
        let ghost theirs = other.order();
        proof {
            use_type_invariant(other);
            assert(theirs.take(0) =~= Seq::<Seq<char>>::empty());
            reveal(Seq::filter);
            assert(before + theirs.take(0).filter(fresh) =~= before);
            assert(before_set.union(theirs.take(0).to_set()) =~= before_set);
        }
        let mut i: usize = 0;
        while i < other.keys.len()
            invariant
                i <= other.keys.len(),
                theirs == other.order(),
                theirs.no_duplicates(),
                before_set == before.to_set(),
                fresh == |key: Seq<char>| !before_set.contains(key),
                self.order() == before + theirs.take(i as int).filter(fresh),
                self@ == before_set.union(theirs.take(i as int).to_set()),
            decreases other.keys.len() - i,
        {
            let ghost k = theirs[i as int];
            let ghost seen = theirs.take(i as int);
            let added = self.insert_str(other.keys[i].as_str());
            proof {
                theirs.lemma_take_succ_push(i as int);
                seen.lemma_filter_push(k, fresh);
                seen.lemma_push_to_set_commute(k);
                assert(!seen.contains(k));
                assert(added == fresh(k));
                assert(self@ =~= before_set.union(theirs.take(i + 1).to_set()));
                assert(self.order() =~= before + theirs.take(i + 1).filter(fresh));
            }
            i += 1;
        }
        proof {
            assert(theirs.take(i as int) =~= theirs);
        }
    }
}

} // verus!
