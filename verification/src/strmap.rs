//! A small map keyed by strings that remembers the order in which keys were
//! first inserted. It backs the fields of a BibTeX entry, the bibliography
//! and the set of cited keys.
use vstd::prelude::*;

verus! {

/// A map from strings to values; each key occurs once, in the order of its
/// first insertion.
pub struct StrMap<V> {
    entries: Vec<(String, V)>,
}

impl<V: View> StrMap<V> {
    /// The keys, in insertion order.
    pub closed spec fn keys_seq(&self) -> Seq<Seq<char>> {
        Seq::new(self.entries@.len(), |i: int| self.entries@[i].0@)
    }

    /// The values, in the order of their keys.
    pub closed spec fn values_seq(&self) -> Seq<V::V> {
        Seq::new(self.entries@.len(), |i: int| self.entries@[i].1@)
    }

    /// No key occurs twice.
    pub closed spec fn wf(&self) -> bool {
        self.keys_seq().no_duplicates()
    }

    /// The position of `k` among the keys.
    pub closed spec fn index_of_key(&self, k: Seq<char>) -> int {
        choose|i: int| 0 <= i < self.keys_seq().len() && self.keys_seq()[i] == k
    }

    pub closed spec fn map_view(&self) -> Map<Seq<char>, V::V> {
        Map::new(
            |k: Seq<char>| self.keys_seq().contains(k),
            |k: Seq<char>| self.values_seq()[self.index_of_key(k)],
        )
    }

    /// The map agrees with the keys and values in order: the keys are its
    /// domain, each key is mapped to the value at its position, and it has
    /// as many entries as there are keys.
    pub proof fn lemma_view(&self)
        requires
            self.wf(),
        ensures
            self.keys_seq().len() == self.values_seq().len(),
            self.keys_seq().no_duplicates(),
            forall|i: int|
                0 <= i < self.keys_seq().len() ==> self@.contains_key(
                    #[trigger] self.keys_seq()[i],
                ) && self@[self.keys_seq()[i]] == self.values_seq()[i],
            forall|k: Seq<char>| #[trigger]
                self@.contains_key(k) <==> self.keys_seq().contains(k),
            self@.dom() == self.keys_seq().to_set(),
            self@.len() == self.keys_seq().len(),
    {
        assert forall|i: int| 0 <= i < self.keys_seq().len() implies self@.contains_key(
            #[trigger] self.keys_seq()[i],
        ) && self@[self.keys_seq()[i]] == self.values_seq()[i] by {
            let k = self.keys_seq()[i];
            assert(self.keys_seq().contains(k));
            let j = self.index_of_key(k);
            assert(0 <= j < self.keys_seq().len() && self.keys_seq()[j] == k);
            assert(i == j);
        }
        assert(self@.dom() =~= self.keys_seq().to_set());
        self.keys_seq().unique_seq_to_set();
    }

    /// There are as many values as keys.
    pub proof fn lemma_view_lengths(&self)
        ensures
            self.keys_seq().len() == self.values_seq().len(),
    {
    }

    /// An empty map.
    pub fn new() -> (r: Self)
        ensures
            r.wf(),
            r@ == Map::<Seq<char>, V::V>::empty(),
            r.keys_seq() == Seq::<Seq<char>>::empty(),
    {
        let r = StrMap { entries: Vec::new() };
        assert(r@ =~= Map::<Seq<char>, V::V>::empty());
        assert(r.keys_seq() =~= Seq::<Seq<char>>::empty());
        r
    }

    /// The number of keys.
    pub fn len(&self) -> (r: usize)
        requires
            self.wf(),
        ensures
            r == self@.len(),
            r == self.keys_seq().len(),
    {
        proof {
            self.lemma_view();
        }
        self.entries.len()
    }

    /// The position of `key` among the keys, if it is one.
    pub fn find(&self, key: &str) -> (r: Option<usize>)
        ensures
            r matches Some(i) ==> i < self.keys_seq().len() && self.keys_seq()[i as int] == key@,
            r is None ==> !self.keys_seq().contains(key@),
    {
        let k: String = key.to_owned();
        let mut i: usize = 0;
        while i < self.entries.len()
            invariant
                k@ == key@,
                i <= self.entries@.len(),
                forall|j: int| 0 <= j < i ==> self.keys_seq()[j] != key@,
            decreases self.entries@.len() - i,
        {
            if self.entries[i].0 == k {
                return Some(i);
            }
            i = i + 1;
        }
        None
    }

    /// Whether `key` is a key of the map.
    pub fn contains_key(&self, key: &str) -> (r: bool)
        requires
            self.wf(),
        ensures
            r == self@.contains_key(key@),
    {
        proof {
            self.lemma_view();
        }
        self.find(key).is_some()
    }

    /// The value of `key`, if it is a key of the map.
    pub fn get(&self, key: &str) -> (r: Option<&V>)
        requires
            self.wf(),
        ensures
            r is Some <==> self@.contains_key(key@),
            r matches Some(v) ==> v@ == self@[key@],
    {
        proof {
            self.lemma_view();
        }
        match self.find(key) {
            Some(i) => Some(&self.entries[i].1),
            None => None,
        }
    }

    /// The key at position `i`.
    pub fn key_at(&self, i: usize) -> (r: &String)
        requires
            i < self.keys_seq().len(),
        ensures
            r@ == self.keys_seq()[i as int],
    {
        &self.entries[i].0
    }

    /// The value at position `i`.
    pub fn value_at(&self, i: usize) -> (r: &V)
        requires
            i < self.keys_seq().len(),
        ensures
            r@ == self.values_seq()[i as int],
    {
        &self.entries[i].1
    }

    /// Maps `key` to `value`: a new key goes last, a known key keeps its place
    /// and gets the new value.
    pub fn insert(&mut self, key: String, value: V)
        requires
            old(self).wf(),
        ensures
            final(self).wf(),
            final(self)@ == old(self)@.insert(key@, value@),
            old(self).keys_seq().contains(key@) ==> final(self).keys_seq() == old(
                self,
            ).keys_seq() && final(self).values_seq() == old(self).values_seq().update(
                old(self).index_of_key(key@),
                value@,
            ),
            !old(self).keys_seq().contains(key@) ==> final(self).keys_seq() == old(
                self,
            ).keys_seq().push(key@) && final(self).values_seq() == old(self).values_seq().push(
                value@,
            ),
    {
        let ghost k = key@;
        let ghost v = value@;
        proof {
            old(self).lemma_view();
        }
        match self.find(key.as_str()) {
            Some(i) => {
                proof {
                    assert(old(self).index_of_key(k) == i) by {
                        let j = old(self).index_of_key(k);
                        assert(old(self).keys_seq().contains(k));
                    }
                }
                self.entries.set(i, (key, value));
                assert(self.keys_seq() =~= old(self).keys_seq());
                assert(self.values_seq() =~= old(self).values_seq().update(i as int, v));
            },
            None => {
                self.entries.push((key, value));
                assert(self.keys_seq() =~= old(self).keys_seq().push(k));
                assert(self.values_seq() =~= old(self).values_seq().push(v));
            },
        }
        proof {
            self.lemma_view();
            assert forall|kk: Seq<char>| #[trigger]
                self@.contains_key(kk) == old(self)@.insert(k, v).contains_key(kk) by {
                if self.keys_seq().contains(kk) && kk != k {
                    let j = choose|j: int|
                        0 <= j < self.keys_seq().len() && self.keys_seq()[j] == kk;
                    assert(old(self).keys_seq()[j] == kk);
                }
                if old(self).keys_seq().contains(kk) {
                    let j = choose|j: int|
                        0 <= j < old(self).keys_seq().len() && old(self).keys_seq()[j] == kk;
                    assert(self.keys_seq()[j] == kk);
                }
                if kk == k && !old(self).keys_seq().contains(kk) {
                    assert(self.keys_seq()[old(self).keys_seq().len() as int] == kk);
                }
            }
            assert forall|kk: Seq<char>| #[trigger]
                self@.contains_key(kk) implies self@[kk] == old(self)@.insert(k, v)[kk] by {
                let j = choose|j: int|
                    0 <= j < self.keys_seq().len() && self.keys_seq()[j] == kk;
                assert(self@[self.keys_seq()[j]] == self.values_seq()[j]);
                if kk != k {
                    assert(old(self).keys_seq()[j] == kk);
                    assert(old(self)@[old(self).keys_seq()[j]] == old(self).values_seq()[j]);
                }
            }
            assert(self@ =~= old(self)@.insert(k, v));
        }
    }

    /// Removes every key.
    pub fn clear(&mut self)
        ensures
            final(self).wf(),
            final(self)@ == Map::<Seq<char>, V::V>::empty(),
            final(self).keys_seq() == Seq::<Seq<char>>::empty(),
    {
        self.entries = Vec::new();
        assert(self@ =~= Map::<Seq<char>, V::V>::empty());
        assert(self.keys_seq() =~= Seq::<Seq<char>>::empty());
    }
}

impl<V: View> View for StrMap<V> {
    type V = Map<Seq<char>, V::V>;

    open spec fn view(&self) -> Map<Seq<char>, V::V> {
        self.map_view()
    }
}

/// What a read gives back after a write: the value just written for the
/// key written, and what was there before for every other key.
pub proof fn insert_then_get<V: View>(
    before: StrMap<V>,
    after: StrMap<V>,
    key: Seq<char>,
    value: V::V,
    other: Seq<char>,
)
    requires
        before.wf(),
        after@ == before@.insert(key, value),
        other != key,
    ensures
        after@.contains_key(key),
        after@[key] == value,
        after@.contains_key(other) == before@.contains_key(other),
        before@.contains_key(other) ==> after@[other] == before@[other],
{
}

} // verus!
