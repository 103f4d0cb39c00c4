//! A set of citation keys.
use vstd::prelude::*;
use crate::strmap::StrMap;

verus! {

/// A set of citation keys, such as the keys cited in a book.
pub struct KeySet {
    keys: StrMap<bool>,
}

impl KeySet {
    pub closed spec fn wf(&self) -> bool {
        self.keys.wf()
    }

    pub closed spec fn set_view(&self) -> Set<Seq<char>> {
        self.keys@.dom()
    }

    /// An empty set.
    pub fn new() -> (r: Self)
        ensures
            r.wf(),
            r@ == Set::<Seq<char>>::empty(),
    {
        let r = KeySet { keys: StrMap::new() };
        assert(r@ =~= Set::<Seq<char>>::empty());
        r
    }

    /// Adds `key`; tells whether it was not there before.
    pub fn insert(&mut self, key: String) -> (r: bool)
        requires
            old(self).wf(),
        ensures
            final(self).wf(),
            final(self)@ == old(self)@.insert(key@),
            r == !old(self)@.contains(key@),
    {
        let fresh = !self.keys.contains_key(key.as_str());
        self.keys.insert(key, true);
        assert(self@ =~= old(self)@.insert(key@));
        fresh
    }

    /// Whether `key` is in the set.
    pub fn contains(&self, key: &str) -> (r: bool)
        requires
            self.wf(),
        ensures
            r == self@.contains(key@),
    {
        self.keys.contains_key(key)
    }

    /// The number of keys.
    pub fn len(&self) -> (r: usize)
        requires
            self.wf(),
        ensures
            r == self@.len(),
    {
        self.keys.len()
    }
}

impl View for KeySet {
    type V = Set<Seq<char>>;

    open spec fn view(&self) -> Set<Seq<char>> {
        self.set_view()
    }
}

} // verus!
