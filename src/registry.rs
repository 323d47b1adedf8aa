use vstd::prelude::*;
use std::collections::HashMap;
use vstd::std_specs::iter::IteratorSpec;

verus! {

broadcast use vstd::std_specs::hash::group_hash_axioms;

/// The live candidates: each id with the handle of its shape.
pub struct Registry<S> {
    entries: HashMap<u64, S>,
}

impl<S> View for Registry<S> {
    type V = Map<u64, S>;

    closed spec fn view(&self) -> Map<u64, S> {
        self.entries@
    }
}

impl<S> Registry<S> {
    pub fn new() -> (r: Self)
        ensures
            r@ == Map::<u64, S>::empty(),
    {
        Registry { entries: HashMap::new() }
    }

    /// Inserts `id`, or replaces its shape: the last writer wins.
    pub fn upsert(&mut self, id: u64, shape: S)
        ensures
            final(self)@ == old(self)@.insert(id, shape),
    {
        self.entries.insert(id, shape);
    }

    /// Deletes `id` if present.
    pub fn remove(&mut self, id: u64)
        ensures
            final(self)@ == old(self)@.remove(id),
    {
        self.entries.remove(&id);
    }

    pub fn contains(&self, id: u64) -> (b: bool)
        ensures
            b == self@.contains_key(id),
    {
        self.entries.contains_key(&id)
    }

    pub fn get(&self, id: u64) -> (r: Option<&S>)
        ensures
            match r {
                Some(s) => self@.contains_key(id) && *s == self@[id],
                None => !self@.contains_key(id),
            },
    {
        self.entries.get(&id)
    }

    pub fn len(&self) -> (n: usize)
        ensures
            n == self@.len(),
    {
        self.entries.len()
    }

    /// A point-in-time copy of the registered ids, each once.
    pub fn ids(&self) -> (v: Vec<u64>)
        ensures
            v@.to_set() == self@.dom(),
            v@.no_duplicates(),
    {
        let mut v: Vec<u64> = Vec::new();
        let ghost all = vstd::std_specs::hash::spec_keys_iter(&self.entries).remaining();
        for k in it: self.entries.keys()
            invariant
                it.seq() == all,
                v@ == all.take(it.index() as int).map_values(|k: &u64| *k),
        {
            v.push(*k);
        }
        assert(v@ =~= all.map_values(|k: &u64| *k));
        assert(all.unref() =~= all.map_values(|k: &u64| *k));
        v
    }
}

} // verus!
