use vstd::prelude::*;

use crate::marks::Mark;

verus! {

/// No two entries share a key.
pub open spec fn keys_distinct(entries: Seq<(usize, Mark)>) -> bool {
    forall|i: int, j: int| 0 <= i < j < entries.len() ==> entries[i].0 != entries[j].0
}

/// A table of marks by key, each key at most once, in the order the keys were added. Keys and
/// places are kept apart so that a place can be changed in place while the keys stay fixed.
pub struct MarkTable {
    keys: Vec<usize>,
    places: Vec<Mark>,
}

impl MarkTable {
    /// Every key has one place, and no key appears twice; `use_type_invariant` on a table,
    /// then `lemma_well_formed`, brings this to a caller.
    #[verifier::type_invariant]
    pub closed spec fn well_formed(&self) -> bool {
        &&& self.keys@.len() == self.places@.len()
        &&& forall|i: int, j: int| 0 <= i < j < self.keys@.len() ==> self.keys@[i] != self.keys@[j]
    }

    /// The entries, as `(key, place)` pairs.
    pub closed spec fn entries(&self) -> Seq<(usize, Mark)> {
        Seq::new(self.keys@.len(), |i: int| (self.keys@[i], self.places@[i]))
    }

    /// A well-formed table's keys are distinct.
    pub proof fn lemma_well_formed(&self)
        requires
            self.well_formed(),
        ensures
            keys_distinct(self.entries()),
    {
    }

    /// An empty table.
    pub fn new() -> (r: MarkTable)
        ensures
            r.entries() == Seq::<(usize, Mark)>::empty(),
    {
        let r = MarkTable { keys: Vec::new(), places: Vec::new() };
        proof {
            assert(r.entries() =~= Seq::<(usize, Mark)>::empty());
        }
        r
    }

    pub fn len(&self) -> (r: usize)
        ensures
            r == self.entries().len(),
        no_unwind
    {
        proof {
            use_type_invariant(self);
        }
        self.keys.len()
    }

    /// The key of entry `i`.
    pub fn key(&self, i: usize) -> (r: usize)
        requires
            i < self.entries().len(),
        ensures
            r == self.entries()[i as int].0,
        no_unwind
    {
        proof {
            use_type_invariant(self);
        }
        self.keys[i]
    }

    /// The place of entry `i`.
    pub fn place(&self, i: usize) -> (r: Mark)
        requires
            i < self.entries().len(),
        ensures
            r == self.entries()[i as int].1,
        no_unwind
    {
        proof {
            use_type_invariant(self);
        }
        self.places[i]
    }

    /// Moves entry `i` to `m`, its key kept.
    pub fn set_place(&mut self, i: usize, m: Mark)
        requires
            i < old(self).entries().len(),
        ensures
            final(self).entries() == old(self).entries().update(i as int, (old(self).entries()[i as int].0, m)),
        no_unwind
    {
        proof {
            use_type_invariant(&*self);
        }
        self.places[i] = m;
        proof {
            assert(self.entries() =~= old(self).entries().update(i as int, (old(self).entries()[i as int].0, m)));
        }
    }

    /// The place of entry `i`, to change in place; its key stays.
    pub fn place_mut(&mut self, i: usize) -> (r: &mut Mark)
        requires
            i < old(self).entries().len(),
        ensures
            *r == old(self).entries()[i as int].1,
            final(self).entries() == old(self).entries().update(
                i as int,
                (old(self).entries()[i as int].0, *final(r)),
            ),
        no_unwind
    {
        proof {
            use_type_invariant(&*self);
            let e = old(self).entries();
            assert forall|m: Mark|
                #![trigger self.places@.update(i as int, m)]
                Seq::new(self.keys@.len(), |j: int| (self.keys@[j], self.places@.update(i as int, m)[j]))
                    == e.update(i as int, (e[i as int].0, m)) by {
                assert(Seq::new(self.keys@.len(), |j: int| (self.keys@[j], self.places@.update(i as int, m)[j]))
                    =~= e.update(i as int, (e[i as int].0, m)));
            }
        }
        &mut self.places[i]
    }

    /// Adds an entry for `key`, which the table does not hold yet, at `m`.
    pub fn push(&mut self, key: usize, m: Mark)
        requires
            forall|j: int| 0 <= j < old(self).entries().len() ==> (#[trigger] old(self).entries()[j]).0 != key,
        ensures
            final(self).entries() == old(self).entries().push((key, m)),
    {
        let mut table = MarkTable::new();
        std::mem::swap(&mut table, self);
        proof {
            use_type_invariant(&table);
        }
        let MarkTable { mut keys, mut places } = table;
        proof {
            assert forall|j: int| 0 <= j < keys@.len() implies keys@[j] != key by {
                assert(old(self).entries()[j].0 == keys@[j]);
            }
        }
        keys.push(key);
        places.push(m);
        *self = MarkTable { keys, places };
        proof {
            assert(self.entries() =~= old(self).entries().push((key, m)));
        }
    }
}

} // verus!
