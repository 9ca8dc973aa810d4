//! Finding an entity of a table by its id.

use std::collections::HashMap;
use vstd::prelude::*;
use vstd::std_specs::hash::*;

verus! {

broadcast use group_hash_axioms;

/// The last place in `ids` that holds `id`.
pub open spec fn last_position(ids: Seq<u64>, id: u64) -> Option<int>
    decreases ids.len(),
{
    if ids.len() == 0 {
        None
    } else if ids.last() == id {
        Some(ids.len() - 1)
    } else {
        last_position(ids.drop_last(), id)
    }
}

/// What `last_position` finds is a place of the id, and none follows it.
pub proof fn lemma_last_position(ids: Seq<u64>, id: u64)
    ensures
        match last_position(ids, id) {
            Some(p) => 0 <= p < ids.len() && ids[p] == id && forall|j: int|
                p < j < ids.len() ==> ids[j] != id,
            None => forall|j: int| 0 <= j < ids.len() ==> ids[j] != id,
        },
    decreases ids.len(),
{
    if ids.len() > 0 && ids.last() != id {
        let rest = ids.drop_last();
        lemma_last_position(rest, id);
        match last_position(rest, id) {
            Some(p) => {
                assert forall|j: int| p < j < ids.len() implies ids[j] != id by {
                    if j < rest.len() {
                        assert(rest[j] == ids[j]);
                    }
                }
            },
            None => {
                assert forall|j: int| 0 <= j < ids.len() implies ids[j] != id by {
                    if j < rest.len() {
                        assert(rest[j] == ids[j]);
                    }
                }
            },
        }
    }
}

/// A table from ids to places.
pub struct IdIndex {
    places: HashMap<u64, usize>,
}

impl View for IdIndex {
    type V = Map<u64, usize>;

    closed spec fn view(&self) -> Map<u64, usize> {
        self.places@
    }
}

impl IdIndex {
    /// The table without entries.
    pub fn new() -> (r: IdIndex)
        ensures
            r@ == Map::<u64, usize>::empty(),
    {
        IdIndex { places: HashMap::new() }
    }

    /// The place that `id` was given last, if any.
    pub fn get(&self, id: u64) -> (r: Option<usize>)
        ensures
            r == (if self@.contains_key(id) {
                Some(self@[id])
            } else {
                None
            }),
    {
        match self.places.get(&id) {
            Some(p) => Some(*p),
            None => None,
        }
    }

    /// Gives `id` the place `place`.
    pub fn insert(&mut self, id: u64, place: usize)
        ensures
            final(self)@ == old(self)@.insert(id, place),
    {
        let _ = self.places.insert(id, place);
    }

    /// The table that gives each id of `ids` its last place in `ids`.
    pub fn build(ids: &Vec<u64>) -> (r: IdIndex)
        ensures
            forall|id: u64| r.find(id) == last_position(ids@, id),
    {
        let mut r = IdIndex::new();
        let mut i: usize = 0;
        assert(ids@.take(0) =~= Seq::<u64>::empty());
        while i < ids.len()
            invariant
                i <= ids.len(),
                forall|id: u64| r.find(id) == last_position(ids@.take(i as int), id),
            decreases ids.len() - i,
        {
            let ghost before = r;
            r.insert(ids[i], i);
            i += 1;
            proof {
                let now = ids@.take(i as int);
                assert(now.drop_last() =~= ids@.take(i - 1));
                assert(now.last() == ids[i - 1]);
                assert forall|id: u64| r.find(id) == last_position(now, id) by {
                    if id != ids[i - 1] {
                        assert(r.find(id) == before.find(id));
                    }
                }
            }
        }
        assert(ids@.take(i as int) =~= ids@);
        r
    }

    /// The place under `id` as mathematics.
    pub open spec fn find(&self, id: u64) -> Option<int> {
        if self@.contains_key(id) {
            Some(self@[id] as int)
        } else {
            None
        }
    }
}

} // verus!
