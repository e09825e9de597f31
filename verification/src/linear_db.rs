//! A database that looks at every vector in turn: the plain way to tell
//! whether a query is new, kept for comparison with the graph.

use crate::vector_store::{extends, VectorStore};
use vstd::prelude::*;

verus! {

#[derive(Clone)]
pub struct LinearDb<V: VectorStore> {
    pub store: V,
    /// The vectors that went into the database, in the order they came.
    pub vectors: Vec<V::VectorRef>,
}

impl<V: VectorStore> LinearDb<V> {
    /// The vectors that went into the database, in the order they came.
    pub open spec fn inserted(&self) -> Seq<V::VectorRef> {
        self.vectors@
    }

    /// Whether the store is in order and holds every vector of the database.
    pub open spec fn wf(&self) -> bool {
        &&& self.store.wf()
        &&& forall|i: int|
            0 <= i < self.inserted().len() ==> self.store.vectors().contains(
                #[trigger] self.inserted()[i],
            )
    }

    /// Whether some vector of the database matches the query.
    pub open spec fn holds(&self, query: V::QueryRef) -> bool {
        exists|i: int|
            0 <= i < self.inserted().len() && self.store.matching(
                #[trigger] self.store.distance(query, self.inserted()[i]),
            )
    }

    pub fn new(store: V) -> (db: Self)
        ensures
            db.store == store,
            db.inserted() == Seq::<V::VectorRef>::empty(),
    {
        LinearDb { store, vectors: Vec::new() }
    }

    /// Insert the query as a new vector unless a vector of the database
    /// matches it already. Returns whether it was inserted.
    pub fn insert(&mut self, query: &V::QueryRef) -> (fresh: bool)
        requires
            old(self).wf(),
            old(self).store.has_query(*query),
        ensures
            final(self).wf(),
            fresh == !old(self).holds(*query),
            !fresh ==> final(self).store == old(self).store && final(self).inserted()
                == old(self).inserted(),
            fresh ==> {
                &&& final(self).inserted().len() == old(self).inserted().len() + 1
                &&& final(self).inserted().drop_last() == old(self).inserted()
                &&& final(self).store.vectors() == old(self).store.vectors().insert(
                    final(self).inserted().last(),
                )
                &&& final(self).store.matching(
                    final(self).store.distance(*query, final(self).inserted().last()),
                )
                &&& extends(&old(self).store, &final(self).store)
            },
    {
        if self.is_known(query) {
            return false;
        }
        let vector = self.store.insert(query);
        self.vectors.push(vector);
        proof {
            assert(self.inserted().drop_last() =~= old(self).inserted());
            assert forall|i: int| 0 <= i < self.inserted().len() implies self.store.vectors().contains(
                #[trigger] self.inserted()[i],
            ) by {
                if i < old(self).inserted().len() {
                    assert(self.inserted()[i] == old(self).inserted()[i]);
                }
            }
        }
        true
    }

    /// Whether some vector of the database matches the query.
    fn is_known(&self, query: &V::QueryRef) -> (found: bool)
        requires
            self.wf(),
            self.store.has_query(*query),
        ensures
            found == self.holds(*query),
    {
        let mut i: usize = 0;
        while i < self.vectors.len()
            invariant
                self.wf(),
                self.store.has_query(*query),
                0 <= i <= self.inserted().len(),
                forall|j: int|
                    0 <= j < i ==> !self.store.matching(
                        #[trigger] self.store.distance(*query, self.inserted()[j]),
                    ),
            decreases self.inserted().len() - i,
        {
            let distance = self.store.eval_distance(query, &self.vectors[i]);
            if self.store.is_match(&distance) {
                return true;
            }
            i += 1;
        }
        false
    }
}

} // verus!
