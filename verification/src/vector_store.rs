//! The operations a search needs from whatever holds the vectors.

use std::fmt::Debug;
use std::hash::Hash;
use vstd::prelude::*;

verus! {

/// A cheap handle: copied by value, compared and hashed.
pub trait Ref: Copy + Debug + PartialEq + Eq + Hash + Sync {

}

impl<T> Ref for T where T: Copy + Debug + PartialEq + Eq + Hash + Sync {

}

/// The index at which a binary search over `nearer[left..right]` stops, where
/// `nearer[i]` tells whether the `i`-th distance of a list is strictly nearer
/// than the target. The search halves the range: it looks at the middle, goes
/// right of it when that distance is nearer, and left otherwise.
pub open spec fn bisect(nearer: Seq<bool>, left: int, right: int) -> int
    decreases right - left,
{
    if left >= right {
        left
    } else {
        let mid = left + (right - left) / 2;
        if nearer[mid] {
            bisect(nearer, mid + 1, right)
        } else {
            bisect(nearer, left, mid)
        }
    }
}

/// Where a binary search stops, the flag before is set and the flag at the
/// place is not: the new distance goes behind one that is nearer and before
/// one that is not.
pub proof fn lemma_bisect_boundary(nearer: Seq<bool>, left: int, right: int)
    requires
        0 <= left <= right <= nearer.len(),
    ensures
        left <= bisect(nearer, left, right) <= right,
        bisect(nearer, left, right) > left ==> nearer[bisect(nearer, left, right) - 1],
        bisect(nearer, left, right) < right ==> !nearer[bisect(nearer, left, right)],
    decreases right - left,
{
    if left < right {
        let mid = left + (right - left) / 2;
        if nearer[mid] {
            lemma_bisect_boundary(nearer, mid + 1, right);
        } else {
            lemma_bisect_boundary(nearer, left, mid);
        }
    }
}

/// In a list whose first `split` distances are nearer than the target and
/// whose others are not, the binary search finds `split`: the number of
/// distances that are nearer.
pub proof fn lemma_bisect_partitioned(nearer: Seq<bool>, split: int)
    requires
        0 <= split <= nearer.len(),
        forall|i: int| 0 <= i < split ==> nearer[i],
        forall|i: int| split <= i < nearer.len() ==> !nearer[i],
    ensures
        bisect(nearer, 0, nearer.len() as int) == split,
{
    lemma_bisect_boundary(nearer, 0, nearer.len() as int);
}

/// The operations exposed by a vector store, sufficient for a search
/// algorithm.
///
/// A store is described by a few spec functions: which handles it knows, the
/// distance it assigns to a query and a vector, and how it orders and judges
/// distances. Each operation says what it returns in those terms, so that a
/// search over any store is a function of what the store holds. A store that
/// does not define them has a description that nothing is known of.
pub trait VectorStore: Clone + Debug + Sized {
    /// Opaque reference to a query.
    type QueryRef: Ref;

    /// Opaque reference to a stored vector.
    type VectorRef: Ref;

    /// Opaque reference to a distance between a query and a vector.
    type DistanceRef: Ref;

    /// The store's own invariant.
    open spec fn wf(&self) -> bool {
        arbitrary()
    }

    /// Whether `query` is a prepared query of this store.
    open spec fn has_query(&self, query: Self::QueryRef) -> bool {
        arbitrary()
    }

    /// The vectors that were inserted.
    open spec fn vectors(&self) -> Set<Self::VectorRef> {
        arbitrary()
    }

    /// Whether `distance` is a handle this store can compare.
    open spec fn has_distance(&self, distance: Self::DistanceRef) -> bool {
        arbitrary()
    }

    /// The distance between a query and a vector.
    open spec fn distance(
        &self,
        query: Self::QueryRef,
        vector: Self::VectorRef,
    ) -> Self::DistanceRef {
        arbitrary()
    }

    /// The strict order on distances: `a` is nearer than `b`.
    open spec fn closer(&self, a: Self::DistanceRef, b: Self::DistanceRef) -> bool {
        arbitrary()
    }

    /// Whether a distance says that query and vector are the same.
    open spec fn matching(&self, distance: Self::DistanceRef) -> bool {
        arbitrary()
    }

    /// Persist a query as a new vector in the store, and return a reference
    /// to it. What the store knew before, it knows unchanged afterwards.
    fn insert(&mut self, query: &Self::QueryRef) -> (vector: Self::VectorRef)
        requires
            old(self).wf(),
            old(self).has_query(*query),
        ensures
            final(self).wf(),
            final(self).vectors() == old(self).vectors().insert(vector),
            final(self).has_distance(final(self).distance(*query, vector)),
            final(self).matching(final(self).distance(*query, vector)),
            forall|q: Self::QueryRef| old(self).has_query(q) ==> #[trigger] final(self).has_query(q),
            forall|d: Self::DistanceRef|
                old(self).has_distance(d) ==> #[trigger] final(self).has_distance(d),
            forall|q: Self::QueryRef, v: Self::VectorRef|
                old(self).has_query(q) && old(self).vectors().contains(v)
                    ==> #[trigger] final(self).distance(q, v) == old(self).distance(q, v),
            forall|a: Self::DistanceRef, b: Self::DistanceRef|
                old(self).has_distance(a) && old(self).has_distance(b)
                    ==> #[trigger] final(self).closer(a, b) == old(self).closer(a, b),
            forall|d: Self::DistanceRef|
                old(self).has_distance(d) ==> #[trigger] final(self).matching(d) == old(self).matching(d),
    ;

    /// Evaluate the distance between a query and a vector.
    fn eval_distance(&self, query: &Self::QueryRef, vector: &Self::VectorRef) -> (distance:
        Self::DistanceRef)
        requires
            self.wf(),
            self.has_query(*query),
            self.vectors().contains(*vector),
        ensures
            distance == self.distance(*query, *vector),
            self.has_distance(distance),
    ;

    /// Check whether a distance is a match, meaning the query is considered
    /// equivalent to a previously inserted vector.
    fn is_match(&self, distance: &Self::DistanceRef) -> (matched: bool)
        requires
            self.wf(),
            self.has_distance(*distance),
        ensures
            matched == self.matching(*distance),
    ;

    /// Compare two distances.
    fn less_than(&self, distance1: &Self::DistanceRef, distance2: &Self::DistanceRef) -> (nearer:
        bool)
        requires
            self.wf(),
            self.has_distance(*distance1),
            self.has_distance(*distance2),
        ensures
            nearer == self.closer(*distance1, *distance2),
    ;

    /// Find the insertion index for a target distance to maintain order in a
    /// list of ascending distances.
    fn search_sorted(&self, distances: &[Self::DistanceRef], target: &Self::DistanceRef) -> (index:
        usize)
        requires
            self.wf(),
            self.has_distance(*target),
            forall|i: int| 0 <= i < distances@.len() ==> self.has_distance(#[trigger] distances@[i]),
        ensures
            index == bisect(
                distances@.map_values(|d: Self::DistanceRef| self.closer(d, *target)),
                0,
                distances@.len() as int,
            ),
    {
        let mut left: usize = 0;
        let mut right: usize = distances.len();
        let ghost nearer = distances@.map_values(|d: Self::DistanceRef| self.closer(d, *target));
        while left < right
            invariant
                self.wf(),
                self.has_distance(*target),
                forall|i: int|
                    0 <= i < distances@.len() ==> self.has_distance(#[trigger] distances@[i]),
                0 <= left <= right <= distances@.len(),
                nearer == distances@.map_values(|d: Self::DistanceRef| self.closer(d, *target)),
                bisect(nearer, 0, distances@.len() as int) == bisect(
                    nearer,
                    left as int,
                    right as int,
                ),
            decreases right - left,
        {
            let mid = left + (right - left) / 2;
            if self.less_than(&distances[mid], target) {
                left = mid + 1;
            } else {
                right = mid;
            }
        }
        left
    }

    /// Persist a batch of queries as new vectors in the store, and return
    /// references to them. The default implementation is a loop over
    /// `insert`.
    fn insert_batch(&mut self, queries: &[Self::QueryRef]) -> (inserted: Vec<Self::VectorRef>)
        requires
            old(self).wf(),
            forall|i: int| 0 <= i < queries@.len() ==> old(self).has_query(#[trigger] queries@[i]),
        ensures
            final(self).wf(),
            inserted@.len() == queries@.len(),
            final(self).vectors() == old(self).vectors().union(inserted@.to_set()),
            forall|i: int|
                0 <= i < queries@.len() ==> final(self).has_distance(
                    #[trigger] final(self).distance(queries@[i], inserted@[i]),
                ) && final(self).matching(final(self).distance(queries@[i], inserted@[i])),
            forall|q: Self::QueryRef| old(self).has_query(q) ==> #[trigger] final(self).has_query(q),
            forall|d: Self::DistanceRef|
                old(self).has_distance(d) ==> #[trigger] final(self).has_distance(d),
            forall|q: Self::QueryRef, v: Self::VectorRef|
                old(self).has_query(q) && old(self).vectors().contains(v)
                    ==> #[trigger] final(self).distance(q, v) == old(self).distance(q, v),
            forall|a: Self::DistanceRef, b: Self::DistanceRef|
                old(self).has_distance(a) && old(self).has_distance(b)
                    ==> #[trigger] final(self).closer(a, b) == old(self).closer(a, b),
            forall|d: Self::DistanceRef|
                old(self).has_distance(d) ==> #[trigger] final(self).matching(d) == old(self).matching(d),
    {
        let mut results: Vec<Self::VectorRef> = Vec::with_capacity(queries.len());
        let mut i: usize = 0;
        while i < queries.len()
            invariant
                0 <= i <= queries@.len(),
                old(self).wf(),
                self.wf(),
                results@.len() == i,
                self.vectors() == old(self).vectors().union(results@.to_set()),
                forall|j: int|
                    0 <= j < i ==> self.has_distance(
                        #[trigger] self.distance(queries@[j], results@[j]),
                    ) && self.matching(self.distance(queries@[j], results@[j])),
                forall|j: int| 0 <= j < queries@.len() ==> old(self).has_query(#[trigger] queries@[j]),
                forall|q: Self::QueryRef| old(self).has_query(q) ==> #[trigger] self.has_query(q),
                forall|d: Self::DistanceRef|
                    old(self).has_distance(d) ==> #[trigger] self.has_distance(d),
                forall|q: Self::QueryRef, v: Self::VectorRef|
                    old(self).has_query(q) && old(self).vectors().contains(v)
                        ==> #[trigger] self.distance(q, v) == old(self).distance(q, v),
                forall|a: Self::DistanceRef, b: Self::DistanceRef|
                    old(self).has_distance(a) && old(self).has_distance(b)
                        ==> #[trigger] self.closer(a, b) == old(self).closer(a, b),
                forall|d: Self::DistanceRef|
                    old(self).has_distance(d) ==> #[trigger] self.matching(d) == old(self).matching(d),
            decreases queries@.len() - i,
        {
            let ghost before = *self;
            let ghost done = results@;
            let vector = self.insert(&queries[i]);
            results.push(vector);
            proof {
                assert(self.vectors() =~= old(self).vectors().union(results@.to_set())) by {
                    assert forall|v: Self::VectorRef|
                        results@.to_set().contains(v) <==> done.to_set().contains(v) || v
                            == vector by {
                        if done.to_set().contains(v) {
                            let k = choose|k: int| 0 <= k < done.len() && done[k] == v;
                            assert(results@[k] == v);
                        }
                        if v == vector {
                            assert(results@[i as int] == v);
                        }
                    }
                }
                assert forall|j: int| 0 <= j < i + 1 implies self.has_distance(
                    #[trigger] self.distance(queries@[j], results@[j]),
                ) && self.matching(self.distance(queries@[j], results@[j])) by {
                    if j < i {
                        assert(done.to_set().contains(done[j]));
                        assert(before.matching(before.distance(queries@[j], done[j])));
                    }
                }
            }
            i += 1;
        }
        results
    }

    /// Evaluate the distances between a query and a batch of vectors. The
    /// default implementation is a loop over `eval_distance`.
    fn eval_distance_batch(&self, query: &Self::QueryRef, vectors: &[Self::VectorRef]) -> (distances:
        Vec<Self::DistanceRef>)
        requires
            self.wf(),
            self.has_query(*query),
            forall|i: int| 0 <= i < vectors@.len() ==> self.vectors().contains(#[trigger] vectors@[i]),
        ensures
            distances@ == vectors@.map_values(|v: Self::VectorRef| self.distance(*query, v)),
            forall|i: int| 0 <= i < distances@.len() ==> self.has_distance(#[trigger] distances@[i]),
    {
        let mut results: Vec<Self::DistanceRef> = Vec::with_capacity(vectors.len());
        let mut i: usize = 0;
        while i < vectors.len()
            invariant
                0 <= i <= vectors@.len(),
                self.wf(),
                self.has_query(*query),
                forall|j: int|
                    0 <= j < vectors@.len() ==> self.vectors().contains(#[trigger] vectors@[j]),
                results@ == vectors@.take(i as int).map_values(
                    |v: Self::VectorRef| self.distance(*query, v),
                ),
                forall|j: int| 0 <= j < results@.len() ==> self.has_distance(#[trigger] results@[j]),
            decreases vectors@.len() - i,
        {
            let distance = self.eval_distance(query, &vectors[i]);
            results.push(distance);
            proof {
                assert(results@ =~= vectors@.take(i + 1).map_values(
                    |v: Self::VectorRef| self.distance(*query, v),
                ));
            }
            i += 1;
        }
        proof {
            assert(vectors@.take(i as int) =~= vectors@);
        }
        results
    }

    /// Compare a distance with a batch of distances. The default
    /// implementation is a loop over `less_than`.
    fn less_than_batch(&self, distance: &Self::DistanceRef, distances: &[Self::DistanceRef]) -> (nearer:
        Vec<bool>)
        requires
            self.wf(),
            self.has_distance(*distance),
            forall|i: int| 0 <= i < distances@.len() ==> self.has_distance(#[trigger] distances@[i]),
        ensures
            nearer@ == distances@.map_values(|d: Self::DistanceRef| self.closer(*distance, d)),
    {
        let mut results: Vec<bool> = Vec::with_capacity(distances.len());
        let mut i: usize = 0;
        while i < distances.len()
            invariant
                0 <= i <= distances@.len(),
                self.wf(),
                self.has_distance(*distance),
                forall|j: int|
                    0 <= j < distances@.len() ==> self.has_distance(#[trigger] distances@[j]),
                results@ == distances@.take(i as int).map_values(
                    |d: Self::DistanceRef| self.closer(*distance, d),
                ),
            decreases distances@.len() - i,
        {
            let nearer = self.less_than(distance, &distances[i]);
            results.push(nearer);
            proof {
                assert(results@ =~= distances@.take(i + 1).map_values(
                    |d: Self::DistanceRef| self.closer(*distance, d),
                ));
            }
            i += 1;
        }
        proof {
            assert(distances@.take(i as int) =~= distances@);
        }
        results
    }
}

/// Whether the store `after` knows all that the store `before` knew, and
/// knows it unchanged: every query, vector and distance of `before`, the
/// distance between its queries and vectors, and how its distances are
/// ordered and judged.
pub open spec fn extends<V: VectorStore>(before: &V, after: &V) -> bool {
    &&& before.vectors().subset_of(after.vectors())
    &&& forall|q: V::QueryRef| before.has_query(q) ==> #[trigger] after.has_query(q)
    &&& forall|d: V::DistanceRef| before.has_distance(d) ==> #[trigger] after.has_distance(d)
    &&& forall|q: V::QueryRef, v: V::VectorRef|
        before.has_query(q) && before.vectors().contains(v) ==> #[trigger] after.distance(q, v)
            == before.distance(q, v)
    &&& forall|a: V::DistanceRef, b: V::DistanceRef|
        before.has_distance(a) && before.has_distance(b) ==> #[trigger] after.closer(a, b)
            == before.closer(a, b)
    &&& forall|d: V::DistanceRef|
        before.has_distance(d) ==> #[trigger] after.matching(d) == before.matching(d)
}

/// Whether a store keeps the laws that a search relies on: it holds
/// finitely many vectors, it can compare the distance between any of its
/// queries and any of its vectors, and its order on distances is strict: no
/// distance is nearer than itself, and nearer than something nearer is
/// nearer.
pub open spec fn lawful<V: VectorStore>(store: &V) -> bool {
    &&& store.vectors().finite()
    &&& forall|q: V::QueryRef, v: V::VectorRef|
        store.has_query(q) && store.vectors().contains(v) ==> store.has_distance(
            #[trigger] store.distance(q, v),
        )
    &&& forall|a: V::DistanceRef| store.has_distance(a) ==> !#[trigger] store.closer(a, a)
    &&& forall|a: V::DistanceRef, b: V::DistanceRef, c: V::DistanceRef|
        store.has_distance(a) && store.has_distance(b) && store.has_distance(c)
            && #[trigger] store.closer(a, b) && #[trigger] store.closer(b, c) ==> store.closer(
            a,
            c,
        )
}

/// Whether a match is never beaten: a distance that is no further than a
/// matching one is a match itself.
pub open spec fn matches_are_nearest<V: VectorStore>(store: &V) -> bool {
    forall|a: V::DistanceRef, b: V::DistanceRef|
        store.has_distance(a) && store.has_distance(b) && store.matching(a)
            && !#[trigger] store.closer(a, b) ==> store.matching(b)
}

/// Of two distances, at most one is nearer than the other.
pub proof fn lemma_closer_asymmetric<V: VectorStore>(
    store: &V,
    a: V::DistanceRef,
    b: V::DistanceRef,
)
    requires
        lawful(store),
        store.has_distance(a),
        store.has_distance(b),
        store.closer(a, b),
    ensures
        !store.closer(b, a),
{
    if store.closer(b, a) {
        assert(store.closer(a, a));
    }
}

} // verus!
