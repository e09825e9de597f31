//! A vector store in memory that puts the work off: a distance is the pair
//! of the two points it lies between, and is computed when it is compared.

use crate::hamming::{hamming, lemma_hamming_zero, ones};
use crate::mock_store::lemma_ids_below_finite;
use crate::vector_store::{extends, lawful, matches_are_nearest, VectorStore};
use vstd::prelude::*;

verus! {

/// Example implementation of a vector store - Lazy variant.
///
/// A distance is lazily represented in `DistanceRef` as a tuple of point IDs,
/// and the actual distance is evaluated later in `less_than`.
#[derive(Default, Clone, Debug)]
pub struct LazyMemoryStore {
    points: Vec<Point>,
}

#[derive(Clone, Copy, Debug)]
pub struct Point {
    /// Whatever encoding of a vector.
    pub data: u64,
    /// Distinguish between queries that are pending, and those that were
    /// ultimately accepted into the vector store.
    pub is_persistent: bool,
}

/// The place of a point in the store.
pub type PointId = usize;

/// A distance that is not computed yet: the query and the vector it lies
/// between.
#[derive(Clone, Copy, Debug, PartialEq, Eq, Hash)]
pub struct PointPair(pub PointId, pub PointId);

impl LazyMemoryStore {
    pub fn new() -> (store: Self)
        ensures
            store.points() == Seq::<Point>::empty(),
    {
        LazyMemoryStore { points: Vec::new() }
    }

    /// The points of the store, queries and vectors alike, by their ids.
    pub closed spec fn points(&self) -> Seq<Point> {
        self.points@
    }

    /// The number of bits in which the two points of a pair differ.
    pub open spec fn hamming_of(&self, pair: PointPair) -> nat {
        ones(self.points()[pair.0 as int].data ^ self.points()[pair.1 as int].data)
    }

    /// The store keeps the laws of a vector store, whatever it holds, and
    /// nothing is nearer than a match.
    pub proof fn lemma_lawful(&self)
        ensures
            lawful(self),
            matches_are_nearest(self),
    {
        lemma_ids_below_finite(self.points().len());
        vstd::set_lib::lemma_len_subset(
            self.vectors(),
            Set::new(|id: usize| id < self.points().len()),
        );
    }

    /// Take a raw query into the store as a pending point, and return its id.
    pub fn prepare_query(&mut self, raw_query: u64) -> (query: PointId)
        ensures
            query == old(self).points().len(),
            final(self).points() == old(self).points().push(
                Point { data: raw_query, is_persistent: false },
            ),
            final(self).has_query(query),
            final(self).vectors() == old(self).vectors(),
            extends(old(self), final(self)),
    {
        self.points.push(Point { data: raw_query, is_persistent: false });

        let point_id = self.points.len() - 1;
        proof {
            assert(self.vectors() =~= old(self).vectors());
        }
        point_id
    }

    fn actually_evaluate_distance(&self, pair: &PointPair) -> (distance: u32)
        requires
            self.has_distance(*pair),
        ensures
            distance == self.hamming_of(*pair),
    {
        // Hamming distance
        let vector_0 = self.points[pair.0].data;
        let vector_1 = self.points[pair.1].data;
        hamming(vector_0, vector_1)
    }
}

impl VectorStore for LazyMemoryStore {
    type QueryRef = PointId;  // Vector ID, pending insertion.

    type VectorRef = PointId;  // Vector ID, inserted.

    type DistanceRef = PointPair;  // Lazy distance representation.

    open spec fn wf(&self) -> bool {
        true
    }

    open spec fn has_query(&self, query: PointId) -> bool {
        query < self.points().len()
    }

    open spec fn vectors(&self) -> Set<PointId> {
        Set::new(|id: PointId| id < self.points().len() && self.points()[id as int].is_persistent)
    }

    open spec fn has_distance(&self, distance: PointPair) -> bool {
        distance.0 < self.points().len() && distance.1 < self.points().len()
    }

    open spec fn distance(&self, query: PointId, vector: PointId) -> PointPair {
        PointPair(query, vector)
    }

    open spec fn closer(&self, a: PointPair, b: PointPair) -> bool {
        self.hamming_of(a) < self.hamming_of(b)
    }

    open spec fn matching(&self, distance: PointPair) -> bool {
        self.hamming_of(distance) == 0
    }

    fn insert(&mut self, query: &PointId) -> (vector: PointId)
        ensures
            vector == *query,
            final(self).points() == old(self).points().update(
                *query as int,
                Point { data: old(self).points()[*query as int].data, is_persistent: true },
            ),
    {
        // The query is now accepted in the store. It keeps the same ID.
        let data = self.points[*query].data;
        self.points.set(*query, Point { data, is_persistent: true });
        proof {
            assert(self.vectors() =~= old(self).vectors().insert(*query));
            lemma_hamming_zero(data, data);
        }
        *query
    }

    fn eval_distance(&self, query: &PointId, vector: &PointId) -> (distance: PointPair) {
        // Do not compute the distance yet, just forward the IDs.
        PointPair(*query, *vector)
    }

    fn is_match(&self, distance: &PointPair) -> (matched: bool) {
        self.actually_evaluate_distance(distance) == 0
    }

    fn less_than(&self, distance1: &PointPair, distance2: &PointPair) -> (nearer:
        bool) {
        self.actually_evaluate_distance(distance1) < self.actually_evaluate_distance(distance2)
    }
}

} // verus!
