//! Neighbour lists kept in order of distance, the order being the store's.

use crate::vector_store::{bisect, lemma_bisect_boundary, VectorStore};
use std::ops::Deref;
use vstd::prelude::*;
use vstd::std_specs::convert::FromSpecImpl;

verus! {

/// The furthest queue of a vector store's references.
pub type FurthestQueueV<V> = FurthestQueue<
    <V as VectorStore>::VectorRef,
    <V as VectorStore>::DistanceRef,
>;

/// The nearest queue of a vector store's references.
pub type NearestQueueV<V> = NearestQueue<
    <V as VectorStore>::VectorRef,
    <V as VectorStore>::DistanceRef,
>;

/// The distances of a list of neighbours, in the list's order.
pub open spec fn distances_of<Vector, Distance>(pairs: Seq<(Vector, Distance)>) -> Seq<Distance> {
    pairs.map_values(|pair: (Vector, Distance)| pair.1)
}

/// The vectors of a list of neighbours, in the list's order.
pub open spec fn vectors_of<Vector, Distance>(pairs: Seq<(Vector, Distance)>) -> Seq<Vector> {
    pairs.map_values(|pair: (Vector, Distance)| pair.0)
}

/// For each distance of `distances`, whether the store holds it strictly
/// nearer than `target`.
pub open spec fn nearer_than<V: VectorStore>(
    store: &V,
    distances: Seq<V::DistanceRef>,
    target: V::DistanceRef,
) -> Seq<bool> {
    distances.map_values(|d: V::DistanceRef| store.closer(d, target))
}

/// Where the store's binary search places `target` in `distances`.
pub open spec fn insertion_index<V: VectorStore>(
    store: &V,
    distances: Seq<V::DistanceRef>,
    target: V::DistanceRef,
) -> int {
    bisect(nearer_than(store, distances, target), 0, distances.len() as int)
}

/// An ascending list after `(to, dist)` went in at the index the store's
/// binary search gives.
pub open spec fn ascending_insert<V: VectorStore>(
    store: &V,
    pairs: Seq<(V::VectorRef, V::DistanceRef)>,
    to: V::VectorRef,
    dist: V::DistanceRef,
) -> Seq<(V::VectorRef, V::DistanceRef)> {
    pairs.insert(insertion_index(store, distances_of(pairs), dist), (to, dist))
}

/// A descending list after `(to, dist)` went in: the index is found in the
/// list read backwards, and counted from the end.
pub open spec fn descending_insert<V: VectorStore>(
    store: &V,
    pairs: Seq<(V::VectorRef, V::DistanceRef)>,
    to: V::VectorRef,
    dist: V::DistanceRef,
) -> Seq<(V::VectorRef, V::DistanceRef)> {
    pairs.insert(
        pairs.len() - insertion_index(store, distances_of(pairs).reverse(), dist),
        (to, dist),
    )
}

/// Whether a list is in ascending order: no neighbour is nearer than the one
/// before it.
pub open spec fn ascending<V: VectorStore>(
    store: &V,
    pairs: Seq<(V::VectorRef, V::DistanceRef)>,
) -> bool {
    forall|i: int|
        #![trigger pairs[i]]
        0 <= i < pairs.len() - 1 ==> !store.closer(pairs[i + 1].1, pairs[i].1)
}

/// Whether a list is in descending order: read backwards, it ascends.
pub open spec fn descending<V: VectorStore>(
    store: &V,
    pairs: Seq<(V::VectorRef, V::DistanceRef)>,
) -> bool {
    ascending(store, pairs.reverse())
}

/// Whether the store can compare every distance in `pairs`.
pub open spec fn distances_known<V: VectorStore>(
    store: &V,
    pairs: Seq<(V::VectorRef, V::DistanceRef)>,
) -> bool {
    forall|i: int| 0 <= i < pairs.len() ==> store.has_distance(#[trigger] pairs[i].1)
}

/// FurthestQueue is a list sorted in ascending order, with fast pop of the
/// furthest element.
#[derive(Default, Debug, PartialEq, Eq)]
pub struct FurthestQueue<Vector, Distance> {
    queue: Vec<(Vector, Distance)>,
}

impl<Vector, Distance> View for FurthestQueue<Vector, Distance> {
    type V = Seq<(Vector, Distance)>;

    closed spec fn view(&self) -> Seq<(Vector, Distance)> {
        self.queue@
    }
}

impl<Vector: Copy, Distance: Copy> FurthestQueue<Vector, Distance> {
    pub fn new() -> (queue: Self)
        ensures
            queue@ == Seq::<(Vector, Distance)>::empty(),
    {
        FurthestQueue { queue: Vec::new() }
    }

    /// Take a list that is already in ascending order.
    pub fn from_ascending_vec(queue: Vec<(Vector, Distance)>) -> (made: Self)
        ensures
            made@ == queue@,
    {
        FurthestQueue { queue }
    }

    /// The number of neighbours in the queue.
    pub fn len(&self) -> (n: usize)
        ensures
            n == self@.len(),
    {
        self.queue.len()
    }

    /// The neighbour at position `i`, counted from the nearest.
    pub fn get(&self, i: usize) -> (pair: (Vector, Distance))
        requires
            i < self@.len(),
        ensures
            pair == self@[i as int],
    {
        self.queue[i]
    }

    /// The distances of the queue, nearest first.
    fn distances(&self) -> (distances: Vec<Distance>)
        ensures
            distances@ == distances_of(self@),
    {
        let mut distances: Vec<Distance> = Vec::with_capacity(self.queue.len());
        let mut i: usize = 0;
        while i < self.queue.len()
            invariant
                0 <= i <= self.queue@.len(),
                distances@ == distances_of(self.queue@.take(i as int)),
            decreases self.queue@.len() - i,
        {
            distances.push(self.queue[i].1);
            proof {
                assert(distances@ =~= distances_of(self.queue@.take(i + 1)));
            }
            i += 1;
        }
        proof {
            assert(self.queue@.take(i as int) =~= self.queue@);
        }
        distances
    }

    /// Insert the element `to` with distance `dist` into the queue,
    /// maintaining the ascending order.
    ///
    /// Call the store to come up with the insertion index.
    pub fn insert<V>(&mut self, store: &V, to: Vector, dist: Distance) where
        V: VectorStore<VectorRef = Vector, DistanceRef = Distance>,

        requires
            store.wf(),
            store.has_distance(dist),
            distances_known(store, old(self)@),
        ensures
            final(self)@ == ascending_insert(store, old(self)@, to, dist),
    {
        let distances = self.distances();
        proof {
            assert(distances@.map_values(|d: Distance| store.closer(d, dist)) =~= nearer_than(
                store,
                distances_of(self@),
                dist,
            ));
            lemma_bisect_boundary(
                nearer_than(store, distances_of(self@), dist),
                0,
                distances@.len() as int,
            );
        }
        let index_asc = store.search_sorted(distances.as_slice(), &dist);
        self.queue.insert(index_asc, (to, dist));
    }

    pub fn get_nearest(&self) -> (nearest: Option<&(Vector, Distance)>)
        ensures
            self@.len() == 0 ==> nearest is None,
            self@.len() > 0 ==> nearest == Some(&self@.first()),
    {
        self.queue.as_slice().first()
    }

    pub fn get_furthest(&self) -> (furthest: Option<&(Vector, Distance)>)
        ensures
            self@.len() == 0 ==> furthest is None,
            self@.len() > 0 ==> furthest == Some(&self@.last()),
    {
        self.queue.as_slice().last()
    }

    pub fn pop_furthest(&mut self) -> (furthest: Option<(Vector, Distance)>)
        ensures
            old(self)@.len() == 0 ==> furthest is None && final(self)@ == old(self)@,
            old(self)@.len() > 0 ==> furthest == Some(old(self)@.last()) && final(self)@
                == old(self)@.drop_last(),
    {
        self.queue.pop()
    }

    /// The first `k` neighbours.
    pub fn get_k_nearest(&self, k: usize) -> (nearest: &[(Vector, Distance)])
        requires
            k <= self@.len(),
        ensures
            nearest@ == self@.take(k as int),
    {
        vstd::slice::slice_subrange(self.queue.as_slice(), 0, k)
    }

    /// Keep the `k` nearest neighbours and drop the rest.
    pub fn trim_to_k_nearest(&mut self, k: usize)
        ensures
            final(self)@ == trimmed(old(self)@, k as int),
    {
        self.queue.truncate(k);
    }
}

impl<Vector: Copy, Distance: Copy> Clone for FurthestQueue<Vector, Distance> {
    fn clone(&self) -> (copy: Self)
        ensures
            copy@ == self@,
    {
        let mut queue: Vec<(Vector, Distance)> = Vec::with_capacity(self.queue.len());
        let mut i: usize = 0;
        while i < self.queue.len()
            invariant
                0 <= i <= self.queue@.len(),
                queue@ == self.queue@.take(i as int),
            decreases self.queue@.len() - i,
        {
            queue.push(self.queue[i]);
            proof {
                assert(queue@ =~= self.queue@.take(i + 1));
            }
            i += 1;
        }
        proof {
            assert(self.queue@.take(i as int) =~= self.queue@);
        }
        FurthestQueue { queue }
    }
}

// Utility implementations.
impl<Vector, Distance> Deref for FurthestQueue<Vector, Distance> {
    type Target = [(Vector, Distance)];

    fn deref(&self) -> (pairs: &[(Vector, Distance)])
        ensures
            pairs@ == self@,
    {
        self.queue.as_slice()
    }
}

impl<Vector, Distance> From<FurthestQueue<Vector, Distance>> for Vec<(Vector, Distance)> {
    fn from(queue: FurthestQueue<Vector, Distance>) -> (pairs: Self)
        ensures
            pairs@ == queue@,
    {
        queue.queue
    }
}

impl<Vector, Distance> FromSpecImpl<FurthestQueue<Vector, Distance>> for Vec<(Vector, Distance)> {
    open spec fn obeys_from_spec() -> bool {
        true
    }

    closed spec fn from_spec(queue: FurthestQueue<Vector, Distance>) -> Self {
        queue.queue
    }
}

/// NearestQueue is a list sorted in descending order, with fast pop of the
/// nearest element.
#[derive(Debug, PartialEq, Eq)]
pub struct NearestQueue<Vector, Distance> {
    queue: Vec<(Vector, Distance)>,
}

impl<Vector, Distance> View for NearestQueue<Vector, Distance> {
    type V = Seq<(Vector, Distance)>;

    closed spec fn view(&self) -> Seq<(Vector, Distance)> {
        self.queue@
    }
}

impl<Vector: Copy, Distance: Copy> NearestQueue<Vector, Distance> {
    /// The same neighbours, furthest first.
    pub fn from_furthest_queue(furthest_queue: &FurthestQueue<Vector, Distance>) -> (made: Self)
        ensures
            made@ == furthest_queue@.reverse(),
    {
        let n = furthest_queue.len();
        let mut queue: Vec<(Vector, Distance)> = Vec::with_capacity(n);
        let mut i: usize = 0;
        while i < n
            invariant
                n == furthest_queue@.len(),
                0 <= i <= n,
                queue@ == furthest_queue@.reverse().take(i as int),
            decreases n - i,
        {
            queue.push(furthest_queue.get(n - 1 - i));
            proof {
                assert(queue@ =~= furthest_queue@.reverse().take(i + 1));
            }
            i += 1;
        }
        proof {
            assert(furthest_queue@.reverse().take(i as int) =~= furthest_queue@.reverse());
        }
        NearestQueue { queue }
    }

    /// The number of neighbours in the queue.
    pub fn len(&self) -> (n: usize)
        ensures
            n == self@.len(),
    {
        self.queue.len()
    }

    /// The distances of the queue read backwards, which is nearest first.
    fn distances_ascending(&self) -> (distances: Vec<Distance>)
        ensures
            distances@ == distances_of(self@).reverse(),
    {
        let n = self.queue.len();
        let mut distances: Vec<Distance> = Vec::with_capacity(n);
        let mut i: usize = 0;
        while i < n
            invariant
                n == self.queue@.len(),
                0 <= i <= n,
                distances@ == distances_of(self.queue@).reverse().take(i as int),
            decreases n - i,
        {
            distances.push(self.queue[n - 1 - i].1);
            proof {
                assert(distances@ =~= distances_of(self.queue@).reverse().take(i + 1));
            }
            i += 1;
        }
        proof {
            assert(distances_of(self.queue@).reverse().take(i as int) =~= distances_of(
                self.queue@,
            ).reverse());
        }
        distances
    }

    /// Insert the element `to` with distance `dist` into the queue,
    /// maintaining the descending order.
    ///
    /// Call the store to come up with the insertion index.
    pub fn insert<V>(&mut self, store: &V, to: Vector, dist: Distance) where
        V: VectorStore<VectorRef = Vector, DistanceRef = Distance>,

        requires
            store.wf(),
            store.has_distance(dist),
            distances_known(store, old(self)@),
        ensures
            final(self)@ == descending_insert(store, old(self)@, to, dist),
    {
        let distances = self.distances_ascending();
        proof {
            assert(distances@.map_values(|d: Distance| store.closer(d, dist)) =~= nearer_than(
                store,
                distances_of(self@).reverse(),
                dist,
            ));
            lemma_bisect_boundary(
                nearer_than(store, distances_of(self@).reverse(), dist),
                0,
                distances@.len() as int,
            );
            assert forall|i: int| 0 <= i < distances@.len() implies store.has_distance(
                #[trigger] distances@[i],
            ) by {
                assert(distances@[i] == self@[self@.len() - 1 - i].1);
            }
        }
        let index_asc = store.search_sorted(distances.as_slice(), &dist);
        let index_des = self.queue.len() - index_asc;
        self.queue.insert(index_des, (to, dist));
    }

    /// The nearest neighbour, which stands last.
    pub fn get_nearest(&self) -> (nearest: Option<&(Vector, Distance)>)
        ensures
            self@.len() == 0 ==> nearest is None,
            self@.len() > 0 ==> nearest == Some(&self@.last()),
    {
        self.queue.as_slice().last()
    }

    pub fn pop_nearest(&mut self) -> (nearest: Option<(Vector, Distance)>)
        ensures
            old(self)@.len() == 0 ==> nearest is None && final(self)@ == old(self)@,
            old(self)@.len() > 0 ==> nearest == Some(old(self)@.last()) && final(self)@
                == old(self)@.drop_last(),
    {
        self.queue.pop()
    }
}

impl<Vector: Copy, Distance: Copy> Clone for NearestQueue<Vector, Distance> {
    fn clone(&self) -> (copy: Self)
        ensures
            copy@ == self@,
    {
        let mut queue: Vec<(Vector, Distance)> = Vec::with_capacity(self.queue.len());
        let mut i: usize = 0;
        while i < self.queue.len()
            invariant
                0 <= i <= self.queue@.len(),
                queue@ == self.queue@.take(i as int),
            decreases self.queue@.len() - i,
        {
            queue.push(self.queue[i]);
            proof {
                assert(queue@ =~= self.queue@.take(i + 1));
            }
            i += 1;
        }
        proof {
            assert(self.queue@.take(i as int) =~= self.queue@);
        }
        NearestQueue { queue }
    }
}

/// A list cut down to its first `k` elements, or whole if it has no more.
pub open spec fn trimmed<T>(list: Seq<T>, k: int) -> Seq<T> {
    if 0 <= k < list.len() {
        list.take(k)
    } else {
        list
    }
}

impl<Vector, Distance> Deref for NearestQueue<Vector, Distance> {
    type Target = [(Vector, Distance)];

    fn deref(&self) -> (pairs: &[(Vector, Distance)])
        ensures
            pairs@ == self@,
    {
        self.queue.as_slice()
    }
}

} // verus!
