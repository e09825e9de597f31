//! One layer of a graph: the neighbours of each vector.

use super::queue::{ascending_insert, distances_known, trimmed, FurthestQueue};
use crate::vector_store::VectorStore;
use std::collections::HashMap;
use vstd::prelude::*;
use vstd::std_specs::hash::obeys_key_model;

verus! {

pub struct Layer<V: VectorStore> {
    /// Map a base vector to its neighbors, including the distance
    /// base-neighbor.
    neighbors: HashMap<V::VectorRef, FurthestQueue<V::VectorRef, V::DistanceRef>>,
}

impl<V: VectorStore> Layer<V> {
    /// The neighbour lists of the layer, by base vector.
    pub closed spec fn lists(&self) -> Map<V::VectorRef, Seq<(V::VectorRef, V::DistanceRef)>> {
        self.neighbors@.map_values(|queue: FurthestQueue<V::VectorRef, V::DistanceRef>| queue@)
    }

    /// The neighbours of `from`: none where it has no list.
    pub open spec fn neighbors_of(&self, from: V::VectorRef) -> Seq<(V::VectorRef, V::DistanceRef)> {
        if self.lists().contains_key(from) {
            self.lists()[from]
        } else {
            Seq::empty()
        }
    }

    pub fn new() -> (layer: Self)
        ensures
            layer.lists() == Map::<V::VectorRef, Seq<(V::VectorRef, V::DistanceRef)>>::empty(),
    {
        let layer = Layer { neighbors: HashMap::new() };
        proof {
            assert(layer.lists() =~= Map::<
                V::VectorRef,
                Seq<(V::VectorRef, V::DistanceRef)>,
            >::empty());
        }
        layer
    }

    pub fn get_neighbors(&self, from: &V::VectorRef) -> (neighbors: Option<
        &FurthestQueue<V::VectorRef, V::DistanceRef>,
    >)
        requires
            obeys_key_model::<V::VectorRef>(),
        ensures
            match neighbors {
                Some(queue) => self.lists().contains_key(*from) && queue@ == self.lists()[*from],
                None => !self.lists().contains_key(*from),
            },
    {
        self.neighbors.get(from)
    }

    pub fn set_neighbors(
        &mut self,
        from: V::VectorRef,
        neighbors: FurthestQueue<V::VectorRef, V::DistanceRef>,
    )
        requires
            obeys_key_model::<V::VectorRef>(),
        ensures
            final(self).lists() == old(self).lists().insert(from, neighbors@),
    {
        self.neighbors.insert(from, neighbors);
        proof {
            assert(self.lists() =~= old(self).lists().insert(from, neighbors@));
        }
    }

    /// Put `to` among the neighbours of `from`, at its place by distance, and
    /// keep the `max_links` nearest of them.
    pub fn connect(
        &mut self,
        store: &mut V,
        from: V::VectorRef,
        to: V::VectorRef,
        distance: V::DistanceRef,
        max_links: usize,
    )
        requires
            obeys_key_model::<V::VectorRef>(),
            old(store).wf(),
            old(store).has_distance(distance),
            distances_known(&*old(store), old(self).neighbors_of(from)),
        ensures
            *final(store) == *old(store),
            final(self).lists() == old(self).lists().insert(
                from,
                trimmed(
                    ascending_insert(&*old(store), old(self).neighbors_of(from), to, distance),
                    max_links as int,
                ),
            ),
    {
        let mut neighbors = match self.neighbors.remove(&from) {
            Some(queue) => queue,
            None => FurthestQueue::new(),
        };
        neighbors.insert(&*store, to, distance);
        neighbors.trim_to_k_nearest(max_links);
        self.neighbors.insert(from, neighbors);
        proof {
            assert(self.lists() =~= old(self).lists().insert(from, neighbors@));
        }
    }
}

} // verus!
