//! A graph held in memory: one hash map of neighbour lists per layer.

use super::{layer_count_of, EntryPoint, GraphStore};
use crate::hnsw_db::FurthestQueue;
use crate::vector_store::VectorStore;
use std::collections::HashMap;
use vstd::prelude::*;
use vstd::std_specs::hash::obeys_key_model;

verus! {

#[derive(Default, Clone)]
pub struct GraphMem<V: VectorStore> {
    entry_point: Option<EntryPoint<V::VectorRef>>,
    layers: Vec<Layer<V>>,
}

impl<V: VectorStore> GraphMem<V> {
    /// A graph without entry point, layers or links.
    pub fn new() -> (graph: Self)
        ensures
            graph.entry() is None,
            forall|base: V::VectorRef, lc: nat| (#[trigger] graph.links(base, lc)).len() == 0,
            obeys_key_model::<V::VectorRef>() ==> graph.wf(),
    {
        GraphMem { entry_point: None, layers: Vec::new() }
    }

    /// The same graph for another vector store whose vector and distance
    /// references are the same types.
    pub fn from_another<U>(graph: GraphMem<U>) -> (converted: Self) where
        U: VectorStore<DistanceRef = V::DistanceRef, VectorRef = V::VectorRef>,

        ensures
            converted.entry() == graph.entry(),
            forall|base: V::VectorRef, lc: nat| #[trigger]
                converted.links(base, lc) == graph.links(base, lc),
            graph.wf() ==> converted.wf(),
    {
        let GraphMem { entry_point, layers } = graph;
        let ghost given = layers@;
        let mut rest = layers;
        let mut reversed: Vec<Layer<V>> = Vec::new();
        while rest.len() > 0
            invariant
                rest@.len() + reversed@.len() == given.len(),
                rest@ == given.take(rest@.len() as int),
                forall|i: int|
                    0 <= i < reversed@.len() ==> (#[trigger] reversed@[i]).lists() == given[given.len()
                        - 1 - i].lists(),
            decreases rest@.len(),
        {
            let layer = rest.pop().unwrap();
            reversed.push(Layer::<V> { links: layer.links });
        }
        let mut layers: Vec<Layer<V>> = Vec::new();
        while reversed.len() > 0
            invariant
                reversed@.len() + layers@.len() == given.len(),
                forall|i: int|
                    0 <= i < reversed@.len() ==> (#[trigger] reversed@[i]).lists() == given[given.len()
                        - 1 - i].lists(),
                forall|i: int|
                    0 <= i < layers@.len() ==> (#[trigger] layers@[i]).lists() == given[i].lists(),
            decreases reversed@.len(),
        {
            let layer = reversed.pop().unwrap();
            layers.push(layer);
        }
        GraphMem::<V> { entry_point, layers }
    }
}

impl<V: VectorStore> GraphStore<V> for GraphMem<V> {
    closed spec fn wf(&self) -> bool {
        &&& obeys_key_model::<V::VectorRef>()
        &&& self.layers@.len() == layer_count_of(self.entry_point)
    }

    closed spec fn entry(&self) -> Option<EntryPoint<V::VectorRef>> {
        self.entry_point
    }

    closed spec fn links(&self, base: V::VectorRef, lc: nat) -> Seq<
        (V::VectorRef, V::DistanceRef),
    > {
        if lc < self.layers@.len() && self.layers@[lc as int].lists().contains_key(base) {
            self.layers@[lc as int].lists()[base]@
        } else {
            Seq::empty()
        }
    }

    fn get_entry_point(&self) -> (entry_point: Option<EntryPoint<V::VectorRef>>) {
        self.entry_point
    }

    fn set_entry_point(&mut self, entry_point: EntryPoint<V::VectorRef>) {
        while entry_point.layer_count > self.layers.len()
            invariant
                self.layers@.len() <= entry_point.layer_count,
                self.entry_point == old(self).entry_point,
                forall|base: V::VectorRef, lc: nat| #[trigger]
                    self.links(base, lc) == old(self).links(base, lc),
            decreases entry_point.layer_count - self.layers@.len(),
        {
            let ghost before = *self;
            self.layers.push(Layer::new());
            proof {
                assert forall|base: V::VectorRef, lc: nat| #[trigger]
                    self.links(base, lc) == before.links(base, lc) by {
                    if lc < before.layers@.len() {
                        assert(self.layers@[lc as int] == before.layers@[lc as int]);
                    }
                }
            }
        }
        let ghost before = *self;
        self.entry_point = Some(entry_point);
        proof {
            assert forall|base: V::VectorRef, lc: nat| #[trigger]
                self.links(base, lc) == before.links(base, lc) by {}
        }
    }

    fn get_links(&self, base: &V::VectorRef, lc: usize) -> (links: FurthestQueue<
        V::VectorRef,
        V::DistanceRef,
    >) {
        let layer = &self.layers[lc];
        if let Some(links) = layer.get_links(base) {
            links.clone()
        } else {
            FurthestQueue::new()
        }
    }

    fn set_links(
        &mut self,
        base: V::VectorRef,
        links: FurthestQueue<V::VectorRef, V::DistanceRef>,
        lc: usize,
    ) {
        self.layers[lc].set_links(base, links);
    }
}

#[derive(PartialEq, Eq, Default, Clone)]
pub struct Layer<V: VectorStore> {
    /// Map a base vector to its neighbors, including the distance
    /// base-neighbor.
    links: HashMap<V::VectorRef, FurthestQueue<V::VectorRef, V::DistanceRef>>,
}

impl<V: VectorStore> Layer<V> {
    /// The neighbour lists of the layer, by base vector.
    pub closed spec fn lists(&self) -> Map<
        V::VectorRef,
        FurthestQueue<V::VectorRef, V::DistanceRef>,
    > {
        self.links@
    }

    fn new() -> (layer: Self)
        ensures
            layer.lists() == Map::<
                V::VectorRef,
                FurthestQueue<V::VectorRef, V::DistanceRef>,
            >::empty(),
    {
        Layer { links: HashMap::new() }
    }

    fn get_links(&self, from: &V::VectorRef) -> (links: Option<
        &FurthestQueue<V::VectorRef, V::DistanceRef>,
    >)
        requires
            obeys_key_model::<V::VectorRef>(),
        ensures
            match links {
                Some(list) => self.lists().contains_key(*from) && *list == self.lists()[*from],
                None => !self.lists().contains_key(*from),
            },
    {
        self.links.get(from)
    }

    fn set_links(&mut self, from: V::VectorRef, links: FurthestQueue<V::VectorRef, V::DistanceRef>)
        requires
            obeys_key_model::<V::VectorRef>(),
        ensures
            final(self).lists() == old(self).lists().insert(from, links),
    {
        self.links.insert(from, links);
    }
}

} // verus!
