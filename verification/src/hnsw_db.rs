//! The searcher: greedy descent through the layers and the linking of a new
//! vector into the graph.

pub mod laws;
pub mod layer;
pub mod model;
pub mod queue;

pub use queue::{FurthestQueue, FurthestQueueV, NearestQueue, NearestQueueV};

use crate::graph_store::{layer_count_of, EntryPoint, GraphStore};
use crate::vector_store::{lawful, VectorStore};
use model::{absorb, back_links, connected, consider, descent, entry_list, evaluated, explore,
    graph_within, layer_search, lemma_ordered_insert_within, lemma_trimmed_within, pairs_within,
    unexplored, unvisited, Beam};
use laws::{graph_ascending, lemma_connected, lemma_descent_capped, lemma_descent_sound,
    lemma_trimmed_ascending, list_sound};
use queue::{ascending, ascending_insert, trimmed, vectors_of};
use std::collections::HashSet;
use vstd::prelude::*;
use vstd::std_specs::hash::obeys_key_model;

verus! {

/// The sizes that steer search and insertion.
#[allow(non_snake_case)]
#[derive(Clone, Copy, Debug, PartialEq, Eq)]
pub struct Params {
    /// The number of nearest neighbours a layer search keeps.
    pub ef: usize,
    /// The number of neighbours a new vector is linked to in each layer.
    pub M: usize,
    /// The most neighbours a vector has in a layer above the bottom one.
    pub Mmax: usize,
    /// The most neighbours a vector has in the bottom layer.
    pub Mmax0: usize,
}

impl Params {
    /// The standard sizes: 32 throughout.
    pub open spec fn standard() -> Params {
        Params { ef: 32, M: 32, Mmax: 32, Mmax0: 32 }
    }

    /// The most neighbours a vector has in layer `lc`.
    pub open spec fn max_links(self, lc: nat) -> nat {
        if lc == 0 {
            self.Mmax0 as nat
        } else {
            self.Mmax as nat
        }
    }

    /// Whether a new vector is linked to no more neighbours than a vector
    /// may have.
    pub open spec fn valid(self) -> bool {
        self.M <= self.Mmax && self.M <= self.Mmax0
    }
}

/// The neighbours of `links` that `visited` does not hold yet, each of them
/// marked as visited.
fn unvisited_batch<Vector: crate::vector_store::Ref, Distance: Copy>(
    links: &FurthestQueue<Vector, Distance>,
    visited: &mut HashSet<Vector>,
) -> (batch: Vec<Vector>)
    requires
        obeys_key_model::<Vector>(),
    ensures
        batch@ == unvisited(links@, old(visited)@),
        final(visited)@ == old(visited)@.union(batch@.to_set()),
{
    let mut batch: Vec<Vector> = Vec::new();
    let mut i: usize = 0;
    proof {
        assert(visited@ =~= old(visited)@.union(batch@.to_set()));
    }
    while i < links.len()
        invariant
            obeys_key_model::<Vector>(),
            0 <= i <= links@.len(),
            batch@ == unvisited(links@.take(i as int), old(visited)@),
            visited@ == old(visited)@.union(batch@.to_set()),
        decreases links@.len() - i,
    {
        let e = links.get(i).0;
        let ghost before = batch@;
        proof {
            assert(links@.take(i + 1).drop_last() =~= links@.take(i as int));
            assert(links@.take(i + 1).last() == links@[i as int]);
        }
        if visited.insert(e) {
            batch.push(e);
            proof {
                assert(visited@ =~= old(visited)@.union(batch@.to_set())) by {
                    assert forall|x: Vector|
                        batch@.to_set().contains(x) <==> before.to_set().contains(x) || x == e by {
                        if before.to_set().contains(x) {
                            let k = choose|k: int| 0 <= k < before.len() && before[k] == x;
                            assert(batch@[k] == x);
                        }
                        if x == e {
                            assert(batch@[before.len() as int] == x);
                        }
                    }
                }
            }
        } else {
            proof {
                assert(visited@ =~= old(visited)@.union(batch@.to_set()));
            }
        }
        i += 1;
    }
    proof {
        assert(links@.take(i as int) =~= links@);
    }
    batch
}

/// An implementation of the HNSW algorithm.
///
/// Operations on vectors are delegated to a VectorStore.
/// Operations on the graph are delegated to a GraphStore.
#[derive(Clone)]
pub struct HawkSearcher<V: VectorStore, G: GraphStore<V>> {
    /// The sizes the searcher works with. They are set once, by `new`.
    pub params: Params,
    pub vector_store: V,
    pub graph_store: G,
}

impl<V: VectorStore, G: GraphStore<V>> HawkSearcher<V, G> {
    /// Whether the searcher can work: both stores are in order, and the graph
    /// speaks only of vectors and distances of the vector store.
    pub open spec fn wf(&self) -> bool {
        &&& obeys_key_model::<V::VectorRef>()
        &&& self.vector_store.wf()
        &&& lawful(&self.vector_store)
        &&& self.graph_store.wf()
        &&& graph_within(&self.vector_store, &self.graph_store)
    }

    /// A searcher over the two stores, with the standard sizes.
    pub fn new(vector_store: V, graph_store: G) -> (searcher: Self)
        ensures
            searcher.vector_store == vector_store,
            searcher.graph_store == graph_store,
            searcher.params == Params::standard(),
    {
        HawkSearcher {
            params: Params { ef: 32, M: 32, Mmax: 32, Mmax0: 32 },
            vector_store,
            graph_store,
        }
    }

    /// The number of neighbours that a search keeps in layer `_lc`.
    ///
    /// The same in every layer, for search and for insertion alike.
    fn ef_for_layer(&self, _lc: usize) -> (ef: usize)
        ensures
            ef == self.params.ef,
    {
        self.params.ef
    }

    /// The list a search starts with, and the number of layers to search.
    #[allow(non_snake_case)]
    pub fn search_init(&self, query: &V::QueryRef) -> (start: (
        FurthestQueue<V::VectorRef, V::DistanceRef>,
        usize,
    ))
        requires
            self.wf(),
            self.vector_store.has_query(*query),
        ensures
            start.0@ == entry_list(&self.vector_store, &self.graph_store, *query),
            start.1 == layer_count_of(self.graph_store.entry()),
    {
        if let Some(entry_point) = self.graph_store.get_entry_point() {
            let entry_vector = entry_point.vector_ref;
            let distance = self.vector_store.eval_distance(query, &entry_vector);
            let mut W = FurthestQueue::<V::VectorRef, V::DistanceRef>::new();
            W.insert(&self.vector_store, entry_vector, distance);
            proof {
                assert(W@ =~= seq![(entry_vector, distance)]);
            }
            (W, entry_point.layer_count)
        } else {
            (FurthestQueue::new(), 0)
        }
    }

    /// Take the neighbours `e_batch`, found at the distances `distances`, into
    /// the beam one after the other, and return the new bound.
    #[allow(non_snake_case)]
    fn absorb_batch(
        &self,
        q: &V::QueryRef,
        W: &mut FurthestQueue<V::VectorRef, V::DistanceRef>,
        C: &mut NearestQueue<V::VectorRef, V::DistanceRef>,
        fq: V::DistanceRef,
        ef: usize,
        e_batch: &Vec<V::VectorRef>,
        distances: &Vec<V::DistanceRef>,
    ) -> (bound: V::DistanceRef)
        requires
            self.vector_store.wf(),
            self.vector_store.has_query(*q),
            pairs_within(&self.vector_store, old(W)@),
            pairs_within(&self.vector_store, old(C)@),
            old(W)@.len() > 0,
            self.vector_store.has_distance(fq),
            forall|i: int|
                0 <= i < e_batch@.len() ==> self.vector_store.vectors().contains(
                    #[trigger] e_batch@[i],
                ),
            distances@ == e_batch@.map_values(
                |e: V::VectorRef| self.vector_store.distance(*q, e),
            ),
            forall|i: int|
                0 <= i < distances@.len() ==> self.vector_store.has_distance(
                    #[trigger] distances@[i],
                ),
        ensures
            (Beam { kept: final(W)@, frontier: final(C)@, bound }) == absorb(
                &self.vector_store,
                ef as nat,
                *q,
                Beam { kept: old(W)@, frontier: old(C)@, bound: fq },
                e_batch@,
            ),
            pairs_within(&self.vector_store, final(W)@),
            pairs_within(&self.vector_store, final(C)@),
            final(W)@.len() > 0,
            self.vector_store.has_distance(bound),
    {
        let ghost start = Beam { kept: W@, frontier: C@, bound: fq };
        let mut fq = fq;
        let mut j: usize = 0;
        while j < e_batch.len()
            invariant
                self.vector_store.wf(),
                self.vector_store.has_query(*q),
                0 <= j <= e_batch@.len(),
                distances@.len() == e_batch@.len(),
                forall|i: int|
                    0 <= i < e_batch@.len() ==> self.vector_store.vectors().contains(
                        #[trigger] e_batch@[i],
                    ),
                forall|i: int|
                    0 <= i < e_batch@.len() ==> #[trigger] distances@[i]
                        == self.vector_store.distance(*q, e_batch@[i])
                        && self.vector_store.has_distance(distances@[i]),
                pairs_within(&self.vector_store, W@),
                pairs_within(&self.vector_store, C@),
                W@.len() > 0,
                self.vector_store.has_distance(fq),
                (Beam { kept: W@, frontier: C@, bound: fq }) == absorb(
                    &self.vector_store,
                    ef as nat,
                    *q,
                    start,
                    e_batch@.take(j as int),
                ),
            decreases e_batch@.len() - j,
        {
            let e = e_batch[j];
            let eq = distances[j];
            let ghost before = Beam { kept: W@, frontier: C@, bound: fq };
            proof {
                assert(e_batch@.take(j + 1).drop_last() =~= e_batch@.take(j as int));
                assert(e_batch@.take(j + 1).last() == e);
                assert(absorb(&self.vector_store, ef as nat, *q, start, e_batch@.take(j + 1))
                    == consider(&self.vector_store, ef as nat, before, e, eq));
            }
            let mut skip = false;
            if W.len() == ef {
                // When W is full, we decide whether to replace the furthest element.
                if self.vector_store.less_than(&eq, &fq) {
                    // Make room for the new better candidate…
                    W.pop_furthest();
                } else {
                    // …or ignore the candidate and do not continue on this path.
                    skip = true;
                }
            }
            if !skip {
                proof {
                    lemma_ordered_insert_within(&self.vector_store, W@, e, eq);
                    lemma_ordered_insert_within(&self.vector_store, C@, e, eq);
                }
                // Track the new candidate in C so we will continue this path later.
                C.insert(&self.vector_store, e, eq);

                // Track the new candidate as a potential k-nearest.
                W.insert(&self.vector_store, e, eq);

                // fq stays the furthest distance in W.
                fq = W.get_furthest().unwrap().1;
            }
            j += 1;
        }
        proof {
            assert(e_batch@.take(j as int) =~= e_batch@);
        }
        fq
    }

    /// Mutate W into the ef nearest neighbors of q_vec in the given layer.
    #[allow(non_snake_case)]
    pub fn search_layer(
        &self,
        q: &V::QueryRef,
        W: &mut FurthestQueue<V::VectorRef, V::DistanceRef>,
        ef: usize,
        lc: usize,
    )
        requires
            self.wf(),
            self.vector_store.has_query(*q),
            lc < layer_count_of(self.graph_store.entry()),
            old(W)@.len() > 0,
            pairs_within(&self.vector_store, old(W)@),
        ensures
            final(W)@ == layer_search(
                &self.vector_store,
                &self.graph_store,
                *q,
                old(W)@,
                ef as nat,
                lc as nat,
            ),
            final(W)@.len() > 0,
            pairs_within(&self.vector_store, final(W)@),
    {
        // v: The set of already visited vectors.
        let mut v = HashSet::<V::VectorRef>::new();
        let mut i: usize = 0;
        proof {
            assert(v@ =~= vectors_of(W@.take(0)).to_set());
        }
        while i < W.len()
            invariant
                obeys_key_model::<V::VectorRef>(),
                0 <= i <= W@.len(),
                W@ == old(W)@,
                v@ == vectors_of(W@.take(i as int)).to_set(),
            decreases W@.len() - i,
        {
            let ghost seen = vectors_of(W@.take(i as int));
            v.insert(W.get(i).0);
            proof {
                assert(vectors_of(W@.take(i + 1)) =~= seen.push(W@[i as int].0));
                assert(v@ =~= vectors_of(W@.take(i + 1)).to_set()) by {
                    let longer = seen.push(W@[i as int].0);
                    assert forall|x: V::VectorRef|
                        longer.to_set().contains(x) <==> seen.to_set().contains(x) || x
                            == W@[i as int].0 by {
                        if seen.to_set().contains(x) {
                            let k = choose|k: int| 0 <= k < seen.len() && seen[k] == x;
                            assert(longer[k] == x);
                        }
                        if x == W@[i as int].0 {
                            assert(longer[seen.len() as int] == x);
                        }
                    }
                }
            }
            i += 1;
        }
        proof {
            assert(W@.take(i as int) =~= W@);
        }

        // C: The set of vectors to visit, ordered by increasing distance to the query.
        let mut C = NearestQueue::from_furthest_queue(W);

        // fq: The current furthest distance in W.
        let mut fq = W.get_furthest().unwrap().1;

        let ghost goal = layer_search(
            &self.vector_store,
            &self.graph_store,
            *q,
            old(W)@,
            ef as nat,
            lc as nat,
        );
        // The vectors the store was asked about so far, and those it will be
        // asked about in all: no vector twice, as the model shows.
        let ghost mut asked = Seq::<V::VectorRef>::empty();
        let ghost all_asked = evaluated(
            &self.vector_store,
            &self.graph_store,
            *q,
            ef as nat,
            lc as nat,
            Beam { kept: W@, frontier: C@, bound: fq },
            v@,
        );
        proof {
            assert forall|k: int| 0 <= k < C@.len() implies self.vector_store.vectors().contains(
                (#[trigger] C@[k]).0,
            ) && self.vector_store.has_distance(C@[k].1) by {
                assert(C@[k] == W@[W@.len() - 1 - k]);
            }
            laws::lemma_evaluated_once(
                &self.vector_store,
                &self.graph_store,
                *q,
                ef as nat,
                lc as nat,
                Beam { kept: W@, frontier: C@, bound: fq },
                v@,
            );
        }

        while C.len() > 0
            invariant_except_break
                goal == explore(
                    &self.vector_store,
                    &self.graph_store,
                    *q,
                    ef as nat,
                    lc as nat,
                    Beam { kept: W@, frontier: C@, bound: fq },
                    v@,
                ),
                all_asked == asked + evaluated(
                    &self.vector_store,
                    &self.graph_store,
                    *q,
                    ef as nat,
                    lc as nat,
                    Beam { kept: W@, frontier: C@, bound: fq },
                    v@,
                ),
            invariant
                self.wf(),
                self.vector_store.has_query(*q),
                lc < layer_count_of(self.graph_store.entry()),
                pairs_within(&self.vector_store, W@),
                pairs_within(&self.vector_store, C@),
                W@.len() > 0,
                self.vector_store.has_distance(fq),
            ensures
                W@ == goal,
                asked == all_asked,
            decreases unexplored(&self.vector_store, v@), C@.len(),
        {
            let ghost beam = Beam { kept: W@, frontier: C@, bound: fq };
            let ghost visited = v@;
            let (c, cq) = C.pop_nearest().unwrap();

            // If the nearest distance to C is greater than the furthest distance in W, then we can stop.
            if self.vector_store.less_than(&fq, &cq) {
                proof {
                    assert(asked + Seq::<V::VectorRef>::empty() =~= asked);
                }
                break ;
            }
            // Visit all neighbors of c.

            let c_links = self.graph_store.get_links(&c, lc);

            // Evaluate the distances of the neighbors to the query, as a batch.
            let e_batch = unvisited_batch(&c_links, &mut v);
            proof {
                model::lemma_unvisited(c_links@, visited);
                assert forall|k: int| 0 <= k < e_batch@.len() implies self.vector_store.vectors().contains(
                    #[trigger] e_batch@[k],
                ) by {
                    let j = choose|j: int|
                        0 <= j < vectors_of(c_links@).len() && vectors_of(c_links@)[j] == e_batch@[k];
                    assert(c_links@[j].0 == e_batch@[k]);
                }
                assert(C@ =~= beam.frontier.drop_last());
                if e_batch@.len() == 0 {
                    assert(v@ =~= visited);
                } else {
                    assert(e_batch@.to_set().contains(e_batch@[0]));
                    model::lemma_unexplored_shrinks(
                        &self.vector_store,
                        visited,
                        e_batch@.to_set(),
                        e_batch@[0],
                    );
                }
            }
            let distances = self.vector_store.eval_distance_batch(q, e_batch.as_slice());
            proof {
                let later = evaluated(
                    &self.vector_store,
                    &self.graph_store,
                    *q,
                    ef as nat,
                    lc as nat,
                    absorb(
                        &self.vector_store,
                        ef as nat,
                        *q,
                        Beam { frontier: beam.frontier.drop_last(), ..beam },
                        e_batch@,
                    ),
                    v@,
                );
                assert(asked + (e_batch@ + later) =~= (asked + e_batch@) + later);
                asked = asked + e_batch@;
            }
            fq = self.absorb_batch(q, W, &mut C, fq, ef, &e_batch, &distances);
        }
    }

    /// Search the layers from the top down for the neighbours of a query.
    /// The result holds one queue per layer, the bottom layer first.
    #[allow(non_snake_case)]
    pub fn search_to_insert(&self, query: &V::QueryRef) -> (links: Vec<
        FurthestQueue<V::VectorRef, V::DistanceRef>,
    >)
        requires
            self.wf(),
            self.vector_store.has_query(*query),
        ensures
            links@.len() == layer_count_of(self.graph_store.entry()),
            forall|lc: int|
                0 <= lc < links@.len() ==> (#[trigger] links@[lc])@ == descent(
                    &self.vector_store,
                    &self.graph_store,
                    *query,
                    self.params.ef as nat,
                    lc as nat,
                ),
            forall|lc: int|
                0 <= lc < links@.len() ==> pairs_within(
                    &self.vector_store,
                    (#[trigger] links@[lc])@,
                ),
            forall|lc: int|
                0 <= lc < links@.len() ==> list_sound(
                    &self.vector_store,
                    *query,
                    (#[trigger] links@[lc])@,
                ),
            self.params.ef >= 1 ==> forall|lc: int|
                0 <= lc < links@.len() ==> (#[trigger] links@[lc])@.len() <= self.params.ef,
    {
        let mut tops: Vec<FurthestQueue<V::VectorRef, V::DistanceRef>> = Vec::new();

        let (mut W, layer_count) = self.search_init(query);

        // From the top layer down to layer 0.
        let mut lc: usize = layer_count;
        while lc > 0
            invariant
                self.wf(),
                self.vector_store.has_query(*query),
                layer_count == layer_count_of(self.graph_store.entry()),
                0 <= lc <= layer_count,
                layer_count > 0 ==> W@.len() > 0 && pairs_within(&self.vector_store, W@),
                W@ == descent(
                    &self.vector_store,
                    &self.graph_store,
                    *query,
                    self.params.ef as nat,
                    lc as nat,
                ),
                tops@.len() == layer_count - lc,
                forall|i: int|
                    0 <= i < tops@.len() ==> (#[trigger] tops@[i])@ == descent(
                        &self.vector_store,
                        &self.graph_store,
                        *query,
                        self.params.ef as nat,
                        (layer_count - 1 - i) as nat,
                    ),
                forall|i: int|
                    0 <= i < tops@.len() ==> pairs_within(&self.vector_store, (#[trigger] tops@[i])@),
            decreases lc,
        {
            lc -= 1;
            let ef = self.ef_for_layer(lc);
            self.search_layer(query, &mut W, ef, lc);

            tops.push(W.clone());
        }

        // We inserted top-down, so reverse to match the layer indices (bottom=0).
        let mut links: Vec<FurthestQueue<V::VectorRef, V::DistanceRef>> = Vec::new();
        while tops.len() > 0
            invariant
                tops@.len() + links@.len() == layer_count,
                forall|i: int|
                    0 <= i < tops@.len() ==> (#[trigger] tops@[i])@ == descent(
                        &self.vector_store,
                        &self.graph_store,
                        *query,
                        self.params.ef as nat,
                        (layer_count - 1 - i) as nat,
                    ),
                forall|i: int|
                    0 <= i < tops@.len() ==> pairs_within(&self.vector_store, (#[trigger] tops@[i])@),
                forall|i: int|
                    0 <= i < links@.len() ==> (#[trigger] links@[i])@ == descent(
                        &self.vector_store,
                        &self.graph_store,
                        *query,
                        self.params.ef as nat,
                        i as nat,
                    ),
                forall|i: int|
                    0 <= i < links@.len() ==> pairs_within(&self.vector_store, (#[trigger] links@[i])@),
            decreases tops@.len(),
        {
            let layer = tops.pop().unwrap();
            links.push(layer);
        }
        proof {
            assert forall|lc: int| 0 <= lc < links@.len() implies list_sound(
                &self.vector_store,
                *query,
                (#[trigger] links@[lc])@,
            ) by {
                lemma_descent_sound(
                    &self.vector_store,
                    &self.graph_store,
                    *query,
                    self.params.ef as nat,
                    lc as nat,
                );
            }
            if self.params.ef >= 1 {
                assert forall|lc: int| 0 <= lc < links@.len() implies (#[trigger] links@[lc])@.len()
                    <= self.params.ef by {
                    lemma_descent_capped(
                        &self.vector_store,
                        &self.graph_store,
                        *query,
                        self.params.ef as nat,
                        lc as nat,
                    );
                }
            }
        }
        links
    }

    /// Link `q` to the `M` nearest of `neighbors` in layer `lc`, and each of
    /// them back to `q`.
    pub fn connect_bidir(
        &mut self,
        q: &V::VectorRef,
        neighbors: FurthestQueue<V::VectorRef, V::DistanceRef>,
        lc: usize,
    )
        requires
            old(self).wf(),
            old(self).vector_store.vectors().contains(*q),
            pairs_within(&old(self).vector_store, neighbors@),
            lc < layer_count_of(old(self).graph_store.entry()),
        ensures
            final(self).wf(),
            final(self).vector_store == old(self).vector_store,
            final(self).params == old(self).params,
            final(self).graph_store.entry() == old(self).graph_store.entry(),
            forall|base: V::VectorRef, l: nat|
                #![trigger final(self).graph_store.links(base, l)]
                final(self).graph_store.links(base, l) == if l == lc {
                    connected(
                        &old(self).vector_store,
                        old(self).graph_store.links(base, l),
                        *q,
                        trimmed(neighbors@, old(self).params.M as int),
                        base,
                        old(self).params.max_links(l),
                    )
                } else {
                    old(self).graph_store.links(base, l)
                },
    {
        let mut neighbors = neighbors;
        proof {
            lemma_trimmed_within(&self.vector_store, neighbors@, self.params.M as int);
        }
        neighbors.trim_to_k_nearest(self.params.M);
        let neighbors = neighbors;

        let max_links = if lc == 0 {
            self.params.Mmax0
        } else {
            self.params.Mmax
        };

        // Connect all n -> q.
        let mut i: usize = 0;
        while i < neighbors.len()
            invariant
                0 <= i <= neighbors@.len(),
                self.wf(),
                self.vector_store == old(self).vector_store,
                self.params == old(self).params,
                max_links == self.params.max_links(lc as nat),
                self.vector_store.vectors().contains(*q),
                pairs_within(&self.vector_store, neighbors@),
                self.graph_store.entry() == old(self).graph_store.entry(),
                lc < layer_count_of(self.graph_store.entry()),
                forall|base: V::VectorRef, l: nat|
                    #![trigger self.graph_store.links(base, l)]
                    self.graph_store.links(base, l) == if l == lc {
                        back_links(
                            &self.vector_store,
                            old(self).graph_store.links(base, l),
                            *q,
                            neighbors@.take(i as int),
                            base,
                            max_links as nat,
                        )
                    } else {
                        old(self).graph_store.links(base, l)
                    },
            decreases neighbors@.len() - i,
        {
            let (n, nq) = neighbors.get(i);
            let ghost graph = self.graph_store;
            let mut links = self.graph_store.get_links(&n, lc);
            proof {
                assert(pairs_within(&self.vector_store, graph.links(n, lc as nat)));
                assert(neighbors@[i as int] == (n, nq));
                lemma_ordered_insert_within(&self.vector_store, links@, *q, nq);
                lemma_trimmed_within(
                    &self.vector_store,
                    ascending_insert(&self.vector_store, links@, *q, nq),
                    max_links as int,
                );
            }
            links.insert(&self.vector_store, *q, nq);
            links.trim_to_k_nearest(max_links);
            self.graph_store.set_links(n, links, lc);
            proof {
                assert(neighbors@.take(i + 1).drop_last() =~= neighbors@.take(i as int));
                assert(neighbors@.take(i + 1).last() == (n, nq));
                assert forall|base: V::VectorRef, l: nat|
                    #![trigger self.graph_store.links(base, l)]
                    self.graph_store.links(base, l) == if l == lc {
                        back_links(
                            &self.vector_store,
                            old(self).graph_store.links(base, l),
                            *q,
                            neighbors@.take(i + 1),
                            base,
                            max_links as nat,
                        )
                    } else {
                        old(self).graph_store.links(base, l)
                    } by {
                    if !(base == n && l == lc) {
                        assert(self.graph_store.links(base, l) == graph.links(base, l));
                    }
                }
                assert forall|base: V::VectorRef, l: nat|
                    pairs_within(
                        &self.vector_store,
                        #[trigger] self.graph_store.links(base, l),
                    ) by {
                    if !(base == n && l == lc) {
                        assert(self.graph_store.links(base, l) == graph.links(base, l));
                    }
                }
            }
            i += 1;
        }

        // Connect q -> all n.
        let ghost graph = self.graph_store;
        self.graph_store.set_links(*q, neighbors, lc);
        proof {
            assert(neighbors@.take(i as int) =~= neighbors@);
            assert forall|base: V::VectorRef, l: nat|
                #![trigger self.graph_store.links(base, l)]
                self.graph_store.links(base, l) == if l == lc {
                    connected(
                        &self.vector_store,
                        old(self).graph_store.links(base, l),
                        *q,
                        neighbors@,
                        base,
                        max_links as nat,
                    )
                } else {
                    old(self).graph_store.links(base, l)
                } by {
                if !(base == *q && l == lc) {
                    assert(self.graph_store.links(base, l) == graph.links(base, l));
                }
            }
            assert forall|base: V::VectorRef, l: nat|
                pairs_within(&self.vector_store, #[trigger] self.graph_store.links(base, l)) by {
                if !(base == *q && l == lc) {
                    assert(self.graph_store.links(base, l) == graph.links(base, l));
                }
            }
        }
    }

    /// Take a new vector into the graph. `links` holds what a search for it
    /// found, one queue per layer of the graph; `level` is the highest layer
    /// the vector shall stand in. The vector is connected in every layer up to
    /// `level` that the graph has, and where `level` is above them all, it
    /// becomes the entry point.
    pub fn insert_from_search_results(
        &mut self,
        inserted_vector: V::VectorRef,
        links: Vec<FurthestQueue<V::VectorRef, V::DistanceRef>>,
        level: usize,
    )
        requires
            old(self).wf(),
            old(self).vector_store.vectors().contains(inserted_vector),
            links@.len() == layer_count_of(old(self).graph_store.entry()),
            forall|lc: int|
                0 <= lc < links@.len() ==> pairs_within(
                    &old(self).vector_store,
                    (#[trigger] links@[lc])@,
                ),
            level < usize::MAX,
        ensures
            final(self).wf(),
            final(self).vector_store == old(self).vector_store,
            final(self).params == old(self).params,
            final(self).graph_store.entry() == if level >= links@.len() {
                Some(EntryPoint { vector_ref: inserted_vector, layer_count: (level + 1) as usize })
            } else {
                old(self).graph_store.entry()
            },
            layer_count_of(final(self).graph_store.entry()) >= layer_count_of(
                old(self).graph_store.entry(),
            ),
            forall|base: V::VectorRef, l: nat|
                #![trigger final(self).graph_store.links(base, l)]
                final(self).graph_store.links(base, l) == if l < links@.len() && l <= level {
                    connected(
                        &old(self).vector_store,
                        old(self).graph_store.links(base, l),
                        inserted_vector,
                        trimmed(links@[l as int]@, old(self).params.M as int),
                        base,
                        old(self).params.max_links(l),
                    )
                } else {
                    old(self).graph_store.links(base, l)
                },
            old(self).params.valid() ==> forall|base: V::VectorRef, l: nat|
                #![trigger final(self).graph_store.links(base, l)]
                final(self).graph_store.links(base, l) == old(self).graph_store.links(base, l)
                    || final(self).graph_store.links(base, l).len() <= old(self).params.max_links(
                    l,
                ),
            graph_ascending(&old(self).vector_store, &old(self).graph_store) && (forall|lc: int|
                0 <= lc < links@.len() ==> ascending(
                    &old(self).vector_store,
                    (#[trigger] links@[lc])@,
                )) ==> graph_ascending(&final(self).vector_store, &final(self).graph_store),
    {
        let layer_count = links.len();

        // Connect the new vector to its neighbors in each layer.
        let mut lc: usize = 0;
        while lc < layer_count && lc <= level
            invariant
                layer_count == links@.len(),
                0 <= lc <= layer_count,
                lc <= level + 1,
                self.wf(),
                self.vector_store == old(self).vector_store,
                self.params == old(self).params,
                self.vector_store.vectors().contains(inserted_vector),
                self.graph_store.entry() == old(self).graph_store.entry(),
                links@.len() == layer_count_of(self.graph_store.entry()),
                forall|k: int|
                    0 <= k < links@.len() ==> pairs_within(
                        &self.vector_store,
                        (#[trigger] links@[k])@,
                    ),
                forall|base: V::VectorRef, l: nat|
                    #![trigger self.graph_store.links(base, l)]
                    self.graph_store.links(base, l) == if l < lc {
                        connected(
                            &self.vector_store,
                            old(self).graph_store.links(base, l),
                            inserted_vector,
                            trimmed(links@[l as int]@, self.params.M as int),
                            base,
                            self.params.max_links(l),
                        )
                    } else {
                        old(self).graph_store.links(base, l)
                    },
            decreases layer_count - lc,
        {
            let layer_links = links[lc].clone();
            self.connect_bidir(&inserted_vector, layer_links, lc);
            lc += 1;
        }

        // If the new vector goes into a layer higher than ever seen before, then it becomes
        // the new entry point of the graph.
        if level >= layer_count {
            self.graph_store.set_entry_point(
                EntryPoint { vector_ref: inserted_vector, layer_count: level + 1 },
            );
        }
        proof {
            let store = &old(self).vector_store;
            let before = old(self).graph_store;
            let after = self.graph_store;
            assert forall|base: V::VectorRef, l: nat|
                #![trigger after.links(base, l)]
                l < links@.len() && l <= level implies {
                    &&& self.params.valid() ==> after.links(base, l) == before.links(base, l)
                        || after.links(base, l).len() <= self.params.max_links(l)
                    &&& ascending(store, before.links(base, l)) && ascending(
                        store,
                        links@[l as int]@,
                    ) ==> ascending(store, after.links(base, l))
                } by {
                let chosen = trimmed(links@[l as int]@, self.params.M as int);
                lemma_trimmed_within(store, links@[l as int]@, self.params.M as int);
                assert(pairs_within(store, old(self).graph_store.links(base, l)));
                lemma_connected(
                    store,
                    old(self).graph_store.links(base, l),
                    inserted_vector,
                    chosen,
                    base,
                    self.params.max_links(l),
                );
                if ascending(store, links@[l as int]@) {
                    lemma_trimmed_ascending(store, links@[l as int]@, self.params.M as int);
                }
            }
        }
    }

    /// Whether the nearest neighbour found in the bottom layer is a match.
    pub fn is_match(&self, neighbors: &[FurthestQueue<V::VectorRef, V::DistanceRef>]) -> (matched:
        bool)
        requires
            self.vector_store.wf(),
            neighbors@.len() > 0 && neighbors@[0]@.len() > 0 ==> self.vector_store.has_distance(
                neighbors@[0]@[0].1,
            ),
        ensures
            matched == (neighbors@.len() > 0 && neighbors@[0]@.len() > 0
                && self.vector_store.matching(neighbors@[0]@[0].1)),
    {
        if neighbors.len() == 0 {
            // Empty database.
            return false;
        }
        match neighbors[0].get_nearest() {
            None => false,
            Some(nearest) => self.vector_store.is_match(&nearest.1),
        }
    }
}

} // verus!
