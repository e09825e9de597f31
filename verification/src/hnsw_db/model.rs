//! What a search and an insertion compute, stated over sequences, sets and
//! the spec functions of the two stores.

use super::queue::{ascending_insert, descending_insert, distances_of, insertion_index,
    nearer_than, trimmed, vectors_of};
use crate::graph_store::{layer_count_of, GraphStore};
use crate::vector_store::{lemma_bisect_boundary, VectorStore};
use vstd::prelude::*;

verus! {

/// Whether every neighbour in `pairs` is a vector of the store, at a distance
/// the store can compare.
pub open spec fn pairs_within<V: VectorStore>(
    store: &V,
    pairs: Seq<(V::VectorRef, V::DistanceRef)>,
) -> bool {
    forall|i: int|
        #![trigger pairs[i]]
        0 <= i < pairs.len() ==> store.vectors().contains(pairs[i].0) && store.has_distance(
            pairs[i].1,
        )
}

/// Whether every neighbour in `pairs` is a vector of the store, noted at its
/// distance to `query`.
pub open spec fn faithful<V: VectorStore>(
    store: &V,
    query: V::QueryRef,
    pairs: Seq<(V::VectorRef, V::DistanceRef)>,
) -> bool {
    forall|i: int|
        #![trigger pairs[i]]
        0 <= i < pairs.len() ==> store.vectors().contains(pairs[i].0) && pairs[i].1
            == store.distance(query, pairs[i].0)
}

/// Whether the graph speaks of nothing but what the store holds: its entry
/// point and all its neighbours are vectors of the store.
pub open spec fn graph_within<V: VectorStore, G: GraphStore<V>>(store: &V, graph: &G) -> bool {
    &&& forall|base: V::VectorRef, lc: nat| pairs_within(store, #[trigger] graph.links(base, lc))
    &&& match graph.entry() {
        Some(entry_point) => store.vectors().contains(entry_point.vector_ref),
        None => true,
    }
}

/// A list with a neighbour more is within the store if the list and the
/// neighbour are.
pub proof fn lemma_insert_within<V: VectorStore>(
    store: &V,
    pairs: Seq<(V::VectorRef, V::DistanceRef)>,
    index: int,
    to: V::VectorRef,
    dist: V::DistanceRef,
)
    requires
        pairs_within(store, pairs),
        store.vectors().contains(to),
        store.has_distance(dist),
        0 <= index <= pairs.len(),
    ensures
        pairs_within(store, pairs.insert(index, (to, dist))),
{
    let longer = pairs.insert(index, (to, dist));
    assert forall|i: int| 0 <= i < longer.len() implies store.vectors().contains(
        (#[trigger] longer[i]).0,
    ) && store.has_distance(longer[i].1) by {
        if i < index {
            assert(longer[i] == pairs[i]);
        } else if i > index {
            assert(longer[i] == pairs[i - 1]);
        }
    }
}

/// Both ordered insertions keep a list within the store.
pub proof fn lemma_ordered_insert_within<V: VectorStore>(
    store: &V,
    pairs: Seq<(V::VectorRef, V::DistanceRef)>,
    to: V::VectorRef,
    dist: V::DistanceRef,
)
    requires
        pairs_within(store, pairs),
        store.vectors().contains(to),
        store.has_distance(dist),
    ensures
        pairs_within(store, ascending_insert(store, pairs, to, dist)),
        pairs_within(store, descending_insert(store, pairs, to, dist)),
        ascending_insert(store, pairs, to, dist).len() == pairs.len() + 1,
        descending_insert(store, pairs, to, dist).len() == pairs.len() + 1,
{
    lemma_bisect_boundary(nearer_than(store, distances_of(pairs), dist), 0, pairs.len() as int);
    lemma_bisect_boundary(
        nearer_than(store, distances_of(pairs).reverse(), dist),
        0,
        pairs.len() as int,
    );
    lemma_insert_within(store, pairs, insertion_index(store, distances_of(pairs), dist), to, dist);
    lemma_insert_within(
        store,
        pairs,
        pairs.len() - insertion_index(store, distances_of(pairs).reverse(), dist),
        to,
        dist,
    );
}

/// The neighbours in `links` that were not visited before, in the order of
/// the list and each one once.
pub open spec fn unvisited<Vector, Distance>(
    links: Seq<(Vector, Distance)>,
    visited: Set<Vector>,
) -> Seq<Vector>
    decreases links.len(),
{
    if links.len() == 0 {
        Seq::empty()
    } else {
        let earlier = unvisited(links.drop_last(), visited);
        let neighbor = links.last().0;
        if visited.contains(neighbor) || earlier.contains(neighbor) {
            earlier
        } else {
            earlier.push(neighbor)
        }
    }
}

/// The two lists a layer search works on, and the bound it prunes with.
pub struct Beam<Vector, Distance> {
    /// The nearest neighbours kept so far, in ascending order.
    pub kept: Seq<(Vector, Distance)>,
    /// The candidates still to expand, in descending order.
    pub frontier: Seq<(Vector, Distance)>,
    /// The furthest distance in `kept`.
    pub bound: Distance,
}

/// The beam after one newly found neighbour `e` at distance `eq` was
/// considered: a full beam takes it only if it is nearer than the bound, and
/// then gives up its furthest element for it.
pub open spec fn consider<V: VectorStore>(
    store: &V,
    ef: nat,
    beam: Beam<V::VectorRef, V::DistanceRef>,
    e: V::VectorRef,
    eq: V::DistanceRef,
) -> Beam<V::VectorRef, V::DistanceRef> {
    if beam.kept.len() == ef && !store.closer(eq, beam.bound) {
        beam
    } else {
        let room = if beam.kept.len() == ef && ef > 0 {
            beam.kept.drop_last()
        } else {
            beam.kept
        };
        let kept = ascending_insert(store, room, e, eq);
        Beam { kept, frontier: descending_insert(store, beam.frontier, e, eq), bound: kept.last().1 }
    }
}

/// The beam after the neighbours `found` were considered one after the
/// other, each at its distance to the query.
pub open spec fn absorb<V: VectorStore>(
    store: &V,
    ef: nat,
    query: V::QueryRef,
    beam: Beam<V::VectorRef, V::DistanceRef>,
    found: Seq<V::VectorRef>,
) -> Beam<V::VectorRef, V::DistanceRef>
    decreases found.len(),
{
    if found.len() == 0 {
        beam
    } else {
        consider(
            store,
            ef,
            absorb(store, ef, query, beam, found.drop_last()),
            found.last(),
            store.distance(query, found.last()),
        )
    }
}

/// The number by which an exploration goes down: the vectors not visited
/// yet.
pub open spec fn unexplored<V: VectorStore>(store: &V, visited: Set<V::VectorRef>) -> nat {
    store.vectors().difference(visited).len()
}

/// The nearest neighbours that the greedy exploration of layer `lc` ends
/// with, from a given beam and set of visited vectors.
///
/// While candidates are left, the nearest one is taken. If it is further than
/// the bound, the exploration ends. Otherwise its neighbours in the layer
/// that were not visited before are visited and absorbed into the beam.
pub open spec fn explore<V: VectorStore, G: GraphStore<V>>(
    store: &V,
    graph: &G,
    query: V::QueryRef,
    ef: nat,
    lc: nat,
    beam: Beam<V::VectorRef, V::DistanceRef>,
    visited: Set<V::VectorRef>,
) -> Seq<(V::VectorRef, V::DistanceRef)>
    decreases unexplored(store, visited), beam.frontier.len(),
    when store.vectors().finite() && graph_within(store, graph)
    via explore_decreases::<V, G>
{
    if beam.frontier.len() == 0 {
        beam.kept
    } else {
        let nearest = beam.frontier.last();
        if store.closer(beam.bound, nearest.1) {
            beam.kept
        } else {
            let found = unvisited(graph.links(nearest.0, lc), visited);
            let popped = Beam { frontier: beam.frontier.drop_last(), ..beam };
            explore(
                store,
                graph,
                query,
                ef,
                lc,
                absorb(store, ef, query, popped, found),
                visited.union(found.to_set()),
            )
        }
    }
}

/// What `unvisited` returns was not visited, has no element twice, and
/// comes from the list.
pub proof fn lemma_unvisited<Vector, Distance>(links: Seq<(Vector, Distance)>, visited: Set<Vector>)
    ensures
        unvisited(links, visited).no_duplicates(),
        forall|i: int|
            0 <= i < unvisited(links, visited).len() ==> !visited.contains(
                #[trigger] unvisited(links, visited)[i],
            ),
        forall|i: int|
            0 <= i < unvisited(links, visited).len() ==> vectors_of(links).contains(
                #[trigger] unvisited(links, visited)[i],
            ),
        forall|j: int|
            0 <= j < links.len() ==> visited.contains(#[trigger] links[j].0) || unvisited(
                links,
                visited,
            ).contains(links[j].0),
    decreases links.len(),
{
    if links.len() > 0 {
        let shorter = links.drop_last();
        lemma_unvisited(shorter, visited);
        let earlier = unvisited(shorter, visited);
        let neighbor = links.last().0;
        let all = unvisited(links, visited);
        assert(vectors_of(links)[links.len() - 1] == neighbor);
        assert forall|i: int| 0 <= i < all.len() implies vectors_of(links).contains(
            #[trigger] all[i],
        ) by {
            if i < earlier.len() {
                let j = choose|j: int|
                    0 <= j < vectors_of(shorter).len() && vectors_of(shorter)[j] == earlier[i];
                assert(vectors_of(links)[j] == all[i]);
            }
        }
        assert forall|j: int| 0 <= j < links.len() implies visited.contains(#[trigger] links[j].0)
            || all.contains(links[j].0) by {
            if j < shorter.len() {
                assert(shorter[j] == links[j]);
                if !visited.contains(links[j].0) {
                    let i = choose|i: int| 0 <= i < earlier.len() && earlier[i] == shorter[j].0;
                    assert(all[i] == links[j].0);
                }
            } else if !visited.contains(neighbor) && !earlier.contains(neighbor) {
                assert(all[earlier.len() as int] == neighbor);
            }
        }
    }
}

/// A set that gains a vector of the store it did not have leaves fewer
/// vectors unexplored.
pub proof fn lemma_unexplored_shrinks<V: VectorStore>(
    store: &V,
    visited: Set<V::VectorRef>,
    more: Set<V::VectorRef>,
    fresh: V::VectorRef,
)
    requires
        store.vectors().finite(),
        store.vectors().contains(fresh),
        !visited.contains(fresh),
        more.contains(fresh),
    ensures
        unexplored(store, visited.union(more)) < unexplored(store, visited),
{
    let before = store.vectors().difference(visited);
    let after = store.vectors().difference(visited.union(more));
    vstd::set_lib::lemma_len_subset(before, store.vectors());
    assert(after.insert(fresh).subset_of(before));
    vstd::set_lib::lemma_len_subset(after.insert(fresh), before);
    vstd::set_lib::lemma_len_subset(after, before);
    assert(!after.contains(fresh));
}

/// One step of an exploration goes down in the lexicographic order of the
/// vectors left unexplored and the candidates left.
pub proof fn lemma_step_decreases<V: VectorStore, G: GraphStore<V>>(
    store: &V,
    graph: &G,
    query: V::QueryRef,
    ef: nat,
    lc: nat,
    beam: Beam<V::VectorRef, V::DistanceRef>,
    visited: Set<V::VectorRef>,
)
    requires
        store.vectors().finite(),
        graph_within(store, graph),
        beam.frontier.len() > 0,
    ensures
        ({
            let found = unvisited(graph.links(beam.frontier.last().0, lc), visited);
            let popped = Beam { frontier: beam.frontier.drop_last(), ..beam };
            let next = absorb(store, ef, query, popped, found);
            let seen = visited.union(found.to_set());
            unexplored(store, seen) < unexplored(store, visited) || (unexplored(store, seen)
                == unexplored(store, visited) && next.frontier.len() < beam.frontier.len())
        }),
{
    let nearest = beam.frontier.last();
    let links = graph.links(nearest.0, lc);
    let found = unvisited(links, visited);
    lemma_unvisited(links, visited);
    if found.len() == 0 {
        assert(visited.union(found.to_set()) =~= visited);
    } else {
        let fresh = found[0];
        assert(found.to_set().contains(fresh));
        let j = choose|j: int| 0 <= j < vectors_of(links).len() && vectors_of(links)[j] == fresh;
        assert(links[j].0 == fresh);
        lemma_unexplored_shrinks(store, visited, found.to_set(), fresh);
    }
}

#[via_fn]
proof fn explore_decreases<V: VectorStore, G: GraphStore<V>>(
    store: &V,
    graph: &G,
    query: V::QueryRef,
    ef: nat,
    lc: nat,
    beam: Beam<V::VectorRef, V::DistanceRef>,
    visited: Set<V::VectorRef>,
) {
    if beam.frontier.len() > 0 {
        lemma_step_decreases(store, graph, query, ef, lc, beam, visited);
    }
}

/// The vectors whose distance to the query an exploration asks the store
/// for, in the order it asks: batch after batch, the neighbours of each
/// expanded candidate that were not visited before.
pub open spec fn evaluated<V: VectorStore, G: GraphStore<V>>(
    store: &V,
    graph: &G,
    query: V::QueryRef,
    ef: nat,
    lc: nat,
    beam: Beam<V::VectorRef, V::DistanceRef>,
    visited: Set<V::VectorRef>,
) -> Seq<V::VectorRef>
    decreases unexplored(store, visited), beam.frontier.len(),
    when store.vectors().finite() && graph_within(store, graph)
    via evaluated_decreases::<V, G>
{
    if beam.frontier.len() == 0 {
        Seq::empty()
    } else {
        let nearest = beam.frontier.last();
        if store.closer(beam.bound, nearest.1) {
            Seq::empty()
        } else {
            let found = unvisited(graph.links(nearest.0, lc), visited);
            let popped = Beam { frontier: beam.frontier.drop_last(), ..beam };
            found + evaluated(
                store,
                graph,
                query,
                ef,
                lc,
                absorb(store, ef, query, popped, found),
                visited.union(found.to_set()),
            )
        }
    }
}

#[via_fn]
proof fn evaluated_decreases<V: VectorStore, G: GraphStore<V>>(
    store: &V,
    graph: &G,
    query: V::QueryRef,
    ef: nat,
    lc: nat,
    beam: Beam<V::VectorRef, V::DistanceRef>,
    visited: Set<V::VectorRef>,
) {
    if beam.frontier.len() > 0 {
        lemma_step_decreases(store, graph, query, ef, lc, beam, visited);
    }
}

/// The nearest neighbours that the search of one layer ends with, when it
/// starts from the list `kept`: every vector of the list counts as visited,
/// and all of them are candidates.
pub open spec fn layer_search<V: VectorStore, G: GraphStore<V>>(
    store: &V,
    graph: &G,
    query: V::QueryRef,
    kept: Seq<(V::VectorRef, V::DistanceRef)>,
    ef: nat,
    lc: nat,
) -> Seq<(V::VectorRef, V::DistanceRef)> {
    explore(
        store,
        graph,
        query,
        ef,
        lc,
        Beam { kept, frontier: kept.reverse(), bound: kept.last().1 },
        vectors_of(kept).to_set(),
    )
}

/// The list a search starts with: the entry point at its distance to the
/// query, or nothing in an empty graph.
pub open spec fn entry_list<V: VectorStore, G: GraphStore<V>>(
    store: &V,
    graph: &G,
    query: V::QueryRef,
) -> Seq<(V::VectorRef, V::DistanceRef)> {
    match graph.entry() {
        Some(entry_point) => seq![
            (entry_point.vector_ref, store.distance(query, entry_point.vector_ref)),
        ],
        None => Seq::empty(),
    }
}

/// The nearest neighbours found in layer `lc`, by a search that starts at
/// the entry point and takes the result of each layer into the layer below.
pub open spec fn descent<V: VectorStore, G: GraphStore<V>>(
    store: &V,
    graph: &G,
    query: V::QueryRef,
    ef: nat,
    lc: nat,
) -> Seq<(V::VectorRef, V::DistanceRef)>
    decreases layer_count_of(graph.entry()) - lc,
{
    if lc >= layer_count_of(graph.entry()) {
        entry_list(store, graph, query)
    } else {
        layer_search(store, graph, query, descent(store, graph, query, ef, lc + 1), ef, lc)
    }
}

/// The neighbours of `base` after a new vector `q` was linked to the
/// neighbours `chosen`: each time `base` stands in `chosen`, `q` goes into
/// the list of `base` at the distance noted there, and the list is cut to
/// `cap`.
pub open spec fn back_links<V: VectorStore>(
    store: &V,
    before: Seq<(V::VectorRef, V::DistanceRef)>,
    q: V::VectorRef,
    chosen: Seq<(V::VectorRef, V::DistanceRef)>,
    base: V::VectorRef,
    cap: nat,
) -> Seq<(V::VectorRef, V::DistanceRef)>
    decreases chosen.len(),
{
    if chosen.len() == 0 {
        before
    } else {
        let earlier = back_links(store, before, q, chosen.drop_last(), base, cap);
        if chosen.last().0 == base {
            trimmed(ascending_insert(store, earlier, q, chosen.last().1), cap as int)
        } else {
            earlier
        }
    }
}

/// The neighbours of `base` in a layer after `q` was connected there to the
/// neighbours `chosen`, in both directions: `q` itself gets `chosen`, every
/// other vector what `back_links` says.
pub open spec fn connected<V: VectorStore>(
    store: &V,
    before: Seq<(V::VectorRef, V::DistanceRef)>,
    q: V::VectorRef,
    chosen: Seq<(V::VectorRef, V::DistanceRef)>,
    base: V::VectorRef,
    cap: nat,
) -> Seq<(V::VectorRef, V::DistanceRef)> {
    if base == q {
        chosen
    } else {
        back_links(store, before, q, chosen, base, cap)
    }
}

/// A list that is cut stays within the store.
pub proof fn lemma_trimmed_within<V: VectorStore>(
    store: &V,
    pairs: Seq<(V::VectorRef, V::DistanceRef)>,
    k: int,
)
    requires
        pairs_within(store, pairs),
    ensures
        pairs_within(store, trimmed(pairs, k)),
        0 <= k ==> trimmed(pairs, k).len() <= k,
        trimmed(pairs, k).len() <= pairs.len(),
{
    let cut = trimmed(pairs, k);
    assert forall|i: int| 0 <= i < cut.len() implies store.vectors().contains((#[trigger] cut[i]).0)
        && store.has_distance(cut[i].1) by {
        assert(cut[i] == pairs[i]);
    }
}

} // verus!
