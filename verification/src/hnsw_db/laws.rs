//! What holds of every search and every insertion, proved from the model.

use super::model::{absorb, back_links, connected, consider, descent, entry_list, evaluated, explore,
    faithful, graph_within, layer_search, lemma_step_decreases, lemma_trimmed_within,
    lemma_unvisited, pairs_within, unexplored, unvisited, Beam};
use super::queue::{ascending, ascending_insert, descending, descending_insert, distances_known,
    distances_of, insertion_index, nearer_than, trimmed, vectors_of};
use crate::graph_store::{layer_count_of, GraphStore};
use crate::vector_store::{extends, lawful, lemma_bisect_boundary, lemma_closer_asymmetric,
    matches_are_nearest, VectorStore};
use vstd::prelude::*;

verus! {

/// An ascending list stays ascending when a neighbour goes in at the index
/// the store's binary search gives.
pub proof fn lemma_ascending_insert<V: VectorStore>(
    store: &V,
    pairs: Seq<(V::VectorRef, V::DistanceRef)>,
    to: V::VectorRef,
    dist: V::DistanceRef,
)
    requires
        lawful(store),
        distances_known(store, pairs),
        store.has_distance(dist),
        ascending(store, pairs),
    ensures
        ascending(store, ascending_insert(store, pairs, to, dist)),
{
    let flags = nearer_than(store, distances_of(pairs), dist);
    let index = insertion_index(store, distances_of(pairs), dist);
    lemma_bisect_boundary(flags, 0, pairs.len() as int);
    let longer = ascending_insert(store, pairs, to, dist);
    assert forall|i: int| 0 <= i < longer.len() - 1 implies !store.closer(
        longer[i + 1].1,
        (#[trigger] longer[i]).1,
    ) by {
        if i + 1 < index {
            assert(longer[i] == pairs[i]);
            assert(longer[i + 1] == pairs[i + 1]);
        } else if i + 1 == index {
            assert(longer[i] == pairs[i]);
            assert(flags[index - 1]);
            lemma_closer_asymmetric(store, pairs[i].1, dist);
        } else if i == index {
            assert(longer[i + 1] == pairs[i]);
            assert(!flags[index]);
        } else {
            assert(longer[i] == pairs[i - 1]);
            assert(longer[i + 1] == pairs[i]);
        }
    }
}

/// The two queues mirror each other: to insert into a descending list is to
/// insert into the list read backwards, and to read the result backwards.
pub proof fn lemma_descending_insert_mirrors<V: VectorStore>(
    store: &V,
    pairs: Seq<(V::VectorRef, V::DistanceRef)>,
    to: V::VectorRef,
    dist: V::DistanceRef,
)
    ensures
        descending_insert(store, pairs, to, dist) == ascending_insert(
            store,
            pairs.reverse(),
            to,
            dist,
        ).reverse(),
{
    assert(distances_of(pairs).reverse() =~= distances_of(pairs.reverse()));
    let index = insertion_index(store, distances_of(pairs).reverse(), dist);
    lemma_bisect_boundary(
        nearer_than(store, distances_of(pairs).reverse(), dist),
        0,
        pairs.len() as int,
    );
    assert(pairs.insert(pairs.len() - index, (to, dist)) =~= pairs.reverse().insert(
        index,
        (to, dist),
    ).reverse());
}

/// A descending list stays descending when a neighbour goes in.
pub proof fn lemma_descending_insert<V: VectorStore>(
    store: &V,
    pairs: Seq<(V::VectorRef, V::DistanceRef)>,
    to: V::VectorRef,
    dist: V::DistanceRef,
)
    requires
        lawful(store),
        distances_known(store, pairs),
        store.has_distance(dist),
        descending(store, pairs),
    ensures
        descending(store, descending_insert(store, pairs, to, dist)),
{
    lemma_descending_insert_mirrors(store, pairs, to, dist);
    let backwards = pairs.reverse();
    assert forall|i: int| 0 <= i < backwards.len() implies store.has_distance(
        #[trigger] backwards[i].1,
    ) by {
        assert(backwards[i] == pairs[pairs.len() - 1 - i]);
    }
    lemma_ascending_insert(store, backwards, to, dist);
    let inserted = ascending_insert(store, backwards, to, dist);
    assert(inserted.reverse().reverse() =~= inserted);
}

/// An ascending list that is cut stays ascending.
pub proof fn lemma_trimmed_ascending<V: VectorStore>(
    store: &V,
    pairs: Seq<(V::VectorRef, V::DistanceRef)>,
    k: int,
)
    requires
        ascending(store, pairs),
    ensures
        ascending(store, trimmed(pairs, k)),
{
    let cut = trimmed(pairs, k);
    assert forall|i: int| 0 <= i < cut.len() - 1 implies !store.closer(
        cut[i + 1].1,
        (#[trigger] cut[i]).1,
    ) by {
        assert(cut[i] == pairs[i]);
        assert(cut[i + 1] == pairs[i + 1]);
    }
}

/// What is true of a list that a search returns: its neighbours are vectors
/// of the store at their distance to the query, it ascends, it is not empty,
/// and no vector stands in it twice.
pub open spec fn list_sound<V: VectorStore>(
    store: &V,
    query: V::QueryRef,
    pairs: Seq<(V::VectorRef, V::DistanceRef)>,
) -> bool {
    &&& faithful(store, query, pairs)
    &&& ascending(store, pairs)
    &&& pairs.len() > 0
    &&& vectors_of(pairs).no_duplicates()
}

/// What is true of a beam during a search: the kept list is sound and all of
/// it was visited, and the candidates are at their distance to the query.
pub open spec fn beam_sound<V: VectorStore>(
    store: &V,
    query: V::QueryRef,
    beam: Beam<V::VectorRef, V::DistanceRef>,
    visited: Set<V::VectorRef>,
) -> bool {
    &&& list_sound(store, query, beam.kept)
    &&& faithful(store, query, beam.frontier)
    &&& forall|i: int| 0 <= i < beam.kept.len() ==> visited.contains(#[trigger] beam.kept[i].0)
}

/// A faithful list holds only distances the store can compare.
pub proof fn lemma_faithful_within<V: VectorStore>(
    store: &V,
    query: V::QueryRef,
    pairs: Seq<(V::VectorRef, V::DistanceRef)>,
)
    requires
        lawful(store),
        store.has_query(query),
        faithful(store, query, pairs),
    ensures
        pairs_within(store, pairs),
{
    assert forall|i: int| 0 <= i < pairs.len() implies store.vectors().contains(
        (#[trigger] pairs[i]).0,
    ) && store.has_distance(pairs[i].1) by {
    }
}

/// A list without a vector twice has none twice after a vector that it did
/// not hold went in.
pub proof fn lemma_insert_no_duplicates<Vector, Distance>(
    pairs: Seq<(Vector, Distance)>,
    index: int,
    to: Vector,
    dist: Distance,
)
    requires
        0 <= index <= pairs.len(),
        vectors_of(pairs).no_duplicates(),
        forall|i: int| 0 <= i < pairs.len() ==> (#[trigger] pairs[i]).0 != to,
    ensures
        vectors_of(pairs.insert(index, (to, dist))).no_duplicates(),
{
    let longer = pairs.insert(index, (to, dist));
    let names = vectors_of(longer);
    assert forall|i: int, j: int| 0 <= i < names.len() && 0 <= j < names.len() && i != j implies names[i]
        != names[j] by {
        let a = if i < index {
            i
        } else {
            i - 1
        };
        let b = if j < index {
            j
        } else {
            j - 1
        };
        if i != index && j != index {
            assert(longer[i] == pairs[a]);
            assert(longer[j] == pairs[b]);
            assert(vectors_of(pairs)[a] == pairs[a].0);
            assert(vectors_of(pairs)[b] == pairs[b].0);
        } else if i == index {
            assert(longer[j] == pairs[b]);
        } else {
            assert(longer[i] == pairs[a]);
        }
    }
}

/// A sound beam stays sound when it considers a vector of the store that was
/// not visited before.
pub proof fn lemma_consider_sound<V: VectorStore>(
    store: &V,
    ef: nat,
    query: V::QueryRef,
    beam: Beam<V::VectorRef, V::DistanceRef>,
    visited: Set<V::VectorRef>,
    e: V::VectorRef,
)
    requires
        lawful(store),
        store.has_query(query),
        beam_sound(store, query, beam, visited),
        store.vectors().contains(e),
        !visited.contains(e),
    ensures
        beam_sound(
            store,
            query,
            consider(store, ef, beam, e, store.distance(query, e)),
            visited.insert(e),
        ),
{
    let eq = store.distance(query, e);
    let after = consider(store, ef, beam, e, eq);
    lemma_faithful_within(store, query, beam.kept);
    lemma_faithful_within(store, query, beam.frontier);
    if !(beam.kept.len() == ef && !store.closer(eq, beam.bound)) {
        let room = if beam.kept.len() == ef && ef > 0 {
            beam.kept.drop_last()
        } else {
            beam.kept
        };
        assert forall|i: int| 0 <= i < room.len() implies (#[trigger] room[i]) == beam.kept[i] by {}
        assert(vectors_of(room).no_duplicates()) by {
            assert forall|i: int, j: int|
                0 <= i < room.len() && 0 <= j < room.len() && i != j implies vectors_of(room)[i]
                != vectors_of(room)[j] by {
                assert(vectors_of(beam.kept)[i] == beam.kept[i].0);
                assert(vectors_of(beam.kept)[j] == beam.kept[j].0);
            }
        }
        assert(ascending(store, room)) by {
            assert forall|i: int| 0 <= i < room.len() - 1 implies !store.closer(
                room[i + 1].1,
                (#[trigger] room[i]).1,
            ) by {
                assert(room[i + 1] == beam.kept[i + 1]);
            }
        }
        lemma_ascending_insert(store, room, e, eq);
        let index = insertion_index(store, distances_of(room), eq);
        lemma_bisect_boundary(
            nearer_than(store, distances_of(room), eq),
            0,
            room.len() as int,
        );
        lemma_insert_no_duplicates(room, index, e, eq);
        let spot = beam.frontier.len() - insertion_index(
            store,
            distances_of(beam.frontier).reverse(),
            eq,
        );
        lemma_bisect_boundary(
            nearer_than(store, distances_of(beam.frontier).reverse(), eq),
            0,
            beam.frontier.len() as int,
        );
        assert forall|i: int| 0 <= i < after.kept.len() implies store.vectors().contains(
            (#[trigger] after.kept[i]).0,
        ) && after.kept[i].1 == store.distance(query, after.kept[i].0) && visited.insert(
            e,
        ).contains(after.kept[i].0) by {
            if i < index {
                assert(after.kept[i] == room[i]);
            } else if i > index {
                assert(after.kept[i] == room[i - 1]);
            }
        }
        assert forall|i: int| 0 <= i < after.frontier.len() implies store.vectors().contains(
            (#[trigger] after.frontier[i]).0,
        ) && after.frontier[i].1 == store.distance(query, after.frontier[i].0) by {
            if i < spot {
                assert(after.frontier[i] == beam.frontier[i]);
            } else if i > spot {
                assert(after.frontier[i] == beam.frontier[i - 1]);
            }
        }
    }
}

/// A sound beam stays sound when it absorbs vectors of the store that were
/// not visited before, each of them once.
pub proof fn lemma_absorb_sound<V: VectorStore>(
    store: &V,
    ef: nat,
    query: V::QueryRef,
    beam: Beam<V::VectorRef, V::DistanceRef>,
    visited: Set<V::VectorRef>,
    found: Seq<V::VectorRef>,
)
    requires
        lawful(store),
        store.has_query(query),
        beam_sound(store, query, beam, visited),
        found.no_duplicates(),
        forall|i: int| 0 <= i < found.len() ==> store.vectors().contains(#[trigger] found[i]),
        forall|i: int| 0 <= i < found.len() ==> !visited.contains(#[trigger] found[i]),
    ensures
        beam_sound(
            store,
            query,
            absorb(store, ef, query, beam, found),
            visited.union(found.to_set()),
        ),
    decreases found.len(),
{
    if found.len() == 0 {
        assert(visited.union(found.to_set()) =~= visited);
    } else {
        let earlier = found.drop_last();
        let e = found.last();
        lemma_absorb_sound(store, ef, query, beam, visited, earlier);
        let seen = visited.union(earlier.to_set());
        assert(!seen.contains(e)) by {
            if earlier.to_set().contains(e) {
                let k = choose|k: int| 0 <= k < earlier.len() && earlier[k] == e;
                assert(found[k] == e);
            }
        }
        lemma_consider_sound(store, ef, query, absorb(store, ef, query, beam, earlier), seen, e);
        assert(seen.insert(e) =~= visited.union(found.to_set())) by {
            assert forall|x: V::VectorRef|
                found.to_set().contains(x) <==> earlier.to_set().contains(x) || x == e by {
                if earlier.to_set().contains(x) {
                    let k = choose|k: int| 0 <= k < earlier.len() && earlier[k] == x;
                    assert(found[k] == x);
                }
                if found.to_set().contains(x) {
                    let k = choose|k: int| 0 <= k < found.len() && found[k] == x;
                    if k < earlier.len() {
                        assert(earlier[k] == x);
                    }
                }
                if x == e {
                    assert(found[found.len() - 1] == x);
                }
            }
        }
    }
}

/// An exploration that starts from a sound beam ends with a sound list.
pub proof fn lemma_explore_sound<V: VectorStore, G: GraphStore<V>>(
    store: &V,
    graph: &G,
    query: V::QueryRef,
    ef: nat,
    lc: nat,
    beam: Beam<V::VectorRef, V::DistanceRef>,
    visited: Set<V::VectorRef>,
)
    requires
        lawful(store),
        store.has_query(query),
        graph_within(store, graph),
        beam_sound(store, query, beam, visited),
    ensures
        list_sound(store, query, explore(store, graph, query, ef, lc, beam, visited)),
    decreases unexplored(store, visited), beam.frontier.len(),
{
    if beam.frontier.len() > 0 {
        let nearest = beam.frontier.last();
        if !store.closer(beam.bound, nearest.1) {
            let links = graph.links(nearest.0, lc);
            let found = unvisited(links, visited);
            let popped = Beam { frontier: beam.frontier.drop_last(), ..beam };
            lemma_unvisited(links, visited);
            assert forall|k: int| 0 <= k < found.len() implies store.vectors().contains(
                #[trigger] found[k],
            ) by {
                let j = choose|j: int|
                    0 <= j < vectors_of(links).len() && vectors_of(links)[j] == found[k];
                assert(links[j].0 == found[k]);
            }
            assert(faithful(store, query, popped.frontier)) by {
                assert forall|i: int| 0 <= i < popped.frontier.len() implies (
                #[trigger] popped.frontier[i]) == beam.frontier[i] by {}
            }
            lemma_absorb_sound(store, ef, query, popped, visited, found);
            lemma_step_decreases(store, graph, query, ef, lc, beam, visited);
            lemma_explore_sound(
                store,
                graph,
                query,
                ef,
                lc,
                absorb(store, ef, query, popped, found),
                visited.union(found.to_set()),
            );
        }
    }
}

/// The search of a layer that starts from a sound list ends with one.
pub proof fn lemma_layer_search_sound<V: VectorStore, G: GraphStore<V>>(
    store: &V,
    graph: &G,
    query: V::QueryRef,
    kept: Seq<(V::VectorRef, V::DistanceRef)>,
    ef: nat,
    lc: nat,
)
    requires
        lawful(store),
        store.has_query(query),
        graph_within(store, graph),
        list_sound(store, query, kept),
    ensures
        list_sound(store, query, layer_search(store, graph, query, kept, ef, lc)),
{
    let beam = Beam { kept, frontier: kept.reverse(), bound: kept.last().1 };
    let visited = vectors_of(kept).to_set();
    assert forall|i: int| 0 <= i < kept.len() implies visited.contains(#[trigger] kept[i].0) by {
        assert(vectors_of(kept)[i] == kept[i].0);
    }
    assert forall|i: int| 0 <= i < beam.frontier.len() implies store.vectors().contains(
        (#[trigger] beam.frontier[i]).0,
    ) && beam.frontier[i].1 == store.distance(query, beam.frontier[i].0) by {
        assert(beam.frontier[i] == kept[kept.len() - 1 - i]);
    }
    lemma_explore_sound(store, graph, query, ef, lc, beam, visited);
}

/// In a graph with an entry point, the list found in every layer is sound:
/// its neighbours are vectors of the store at their distance to the query, in
/// ascending order, none of them twice, and at least one.
pub proof fn lemma_descent_sound<V: VectorStore, G: GraphStore<V>>(
    store: &V,
    graph: &G,
    query: V::QueryRef,
    ef: nat,
    lc: nat,
)
    requires
        lawful(store),
        store.has_query(query),
        graph_within(store, graph),
        graph.entry() is Some,
    ensures
        list_sound(store, query, descent(store, graph, query, ef, lc)),
    decreases layer_count_of(graph.entry()) - lc,
{
    if lc >= layer_count_of(graph.entry()) {
        let start = entry_list(store, graph, query);
        assert(vectors_of(start).no_duplicates());
    } else {
        lemma_descent_sound(store, graph, query, ef, lc + 1);
        lemma_layer_search_sound(
            store,
            graph,
            query,
            descent(store, graph, query, ef, lc + 1),
            ef,
            lc,
        );
    }
}

/// Within the search of one layer the store is asked for the distance to a
/// vector at most once, and never for a vector that was visited before the
/// exploration began.
pub proof fn lemma_evaluated_once<V: VectorStore, G: GraphStore<V>>(
    store: &V,
    graph: &G,
    query: V::QueryRef,
    ef: nat,
    lc: nat,
    beam: Beam<V::VectorRef, V::DistanceRef>,
    visited: Set<V::VectorRef>,
)
    requires
        lawful(store),
        graph_within(store, graph),
    ensures
        evaluated(store, graph, query, ef, lc, beam, visited).no_duplicates(),
        forall|i: int|
            0 <= i < evaluated(store, graph, query, ef, lc, beam, visited).len()
                ==> !visited.contains(
                #[trigger] evaluated(store, graph, query, ef, lc, beam, visited)[i],
            ),
    decreases unexplored(store, visited), beam.frontier.len(),
{
    if beam.frontier.len() > 0 {
        let nearest = beam.frontier.last();
        if !store.closer(beam.bound, nearest.1) {
            let found = unvisited(graph.links(nearest.0, lc), visited);
            let popped = Beam { frontier: beam.frontier.drop_last(), ..beam };
            let next = absorb(store, ef, query, popped, found);
            let seen = visited.union(found.to_set());
            lemma_unvisited(graph.links(nearest.0, lc), visited);
            lemma_step_decreases(store, graph, query, ef, lc, beam, visited);
            lemma_evaluated_once(store, graph, query, ef, lc, next, seen);
            let later = evaluated(store, graph, query, ef, lc, next, seen);
            let all = found + later;
            assert forall|i: int, j: int| 0 <= i < all.len() && 0 <= j < all.len() && i != j implies all[i]
                != all[j] by {
                if i >= found.len() && j < found.len() {
                    assert(later[i - found.len()] == all[i]);
                    assert(found.to_set().contains(found[j]));
                } else if j >= found.len() && i < found.len() {
                    assert(later[j - found.len()] == all[j]);
                    assert(found.to_set().contains(found[i]));
                } else if i >= found.len() {
                    assert(later[i - found.len()] == all[i]);
                    assert(later[j - found.len()] == all[j]);
                }
            }
            assert forall|i: int| 0 <= i < all.len() implies !visited.contains(#[trigger] all[i]) by {
                if i >= found.len() {
                    assert(later[i - found.len()] == all[i]);
                }
            }
        }
    }
}

/// A list within a store is within every store that extends it.
pub proof fn lemma_pairs_within_extends<V: VectorStore>(
    before: &V,
    after: &V,
    pairs: Seq<(V::VectorRef, V::DistanceRef)>,
)
    requires
        extends(before, after),
        pairs_within(before, pairs),
    ensures
        pairs_within(after, pairs),
        ascending(before, pairs) ==> ascending(after, pairs),
{
    assert forall|i: int| 0 <= i < pairs.len() implies after.vectors().contains(
        (#[trigger] pairs[i]).0,
    ) && after.has_distance(pairs[i].1) by {}
    if ascending(before, pairs) {
        assert forall|i: int| 0 <= i < pairs.len() - 1 implies !after.closer(
            pairs[i + 1].1,
            (#[trigger] pairs[i]).1,
        ) by {
            assert(before.has_distance(pairs[i + 1].1));
        }
    }
}

/// A graph within a store is within every store that extends it: a search
/// can go on after the vector store took a query or a vector more.
pub proof fn lemma_graph_within_extends<V: VectorStore, G: GraphStore<V>>(
    before: &V,
    after: &V,
    graph: &G,
)
    requires
        extends(before, after),
        graph_within(before, graph),
    ensures
        graph_within(after, graph),
{
    assert forall|base: V::VectorRef, lc: nat| pairs_within(
        after,
        #[trigger] graph.links(base, lc),
    ) by {
        lemma_pairs_within_extends(before, after, graph.links(base, lc));
    }
}

/// Before a query is inserted that no vector of the store matches, the
/// nearest neighbour that a search finds for it in any layer is no match.
pub proof fn lemma_unseen_query_unmatched<V: VectorStore, G: GraphStore<V>>(
    store: &V,
    graph: &G,
    query: V::QueryRef,
    ef: nat,
    lc: nat,
)
    requires
        lawful(store),
        store.has_query(query),
        graph_within(store, graph),
        graph.entry() is Some,
        forall|vector: V::VectorRef|
            store.vectors().contains(vector) ==> !store.matching(
                #[trigger] store.distance(query, vector),
            ),
    ensures
        descent(store, graph, query, ef, lc).len() > 0,
        !store.matching(descent(store, graph, query, ef, lc)[0].1),
{
    lemma_descent_sound(store, graph, query, ef, lc);
    let found = descent(store, graph, query, ef, lc);
    assert(found[0].1 == store.distance(query, found[0].0));
}

/// Whether every neighbour list of the graph is in ascending order.
pub open spec fn graph_ascending<V: VectorStore, G: GraphStore<V>>(store: &V, graph: &G) -> bool {
    forall|base: V::VectorRef, lc: nat| ascending(store, #[trigger] graph.links(base, lc))
}

/// The list of a vector that gained back links is within the store, and
/// ascends if it did before.
pub proof fn lemma_back_links_ordered<V: VectorStore>(
    store: &V,
    before: Seq<(V::VectorRef, V::DistanceRef)>,
    q: V::VectorRef,
    chosen: Seq<(V::VectorRef, V::DistanceRef)>,
    base: V::VectorRef,
    cap: nat,
)
    requires
        lawful(store),
        store.vectors().contains(q),
        pairs_within(store, before),
        pairs_within(store, chosen),
    ensures
        pairs_within(store, back_links(store, before, q, chosen, base, cap)),
        ascending(store, before) ==> ascending(
            store,
            back_links(store, before, q, chosen, base, cap),
        ),
    decreases chosen.len(),
{
    if chosen.len() > 0 {
        let shorter = chosen.drop_last();
        assert forall|i: int| 0 <= i < shorter.len() implies store.vectors().contains(
            (#[trigger] shorter[i]).0,
        ) && store.has_distance(shorter[i].1) by {
            assert(shorter[i] == chosen[i]);
        }
        lemma_back_links_ordered(store, before, q, shorter, base, cap);
        let earlier = back_links(store, before, q, shorter, base, cap);
        if chosen.last().0 == base {
            let dist = chosen.last().1;
            assert(chosen[chosen.len() - 1] == chosen.last());
            let index = insertion_index(store, distances_of(earlier), dist);
            lemma_bisect_boundary(
                nearer_than(store, distances_of(earlier), dist),
                0,
                earlier.len() as int,
            );
            let longer = ascending_insert(store, earlier, q, dist);
            assert forall|i: int| 0 <= i < longer.len() implies store.vectors().contains(
                (#[trigger] longer[i]).0,
            ) && store.has_distance(longer[i].1) by {
                if i < index {
                    assert(longer[i] == earlier[i]);
                } else if i > index {
                    assert(longer[i] == earlier[i - 1]);
                }
            }
            lemma_trimmed_within(store, longer, cap as int);
            if ascending(store, before) {
                lemma_ascending_insert(store, earlier, q, dist);
                lemma_trimmed_ascending(store, longer, cap as int);
            }
        }
    }
}

/// Back links leave a list as it was or cut it to the layer's limit.
pub proof fn lemma_back_links_capped<V: VectorStore>(
    store: &V,
    before: Seq<(V::VectorRef, V::DistanceRef)>,
    q: V::VectorRef,
    chosen: Seq<(V::VectorRef, V::DistanceRef)>,
    base: V::VectorRef,
    cap: nat,
)
    ensures
        back_links(store, before, q, chosen, base, cap) == before || back_links(
            store,
            before,
            q,
            chosen,
            base,
            cap,
        ).len() <= cap,
    decreases chosen.len(),
{
    if chosen.len() > 0 {
        lemma_back_links_capped(store, before, q, chosen.drop_last(), base, cap);
    }
}

/// Whether `q` stands among the first `cap` neighbours of a list.
pub open spec fn linked_to<Vector, Distance>(
    pairs: Seq<(Vector, Distance)>,
    q: Vector,
    cap: nat,
) -> bool {
    exists|k: int| 0 <= k < pairs.len() && k < cap && (#[trigger] pairs[k]).0 == q
}

/// A list that links to `q` still does after `q` went in once more and the
/// list was cut.
proof fn lemma_relinked<V: VectorStore>(
    store: &V,
    pairs: Seq<(V::VectorRef, V::DistanceRef)>,
    q: V::VectorRef,
    dist: V::DistanceRef,
    cap: nat,
)
    requires
        linked_to(pairs, q, cap) || insertion_index(store, distances_of(pairs), dist) < cap,
    ensures
        linked_to(trimmed(ascending_insert(store, pairs, q, dist), cap as int), q, cap),
{
    let index = insertion_index(store, distances_of(pairs), dist);
    lemma_bisect_boundary(
        nearer_than(store, distances_of(pairs), dist),
        0,
        pairs.len() as int,
    );
    let longer = ascending_insert(store, pairs, q, dist);
    let cut = trimmed(longer, cap as int);
    if index < cap {
        assert(cut[index] == (q, dist));
    } else {
        let k = choose|k: int| 0 <= k < pairs.len() && k < cap && (#[trigger] pairs[k]).0 == q;
        assert(longer[k] == pairs[k]);
        assert(cut[k] == pairs[k]);
    }
}

/// A new vector is linked back from a chosen neighbour, unless the
/// neighbour's list is full of vectors that come before it.
///
/// When `q` is connected to the neighbours `chosen`, the neighbour at
/// position `i` takes `q` into its own list at the index the store's binary
/// search gives, and then cuts the list to `cap`. If that index is below
/// `cap`, the list of the neighbour holds `q` when the connection is done.
pub proof fn lemma_linked_back<V: VectorStore>(
    store: &V,
    before: Seq<(V::VectorRef, V::DistanceRef)>,
    q: V::VectorRef,
    chosen: Seq<(V::VectorRef, V::DistanceRef)>,
    cap: nat,
    i: int,
    upto: int,
)
    requires
        0 <= i < upto <= chosen.len(),
        insertion_index(
            store,
            distances_of(back_links(store, before, q, chosen.take(i), chosen[i].0, cap)),
            chosen[i].1,
        ) < cap,
    ensures
        linked_to(back_links(store, before, q, chosen.take(upto), chosen[i].0, cap), q, cap),
    decreases upto - i,
{
    let base = chosen[i].0;
    let shorter = chosen.take(upto - 1);
    assert(chosen.take(upto).drop_last() =~= shorter);
    assert(chosen.take(upto).last() == chosen[upto - 1]);
    let earlier = back_links(store, before, q, shorter, base, cap);
    if upto - 1 == i {
        lemma_relinked(store, earlier, q, chosen[i].1, cap);
    } else {
        lemma_linked_back(store, before, q, chosen, cap, i, upto - 1);
        if chosen[upto - 1].0 == base {
            lemma_relinked(store, earlier, q, chosen[upto - 1].1, cap);
        }
    }
}

/// After a connection, every list of the layer is within the store; it
/// ascends if it did before and the chosen neighbours do; and it is as it was
/// or no longer than the layer allows, if no more neighbours are chosen than
/// that.
pub proof fn lemma_connected<V: VectorStore>(
    store: &V,
    before: Seq<(V::VectorRef, V::DistanceRef)>,
    q: V::VectorRef,
    chosen: Seq<(V::VectorRef, V::DistanceRef)>,
    base: V::VectorRef,
    cap: nat,
)
    requires
        lawful(store),
        store.vectors().contains(q),
        pairs_within(store, before),
        pairs_within(store, chosen),
    ensures
        pairs_within(store, connected(store, before, q, chosen, base, cap)),
        ascending(store, before) && ascending(store, chosen) ==> ascending(
            store,
            connected(store, before, q, chosen, base, cap),
        ),
        chosen.len() <= cap ==> connected(store, before, q, chosen, base, cap) == before
            || connected(store, before, q, chosen, base, cap).len() <= cap,
{
    lemma_back_links_ordered(store, before, q, chosen, base, cap);
    lemma_back_links_capped(store, before, q, chosen, base, cap);
}

/// Links go both ways at the time of an insertion, unless a list is full.
///
/// When `q` was connected to the neighbours `chosen` in a layer, the list of
/// `q` is `chosen`. And the list of the neighbour at position `i` holds `q`,
/// if the place that the new link took in that list was below `cap`; where the
/// list was full of nearer vectors, the link was cut off again.
pub proof fn lemma_bidirectional<V: VectorStore>(
    store: &V,
    before: Seq<(V::VectorRef, V::DistanceRef)>,
    q: V::VectorRef,
    chosen: Seq<(V::VectorRef, V::DistanceRef)>,
    cap: nat,
    i: int,
)
    requires
        0 <= i < chosen.len(),
        insertion_index(
            store,
            distances_of(back_links(store, before, q, chosen.take(i), chosen[i].0, cap)),
            chosen[i].1,
        ) < cap,
    ensures
        connected(store, before, q, chosen, q, cap) == chosen,
        exists|k: int|
            0 <= k < connected(store, before, q, chosen, chosen[i].0, cap).len() && (
            #[trigger] connected(store, before, q, chosen, chosen[i].0, cap)[k]).0 == q,
{
    let list = connected(store, before, q, chosen, chosen[i].0, cap);
    if chosen[i].0 == q {
        assert(list[i].0 == q);
    } else {
        lemma_linked_back(store, before, q, chosen, cap, i, chosen.len() as int);
        assert(chosen.take(chosen.len() as int) =~= chosen);
        let k = choose|k: int| 0 <= k < list.len() && k < cap && (#[trigger] list[k]).0 == q;
        assert(list[k].0 == q);
    }
}

/// In a graph whose entry point has no neighbours, every search returns the
/// entry point alone, in every layer. So after the first insertion into an
/// empty graph, a search for the inserted query finds its own vector.
pub proof fn lemma_lone_entry_found<V: VectorStore, G: GraphStore<V>>(
    store: &V,
    graph: &G,
    query: V::QueryRef,
    ef: nat,
    lc: nat,
)
    requires
        lawful(store),
        store.has_query(query),
        graph_within(store, graph),
        graph.entry() is Some,
        forall|l: nat| (#[trigger] graph.links(graph.entry().unwrap().vector_ref, l)).len() == 0,
    ensures
        descent(store, graph, query, ef, lc) == entry_list(store, graph, query),
    decreases layer_count_of(graph.entry()) - lc,
{
    if lc < layer_count_of(graph.entry()) {
        lemma_lone_entry_found(store, graph, query, ef, lc + 1);
        let entry_vector = graph.entry().unwrap().vector_ref;
        let kept = entry_list(store, graph, query);
        let distance = store.distance(query, entry_vector);
        let beam = Beam { kept, frontier: kept.reverse(), bound: kept.last().1 };
        let visited = vectors_of(kept).to_set();
        assert(beam.frontier.last() == (entry_vector, distance));
        let found = unvisited(graph.links(entry_vector, lc), visited);
        assert(found.len() == 0);
        let popped = Beam { frontier: beam.frontier.drop_last(), ..beam };
        assert(absorb(store, ef, query, popped, found) == popped);
        assert(popped.frontier.len() == 0);
        assert(explore(store, graph, query, ef, lc, popped, visited.union(found.to_set())) == kept);
        assert(explore(store, graph, query, ef, lc, beam, visited) == kept);
    }
}

/// Whether the nearest neighbour of a beam is a match, and the bound is the
/// distance of the furthest.
pub open spec fn beam_matches<V: VectorStore>(
    store: &V,
    beam: Beam<V::VectorRef, V::DistanceRef>,
) -> bool {
    &&& beam.kept.len() > 0
    &&& store.matching(beam.kept[0].1)
    &&& beam.bound == beam.kept.last().1
}

/// A beam whose nearest neighbour is a match keeps a match in front when it
/// considers a further vector.
pub proof fn lemma_consider_match<V: VectorStore>(
    store: &V,
    ef: nat,
    query: V::QueryRef,
    beam: Beam<V::VectorRef, V::DistanceRef>,
    visited: Set<V::VectorRef>,
    e: V::VectorRef,
)
    requires
        lawful(store),
        matches_are_nearest(store),
        store.has_query(query),
        beam_sound(store, query, beam, visited),
        beam_matches(store, beam),
        store.vectors().contains(e),
    ensures
        beam_matches(store, consider(store, ef, beam, e, store.distance(query, e))),
{
    let eq = store.distance(query, e);
    lemma_faithful_within(store, query, beam.kept);
    if !(beam.kept.len() == ef && !store.closer(eq, beam.bound)) {
        let room = if beam.kept.len() == ef && ef > 0 {
            beam.kept.drop_last()
        } else {
            beam.kept
        };
        let flags = nearer_than(store, distances_of(room), eq);
        let index = insertion_index(store, distances_of(room), eq);
        lemma_bisect_boundary(flags, 0, room.len() as int);
        let kept = ascending_insert(store, room, e, eq);
        if room.len() == 0 {
            // The one neighbour that was kept made room: the new one is nearer.
            assert(beam.bound == beam.kept[0].1);
            lemma_closer_asymmetric(store, eq, beam.kept[0].1);
        } else if index == 0 {
            assert(room[0] == beam.kept[0]);
            assert(!flags[0]);
        } else {
            assert(kept[0] == room[0]);
            assert(room[0] == beam.kept[0]);
        }
    }
}

/// A beam whose nearest neighbour is a match keeps a match in front when it
/// absorbs further vectors.
pub proof fn lemma_absorb_match<V: VectorStore>(
    store: &V,
    ef: nat,
    query: V::QueryRef,
    beam: Beam<V::VectorRef, V::DistanceRef>,
    visited: Set<V::VectorRef>,
    found: Seq<V::VectorRef>,
)
    requires
        lawful(store),
        matches_are_nearest(store),
        store.has_query(query),
        beam_sound(store, query, beam, visited),
        beam_matches(store, beam),
        found.no_duplicates(),
        forall|i: int| 0 <= i < found.len() ==> store.vectors().contains(#[trigger] found[i]),
        forall|i: int| 0 <= i < found.len() ==> !visited.contains(#[trigger] found[i]),
    ensures
        beam_matches(store, absorb(store, ef, query, beam, found)),
    decreases found.len(),
{
    if found.len() > 0 {
        let earlier = found.drop_last();
        lemma_absorb_match(store, ef, query, beam, visited, earlier);
        lemma_absorb_sound(store, ef, query, beam, visited, earlier);
        lemma_consider_match(
            store,
            ef,
            query,
            absorb(store, ef, query, beam, earlier),
            visited.union(earlier.to_set()),
            found.last(),
        );
    }
}

/// An exploration that starts with a match in front ends with one.
pub proof fn lemma_explore_match<V: VectorStore, G: GraphStore<V>>(
    store: &V,
    graph: &G,
    query: V::QueryRef,
    ef: nat,
    lc: nat,
    beam: Beam<V::VectorRef, V::DistanceRef>,
    visited: Set<V::VectorRef>,
)
    requires
        lawful(store),
        matches_are_nearest(store),
        store.has_query(query),
        graph_within(store, graph),
        beam_sound(store, query, beam, visited),
        beam_matches(store, beam),
    ensures
        explore(store, graph, query, ef, lc, beam, visited).len() > 0,
        store.matching(explore(store, graph, query, ef, lc, beam, visited)[0].1),
    decreases unexplored(store, visited), beam.frontier.len(),
{
    if beam.frontier.len() > 0 {
        let nearest = beam.frontier.last();
        if !store.closer(beam.bound, nearest.1) {
            let links = graph.links(nearest.0, lc);
            let found = unvisited(links, visited);
            let popped = Beam { frontier: beam.frontier.drop_last(), ..beam };
            lemma_unvisited(links, visited);
            assert forall|k: int| 0 <= k < found.len() implies store.vectors().contains(
                #[trigger] found[k],
            ) by {
                let j = choose|j: int|
                    0 <= j < vectors_of(links).len() && vectors_of(links)[j] == found[k];
                assert(links[j].0 == found[k]);
            }
            assert(faithful(store, query, popped.frontier)) by {
                assert forall|i: int| 0 <= i < popped.frontier.len() implies (
                #[trigger] popped.frontier[i]) == beam.frontier[i] by {}
            }
            lemma_absorb_sound(store, ef, query, popped, visited, found);
            lemma_absorb_match(store, ef, query, popped, visited, found);
            lemma_step_decreases(store, graph, query, ef, lc, beam, visited);
            lemma_explore_match(
                store,
                graph,
                query,
                ef,
                lc,
                absorb(store, ef, query, popped, found),
                visited.union(found.to_set()),
            );
        }
    }
}

/// A match that a search holds is not lost.
///
/// In a store where nothing is nearer than a match: if the nearest neighbour
/// that a search found in layer `upper` matches the query, so does the
/// nearest neighbour it finds in every layer below. So a query is matched in
/// the bottom layer as soon as its own vector is the entry point, or is the
/// nearest one found in any layer.
pub proof fn lemma_match_is_kept<V: VectorStore, G: GraphStore<V>>(
    store: &V,
    graph: &G,
    query: V::QueryRef,
    ef: nat,
    upper: nat,
    lc: nat,
)
    requires
        lawful(store),
        matches_are_nearest(store),
        store.has_query(query),
        graph_within(store, graph),
        graph.entry() is Some,
        lc <= upper,
        store.matching(descent(store, graph, query, ef, upper)[0].1),
    ensures
        descent(store, graph, query, ef, lc).len() > 0,
        store.matching(descent(store, graph, query, ef, lc)[0].1),
    decreases upper - lc,
{
    lemma_descent_sound(store, graph, query, ef, lc);
    if lc < upper {
        lemma_match_is_kept(store, graph, query, ef, upper, lc + 1);
        if lc < layer_count_of(graph.entry()) {
            let kept = descent(store, graph, query, ef, lc + 1);
            lemma_descent_sound(store, graph, query, ef, lc + 1);
            let beam = Beam { kept, frontier: kept.reverse(), bound: kept.last().1 };
            let visited = vectors_of(kept).to_set();
            assert forall|i: int| 0 <= i < kept.len() implies visited.contains(
                #[trigger] kept[i].0,
            ) by {
                assert(vectors_of(kept)[i] == kept[i].0);
            }
            assert forall|i: int| 0 <= i < beam.frontier.len() implies store.vectors().contains(
                (#[trigger] beam.frontier[i]).0,
            ) && beam.frontier[i].1 == store.distance(query, beam.frontier[i].0) by {
                assert(beam.frontier[i] == kept[kept.len() - 1 - i]);
            }
            lemma_explore_match(store, graph, query, ef, lc, beam, visited);
        }
    }
}

/// A beam that keeps no more than `ef` neighbours keeps no more when it
/// considers another.
pub proof fn lemma_consider_capped<V: VectorStore>(
    store: &V,
    ef: nat,
    beam: Beam<V::VectorRef, V::DistanceRef>,
    e: V::VectorRef,
    eq: V::DistanceRef,
)
    requires
        0 < beam.kept.len() <= ef,
    ensures
        0 < consider(store, ef, beam, e, eq).kept.len() <= ef,
{
    if !(beam.kept.len() == ef && !store.closer(eq, beam.bound)) {
        let room = if beam.kept.len() == ef && ef > 0 {
            beam.kept.drop_last()
        } else {
            beam.kept
        };
        lemma_bisect_boundary(nearer_than(store, distances_of(room), eq), 0, room.len() as int);
    }
}

/// A beam that keeps no more than `ef` neighbours keeps no more when it
/// absorbs others.
pub proof fn lemma_absorb_capped<V: VectorStore>(
    store: &V,
    ef: nat,
    query: V::QueryRef,
    beam: Beam<V::VectorRef, V::DistanceRef>,
    found: Seq<V::VectorRef>,
)
    requires
        0 < beam.kept.len() <= ef,
    ensures
        0 < absorb(store, ef, query, beam, found).kept.len() <= ef,
    decreases found.len(),
{
    if found.len() > 0 {
        lemma_absorb_capped(store, ef, query, beam, found.drop_last());
        lemma_consider_capped(
            store,
            ef,
            absorb(store, ef, query, beam, found.drop_last()),
            found.last(),
            store.distance(query, found.last()),
        );
    }
}

/// An exploration whose beam keeps no more than `ef` neighbours ends with no
/// more than `ef`.
pub proof fn lemma_explore_capped<V: VectorStore, G: GraphStore<V>>(
    store: &V,
    graph: &G,
    query: V::QueryRef,
    ef: nat,
    lc: nat,
    beam: Beam<V::VectorRef, V::DistanceRef>,
    visited: Set<V::VectorRef>,
)
    requires
        store.vectors().finite(),
        graph_within(store, graph),
        0 < beam.kept.len() <= ef,
    ensures
        0 < explore(store, graph, query, ef, lc, beam, visited).len() <= ef,
    decreases unexplored(store, visited), beam.frontier.len(),
{
    if beam.frontier.len() > 0 {
        let nearest = beam.frontier.last();
        if !store.closer(beam.bound, nearest.1) {
            let found = unvisited(graph.links(nearest.0, lc), visited);
            let popped = Beam { frontier: beam.frontier.drop_last(), ..beam };
            lemma_absorb_capped(store, ef, query, popped, found);
            lemma_step_decreases(store, graph, query, ef, lc, beam, visited);
            lemma_explore_capped(
                store,
                graph,
                query,
                ef,
                lc,
                absorb(store, ef, query, popped, found),
                visited.union(found.to_set()),
            );
        }
    }
}

/// A search that keeps at least one neighbour keeps no more than `ef` of them
/// in any layer.
pub proof fn lemma_descent_capped<V: VectorStore, G: GraphStore<V>>(
    store: &V,
    graph: &G,
    query: V::QueryRef,
    ef: nat,
    lc: nat,
)
    requires
        store.vectors().finite(),
        graph_within(store, graph),
        graph.entry() is Some,
        ef >= 1,
    ensures
        0 < descent(store, graph, query, ef, lc).len() <= ef,
    decreases layer_count_of(graph.entry()) - lc,
{
    if lc < layer_count_of(graph.entry()) {
        lemma_descent_capped(store, graph, query, ef, lc + 1);
        let kept = descent(store, graph, query, ef, lc + 1);
        lemma_explore_capped(
            store,
            graph,
            query,
            ef,
            lc,
            Beam { kept, frontier: kept.reverse(), bound: kept.last().1 },
            vectors_of(kept).to_set(),
        );
    }
}

} // verus!
