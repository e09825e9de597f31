use aes_prng::AesRng;
use hawk_pack::examples::lazy_memory_store::LazyMemoryStore;
use hawk_pack::graph_store::graph_mem::GraphMem;
use hawk_pack::hnsw_db::HawkSearcher;
use hawk_pack::mock_store::MockVectorStore;
use hawk_pack::{GraphStore, VectorStore};
use rand::{Rng, SeedableRng};

/// The layer of a new vector: a draw `r` from (0, 1) gives `floor(-ln(r) * m_L)`.
fn select_layer(rng: &mut AesRng, m_l: f64) -> usize {
    let random = rng.gen::<f64>();
    (-random.ln() * m_l) as usize
}

/// The random source of a searcher, reseeded from a source with the given seed.
fn searcher_rng(seed: u64) -> AesRng {
    let mut source = AesRng::seed_from_u64(seed);
    AesRng::from_rng(&mut source).unwrap()
}

#[test]
fn hnsw_db_test_hnsw_db() {
    let vector_store = LazyMemoryStore::new();
    let graph_store = GraphMem::new();
    let mut rng = searcher_rng(0);
    let mut db = HawkSearcher::new(vector_store, graph_store);

    let queries = (0..100)
        .map(|raw_query| db.vector_store.prepare_query(raw_query))
        .collect::<Vec<_>>();

    // Insert the codes.
    for query in queries.iter() {
        let neighbors = db.search_to_insert(query);
        assert!(!db.is_match(&neighbors));
        // Insert the new vector into the store.
        let inserted = db.vector_store.insert(query);
        let level = select_layer(&mut rng, 0.3);
        db.insert_from_search_results(inserted, neighbors, level);
    }

    // Search for the same codes and find matches.
    for query in queries.iter() {
        let neighbors = db.search_to_insert(query);
        assert!(db.is_match(&neighbors));
    }
}

#[test]
fn empty_search_finds_nothing() {
    let mut db = HawkSearcher::new(LazyMemoryStore::new(), GraphMem::new());
    let query = db.vector_store.prepare_query(0);
    let neighbors = db.search_to_insert(&query);
    assert!(neighbors.is_empty());
    assert!(!db.is_match(&neighbors));
}

#[test]
fn inserted_value_matches_itself_and_no_other() {
    let mut db = HawkSearcher::new(LazyMemoryStore::new(), GraphMem::new());
    let mut rng = searcher_rng(0);

    let first = db.vector_store.prepare_query(11);
    let neighbors = db.search_to_insert(&first);
    let inserted = db.vector_store.insert(&first);
    db.insert_from_search_results(inserted, neighbors, select_layer(&mut rng, 0.3));
    let again = db.vector_store.prepare_query(11);
    let neighbors = db.search_to_insert(&again);
    assert!(db.is_match(&neighbors));

    let second = db.vector_store.prepare_query(12);
    let neighbors = db.search_to_insert(&second);
    let inserted = db.vector_store.insert(&second);
    db.insert_from_search_results(inserted, neighbors, select_layer(&mut rng, 0.3));
    let other = db.vector_store.prepare_query(22);
    let neighbors = db.search_to_insert(&other);
    assert!(!db.is_match(&neighbors));
}

#[test]
fn ten_values_are_found_after_insertion_only() {
    let mut db = HawkSearcher::new(MockVectorStore::new(), GraphMem::new());
    let mut rng = searcher_rng(0);
    let queries: Vec<u64> = (0..10).collect();
    for query in queries.iter() {
        let neighbors = db.search_to_insert(query);
        assert!(!db.is_match(&neighbors));
        let inserted = db.vector_store.insert(query);
        db.insert_from_search_results(inserted, neighbors, select_layer(&mut rng, 0.3));
    }
    for query in queries.iter() {
        let neighbors = db.search_to_insert(query);
        assert!(db.is_match(&neighbors));
    }
}

#[test]
fn entry_point_only_rises() {
    let mut db = HawkSearcher::new(LazyMemoryStore::new(), GraphMem::new());
    let mut rng = searcher_rng(0);
    let mut last = 0;
    for raw_query in 0..100 {
        let query = db.vector_store.prepare_query(raw_query);
        let neighbors = db.search_to_insert(&query);
        let inserted = db.vector_store.insert(&query);
        db.insert_from_search_results(inserted, neighbors, select_layer(&mut rng, 0.3));
        let layer_count = db.graph_store.get_entry_point().unwrap().layer_count;
        assert!(layer_count >= 1);
        assert!(layer_count >= last);
        last = layer_count;
    }
}

#[test]
fn search_returns_one_queue_per_layer_bottom_first() {
    let mut db = HawkSearcher::new(MockVectorStore::new(), GraphMem::new());
    // 0b0000 goes up to layer 2, the others stay in layer 0.
    let levels = [2, 0, 0, 0];
    let values: [u64; 4] = [0b0000, 0b0001, 0b0011, 0b0111];
    for (value, level) in values.iter().zip(levels.iter()) {
        let neighbors = db.search_to_insert(value);
        let inserted = db.vector_store.insert(value);
        db.insert_from_search_results(inserted, neighbors, *level);
    }
    assert_eq!(db.graph_store.get_entry_point().unwrap().layer_count, 3);
    assert_eq!(db.graph_store.get_entry_point().unwrap().vector_ref, 0);

    let found = db.search_to_insert(&0b0111);
    assert_eq!(found.len(), 3);
    // The upper layers hold the entry point alone, at distance 3.
    assert_eq!(Vec::from(found[2].clone()), vec![(0, 3)]);
    assert_eq!(Vec::from(found[1].clone()), vec![(0, 3)]);
    // The bottom layer holds all four, nearest first.
    assert_eq!(Vec::from(found[0].clone()), vec![(3, 0), (2, 1), (1, 2), (0, 3)]);
    assert!(db.is_match(&found));
}

#[test]
fn new_vector_above_all_layers_becomes_entry_point() {
    let mut db = HawkSearcher::new(MockVectorStore::new(), GraphMem::new());
    let neighbors = db.search_to_insert(&5);
    let first = db.vector_store.insert(&5);
    db.insert_from_search_results(first, neighbors, 0);
    assert_eq!(db.graph_store.get_entry_point().unwrap().vector_ref, first);
    assert_eq!(db.graph_store.get_entry_point().unwrap().layer_count, 1);

    // A vector on the same level does not take the entry point over.
    let neighbors = db.search_to_insert(&6);
    let second = db.vector_store.insert(&6);
    db.insert_from_search_results(second, neighbors, 0);
    assert_eq!(db.graph_store.get_entry_point().unwrap().vector_ref, first);
    assert_eq!(db.graph_store.get_entry_point().unwrap().layer_count, 1);

    // One a level higher does.
    let neighbors = db.search_to_insert(&7);
    let third = db.vector_store.insert(&7);
    db.insert_from_search_results(third, neighbors, 1);
    assert_eq!(db.graph_store.get_entry_point().unwrap().vector_ref, third);
    assert_eq!(db.graph_store.get_entry_point().unwrap().layer_count, 2);
}

#[test]
fn links_go_both_ways_after_insertion() {
    let mut db = HawkSearcher::new(MockVectorStore::new(), GraphMem::new());
    for value in [0b0000u64, 0b0001, 0b0011] {
        let neighbors = db.search_to_insert(&value);
        let inserted = db.vector_store.insert(&value);
        db.insert_from_search_results(inserted, neighbors, 0);
    }
    let value = 0b0111u64;
    let neighbors = db.search_to_insert(&value);
    let chosen = Vec::from(neighbors[0].clone());
    let inserted = db.vector_store.insert(&value);
    db.insert_from_search_results(inserted, neighbors, 0);

    assert_eq!(Vec::from(db.graph_store.get_links(&inserted, 0)), chosen);
    for (neighbor, distance) in chosen.iter() {
        let back = Vec::from(db.graph_store.get_links(neighbor, 0));
        assert!(back.contains(&(inserted, *distance)));
    }
}

#[test]
fn is_match_is_false_without_layers_or_neighbors() {
    let db = HawkSearcher::new(MockVectorStore::new(), GraphMem::new());
    assert!(!db.is_match(&[]));
    assert!(!db.is_match(&[hawk_pack::hnsw_db::FurthestQueue::new()]));
    assert!(db.is_match(&[hawk_pack::hnsw_db::FurthestQueue::from_ascending_vec(vec![(0, 0), (1, 4)])]));
    assert!(!db.is_match(&[hawk_pack::hnsw_db::FurthestQueue::from_ascending_vec(vec![(0, 1), (1, 4)])]));
}

#[test]
fn a_search_can_miss_a_vector_among_many() {
    // The index is approximate: among 736 multiples of three, all in the
    // bottom layer, the greedy search for 1365 ends without reaching it.
    let mut db = HawkSearcher::new(MockVectorStore::new(), GraphMem::new());
    let mut position = None;
    for i in 0..736u64 {
        let value = (i + 1) * 3;
        let neighbors = db.search_to_insert(&value);
        let inserted = db.vector_store.insert(&value);
        if value == 1365 {
            position = Some(inserted);
        }
        db.insert_from_search_results(inserted, neighbors, 0);
    }
    let position = position.unwrap();
    assert_eq!(db.vector_store.eval_distance(&1365, &position), 0);
    let found = db.search_to_insert(&1365);
    assert!(!db.is_match(&found));
    // A value that was inserted a moment ago is still found.
    let found = db.search_to_insert(&(736 * 3));
    assert!(db.is_match(&found));
}

#[test]
fn a_query_whose_vector_is_the_entry_point_is_matched() {
    let mut db = HawkSearcher::new(MockVectorStore::new(), GraphMem::new());
    for (value, level) in [(0b0001u64, 0usize), (0b0010, 1), (0b0100, 0), (0b1000, 3), (0b1001, 0)] {
        let neighbors = db.search_to_insert(&value);
        let inserted = db.vector_store.insert(&value);
        db.insert_from_search_results(inserted, neighbors, level);
    }
    assert_eq!(db.graph_store.get_entry_point().unwrap().vector_ref, 3);
    let found = db.search_to_insert(&0b1000);
    assert_eq!(found.len(), 4);
    for layer in found.iter() {
        assert_eq!(layer.get_nearest(), Some(&(3, 0)));
    }
    assert!(db.is_match(&found));
}

#[test]
fn a_neighbor_with_a_full_list_drops_the_link_back() {
    // With the standard sizes a vector has room for 32 neighbours. The 36th
    // multiple of three chooses the 6th as a neighbour, whose list is full of
    // nearer vectors by then.
    let mut db = HawkSearcher::new(MockVectorStore::new(), GraphMem::new());
    for i in 0..35u64 {
        let value = (i + 1) * 3;
        let neighbors = db.search_to_insert(&value);
        let inserted = db.vector_store.insert(&value);
        db.insert_from_search_results(inserted, neighbors, 0);
    }
    let value = 36 * 3;
    let neighbors = db.search_to_insert(&value);
    let chosen = Vec::from(neighbors[0].clone());
    let inserted = db.vector_store.insert(&value);
    db.insert_from_search_results(inserted, neighbors, 0);
    assert_eq!(inserted, 35);

    let forward = Vec::from(db.graph_store.get_links(&inserted, 0));
    assert_eq!(forward.len(), 32);
    assert_eq!(forward[..], chosen[..32]);
    assert!(forward.iter().any(|(neighbor, _)| *neighbor == 5));
    let back = Vec::from(db.graph_store.get_links(&5, 0));
    assert_eq!(back.len(), 32);
    assert!(!back.iter().any(|(neighbor, _)| *neighbor == inserted));
}
