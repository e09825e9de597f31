use hawk_pack::graph_store::graph_mem::GraphMem;
use hawk_pack::graph_store::schema::{sanitize_identifier, sql_switch_schema, SchemaError};
use hawk_pack::graph_store::EntryPoint;
use hawk_pack::hnsw_db::layer::Layer;
use hawk_pack::hnsw_db::FurthestQueue;
use hawk_pack::examples::lazy_memory_store::LazyMemoryStore;
use hawk_pack::mock_store::MockVectorStore;
use hawk_pack::GraphStore;

#[test]
fn new_graph_has_no_entry_point() {
    let graph = GraphMem::<MockVectorStore>::new();
    assert_eq!(graph.get_entry_point(), None);
}

#[test]
fn entry_point_is_replaced_by_a_higher_one() {
    let mut graph = GraphMem::<MockVectorStore>::new();
    graph.set_entry_point(EntryPoint { vector_ref: 4, layer_count: 1 });
    assert_eq!(graph.get_entry_point(), Some(EntryPoint { vector_ref: 4, layer_count: 1 }));
    graph.set_entry_point(EntryPoint { vector_ref: 7, layer_count: 3 });
    assert_eq!(graph.get_entry_point(), Some(EntryPoint { vector_ref: 7, layer_count: 3 }));
    // The layers up to the entry point are there, and empty.
    for lc in 0..3 {
        assert!(graph.get_links(&4, lc).is_empty());
    }
}

#[test]
fn links_are_kept_per_vector_and_layer() {
    let mut graph = GraphMem::<MockVectorStore>::new();
    graph.set_entry_point(EntryPoint { vector_ref: 0, layer_count: 2 });
    let bottom = FurthestQueue::from_ascending_vec(vec![(1usize, 1u32), (2, 5)]);
    let upper = FurthestQueue::from_ascending_vec(vec![(3usize, 2u32)]);
    graph.set_links(0, bottom.clone(), 0);
    graph.set_links(0, upper.clone(), 1);
    assert_eq!(graph.get_links(&0, 0), bottom);
    assert_eq!(graph.get_links(&0, 1), upper);
    // A vector without links has the empty list.
    assert!(graph.get_links(&1, 0).is_empty());
    // Setting links again replaces them.
    graph.set_links(0, upper.clone(), 0);
    assert_eq!(graph.get_links(&0, 0), upper);
    // A later entry point leaves the links alone.
    graph.set_entry_point(EntryPoint { vector_ref: 5, layer_count: 4 });
    assert_eq!(graph.get_links(&0, 0), upper);
    assert_eq!(graph.get_links(&0, 1), upper);
    assert!(graph.get_links(&0, 3).is_empty());
}

#[test]
fn graph_converts_to_another_store_with_the_same_references() {
    let mut graph = GraphMem::<LazyMemoryStore>::new();
    graph.set_entry_point(EntryPoint { vector_ref: 2, layer_count: 2 });
    let links = FurthestQueue::from_ascending_vec(vec![(
        1usize,
        hawk_pack::examples::lazy_memory_store::PointPair(0, 1),
    )]);
    graph.set_links(2, links.clone(), 1);
    let converted: GraphMem<LazyMemoryStore> = GraphMem::from_another(graph);
    assert_eq!(converted.get_entry_point(), Some(EntryPoint { vector_ref: 2, layer_count: 2 }));
    assert_eq!(converted.get_links(&2, 1), links);
    assert!(converted.get_links(&2, 0).is_empty());
}

#[test]
fn layer_connects_and_trims() {
    let mut store = MockVectorStore::new();
    let mut layer = Layer::<MockVectorStore>::new();
    assert!(layer.get_neighbors(&0).is_none());
    layer.connect(&mut store, 0, 1, 5, 2);
    layer.connect(&mut store, 0, 2, 3, 2);
    assert_eq!(&layer.get_neighbors(&0).unwrap()[..], &[(2, 3), (1, 5)]);
    // A third neighbour in the middle pushes the furthest out.
    layer.connect(&mut store, 0, 3, 4, 2);
    assert_eq!(&layer.get_neighbors(&0).unwrap()[..], &[(2, 3), (3, 4)]);
    // One beyond the limit does not stay.
    layer.connect(&mut store, 0, 4, 9, 2);
    assert_eq!(&layer.get_neighbors(&0).unwrap()[..], &[(2, 3), (3, 4)]);
    layer.set_neighbors(7, FurthestQueue::from_ascending_vec(vec![(0, 1)]));
    assert_eq!(&layer.get_neighbors(&7).unwrap()[..], &[(0, 1)]);
    assert!(layer.get_neighbors(&1).is_none());
}

#[test]
fn identifiers_are_letters_digits_and_underscores() {
    assert_eq!(sanitize_identifier("hawk_test_123"), Ok(()));
    assert_eq!(sanitize_identifier(""), Ok(()));
    assert_eq!(sanitize_identifier("Grüße_7"), Ok(()));
    assert_eq!(sanitize_identifier("a b"), Err(SchemaError::InvalidIdentifier));
    assert_eq!(sanitize_identifier("a\"; DROP"), Err(SchemaError::InvalidIdentifier));
    assert_eq!(sanitize_identifier("a-b"), Err(SchemaError::InvalidIdentifier));
    assert_eq!(SchemaError::InvalidIdentifier.message(), "Invalid SQL identifier");
}

#[test]
fn switch_schema_names_the_schema_twice() {
    assert_eq!(
        sql_switch_schema("hawk_1"),
        Ok("\n        CREATE SCHEMA IF NOT EXISTS \"hawk_1\";\n        SET search_path TO \"hawk_1\";\n        ".to_string())
    );
    assert_eq!(sql_switch_schema("hawk 1"), Err(SchemaError::InvalidIdentifier));
}
