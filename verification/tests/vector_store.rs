use hawk_pack::examples::lazy_memory_store::{LazyMemoryStore, PointPair};
use hawk_pack::hamming::hamming;
use hawk_pack::mock_store::{Code, MockVectorStore};
use hawk_pack::VectorStore;

#[test]
fn lazy_memory_store_test_eval_distance() {
    let mut store = LazyMemoryStore::new();

    let query = store.prepare_query(11);
    let vector = store.insert(&query);
    let distance = store.eval_distance(&query, &vector);
    assert!(store.is_match(&distance));

    let other_query = store.prepare_query(22);
    let other_vector = store.insert(&other_query);
    let other_distance = store.eval_distance(&query, &other_vector);
    assert!(!store.is_match(&other_distance));
}

#[test]
fn lazy_store_keeps_the_id_of_a_query() {
    let mut store = LazyMemoryStore::new();
    let first = store.prepare_query(0b1010);
    let second = store.prepare_query(0b0110);
    assert_eq!(first, 0);
    assert_eq!(second, 1);
    assert_eq!(store.insert(&second), second);
    assert_eq!(store.eval_distance(&first, &second), PointPair(0, 1));
}

#[test]
fn lazy_store_orders_by_hamming_distance() {
    let mut store = LazyMemoryStore::new();
    let a = store.prepare_query(0b0000);
    let b = store.prepare_query(0b0001);
    let c = store.prepare_query(0b0111);
    let near = PointPair(a, b);
    let far = PointPair(a, c);
    assert!(store.less_than(&near, &far));
    assert!(!store.less_than(&far, &near));
    assert!(!store.less_than(&near, &near));
    assert!(!store.is_match(&near));
    assert!(store.is_match(&PointPair(c, c)));
}

#[test]
fn hamming_counts_the_bits_that_differ() {
    assert_eq!(hamming(0, 0), 0);
    assert_eq!(hamming(0b1011, 0), 3);
    assert_eq!(hamming(0b1011, 0b0001), 2);
    assert_eq!(hamming(u64::MAX, 0), 64);
    assert_eq!(hamming(1 << 63, 1), 2);
}

#[test]
fn mock_store_gives_ids_in_order_and_compares_numbers() {
    let mut store = MockVectorStore::new();
    assert_eq!(store.insert(&0b1100), 0);
    assert_eq!(store.insert(&0b1111), 1);
    assert_eq!(store.eval_distance(&0b1100, &0), 0);
    assert_eq!(store.eval_distance(&0b1100, &1), 2);
    assert_eq!(store.eval_distance(&0, &1), 4);
    assert!(store.is_match(&0));
    assert!(!store.is_match(&1));
    assert!(store.less_than(&1, &2));
    assert!(!store.less_than(&2, &2));
    assert!(!store.less_than(&3, &2));
}

#[test]
fn mock_store_reads_a_code_lowest_byte_first() {
    let mut store = MockVectorStore::new();
    assert_eq!(store.prepare_query(&Code(vec![])), 0);
    assert_eq!(store.prepare_query(&Code(vec![7])), 7);
    assert_eq!(store.prepare_query(&Code(vec![1, 2])), 513);
    assert_eq!(
        store.prepare_query(&Code(vec![0x88, 0x77, 0x66, 0x55, 0x44, 0x33, 0x22, 0x11])),
        0x1122334455667788
    );
    assert_eq!(store.prepare_query(&Code(vec![255; 8])), u64::MAX);
}

#[test]
fn search_sorted_finds_the_place_before_the_first_that_is_not_nearer() {
    let store = MockVectorStore::new();
    let distances = [1u32, 3, 3, 5, 8];
    assert_eq!(store.search_sorted(&distances, &0), 0);
    assert_eq!(store.search_sorted(&distances, &1), 0);
    assert_eq!(store.search_sorted(&distances, &2), 1);
    assert_eq!(store.search_sorted(&distances, &3), 1);
    assert_eq!(store.search_sorted(&distances, &4), 3);
    assert_eq!(store.search_sorted(&distances, &8), 4);
    assert_eq!(store.search_sorted(&distances, &9), 5);
    assert_eq!(store.search_sorted(&[], &9), 0);
}

#[test]
fn search_sorted_halves_a_list_that_is_out_of_order() {
    let store = MockVectorStore::new();
    // The middle, 9, is not nearer than 4, so the search goes left of it.
    assert_eq!(store.search_sorted(&[1, 2, 9, 0, 0], &4), 2);
    // The middle, 1, is nearer than 4: the search goes right, past the 9.
    assert_eq!(store.search_sorted(&[9, 9, 1, 9, 9], &4), 3);
}

#[test]
fn batches_are_the_single_calls_in_order() {
    let mut store = MockVectorStore::new();
    let vectors = store.insert_batch(&[0b0001, 0b0011, 0b0111]);
    assert_eq!(vectors, vec![0, 1, 2]);
    assert_eq!(store.eval_distance_batch(&0b0000, &vectors), vec![1, 2, 3]);
    assert_eq!(store.eval_distance_batch(&0b0111, &[2, 0]), vec![0, 2]);
    assert_eq!(store.eval_distance_batch(&0b0111, &[]), Vec::<u32>::new());
    assert_eq!(store.less_than_batch(&2, &[1, 2, 3]), vec![false, false, true]);
    assert_eq!(store.insert_batch(&[]), Vec::<usize>::new());
}
