use hawk_pack::examples::lazy_memory_store::LazyMemoryStore;
use hawk_pack::hnsw_db::{FurthestQueue, NearestQueue};
use hawk_pack::mock_store::MockVectorStore;
use hawk_pack::VectorStore;

#[test]
fn test_furthest_queue() {
    let mut store = LazyMemoryStore::new();
    let query = store.prepare_query(1);
    let vector = store.insert(&query);
    let distance = store.eval_distance(&query, &vector);

    // Example usage for FurthestQueue
    let mut furthest_queue = FurthestQueue::new();
    furthest_queue.insert(&store, vector, distance);
    println!("{:?}", furthest_queue.get_furthest());
    println!("{:?}", furthest_queue.get_k_nearest(1));
    println!("{:?}", furthest_queue.pop_furthest());

    // Example usage for NearestQueue
    let mut nearest_queue = NearestQueue::from_furthest_queue(&furthest_queue);
    nearest_queue.insert(&store, vector, distance);
    println!("{:?}", nearest_queue.get_nearest());
    println!("{:?}", nearest_queue.pop_nearest());
}

#[test]
fn furthest_queue_keeps_ascending_order() {
    let store = MockVectorStore::new();
    let mut queue = FurthestQueue::new();
    for (vector, distance) in [(10usize, 5u32), (11, 1), (12, 9), (13, 3), (14, 7)] {
        queue.insert(&store, vector, distance);
    }
    assert_eq!(queue.len(), 5);
    assert_eq!(&queue[..], &[(11, 1), (13, 3), (10, 5), (14, 7), (12, 9)]);
    assert_eq!(queue.get_nearest(), Some(&(11, 1)));
    assert_eq!(queue.get_furthest(), Some(&(12, 9)));
    assert_eq!(queue.get(2), (10, 5));
    assert_eq!(queue.get_k_nearest(2), &[(11, 1), (13, 3)]);
    assert_eq!(queue.get_k_nearest(0), &[]);
}

#[test]
fn furthest_queue_puts_a_tie_before_its_equals() {
    let store = MockVectorStore::new();
    let mut queue = FurthestQueue::from_ascending_vec(vec![(0usize, 1u32), (1, 4), (2, 4), (3, 6)]);
    queue.insert(&store, 9, 4);
    assert_eq!(Vec::from(queue), vec![(0, 1), (9, 4), (1, 4), (2, 4), (3, 6)]);
}

#[test]
fn furthest_queue_pops_and_trims_at_the_far_end() {
    let mut queue = FurthestQueue::from_ascending_vec(vec![(0usize, 1u32), (1, 2), (2, 3), (3, 4)]);
    assert_eq!(queue.pop_furthest(), Some((3, 4)));
    assert_eq!(&queue[..], &[(0, 1), (1, 2), (2, 3)]);
    queue.trim_to_k_nearest(5);
    assert_eq!(&queue[..], &[(0, 1), (1, 2), (2, 3)]);
    queue.trim_to_k_nearest(3);
    assert_eq!(&queue[..], &[(0, 1), (1, 2), (2, 3)]);
    queue.trim_to_k_nearest(1);
    assert_eq!(&queue[..], &[(0, 1)]);
    queue.trim_to_k_nearest(0);
    assert!(queue.is_empty());
    assert_eq!(queue.pop_furthest(), None);
    assert_eq!(queue.get_nearest(), None);
    assert_eq!(queue.get_furthest(), None);
}

#[test]
fn furthest_queue_clone_is_equal() {
    let queue = FurthestQueue::from_ascending_vec(vec![(0usize, 1u32), (1, 2)]);
    let copy = queue.clone();
    assert_eq!(queue, copy);
    assert_eq!(*queue, *copy);
}

#[test]
fn empty_furthest_queue_takes_its_first_element() {
    let store = MockVectorStore::new();
    let mut queue: FurthestQueue<usize, u32> = FurthestQueue::new();
    assert_eq!(queue.len(), 0);
    queue.insert(&store, 3, 8);
    assert_eq!(&queue[..], &[(3, 8)]);
}

#[test]
fn nearest_queue_is_the_furthest_queue_reversed() {
    let furthest = FurthestQueue::from_ascending_vec(vec![(0usize, 1u32), (1, 2), (2, 3)]);
    let nearest = NearestQueue::from_furthest_queue(&furthest);
    assert_eq!(&nearest[..], &[(2, 3), (1, 2), (0, 1)]);
    assert_eq!(nearest.len(), 3);
    assert_eq!(nearest.get_nearest(), Some(&(0, 1)));
    let copy = nearest.clone();
    assert_eq!(nearest, copy);
}

#[test]
fn nearest_queue_keeps_descending_order() {
    let store = MockVectorStore::new();
    let empty: FurthestQueue<usize, u32> = FurthestQueue::new();
    let mut queue = NearestQueue::from_furthest_queue(&empty);
    for (vector, distance) in [(10usize, 5u32), (11, 1), (12, 9), (13, 3), (14, 7)] {
        queue.insert(&store, vector, distance);
    }
    assert_eq!(&queue[..], &[(12, 9), (14, 7), (10, 5), (13, 3), (11, 1)]);
    assert_eq!(queue.pop_nearest(), Some((11, 1)));
    assert_eq!(queue.pop_nearest(), Some((13, 3)));
    assert_eq!(&queue[..], &[(12, 9), (14, 7), (10, 5)]);
}

#[test]
fn nearest_queue_puts_a_tie_behind_its_equals() {
    let store = MockVectorStore::new();
    let furthest = FurthestQueue::from_ascending_vec(vec![(0usize, 1u32), (1, 4), (2, 4), (3, 6)]);
    let mut queue = NearestQueue::from_furthest_queue(&furthest);
    queue.insert(&store, 9, 4);
    // Read backwards this is the furthest queue after the same insertion.
    assert_eq!(&queue[..], &[(3, 6), (2, 4), (1, 4), (9, 4), (0, 1)]);
    let mut mirror = furthest.clone();
    mirror.insert(&store, 9, 4);
    let mut backwards = Vec::from(mirror);
    backwards.reverse();
    assert_eq!(&queue[..], &backwards[..]);
}

#[test]
fn empty_nearest_queue_pops_nothing() {
    let empty: FurthestQueue<usize, u32> = FurthestQueue::new();
    let mut queue = NearestQueue::from_furthest_queue(&empty);
    assert_eq!(queue.pop_nearest(), None);
    assert_eq!(queue.get_nearest(), None);
}
