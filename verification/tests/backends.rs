use aes_prng::AesRng;
use hawk_pack::graph_store::graph_mem::GraphMem;
use hawk_pack::graph_store::EntryPoint;
use hawk_pack::hamming::hamming;
use hawk_pack::hnsw_db::{FurthestQueue, HawkSearcher};
use hawk_pack::mock_store::MockVectorStore;
use hawk_pack::{GraphStore, VectorStore};
use rand::{Rng, SeedableRng};
use std::cell::RefCell;
use std::collections::HashSet;

/// A call that a searcher made to one of its stores.
#[derive(Clone, Debug, PartialEq, Eq)]
enum Call {
    EvalDistance(u64, usize),
    LessThan(u32, u32),
    IsMatch(u32),
    GetEntryPoint,
    SetEntryPoint(usize, usize),
    GetLinks(usize, usize),
    SetLinks(usize, Vec<(usize, u32)>, usize),
}

/// A Hamming store that writes down what it is asked.
#[derive(Clone, Debug)]
struct RecordingStore {
    vectors: Vec<u64>,
    calls: RefCell<Vec<Call>>,
}

impl RecordingStore {
    fn new() -> Self {
        RecordingStore { vectors: vec![], calls: RefCell::new(vec![]) }
    }
}

impl VectorStore for RecordingStore {
    type QueryRef = u64;
    type VectorRef = usize;
    type DistanceRef = u32;

    fn insert(&mut self, query: &u64) -> usize {
        self.vectors.push(*query);
        self.vectors.len() - 1
    }

    fn eval_distance(&self, query: &u64, vector: &usize) -> u32 {
        self.calls.borrow_mut().push(Call::EvalDistance(*query, *vector));
        hamming(*query, self.vectors[*vector])
    }

    fn is_match(&self, distance: &u32) -> bool {
        self.calls.borrow_mut().push(Call::IsMatch(*distance));
        *distance == 0
    }

    fn less_than(&self, distance1: &u32, distance2: &u32) -> bool {
        self.calls.borrow_mut().push(Call::LessThan(*distance1, *distance2));
        distance1 < distance2
    }
}

/// A graph in memory that writes down what it is asked.
struct RecordingGraph {
    graph: GraphMem<RecordingStore>,
    calls: RefCell<Vec<Call>>,
}

impl RecordingGraph {
    fn new() -> Self {
        RecordingGraph { graph: GraphMem::new(), calls: RefCell::new(vec![]) }
    }
}

impl GraphStore<RecordingStore> for RecordingGraph {
    fn get_entry_point(&self) -> Option<EntryPoint<usize>> {
        self.calls.borrow_mut().push(Call::GetEntryPoint);
        self.graph.get_entry_point()
    }

    fn set_entry_point(&mut self, entry_point: EntryPoint<usize>) {
        self.calls
            .borrow_mut()
            .push(Call::SetEntryPoint(entry_point.vector_ref, entry_point.layer_count));
        self.graph.set_entry_point(entry_point)
    }

    fn get_links(&self, base: &usize, lc: usize) -> FurthestQueue<usize, u32> {
        self.calls.borrow_mut().push(Call::GetLinks(*base, lc));
        self.graph.get_links(base, lc)
    }

    fn set_links(&mut self, base: usize, links: FurthestQueue<usize, u32>, lc: usize) {
        self.calls.borrow_mut().push(Call::SetLinks(base, links.to_vec(), lc));
        self.graph.set_links(base, links, lc)
    }
}

fn select_layer(rng: &mut AesRng, m_l: f64) -> usize {
    let random = rng.gen::<f64>();
    (-random.ln() * m_l) as usize
}

fn searcher_rng(seed: u64) -> AesRng {
    let mut source = AesRng::seed_from_u64(seed);
    AesRng::from_rng(&mut source).unwrap()
}

/// Insert the values `0..count` with the levels that the seed gives, and
/// return the searcher.
fn filled(count: u64, seed: u64) -> HawkSearcher<RecordingStore, RecordingGraph> {
    let mut db = HawkSearcher::new(RecordingStore::new(), RecordingGraph::new());
    let mut rng = searcher_rng(seed);
    for query in 0..count {
        let neighbors = db.search_to_insert(&query);
        let inserted = db.vector_store.insert(&query);
        db.insert_from_search_results(inserted, neighbors, select_layer(&mut rng, 0.3));
    }
    db
}

#[test]
fn no_stored_list_is_longer_than_its_layer_allows() {
    let db = filled(1000, 0);
    let mut stored = 0;
    for call in db.graph_store.calls.borrow().iter() {
        if let Call::SetLinks(_, links, lc) = call {
            stored += 1;
            if *lc == 0 {
                assert!(links.len() <= db.params.Mmax0);
            } else {
                assert!(links.len() <= db.params.Mmax);
            }
        }
    }
    assert!(stored >= 1000);
}

#[test]
fn every_stored_and_returned_list_ascends() {
    let db = filled(200, 0);
    for call in db.graph_store.calls.borrow().iter() {
        if let Call::SetLinks(_, links, _) = call {
            assert!(links.windows(2).all(|pair| pair[0].1 <= pair[1].1));
        }
    }
    for query in 0..200u64 {
        for layer in db.search_to_insert(&query).iter() {
            assert!(layer.windows(2).all(|pair| pair[0].1 <= pair[1].1));
            assert!(!layer.is_empty());
            assert!(layer.len() <= db.params.ef);
            let vectors: HashSet<usize> = layer.iter().map(|pair| pair.0).collect();
            assert_eq!(vectors.len(), layer.len());
            for (vector, distance) in layer.iter() {
                assert_eq!(*distance, hamming(query, db.vector_store.vectors[*vector]));
            }
        }
    }
}

#[test]
fn a_layer_search_asks_for_each_distance_once() {
    let db = filled(300, 0);
    for query in [0u64, 17, 255, 299, 1000, 4095] {
        let (mut nearest, layer_count) = db.search_init(&query);
        for lc in (0..layer_count).rev() {
            let at_start: HashSet<usize> = nearest.iter().map(|pair| pair.0).collect();
            db.vector_store.calls.borrow_mut().clear();
            db.search_layer(&query, &mut nearest, db.params.ef, lc);
            let mut asked = HashSet::new();
            for call in db.vector_store.calls.borrow().iter() {
                if let Call::EvalDistance(q, vector) = call {
                    assert_eq!(*q, query);
                    assert!(!at_start.contains(vector));
                    assert!(asked.insert(*vector));
                }
            }
            if lc == 0 {
                assert!(!asked.is_empty());
            }
        }
    }
}

#[test]
fn equal_runs_make_equal_calls() {
    let first = filled(120, 7);
    let second = filled(120, 7);
    assert!(!first.vector_store.calls.borrow().is_empty());
    assert_eq!(*first.vector_store.calls.borrow(), *second.vector_store.calls.borrow());
    assert_eq!(*first.graph_store.calls.borrow(), *second.graph_store.calls.borrow());
    assert_eq!(first.vector_store.vectors, second.vector_store.vectors);
}

#[test]
fn search_reads_and_does_not_write() {
    let db = filled(50, 0);
    db.graph_store.calls.borrow_mut().clear();
    let found = db.search_to_insert(&25);
    assert!(db.is_match(&found));
    for call in db.graph_store.calls.borrow().iter() {
        assert!(matches!(call, Call::GetEntryPoint | Call::GetLinks(_, _)));
    }
}

#[test]
fn a_full_list_of_nearer_neighbors_cuts_the_back_link_off() {
    let mut db = HawkSearcher::new(MockVectorStore::new(), GraphMem::new());
    db.params.M = 1;
    db.params.Mmax = 1;
    db.params.Mmax0 = 1;
    for value in [0b000u64, 0b001, 0b111] {
        let neighbors = db.search_to_insert(&value);
        let inserted = db.vector_store.insert(&value);
        db.insert_from_search_results(inserted, neighbors, 0);
    }
    // The last vector chose the second as its neighbour ...
    assert_eq!(&db.graph_store.get_links(&2, 0)[..], &[(1, 2)]);
    // ... whose one place was taken by a nearer vector.
    assert_eq!(&db.graph_store.get_links(&1, 0)[..], &[(0, 1)]);
    assert_eq!(&db.graph_store.get_links(&0, 0)[..], &[(1, 1)]);
}

#[test]
fn a_full_beam_gives_up_its_furthest_for_a_nearer_neighbor() {
    let mut db = HawkSearcher::new(MockVectorStore::new(), GraphMem::new());
    for value in [0b0000u64, 0b0001, 0b0011, 0b0111, 0b1111] {
        let neighbors = db.search_to_insert(&value);
        let inserted = db.vector_store.insert(&value);
        db.insert_from_search_results(inserted, neighbors, 0);
    }
    // With room for two, the search from the entry point 0b0000 for 0b1111
    // walks along the chain and keeps the two nearest.
    let (mut nearest, layer_count) = db.search_init(&0b1111);
    assert_eq!(layer_count, 1);
    assert_eq!(&nearest[..], &[(0, 4)]);
    db.search_layer(&0b1111, &mut nearest, 2, 0);
    assert_eq!(&nearest[..], &[(4, 0), (3, 1)]);
    // With room for one, it keeps the nearest of the first vector's
    // neighbours and goes on from there.
    let (mut nearest, _) = db.search_init(&0b1111);
    db.search_layer(&0b1111, &mut nearest, 1, 0);
    assert_eq!(&nearest[..], &[(4, 0)]);
}

#[test]
fn connect_bidir_links_the_nearest_m() {
    let mut db = HawkSearcher::new(MockVectorStore::new(), GraphMem::new());
    db.params.M = 2;
    db.params.Mmax0 = 3;
    for value in [0u64, 1, 3, 7] {
        db.vector_store.insert(&value);
    }
    db.graph_store.set_entry_point(EntryPoint { vector_ref: 0, layer_count: 1 });
    let neighbors = FurthestQueue::from_ascending_vec(vec![(1usize, 1u32), (2, 2), (0, 3)]);
    db.connect_bidir(&3, neighbors, 0);
    assert_eq!(&db.graph_store.get_links(&3, 0)[..], &[(1, 1), (2, 2)]);
    assert_eq!(&db.graph_store.get_links(&1, 0)[..], &[(3, 1)]);
    assert_eq!(&db.graph_store.get_links(&2, 0)[..], &[(3, 2)]);
    assert!(db.graph_store.get_links(&0, 0).is_empty());
}

/// What a scripted store is asked, as a message.
#[derive(Debug, PartialEq, Eq)]
enum Op {
    EvalDistanceBatch { query: i64, vectors: Vec<i64> },
    LessThanBatch { distance: i64, distances: Vec<i64> },
    GetEntryPoint,
    GetLinks { base: i64, lc: usize },
}

/// The answer that the script holds for a message.
#[derive(Debug)]
enum Reply {
    Distances(Vec<i64>),
    Verdicts(Vec<bool>),
    EntryPoint(Option<EntryPoint<i64>>),
    Links(Vec<(i64, i64)>),
}

/// A store that knows nothing itself: it notes each message and answers it
/// with the next reply of its script.
#[derive(Debug)]
struct Scripted {
    asked: RefCell<Vec<Op>>,
    replies: RefCell<Vec<Reply>>,
}

impl Scripted {
    fn new(mut replies: Vec<Reply>) -> Self {
        replies.reverse();
        Scripted { asked: RefCell::new(vec![]), replies: RefCell::new(replies) }
    }

    fn ask(&self, op: Op) -> Reply {
        self.asked.borrow_mut().push(op);
        self.replies.borrow_mut().pop().unwrap()
    }
}

impl<'a> VectorStore for &'a Scripted {
    type QueryRef = i64;
    type VectorRef = i64;
    type DistanceRef = i64;

    fn insert(&mut self, _query: &i64) -> i64 {
        unreachable!()
    }

    fn eval_distance(&self, query: &i64, vector: &i64) -> i64 {
        self.eval_distance_batch(query, &[*vector]).pop().unwrap()
    }

    fn eval_distance_batch(&self, query: &i64, vectors: &[i64]) -> Vec<i64> {
        match self.ask(Op::EvalDistanceBatch { query: *query, vectors: vectors.to_vec() }) {
            Reply::Distances(distances) => distances,
            _ => panic!("Expected distances"),
        }
    }

    fn less_than(&self, distance1: &i64, distance2: &i64) -> bool {
        self.less_than_batch(distance1, &[*distance2]).pop().unwrap()
    }

    fn less_than_batch(&self, distance: &i64, distances: &[i64]) -> Vec<bool> {
        match self.ask(Op::LessThanBatch { distance: *distance, distances: distances.to_vec() }) {
            Reply::Verdicts(verdicts) => verdicts,
            _ => panic!("Expected verdicts"),
        }
    }

    fn is_match(&self, _distance: &i64) -> bool {
        unreachable!()
    }
}

impl<'a> GraphStore<&'a Scripted> for &'a Scripted {
    fn get_entry_point(&self) -> Option<EntryPoint<i64>> {
        match self.ask(Op::GetEntryPoint) {
            Reply::EntryPoint(entry_point) => entry_point,
            _ => panic!("Expected an entry point"),
        }
    }

    fn set_entry_point(&mut self, _entry_point: EntryPoint<i64>) {
        unreachable!()
    }

    fn get_links(&self, base: &i64, lc: usize) -> FurthestQueue<i64, i64> {
        match self.ask(Op::GetLinks { base: *base, lc }) {
            Reply::Links(links) => FurthestQueue::from_ascending_vec(links),
            _ => panic!("Expected links"),
        }
    }

    fn set_links(&mut self, _base: i64, _links: FurthestQueue<i64, i64>, _lc: usize) {
        unreachable!()
    }
}

#[test]
fn scripted_search_of_an_empty_graph_asks_for_the_entry_point_only() {
    let script = Scripted::new(vec![Reply::EntryPoint(None)]);
    let hawk = HawkSearcher::new(&script, &script);
    let result = hawk.search_to_insert(&0);
    assert!(result.is_empty());
    assert_eq!(*script.asked.borrow(), vec![Op::GetEntryPoint]);
}

#[test]
fn scripted_search_stops_when_the_nearest_candidate_is_beyond_the_bound() {
    let some_vec = 0;
    let some_query = 1;
    let some_distance = 10;
    let ep = EntryPoint { vector_ref: some_vec, layer_count: 1 };
    let script = Scripted::new(vec![
        Reply::EntryPoint(Some(ep)),
        Reply::Distances(vec![some_distance]),
        Reply::Verdicts(vec![true]),
    ]);
    let hawk = HawkSearcher::new(&script, &script);
    let result = hawk.search_to_insert(&some_query);
    assert_eq!(
        result,
        vec![FurthestQueue::from_ascending_vec(vec![(some_vec, some_distance)])]
    );
    assert_eq!(
        *script.asked.borrow(),
        vec![
            Op::GetEntryPoint,
            Op::EvalDistanceBatch { query: some_query, vectors: vec![some_vec] },
            Op::LessThanBatch { distance: some_distance, distances: vec![some_distance] },
        ]
    );
}

#[test]
fn scripted_search_evaluates_the_new_neighbors_of_a_candidate_in_one_batch() {
    let ep = EntryPoint { vector_ref: 7, layer_count: 1 };
    let script = Scripted::new(vec![
        Reply::EntryPoint(Some(ep)),
        Reply::Distances(vec![50]),
        // The entry point is not beyond the bound: it is expanded.
        Reply::Verdicts(vec![false]),
        // Its neighbours; 7 itself was visited, 8 stands in the list twice.
        Reply::Links(vec![(8, 0), (7, 0), (9, 0), (8, 0)]),
        Reply::Distances(vec![40, 60]),
        // 8 at distance 40 is the only candidate, and goes before 50 in the list.
        Reply::Verdicts(vec![false]),
        // 9 at distance 60 goes behind 40 among the candidates, and behind 50 in the list.
        Reply::Verdicts(vec![true]),
        Reply::Verdicts(vec![true]),
        // The nearest candidate, 8, is not beyond the bound 60, and has no neighbours.
        Reply::Verdicts(vec![false]),
        Reply::Links(vec![]),
        Reply::Distances(vec![]),
        // The next candidate, 9, is not beyond the bound either.
        Reply::Verdicts(vec![false]),
        Reply::Links(vec![]),
        Reply::Distances(vec![]),
    ]);
    let hawk = HawkSearcher::new(&script, &script);
    let result = hawk.search_to_insert(&1);
    assert_eq!(result, vec![FurthestQueue::from_ascending_vec(vec![(8, 40), (7, 50), (9, 60)])]);
    let asked = script.asked.borrow();
    assert_eq!(asked[3], Op::GetLinks { base: 7, lc: 0 });
    assert_eq!(asked[4], Op::EvalDistanceBatch { query: 1, vectors: vec![8, 9] });
    assert!(script.replies.borrow().is_empty());
}
