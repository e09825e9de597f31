//! A vector store in memory that computes each distance when it is asked
//! for it: a query is the vector itself, a distance its number.

use crate::hamming::{hamming, lemma_hamming_zero, ones};
use crate::vector_store::{lawful, matches_are_nearest, VectorStore};
use vstd::prelude::*;

verus! {

/// The bytes of a raw query, the lowest byte first.
pub struct Code(pub Vec<u8>);

/// The number that bytes stand for when the first one is the lowest.
pub open spec fn le_value(bytes: Seq<u8>) -> nat
    decreases bytes.len(),
{
    if bytes.len() == 0 {
        0
    } else {
        bytes[0] as nat + 256 * le_value(bytes.skip(1))
    }
}

/// A tail of the bytes stands for no more than all of them.
pub proof fn lemma_le_value_tail(bytes: Seq<u8>, from: int)
    requires
        0 <= from <= bytes.len(),
    ensures
        le_value(bytes.skip(from)) <= le_value(bytes),
    decreases from,
{
    if from == 0 {
        assert(bytes.skip(0) =~= bytes);
    } else {
        lemma_le_value_tail(bytes, from - 1);
        assert(bytes.skip(from - 1).skip(1) =~= bytes.skip(from));
    }
}

/// The ids below `n` are finitely many.
pub proof fn lemma_ids_below_finite(n: nat)
    ensures
        Set::new(|id: usize| id < n).finite(),
    decreases n,
{
    let ids = Set::new(|id: usize| id < n);
    if n == 0 {
        assert(ids =~= Set::empty());
    } else {
        lemma_ids_below_finite((n - 1) as nat);
        let fewer = Set::new(|id: usize| id < (n - 1) as nat);
        if n - 1 <= usize::MAX {
            assert(ids =~= fewer.insert((n - 1) as usize));
        } else {
            assert(ids =~= fewer);
        }
    }
}

// Example implementation of a vector store.
#[derive(Clone, Debug)]
pub struct MockVectorStore {
    vectors: Vec<u64>,
}

impl MockVectorStore {
    pub fn new() -> (store: Self)
        ensures
            store.data() == Seq::<u64>::empty(),
    {
        MockVectorStore { vectors: Vec::new() }
    }

    /// The vectors that were inserted, by their ids.
    pub closed spec fn data(&self) -> Seq<u64> {
        self.vectors@
    }

    /// The store keeps the laws of a vector store, whatever it holds, and
    /// nothing is nearer than a match.
    pub proof fn lemma_lawful(&self)
        ensures
            lawful(self),
            matches_are_nearest(self),
    {
        lemma_ids_below_finite(self.data().len());
    }

    /// Read the bytes of a raw query as a number, the first byte the lowest.
    pub fn prepare_query(&mut self, raw_query: &Code) -> (query: u64)
        requires
            le_value(raw_query.0@) <= u64::MAX,
        ensures
            query == le_value(raw_query.0@),
            *final(self) == *old(self),
    {
        let bytes = &raw_query.0;
        let mut acc: u64 = 0;
        let mut i: usize = bytes.len();
        proof {
            assert(bytes@.skip(i as int) =~= Seq::<u8>::empty());
        }
        while i > 0
            invariant
                0 <= i <= bytes@.len(),
                acc == le_value(bytes@.skip(i as int)),
                le_value(bytes@) <= u64::MAX,
            decreases i,
        {
            i -= 1;
            proof {
                lemma_le_value_tail(bytes@, i as int);
                assert(bytes@.skip(i as int).skip(1) =~= bytes@.skip(i + 1));
                assert(bytes@.skip(i as int)[0] == bytes@[i as int]);
            }
            acc = acc * 256 + bytes[i] as u64;
        }
        proof {
            assert(bytes@.skip(0) =~= bytes@);
        }
        acc
    }
}

impl VectorStore for MockVectorStore {
    type QueryRef = u64;  // Implementation-specific encoding of queries and vectors.

    type VectorRef = usize;  // Vector ID.

    type DistanceRef = u32;  // Implementation-specific distance metric.

    open spec fn wf(&self) -> bool {
        true
    }

    open spec fn has_query(&self, query: u64) -> bool {
        true
    }

    open spec fn vectors(&self) -> Set<usize> {
        Set::new(|id: usize| id < self.data().len())
    }

    open spec fn has_distance(&self, distance: u32) -> bool {
        true
    }

    open spec fn distance(&self, query: u64, vector: usize) -> u32 {
        ones(query ^ self.data()[vector as int]) as u32
    }

    open spec fn closer(&self, a: u32, b: u32) -> bool {
        a < b
    }

    open spec fn matching(&self, distance: u32) -> bool {
        distance == 0
    }

    fn insert(&mut self, query: &u64) -> (vector: usize)
        ensures
            final(self).data() == old(self).data().push(*query),
            vector == old(self).data().len(),
    {
        self.vectors.push(*query);
        proof {
            let id = (self.vectors@.len() - 1) as usize;
            assert(self.vectors() =~= old(self).vectors().insert(id));
            lemma_hamming_zero(*query, *query);
        }
        self.vectors.len() - 1
    }

    fn eval_distance(&self, query: &u64, vector: &usize) -> (distance: u32) {
        // Hamming distance
        let vector = self.vectors[*vector];
        hamming(*query, vector)
    }

    fn is_match(&self, distance: &u32) -> (matched: bool) {
        *distance == 0
    }

    fn less_than(&self, distance1: &u32, distance2: &u32) -> (nearer: bool) {
        *distance1 < *distance2
    }
}

} // verus!
