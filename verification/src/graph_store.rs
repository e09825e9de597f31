//! The operations a search needs from whatever holds the graph: the entry
//! point and, per layer, the neighbours of each vector.

pub mod graph_mem;
pub mod schema;

use crate::hnsw_db::FurthestQueue;
use crate::vector_store::VectorStore;
use vstd::prelude::*;

verus! {

/// The vector at which every search begins, and the number of layers of the
/// graph it stands on top of.
#[derive(Default, Debug, PartialEq, Eq)]
pub struct EntryPoint<VectorRef> {
    pub vector_ref: VectorRef,
    pub layer_count: usize,
}

impl<VectorRef: Copy> Clone for EntryPoint<VectorRef> {
    fn clone(&self) -> (copy: Self)
        ensures
            copy == *self,
    {
        EntryPoint { vector_ref: self.vector_ref, layer_count: self.layer_count }
    }
}

impl<VectorRef: Copy> Copy for EntryPoint<VectorRef> {

}

/// The number of layers below an entry point: none without one.
pub open spec fn layer_count_of<VectorRef>(entry: Option<EntryPoint<VectorRef>>) -> nat {
    match entry {
        Some(entry_point) => entry_point.layer_count as nat,
        None => 0,
    }
}

/// A graph is described by its entry point and by the neighbour list of each
/// vector in each layer; a vector without a list has the empty one. A store
/// that does not define the spec functions has a description that nothing is
/// known of.
pub trait GraphStore<V: VectorStore>: Sized {
    /// The store's own invariant.
    open spec fn wf(&self) -> bool {
        arbitrary()
    }

    /// The entry point, if one was set.
    open spec fn entry(&self) -> Option<EntryPoint<V::VectorRef>> {
        arbitrary()
    }

    /// The neighbours of `base` in layer `lc`, nearest first.
    open spec fn links(&self, base: V::VectorRef, lc: nat) -> Seq<(V::VectorRef, V::DistanceRef)> {
        arbitrary()
    }

    fn get_entry_point(&self) -> (entry_point: Option<EntryPoint<V::VectorRef>>)
        requires
            self.wf(),
        ensures
            entry_point == self.entry(),
    ;

    /// Replace the entry point by one on a higher layer. The layers up to it
    /// exist from then on.
    fn set_entry_point(&mut self, entry_point: EntryPoint<V::VectorRef>)
        requires
            old(self).wf(),
            entry_point.layer_count > layer_count_of(old(self).entry()),
        ensures
            final(self).wf(),
            final(self).entry() == Some(entry_point),
            forall|base: V::VectorRef, lc: nat| #[trigger]
                final(self).links(base, lc) == old(self).links(base, lc),
    ;

    fn get_links(&self, base: &V::VectorRef, lc: usize) -> (links: FurthestQueue<
        V::VectorRef,
        V::DistanceRef,
    >)
        requires
            self.wf(),
            lc < layer_count_of(self.entry()),
        ensures
            links@ == self.links(*base, lc as nat),
    ;

    /// Replace the neighbours of `base` in layer `lc`.
    fn set_links(
        &mut self,
        base: V::VectorRef,
        links: FurthestQueue<V::VectorRef, V::DistanceRef>,
        lc: usize,
    )
        requires
            old(self).wf(),
            lc < layer_count_of(old(self).entry()),
        ensures
            final(self).wf(),
            final(self).entry() == old(self).entry(),
            final(self).links(base, lc as nat) == links@,
            forall|other: V::VectorRef, l: nat|
                !(other == base && l == lc) ==> #[trigger] final(self).links(other, l)
                    == old(self).links(other, l),
    ;
}

} // verus!
