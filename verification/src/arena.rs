//! The arena that owns the typed nodes.

use vstd::prelude::*;
use crate::value::NodeId;

verus! {

/// An arena of nodes. A node stays where it was inserted, and its handle
/// is the place at which it stands.
pub struct Tree<N> {
    pub nodes: Vec<N>,
}

impl<N> View for Tree<N> {
    type V = Seq<N>;

    open spec fn view(&self) -> Seq<N> {
        self.nodes@
    }
}

impl<N> Tree<N> {
    /// Whether `id` is the handle of a node of this arena.
    pub open spec fn contains(&self, id: NodeId) -> bool {
        id.0 < self.nodes@.len()
    }

    /// An arena without nodes.
    pub fn new() -> (r: Self)
        ensures
            r@ == Seq::<N>::empty(),
    {
        Tree { nodes: Vec::new() }
    }

    /// The number of nodes.
    pub fn len(&self) -> (n: usize)
        ensures
            n == self@.len(),
    {
        self.nodes.len()
    }

    /// Inserts a node behind those already held, and gives its handle.
    pub fn insert(&mut self, node: N) -> (id: NodeId)
        ensures
            final(self)@ == old(self)@.push(node),
            id.0 == old(self)@.len(),
            final(self).contains(id),
    {
        let id = NodeId(self.nodes.len());
        self.nodes.push(node);
        id
    }

    /// The node with handle `id`, if the arena holds one.
    pub fn get(&self, id: NodeId) -> (r: Option<&N>)
        ensures
            self.contains(id) ==> r == Some(&self@[id.0 as int]),
            !self.contains(id) ==> r is None,
    {
        if id.0 < self.nodes.len() {
            Some(&self.nodes[id.0])
        } else {
            None
        }
    }
}

impl<N: View> Tree<N> {
    /// The mathematical values of the nodes, in the order of their handles.
    pub open spec fn views(&self) -> Seq<N::V> {
        Seq::new(self.nodes@.len(), |i: int| self.nodes@[i]@)
    }
}

} // verus!
