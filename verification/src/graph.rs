//! The directed graph of typed nodes.
//!
//! Nodes and edges live in append-only arenas and are addressed by opaque,
//! generation-stamped handles. A removed element's slot is never refilled
//! and its generation is advanced, so a stale handle can never reach
//! another element: every operation on an unknown handle fails with
//! `InvalidHandle`. The graph's invariant is referential integrity: a live
//! edge's endpoints are always live nodes.
use vstd::prelude::*;
use crate::nodes::NodeVariant;

verus! {

/// Opaque, stable handle to a node: an arena index with a generation stamp.
#[derive(Clone, Copy, Debug, PartialEq, Eq, Structural)]
pub struct NodeId {
    pub index: usize,
    pub gen: u64,
}

/// Opaque, stable handle to an edge.
#[derive(Clone, Copy, Debug, PartialEq, Eq, Structural)]
pub struct EdgeId {
    pub index: usize,
    pub gen: u64,
}

/// Failure of a graph operation: the handle does not name a live element.
#[derive(Clone, Copy, Debug, PartialEq, Eq, Structural)]
pub enum GraphError {
    InvalidHandle,
}

/// The two endpoints of a directed edge.
#[derive(Clone, Copy, Debug, PartialEq, Eq, Structural)]
pub struct EdgeEnds {
    pub source: NodeId,
    pub target: NodeId,
}

/// An arena slot for a node: the record, or `None` once removed, plus the
/// generation stamp handles must match.
#[derive(Clone, Copy, Debug)]
pub struct NodeSlot {
    pub gen: u64,
    pub rec: Option<NodeVariant>,
}

/// An arena slot for an edge.
#[derive(Clone, Copy, Debug)]
pub struct EdgeSlot {
    pub gen: u64,
    pub link: Option<EdgeEnds>,
}

/// The directed graph: node and edge arenas.
#[derive(Debug)]
pub struct Graph {
    pub nodes: Vec<NodeSlot>,
    pub edges: Vec<EdgeSlot>,
}

impl Graph {
    /// The handle names a live node.
    pub open spec fn node_live(self, id: NodeId) -> bool {
        &&& (id.index as int) < self.nodes@.len()
        &&& self.nodes@[id.index as int].gen == id.gen
        &&& self.nodes@[id.index as int].rec.is_some()
    }

    /// The record of a live node.
    pub open spec fn node_spec(self, id: NodeId) -> NodeVariant {
        self.nodes@[id.index as int].rec.unwrap()
    }

    /// The handle names a live edge.
    pub open spec fn edge_live(self, id: EdgeId) -> bool {
        &&& (id.index as int) < self.edges@.len()
        &&& self.edges@[id.index as int].gen == id.gen
        &&& self.edges@[id.index as int].link.is_some()
    }

    /// The endpoints of a live edge.
    pub open spec fn edge_ends(self, id: EdgeId) -> EdgeEnds {
        self.edges@[id.index as int].link.unwrap()
    }

    /// Referential integrity of one edge slot: if it holds an edge, both
    /// endpoints are live nodes.
    pub open spec fn edge_slot_ok(self, i: int) -> bool {
        self.edges@[i].link.is_some() ==> self.node_live(self.edges@[i].link.unwrap().source)
            && self.node_live(self.edges@[i].link.unwrap().target)
    }

    /// Well-formed: every live edge connects live nodes, and every live
    /// node record is itself well-formed.
    pub open spec fn wf(self) -> bool {
        &&& forall|i: int| 0 <= i < self.edges@.len() ==> #[trigger] self.edge_slot_ok(i)
        &&& forall|i: int|
            0 <= i < self.nodes@.len() ==> (#[trigger] self.nodes@[i].rec.is_some()
                ==> self.nodes@[i].rec.unwrap().wf())
    }

    /// An empty graph.
    pub fn new() -> (r: Graph)
        ensures
            r.wf(),
            r.nodes@.len() == 0,
            r.edges@.len() == 0,
    {
        Graph { nodes: Vec::new(), edges: Vec::new() }
    }

    /// Add a node carrying `rec`; the fresh handle stays valid until the
    /// node is removed. Existing nodes and edges are untouched.
    pub fn add_node(&mut self, rec: NodeVariant) -> (id: NodeId)
        requires
            old(self).wf(),
            rec.wf(),
        ensures
            final(self).wf(),
            id.index == old(self).nodes@.len(),
            id.gen == 0,
            final(self).nodes@ == old(self).nodes@.push(NodeSlot { gen: 0, rec: Some(rec) }),
            final(self).edges@ == old(self).edges@,
            final(self).node_live(id),
            final(self).node_spec(id) == rec,
            forall|n: NodeId| #[trigger]
                old(self).node_live(n) ==> final(self).node_live(n) && final(self).node_spec(n)
                    == old(self).node_spec(n),
    {
        let id = NodeId { index: self.nodes.len(), gen: 0 };
        self.nodes.push(NodeSlot { gen: 0, rec: Some(rec) });
        proof {
            assert forall|i: int| 0 <= i < self.edges@.len() implies #[trigger] self.edge_slot_ok(
                i,
            ) by {
                assert(old(self).edge_slot_ok(i));
            }
        }
        id
    }

    /// Add a directed edge from `source` to `target`. Fails with
    /// `InvalidHandle` - and changes nothing - exactly when either endpoint
    /// is not a live node.
    pub fn add_edge(&mut self, source: NodeId, target: NodeId) -> (r: Result<EdgeId, GraphError>)
        requires
            old(self).wf(),
        ensures
            final(self).wf(),
            r.is_ok() <==> old(self).node_live(source) && old(self).node_live(target),
            r.is_err() ==> *final(self) == *old(self) && r == Result::<EdgeId, GraphError>::Err(
                GraphError::InvalidHandle,
            ),
            r.is_ok() ==> {
                let id = r.unwrap();
                &&& id.index == old(self).edges@.len()
                &&& id.gen == 0
                &&& final(self).nodes@ == old(self).nodes@
                &&& final(self).edges@ == old(self).edges@.push(
                    EdgeSlot { gen: 0, link: Some(EdgeEnds { source, target }) },
                )
                &&& final(self).edge_live(id)
                &&& final(self).edge_ends(id) == EdgeEnds { source, target }
            },
            forall|e: EdgeId| #[trigger]
                old(self).edge_live(e) ==> final(self).edge_live(e) && final(self).edge_ends(e)
                    == old(self).edge_ends(e),
            forall|n: NodeId| #[trigger]
                old(self).node_live(n) ==> final(self).node_live(n) && final(self).node_spec(n)
                    == old(self).node_spec(n),
    {
        if !self.node_live_exec(source) || !self.node_live_exec(target) {
            return Err(GraphError::InvalidHandle);
        }
        let id = EdgeId { index: self.edges.len(), gen: 0 };
        self.edges.push(EdgeSlot { gen: 0, link: Some(EdgeEnds { source, target }) });
        proof {
            assert forall|i: int| 0 <= i < self.edges@.len() implies #[trigger] self.edge_slot_ok(
                i,
            ) by {
                if i < old(self).edges@.len() {
                    assert(old(self).edge_slot_ok(i));
                }
            }
        }
        Ok(id)
    }

    /// Whether `id` names a live node (executable mirror of `node_live`).
    pub fn node_live_exec(&self, id: NodeId) -> (r: bool)
        ensures
            r == self.node_live(id),
    {
        id.index < self.nodes.len() && self.nodes[id.index].gen == id.gen && self.nodes[
            id.index
        ].rec.is_some()
    }

    /// The record of node `id`. Fails with `InvalidHandle` exactly when the
    /// handle does not name a live node.
    pub fn node(&self, id: NodeId) -> (r: Result<NodeVariant, GraphError>)
        ensures
            r.is_ok() <==> self.node_live(id),
            r.is_ok() ==> r.unwrap() == self.node_spec(id),
            r.is_err() ==> r == Result::<NodeVariant, GraphError>::Err(GraphError::InvalidHandle),
    {
        if id.index < self.nodes.len() && self.nodes[id.index].gen == id.gen {
            match self.nodes[id.index].rec {
                Some(rec) => Ok(rec),
                None => Err(GraphError::InvalidHandle),
            }
        } else {
            Err(GraphError::InvalidHandle)
        }
    }

    /// Replace the record of node `id`. Fails with `InvalidHandle` - and
    /// changes nothing - exactly when the handle does not name a live node.
    pub fn set_node(&mut self, id: NodeId, rec: NodeVariant) -> (r: Result<(), GraphError>)
        requires
            old(self).wf(),
            rec.wf(),
        ensures
            final(self).wf(),
            r.is_ok() <==> old(self).node_live(id),
            r.is_err() ==> *final(self) == *old(self) && r == Result::<(), GraphError>::Err(
                GraphError::InvalidHandle,
            ),
            r.is_ok() ==> {
                &&& final(self).nodes@ == old(self).nodes@.update(
                    id.index as int,
                    NodeSlot { gen: id.gen, rec: Some(rec) },
                )
                &&& final(self).edges@ == old(self).edges@
                &&& final(self).node_live(id)
                &&& final(self).node_spec(id) == rec
            },
            forall|n: NodeId| #[trigger]
                old(self).node_live(n) ==> final(self).node_live(n),
            forall|n: NodeId| #[trigger]
                old(self).node_live(n) && n != id ==> final(self).node_spec(n) == old(
                    self,
                ).node_spec(n),
    {
        if !self.node_live_exec(id) {
            return Err(GraphError::InvalidHandle);
        }
        self.nodes[id.index] = NodeSlot { gen: id.gen, rec: Some(rec) };
        proof {
            assert forall|n: NodeId| #[trigger]
                old(self).node_live(n) implies final(self).node_live(n) by {}
            assert forall|i: int| 0 <= i < self.edges@.len() implies #[trigger] self.edge_slot_ok(
                i,
            ) by {
                assert(old(self).edge_slot_ok(i));
            }
        }
        Ok(())
    }

    /// The endpoints of edge `id`. Fails with `InvalidHandle` exactly when
    /// the handle does not name a live edge.
    pub fn edge(&self, id: EdgeId) -> (r: Result<EdgeEnds, GraphError>)
        ensures
            r.is_ok() <==> self.edge_live(id),
            r.is_ok() ==> r.unwrap() == self.edge_ends(id),
            r.is_err() ==> r == Result::<EdgeEnds, GraphError>::Err(GraphError::InvalidHandle),
    {
        if id.index < self.edges.len() && self.edges[id.index].gen == id.gen {
            match self.edges[id.index].link {
                Some(ends) => Ok(ends),
                None => Err(GraphError::InvalidHandle),
            }
        } else {
            Err(GraphError::InvalidHandle)
        }
    }

    /// The handles of the live nodes up to slot `n`, in insertion order.
    pub open spec fn live_ids_upto(self, n: int) -> Seq<NodeId>
        decreases n,
    {
        if n <= 0 {
            Seq::empty()
        } else if self.nodes@[n - 1].rec.is_some() {
            self.live_ids_upto(n - 1).push(
                NodeId { index: (n - 1) as usize, gen: self.nodes@[n - 1].gen },
            )
        } else {
            self.live_ids_upto(n - 1)
        }
    }

    /// The handles of all live nodes, in insertion order.
    pub open spec fn live_ids(self) -> Seq<NodeId> {
        self.live_ids_upto(self.nodes@.len() as int)
    }

    /// The handles of all live nodes, in insertion order (stable across
    /// calls: the arena preserves insertion order).
    pub fn node_ids(&self) -> (r: Vec<NodeId>)
        ensures
            r@ == self.live_ids(),
    {
        let mut out: Vec<NodeId> = Vec::new();
        let mut i: usize = 0;
        while i < self.nodes.len()
            invariant
                i <= self.nodes@.len(),
                out@ == self.live_ids_upto(i as int),
            decreases self.nodes@.len() - i,
        {
            if self.nodes[i].rec.is_some() {
                out.push(NodeId { index: i, gen: self.nodes[i].gen });
            }
            i = i + 1;
        }
        out
    }

    /// The live edges with source `src` among the first `n` edge slots, in
    /// insertion order.
    pub open spec fn edges_from_upto(self, src: NodeId, n: int) -> Seq<EdgeId>
        decreases n,
    {
        if n <= 0 {
            Seq::empty()
        } else if self.edges@[n - 1].link.is_some() && self.edges@[n - 1].link.unwrap().source
            == src {
            self.edges_from_upto(src, n - 1).push(
                EdgeId { index: (n - 1) as usize, gen: self.edges@[n - 1].gen },
            )
        } else {
            self.edges_from_upto(src, n - 1)
        }
    }

    /// The live edges leaving `src`, in insertion order.
    pub open spec fn edges_from_spec(self, src: NodeId) -> Seq<EdgeId> {
        self.edges_from_upto(src, self.edges@.len() as int)
    }

    /// The outgoing edges of node `id`, in insertion order. Fails with
    /// `InvalidHandle` exactly when the handle does not name a live node.
    pub fn edges_from(&self, id: NodeId) -> (r: Result<Vec<EdgeId>, GraphError>)
        ensures
            r.is_ok() <==> self.node_live(id),
            r.is_ok() ==> r.unwrap()@ == self.edges_from_spec(id),
            r.is_err() ==> r == Result::<Vec<EdgeId>, GraphError>::Err(GraphError::InvalidHandle),
    {
        if !self.node_live_exec(id) {
            return Err(GraphError::InvalidHandle);
        }
        let mut out: Vec<EdgeId> = Vec::new();
        let mut i: usize = 0;
        while i < self.edges.len()
            invariant
                i <= self.edges@.len(),
                out@ == self.edges_from_upto(id, i as int),
            decreases self.edges@.len() - i,
        {
            match self.edges[i].link {
                Some(ends) => {
                    if ends.source.index == id.index && ends.source.gen == id.gen {
                        out.push(EdgeId { index: i, gen: self.edges[i].gen });
                    }
                },
                None => {},
            }
            i = i + 1;
        }
        Ok(out)
    }

    /// Remove node `id` together with every incident edge. Fails with
    /// `InvalidHandle` - and changes nothing - exactly when the handle does
    /// not name a live node. Afterwards the handle is dead, no live edge
    /// references it, and every other node and every edge not incident to
    /// it survives unchanged.
    pub fn remove_node(&mut self, id: NodeId) -> (r: Result<(), GraphError>)
        requires
            old(self).wf(),
        ensures
            final(self).wf(),
            r.is_ok() <==> old(self).node_live(id),
            r.is_err() ==> *final(self) == *old(self) && r == Result::<(), GraphError>::Err(
                GraphError::InvalidHandle,
            ),
            !final(self).node_live(id),
            forall|n: NodeId| #[trigger]
                final(self).node_live(n) <==> old(self).node_live(n) && n != id,
            forall|n: NodeId| #[trigger]
                final(self).node_live(n) ==> final(self).node_spec(n) == old(self).node_spec(n),
            forall|e: EdgeId| #[trigger]
                final(self).edge_live(e) <==> old(self).edge_live(e) && old(self).edge_ends(
                    e,
                ).source != id && old(self).edge_ends(e).target != id,
            forall|e: EdgeId| #[trigger]
                final(self).edge_live(e) ==> final(self).edge_ends(e) == old(self).edge_ends(e),
            // referential integrity after removal: nothing points at `id`
            forall|e: EdgeId| #[trigger]
                final(self).edge_live(e) ==> final(self).edge_ends(e).source != id
                    && final(self).edge_ends(e).target != id,
            final(self).nodes@.len() == old(self).nodes@.len(),
            final(self).edges@.len() == old(self).edges@.len(),
    {
        if !self.node_live_exec(id) {
            proof {
                // a dead handle is referenced by no live edge: endpoints
                // of live edges are live nodes
                assert forall|e: EdgeId| #[trigger]
                    self.edge_live(e) implies self.edge_ends(e).source != id && self.edge_ends(
                    e,
                ).target != id by {
                    assert(self.edge_slot_ok(e.index as int));
                }
            }
            return Err(GraphError::InvalidHandle);
        }
        let old_gen = self.nodes[id.index].gen;
        let new_gen = if old_gen < u64::MAX {
            old_gen + 1
        } else {
            old_gen
        };
        self.nodes[id.index] = NodeSlot { gen: new_gen, rec: None };
        let ghost mid = *self;
        let mut i: usize = 0;
        while i < self.edges.len()
            invariant
                i <= self.edges@.len(),
                self.nodes@ == mid.nodes@,
                self.edges@.len() == mid.edges@.len(),
                // unprocessed slots are untouched
                forall|j: int| i <= j < self.edges@.len() ==> self.edges@[j] == mid.edges@[j],
                // processed slots: cleared iff incident to `id`, else untouched
                forall|j: int|
                    0 <= j < i ==> (if mid.edges@[j].link.is_some() && (
                        mid.edges@[j].link.unwrap().source == id || mid.edges@[j].link.unwrap().target
                            == id) {
                        self.edges@[j].link.is_none() && self.edges@[j].gen != mid.edges@[j].gen
                    } else {
                        self.edges@[j] == mid.edges@[j]
                    }),
            decreases self.edges@.len() - i,
        {
            match self.edges[i].link {
                Some(ends) => {
                    if (ends.source.index == id.index && ends.source.gen == id.gen) || (
                    ends.target.index == id.index && ends.target.gen == id.gen) {
                        let eg = self.edges[i].gen;
                        let neg = if eg < u64::MAX {
                            eg + 1
                        } else {
                            0
                        };
                        self.edges[i] = EdgeSlot { gen: neg, link: None };
                    }
                },
                None => {},
            }
            i = i + 1;
        }
        proof {
            assert forall|e: EdgeId| #[trigger]
                final(self).edge_live(e) implies old(self).edge_live(e) && old(self).edge_ends(
                e,
            ).source != id && old(self).edge_ends(e).target != id by {
                let j = e.index as int;
                assert(mid.edges@[j] == old(self).edges@[j]);
            }
            assert forall|e: EdgeId|
                old(self).edge_live(e) && old(self).edge_ends(e).source != id && old(
                    self,
                ).edge_ends(e).target != id implies #[trigger] final(self).edge_live(e) by {
                let j = e.index as int;
                assert(mid.edges@[j] == old(self).edges@[j]);
            }
            assert forall|i2: int| 0 <= i2 < self.edges@.len() implies #[trigger] self.edge_slot_ok(
                i2,
            ) by {
                if self.edges@[i2].link.is_some() {
                    assert(old(self).edge_slot_ok(i2));
                    assert(mid.edges@[i2] == old(self).edges@[i2]);
                    let ends = self.edges@[i2].link.unwrap();
                    assert(ends.source != id && ends.target != id);
                    assert(old(self).node_live(ends.source));
                    assert(ends.source.index != id.index || ends.source.gen != id.gen);
                }
            }
        }
        Ok(())
    }
}

} // verus!
