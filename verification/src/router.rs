//! Per-frame edge routing.
//!
//! Every frame the router recomputes each routed edge's geometry as a
//! straight two-point polyline: from the source node's (or its output
//! socket's) absolute position to the target's absolute position when the
//! target is a fixed node, and to the current world-space cursor position
//! otherwise - a dangling edge follows the pointer. Routing starts from
//! the input nodes (the edge sources of the editor) and follows the
//! directed edges: reachability is computed as the iterated one-step
//! closure of the input set, iterated once per node, which covers every
//! path the arena can hold. Each routed edge's visual is spawned once and
//! then updated in place, under the same registry as the node visuals.
use vstd::prelude::*;
use crate::frac::Frac;
use crate::graph::{Graph, NodeId, EdgeId};
use crate::nodes::NodeVariant;
use crate::registry::{VisualRegistry, ElementKey};
use crate::render::{RenderCommand, ShapeDesc, FillStyle, StrokeStyle, Z_BAND};
use crate::geom::{Point2, point_add, point_sum, point_sum_fits};
use crate::sync::{
    extends,
    spawn_count,
    sync_element,
    lemma_spawn_count_push,
    lemma_contains_after_push,
};

verus! {

/// Slot `i` holds a live input node: a routing root.
pub open spec fn root_idx(g: Graph, i: int) -> bool {
    &&& 0 <= i < g.nodes@.len()
    &&& g.nodes@[i].rec.is_some()
    &&& g.nodes@[i].rec.unwrap() is In
}

/// Node slot `i` is reached from the routing roots in at most `r` steps
/// along live edges.
pub open spec fn in_reach(g: Graph, r: nat, i: int) -> bool
    decreases r,
{
    if r == 0 {
        root_idx(g, i)
    } else {
        in_reach(g, (r - 1) as nat, i) || exists|j: int|
            #![auto]
            0 <= j < g.edges@.len() && g.edges@[j].link.is_some() && in_reach(
                g,
                (r - 1) as nat,
                g.edges@[j].link.unwrap().source.index as int,
            ) && g.edges@[j].link.unwrap().target.index as int == i
    }
}

/// Node slot `i` is reachable: reached in as many steps as there are node
/// slots, which covers every path through the arena.
pub open spec fn reachable_idx(g: Graph, i: int) -> bool {
    in_reach(g, g.nodes@.len() as nat, i)
}

/// The set of node slots reached in at most `r` steps.
pub open spec fn reach_set(g: Graph, r: nat) -> Set<int> {
    Set::new(|i: int| in_reach(g, r, i))
}

/// Level `r` of the reach iteration is a fixpoint: one more step adds
/// nothing.
pub open spec fn level_stable(g: Graph, r: nat) -> bool {
    forall|i: int| #![trigger in_reach(g, r, i)] in_reach(g, (r + 1) as nat, i) == in_reach(g, r, i)
}

/// Reach levels only grow.
proof fn lemma_in_reach_mono(g: Graph, r1: nat, r2: nat, i: int)
    requires
        r1 <= r2,
        in_reach(g, r1, i),
    ensures
        in_reach(g, r2, i),
    decreases r2,
{
    if r1 < r2 {
        lemma_in_reach_mono(g, r1, (r2 - 1) as nat, i);
    }
}

/// Every reached slot index lies inside the node arena.
proof fn lemma_in_reach_bounds(g: Graph, r: nat, i: int)
    requires
        g.wf(),
        in_reach(g, r, i),
    ensures
        0 <= i < g.nodes@.len(),
    decreases r,
{
    if r > 0 && in_reach(g, (r - 1) as nat, i) {
        lemma_in_reach_bounds(g, (r - 1) as nat, i);
    } else if r > 0 {
        let j = choose|j: int|
            #![auto]
            0 <= j < g.edges@.len() && g.edges@[j].link.is_some() && in_reach(
                g,
                (r - 1) as nat,
                g.edges@[j].link.unwrap().source.index as int,
            ) && g.edges@[j].link.unwrap().target.index as int == i;
        assert(g.edge_slot_ok(j));
        assert(g.node_live(g.edges@[j].link.unwrap().target));
    }
}

/// A stable level stays stable one step further.
proof fn lemma_stable_step(g: Graph, r: nat)
    requires
        level_stable(g, r),
    ensures
        level_stable(g, (r + 1) as nat),
{
    assert forall|i: int| #![trigger in_reach(g, (r + 1) as nat, i)]
        in_reach(g, (r + 2) as nat, i) == in_reach(g, (r + 1) as nat, i) by {
        if in_reach(g, (r + 2) as nat, i) && !in_reach(g, (r + 1) as nat, i) {
            let j = choose|j: int|
                #![auto]
                0 <= j < g.edges@.len() && g.edges@[j].link.is_some() && in_reach(
                    g,
                    (r + 1) as nat,
                    g.edges@[j].link.unwrap().source.index as int,
                ) && g.edges@[j].link.unwrap().target.index as int == i;
            let s = g.edges@[j].link.unwrap().source.index as int;
            assert(in_reach(g, r, s));
            assert(in_reach(g, (r + 1) as nat, i));
        }
        if in_reach(g, (r + 1) as nat, i) {
            lemma_in_reach_mono(g, (r + 1) as nat, (r + 2) as nat, i);
        }
    }
}

/// A level stable at `r` fixes every later level to level `r`.
proof fn lemma_stable_from(g: Graph, r: nat, r2: nat)
    requires
        level_stable(g, r),
        r <= r2,
    ensures
        forall|i: int| #![trigger in_reach(g, r2, i)] in_reach(g, r2, i) == in_reach(g, r, i),
        level_stable(g, r2),
    decreases r2,
{
    if r < r2 {
        lemma_stable_from(g, r, (r2 - 1) as nat);
        lemma_stable_step(g, (r2 - 1) as nat);
        assert forall|i: int| #![trigger in_reach(g, r2, i)]
            in_reach(g, r2, i) == in_reach(g, r, i) by {
            assert(in_reach(g, ((r2 - 1) + 1) as nat, i) == in_reach(g, (r2 - 1) as nat, i));
        }
    }
}

/// Either some level up to `r` is already a fixpoint for the whole
/// iteration, or level `r` holds at least `r` slots.
proof fn lemma_grow_or_stable(g: Graph, r: nat)
    requires
        g.wf(),
        r <= g.nodes@.len(),
    ensures
        reach_set(g, r).finite(),
        level_stable(g, g.nodes@.len() as nat) || reach_set(g, r).len() >= r,
    decreases r,
{
    let n = g.nodes@.len() as nat;
    assert(reach_set(g, r).subset_of(vstd::set_lib::set_int_range(0, n as int))) by {
        assert forall|i: int| reach_set(g, r).contains(i) implies vstd::set_lib::set_int_range(
            0,
            n as int,
        ).contains(i) by {
            lemma_in_reach_bounds(g, r, i);
        }
    }
    vstd::set_lib::lemma_int_range(0, n as int);
    vstd::set_lib::lemma_len_subset(reach_set(g, r), vstd::set_lib::set_int_range(0, n as int));
    if r > 0 {
        lemma_grow_or_stable(g, (r - 1) as nat);
        if !level_stable(g, n) {
            if level_stable(g, (r - 1) as nat) {
                lemma_stable_from(g, (r - 1) as nat, n);
            } else {
                // the step from r - 1 to r added at least one slot
                let i0 = choose|i: int|
                    #![trigger in_reach(g, (r - 1) as nat, i)]
                    in_reach(g, ((r - 1) + 1) as nat, i) != in_reach(g, (r - 1) as nat, i);
                assert(in_reach(g, r, i0) && !in_reach(g, (r - 1) as nat, i0)) by {
                    if in_reach(g, (r - 1) as nat, i0) {
                        lemma_in_reach_mono(g, (r - 1) as nat, r, i0);
                    }
                }
                assert(reach_set(g, (r - 1) as nat).subset_of(reach_set(g, r))) by {
                    assert forall|i: int|
                        reach_set(g, (r - 1) as nat).contains(i) implies reach_set(
                        g,
                        r,
                    ).contains(i) by {
                        lemma_in_reach_mono(g, (r - 1) as nat, r, i);
                    }
                }
                reach_set(g, (r - 1) as nat).lemma_subset_not_in_lt(reach_set(g, r), i0);
            }
        }
    }
}

/// The reach iteration saturates within one pass per node slot: running
/// it any longer changes nothing.
proof fn lemma_reach_saturates(g: Graph)
    requires
        g.wf(),
    ensures
        level_stable(g, g.nodes@.len() as nat),
{
    let n = g.nodes@.len() as nat;
    lemma_grow_or_stable(g, n);
    if !level_stable(g, n) {
        // n slots reached inside an arena of n slots: every slot is
        // reached, so one more step cannot add anything
        let range = vstd::set_lib::set_int_range(0, n as int);
        vstd::set_lib::lemma_int_range(0, n as int);
        assert(reach_set(g, n).subset_of(range)) by {
            assert forall|i: int| reach_set(g, n).contains(i) implies range.contains(i) by {
                lemma_in_reach_bounds(g, n, i);
            }
        }
        vstd::set_lib::lemma_len_subset(reach_set(g, n), range);
        vstd::set_lib::lemma_subset_equality(reach_set(g, n), range);
        assert forall|i: int| #![trigger in_reach(g, n, i)]
            in_reach(g, (n + 1) as nat, i) == in_reach(g, n, i) by {
            if in_reach(g, (n + 1) as nat, i) {
                lemma_in_reach_bounds(g, (n + 1) as nat, i);
                assert(range.contains(i));
                assert(reach_set(g, n).contains(i));
            }
            if in_reach(g, n, i) {
                lemma_in_reach_mono(g, n, (n + 1) as nat, i);
            }
        }
        assert(false);
    }
}

/// Law: the routing roots are reachable - every live input node's slot is
/// in the reachable set.
pub proof fn lemma_roots_reachable(g: Graph, i: int)
    requires
        root_idx(g, i),
    ensures
        reachable_idx(g, i),
{
    lemma_in_reach_mono(g, 0, g.nodes@.len() as nat, i);
}

/// Law: the reachable set is closed under the graph's edges - a live edge
/// whose source slot is reachable has a reachable target slot. Together
/// with the roots being reachable, the router's required set therefore
/// covers every edge on any path out of the input nodes.
pub proof fn lemma_reachable_closed(g: Graph, j: int)
    requires
        g.wf(),
        0 <= j < g.edges@.len(),
        g.edges@[j].link.is_some(),
        reachable_idx(g, g.edges@[j].link.unwrap().source.index as int),
    ensures
        reachable_idx(g, g.edges@[j].link.unwrap().target.index as int),
{
    let n = g.nodes@.len() as nat;
    let t = g.edges@[j].link.unwrap().target.index as int;
    assert(in_reach(g, (n + 1) as nat, t));
    lemma_reach_saturates(g);
    assert(in_reach(g, n, t));
}

/// One relaxation pass over the first `jmax` edges, starting from the
/// marking `prev`: `i` is marked if it was, or some processed live edge
/// leaves a marked source and enters `i`.
pub open spec fn stepped(g: Graph, prev: Seq<bool>, jmax: int, i: int) -> bool {
    ||| (0 <= i < prev.len() && prev[i])
    ||| exists|j: int|
        #![auto]
        0 <= j < jmax && g.edges@[j].link.is_some() && 0 <= g.edges@[j].link.unwrap().source.index
            < prev.len() && prev[g.edges@[j].link.unwrap().source.index as int]
            && g.edges@[j].link.unwrap().target.index as int == i
}

/// Compute the reachability marking: one relaxation pass per node slot
/// over the live edges, starting from the live input nodes.
pub fn mark_reachable(g: &Graph) -> (visited: Vec<bool>)
    requires
        g.wf(),
    ensures
        visited@.len() == g.nodes@.len(),
        forall|i: int|
            0 <= i < visited@.len() ==> #[trigger] visited@[i] == reachable_idx(*g, i),
{
    let n = g.nodes.len();
    let mut visited: Vec<bool> = Vec::new();
    let mut i: usize = 0;
    while i < n
        invariant
            n == g.nodes@.len(),
            i <= n,
            visited@.len() == i,
            forall|k: int| 0 <= k < i ==> #[trigger] visited@[k] == in_reach(*g, 0, k),
        decreases n - i,
    {
        let is_root = match g.nodes[i].rec {
            Some(NodeVariant::In(_)) => true,
            _ => false,
        };
        visited.push(is_root);
        i = i + 1;
    }
    let mut r: usize = 0;
    while r < n
        invariant
            g.wf(),
            n == g.nodes@.len(),
            r <= n,
            visited@.len() == n,
            forall|k: int| 0 <= k < n ==> #[trigger] visited@[k] == in_reach(*g, r as nat, k),
        decreases n - r,
    {
        let ghost prev = visited@;
        let mut next = clone_bools(&visited);
        let m = g.edges.len();
        let mut j: usize = 0;
        while j < m
            invariant
                g.wf(),
                m == g.edges@.len(),
                j <= m,
                next@.len() == prev.len(),
                prev.len() == n,
                n == g.nodes@.len(),
                visited@ == prev,
                forall|k: int| 0 <= k < n ==> #[trigger] next@[k] == stepped(*g, prev, j as int, k),
            decreases m - j,
        {
            match g.edges[j].link {
                Some(ends) => {
                    proof {
                        assert(g.edge_slot_ok(j as int));
                    }
                    if visited[ends.source.index] {
                        next.set(ends.target.index, true);
                    }
                },
                None => {},
            }
            proof {
                assert forall|k: int| 0 <= k < n implies #[trigger] next@[k] == stepped(
                    *g,
                    prev,
                    j as int + 1,
                    k,
                ) by {
                    if stepped(*g, prev, j as int + 1, k) && !stepped(*g, prev, j as int, k) {
                        assert(g.edges@[j as int].link.is_some());
                    }
                }
            }
            j = j + 1;
        }
        proof {
            assert forall|k: int| 0 <= k < n implies #[trigger] next@[k] == in_reach(
                *g,
                (r + 1) as nat,
                k,
            ) by {
                assert(next@[k] == stepped(*g, prev, m as int, k));
                if stepped(*g, prev, m as int, k) {
                    assert(in_reach(*g, (r + 1) as nat, k));
                } else {
                    if in_reach(*g, (r + 1) as nat, k) {
                        if !in_reach(*g, r as nat, k) {
                            let j2 = choose|j2: int|
                                #![auto]
                                0 <= j2 < g.edges@.len() && g.edges@[j2].link.is_some()
                                    && in_reach(
                                    *g,
                                    r as nat,
                                    g.edges@[j2].link.unwrap().source.index as int,
                                ) && g.edges@[j2].link.unwrap().target.index as int == k;
                            assert(g.edge_slot_ok(j2));
                            let src = g.edges@[j2].link.unwrap().source;
                            assert(g.node_live(src));
                            assert(prev[src.index as int]);
                        }
                        assert(stepped(*g, prev, m as int, k));
                    }
                }
            }
        }
        visited = next;
        r = r + 1;
    }
    visited
}

/// Copy a boolean vector (the frozen marking a relaxation pass reads).
fn clone_bools(v: &Vec<bool>) -> (r: Vec<bool>)
    ensures
        r@ == v@,
{
    let mut out: Vec<bool> = Vec::new();
    let mut i: usize = 0;
    while i < v.len()
        invariant
            i <= v@.len(),
            out@ == v@.take(i as int),
        decreases v@.len() - i,
    {
        out.push(v[i]);
        proof {
            assert(out@ =~= v@.take(i as int + 1));
        }
        i = i + 1;
    }
    proof {
        assert(out@ =~= v@);
    }
    out
}

/// A live node has a routing source position: input nodes at their
/// anchor, binary blocks at their output socket when its absolute
/// position is representable.
pub open spec fn src_pos_defined(g: Graph, id: NodeId) -> bool {
    match g.node_spec(id) {
        NodeVariant::In(_) => true,
        NodeVariant::Binary(b) => point_sum_fits(b.center, b.output.pos),
        _ => false,
    }
}

/// The routing source position of a live node (meaningful when defined).
pub open spec fn src_pos(g: Graph, id: NodeId) -> Point2 {
    match g.node_spec(id) {
        NodeVariant::In(n) => n.pos,
        NodeVariant::Binary(b) => point_sum(b.center, b.output.pos),
        _ => Point2 { x: Frac { num: 0, den: 1 }, y: Frac { num: 0, den: 1 } },
    }
}

/// The routing target position: a fixed node's absolute position, or the
/// world-space cursor for targets with no position of their own (the
/// dangling edge follows the pointer).
pub open spec fn tgt_pos(g: Graph, id: NodeId, cursor: Point2) -> Point2 {
    match g.node_spec(id) {
        NodeVariant::In(n) => n.pos,
        NodeVariant::Binary(b) => b.center,
        _ => cursor,
    }
}

/// Whether the router owes a visual under key `k`: one per live edge
/// whose source is reachable from the inputs and has a source position.
pub open spec fn edge_key_required(g: Graph, k: ElementKey) -> bool {
    match k {
        ElementKey::EdgeCurve(e) => g.edge_live(e) && reachable_idx(
            g,
            g.edge_ends(e).source.index as int,
        ) && src_pos_defined(g, g.edge_ends(e).source),
        _ => false,
    }
}

/// The polyline of a routed edge: source position to target-or-cursor.
pub open spec fn edge_shape(g: Graph, e: EdgeId, cursor: Point2) -> ShapeDesc {
    ShapeDesc::Segment {
        from: src_pos(g, g.edge_ends(e).source),
        to: tgt_pos(g, g.edge_ends(e).target, cursor),
    }
}

/// The command the router owes for routed edge `e`: a spawn with the edge
/// stroke in the bottom z band when the visual is `fresh`, else a
/// geometry update in place.
pub open spec fn cmd_for_edge(
    g: Graph,
    e: EdgeId,
    cursor: Point2,
    h: u64,
    fresh: bool,
) -> RenderCommand {
    if fresh {
        RenderCommand::Spawn {
            handle: h,
            shape: edge_shape(g, e, cursor),
            z: e.index as i64,
            fill: FillStyle::EdgeStroke,
            stroke: StrokeStyle { color: FillStyle::EdgeStroke, width: Frac { num: 5, den: 2 } },
        }
    } else {
        RenderCommand::UpdateGeometry { handle: h, shape: edge_shape(g, e, cursor) }
    }
}

/// Every routed edge's visual is registered.
pub open spec fn covers_edges(reg: VisualRegistry, g: Graph) -> bool {
    forall|k: ElementKey| #[trigger] edge_key_required(g, k) ==> reg.contains_key(k)
}

/// Route all edges for this frame: every live edge with a reachable,
/// positioned source gets exactly its owed command - a spawn at most once
/// per edge, ever; an in-place geometry update each later frame - and the
/// registry afterwards holds exactly its previous keys plus the routed
/// edges' keys.
pub fn route_edges(
    g: &Graph,
    cursor: Point2,
    reg: &mut VisualRegistry,
    cmds: &mut Vec<RenderCommand>,
)
    requires
        g.wf(),
        cursor.wf(),
        old(reg).wf(),
        g.edges@.len() <= Z_BAND as int,
        old(reg).next_handle as int + g.edges@.len() <= u64::MAX as int,
    ensures
        final(reg).wf(),
        final(reg).next_handle as int <= old(reg).next_handle as int + g.edges@.len(),
        extends(final(reg).entries@, old(reg).entries@),
        extends(final(cmds)@, old(cmds)@),
        forall|k: ElementKey| #[trigger]
            final(reg).contains_key(k) <==> old(reg).contains_key(k) || edge_key_required(*g, k),
        final(reg).entries@.len() == old(reg).entries@.len() + spawn_count(final(cmds)@)
            - spawn_count(old(cmds)@),
        covers_edges(*final(reg), *g),
        covers_edges(*old(reg), *g) ==> final(reg).entries@ == old(reg).entries@ && spawn_count(
            final(cmds)@,
        ) == spawn_count(old(cmds)@),
        forall|k: ElementKey| #[trigger]
            edge_key_required(*g, k) ==> exists|j: int, idx: int|
                #![auto]
                old(cmds)@.len() <= j < final(cmds)@.len() && 0 <= idx < final(reg).entries@.len() && final(reg).entries@[idx].key == k && final(cmds)@[j]
                    == cmd_for_edge(
                    *g,
                    k->EdgeCurve_0,
                    cursor,
                    final(reg).entries@[idx].handle,
                    !old(reg).contains_key(k),
                ),
{
    let ghost reg0 = *old(reg);
    let ghost cmds0 = old(cmds)@;
    let visited = mark_reachable(g);
    let m = g.edges.len();
    let mut j: usize = 0;
    while j < m
        invariant
            g.wf(),
            cursor.wf(),
            reg.wf(),
            m == g.edges@.len(),
            g.edges@.len() <= Z_BAND as int,
            j <= m,
            visited@.len() == g.nodes@.len(),
            forall|i: int|
                0 <= i < visited@.len() ==> #[trigger] visited@[i] == reachable_idx(*g, i),
            extends(reg.entries@, reg0.entries@),
            extends(cmds@, cmds0),
            reg.next_handle as int <= reg0.next_handle as int + j,
            reg0.next_handle as int + g.edges@.len() <= u64::MAX as int,
            forall|k: ElementKey| #[trigger]
                reg.contains_key(k) <==> reg0.contains_key(k) || (edge_key_required(*g, k) && (
                match k {
                    ElementKey::EdgeCurve(e) => (e.index as int) < j as int,
                    _ => false,
                })),
            reg.entries@.len() == reg0.entries@.len() + spawn_count(cmds@) - spawn_count(cmds0),
            covers_edges(reg0, *g) ==> reg.entries@ == reg0.entries@ && spawn_count(cmds@)
                == spawn_count(cmds0),
            forall|k: ElementKey|
                #![trigger edge_key_required(*g, k)]
                edge_key_required(*g, k) && (match k {
                    ElementKey::EdgeCurve(e) => (e.index as int) < j as int,
                    _ => false,
                }) ==> exists|jj: int, idx: int|
                    #![auto]
                    cmds0.len() <= jj < cmds@.len() && 0 <= idx < reg.entries@.len()
                        && reg.entries@[idx].key == k && cmds@[jj] == cmd_for_edge(
                        *g,
                        k->EdgeCurve_0,
                        cursor,
                        reg.entries@[idx].handle,
                        !reg0.contains_key(k),
                    ),
        decreases m - j,
    {
        route_edge_at(g, cursor, reg, cmds, &visited, j, Ghost(reg0), Ghost(cmds0));
        j = j + 1;
    }
    proof {
        assert forall|k: ElementKey| #[trigger]
            edge_key_required(*g, k) implies (match k {
            ElementKey::EdgeCurve(e) => (e.index as int) < m as int,
            _ => false,
        }) by {
            match k {
                ElementKey::EdgeCurve(e) => {},
                _ => {},
            }
        }
    }
}

/// Route the edge in slot `j`, when it is live with a reachable,
/// positioned source.
fn route_edge_at(
    g: &Graph,
    cursor: Point2,
    reg: &mut VisualRegistry,
    cmds: &mut Vec<RenderCommand>,
    visited: &Vec<bool>,
    j: usize,
    Ghost(reg0): Ghost<VisualRegistry>,
    Ghost(cmds0): Ghost<Seq<RenderCommand>>,
)
    requires
        g.wf(),
        cursor.wf(),
        old(reg).wf(),
        j < g.edges@.len(),
        g.edges@.len() <= Z_BAND as int,
        visited@.len() == g.nodes@.len(),
        forall|i: int|
            0 <= i < visited@.len() ==> #[trigger] visited@[i] == reachable_idx(*g, i),
        extends(old(reg).entries@, reg0.entries@),
        extends(old(cmds)@, cmds0),
        old(reg).next_handle as int <= reg0.next_handle as int + j,
        reg0.next_handle as int + g.edges@.len() <= u64::MAX as int,
        forall|k: ElementKey| #[trigger]
            old(reg).contains_key(k) <==> reg0.contains_key(k) || (edge_key_required(*g, k) && (
            match k {
                ElementKey::EdgeCurve(e) => (e.index as int) < j as int,
                _ => false,
            })),
        old(reg).entries@.len() == reg0.entries@.len() + spawn_count(old(cmds)@) - spawn_count(
            cmds0,
        ),
        covers_edges(reg0, *g) ==> old(reg).entries@ == reg0.entries@ && spawn_count(old(cmds)@)
            == spawn_count(cmds0),
        forall|k: ElementKey|
            #![trigger edge_key_required(*g, k)]
            edge_key_required(*g, k) && (match k {
                ElementKey::EdgeCurve(e) => (e.index as int) < j as int,
                _ => false,
            }) ==> exists|jj: int, idx: int|
                #![auto]
                cmds0.len() <= jj < old(cmds)@.len() && 0 <= idx < old(reg).entries@.len() && old(reg).entries@[idx].key == k && old(cmds)@[jj] == cmd_for_edge(
                    *g,
                    k->EdgeCurve_0,
                    cursor,
                    old(reg).entries@[idx].handle,
                    !reg0.contains_key(k),
                ),
    ensures
        final(reg).wf(),
        extends(final(reg).entries@, reg0.entries@),
        extends(final(cmds)@, cmds0),
        final(reg).next_handle as int <= reg0.next_handle as int + j + 1,
        forall|k: ElementKey| #[trigger]
            final(reg).contains_key(k) <==> reg0.contains_key(k) || (edge_key_required(*g, k) && (
            match k {
                ElementKey::EdgeCurve(e) => (e.index as int) < j as int + 1,
                _ => false,
            })),
        final(reg).entries@.len() == reg0.entries@.len() + spawn_count(final(cmds)@) - spawn_count(
            cmds0,
        ),
        covers_edges(reg0, *g) ==> final(reg).entries@ == reg0.entries@ && spawn_count(
            final(cmds)@,
        ) == spawn_count(cmds0),
        forall|k: ElementKey|
            #![trigger edge_key_required(*g, k)]
            edge_key_required(*g, k) && (match k {
                ElementKey::EdgeCurve(e) => (e.index as int) < j as int + 1,
                _ => false,
            }) ==> exists|jj: int, idx: int|
                #![auto]
                cmds0.len() <= jj < final(cmds)@.len() && 0 <= idx < final(reg).entries@.len()
                    && final(reg).entries@[idx].key == k && final(cmds)@[jj] == cmd_for_edge(
                    *g,
                    k->EdgeCurve_0,
                    cursor,
                    final(reg).entries@[idx].handle,
                    !reg0.contains_key(k),
                ),
{
    let ghost pre = *old(reg);
    let ghost cpre = old(cmds)@;
    let slot = g.edges[j];
    let ghost jj = j as int;
    let eid = EdgeId { index: j, gen: slot.gen };
    let ghost key = ElementKey::EdgeCurve(eid);
    match slot.link {
        Some(ends) => {
            proof {
                assert(g.edge_slot_ok(jj));
                assert(g.edge_live(eid));
                assert(g.edge_ends(eid) == ends);
            }
            let src_reachable = visited[ends.source.index];
            if src_reachable {
                let src = match g.node(ends.source) {
                    Ok(rec) => rec,
                    Err(_) => {
                        proof {
                            assert(false);
                        }
                        NodeVariant::Void
                    },
                };
                let from: Option<Point2> = match src {
                    NodeVariant::In(n) => Some(n.pos),
                    NodeVariant::Binary(b) => point_add(b.center, b.output.pos),
                    _ => None,
                };
                match from {
                    Some(fp) => {
                        proof {
                            assert(edge_key_required(*g, key));
                            assert(fp == src_pos(*g, ends.source));
                        }
                        let tgt = match g.node(ends.target) {
                            Ok(rec) => rec,
                            Err(_) => {
                                proof {
                                    assert(false);
                                }
                                NodeVariant::Void
                            },
                        };
                        let to: Point2 = match tgt {
                            NodeVariant::In(n) => n.pos,
                            NodeVariant::Binary(b) => b.center,
                            _ => cursor,
                        };
                        proof {
                            assert(to == tgt_pos(*g, ends.target, cursor));
                            assert(pre.contains_key(key) <==> reg0.contains_key(key));
                        }
                        let shape = ShapeDesc::Segment { from: fp, to };
                        sync_element(
                            reg,
                            cmds,
                            ElementKey::EdgeCurve(eid),
                            shape,
                            j as i64,
                            FillStyle::EdgeStroke,
                            StrokeStyle {
                                color: FillStyle::EdgeStroke,
                                width: Frac { num: 5, den: 2 },
                            },
                        );
                        proof {
                            route_edge_commit(
                                *g,
                                cursor,
                                pre,
                                *reg,
                                cpre,
                                cmds@,
                                reg0,
                                cmds0,
                                key,
                                shape,
                                jj,
                            );
                            assert forall|k: ElementKey|
                                edge_key_required(*g, k) && key_edge_index(k) == jj implies k
                                == key by {
                                match k {
                                    ElementKey::EdgeCurve(e) => {
                                        assert(e.index as int == jj);
                                        assert(e.gen == g.edges@[jj].gen);
                                    },
                                    _ => {},
                                }
                            }
                            assert forall|k: ElementKey|
                                #![trigger edge_key_required(*g, k)]
                                edge_key_required(*g, k) && (match k {
                                    ElementKey::EdgeCurve(e) => (e.index as int) < jj + 1,
                                    _ => false,
                                }) implies exists|j2: int, idx: int|
                                #![auto]
                                cmds0.len() <= j2 < cmds@.len() && 0 <= idx < reg.entries@.len()
                                    && reg.entries@[idx].key == k && cmds@[j2] == cmd_for_edge(
                                    *g,
                                    k->EdgeCurve_0,
                                    cursor,
                                    reg.entries@[idx].handle,
                                    !reg0.contains_key(k),
                                ) by {
                                if key_edge_index(k) < jj {
                                    lemma_edge_witness_extends(
                                        *g,
                                        cursor,
                                        pre,
                                        *reg,
                                        cpre,
                                        cmds@,
                                        cmds0,
                                        reg0,
                                        k,
                                    );
                                } else {
                                    assert(k == key);
                                    lemma_edge_witness_extends(
                                        *g,
                                        cursor,
                                        *reg,
                                        *reg,
                                        cmds@,
                                        cmds@,
                                        cmds0,
                                        reg0,
                                        k,
                                    );
                                }
                            }
                        }
                    },
                    None => {
                        proof {
                            assert(!src_pos_defined(*g, ends.source));
                            route_edge_skip(*g, pre, reg0, key, jj);
                        }
                    },
                }
            } else {
                proof {
                    assert(!reachable_idx(*g, ends.source.index as int));
                    route_edge_skip(*g, pre, reg0, key, jj);
                }
            }
        },
        None => {
            proof {
                route_edge_skip(*g, pre, reg0, key, jj);
            }
        },
    }
}

/// A witness that a routed edge received its owed command survives any
/// pure extension of the command list and the registry.
proof fn lemma_edge_witness_extends(
    g: Graph,
    cursor: Point2,
    reg1: VisualRegistry,
    reg2: VisualRegistry,
    cmds1: Seq<RenderCommand>,
    cmds2: Seq<RenderCommand>,
    cmds0: Seq<RenderCommand>,
    reg0: VisualRegistry,
    k: ElementKey,
)
    requires
        extends(reg2.entries@, reg1.entries@),
        extends(cmds2, cmds1),
        exists|j: int, idx: int|
            #![auto]
            cmds0.len() <= j < cmds1.len() && 0 <= idx < reg1.entries@.len()
                && reg1.entries@[idx].key == k && cmds1[j] == cmd_for_edge(
                g,
                k->EdgeCurve_0,
                cursor,
                reg1.entries@[idx].handle,
                !reg0.contains_key(k),
            ),
    ensures
        exists|j: int, idx: int|
            #![auto]
            cmds0.len() <= j < cmds2.len() && 0 <= idx < reg2.entries@.len()
                && reg2.entries@[idx].key == k && cmds2[j] == cmd_for_edge(
                g,
                k->EdgeCurve_0,
                cursor,
                reg2.entries@[idx].handle,
                !reg0.contains_key(k),
            ),
{
    let (j, idx) = choose|j: int, idx: int|
        #![auto]
        cmds0.len() <= j < cmds1.len() && 0 <= idx < reg1.entries@.len() && reg1.entries@[idx].key
            == k && cmds1[j] == cmd_for_edge(
            g,
            k->EdgeCurve_0,
            cursor,
            reg1.entries@[idx].handle,
            !reg0.contains_key(k),
        );
    assert(cmds2[j] == cmds1[j]);
    assert(reg2.entries@[idx] == reg1.entries@[idx]);
}

/// When slot `j` is not routed, no key with edge index `j` is owed, so
/// skipping it keeps the router's bookkeeping exact.
proof fn route_edge_skip(g: Graph, pre: VisualRegistry, reg0: VisualRegistry, key: ElementKey, j: int)
    requires
        0 <= j < g.edges@.len(),
        j < Z_BAND as int,
        key == ElementKey::EdgeCurve(EdgeId { index: j as usize, gen: g.edges@[j].gen }),
        !edge_key_required(g, key),
    ensures
        forall|k: ElementKey|
            #![trigger edge_key_required(g, k)]
            edge_key_required(g, k) && key_edge_index(k) == j ==> false,
{
    assert forall|k: ElementKey|
        edge_key_required(g, k) && key_edge_index(k) == j implies false by {
        match k {
            ElementKey::EdgeCurve(e) => {
                assert(e.index as int == j);
                assert(e.gen == g.edges@[j].gen);
                assert(k == key);
            },
            _ => {},
        }
    }
}

/// The arena index of the edge that owns key `k` (-1 for node keys).
pub open spec fn key_edge_index(k: ElementKey) -> int {
    match k {
        ElementKey::EdgeCurve(e) => e.index as int,
        _ => -1,
    }
}

/// Commit the bookkeeping after routing the edge of slot `j`.
proof fn route_edge_commit(
    g: Graph,
    cursor: Point2,
    pre: VisualRegistry,
    post: VisualRegistry,
    cpre: Seq<RenderCommand>,
    cpost: Seq<RenderCommand>,
    reg0: VisualRegistry,
    cmds0: Seq<RenderCommand>,
    key: ElementKey,
    shape: ShapeDesc,
    j: int,
)
    requires
        0 <= j < g.edges@.len(),
        j < Z_BAND as int,
        key == ElementKey::EdgeCurve(EdgeId { index: j as usize, gen: g.edges@[j].gen }),
        edge_key_required(g, key),
        shape == edge_shape(g, key->EdgeCurve_0, cursor),
        pre.wf(),
        pre.contains_key(key) <==> reg0.contains_key(key),
        // outcome of the element sync
        pre.contains_key(key) ==> {
            &&& post.entries@ == pre.entries@
            &&& post.next_handle == pre.next_handle
            &&& exists|idx: int|
                #![auto]
                0 <= idx < pre.entries@.len() && pre.entries@[idx].key == key && cpost
                    == cpre.push(
                    RenderCommand::UpdateGeometry { handle: pre.entries@[idx].handle, shape },
                )
        },
        !pre.contains_key(key) ==> {
            &&& post.entries@ == pre.entries@.push(
                crate::registry::RegEntry { key, handle: pre.next_handle },
            )
            &&& post.next_handle == pre.next_handle + 1
            &&& cpost == cpre.push(
                RenderCommand::Spawn {
                    handle: pre.next_handle,
                    shape,
                    z: j as i64,
                    fill: FillStyle::EdgeStroke,
                    stroke: StrokeStyle {
                        color: FillStyle::EdgeStroke,
                        width: Frac { num: 5, den: 2 },
                    },
                },
            )
        },
    ensures
        extends(post.entries@, pre.entries@),
        extends(cpost, cpre),
        forall|k: ElementKey| #[trigger]
            post.contains_key(k) <==> pre.contains_key(k) || k == key,
        post.entries@.len() == pre.entries@.len() + spawn_count(cpost) - spawn_count(cpre),
        pre.contains_key(key) ==> post.entries@ == pre.entries@ && spawn_count(cpost)
            == spawn_count(cpre),
        exists|jj: int, idx: int|
            #![auto]
            cpre.len() <= jj < cpost.len() && 0 <= idx < post.entries@.len()
                && post.entries@[idx].key == key && cpost[jj] == cmd_for_edge(
                g,
                key->EdgeCurve_0,
                cursor,
                post.entries@[idx].handle,
                !reg0.contains_key(key),
            ),
{
    if pre.contains_key(key) {
        let idx = choose|idx: int|
            #![auto]
            0 <= idx < pre.entries@.len() && pre.entries@[idx].key == key && cpost == cpre.push(
                RenderCommand::UpdateGeometry { handle: pre.entries@[idx].handle, shape },
            );
        lemma_spawn_count_push(
            cpre,
            RenderCommand::UpdateGeometry { handle: pre.entries@[idx].handle, shape },
        );
        assert(cpost[cpre.len() as int] == cmd_for_edge(
            g,
            key->EdgeCurve_0,
            cursor,
            post.entries@[idx].handle,
            !reg0.contains_key(key),
        ));
    } else {
        lemma_contains_after_push(
            pre,
            post,
            crate::registry::RegEntry { key, handle: pre.next_handle },
        );
        lemma_spawn_count_push(
            cpre,
            RenderCommand::Spawn {
                handle: pre.next_handle,
                shape,
                z: j as i64,
                fill: FillStyle::EdgeStroke,
                stroke: StrokeStyle {
                    color: FillStyle::EdgeStroke,
                    width: Frac { num: 5, den: 2 },
                },
            },
        );
        let idx = post.entries@.len() - 1;
        assert(post.entries@[idx].key == key);
        assert(cpost[cpre.len() as int] == cmd_for_edge(
            g,
            key->EdgeCurve_0,
            cursor,
            post.entries@[idx].handle,
            !reg0.contains_key(key),
        ));
    }
}

} // verus!
