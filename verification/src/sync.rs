//! Graph-to-visual synchronization, run once per frame.
//!
//! For every live node the pass looks up the node's visuals by element
//! key. A missing visual is spawned - at most once per element, ever: the
//! registry is searched before any spawn - and a present visual is updated
//! in place to match current graph state. Node kinds that decline to
//! render (unary blocks, bare void sinks) get no visual at all.
use vstd::prelude::*;
use crate::frac::Frac;
use crate::geom::{Point2, point_add, point_sum, point_sum_fits};
use crate::graph::{Graph, NodeId};
use crate::nodes::{NodeVariant, BinaryNode, NodeSocket};
use crate::registry::{VisualRegistry, ElementKey, RegEntry};
use crate::render::{RenderCommand, ShapeDesc, FillStyle, StrokeStyle, Z_BAND};

verus! {

/// Node kinds that own a body visual: toggle inputs (a circle) and binary
/// blocks (a rounded rectangle). Unary blocks and void sinks decline.
pub open spec fn renders_body(rec: NodeVariant) -> bool {
    rec is In || rec is Binary
}

/// The socket of a binary block with the given index (1, 2: inputs;
/// 3: output).
pub open spec fn socket_of(b: BinaryNode, s: u32) -> NodeSocket<bool> {
    if s == 1 {
        b.socket_a
    } else if s == 2 {
        b.socket_b
    } else {
        b.output
    }
}

/// Whether the graph requires a node-owned visual under key `k`: a body
/// for every live input or binary node, and one circle per socket of a
/// live binary node whose absolute position is representable.
pub open spec fn node_key_required(g: Graph, k: ElementKey) -> bool {
    match k {
        ElementKey::NodeBody(id) => g.node_live(id) && renders_body(g.node_spec(id)),
        ElementKey::Socket(id, s) => g.node_live(id) && g.node_spec(id) is Binary && 1 <= s <= 3
            && point_sum_fits(
            g.node_spec(id)->Binary_0.center,
            socket_of(g.node_spec(id)->Binary_0, s).pos,
        ),
        ElementKey::EdgeCurve(_) => false,
    }
}

/// The body shape of a node record: input toggles are circles of radius
/// five at their position; binary blocks are rounded rectangles at their
/// centre.
pub open spec fn body_shape(rec: NodeVariant) -> ShapeDesc {
    match rec {
        NodeVariant::In(n) => ShapeDesc::Circle { center: n.pos, radius: Frac { num: 5, den: 1 } },
        NodeVariant::Binary(b) => ShapeDesc::RoundedRect {
            center: b.center,
            width: b.width,
            height: b.height,
            corner: Frac { num: 1, den: 2 },
        },
        _ => ShapeDesc::Circle {
            center: Point2 { x: Frac { num: 0, den: 1 }, y: Frac { num: 0, den: 1 } },
            radius: Frac { num: 0, den: 1 },
        },
    }
}

/// The resting fill of a node body: an active input shows the active
/// style, an inactive one the resting socket style, a binary block its
/// background.
pub open spec fn body_fill(rec: NodeVariant) -> FillStyle {
    match rec {
        NodeVariant::In(n) => if n.state {
            FillStyle::Active
        } else {
            FillStyle::Socket
        },
        _ => FillStyle::NodeBg,
    }
}

/// The outline of a node body.
pub open spec fn body_stroke(rec: NodeVariant) -> StrokeStyle {
    match rec {
        NodeVariant::In(_) => StrokeStyle { color: FillStyle::Socket, width: Frac { num: 3, den: 2 } },
        _ => StrokeStyle { color: FillStyle::Socket, width: Frac { num: 3, den: 1 } },
    }
}

/// The shape of a binary node's socket visual: a circle of radius five at
/// the socket's absolute position.
pub open spec fn socket_shape(b: BinaryNode, s: u32) -> ShapeDesc {
    ShapeDesc::Circle {
        center: point_sum(b.center, socket_of(b, s).pos),
        radius: Frac { num: 5, den: 1 },
    }
}

/// The shape required under key `k` (meaningful when `k` is required).
pub open spec fn key_shape(g: Graph, k: ElementKey) -> ShapeDesc {
    match k {
        ElementKey::NodeBody(id) => body_shape(g.node_spec(id)),
        ElementKey::Socket(id, s) => socket_shape(g.node_spec(id)->Binary_0, s),
        ElementKey::EdgeCurve(_) => body_shape(NodeVariant::Void),
    }
}

/// The z coordinate required under key `k`: bodies in the middle band,
/// sockets in the top band, each tiebroken by the owning node's index.
pub open spec fn key_z(k: ElementKey) -> int {
    match k {
        ElementKey::NodeBody(id) => 1 * (Z_BAND as int) + id.index,
        ElementKey::Socket(id, _) => 2 * (Z_BAND as int) + id.index,
        ElementKey::EdgeCurve(e) => 0 * (Z_BAND as int) + e.index,
    }
}

/// The spawn fill required under key `k`.
pub open spec fn key_fill(g: Graph, k: ElementKey) -> FillStyle {
    match k {
        ElementKey::NodeBody(id) => body_fill(g.node_spec(id)),
        ElementKey::Socket(_, _) => FillStyle::Socket,
        ElementKey::EdgeCurve(_) => FillStyle::EdgeStroke,
    }
}

/// The spawn stroke required under key `k`.
pub open spec fn key_stroke(g: Graph, k: ElementKey) -> StrokeStyle {
    match k {
        ElementKey::NodeBody(id) => body_stroke(g.node_spec(id)),
        ElementKey::Socket(_, _) => StrokeStyle {
            color: FillStyle::Socket,
            width: Frac { num: 3, den: 2 },
        },
        ElementKey::EdgeCurve(_) => StrokeStyle {
            color: FillStyle::EdgeStroke,
            width: Frac { num: 5, den: 2 },
        },
    }
}

/// The command a sync pass owes for required key `k`: a spawn carrying
/// handle `h` and the full initial description when the key is `fresh`,
/// otherwise a geometry update of the existing visual `h`.
pub open spec fn cmd_for_key(g: Graph, k: ElementKey, h: u64, fresh: bool) -> RenderCommand {
    if fresh {
        RenderCommand::Spawn {
            handle: h,
            shape: key_shape(g, k),
            z: key_z(k) as i64,
            fill: key_fill(g, k),
            stroke: key_stroke(g, k),
        }
    } else {
        RenderCommand::UpdateGeometry { handle: h, shape: key_shape(g, k) }
    }
}

/// The arena index of the node that owns key `k`.
pub open spec fn key_node_index(k: ElementKey) -> int {
    match k {
        ElementKey::NodeBody(id) => id.index as int,
        ElementKey::Socket(id, _) => id.index as int,
        ElementKey::EdgeCurve(_) => -1,
    }
}

/// Every node-owned visual the graph requires is registered.
pub open spec fn covers_nodes(reg: VisualRegistry, g: Graph) -> bool {
    forall|k: ElementKey| #[trigger] node_key_required(g, k) ==> reg.contains_key(k)
}

/// How many spawn commands a command list holds.
pub open spec fn spawn_count(cmds: Seq<RenderCommand>) -> int
    decreases cmds.len(),
{
    if cmds.len() == 0 {
        0
    } else {
        spawn_count(cmds.drop_last()) + if cmds.last() is Spawn {
            1int
        } else {
            0int
        }
    }
}

/// Appending one command raises the spawn count by one exactly for a
/// spawn.
pub proof fn lemma_spawn_count_push(cmds: Seq<RenderCommand>, c: RenderCommand)
    ensures
        spawn_count(cmds.push(c)) == spawn_count(cmds) + if c is Spawn {
            1int
        } else {
            0int
        },
{
    assert(cmds.push(c).drop_last() =~= cmds);
    assert(cmds.push(c).last() == c);
}

/// Sync a single element: search the registry first; update the visual in
/// place when it exists, spawn it - once, with a fresh handle - when it
/// does not.
pub(crate) fn sync_element(
    reg: &mut VisualRegistry,
    cmds: &mut Vec<RenderCommand>,
    key: ElementKey,
    shape: ShapeDesc,
    z: i64,
    fill: FillStyle,
    stroke: StrokeStyle,
)
    requires
        old(reg).wf(),
        old(reg).next_handle < u64::MAX,
    ensures
        final(reg).wf(),
        old(reg).contains_key(key) ==> {
            &&& final(reg).entries@ == old(reg).entries@
            &&& final(reg).next_handle == old(reg).next_handle
            &&& exists|idx: int|
                #![auto]
                0 <= idx < old(reg).entries@.len() && old(reg).entries@[idx].key == key && final(cmds)@ == old(cmds)@.push(
                    RenderCommand::UpdateGeometry {
                        handle: old(reg).entries@[idx].handle,
                        shape,
                    },
                )
        },
        !old(reg).contains_key(key) ==> {
            &&& final(reg).entries@ == old(reg).entries@.push(
                RegEntry { key, handle: old(reg).next_handle },
            )
            &&& final(reg).next_handle == old(reg).next_handle + 1
            &&& final(cmds)@ == old(cmds)@.push(
                RenderCommand::Spawn { handle: old(reg).next_handle, shape, z, fill, stroke },
            )
        },
{
    match reg.lookup(key) {
        Some(h) => {
            cmds.push(RenderCommand::UpdateGeometry { handle: h, shape });
        },
        None => {
            let h = reg.register(key);
            cmds.push(RenderCommand::Spawn { handle: h, shape, z, fill, stroke });
        },
    }
}

/// `post` keeps every element of `pre` at its place and only appends.
pub open spec fn extends<T>(post: Seq<T>, pre: Seq<T>) -> bool {
    pre.len() <= post.len() && forall|j: int| 0 <= j < pre.len() ==> #[trigger] post[j] == pre[j]
}

/// Pushing one entry onto a registry adds exactly that key.
pub(crate) proof fn lemma_contains_after_push(pre: VisualRegistry, post: VisualRegistry, e: RegEntry)
    requires
        post.entries@ == pre.entries@.push(e),
    ensures
        forall|k: ElementKey| #[trigger]
            post.contains_key(k) <==> pre.contains_key(k) || e.key == k,
{
    assert forall|k: ElementKey| #[trigger]
        post.contains_key(k) implies pre.contains_key(k) || e.key == k by {
        let idx = choose|idx: int|
            0 <= idx < post.entries@.len() && post.entries@[idx].key == k;
        if idx < pre.entries@.len() {
            assert(pre.entries@[idx].key == k);
        }
    }
    assert forall|k: ElementKey| pre.contains_key(k) || e.key == k implies #[trigger]
        post.contains_key(k) by {
        if pre.contains_key(k) {
            let idx = choose|idx: int|
                0 <= idx < pre.entries@.len() && pre.entries@[idx].key == k;
            assert(post.entries@[idx].key == k);
        } else {
            assert(post.entries@[post.entries@.len() - 1].key == k);
        }
    }
}

/// The invariant a sync pass maintains while walking the node arena:
/// `reg0` and `cmds0` are the registry and command list the pass started
/// from, `i` the number of node slots processed so far.
pub open spec fn sync_inv(
    g: Graph,
    reg: VisualRegistry,
    cmds: Seq<RenderCommand>,
    reg0: VisualRegistry,
    cmds0: Seq<RenderCommand>,
    i: int,
) -> bool {
    &&& reg.wf()
    &&& extends(reg.entries@, reg0.entries@)
    &&& extends(cmds, cmds0)
    &&& reg.next_handle as int <= reg0.next_handle as int + 4 * i
    &&& (forall|k: ElementKey| #[trigger]
        reg.contains_key(k) <==> reg0.contains_key(k) || (node_key_required(g, k)
            && key_node_index(k) < i))
    &&& reg.entries@.len() == reg0.entries@.len() + spawn_count(cmds) - spawn_count(cmds0)
    &&& (covers_nodes(reg0, g) ==> reg.entries@ == reg0.entries@ && spawn_count(cmds)
        == spawn_count(cmds0))
    &&& (forall|k: ElementKey|
        #![trigger node_key_required(g, k)]
        node_key_required(g, k) && key_node_index(k) < i ==> exists|j: int, idx: int|
            #![auto]
            cmds0.len() <= j < cmds.len() && 0 <= idx < reg.entries@.len() && reg.entries@[idx].key
                == k && cmds[j] == cmd_for_key(g, k, reg.entries@[idx].handle, !reg0.contains_key(k)))
}

/// Sync one required key and re-establish the bookkeeping facts around
/// the registry change.
fn sync_required_key(
    g: &Graph,
    reg: &mut VisualRegistry,
    cmds: &mut Vec<RenderCommand>,
    key: ElementKey,
    shape: ShapeDesc,
    z: i64,
    fill: FillStyle,
    stroke: StrokeStyle,
    Ghost(reg0): Ghost<VisualRegistry>,
)
    requires
        old(reg).wf(),
        old(reg).next_handle < u64::MAX,
        node_key_required(*g, key),
        shape == key_shape(*g, key),
        z as int == key_z(key),
        fill == key_fill(*g, key),
        stroke == key_stroke(*g, key),
        old(reg).contains_key(key) <==> reg0.contains_key(key),
    ensures
        final(reg).wf(),
        final(reg).next_handle as int <= old(reg).next_handle as int + 1,
        extends(final(reg).entries@, old(reg).entries@),
        extends(final(cmds)@, old(cmds)@),
        final(cmds)@.len() == old(cmds)@.len() + 1,
        forall|k: ElementKey| #[trigger]
            final(reg).contains_key(k) <==> old(reg).contains_key(k) || k == key,
        final(reg).entries@.len() == old(reg).entries@.len() + spawn_count(final(cmds)@)
            - spawn_count(old(cmds)@),
        old(reg).contains_key(key) ==> final(reg).entries@ == old(reg).entries@ && spawn_count(
            final(cmds)@,
        ) == spawn_count(old(cmds)@),
        exists|j: int, idx: int|
            #![auto]
            old(cmds)@.len() <= j < final(cmds)@.len() && 0 <= idx < final(reg).entries@.len()
                && final(reg).entries@[idx].key == key && final(cmds)@[j] == cmd_for_key(
                *g,
                key,
                final(reg).entries@[idx].handle,
                !reg0.contains_key(key),
            ),
{
    let ghost pre = *old(reg);
    let ghost cpre = old(cmds)@;
    sync_element(reg, cmds, key, shape, z, fill, stroke);
    proof {
        if pre.contains_key(key) {
            let idx = choose|idx: int|
                #![auto]
                0 <= idx < pre.entries@.len() && pre.entries@[idx].key == key && cmds@
                    == cpre.push(
                    RenderCommand::UpdateGeometry { handle: pre.entries@[idx].handle, shape },
                );
            lemma_spawn_count_push(
                cpre,
                RenderCommand::UpdateGeometry { handle: pre.entries@[idx].handle, shape },
            );
            assert(cmds@[cpre.len() as int] == cmd_for_key(
                *g,
                key,
                reg.entries@[idx].handle,
                !reg0.contains_key(key),
            ));
        } else {
            lemma_contains_after_push(pre, *reg, RegEntry { key, handle: pre.next_handle });
            lemma_spawn_count_push(
                cpre,
                RenderCommand::Spawn { handle: pre.next_handle, shape, z, fill, stroke },
            );
            let idx = reg.entries@.len() - 1;
            assert(reg.entries@[idx].key == key);
            assert(cmds@[cpre.len() as int] == cmd_for_key(
                *g,
                key,
                reg.entries@[idx].handle,
                !reg0.contains_key(key),
            ));
        }
    }
}

/// One sync pass over all nodes of the graph. Appends the frame's
/// commands to `cmds`.
///
/// The pass guarantees:
/// - afterwards the registry holds exactly its previous keys plus every
///   node-owned key the graph requires - and nothing else;
/// - previously registered entries survive untouched, in place: a visual,
///   once spawned, is never recreated;
/// - the registry grows by exactly one entry per spawn command emitted;
/// - if the registry already covered the graph, the pass spawns nothing
///   and leaves the registry exactly as it was;
/// - every required key receives exactly its owed command: a full spawn
///   when it was absent, a geometry update in place when present.
pub fn sync_nodes(g: &Graph, reg: &mut VisualRegistry, cmds: &mut Vec<RenderCommand>)
    requires
        g.wf(),
        old(reg).wf(),
        g.nodes@.len() <= Z_BAND as int,
        old(reg).next_handle as int + 4 * g.nodes@.len() <= u64::MAX as int,
    ensures
        final(reg).wf(),
        final(reg).next_handle as int <= old(reg).next_handle as int + 4 * g.nodes@.len(),
        extends(final(reg).entries@, old(reg).entries@),
        extends(final(cmds)@, old(cmds)@),
        forall|k: ElementKey| #[trigger]
            final(reg).contains_key(k) <==> old(reg).contains_key(k) || node_key_required(*g, k),
        final(reg).entries@.len() == old(reg).entries@.len() + spawn_count(final(cmds)@)
            - spawn_count(old(cmds)@),
        covers_nodes(*final(reg), *g),
        covers_nodes(*old(reg), *g) ==> final(reg).entries@ == old(reg).entries@ && spawn_count(
            final(cmds)@,
        ) == spawn_count(old(cmds)@),
        forall|k: ElementKey| #[trigger]
            node_key_required(*g, k) ==> exists|j: int, idx: int|
                #![auto]
                old(cmds)@.len() <= j < final(cmds)@.len() && 0 <= idx < final(reg).entries@.len() && final(reg).entries@[idx].key == k && final(cmds)@[j]
                    == cmd_for_key(*g, k, final(reg).entries@[idx].handle, !old(reg).contains_key(k)),
{
    let ghost reg0 = *old(reg);
    let ghost cmds0 = old(cmds)@;
    let n = g.nodes.len();
    let mut i: usize = 0;
    while i < n
        invariant
            g.wf(),
            n == g.nodes@.len(),
            g.nodes@.len() <= Z_BAND as int,
            i <= n,
            reg0.next_handle as int + 4 * g.nodes@.len() <= u64::MAX as int,
            sync_inv(*g, *reg, cmds@, reg0, cmds0, i as int),
        decreases n - i,
    {
        sync_node_at(g, reg, cmds, i, Ghost(reg0), Ghost(cmds0));
        i = i + 1;
    }
    proof {
        assert forall|k: ElementKey| #[trigger]
            node_key_required(*g, k) implies key_node_index(k) < n as int by {
            match k {
                ElementKey::NodeBody(id) => {},
                ElementKey::Socket(id, s) => {},
                ElementKey::EdgeCurve(e) => {},
            }
        }
    }
}

/// A witness that a key received its owed command survives any pure
/// extension of the command list and the registry.
pub(crate) proof fn lemma_witness_extends(
    g: Graph,
    reg1: VisualRegistry,
    reg2: VisualRegistry,
    cmds1: Seq<RenderCommand>,
    cmds2: Seq<RenderCommand>,
    cmds0: Seq<RenderCommand>,
    reg0: VisualRegistry,
    k: ElementKey,
)
    requires
        extends(reg2.entries@, reg1.entries@),
        extends(cmds2, cmds1),
        exists|j: int, idx: int|
            #![auto]
            cmds0.len() <= j < cmds1.len() && 0 <= idx < reg1.entries@.len()
                && reg1.entries@[idx].key == k && cmds1[j] == cmd_for_key(
                g,
                k,
                reg1.entries@[idx].handle,
                !reg0.contains_key(k),
            ),
    ensures
        exists|j: int, idx: int|
            #![auto]
            cmds0.len() <= j < cmds2.len() && 0 <= idx < reg2.entries@.len()
                && reg2.entries@[idx].key == k && cmds2[j] == cmd_for_key(
                g,
                k,
                reg2.entries@[idx].handle,
                !reg0.contains_key(k),
            ),
{
    let (j, idx) = choose|j: int, idx: int|
        #![auto]
        cmds0.len() <= j < cmds1.len() && 0 <= idx < reg1.entries@.len()
            && reg1.entries@[idx].key == k && cmds1[j] == cmd_for_key(
            g,
            k,
            reg1.entries@[idx].handle,
            !reg0.contains_key(k),
        );
    assert(cmds2[j] == cmds1[j]);
    assert(reg2.entries@[idx] == reg1.entries@[idx]);
}

/// Sync the socket visual `s` of the binary node `id`: a circle at the
/// socket's absolute position, skipped - and not owed - when that exact
/// position does not fit the fraction fields.
fn sync_socket(
    g: &Graph,
    reg: &mut VisualRegistry,
    cmds: &mut Vec<RenderCommand>,
    id: NodeId,
    b: BinaryNode,
    s: u32,
    zs: i64,
    Ghost(reg0): Ghost<VisualRegistry>,
)
    requires
        g.wf(),
        g.node_live(id),
        g.node_spec(id) == NodeVariant::Binary(b),
        1 <= s <= 3,
        zs as int == 2 * (Z_BAND as int) + id.index,
        old(reg).wf(),
        old(reg).next_handle < u64::MAX,
        old(reg).contains_key(ElementKey::Socket(id, s)) <==> reg0.contains_key(
            ElementKey::Socket(id, s),
        ),
    ensures
        final(reg).wf(),
        final(reg).next_handle as int <= old(reg).next_handle as int + 1,
        extends(final(reg).entries@, old(reg).entries@),
        extends(final(cmds)@, old(cmds)@),
        forall|k: ElementKey| #[trigger]
            final(reg).contains_key(k) <==> old(reg).contains_key(k) || (k == ElementKey::Socket(
                id,
                s,
            ) && node_key_required(*g, k)),
        final(reg).entries@.len() == old(reg).entries@.len() + spawn_count(final(cmds)@)
            - spawn_count(old(cmds)@),
        old(reg).contains_key(ElementKey::Socket(id, s)) || !node_key_required(
            *g,
            ElementKey::Socket(id, s),
        ) ==> final(reg).entries@ == old(reg).entries@ && spawn_count(final(cmds)@) == spawn_count(
            old(cmds)@,
        ),
        node_key_required(*g, ElementKey::Socket(id, s)) ==> exists|j: int, idx: int|
            #![auto]
            old(cmds)@.len() <= j < final(cmds)@.len() && 0 <= idx < final(reg).entries@.len()
                && final(reg).entries@[idx].key == ElementKey::Socket(id, s) && final(cmds)@[j]
                == cmd_for_key(
                *g,
                ElementKey::Socket(id, s),
                final(reg).entries@[idx].handle,
                !reg0.contains_key(ElementKey::Socket(id, s)),
            ),
{
    let sock = if s == 1 {
        b.socket_a
    } else if s == 2 {
        b.socket_b
    } else {
        b.output
    };
    proof {
        assert(g.nodes@[id.index as int].rec.is_some());
        assert(sock == socket_of(b, s));
    }
    match point_add(b.center, sock.pos) {
        Some(p) => {
            let key = ElementKey::Socket(id, s);
            proof {
                assert(node_key_required(*g, key));
                assert(p == point_sum(b.center, socket_of(b, s).pos));
            }
            sync_required_key(
                g,
                reg,
                cmds,
                key,
                ShapeDesc::Circle { center: p, radius: Frac { num: 5, den: 1 } },
                zs,
                FillStyle::Socket,
                StrokeStyle { color: FillStyle::Socket, width: Frac { num: 3, den: 2 } },
                Ghost(reg0),
            );
        },
        None => {
            proof {
                assert(!node_key_required(*g, ElementKey::Socket(id, s)));
            }
        },
    }
}

/// Process node slot `i`: sync the node's body visual and, for a binary
/// block, its three socket visuals.
fn sync_node_at(
    g: &Graph,
    reg: &mut VisualRegistry,
    cmds: &mut Vec<RenderCommand>,
    i: usize,
    Ghost(reg0): Ghost<VisualRegistry>,
    Ghost(cmds0): Ghost<Seq<RenderCommand>>,
)
    requires
        g.wf(),
        i < g.nodes@.len(),
        g.nodes@.len() <= Z_BAND as int,
        reg0.next_handle as int + 4 * g.nodes@.len() <= u64::MAX as int,
        sync_inv(*g, *old(reg), old(cmds)@, reg0, cmds0, i as int),
    ensures
        sync_inv(*g, *final(reg), final(cmds)@, reg0, cmds0, i as int + 1),
{
    let ghost pre = *old(reg);
    let ghost cpre = old(cmds)@;
    let slot = g.nodes[i];
    let ghost ii = i as int;
    match slot.rec {
        Some(rec) => {
            let id = NodeId { index: i, gen: slot.gen };
            proof {
                assert(g.nodes@[ii].rec.is_some());
                assert(g.node_live(id));
                assert(g.node_spec(id) == rec);
            }
            match rec {
                NodeVariant::In(n) => {
                    let key = ElementKey::NodeBody(id);
                    let z = crate::render::z_of(crate::render::VisualLayer::Bodies, i);
                    let fill = if n.state {
                        FillStyle::Active
                    } else {
                        FillStyle::Socket
                    };
                    proof {
                        assert(node_key_required(*g, key));
                        assert(key_node_index(key) == ii);
                        assert(pre.contains_key(key) <==> reg0.contains_key(key));
                    }
                    sync_required_key(
                        g,
                        reg,
                        cmds,
                        key,
                        ShapeDesc::Circle { center: n.pos, radius: Frac { num: 5, den: 1 } },
                        z,
                        fill,
                        StrokeStyle { color: FillStyle::Socket, width: Frac { num: 3, den: 2 } },
                        Ghost(reg0),
                    );
                    proof {
                        assert forall|k: ElementKey|
                            node_key_required(*g, k) && key_node_index(k) == ii implies k
                            == key by {
                            match k {
                                ElementKey::NodeBody(id2) => {
                                    assert(id2.index == i && id2.gen == slot.gen);
                                },
                                ElementKey::Socket(id2, s2) => {
                                    assert(g.node_spec(id2) is Binary);
                                    assert(false);
                                },
                                ElementKey::EdgeCurve(_) => {
                                    assert(false);
                                },
                            }
                        }
                        assert forall|k: ElementKey|
                            #![trigger node_key_required(*g, k)]
                            node_key_required(*g, k) && key_node_index(k) < ii + 1 implies exists|
                                j: int,
                                idx: int,
                            |
                                #![auto]
                                cmds0.len() <= j < cmds@.len() && 0 <= idx < reg.entries@.len()
                                    && reg.entries@[idx].key == k && cmds@[j] == cmd_for_key(
                                    *g,
                                    k,
                                    reg.entries@[idx].handle,
                                    !reg0.contains_key(k),
                                ) by {
                            if key_node_index(k) < ii {
                                lemma_witness_extends(*g, pre, *reg, cpre, cmds@, cmds0, reg0, k);
                            } else {
                                lemma_witness_extends(*g, *reg, *reg, cmds@, cmds@, cmds0, reg0, k);
                            }
                        }
                    }
                },
                NodeVariant::Binary(b) => {
                    let zb = crate::render::z_of(crate::render::VisualLayer::Bodies, i);
                    let zs = crate::render::z_of(crate::render::VisualLayer::Sockets, i);
                    let body_key = ElementKey::NodeBody(id);
                    proof {
                        assert(node_key_required(*g, body_key));
                        assert(key_node_index(body_key) == ii);
                        assert(pre.contains_key(body_key) <==> reg0.contains_key(body_key));
                    }
                    sync_required_key(
                        g,
                        reg,
                        cmds,
                        body_key,
                        ShapeDesc::RoundedRect {
                            center: b.center,
                            width: b.width,
                            height: b.height,
                            corner: Frac { num: 1, den: 2 },
                        },
                        zb,
                        FillStyle::NodeBg,
                        StrokeStyle { color: FillStyle::Socket, width: Frac { num: 3, den: 1 } },
                        Ghost(reg0),
                    );
                    let ghost r1 = *reg;
                    let ghost c1 = cmds@;
                    proof {
                        assert(r1.contains_key(ElementKey::Socket(id, 1)) <==> reg0.contains_key(
                            ElementKey::Socket(id, 1),
                        ));
                    }
                    sync_socket(g, reg, cmds, id, b, 1, zs, Ghost(reg0));
                    let ghost r2 = *reg;
                    let ghost c2 = cmds@;
                    proof {
                        assert(r2.contains_key(ElementKey::Socket(id, 2)) <==> reg0.contains_key(
                            ElementKey::Socket(id, 2),
                        ));
                    }
                    sync_socket(g, reg, cmds, id, b, 2, zs, Ghost(reg0));
                    let ghost r3 = *reg;
                    let ghost c3 = cmds@;
                    proof {
                        assert(r3.contains_key(ElementKey::Socket(id, 3)) <==> reg0.contains_key(
                            ElementKey::Socket(id, 3),
                        ));
                    }
                    sync_socket(g, reg, cmds, id, b, 3, zs, Ghost(reg0));
                    proof {
                        assert(extends(reg.entries@, pre.entries@));
                        assert(extends(cmds@, cpre));
                        assert forall|k: ElementKey|
                            node_key_required(*g, k) && key_node_index(k) == ii implies (k
                            == body_key || k == ElementKey::Socket(id, 1) || k
                            == ElementKey::Socket(id, 2) || k == ElementKey::Socket(id, 3)) by {
                            match k {
                                ElementKey::NodeBody(id2) => {
                                    assert(id2.index == i && id2.gen == slot.gen);
                                },
                                ElementKey::Socket(id2, s2) => {
                                    assert(id2.index == i && id2.gen == slot.gen);
                                    assert(1 <= s2 <= 3);
                                },
                                ElementKey::EdgeCurve(_) => {
                                    assert(false);
                                },
                            }
                        }
                        assert forall|k: ElementKey| #[trigger]
                            reg.contains_key(k) <==> reg0.contains_key(k) || (node_key_required(
                                *g,
                                k,
                            ) && key_node_index(k) < ii + 1) by {
                            assert(pre.contains_key(k) <==> reg0.contains_key(k) || (
                            node_key_required(*g, k) && key_node_index(k) < ii));
                        }
                        assert forall|k: ElementKey|
                            #![trigger node_key_required(*g, k)]
                            node_key_required(*g, k) && key_node_index(k) < ii + 1 implies exists|
                                j: int,
                                idx: int,
                            |
                                #![auto]
                                cmds0.len() <= j < cmds@.len() && 0 <= idx < reg.entries@.len()
                                    && reg.entries@[idx].key == k && cmds@[j] == cmd_for_key(
                                    *g,
                                    k,
                                    reg.entries@[idx].handle,
                                    !reg0.contains_key(k),
                                ) by {
                            if key_node_index(k) < ii {
                                lemma_witness_extends(*g, pre, *reg, cpre, cmds@, cmds0, reg0, k);
                            } else if k == body_key {
                                lemma_witness_extends(*g, r1, *reg, c1, cmds@, cmds0, reg0, k);
                            } else if k == ElementKey::Socket(id, 1) {
                                lemma_witness_extends(*g, r2, *reg, c2, cmds@, cmds0, reg0, k);
                            } else if k == ElementKey::Socket(id, 2) {
                                lemma_witness_extends(*g, r3, *reg, c3, cmds@, cmds0, reg0, k);
                            } else {
                                assert(k == ElementKey::Socket(id, 3));
                                lemma_witness_extends(*g, *reg, *reg, cmds@, cmds@, cmds0, reg0, k);
                            }
                        }
                    }
                },
                _ => {
                    proof {
                        assert forall|k: ElementKey|
                            node_key_required(*g, k) implies key_node_index(k) != ii by {
                            match k {
                                ElementKey::NodeBody(id2) => {
                                    if id2.index == i {
                                        assert(g.node_spec(id2) == rec);
                                        assert(!renders_body(rec));
                                    }
                                },
                                ElementKey::Socket(id2, s2) => {
                                    if id2.index == i {
                                        assert(g.node_spec(id2) == rec);
                                    }
                                },
                                ElementKey::EdgeCurve(_) => {},
                            }
                        }
                    }
                },
            }
        },
        None => {
            proof {
                assert forall|k: ElementKey|
                    node_key_required(*g, k) implies key_node_index(k) != ii by {
                    match k {
                        ElementKey::NodeBody(id2) => {
                            if id2.index == i {
                                assert(!g.node_live(id2));
                            }
                        },
                        ElementKey::Socket(id2, s2) => {
                            if id2.index == i {
                                assert(!g.node_live(id2));
                            }
                        },
                        ElementKey::EdgeCurve(_) => {},
                    }
                }
            }
        },
    }
}

} // verus!
