//! The editor aggregate and its frame tick.
//!
//! One `Editor` value owns the graph, the viewport, the visual registry
//! and the interaction state - no ambient or global lookup anywhere. Each
//! frame the host hands `tick` the raw input; the tick applies pointer
//! events to the viewport in arrival order, consumes the first picking
//! event, runs the graph-to-visual sync and the edge router, and returns
//! the frame's render commands for the host to execute.
use vstd::prelude::*;
use crate::geom::{Point2, ScreenPoint};
use crate::graph::{Graph, NodeId, EdgeId, EdgeEnds, GraphError};
use crate::interact::{
    InteractionState,
    PickEvent,
    picked_nodes,
    picked_state,
    process_picking,
    on_pointer_down,
    on_pointer_up,
    on_pointer_leave,
};
use crate::nodes::{NodeVariant, InputNode, BinaryNode};
use crate::frac::Frac;
use crate::registry::{VisualRegistry, ElementKey, key_live, despawns_upto};
use crate::render::{RenderCommand, Z_BAND};
use crate::router::{route_edges, edge_key_required, covers_edges};
use crate::sync::{
    sync_nodes,
    node_key_required,
    covers_nodes,
    spawn_count,
    extends,
};
use crate::viewport::{Viewport, pan_result, wheel_result};

verus! {

/// A raw pointer event from the windowing host, delivered at most once
/// per frame each, in arrival order.
#[derive(Clone, Copy, Debug, PartialEq, Eq, Structural)]
pub enum PointerEvent {
    Wheel { delta_y: i64, pos: ScreenPoint },
    Move { dx: i64, dy: i64 },
    Down,
    Up,
    Leave,
}

/// One frame's raw input: the pointer events in arrival order and the
/// picking events resolved by the render backend.
#[derive(Debug)]
pub struct FrameInput {
    pub pointer: Vec<PointerEvent>,
    pub picking: Vec<PickEvent>,
}

/// The viewport after one pointer event: wheel zooms about the cursor,
/// movement pans while dragging, down starts and up or leave ends a drag
/// (leaving behaves exactly like releasing, so a drag can never stick).
pub open spec fn viewport_step(v: Viewport, ev: PointerEvent) -> Viewport {
    match ev {
        PointerEvent::Wheel { delta_y, pos } => wheel_result(v, delta_y as int, pos),
        PointerEvent::Move { dx, dy } => pan_result(v, dx as int, dy as int),
        PointerEvent::Down => Viewport { dragging: true, ..v },
        PointerEvent::Up => Viewport { dragging: false, ..v },
        PointerEvent::Leave => Viewport { dragging: false, ..v },
    }
}

/// The viewport after a frame's pointer events, applied in order.
pub open spec fn viewport_fold(v: Viewport, events: Seq<PointerEvent>) -> Viewport
    decreases events.len(),
{
    if events.len() == 0 {
        v
    } else {
        viewport_step(viewport_fold(v, events.drop_last()), events.last())
    }
}

/// The interaction state after one pointer event: down pins the hovered
/// visual as pressed, up releases it back to hovered, leaving resets to
/// idle.
pub open spec fn interact_step(st: InteractionState, ev: PointerEvent) -> InteractionState {
    match ev {
        PointerEvent::Down => match st {
            InteractionState::Hovering(k) => InteractionState::Pressed(k),
            s => s,
        },
        PointerEvent::Up => match st {
            InteractionState::Pressed(k) => InteractionState::Hovering(k),
            s => s,
        },
        PointerEvent::Leave => InteractionState::Idle,
        _ => st,
    }
}

/// The interaction state after a frame's pointer events, applied in
/// order.
pub open spec fn interact_fold(st: InteractionState, events: Seq<PointerEvent>) -> InteractionState
    decreases events.len(),
{
    if events.len() == 0 {
        st
    } else {
        interact_step(interact_fold(st, events.drop_last()), events.last())
    }
}

/// The last known cursor screen position after one pointer event.
pub open spec fn cursor_step(c: Option<ScreenPoint>, ev: PointerEvent) -> Option<ScreenPoint> {
    match ev {
        PointerEvent::Wheel { delta_y, pos } => Some(pos),
        _ => c,
    }
}

/// The last known cursor screen position after a frame's pointer events.
pub open spec fn cursor_fold(c: Option<ScreenPoint>, events: Seq<PointerEvent>) -> Option<
    ScreenPoint,
>
    decreases events.len(),
{
    if events.len() == 0 {
        c
    } else {
        cursor_step(cursor_fold(c, events.drop_last()), events.last())
    }
}

/// The per-frame graph advance: a pass over the input nodes. The pass
/// currently moves nothing - input positions are fixed - and so leaves
/// the graph exactly as it was.
pub fn update_graph(g: &mut Graph)
    ensures
        *final(g) == *old(g),
{
    let mut i: usize = 0;
    while i < g.nodes.len()
        invariant
            *g == *old(g),
            i <= g.nodes@.len(),
        decreases g.nodes@.len() - i,
    {
        match g.nodes[i].rec {
            Some(NodeVariant::In(_)) => {},
            _ => {},
        }
        i = i + 1;
    }
}

/// The demo graph: four input toggles at x = 0, y = 0, 10, 20, 30, one
/// binary block centred on (300, 0) with width 200 and height 80, and a
/// void sink wired from all four inputs.
pub fn setup() -> (g: Graph)
    ensures
        g.wf(),
        g.nodes@.len() == 6,
        g.edges@.len() == 4,
        // every created element is live under its fresh handle
        forall|i: int|
            0 <= i < 6 ==> #[trigger] g.node_live(NodeId { index: i as usize, gen: 0 }),
        forall|i: int|
            0 <= i < 4 ==> #[trigger] g.edge_live(EdgeId { index: i as usize, gen: 0 }),
        forall|i: int|
            0 <= i < 4 ==> (#[trigger] g.nodes@[i].rec matches Some(NodeVariant::In(n))
                && !n.state && n.pos.x.num == 0 && n.pos.x.den == 1 && n.pos.y.num == 10 * i
                && n.pos.y.den == 1),
        (g.nodes@[4].rec matches Some(NodeVariant::Binary(b)) && b.center.x.num == 300
            && b.center.x.den == 1 && b.center.y.num == 0 && b.center.y.den == 1 && b.width.num
            == 200 && b.width.den == 1 && b.height.num == 80 && b.height.den == 1
            // its sockets sit at the offsets the constructor pins: the two
            // inputs half the width to the left, one unit above and below
            // the centre, the output half the width to the right
            && b.socket_a.index == 1 && b.socket_a.pos.x.num == -200 && b.socket_a.pos.x.den == 2
            && b.socket_a.pos.y.num == 1 && b.socket_a.pos.y.den == 1 && b.socket_a.state is None
            && b.socket_b.index == 2 && b.socket_b.pos.x.num == -200 && b.socket_b.pos.x.den == 2
            && b.socket_b.pos.y.num == -1 && b.socket_b.pos.y.den == 1 && b.socket_b.state is None
            && b.output.index == 3 && b.output.pos.x.num == 200 && b.output.pos.x.den == 2
            && b.output.pos.y.num == 0 && b.output.pos.y.den == 1 && b.output.state is None),
        g.nodes@[5].rec == Some(NodeVariant::Void),
        forall|i: int|
            0 <= i < 4 ==> #[trigger] g.edges@[i].link == Some(
                EdgeEnds {
                    source: NodeId { index: i as usize, gen: 0 },
                    target: NodeId { index: 5, gen: 0 },
                },
            ),
{
    let mut graph = Graph::new();
    let in_1 = graph.add_node(NodeVariant::In(InputNode::new(false, Point2::from_ints(0, 0))));
    let in_2 = graph.add_node(NodeVariant::In(InputNode::new(false, Point2::from_ints(0, 10))));
    let in_3 = graph.add_node(NodeVariant::In(InputNode::new(false, Point2::from_ints(0, 20))));
    let in_4 = graph.add_node(NodeVariant::In(InputNode::new(false, Point2::from_ints(0, 30))));
    graph.add_node(
        NodeVariant::Binary(
            BinaryNode::new(
                Point2::from_ints(300, 0),
                Frac::from_int(200),
                Frac::from_int(80),
            ),
        ),
    );
    let sink = graph.add_node(NodeVariant::Void);
    let r1 = graph.add_edge(in_1, sink);
    let r2 = graph.add_edge(in_2, sink);
    let r3 = graph.add_edge(in_3, sink);
    let r4 = graph.add_edge(in_4, sink);
    proof {
        assert(r1.is_ok() && r2.is_ok() && r3.is_ok() && r4.is_ok());
    }
    graph
}

/// Two node records draw the same visuals: identical except that an
/// input's boolean state - which only picks a fill - may differ.
pub open spec fn rec_same_shape(x: NodeVariant, y: NodeVariant) -> bool {
    match (x, y) {
        (NodeVariant::In(nx), NodeVariant::In(ny)) => nx.pos == ny.pos,
        _ => x == y,
    }
}

/// Two node slots draw the same visuals.
pub open spec fn slot_same_shape(a: crate::graph::NodeSlot, b: crate::graph::NodeSlot) -> bool {
    &&& a.gen == b.gen
    &&& match (a.rec, b.rec) {
        (Some(x), Some(y)) => rec_same_shape(x, y),
        (None, None) => true,
        _ => false,
    }
}

/// Two graphs draw the same visuals: same topology, same geometry, at
/// most input states differ.
pub open spec fn same_visual_shape(g1: Graph, g2: Graph) -> bool {
    &&& g1.nodes@.len() == g2.nodes@.len()
    &&& g1.edges@ == g2.edges@
    &&& forall|i: int|
        0 <= i < g1.nodes@.len() ==> #[trigger] slot_same_shape(g1.nodes@[i], g2.nodes@[i])
}

/// A picking event preserves the graph's visual shape: at most one
/// input's state flips.
pub proof fn lemma_picking_preserves_shape(g1: Graph, g2: Graph, reg: VisualRegistry, ev: PickEvent)
    requires
        g2.nodes@ == picked_nodes(g1, reg, ev),
        g2.edges@ == g1.edges@,
    ensures
        same_visual_shape(g1, g2),
{
    assert forall|i: int|
        0 <= i < g1.nodes@.len() implies #[trigger] slot_same_shape(
        g1.nodes@[i],
        g2.nodes@[i],
    ) by {
        match ev {
            PickEvent::Clicked(h) => {
                if exists|id: NodeId| crate::interact::clickable(g1, reg, h, id) {
                    let id = choose|id: NodeId| crate::interact::clickable(g1, reg, h, id);
                    if i != id.index as int {
                        assert(g2.nodes@[i] == g1.nodes@[i]);
                    }
                }
            },
            _ => {},
        }
    }
}

/// Graphs of the same visual shape require the same node visuals.
pub proof fn lemma_shape_preserves_node_required(g1: Graph, g2: Graph, k: ElementKey)
    requires
        same_visual_shape(g1, g2),
    ensures
        node_key_required(g2, k) == node_key_required(g1, k),
{
    match k {
        ElementKey::NodeBody(id) => {
            if (id.index as int) < g1.nodes@.len() {
                assert(slot_same_shape(g1.nodes@[id.index as int], g2.nodes@[id.index as int]));
            }
        },
        ElementKey::Socket(id, s) => {
            if (id.index as int) < g1.nodes@.len() {
                assert(slot_same_shape(g1.nodes@[id.index as int], g2.nodes@[id.index as int]));
            }
        },
        ElementKey::EdgeCurve(_) => {},
    }
}

/// Graphs of the same visual shape reach the same node slots from their
/// input roots.
proof fn lemma_shape_preserves_reach(g1: Graph, g2: Graph, r: nat, i: int)
    requires
        same_visual_shape(g1, g2),
    ensures
        crate::router::in_reach(g2, r, i) == crate::router::in_reach(g1, r, i),
    decreases r,
{
    if r == 0 {
        if 0 <= i < g1.nodes@.len() {
            assert(slot_same_shape(g1.nodes@[i], g2.nodes@[i]));
        }
    } else {
        lemma_shape_preserves_reach(g1, g2, (r - 1) as nat, i);
        assert forall|j: int| 0 <= j < g1.edges@.len() implies crate::router::in_reach(
            g1,
            (r - 1) as nat,
            g1.edges@[j].link.unwrap().source.index as int,
        ) == crate::router::in_reach(
            g2,
            (r - 1) as nat,
            g2.edges@[j].link.unwrap().source.index as int,
        ) by {
            lemma_shape_preserves_reach(
                g1,
                g2,
                (r - 1) as nat,
                g1.edges@[j].link.unwrap().source.index as int,
            );
        }
    }
}

/// Law: ticking never changes which visuals the editor owes. A frame's
/// only graph mutation is an input toggle, which keeps the graph's
/// visual shape; a shape-preserving change requires exactly the same
/// node and edge visuals. So the registry a first sync builds covers
/// every later frame, and later frames spawn nothing - however many
/// ticks run.
pub proof fn lemma_requirements_stable(g1: Graph, g2: Graph, k: ElementKey)
    requires
        g1.wf(),
        same_visual_shape(g1, g2),
    ensures
        node_key_required(g2, k) == node_key_required(g1, k),
        edge_key_required(g2, k) == edge_key_required(g1, k),
{
    lemma_shape_preserves_node_required(g1, g2, k);
    match k {
        ElementKey::EdgeCurve(e) => {
            if (e.index as int) < g1.edges@.len() && g1.edges@[e.index as int].link.is_some() {
                assert(g1.edge_slot_ok(e.index as int));
                let src = g1.edges@[e.index as int].link.unwrap().source;
                lemma_shape_preserves_reach(
                    g1,
                    g2,
                    g1.nodes@.len() as nat,
                    src.index as int,
                );
                if (src.index as int) < g1.nodes@.len() {
                    assert(slot_same_shape(
                        g1.nodes@[src.index as int],
                        g2.nodes@[src.index as int],
                    ));
                }
            }
        },
        _ => {},
    }
}

/// The world position of the frame's cursor after the pointer stage: the
/// last known cursor screen position mapped through the viewport, or the
/// world origin when no cursor was ever seen or the exact transform does
/// not fit the fraction fields.
pub open spec fn frame_cursor_world(v: Viewport, c: Option<ScreenPoint>) -> Point2 {
    match c {
        Some(p) => if crate::viewport::world_fits(v, p) {
            crate::viewport::world_point_spec(v, p)
        } else {
            Point2 { x: Frac { num: 0, den: 1 }, y: Frac { num: 0, den: 1 } }
        },
        None => Point2 { x: Frac { num: 0, den: 1 }, y: Frac { num: 0, den: 1 } },
    }
}

/// A picking event's restyle commands never spawn anything.
proof fn lemma_no_spawns_in_fills(s: Seq<RenderCommand>)
    requires
        forall|i: int| 0 <= i < s.len() ==> !(#[trigger] s[i] is Spawn),
    ensures
        spawn_count(s) == 0,
    decreases s.len(),
{
    if s.len() > 0 {
        assert(!(s.last() is Spawn));
        lemma_no_spawns_in_fills(s.drop_last());
    }
}

/// The editor: the graph, the viewport transform, the visual registry,
/// the interaction state and the last known cursor position, owned
/// together and passed explicitly - never looked up ambiently.
#[derive(Debug)]
pub struct Editor {
    pub graph: Graph,
    pub viewport: Viewport,
    pub registry: VisualRegistry,
    pub interaction: InteractionState,
    pub cursor: Option<ScreenPoint>,
}

impl Editor {
    /// Well-formed: every component well-formed, and the arenas within
    /// the z-band bound so that draw order stays collision-free.
    pub open spec fn wf(self) -> bool {
        &&& self.graph.wf()
        &&& self.viewport.wf()
        &&& self.registry.wf()
        &&& self.graph.nodes@.len() <= Z_BAND as int
        &&& self.graph.edges@.len() <= Z_BAND as int
    }

    /// A fresh editor: empty graph, viewport at the default origin with
    /// unit scale, empty registry, idle interaction, no cursor seen yet.
    pub fn new() -> (r: Editor)
        ensures
            r.wf(),
            r.graph.nodes@.len() == 0,
            r.graph.edges@.len() == 0,
            r.registry.entries@.len() == 0,
            r.registry.next_handle == 0,
            r.viewport.zoom_decis == 0,
            r.viewport.origin.x.num == 800 * crate::viewport::GRID_DEN && r.viewport.origin.x.den
                == crate::viewport::GRID_DEN,
            r.viewport.origin.y.num == 340 * crate::viewport::GRID_DEN && r.viewport.origin.y.den
                == crate::viewport::GRID_DEN,
            !r.viewport.dragging,
            r.interaction == InteractionState::Idle,
            r.cursor is None,
    {
        Editor {
            graph: Graph::new(),
            viewport: Viewport::new(800, 340),
            registry: VisualRegistry::new(),
            interaction: InteractionState::Idle,
            cursor: None,
        }
    }

    /// Read-only view of the graph, for introspection by the shell.
    pub fn graph(&self) -> (g: &Graph)
        ensures
            *g == self.graph,
    {
        &self.graph
    }

    /// Remove a node through the editor: the graph drops the node and its
    /// incident edges, and the registry releases the visuals of
    /// everything that died, returning their despawn commands. Fails with
    /// `InvalidHandle` - changing nothing - exactly when the handle does
    /// not name a live node.
    pub fn remove_node(&mut self, id: NodeId) -> (r: Result<Vec<RenderCommand>, GraphError>)
        requires
            old(self).wf(),
        ensures
            final(self).wf(),
            final(self).viewport == old(self).viewport,
            final(self).interaction == old(self).interaction,
            final(self).cursor == old(self).cursor,
            r.is_ok() <==> old(self).graph.node_live(id),
            r.is_err() ==> *final(self) == *old(self) && r == Result::<
                Vec<RenderCommand>,
                GraphError,
            >::Err(GraphError::InvalidHandle),
            r.is_ok() ==> {
                &&& !final(self).graph.node_live(id)
                &&& (forall|n: NodeId| #[trigger]
                    final(self).graph.node_live(n) <==> old(self).graph.node_live(n) && n != id)
                &&& (forall|e: EdgeId| #[trigger]
                    final(self).graph.edge_live(e) ==> final(self).graph.edge_ends(e).source != id
                        && final(self).graph.edge_ends(e).target != id)
                &&& (forall|k: ElementKey| #[trigger]
                    final(self).registry.contains_key(k) <==> old(self).registry.contains_key(k)
                        && key_live(final(self).graph, k))
                &&& r.unwrap()@ == despawns_upto(
                    final(self).graph,
                    old(self).registry.entries@,
                    old(self).registry.entries@.len() as int,
                )
            },
    {
        let mut cmds: Vec<RenderCommand> = Vec::new();
        match self.graph.remove_node(id) {
            Ok(_) => {
                self.registry.prune(&self.graph, &mut cmds);
                Ok(cmds)
            },
            Err(e) => Err(e),
        }
    }

    /// One frame: apply the pointer events to the viewport, the drag
    /// state and the cursor in arrival order; consume the first picking
    /// event - and only the first; sync every node's visuals, spawning
    /// each at most once ever; then route the edges against the current
    /// world cursor. Returns the frame's render commands.
    pub fn tick(&mut self, input: &FrameInput) -> (cmds: Vec<RenderCommand>)
        requires
            old(self).wf(),
            old(self).registry.next_handle as int + 4 * old(self).graph.nodes@.len() + old(
                self,
            ).graph.edges@.len() <= u64::MAX as int,
        ensures
            final(self).wf(),
            // the handle counter stays bounded, so the next frame's tick
            // is callable from this contract alone
            final(self).registry.next_handle as int <= old(self).registry.next_handle as int + 4
                * old(self).graph.nodes@.len() + old(self).graph.edges@.len(),
            // the pointer stage, exactly
            final(self).viewport == viewport_fold(old(self).viewport, input.pointer@),
            final(self).cursor == cursor_fold(old(self).cursor, input.pointer@),
            // only the first picking event reaches the graph, and it can
            // only flip an input's state: the visual shape never changes
            final(self).graph.edges@ == old(self).graph.edges@,
            same_visual_shape(old(self).graph, final(self).graph),
            input.picking@.len() == 0 ==> final(self).graph.nodes@ == old(self).graph.nodes@
                && final(self).interaction == interact_fold(
                old(self).interaction,
                input.pointer@,
            ),
            input.picking@.len() > 0 ==> final(self).graph.nodes@ == picked_nodes(
                old(self).graph,
                old(self).registry,
                input.picking@[0],
            ) && final(self).interaction == picked_state(
                interact_fold(old(self).interaction, input.pointer@),
                old(self).registry,
                input.picking@[0],
            ),
            // after the frame every required visual exists, exactly once
            covers_nodes(final(self).registry, final(self).graph),
            covers_edges(final(self).registry, final(self).graph),
            forall|k: ElementKey| #[trigger]
                final(self).registry.contains_key(k) <==> old(self).registry.contains_key(k)
                    || node_key_required(final(self).graph, k) || edge_key_required(
                    final(self).graph,
                    k,
                ),
            extends(final(self).registry.entries@, old(self).registry.entries@),
            final(self).registry.entries@.len() == old(self).registry.entries@.len()
                + spawn_count(cmds@),
            // spawn-once: a registry that already covers the graph gains
            // nothing, however many further ticks run
            covers_nodes(old(self).registry, final(self).graph) && covers_edges(
                old(self).registry,
                final(self).graph,
            ) ==> final(self).registry.entries@ == old(self).registry.entries@ && spawn_count(
                cmds@,
            ) == 0,
            // the frame's restyle commands come first, exactly as the
            // first picking event owes them
            input.picking@.len() > 0 ==> extends(
                cmds@,
                crate::interact::picked_cmds(
                    old(self).graph,
                    old(self).registry,
                    input.picking@[0],
                ),
            ),
            // every required node visual receives exactly its owed
            // command: a full spawn when it was absent before the frame,
            // an in-place geometry update when present
            forall|k: ElementKey| #[trigger]
                node_key_required(final(self).graph, k) ==> exists|j: int, idx: int|
                    #![auto]
                    0 <= j < cmds@.len() && 0 <= idx < final(self).registry.entries@.len()
                        && final(self).registry.entries@[idx].key == k && cmds@[j]
                        == crate::sync::cmd_for_key(
                        final(self).graph,
                        k,
                        final(self).registry.entries@[idx].handle,
                        !old(self).registry.contains_key(k),
                    ),
            // and every routed edge its owed command, against this
            // frame's world cursor
            forall|k: ElementKey| #[trigger]
                edge_key_required(final(self).graph, k) ==> exists|j: int, idx: int|
                    #![auto]
                    0 <= j < cmds@.len() && 0 <= idx < final(self).registry.entries@.len()
                        && final(self).registry.entries@[idx].key == k && cmds@[j]
                        == crate::router::cmd_for_edge(
                        final(self).graph,
                        k->EdgeCurve_0,
                        frame_cursor_world(
                            viewport_fold(old(self).viewport, input.pointer@),
                            cursor_fold(old(self).cursor, input.pointer@),
                        ),
                        final(self).registry.entries@[idx].handle,
                        !old(self).registry.contains_key(k),
                    ),
    {
        let ghost v0 = self.viewport;
        let ghost st0 = self.interaction;
        let ghost c0 = self.cursor;
        let mut cmds: Vec<RenderCommand> = Vec::new();
        // raw pointer input, in arrival order
        let np = input.pointer.len();
        let mut i: usize = 0;
        while i < np
            invariant
                np == input.pointer@.len(),
                i <= np,
                self.graph == old(self).graph,
                self.registry == old(self).registry,
                self.graph.wf(),
                self.viewport.wf(),
                self.viewport == viewport_fold(v0, input.pointer@.take(i as int)),
                self.interaction == interact_fold(st0, input.pointer@.take(i as int)),
                self.cursor == cursor_fold(c0, input.pointer@.take(i as int)),
            decreases np - i,
        {
            let ghost pref = input.pointer@.take(i as int);
            let ev = input.pointer[i];
            match ev {
                PointerEvent::Wheel { delta_y, pos } => {
                    self.viewport.apply_wheel(delta_y, pos);
                    self.cursor = Some(pos);
                },
                PointerEvent::Move { dx, dy } => {
                    self.viewport.apply_pan(dx, dy);
                },
                PointerEvent::Down => {
                    self.viewport.begin_drag();
                    on_pointer_down(&mut self.interaction);
                },
                PointerEvent::Up => {
                    self.viewport.end_drag();
                    on_pointer_up(&mut self.interaction);
                },
                PointerEvent::Leave => {
                    self.viewport.end_drag();
                    on_pointer_leave(&mut self.interaction);
                },
            }
            proof {
                let prefn = input.pointer@.take(i as int + 1);
                assert(prefn.drop_last() =~= pref);
                assert(prefn.last() == input.pointer@[i as int]);
            }
            i = i + 1;
        }
        proof {
            assert(input.pointer@.take(np as int) =~= input.pointer@);
        }
        // the first queued picking event, and only it
        process_picking(
            &mut self.graph,
            &self.registry,
            &mut self.interaction,
            &input.picking,
            &mut cmds,
        );
        proof {
            if input.picking@.len() > 0 {
                crate::interact::lemma_picked_cmds_no_spawns(
                    old(self).graph,
                    old(self).registry,
                    input.picking@[0],
                );
                lemma_picking_preserves_shape(
                    old(self).graph,
                    self.graph,
                    old(self).registry,
                    input.picking@[0],
                );
            } else {
                assert forall|i: int|
                    0 <= i < old(self).graph.nodes@.len() implies #[trigger] slot_same_shape(
                    old(self).graph.nodes@[i],
                    self.graph.nodes@[i],
                ) by {}
            }
            lemma_no_spawns_in_fills(cmds@);
        }
        let ghost cmds_pick = cmds@;
        // the per-frame graph advance
        update_graph(&mut self.graph);
        // graph-to-visual sync
        sync_nodes(&self.graph, &mut self.registry, &mut cmds);
        let ghost reg_sync = self.registry;
        let ghost cmds_sync = cmds@;
        // edge routing against the current world cursor
        let cw = match self.cursor {
            Some(p) => match self.viewport.screen_to_world(p) {
                Some(w) => w,
                None => Point2::zero(),
            },
            None => Point2::zero(),
        };
        route_edges(&self.graph, cw, &mut self.registry, &mut cmds);
        proof {
            let gfin = self.graph;
            // the restyle commands stand first, unchanged by the appends
            if input.picking@.len() > 0 {
                let picked = crate::interact::picked_cmds(
                    old(self).graph,
                    old(self).registry,
                    input.picking@[0],
                );
                assert(cmds_pick =~= picked);
                assert forall|j: int| 0 <= j < picked.len() implies #[trigger] cmds@[j]
                    == picked[j] by {
                    assert(cmds_sync[j] == cmds_pick[j]);
                    assert(cmds@[j] == cmds_sync[j]);
                }
            }
            // each required node visual's owed command, carried through
            // the router's appends
            assert forall|k: ElementKey| #[trigger]
                node_key_required(gfin, k) implies exists|j: int, idx: int|
                #![auto]
                0 <= j < cmds@.len() && 0 <= idx < self.registry.entries@.len()
                    && self.registry.entries@[idx].key == k && cmds@[j]
                    == crate::sync::cmd_for_key(
                    gfin,
                    k,
                    self.registry.entries@[idx].handle,
                    !old(self).registry.contains_key(k),
                ) by {
                crate::sync::lemma_witness_extends(
                    gfin,
                    reg_sync,
                    self.registry,
                    cmds_sync,
                    cmds@,
                    Seq::empty(),
                    old(self).registry,
                    k,
                );
            }
            // the routed edges' owed commands, with the fresh flag and
            // cursor expressed against the frame's starting state
            assert(self.viewport == viewport_fold(old(self).viewport, input.pointer@));
            assert(cw == frame_cursor_world(self.viewport, self.cursor));
            assert forall|k: ElementKey| #[trigger]
                edge_key_required(gfin, k) implies exists|j: int, idx: int|
                #![auto]
                0 <= j < cmds@.len() && 0 <= idx < self.registry.entries@.len()
                    && self.registry.entries@[idx].key == k && cmds@[j]
                    == crate::router::cmd_for_edge(
                    gfin,
                    k->EdgeCurve_0,
                    frame_cursor_world(
                        viewport_fold(old(self).viewport, input.pointer@),
                        cursor_fold(old(self).cursor, input.pointer@),
                    ),
                    self.registry.entries@[idx].handle,
                    !old(self).registry.contains_key(k),
                ) by {
                assert(!node_key_required(gfin, k));
                assert(reg_sync.contains_key(k) == old(self).registry.contains_key(k));
            }
        }
        cmds
    }
}

} // verus!
