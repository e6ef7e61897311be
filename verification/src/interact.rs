//! Hit-testing results and the interaction state machine.
//!
//! The picking collaborator resolves the pointer against the topmost
//! visual and reports hover-enter, hover-leave and click events carrying
//! the visual's handle. Exactly one picking event is consumed per frame -
//! the first queued one; later events of the same frame are intentionally
//! dropped, so one logical user action can never toggle a node twice in
//! one tick. A click on an input node flips its boolean state; a click on
//! anything without a boolean state is a no-op. Hover only restyles a
//! node whose state is off: an active state keeps visual priority.
use vstd::prelude::*;
use crate::graph::{Graph, NodeId, NodeSlot};
use crate::nodes::{NodeVariant, InputNode};
use crate::registry::{VisualRegistry, ElementKey, RegEntry};
use crate::render::{RenderCommand, FillStyle};

verus! {

/// The pointer interaction states: nothing under the pointer, a visual
/// hovered, or a visual held pressed.
#[derive(Clone, Copy, Debug, PartialEq, Eq, Structural)]
pub enum InteractionState {
    Idle,
    Hovering(ElementKey),
    Pressed(ElementKey),
}

/// A picking event delivered by the host, carrying the handle of the
/// visual that was hit.
#[derive(Clone, Copy, Debug, PartialEq, Eq, Structural)]
pub enum PickEvent {
    HoverEnter(u64),
    HoverLeave(u64),
    Clicked(u64),
}

/// The registry maps handle `h` to key `k`.
pub open spec fn has_entry(reg: VisualRegistry, k: ElementKey, h: u64) -> bool {
    exists|i: int|
        0 <= i < reg.entries@.len() && reg.entries@[i] == (RegEntry { key: k, handle: h })
}

/// The key registered under handle `h` (meaningful when one exists; by
/// registry well-formedness it is then unique).
pub open spec fn key_for_handle(reg: VisualRegistry, h: u64) -> ElementKey {
    (choose|k: ElementKey| has_entry(reg, k, h))
}

/// Handle `h` names the body visual of live input node `id`: the one case
/// where a click has something to toggle.
pub open spec fn clickable(g: Graph, reg: VisualRegistry, h: u64, id: NodeId) -> bool {
    &&& has_entry(reg, ElementKey::NodeBody(id), h)
    &&& g.node_live(id)
    &&& g.node_spec(id) is In
}

/// The record with its boolean state flipped (meaningful for inputs).
pub open spec fn toggled_rec(rec: NodeVariant) -> NodeVariant {
    match rec {
        NodeVariant::In(n) => NodeVariant::In(InputNode { state: !n.state, pos: n.pos }),
        _ => rec,
    }
}

/// The node arena after one picking event: a click on the body of a live
/// input node flips that node's state; every other event leaves the graph
/// untouched.
pub open spec fn picked_nodes(g: Graph, reg: VisualRegistry, ev: PickEvent) -> Seq<NodeSlot> {
    match ev {
        PickEvent::Clicked(h) => if exists|id: NodeId| clickable(g, reg, h, id) {
            let id = choose|id: NodeId| clickable(g, reg, h, id);
            g.nodes@.update(
                id.index as int,
                NodeSlot { gen: id.gen, rec: Some(toggled_rec(g.node_spec(id))) },
            )
        } else {
            g.nodes@
        },
        _ => g.nodes@,
    }
}

/// The interaction state after one picking event: entering a registered
/// visual hovers it, leaving returns to idle, a click keeps the state.
pub open spec fn picked_state(
    st: InteractionState,
    reg: VisualRegistry,
    ev: PickEvent,
) -> InteractionState {
    match ev {
        PickEvent::HoverEnter(h) => if reg.contains_handle(h) {
            InteractionState::Hovering(key_for_handle(reg, h))
        } else {
            st
        },
        PickEvent::HoverLeave(h) => if reg.contains_handle(h) {
            InteractionState::Idle
        } else {
            st
        },
        PickEvent::Clicked(_) => st,
    }
}

/// The restyle commands one picking event owes: hover styles for an
/// inactive input node, the active or resting style after a toggle.
pub open spec fn picked_cmds(g: Graph, reg: VisualRegistry, ev: PickEvent) -> Seq<RenderCommand> {
    match ev {
        PickEvent::HoverEnter(h) => if exists|id: NodeId| clickable(g, reg, h, id) {
            let id = choose|id: NodeId| clickable(g, reg, h, id);
            if !(g.node_spec(id)->In_0.state) {
                seq![RenderCommand::UpdateFill { handle: h, fill: FillStyle::SocketHovered }]
            } else {
                Seq::empty()
            }
        } else {
            Seq::empty()
        },
        PickEvent::HoverLeave(h) => if exists|id: NodeId| clickable(g, reg, h, id) {
            let id = choose|id: NodeId| clickable(g, reg, h, id);
            if !(g.node_spec(id)->In_0.state) {
                seq![RenderCommand::UpdateFill { handle: h, fill: FillStyle::Socket }]
            } else {
                Seq::empty()
            }
        } else {
            Seq::empty()
        },
        PickEvent::Clicked(h) => if exists|id: NodeId| clickable(g, reg, h, id) {
            let id = choose|id: NodeId| clickable(g, reg, h, id);
            if !(g.node_spec(id)->In_0.state) {
                seq![RenderCommand::UpdateFill { handle: h, fill: FillStyle::Active }]
            } else {
                seq![RenderCommand::UpdateFill { handle: h, fill: FillStyle::Socket }]
            }
        } else {
            Seq::empty()
        },
    }
}

/// A picking event only ever restyles fills: none of its commands is a
/// spawn.
pub proof fn lemma_picked_cmds_no_spawns(g: Graph, reg: VisualRegistry, ev: PickEvent)
    ensures
        forall|i: int|
            0 <= i < picked_cmds(g, reg, ev).len() ==> !(#[trigger] picked_cmds(g, reg, ev)[i]
                is Spawn),
{
}

/// Law: picking consumes only the first queued event, so any two frames
/// whose event queues agree on their first event mutate the graph
/// identically - in particular a duplicated click delivered twice in one
/// frame flips a toggle at most once.
pub proof fn lemma_single_dispatch(
    g: Graph,
    reg: VisualRegistry,
    e1: Seq<PickEvent>,
    e2: Seq<PickEvent>,
)
    requires
        e1.len() > 0,
        e2.len() > 0,
        e1[0] == e2[0],
    ensures
        picked_nodes(g, reg, e1[0]) == picked_nodes(g, reg, e2[0]),
{
}

/// Process the frame's picking events: the first event - and only the
/// first - is applied to the graph, the interaction state and the restyle
/// command list, exactly as the `picked_*` functions describe.
pub fn process_picking(
    g: &mut Graph,
    reg: &VisualRegistry,
    st: &mut InteractionState,
    events: &Vec<PickEvent>,
    cmds: &mut Vec<RenderCommand>,
)
    requires
        old(g).wf(),
        reg.wf(),
    ensures
        final(g).wf(),
        final(g).edges@ == old(g).edges@,
        events@.len() == 0 ==> final(g).nodes@ == old(g).nodes@ && *final(st) == *old(st)
            && final(cmds)@ == old(cmds)@,
        events@.len() > 0 ==> final(g).nodes@ == picked_nodes(*old(g), *reg, events@[0]),
        events@.len() > 0 ==> *final(st) == picked_state(*old(st), *reg, events@[0]),
        events@.len() > 0 ==> final(cmds)@ == old(cmds)@ + picked_cmds(*old(g), *reg, events@[0]),
{
    if events.len() == 0 {
        return ;
    }
    let ev = events[0];
    let ghost g0 = *g;
    match ev {
        PickEvent::HoverEnter(h) => {
            match reg.key_of_handle(h) {
                Some(key) => {
                    proof {
                        lemma_unique_handle_key(*reg, h, key);
                    }
                    *st = InteractionState::Hovering(key);
                    match key {
                        ElementKey::NodeBody(id) => {
                            match g.node(id) {
                                Ok(NodeVariant::In(n)) => {
                                    proof {
                                        assert(clickable(g0, *reg, h, id));
                                        lemma_unique_clickable(g0, *reg, h, id);
                                    }
                                    if !n.state {
                                        cmds.push(
                                            RenderCommand::UpdateFill {
                                                handle: h,
                                                fill: FillStyle::SocketHovered,
                                            },
                                        );
                                        proof {
                                            assert(final(cmds)@ =~= old(cmds)@ + picked_cmds(
                                                g0,
                                                *reg,
                                                ev,
                                            ));
                                        }
                                    } else {
                                        proof {
                                            assert(final(cmds)@ =~= old(cmds)@ + picked_cmds(
                                                g0,
                                                *reg,
                                                ev,
                                            ));
                                        }
                                    }
                                },
                                _ => {
                                    proof {
                                        lemma_no_clickable(g0, *reg, h, key);
                                        assert(final(cmds)@ =~= old(cmds)@ + picked_cmds(
                                            g0,
                                            *reg,
                                            ev,
                                        ));
                                    }
                                },
                            }
                        },
                        _ => {
                            proof {
                                lemma_no_clickable(g0, *reg, h, key);
                                assert(final(cmds)@ =~= old(cmds)@ + picked_cmds(g0, *reg, ev));
                            }
                        },
                    }
                },
                None => {
                    proof {
                        lemma_none_clickable(g0, *reg, h);
                        assert(final(cmds)@ =~= old(cmds)@ + picked_cmds(g0, *reg, ev));
                    }
                },
            }
        },
        PickEvent::HoverLeave(h) => {
            match reg.key_of_handle(h) {
                Some(key) => {
                    proof {
                        lemma_unique_handle_key(*reg, h, key);
                    }
                    *st = InteractionState::Idle;
                    match key {
                        ElementKey::NodeBody(id) => {
                            match g.node(id) {
                                Ok(NodeVariant::In(n)) => {
                                    proof {
                                        assert(clickable(g0, *reg, h, id));
                                        lemma_unique_clickable(g0, *reg, h, id);
                                    }
                                    if !n.state {
                                        cmds.push(
                                            RenderCommand::UpdateFill {
                                                handle: h,
                                                fill: FillStyle::Socket,
                                            },
                                        );
                                        proof {
                                            assert(final(cmds)@ =~= old(cmds)@ + picked_cmds(
                                                g0,
                                                *reg,
                                                ev,
                                            ));
                                        }
                                    } else {
                                        proof {
                                            assert(final(cmds)@ =~= old(cmds)@ + picked_cmds(
                                                g0,
                                                *reg,
                                                ev,
                                            ));
                                        }
                                    }
                                },
                                _ => {
                                    proof {
                                        lemma_no_clickable(g0, *reg, h, key);
                                        assert(final(cmds)@ =~= old(cmds)@ + picked_cmds(
                                            g0,
                                            *reg,
                                            ev,
                                        ));
                                    }
                                },
                            }
                        },
                        _ => {
                            proof {
                                lemma_no_clickable(g0, *reg, h, key);
                                assert(final(cmds)@ =~= old(cmds)@ + picked_cmds(g0, *reg, ev));
                            }
                        },
                    }
                },
                None => {
                    proof {
                        lemma_none_clickable(g0, *reg, h);
                        assert(final(cmds)@ =~= old(cmds)@ + picked_cmds(g0, *reg, ev));
                    }
                },
            }
        },
        PickEvent::Clicked(h) => {
            match reg.key_of_handle(h) {
                Some(key) => {
                    proof {
                        lemma_unique_handle_key(*reg, h, key);
                    }
                    match key {
                        ElementKey::NodeBody(id) => {
                            match g.node(id) {
                                Ok(NodeVariant::In(n)) => {
                                    proof {
                                        assert(clickable(g0, *reg, h, id));
                                        lemma_unique_clickable(g0, *reg, h, id);
                                    }
                                    let flipped = InputNode { state: !n.state, pos: n.pos };
                                    let res = g.set_node(id, NodeVariant::In(flipped));
                                    proof {
                                        assert(res.is_ok());
                                        assert(g.nodes@ =~= picked_nodes(g0, *reg, ev));
                                    }
                                    cmds.push(
                                        RenderCommand::UpdateFill {
                                            handle: h,
                                            fill: if flipped.state {
                                                FillStyle::Active
                                            } else {
                                                FillStyle::Socket
                                            },
                                        },
                                    );
                                    proof {
                                        assert(final(cmds)@ =~= old(cmds)@ + picked_cmds(
                                            g0,
                                            *reg,
                                            ev,
                                        ));
                                    }
                                },
                                _ => {
                                    proof {
                                        lemma_no_clickable(g0, *reg, h, key);
                                        assert(final(cmds)@ =~= old(cmds)@ + picked_cmds(
                                            g0,
                                            *reg,
                                            ev,
                                        ));
                                    }
                                },
                            }
                        },
                        _ => {
                            proof {
                                lemma_no_clickable(g0, *reg, h, key);
                                assert(final(cmds)@ =~= old(cmds)@ + picked_cmds(g0, *reg, ev));
                            }
                        },
                    }
                },
                None => {
                    proof {
                        lemma_none_clickable(g0, *reg, h);
                        assert(final(cmds)@ =~= old(cmds)@ + picked_cmds(g0, *reg, ev));
                    }
                },
            }
        },
    }
}

/// With a well-formed registry, the key found for a handle is the unique
/// one: any key related to `h` equals it.
proof fn lemma_unique_handle_key(reg: VisualRegistry, h: u64, key: ElementKey)
    requires
        reg.wf(),
        exists|i: int|
            0 <= i < reg.entries@.len() && reg.entries@[i] == (RegEntry { key, handle: h }),
    ensures
        forall|k2: ElementKey| has_entry(reg, k2, h) ==> k2 == key,
        key_for_handle(reg, h) == key,
        reg.contains_handle(h),
{
    let i = choose|i: int|
        0 <= i < reg.entries@.len() && reg.entries@[i] == (RegEntry { key, handle: h });
    assert forall|k2: ElementKey| has_entry(reg, k2, h) implies k2 == key by {
        let j = choose|j: int|
            0 <= j < reg.entries@.len() && reg.entries@[j] == (RegEntry { key: k2, handle: h });
        if i < j {
            assert(reg.entries@[i].handle != reg.entries@[j].handle);
        } else if j < i {
            assert(reg.entries@[j].handle != reg.entries@[i].handle);
        }
    }
    assert(has_entry(reg, key, h));
}

/// When the registry resolves `h` to the body of a live input node, that
/// node is the unique clickable one.
proof fn lemma_unique_clickable(g: Graph, reg: VisualRegistry, h: u64, id: NodeId)
    requires
        reg.wf(),
        clickable(g, reg, h, id),
    ensures
        (choose|id2: NodeId| clickable(g, reg, h, id2)) == id,
{
    lemma_unique_handle_key(
        reg,
        h,
        ElementKey::NodeBody(id),
    );
    let id2 = choose|id2: NodeId| clickable(g, reg, h, id2);
    assert(clickable(g, reg, h, id2));
    assert(ElementKey::NodeBody(id2) == ElementKey::NodeBody(id));
}

/// When `h` resolves to a key that is not the body of a live input node,
/// nothing is clickable through `h`.
proof fn lemma_no_clickable(g: Graph, reg: VisualRegistry, h: u64, key: ElementKey)
    requires
        reg.wf(),
        exists|i: int|
            0 <= i < reg.entries@.len() && reg.entries@[i] == (RegEntry { key, handle: h }),
        match key {
            ElementKey::NodeBody(id) => !(g.node_live(id) && g.node_spec(id) is In),
            _ => true,
        },
    ensures
        !exists|id: NodeId| clickable(g, reg, h, id),
{
    lemma_unique_handle_key(reg, h, key);
    if exists|id: NodeId| clickable(g, reg, h, id) {
        let id = choose|id: NodeId| clickable(g, reg, h, id);
        assert(has_entry(reg, ElementKey::NodeBody(id), h));
        assert(ElementKey::NodeBody(id) == key);
    }
}

/// When no visual carries handle `h`, nothing is clickable through `h`.
proof fn lemma_none_clickable(g: Graph, reg: VisualRegistry, h: u64)
    requires
        !reg.contains_handle(h),
    ensures
        !exists|id: NodeId| clickable(g, reg, h, id),
{
    if exists|id: NodeId| clickable(g, reg, h, id) {
        let id = choose|id: NodeId| clickable(g, reg, h, id);
        let i = choose|i: int|
            0 <= i < reg.entries@.len() && reg.entries@[i] == (RegEntry {
                key: ElementKey::NodeBody(id),
                handle: h,
            });
        assert(reg.entries@[i].handle == h);
    }
}

/// Pressing the pointer pins the hovered visual: `Hovering` becomes
/// `Pressed`; any other state is unchanged.
pub fn on_pointer_down(st: &mut InteractionState)
    ensures
        *final(st) == match *old(st) {
            InteractionState::Hovering(k) => InteractionState::Pressed(k),
            s => s,
        },
{
    match *st {
        InteractionState::Hovering(k) => {
            *st = InteractionState::Pressed(k);
        },
        _ => {},
    }
}

/// Releasing the pointer returns a pressed visual to hovered; any other
/// state is unchanged.
pub fn on_pointer_up(st: &mut InteractionState)
    ensures
        *final(st) == match *old(st) {
            InteractionState::Pressed(k) => InteractionState::Hovering(k),
            s => s,
        },
{
    match *st {
        InteractionState::Pressed(k) => {
            *st = InteractionState::Hovering(k);
        },
        _ => {},
    }
}

/// The pointer leaving the canvas always returns to idle, exactly like a
/// release followed by leaving every hit region: no state can get stuck.
pub fn on_pointer_leave(st: &mut InteractionState)
    ensures
        *final(st) == InteractionState::Idle,
{
    *st = InteractionState::Idle;
}

} // verus!
