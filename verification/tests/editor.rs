use nodecanvas::editor::{setup, update_graph, Editor, FrameInput, PointerEvent};
use nodecanvas::frac::Frac;
use nodecanvas::geom::{Point2, ScreenPoint};
use nodecanvas::graph::NodeId;
use nodecanvas::interact::{InteractionState, PickEvent};
use nodecanvas::nodes::{BinaryNode, NodeVariant};
use nodecanvas::registry::ElementKey;
use nodecanvas::render::{z_of, FillStyle, RenderCommand, ShapeDesc, VisualLayer, Z_BAND};

fn empty_input() -> FrameInput {
    FrameInput { pointer: Vec::new(), picking: Vec::new() }
}

fn demo_editor() -> Editor {
    let mut ed = Editor::new();
    ed.graph = setup();
    ed
}

fn spawn_count_of(cmds: &[RenderCommand]) -> usize {
    cmds.iter()
        .filter(|c| matches!(c, RenderCommand::Spawn { .. }))
        .count()
}

fn val(f: Frac) -> f64 {
    f.num as f64 / f.den as f64
}

#[test]
fn first_tick_spawns_every_visual_once() {
    // 4 input bodies + binary body + 3 binary sockets + 4 edges = 12
    let mut ed = demo_editor();
    let cmds = ed.tick(&empty_input());
    assert_eq!(ed.registry.entries.len(), 12);
    assert_eq!(spawn_count_of(&cmds), 12);
}

#[test]
fn later_ticks_spawn_nothing() {
    // after K ticks, for any K >= 1, exactly the same visuals exist
    let mut ed = demo_editor();
    let _ = ed.tick(&empty_input());
    let handles: Vec<u64> = ed.registry.entries.iter().map(|e| e.handle).collect();
    for _ in 0..5 {
        let cmds = ed.tick(&empty_input());
        assert_eq!(spawn_count_of(&cmds), 0);
        assert_eq!(ed.registry.entries.len(), 12);
        let now: Vec<u64> = ed.registry.entries.iter().map(|e| e.handle).collect();
        assert_eq!(now, handles);
    }
}

#[test]
fn demo_scene_visuals_and_edge_endpoints() {
    // one tick with no input: five node bodies, three sockets, four edge
    // segments running from each input's position to the cursor's world
    // position, which defaults to the world origin
    let mut ed = demo_editor();
    let cmds = ed.tick(&empty_input());
    let mut bodies = 0;
    let mut sockets = 0;
    let mut segments: Vec<(f64, f64, f64, f64)> = Vec::new();
    for c in &cmds {
        if let RenderCommand::Spawn { shape, .. } = c {
            match shape {
                ShapeDesc::Circle { center, radius } => {
                    if val(*radius) == 5.0 {
                        // input bodies sit at x = 0; binary sockets do not
                        if val(center.x) == 0.0 {
                            bodies += 1;
                        } else {
                            sockets += 1;
                        }
                    }
                }
                ShapeDesc::RoundedRect { width, height, .. } => {
                    assert_eq!(val(*width), 200.0);
                    assert_eq!(val(*height), 80.0);
                    bodies += 1;
                }
                ShapeDesc::Segment { from, to } => {
                    segments.push((val(from.x), val(from.y), val(to.x), val(to.y)));
                }
            }
        }
    }
    assert_eq!(bodies, 5);
    assert_eq!(sockets, 3);
    assert_eq!(segments.len(), 4);
    for (i, seg) in segments.iter().enumerate() {
        assert_eq!(seg.0, 0.0);
        assert_eq!(seg.1, 10.0 * i as f64);
        // cursor never moved: dangling edges aim at the world origin
        assert_eq!(seg.2, 0.0);
        assert_eq!(seg.3, 0.0);
    }
}

#[test]
fn dangling_edges_follow_the_cursor() {
    // a wheel event fixes the cursor; edges to the void sink aim at its
    // world position afterwards
    let mut ed = demo_editor();
    let _ = ed.tick(&empty_input());
    let input = FrameInput {
        pointer: vec![PointerEvent::Wheel { delta_y: 0, pos: ScreenPoint { x: 900, y: 440 } }],
        picking: Vec::new(),
    };
    let cmds = ed.tick(&input);
    // a non-positive delta is forward scroll, so this zooms in one tick;
    // the world cursor is (900 - origin') / scale'
    let w = ed
        .viewport
        .screen_to_world(ScreenPoint { x: 900, y: 440 })
        .unwrap();
    let mut seen = 0;
    for c in &cmds {
        if let RenderCommand::UpdateGeometry { shape: ShapeDesc::Segment { to, .. }, .. } = c {
            assert_eq!(val(to.x), val(w.x));
            assert_eq!(val(to.y), val(w.y));
            seen += 1;
        }
    }
    assert_eq!(seen, 4);
}

#[test]
fn click_toggles_input_exactly_once() {
    let mut ed = demo_editor();
    let _ = ed.tick(&empty_input());
    let first = NodeId { index: 0, gen: 0 };
    let h = ed.registry.lookup(ElementKey::NodeBody(first)).unwrap();
    let input = FrameInput { pointer: Vec::new(), picking: vec![PickEvent::Clicked(h)] };
    let cmds = ed.tick(&input);
    match ed.graph.node(first).unwrap() {
        NodeVariant::In(n) => assert!(n.state),
        _ => panic!("expected an input node"),
    }
    assert!(cmds.contains(&RenderCommand::UpdateFill { handle: h, fill: FillStyle::Active }));
    // a second click in a later frame toggles back to off
    let cmds2 = ed.tick(&input);
    match ed.graph.node(first).unwrap() {
        NodeVariant::In(n) => assert!(!n.state),
        _ => panic!("expected an input node"),
    }
    assert!(cmds2.contains(&RenderCommand::UpdateFill { handle: h, fill: FillStyle::Socket }));
}

#[test]
fn duplicate_click_in_one_tick_toggles_at_most_once() {
    // the picking collaborator may deliver the same click twice in one
    // frame; only the first queued event is consumed
    let mut ed = demo_editor();
    let _ = ed.tick(&empty_input());
    let first = NodeId { index: 0, gen: 0 };
    let h = ed.registry.lookup(ElementKey::NodeBody(first)).unwrap();
    let input = FrameInput {
        pointer: Vec::new(),
        picking: vec![PickEvent::Clicked(h), PickEvent::Clicked(h)],
    };
    let _ = ed.tick(&input);
    match ed.graph.node(first).unwrap() {
        NodeVariant::In(n) => assert!(n.state, "exactly one flip, not two"),
        _ => panic!("expected an input node"),
    }
}

#[test]
fn hover_restyles_only_inactive_inputs() {
    let mut ed = demo_editor();
    let _ = ed.tick(&empty_input());
    let first = NodeId { index: 0, gen: 0 };
    let h = ed.registry.lookup(ElementKey::NodeBody(first)).unwrap();
    // enter: inactive input gets the hover style
    let enter = FrameInput { pointer: Vec::new(), picking: vec![PickEvent::HoverEnter(h)] };
    let cmds = ed.tick(&enter);
    assert!(cmds.contains(
        &RenderCommand::UpdateFill { handle: h, fill: FillStyle::SocketHovered }
    ));
    assert_eq!(ed.interaction, InteractionState::Hovering(ElementKey::NodeBody(first)));
    // leave: back to the resting style
    let leave = FrameInput { pointer: Vec::new(), picking: vec![PickEvent::HoverLeave(h)] };
    let cmds = ed.tick(&leave);
    assert!(cmds.contains(&RenderCommand::UpdateFill { handle: h, fill: FillStyle::Socket }));
    assert_eq!(ed.interaction, InteractionState::Idle);
    // once active, hovering changes nothing: active takes visual priority
    let click = FrameInput { pointer: Vec::new(), picking: vec![PickEvent::Clicked(h)] };
    let _ = ed.tick(&click);
    let cmds = ed.tick(&enter);
    assert!(!cmds.iter().any(|c| matches!(c, RenderCommand::UpdateFill { .. })));
}

#[test]
fn pointer_down_and_up_drive_pressed_state() {
    let mut ed = demo_editor();
    let _ = ed.tick(&empty_input());
    let first = NodeId { index: 0, gen: 0 };
    let h = ed.registry.lookup(ElementKey::NodeBody(first)).unwrap();
    let enter = FrameInput { pointer: Vec::new(), picking: vec![PickEvent::HoverEnter(h)] };
    let _ = ed.tick(&enter);
    let down = FrameInput { pointer: vec![PointerEvent::Down], picking: Vec::new() };
    let _ = ed.tick(&down);
    assert_eq!(ed.interaction, InteractionState::Pressed(ElementKey::NodeBody(first)));
    assert!(ed.viewport.dragging);
    let up = FrameInput { pointer: vec![PointerEvent::Up], picking: Vec::new() };
    let _ = ed.tick(&up);
    assert_eq!(ed.interaction, InteractionState::Hovering(ElementKey::NodeBody(first)));
    assert!(!ed.viewport.dragging);
    // leaving the canvas resets to idle and ends any drag
    let _ = ed.tick(&down);
    let leave = FrameInput { pointer: vec![PointerEvent::Leave], picking: Vec::new() };
    let _ = ed.tick(&leave);
    assert_eq!(ed.interaction, InteractionState::Idle);
    assert!(!ed.viewport.dragging);
}

#[test]
fn removal_releases_the_visuals() {
    let mut ed = demo_editor();
    let _ = ed.tick(&empty_input());
    assert_eq!(ed.registry.entries.len(), 12);
    let first = NodeId { index: 0, gen: 0 };
    let cmds = ed.remove_node(first).unwrap();
    // the input's body visual and its edge visual are despawned
    assert_eq!(cmds.len(), 2);
    assert!(cmds.iter().all(|c| matches!(c, RenderCommand::Despawn { .. })));
    assert_eq!(ed.registry.entries.len(), 10);
    assert!(ed.registry.lookup(ElementKey::NodeBody(first)).is_none());
    // the next tick spawns nothing new
    let cmds = ed.tick(&empty_input());
    assert_eq!(spawn_count_of(&cmds), 0);
    assert_eq!(ed.registry.entries.len(), 10);
}

#[test]
fn routing_follows_the_graph_transitively() {
    // input -> binary -> void: the binary's outgoing edge is routed too,
    // leaving from its output socket
    let mut ed = Editor::new();
    let a = ed.graph.add_node(NodeVariant::In(nodecanvas::nodes::InputNode::new(
        false,
        Point2::from_ints(0, 0),
    )));
    let b = ed.graph.add_node(NodeVariant::Binary(BinaryNode::new(
        Point2::from_ints(300, 0),
        Frac::from_int(200),
        Frac::from_int(80),
    )));
    let sink = ed.graph.add_node(NodeVariant::Void);
    let _ = ed.graph.add_edge(a, b).unwrap();
    let _ = ed.graph.add_edge(b, sink).unwrap();
    let cmds = ed.tick(&empty_input());
    let mut froms: Vec<(f64, f64)> = Vec::new();
    for c in &cmds {
        if let RenderCommand::Spawn { shape: ShapeDesc::Segment { from, .. }, .. } = c {
            froms.push((val(from.x), val(from.y)));
        }
    }
    froms.sort_by(|p, q| p.partial_cmp(q).unwrap());
    // edge 1 leaves the input at (0, 0); edge 2 leaves the binary's
    // output socket at centre + (width / 2, 0) = (400, 0)
    assert_eq!(froms, vec![(0.0, 0.0), (400.0, 0.0)]);
}

#[test]
fn unknown_pick_handles_are_ignored() {
    let mut ed = demo_editor();
    let _ = ed.tick(&empty_input());
    let before = ed.registry.entries.len();
    let input = FrameInput { pointer: Vec::new(), picking: vec![PickEvent::Clicked(9999)] };
    let cmds = ed.tick(&input);
    assert!(!cmds.iter().any(|c| matches!(c, RenderCommand::UpdateFill { .. })));
    assert_eq!(ed.registry.entries.len(), before);
}

#[test]
fn update_graph_is_a_fixed_point() {
    let mut g = setup();
    let before = g.node_ids();
    update_graph(&mut g);
    assert_eq!(g.node_ids(), before);
}

#[test]
fn z_order_layers_sockets_above_bodies_above_edges() {
    let edge_z = z_of(VisualLayer::Edges, 999);
    let body_z = z_of(VisualLayer::Bodies, 0);
    let sock_z = z_of(VisualLayer::Sockets, 0);
    assert!(edge_z < body_z);
    assert!(body_z < sock_z);
    assert_eq!(body_z, Z_BAND);
    // within a layer, the element index breaks ties deterministically
    assert!(z_of(VisualLayer::Bodies, 1) < z_of(VisualLayer::Bodies, 2));
}

#[test]
fn unary_and_void_nodes_decline_to_render() {
    let mut ed = Editor::new();
    let _ = ed
        .graph
        .add_node(NodeVariant::Unary(nodecanvas::nodes::UnaryNode {}));
    let _ = ed.graph.add_node(NodeVariant::Void);
    let cmds = ed.tick(&empty_input());
    assert_eq!(spawn_count_of(&cmds), 0);
    assert_eq!(ed.registry.entries.len(), 0);
}

#[test]
fn picking_resolves_handles_back_to_elements() {
    let mut ed = demo_editor();
    let _ = ed.tick(&empty_input());
    let first = NodeId { index: 0, gen: 0 };
    let h = ed.registry.lookup(ElementKey::NodeBody(first)).unwrap();
    assert_eq!(ed.registry.key_of_handle(h), Some(ElementKey::NodeBody(first)));
    assert_eq!(ed.registry.key_of_handle(u64::MAX), None);
}

#[test]
fn empty_graph_ticks_quietly() {
    let mut ed = Editor::new();
    for _ in 0..3 {
        let cmds = ed.tick(&empty_input());
        assert!(cmds.is_empty());
    }
    assert_eq!(ed.registry.entries.len(), 0);
}

#[test]
fn fill_styles_reference_colors() {
    assert_eq!(FillStyle::Active.rgb(), (255, 25, 25));
    assert_eq!(FillStyle::Socket.rgb(), (34, 34, 34));
    assert_eq!(FillStyle::SocketHovered.rgb(), (40, 40, 40));
    assert_eq!(FillStyle::EdgeStroke.rgb(), (102, 102, 102));
}
