use nodecanvas::editor::setup;
use nodecanvas::frac::Frac;
use nodecanvas::geom::Point2;
use nodecanvas::graph::{Graph, GraphError, NodeId};
use nodecanvas::nodes::{
    socket_abs_pos, BinaryNode, InputNode, NodeSocket, NodeVariant, UnaryNode,
};

fn input_at(x: i64, y: i64) -> NodeVariant {
    NodeVariant::In(InputNode::new(false, Point2::from_ints(x, y)))
}

#[test]
fn add_and_read_nodes() {
    let mut g = Graph::new();
    let a = g.add_node(input_at(0, 0));
    let b = g.add_node(NodeVariant::Void);
    assert_eq!(a, NodeId { index: 0, gen: 0 });
    assert_eq!(b, NodeId { index: 1, gen: 0 });
    match g.node(a) {
        Ok(NodeVariant::In(n)) => {
            assert!(!n.state);
            assert_eq!(n.pos.x.num, 0);
        }
        _ => panic!("expected an input node"),
    }
    let ids = g.node_ids();
    assert_eq!(ids.len(), 2);
    assert_eq!(ids[0], a);
    assert_eq!(ids[1], b);
}

#[test]
fn add_edge_rejects_unknown_handles() {
    let mut g = Graph::new();
    let a = g.add_node(input_at(0, 0));
    let ghost_id = NodeId { index: 7, gen: 0 };
    assert_eq!(g.add_edge(a, ghost_id), Err(GraphError::InvalidHandle));
    assert_eq!(g.add_edge(ghost_id, a), Err(GraphError::InvalidHandle));
    let stale_gen = NodeId { index: 0, gen: 1 };
    assert_eq!(g.add_edge(stale_gen, a), Err(GraphError::InvalidHandle));
}

#[test]
fn node_lookup_fails_with_invalid_handle() {
    let g = Graph::new();
    let id = NodeId { index: 0, gen: 0 };
    assert!(matches!(g.node(id), Err(GraphError::InvalidHandle)));
    match g.edges_from(id) {
        Err(GraphError::InvalidHandle) => {}
        _ => panic!("expected InvalidHandle"),
    }
}

#[test]
fn edges_from_lists_outgoing_in_order() {
    let mut g = Graph::new();
    let a = g.add_node(input_at(0, 0));
    let b = g.add_node(input_at(0, 10));
    let sink = g.add_node(NodeVariant::Void);
    let e1 = g.add_edge(a, sink).unwrap();
    let _ = g.add_edge(b, sink).unwrap();
    let e3 = g.add_edge(a, b).unwrap();
    let out = g.edges_from(a).unwrap();
    assert_eq!(out.len(), 2);
    assert_eq!(out[0], e1);
    assert_eq!(out[1], e3);
    assert_eq!(g.edges_from(sink).unwrap().len(), 0);
}

#[test]
fn remove_node_referential_integrity() {
    // removal kills the node, its handle and every incident edge, and no
    // surviving edge references the removed node
    let mut g = setup();
    let first_input = NodeId { index: 0, gen: 0 };
    assert!(g.remove_node(first_input).is_ok());
    assert!(matches!(g.node(first_input), Err(GraphError::InvalidHandle)));
    match g.edges_from(first_input) {
        Err(GraphError::InvalidHandle) => {}
        _ => panic!("expected InvalidHandle"),
    }
    // a second removal of the same handle fails too
    assert_eq!(g.remove_node(first_input), Err(GraphError::InvalidHandle));
    // the other inputs still feed the sink; the removed input's edge is gone
    let mut live_edges = 0;
    for id in g.node_ids() {
        for e in g.edges_from(id).unwrap() {
            let ends = g.edge(e).unwrap();
            assert_ne!(ends.source, first_input);
            assert_ne!(ends.target, first_input);
            live_edges += 1;
        }
    }
    assert_eq!(live_edges, 3);
}

#[test]
fn remove_target_drops_incoming_edges() {
    let mut g = Graph::new();
    let a = g.add_node(input_at(0, 0));
    let sink = g.add_node(NodeVariant::Void);
    let e = g.add_edge(a, sink).unwrap();
    assert!(g.remove_node(sink).is_ok());
    assert_eq!(g.edge(e), Err(GraphError::InvalidHandle));
    assert_eq!(g.edges_from(a).unwrap().len(), 0);
}

#[test]
fn set_node_toggles_state_in_place() {
    let mut g = Graph::new();
    let a = g.add_node(input_at(4, 5));
    let rec = match g.node(a).unwrap() {
        NodeVariant::In(n) => n,
        _ => panic!("expected an input node"),
    };
    let flipped = InputNode::new(!rec.state, rec.pos);
    assert!(g.set_node(a, NodeVariant::In(flipped)).is_ok());
    match g.node(a).unwrap() {
        NodeVariant::In(n) => {
            assert!(n.state);
            assert_eq!(n.pos.x.num, 4);
        }
        _ => panic!("expected an input node"),
    }
}

#[test]
fn binary_node_socket_offsets() {
    // sockets sit relative to the centre: inputs at half the width to the
    // left, one unit above and below; output at half the width right
    let b = BinaryNode::new(
        Point2::from_ints(300, 0),
        Frac::from_int(200),
        Frac::from_int(80),
    );
    assert_eq!(b.socket_a.index, 1);
    assert_eq!(
        b.socket_a.pos.x.num as f64 / b.socket_a.pos.x.den as f64,
        -100.0
    );
    assert_eq!(b.socket_a.pos.y.num, 1);
    assert_eq!(b.socket_b.pos.y.num, -1);
    assert_eq!(b.output.pos.x.num as f64 / b.output.pos.x.den as f64, 100.0);
    assert_eq!(b.output.pos.y.num, 0);
    // absolute position = anchor + offset
    let abs = socket_abs_pos(b.center, &b.output).unwrap();
    assert_eq!(abs.x.num as f64 / abs.x.den as f64, 400.0);
    assert_eq!(abs.y.num as f64 / abs.y.den as f64, 0.0);
}

#[test]
fn node_variant_from_impls() {
    let rec: NodeVariant = InputNode::new(true, Point2::from_ints(1, 2)).into();
    match rec {
        NodeVariant::In(n) => assert!(n.state),
        _ => panic!("expected an input node"),
    }
    let b: NodeVariant =
        BinaryNode::new(Point2::from_ints(0, 0), Frac::from_int(2), Frac::from_int(2)).into();
    match b {
        NodeVariant::Binary(_) => {}
        _ => panic!("expected a binary node"),
    }
    let _ = NodeVariant::Unary(UnaryNode {});
    let sock: NodeSocket<bool> = NodeSocket::new(1, Point2::from_ints(0, 0), Some(false));
    assert_eq!(sock.index, 1);
}

#[test]
fn setup_builds_the_demo_graph() {
    let g = setup();
    let ids = g.node_ids();
    assert_eq!(ids.len(), 6);
    for (i, id) in ids.iter().take(4).enumerate() {
        match g.node(*id).unwrap() {
            NodeVariant::In(n) => {
                assert!(!n.state);
                assert_eq!(n.pos.y.num as f64 / n.pos.y.den as f64, 10.0 * i as f64);
            }
            _ => panic!("expected an input node"),
        }
        assert_eq!(g.edges_from(*id).unwrap().len(), 1);
    }
    match g.node(ids[4]).unwrap() {
        NodeVariant::Binary(b) => {
            assert_eq!(b.center.x.num, 300);
            assert_eq!(b.width.num, 200);
            assert_eq!(b.height.num, 80);
        }
        _ => panic!("expected a binary node"),
    }
    match g.node(ids[5]).unwrap() {
        NodeVariant::Void => {}
        _ => panic!("expected the void sink"),
    }
}
