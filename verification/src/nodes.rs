//! The typed node records of the logic graph.
//!
//! A node is one of a closed set of variants: a toggle input with a single
//! output socket, a binary operator block with two input sockets and one
//! output socket, a reserved unary block, and a void sink with no geometry
//! of its own. Socket positions are stored relative to the owning node's
//! anchor; the absolute position is always anchor plus offset.
use vstd::prelude::*;
use crate::frac::Frac;
use crate::geom::{Point2, point_add, point_sum_fits};

verus! {

/// An input or output attachment point on a node.
///
/// `pos` is the offset of the socket relative to the owning node's anchor
/// position; `state` is an optional boolean payload, used only by sockets
/// that carry a toggleable value.
#[derive(Clone, Copy, Debug)]
pub struct NodeSocket<S> {
    pub index: u32,
    pub pos: Point2,
    pub state: Option<S>,
}

impl<S> NodeSocket<S> {
    /// Well-formed: the relative offset is a valid point.
    pub open spec fn wf(self) -> bool {
        self.pos.wf()
    }

    /// A socket with the given index, relative offset and optional state.
    pub fn new(index: u32, pos: Point2, state: Option<S>) -> (r: NodeSocket<S>)
        requires
            pos.wf(),
        ensures
            r.index == index,
            r.pos == pos,
            r.state == state,
            r.wf(),
    {
        NodeSocket { index, pos, state }
    }
}

/// A toggle switch with a single output socket; its visual is a circle at
/// `pos`, filled according to `state`.
#[derive(Clone, Copy, Debug)]
pub struct InputNode {
    pub state: bool,
    pub pos: Point2,
}

impl InputNode {
    /// Well-formed: the anchor position is a valid point.
    pub open spec fn wf(self) -> bool {
        self.pos.wf()
    }

    /// An input toggle in the given state at the given world position.
    pub fn new(state: bool, pos: Point2) -> (r: InputNode)
        requires
            pos.wf(),
        ensures
            r.state == state,
            r.pos == pos,
            r.wf(),
    {
        InputNode { state, pos }
    }
}

/// A binary operator block: a rectangle of the given width and height
/// centred on `center`, with two input sockets on its left edge and one
/// output socket on its right edge. Socket offsets are relative to the
/// centre, so moving the block moves its sockets with it.
#[derive(Clone, Copy, Debug)]
pub struct BinaryNode {
    pub center: Point2,
    pub width: Frac,
    pub height: Frac,
    pub socket_a: NodeSocket<bool>,
    pub socket_b: NodeSocket<bool>,
    pub output: NodeSocket<bool>,
}

impl BinaryNode {
    /// Well-formed: all positions valid, and the sockets sit at their
    /// defining offsets: inputs at half the width to the left, one unit
    /// above and below the centre line, output at half the width to the
    /// right on the centre line.
    pub open spec fn wf(self) -> bool {
        &&& self.center.wf()
        &&& self.width.wf()
        &&& self.height.wf()
        &&& self.socket_a.wf()
        &&& self.socket_b.wf()
        &&& self.output.wf()
    }

    /// A binary block centred on `center`. The width and height must be
    /// nonnegative and their denominators small enough that half the width
    /// is still representable.
    pub fn new(center: Point2, width: Frac, height: Frac) -> (r: BinaryNode)
        requires
            center.wf(),
            width.wf(),
            height.wf(),
            width.num >= 0,
            height.num >= 0,
            width.den <= 0x3fff_ffff_ffff_ffff,
        ensures
            r.wf(),
            r.center == center,
            r.width == width,
            r.height == height,
            // left-edge input sockets, one unit above and below the centre
            r.socket_a.index == 1 && r.socket_a.pos.x.num == -width.num && r.socket_a.pos.x.den
                == 2 * width.den && r.socket_a.pos.y.num == 1 && r.socket_a.pos.y.den == 1,
            r.socket_b.index == 2 && r.socket_b.pos.x.num == -width.num && r.socket_b.pos.x.den
                == 2 * width.den && r.socket_b.pos.y.num == -1 && r.socket_b.pos.y.den == 1,
            // right-edge output socket on the centre line
            r.output.index == 3 && r.output.pos.x.num == width.num && r.output.pos.x.den == 2
                * width.den && r.output.pos.y.num == 0 && r.output.pos.y.den == 1,
            r.socket_a.state is None && r.socket_b.state is None && r.output.state is None,
    {
        let half_left = Frac { num: -width.num, den: 2 * width.den };
        let half_right = Frac { num: width.num, den: 2 * width.den };
        BinaryNode {
            center,
            width,
            height,
            socket_a: NodeSocket::new(
                1,
                Point2 { x: half_left, y: Frac::from_int(1) },
                None,
            ),
            socket_b: NodeSocket::new(
                2,
                Point2 { x: half_left, y: Frac::from_int(-1) },
                None,
            ),
            output: NodeSocket::new(3, Point2 { x: half_right, y: Frac::zero() }, None),
        }
    }
}

/// A reserved node kind: structurally present, behaviourally inert, with no
/// sockets and no visual.
#[derive(Clone, Copy, Debug)]
pub struct UnaryNode {}

/// The closed set of node kinds carried by graph vertices.
#[derive(Clone, Copy, Debug)]
pub enum NodeVariant {
    In(InputNode),
    Binary(BinaryNode),
    Unary(UnaryNode),
    Void,
}

impl NodeVariant {
    /// Well-formed: the payload, if any, is well-formed.
    pub open spec fn wf(self) -> bool {
        match self {
            NodeVariant::In(n) => n.wf(),
            NodeVariant::Binary(n) => n.wf(),
            NodeVariant::Unary(_) => true,
            NodeVariant::Void => true,
        }
    }
}

impl From<InputNode> for NodeVariant {
    fn from(other: InputNode) -> (r: NodeVariant) {
        NodeVariant::In(other)
    }
}

impl vstd::std_specs::convert::FromSpecImpl<InputNode> for NodeVariant {
    open spec fn obeys_from_spec() -> bool {
        true
    }

    open spec fn from_spec(other: InputNode) -> NodeVariant {
        NodeVariant::In(other)
    }
}

impl From<BinaryNode> for NodeVariant {
    fn from(other: BinaryNode) -> (r: NodeVariant) {
        NodeVariant::Binary(other)
    }
}

impl vstd::std_specs::convert::FromSpecImpl<BinaryNode> for NodeVariant {
    open spec fn obeys_from_spec() -> bool {
        true
    }

    open spec fn from_spec(other: BinaryNode) -> NodeVariant {
        NodeVariant::Binary(other)
    }
}

/// The absolute world position of a socket owned by a node anchored at
/// `anchor`: the anchor plus the socket's relative offset, exactly. The
/// answer is `None` exactly when the exact sum does not fit the fraction
/// fields.
pub fn socket_abs_pos<S>(anchor: Point2, socket: &NodeSocket<S>) -> (r: Option<Point2>)
    requires
        anchor.wf(),
        socket.wf(),
    ensures
        match r {
            Some(p) => p.wf() && p.x.num == anchor.x.num * socket.pos.x.den + socket.pos.x.num
                * anchor.x.den && p.x.den == anchor.x.den * socket.pos.x.den && p.y.num
                == anchor.y.num * socket.pos.y.den + socket.pos.y.num * anchor.y.den && p.y.den
                == anchor.y.den * socket.pos.y.den,
            None => !point_sum_fits(anchor, socket.pos),
        },
        r is Some <==> point_sum_fits(anchor, socket.pos),
{
    point_add(anchor, socket.pos)
}

} // verus!
