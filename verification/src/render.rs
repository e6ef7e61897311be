//! The command boundary toward the render backend.
//!
//! The editor never talks to a drawing library: each frame it emits plain
//! commands - spawn a visual, update a visual's geometry or fill - against
//! handles of its own. The host executes them with whatever backend it
//! owns. Z-order is a fixed per-layer band plus a per-element tiebreak, so
//! draw order is deterministic and stable across frames: sockets render
//! above node bodies, node bodies above edges.
use vstd::prelude::*;
use crate::frac::Frac;
use crate::geom::Point2;

verus! {

/// The palette of fill and stroke styles used by node and edge visuals.
/// The host maps each style to a concrete colour; `rgb` gives the
/// reference values in 8-bit channels.
#[derive(Clone, Copy, Debug, PartialEq, Eq, Structural)]
pub enum FillStyle {
    NodeBg,
    NodeHovered,
    Socket,
    SocketHovered,
    Active,
    EdgeStroke,
}

impl FillStyle {
    /// Reference colour of the style, as 8-bit red, green and blue.
    pub fn rgb(self) -> (c: (u8, u8, u8))
        ensures
            self is NodeBg ==> c == (48u8, 48u8, 48u8),
            self is NodeHovered ==> c == (48u8, 48u8, 48u8),
            self is Socket ==> c == (34u8, 34u8, 34u8),
            self is SocketHovered ==> c == (40u8, 40u8, 40u8),
            self is Active ==> c == (255u8, 25u8, 25u8),
            self is EdgeStroke ==> c == (102u8, 102u8, 102u8),
    {
        match self {
            FillStyle::NodeBg => (48, 48, 48),
            FillStyle::NodeHovered => (48, 48, 48),
            FillStyle::Socket => (34, 34, 34),
            FillStyle::SocketHovered => (40, 40, 40),
            FillStyle::Active => (255, 25, 25),
            FillStyle::EdgeStroke => (102, 102, 102),
        }
    }
}

/// An outline style: colour plus exact line width.
#[derive(Clone, Copy, Debug, PartialEq, Eq, Structural)]
pub struct StrokeStyle {
    pub color: FillStyle,
    pub width: Frac,
}

/// What a visual draws, in world coordinates.
#[derive(Clone, Copy, Debug, PartialEq, Eq, Structural)]
pub enum ShapeDesc {
    Circle { center: Point2, radius: Frac },
    RoundedRect { center: Point2, width: Frac, height: Frac, corner: Frac },
    Segment { from: Point2, to: Point2 },
}

/// One instruction to the render backend. A handle is spawned at most
/// once; afterwards the same visual is only ever updated in place, until
/// its graph element is removed and the visual is despawned.
#[derive(Clone, Copy, Debug, PartialEq, Eq, Structural)]
pub enum RenderCommand {
    Spawn { handle: u64, shape: ShapeDesc, z: i64, fill: FillStyle, stroke: StrokeStyle },
    UpdateGeometry { handle: u64, shape: ShapeDesc },
    UpdateFill { handle: u64, fill: FillStyle },
    Despawn { handle: u64 },
}

/// The draw layers, back to front.
#[derive(Clone, Copy, Debug, PartialEq, Eq, Structural)]
pub enum VisualLayer {
    Edges,
    Bodies,
    Sockets,
}

/// Back-to-front rank of a layer.
pub open spec fn layer_rank(l: VisualLayer) -> int {
    match l {
        VisualLayer::Edges => 0,
        VisualLayer::Bodies => 1,
        VisualLayer::Sockets => 2,
    }
}

/// Width of a z band: every layer owns this many consecutive z values.
pub const Z_BAND: i64 = 0x10_0000;

/// The z coordinate of a visual: its layer's band plus the owning
/// element's arena index as a deterministic tiebreak.
pub fn z_of(layer: VisualLayer, index: usize) -> (z: i64)
    requires
        index < Z_BAND,
    ensures
        z == layer_rank(layer) * (Z_BAND as int) + index,
        0 <= z < 3 * (Z_BAND as int),
{
    let rank: i64 = match layer {
        VisualLayer::Edges => 0,
        VisualLayer::Bodies => 1,
        VisualLayer::Sockets => 2,
    };
    rank * Z_BAND + (index as i64)
}

/// Law: draw order is total and deterministic - a higher layer always
/// draws above any element of a lower layer, and within one layer the
/// element index breaks ties.
pub proof fn lemma_z_order_deterministic(l1: VisualLayer, i1: int, l2: VisualLayer, i2: int)
    requires
        0 <= i1 < Z_BAND as int,
        0 <= i2 < Z_BAND as int,
    ensures
        layer_rank(l1) < layer_rank(l2) ==> layer_rank(l1) * (Z_BAND as int) + i1 < layer_rank(
            l2,
        ) * (Z_BAND as int) + i2,
        l1 == l2 && i1 < i2 ==> layer_rank(l1) * (Z_BAND as int) + i1 < layer_rank(l2) * (
        Z_BAND as int) + i2,
{
}

} // verus!
