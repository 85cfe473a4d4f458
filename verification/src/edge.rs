use vstd::prelude::*;

verus! {

/// A screen edge that a widget is anchored to.
#[derive(Debug, Clone, Copy, PartialEq, Eq, Structural)]
pub enum Edge {
    Left,
    Right,
    Top,
    Bottom,
}

/// The axis along which a slider's progress is read.
#[derive(Debug, Clone, Copy, PartialEq, Eq, Structural)]
pub enum XorY {
    X,
    Y,
}

impl From<Edge> for XorY {
    /// A slider on the left or right edge runs along `Y`; one on the top or
    /// bottom edge along `X`.
    fn from(e: Edge) -> (r: Self) {
        match e {
            Edge::Left | Edge::Right => XorY::Y,
            Edge::Top | Edge::Bottom => XorY::X,
        }
    }
}

impl vstd::std_specs::convert::FromSpecImpl<Edge> for XorY {
    open spec fn obeys_from_spec() -> bool {
        true
    }

    open spec fn from_spec(e: Edge) -> XorY {
        match e {
            Edge::Left | Edge::Right => XorY::Y,
            Edge::Top | Edge::Bottom => XorY::X,
        }
    }
}

/// Where a widget sits along one axis of the screen.
#[derive(Debug, Clone, Copy, PartialEq, Eq, Structural)]
pub enum AxisRule {
    /// At the start of the axis (left or top), placed by position.
    Start,
    /// Centred on the axis.
    Middle,
    /// At the end of the axis (right or bottom), placed by position.
    End,
    /// Sliding in from the start of the axis: the edge it is anchored to.
    EdgeStart,
    /// Sliding in from the end of the axis: the edge it is anchored to.
    EdgeEnd,
}

/// Whether an edge is a vertical side of the screen (left or right).
pub open spec fn is_side(e: Edge) -> bool {
    e == Edge::Left || e == Edge::Right
}

/// How a widget on `edge`, placed at `position` along that edge, is laid
/// out: first on the x axis, then on the y axis. The axis across the edge
/// slides from the edge (start for left and top, end for right and bottom);
/// along the edge, a position on the same axis as the edge centres the
/// widget, and a position across it puts the widget at that end.
pub open spec fn spec_layout_rules(edge: Edge, position: Edge) -> (AxisRule, AxisRule) {
    let slide = if edge == Edge::Left || edge == Edge::Top {
        AxisRule::EdgeStart
    } else {
        AxisRule::EdgeEnd
    };
    let place = if is_side(edge) == is_side(position) {
        AxisRule::Middle
    } else if position == Edge::Left || position == Edge::Top {
        AxisRule::Start
    } else {
        AxisRule::End
    };
    if is_side(edge) {
        (slide, place)
    } else {
        (place, slide)
    }
}

/// The layout of a widget on `edge` at `position` (see `spec_layout_rules`).
pub fn layout_rules(edge: Edge, position: Edge) -> (r: (AxisRule, AxisRule))
    ensures
        r == spec_layout_rules(edge, position),
{
    match (edge, position) {
        (Edge::Left, Edge::Left) | (Edge::Left, Edge::Right) => (AxisRule::EdgeStart, AxisRule::Middle),
        (Edge::Left, Edge::Top) => (AxisRule::EdgeStart, AxisRule::Start),
        (Edge::Left, Edge::Bottom) => (AxisRule::EdgeStart, AxisRule::End),
        (Edge::Right, Edge::Left) | (Edge::Right, Edge::Right) => (AxisRule::EdgeEnd, AxisRule::Middle),
        (Edge::Right, Edge::Top) => (AxisRule::EdgeEnd, AxisRule::Start),
        (Edge::Right, Edge::Bottom) => (AxisRule::EdgeEnd, AxisRule::End),
        (Edge::Top, Edge::Top) | (Edge::Top, Edge::Bottom) => (AxisRule::Middle, AxisRule::EdgeStart),
        (Edge::Top, Edge::Left) => (AxisRule::Start, AxisRule::EdgeStart),
        (Edge::Top, Edge::Right) => (AxisRule::End, AxisRule::EdgeStart),
        (Edge::Bottom, Edge::Top) | (Edge::Bottom, Edge::Bottom) => (AxisRule::Middle, AxisRule::EdgeEnd),
        (Edge::Bottom, Edge::Left) => (AxisRule::Start, AxisRule::EdgeEnd),
        (Edge::Bottom, Edge::Right) => (AxisRule::End, AxisRule::EdgeEnd),
    }
}

/// Exactly one axis slides from the edge, the one across it; the other is
/// placed by position.
pub proof fn lemma_one_axis_slides(edge: Edge, position: Edge)
    ensures
        ({
            let (x, y) = spec_layout_rules(edge, position);
            let slides = |r: AxisRule| r == AxisRule::EdgeStart || r == AxisRule::EdgeEnd;
            &&& slides(x) != slides(y)
            &&& slides(x) == is_side(edge)
        }),
{
}

} // verus!
