//! The outlook window drawn around a box of widgets: which corners are
//! rounded, and the sizes and offsets of its parts.
use vstd::prelude::*;

use crate::edge::Edge;

verus! {

/// Whether corner `i` (top-left, top-right, bottom-right, bottom-left) lies
/// on `edge`.
pub open spec fn corner_on_edge(edge: Edge, i: int) -> bool {
    match edge {
        Edge::Left => i == 0 || i == 3,
        Edge::Right => i == 1 || i == 2,
        Edge::Top => i == 0 || i == 1,
        Edge::Bottom => i == 2 || i == 3,
    }
}

/// The rounded corners of a window on `edge`, in the order top-left,
/// top-right, bottom-right, bottom-left: exactly the two corners away from
/// the edge.
pub fn corners(edge: Edge) -> (r: [bool; 4])
    ensures
        r@.len() == 4,
        forall|i: int| 0 <= i < 4 ==> #[trigger] r@[i] == !corner_on_edge(edge, i),
{
    match edge {
        Edge::Left => [false, true, true, false],
        Edge::Right => [true, false, false, true],
        Edge::Top => [false, false, true, true],
        Edge::Bottom => [true, true, false, false],
    }
}

/// The margins (left, top, right, bottom) given, or none.
pub open spec fn margins_of(margins: Option<[i32; 4]>) -> Seq<i32> {
    match margins {
        Some(m) => m@,
        None => seq![0i32, 0, 0, 0],
    }
}

/// Whether `v` fits in an `i32`.
pub open spec fn fits_i32(v: int) -> bool {
    i32::MIN <= v <= i32::MAX
}

/// Whether every sum that the layout adds up fits in an `i32`.
pub open spec fn layout_fits(content_size: (i32, i32), margins: Option<[i32; 4]>, border_width: i32) -> bool {
    let m = margins_of(margins);
    &&& fits_i32(m[0] + m[2])
    &&& fits_i32(m[1] + m[3])
    &&& fits_i32(content_size.0 + (m[0] + m[2]))
    &&& fits_i32(content_size.1 + (m[1] + m[3]))
    &&& fits_i32(border_width * 2)
    &&& fits_i32(content_size.0 + (m[0] + m[2]) + border_width * 2)
    &&& fits_i32(content_size.1 + (m[1] + m[3]) + border_width * 2)
}

/// The layout of the window around content of `content_size`:
/// `[content box size, total size]`, `[border offset, margin offset]`, and
/// the margins. The content box is the content with its margins; the total
/// adds the border on every side; the content box starts one border width
/// in, and the content one left and top margin into the box.
pub fn calculate_info(content_size: (i32, i32), margins: Option<[i32; 4]>, border_width: i32) -> (r: (
    [(i32, i32); 2],
    [(i32, i32); 2],
    [i32; 4],
))
    requires
        layout_fits(content_size, margins, border_width),
    ensures
        ({
            let m = margins_of(margins);
            &&& r.2@ == m
            &&& r.0@[0].0 == content_size.0 + m[0] + m[2]
            &&& r.0@[0].1 == content_size.1 + m[1] + m[3]
            &&& r.0@[1].0 == content_size.0 + m[0] + m[2] + 2 * border_width
            &&& r.0@[1].1 == content_size.1 + m[1] + m[3] + 2 * border_width
            &&& r.1@[0] == (border_width, border_width)
            &&& r.1@[1] == (m[0], m[1])
        }),
{
    let m: [i32; 4] = match margins {
        Some(m) => m,
        None => [0, 0, 0, 0],
    };
    assert(m@ =~= margins_of(margins));
    let addition_margin = (m[0] + m[2], m[1] + m[3]);
    let content_box_size = (content_size.0 + addition_margin.0, content_size.1 + addition_margin.1);
    let size = (content_box_size.0 + border_width * 2, content_box_size.1 + border_width * 2);
    let border_startoff_point = ((size.0 - content_box_size.0) / 2, (size.1 - content_box_size.1) / 2);
    let margin_startoff_point = (m[0], m[1]);
    ([content_box_size, size], [border_startoff_point, margin_startoff_point], m)
}

} // verus!
