use way_edges::edge::Edge;
use way_edges::outlook::{calculate_info, corners};

#[test]
fn corners_away_from_the_edge_are_rounded() {
    assert_eq!(corners(Edge::Left), [false, true, true, false]);
    assert_eq!(corners(Edge::Right), [true, false, false, true]);
    assert_eq!(corners(Edge::Top), [false, false, true, true]);
    assert_eq!(corners(Edge::Bottom), [true, true, false, false]);
}

#[test]
fn layout_with_margins_and_border() {
    let (sizes, offsets, margins) = calculate_info((100, 40), Some([1, 2, 3, 4]), 5);
    assert_eq!(sizes, [(104, 46), (114, 56)]);
    assert_eq!(offsets, [(5, 5), (1, 2)]);
    assert_eq!(margins, [1, 2, 3, 4]);
}

#[test]
fn layout_without_margins() {
    let (sizes, offsets, margins) = calculate_info((10, 20), None, 0);
    assert_eq!(sizes, [(10, 20), (10, 20)]);
    assert_eq!(offsets, [(0, 0), (0, 0)]);
    assert_eq!(margins, [0, 0, 0, 0]);
}
