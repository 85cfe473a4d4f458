use std::rc::Rc;
use way_edges::edge::{layout_rules, AxisRule, Edge, XorY};
use way_edges::expose::BoxExpose;

#[test]
fn slider_axis_from_edge() {
    assert_eq!(XorY::from(Edge::Left), XorY::Y);
    assert_eq!(XorY::from(Edge::Right), XorY::Y);
    assert_eq!(XorY::from(Edge::Top), XorY::X);
    assert_eq!(XorY::from(Edge::Bottom), XorY::X);
}

#[test]
fn update_func_shares_the_redraw_function() {
    let f: Rc<dyn Fn() -> u8> = Rc::new(|| 7);
    let e = BoxExpose::new(f.clone());
    let g = e.update_func();
    assert!(Rc::ptr_eq(&f, &g));
    assert_eq!(g(), 7);
    assert_eq!(Rc::strong_count(&f), 3);
}

#[test]
fn layout_rules_table() {
    assert_eq!(layout_rules(Edge::Left, Edge::Left), (AxisRule::EdgeStart, AxisRule::Middle));
    assert_eq!(layout_rules(Edge::Left, Edge::Right), (AxisRule::EdgeStart, AxisRule::Middle));
    assert_eq!(layout_rules(Edge::Left, Edge::Top), (AxisRule::EdgeStart, AxisRule::Start));
    assert_eq!(layout_rules(Edge::Left, Edge::Bottom), (AxisRule::EdgeStart, AxisRule::End));
    assert_eq!(layout_rules(Edge::Right, Edge::Top), (AxisRule::EdgeEnd, AxisRule::Start));
    assert_eq!(layout_rules(Edge::Right, Edge::Bottom), (AxisRule::EdgeEnd, AxisRule::End));
    assert_eq!(layout_rules(Edge::Right, Edge::Right), (AxisRule::EdgeEnd, AxisRule::Middle));
    assert_eq!(layout_rules(Edge::Top, Edge::Top), (AxisRule::Middle, AxisRule::EdgeStart));
    assert_eq!(layout_rules(Edge::Top, Edge::Left), (AxisRule::Start, AxisRule::EdgeStart));
    assert_eq!(layout_rules(Edge::Top, Edge::Right), (AxisRule::End, AxisRule::EdgeStart));
    assert_eq!(layout_rules(Edge::Bottom, Edge::Bottom), (AxisRule::Middle, AxisRule::EdgeEnd));
    assert_eq!(layout_rules(Edge::Bottom, Edge::Left), (AxisRule::Start, AxisRule::EdgeEnd));
    assert_eq!(layout_rules(Edge::Bottom, Edge::Right), (AxisRule::End, AxisRule::EdgeEnd));
}
