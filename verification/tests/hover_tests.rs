use way_edges::hover::{BoxHover, BoxPointerEvent, WidgetCall};

#[test]
fn enter_move_switch_and_leave() {
    let mut h = BoxHover::new();
    assert_eq!(h.step(BoxPointerEvent::Enter(Some(2))), vec![WidgetCall::Enter(2), WidgetCall::Redraw]);
    assert_eq!(h.step(BoxPointerEvent::Motion(Some(2))), vec![WidgetCall::Motion(2)]);
    assert_eq!(h.step(BoxPointerEvent::Motion(Some(5))), vec![WidgetCall::Leave(2), WidgetCall::Enter(5)]);
    assert_eq!(h.step(BoxPointerEvent::Motion(None)), vec![WidgetCall::Leave(5)]);
    assert_eq!(h.last_widget, None);
    assert_eq!(h.step(BoxPointerEvent::Motion(None)), vec![]);
    assert_eq!(h.step(BoxPointerEvent::Motion(Some(1))), vec![WidgetCall::Enter(1)]);
    assert_eq!(h.step(BoxPointerEvent::Other), vec![]);
    assert_eq!(h.last_widget, Some(1));
    // leaving the box forgets the widget without telling it
    assert_eq!(h.step(BoxPointerEvent::Leave), vec![WidgetCall::Redraw]);
    assert_eq!(h.last_widget, None);
}

#[test]
fn enter_over_same_widget_moves_and_redraws() {
    let mut h = BoxHover { last_widget: Some(3) };
    assert_eq!(h.step(BoxPointerEvent::Enter(Some(3))), vec![WidgetCall::Motion(3), WidgetCall::Redraw]);
    assert_eq!(h.step(BoxPointerEvent::Enter(None)), vec![WidgetCall::Leave(3), WidgetCall::Redraw]);
}
