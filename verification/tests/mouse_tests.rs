use way_edges::mouse::{MouseAction, MouseEventKind, MouseState, BUTTON_MIDDLE};
use way_edges::transition::TransitionDirection;

fn fresh() -> MouseState {
    MouseState::new(true, true, true, false)
}

#[test]
fn hover_slides_in_and_out() {
    let mut m = fresh();
    assert_eq!(
        m.hover_enter(),
        vec![
            MouseAction::SetDirection(TransitionDirection::Forward),
            MouseAction::Emit(MouseEventKind::Enter)
        ]
    );
    assert!(m.hovering);
    assert_eq!(m.hover_motion(), vec![MouseAction::Emit(MouseEventKind::Motion)]);
    assert_eq!(
        m.hover_leave(),
        vec![
            MouseAction::SetDirection(TransitionDirection::Backward),
            MouseAction::Emit(MouseEventKind::Leave)
        ]
    );
    assert!(!m.hovering);
}

#[test]
fn pinned_widget_stays_on_leave() {
    let mut m = fresh();
    assert_eq!(
        m.set_pin(true),
        vec![
            MouseAction::SetDirection(TransitionDirection::Forward),
            MouseAction::Emit(MouseEventKind::Pin)
        ]
    );
    assert_eq!(m.hover_enter(), vec![MouseAction::Emit(MouseEventKind::Enter)]);
    assert_eq!(m.hover_leave(), vec![MouseAction::Emit(MouseEventKind::Leave)]);
    // pinning again changes nothing
    assert_eq!(m.set_pin(true), vec![]);
    assert_eq!(
        m.set_pin(false),
        vec![
            MouseAction::SetDirection(TransitionDirection::Backward),
            MouseAction::Emit(MouseEventKind::Unpin)
        ]
    );
}

#[test]
fn toggle_pin_twice_restores_pin() {
    let mut m = fresh();
    m.toggle_pin();
    assert!(m.pin_state);
    m.toggle_pin();
    assert!(!m.pin_state);
}

#[test]
fn pin_disabled_does_nothing() {
    let mut m = MouseState::new(false, true, true, false);
    assert_eq!(m.toggle_pin(), vec![]);
    assert_eq!(m.set_pin(true), vec![]);
    assert!(!m.pin_state);
}

#[test]
fn middle_click_toggles_pin() {
    let mut m = fresh();
    m.hover_enter();
    assert_eq!(m.press(BUTTON_MIDDLE), vec![MouseAction::Emit(MouseEventKind::Press(BUTTON_MIDDLE))]);
    let acts = m.unpress(BUTTON_MIDDLE);
    assert_eq!(
        acts,
        vec![
            MouseAction::SetDirection(TransitionDirection::Forward),
            MouseAction::Emit(MouseEventKind::Pin),
            MouseAction::Emit(MouseEventKind::Release(BUTTON_MIDDLE))
        ]
    );
    assert!(m.pin_state);
    assert_eq!(m.pressing, None);
}

#[test]
fn release_outside_slides_out() {
    let mut m = fresh();
    m.press(1);
    assert_eq!(m.pressing, Some(1));
    // a second press while pressing is ignored
    assert_eq!(m.press(3), vec![]);
    assert_eq!(
        m.unpress(1),
        vec![
            MouseAction::SetDirection(TransitionDirection::Backward),
            MouseAction::Emit(MouseEventKind::Release(1))
        ]
    );
}

#[test]
fn debug_reports_buttons() {
    let mut m = MouseState::new(true, true, true, true);
    assert_eq!(
        m.press(1),
        vec![MouseAction::DebugPress(1), MouseAction::Emit(MouseEventKind::Press(1))]
    );
    let acts = m.unpress(1);
    assert_eq!(acts[0], MouseAction::DebugRelease(1));
}

#[test]
fn pop_then_timeout_slides_out() {
    let mut m = fresh();
    let acts = m.pop();
    assert_eq!(
        acts,
        vec![
            MouseAction::SetDirection(TransitionDirection::Forward),
            MouseAction::StartPopTimer(1),
            MouseAction::Emit(MouseEventKind::Pop)
        ]
    );
    assert_eq!(m.pop_state, Some(1));
    assert_eq!(
        m.pop_timeout(1),
        vec![
            MouseAction::SetDirection(TransitionDirection::Backward),
            MouseAction::Emit(MouseEventKind::Unpop)
        ]
    );
}

#[test]
fn only_latest_pop_counts() {
    let mut m = fresh();
    m.pop();
    m.pop();
    assert_eq!(m.pop_state, Some(2));
    assert_eq!(m.pop_timeout(1), vec![]);
    assert_eq!(m.pop_timeout(2).last(), Some(&MouseAction::Emit(MouseEventKind::Unpop)));
}

#[test]
fn entering_cancels_pending_pop() {
    let mut m = fresh();
    m.pop();
    m.hover_enter();
    assert_eq!(m.pop_state, None);
    assert_eq!(m.pop_timeout(1), vec![]);
}

#[test]
fn pop_disabled_does_nothing() {
    let mut m = MouseState::new(true, false, true, false);
    assert_eq!(m.pop(), vec![]);
    assert_eq!(m.pop_state, None);
}
