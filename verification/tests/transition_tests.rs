use way_edges::transition::{abs_progress, progress, set_direction, TransitionDirection, TransitionStateList};

#[test]
fn direction_from_bool_and_not() {
    assert_eq!(TransitionDirection::from(true), TransitionDirection::Forward);
    assert_eq!(TransitionDirection::from(false), TransitionDirection::Backward);
    assert_eq!(!TransitionDirection::Forward, TransitionDirection::Backward);
    assert_eq!(!TransitionDirection::Backward, TransitionDirection::Forward);
}

#[test]
fn progress_forward_and_backward() {
    assert_eq!(progress(TransitionDirection::Forward, 30, 100), 30);
    assert_eq!(progress(TransitionDirection::Backward, 30, 100), 70);
    assert_eq!(progress(TransitionDirection::Forward, 250, 100), 100);
    assert_eq!(progress(TransitionDirection::Backward, 250, 100), 0);
    assert_eq!(abs_progress(TransitionDirection::Backward, 30, 100), 30);
    assert_eq!(abs_progress(TransitionDirection::Forward, 30, 100), 30);
}

#[test]
fn set_direction_same_way_changes_nothing() {
    let mut d = TransitionDirection::Forward;
    assert_eq!(set_direction(&mut d, 40, 100, TransitionDirection::Forward), None);
    assert_eq!(d, TransitionDirection::Forward);
}

#[test]
fn set_direction_turn_keeps_progress() {
    let mut d = TransitionDirection::Forward;
    let before = progress(d, 40, 100);
    let restart = set_direction(&mut d, 40, 100, TransitionDirection::Backward);
    assert_eq!(restart, Some(60));
    assert_eq!(d, TransitionDirection::Backward);
    assert_eq!(progress(d, 60, 100), before);
    // a finished run restarts from zero
    let mut d = TransitionDirection::Backward;
    assert_eq!(set_direction(&mut d, 150, 100, TransitionDirection::Forward), Some(0));
}

#[test]
fn transition_list_reuses_last_freed_slot() {
    let mut l: TransitionStateList<u32> = TransitionStateList::new();
    assert_eq!(l.new_transition(10), 0);
    assert_eq!(l.new_transition(11), 1);
    assert_eq!(l.new_transition(12), 2);
    l.remove_item(0);
    l.remove_item(2);
    assert_eq!(*l.get(0), None);
    assert_eq!(*l.get(2), None);
    assert_eq!(l.new_transition(20), 2);
    assert_eq!(l.new_transition(21), 0);
    assert_eq!(l.new_transition(22), 3);
    assert_eq!(l.len(), 4);
    assert_eq!(*l.get(0), Some(21));
    assert_eq!(*l.get(1), Some(11));
    assert_eq!(*l.get(2), Some(20));
}

#[test]
fn transition_list_extend_appends() {
    let mut l: TransitionStateList<u32> = TransitionStateList::new();
    l.new_transition(1);
    l.extend_list(vec![5, 6]);
    assert_eq!(l.len(), 3);
    assert_eq!(*l.get(1), Some(5));
    assert_eq!(*l.get(2), Some(6));
}
