use std::collections::HashSet;
use way_edges::menu::{HoveringItem, MenuEntry, MenuState, RootMenu, TrayInfo};

fn leaf(id: i32) -> MenuEntry {
    MenuEntry { id, submenu: None }
}

fn parent(id: i32, items: Vec<MenuEntry>) -> MenuEntry {
    MenuEntry { id, submenu: Some(items) }
}

fn sample_menu() -> RootMenu {
    RootMenu {
        id: 0,
        submenus: vec![leaf(1), parent(2, vec![leaf(3), parent(4, vec![leaf(5)])]), leaf(6)],
    }
}

#[test]
fn new_state_is_closed_hovering_zero() {
    let s = MenuState::new();
    assert!(s.open_state.is_empty());
    assert!(s.is_hover(0));
    assert!(!s.is_open(2));
}

#[test]
fn open_state_becomes_all_parents_at_any_depth() {
    let mut s = MenuState { open_state: HashSet::from([2]), hover_state: -1 };
    s.filter_state_with_new_menu(&sample_menu());
    assert_eq!(s.open_state, HashSet::from([2, 4]));
    assert!(s.is_open(4));
    assert_eq!(s.hover_state, -1);
}

#[test]
fn closed_state_stays_closed() {
    let mut s = MenuState { open_state: HashSet::new(), hover_state: -1 };
    s.filter_state_with_new_menu(&sample_menu());
    assert!(s.open_state.is_empty());
}

#[test]
fn hover_kept_when_item_still_there_even_nested() {
    let mut s = MenuState { open_state: HashSet::new(), hover_state: 5 };
    s.filter_state_with_new_menu(&sample_menu());
    assert_eq!(s.hover_state, 5);
}

#[test]
fn hover_cleared_when_item_gone() {
    let mut s = MenuState { open_state: HashSet::from([9]), hover_state: 42 };
    s.filter_state_with_new_menu(&sample_menu());
    assert_eq!(s.hover_state, -1);
    assert_eq!(s.open_state, HashSet::from([2, 4]));
}

#[test]
fn empty_menu_clears_hover_and_open() {
    let mut s = MenuState { open_state: HashSet::from([1]), hover_state: 3 };
    s.filter_state_with_new_menu(&RootMenu { id: 1, submenus: vec![] });
    assert!(s.open_state.is_empty());
    assert_eq!(s.hover_state, -1);
}

#[test]
fn hovering_item_variants() {
    assert_ne!(HoveringItem::TrayIcon, HoveringItem::MenuItem(0));
    assert_eq!(HoveringItem::MenuItem(3), HoveringItem::MenuItem(3));
}

#[test]
fn tray_info_title_update_marks_change_only_when_different() {
    let mut t = TrayInfo { title: Some("a".to_string()), menu: None, updated: false };
    t.update_title(Some("a".to_string()));
    assert!(!t.updated);
    t.update_title(Some("b".to_string()));
    assert!(t.updated);
    assert_eq!(t.title, Some("b".to_string()));
    assert!(t.take_updated());
    assert!(!t.updated);
    t.update_title(None);
    assert!(t.updated);
    assert_eq!(t.title, None);
}

#[test]
fn tray_info_menu_update_filters_state() {
    let mut t = TrayInfo { title: None, menu: None, updated: false };
    t.update_menu(sample_menu());
    assert!(t.updated);
    {
        let (_, state) = t.menu.as_ref().unwrap();
        assert!(state.open_state.is_empty());
        assert_eq!(state.hover_state, 0);
    }
    t.menu.as_mut().unwrap().1.open_state.insert(2);
    t.menu.as_mut().unwrap().1.hover_state = 6;
    t.update_menu(RootMenu { id: 7, submenus: vec![parent(8, vec![leaf(6)])] });
    let (menu, state) = t.menu.as_ref().unwrap();
    assert_eq!(menu.id, 7);
    assert_eq!(state.open_state, HashSet::from([8]));
    assert_eq!(state.hover_state, 6);
}
