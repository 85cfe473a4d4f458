use std::cell::RefCell;
use std::rc::Rc;
use way_edges::hypr::{
    max_workspace_id, parse_i32_str, regular_to_i32, register_hypr_event_callback,
    unregister_hypr_event_callback, HyprEvent, HyprGlobalData, HyprListenerCtx, ParseIntError,
};

fn data(max: i32, cur: i32, last: i32) -> HyprGlobalData {
    HyprGlobalData { max_workspace: max, current_workspace: cur, last_workspace: last }
}

#[test]
fn max_workspace_is_last_positive() {
    assert_eq!(max_workspace_id(&vec![1, 2, 5, -98, -99]), Some(5));
    assert_eq!(max_workspace_id(&vec![3, 1]), Some(1));
    assert_eq!(max_workspace_id(&vec![-99]), None);
    assert_eq!(max_workspace_id(&vec![]), None);
    assert_eq!(max_workspace_id(&vec![0, -1]), None);
}

#[test]
fn new_reloads_from_zero() {
    assert_eq!(HyprGlobalData::new(&vec![1, 4, -99], 4), Some(data(4, 4, 0)));
    assert_eq!(HyprGlobalData::new(&vec![-99], 4), None);
}

#[test]
fn move_current_remembers_last() {
    let mut d = data(5, 2, 1);
    d.move_current(3);
    assert_eq!(d, data(5, 3, 2));
}

#[test]
fn reload_failure_changes_nothing() {
    let mut d = data(5, 2, 1);
    assert!(!d.reload_max_worksapce(&vec![-1], 9));
    assert_eq!(d, data(5, 2, 1));
    assert!(d.reload_max_worksapce(&vec![1, 7], 7));
    assert_eq!(d, data(7, 7, 1));
}

#[test]
fn parse_workspace_names() {
    assert_eq!(parse_i32_str("12"), Ok(12));
    assert_eq!(parse_i32_str("+7"), Ok(7));
    assert_eq!(parse_i32_str("-3"), Ok(-3));
    assert_eq!(parse_i32_str("2147483647"), Ok(i32::MAX));
    assert_eq!(parse_i32_str("-2147483648"), Ok(i32::MIN));
    assert_eq!(parse_i32_str("2147483648"), Err(ParseIntError::PosOverflow));
    assert_eq!(parse_i32_str("-2147483649"), Err(ParseIntError::NegOverflow));
    assert_eq!(parse_i32_str(""), Err(ParseIntError::Empty));
    assert_eq!(parse_i32_str("+"), Err(ParseIntError::InvalidDigit));
    assert_eq!(parse_i32_str("-"), Err(ParseIntError::InvalidDigit));
    assert_eq!(parse_i32_str("12a"), Err(ParseIntError::InvalidDigit));
    assert_eq!(parse_i32_str(" 1"), Err(ParseIntError::InvalidDigit));
    assert_eq!(parse_i32_str("99999999999x"), Err(ParseIntError::PosOverflow));
}

#[test]
fn parse_agrees_with_std() {
    for s in ["0", "-0", "+0", "007", "123456", "-123456", "2147483647", "2147483648", "-2147483648", "-2147483649", "", "+", "-", "a", "1a", "99999999999a", "--1", "+-1", "١", "12 "] {
        let ours = parse_i32_str(s);
        match s.parse::<i32>() {
            Ok(v) => assert_eq!(ours, Ok(v), "{s:?}"),
            Err(e) => {
                let kind = match e.kind() {
                    std::num::IntErrorKind::Empty => ParseIntError::Empty,
                    std::num::IntErrorKind::InvalidDigit => ParseIntError::InvalidDigit,
                    std::num::IntErrorKind::PosOverflow => ParseIntError::PosOverflow,
                    std::num::IntErrorKind::NegOverflow => ParseIntError::NegOverflow,
                    _ => panic!("unexpected kind"),
                };
                assert_eq!(ours, Err(kind), "{s:?}");
            }
        }
    }
}

#[test]
fn regular_to_i32_special_is_none() {
    assert_eq!(regular_to_i32(None), None);
    assert_eq!(regular_to_i32(Some("4")), Some(Ok(4)));
    assert_eq!(regular_to_i32(Some("x")), Some(Err(ParseIntError::InvalidDigit)));
}

#[test]
fn listener_ids_callbacks_and_events() {
    let seen: Rc<RefCell<Vec<(u32, i32)>>> = Rc::new(RefCell::new(vec![]));
    let mut ctx: HyprListenerCtx<Box<dyn FnMut(&HyprGlobalData)>> = HyprListenerCtx::new(data(3, 1, 0));
    let s1 = seen.clone();
    let (id1, d1) = register_hypr_event_callback(&mut ctx, Box::new(move |d: &HyprGlobalData| s1.borrow_mut().push((1, d.current_workspace))));
    let s2 = seen.clone();
    let (id2, _) = register_hypr_event_callback(&mut ctx, Box::new(move |d: &HyprGlobalData| s2.borrow_mut().push((2, d.current_workspace))));
    assert_eq!((id1, id2), (0, 1));
    assert_eq!(d1, data(3, 1, 0));
    assert_eq!(ctx.len(), 2);

    // registration calls nothing
    assert!(seen.borrow().is_empty());

    ctx.call_event(HyprEvent::Workspace(2));
    assert_eq!(ctx.data(), data(3, 2, 1));
    assert_eq!(*seen.borrow(), vec![(1, 2), (2, 2)]);

    ctx.call_event(HyprEvent::ActiveWindow);
    assert_eq!(ctx.data(), data(3, 2, 1));
    assert_eq!(seen.borrow().len(), 4);

    unregister_hypr_event_callback(&mut ctx, id1);
    assert_eq!(ctx.len(), 1);
    ctx.call_event(HyprEvent::Workspace(5));
    assert_eq!(seen.borrow().last(), Some(&(2, 5)));
    assert_eq!(seen.borrow().len(), 5);

    // ids are not reused
    let (id3, _) = register_hypr_event_callback(&mut ctx, Box::new(|_d: &HyprGlobalData| {}));
    assert_eq!(id3, 2);
}

#[test]
fn listener_reload() {
    let seen: Rc<RefCell<Vec<HyprGlobalData>>> = Rc::new(RefCell::new(vec![]));
    let mut ctx: HyprListenerCtx<Box<dyn FnMut(&HyprGlobalData)>> = HyprListenerCtx::new(data(3, 1, 0));
    let s1 = seen.clone();
    register_hypr_event_callback(&mut ctx, Box::new(move |d: &HyprGlobalData| s1.borrow_mut().push(*d)));
    ctx.reload(&vec![1, 2, 6], 6);
    assert_eq!(ctx.data(), data(6, 6, 0));
    assert_eq!(*seen.borrow(), vec![data(6, 6, 0)]);
    ctx.reload(&vec![4, -99], 2);
    assert_eq!(ctx.data(), data(4, 2, 0));
    assert_eq!(*seen.borrow(), vec![data(6, 6, 0), data(4, 2, 0)]);
}
