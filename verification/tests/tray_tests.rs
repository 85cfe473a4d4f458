use std::cell::RefCell;
use std::rc::Rc;
use way_edges::tray::{is_context_inited, register_tray, unregister_tray, TrayContext, VecInto};

type Log = Rc<RefCell<Vec<(i32, String)>>>;
type Cb = Box<dyn FnMut(&String)>;

fn cb(log: &Log, tag: i32) -> Cb {
    let log = log.clone();
    Box::new(move |e: &String| log.borrow_mut().push((tag, e.clone())))
}

#[test]
fn register_replays_current_items_then_receives_events() {
    let log: Log = Rc::new(RefCell::new(vec![]));
    let mut ctx: TrayContext<Cb> = TrayContext::new();
    let current = vec!["item a".to_string(), "menu a".to_string()];
    let k0 = register_tray(&mut ctx, cb(&log, 0), &current);
    assert_eq!(k0, 0);
    assert_eq!(*log.borrow(), vec![(0, "item a".to_string()), (0, "menu a".to_string())]);
    let k1 = register_tray(&mut ctx, cb(&log, 1), &Vec::new());
    assert_eq!(k1, 1);
    log.borrow_mut().clear();
    ctx.call(&"title".to_string());
    assert_eq!(*log.borrow(), vec![(0, "title".to_string()), (1, "title".to_string())]);
    log.borrow_mut().clear();
    unregister_tray(&mut ctx, k0);
    ctx.call(&"gone".to_string());
    assert_eq!(*log.borrow(), vec![(1, "gone".to_string())]);
    assert_eq!(register_tray(&mut ctx, cb(&log, 2), &Vec::<String>::new()), 2);
}

#[test]
fn context_inited_flag() {
    let none: Option<TrayContext<Cb>> = None;
    assert!(!is_context_inited(&none));
    assert!(is_context_inited(&Some(TrayContext::<Cb>::new())));
}

#[test]
fn vec_into_converts_in_order() {
    let v: Vec<u8> = vec![1, 2, 300u16 as u8];
    let w: Vec<u32> = v.vec_into();
    assert_eq!(w, vec![1u32, 2, 44]);
    let e: Vec<u16> = Vec::<u8>::new().vec_into();
    assert!(e.is_empty());
}
