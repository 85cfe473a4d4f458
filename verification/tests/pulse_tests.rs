use std::cell::RefCell;
use std::rc::Rc;
use way_edges::pulse::{Interest, PaError, PaGlobal, PA};

type Log = Rc<RefCell<Vec<(i32, u8, Interest)>>>;
type Cb = Box<dyn FnMut(u8, Interest)>;
type ErrCb = Box<dyn FnMut(String)>;

const SINK: Interest = Interest { sink: true, source: false };
const SOURCE: Interest = Interest { sink: false, source: true };
const BOTH: Interest = Interest { sink: true, source: true };

fn cb(log: &Log, tag: i32) -> Cb {
    let log = log.clone();
    Box::new(move |v, m| log.borrow_mut().push((tag, v, m)))
}

#[test]
fn add_cb_calls_with_followed_states_then_registers() {
    let log: Log = Rc::new(RefCell::new(vec![]));
    let mut pa: PA<Cb, ErrCb> = PA::new();
    let k0 = pa.add_cb(cb(&log, 0), None, BOTH, 10, 20);
    let k1 = pa.add_cb(cb(&log, 1), None, SOURCE, 11, 21);
    assert_eq!((k0, k1), (0, 1));
    assert_eq!(*log.borrow(), vec![(0, 10, SINK), (0, 20, SOURCE), (1, 21, SOURCE)]);
    assert_eq!(pa.len(), 2);
}

#[test]
fn call_reaches_followers_of_the_kind() {
    let log: Log = Rc::new(RefCell::new(vec![]));
    let mut pa: PA<Cb, ErrCb> = PA::new();
    pa.add_cb(cb(&log, 0), None, SINK, 0, 0);
    pa.add_cb(cb(&log, 1), None, SOURCE, 0, 0);
    pa.add_cb(cb(&log, 2), None, BOTH, 0, 0);
    log.borrow_mut().clear();
    pa.call(SINK, 5, 6);
    assert_eq!(*log.borrow(), vec![(0, 5, SINK), (2, 5, SINK)]);
    log.borrow_mut().clear();
    pa.call(SOURCE, 5, 6);
    assert_eq!(*log.borrow(), vec![(1, 6, SOURCE), (2, 6, SOURCE)]);
    log.borrow_mut().clear();
    // a change that concerns both goes to the sink's callbacks only
    pa.call(BOTH, 5, 6);
    assert_eq!(*log.borrow(), vec![(0, 5, BOTH), (2, 5, BOTH)]);
    log.borrow_mut().clear();
    pa.remove_cb(0);
    pa.call(SINK, 7, 8);
    assert_eq!(*log.borrow(), vec![(2, 7, SINK)]);
}

#[test]
fn error_tells_error_callbacks() {
    let errs: Rc<RefCell<Vec<String>>> = Rc::new(RefCell::new(vec![]));
    let mut pa: PA<Cb, ErrCb> = PA::new();
    let e1 = errs.clone();
    pa.add_cb(Box::new(|_, _| {}), Some(Box::new(move |e: String| e1.borrow_mut().push(format!("a:{e}")))), SINK, 0, 0);
    let e2 = errs.clone();
    pa.add_cb(Box::new(|_, _| {}), Some(Box::new(move |e: String| e2.borrow_mut().push(format!("b:{e}")))), SINK, 0, 0);
    pa.error("gone".to_string());
    assert_eq!(*errs.borrow(), vec!["a:gone".to_string(), "b:gone".to_string()]);
}

#[test]
fn global_init_paths() {
    let mut g: PaGlobal<Cb, ErrCb> = PaGlobal::new();
    assert!(!g.is_pa_inited());
    assert!(g.is_pa_empty());
    // a failed start leaves it unstarted
    assert_eq!(g.try_init_pulseaudio(Some(Err("no server".to_string())), true), Err(PaError::Mainloop("no server".to_string())));
    assert!(!g.is_pa_inited());
    // a start without devices starts it but answers Unavailable
    assert_eq!(g.try_init_pulseaudio(Some(Ok(())), false), Err(PaError::Unavailable));
    assert!(g.is_pa_inited());
    assert!(!g.is_pa_empty());
    assert_eq!(g.try_init_pulseaudio(None, true), Ok(()));
}

#[test]
fn global_register_unregister_and_error() {
    let log: Log = Rc::new(RefCell::new(vec![]));
    let errs: Rc<RefCell<Vec<String>>> = Rc::new(RefCell::new(vec![]));
    let mut g: PaGlobal<Cb, ErrCb> = PaGlobal::new();
    let e1 = errs.clone();
    let k = g.register_callback(cb(&log, 0), Some(Box::new(move |e: String| e1.borrow_mut().push(e))), SINK, Some(Ok(())), Some(1u8), Some(2u8));
    assert_eq!(k, Ok(0));
    assert_eq!(*log.borrow(), vec![(0, 1, SINK)]);
    assert_eq!(g.register_callback(cb(&log, 1), None, SINK, None, None, Some(2u8)), Err(PaError::Unavailable));
    g.call_pa(SINK, 9, 9);
    assert_eq!(log.borrow().last(), Some(&(0, 9, SINK)));
    g.unregister_callback(0);
    g.on_pa_error("boom".to_string());
    assert_eq!(*errs.borrow(), vec!["boom".to_string()]);
    assert!(g.is_pa_empty());
    assert!(g.is_pa_inited());
    assert_eq!(g.try_init_pulseaudio(None, true), Err(PaError::Closed));
    // unregistering after the monitor stopped does nothing
    g.unregister_callback(0);
    assert_eq!(g.register_callback(cb(&log, 2), None, SINK, None, Some(1u8), Some(1u8)), Err(PaError::Closed));
}
