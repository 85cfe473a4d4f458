use std::cell::RefCell;
use std::rc::Rc;
use way_edges::backlight::{init_bl, is_bl_inited, unregister_callback, unwatch, watch, BackLight};
use way_edges::registry::KeyedMap;

type Log = Rc<RefCell<Vec<(i32, u32)>>>;
type Cb = Box<dyn FnMut(u32)>;
type Bl = BackLight<Cb, &'static str, &'static str, u32>;

fn cb(log: &Log, tag: i32) -> Cb {
    let log = log.clone();
    Box::new(move |v| log.borrow_mut().push((tag, v)))
}

#[test]
fn add_call_and_remove() {
    let log: Log = Rc::new(RefCell::new(vec![]));
    let mut bl: Bl = BackLight::new();
    let name = "intel_backlight".to_string();
    bl.update_v(name.clone(), 60);
    assert!(!bl.has_device(&name));
    assert_eq!(bl.add_cb(cb(&log, 0), name.clone(), "w0", Some(Ok("dev"))), Ok(0));
    assert!(bl.has_device(&name));
    assert_eq!(bl.device(&name), Some(&"dev"));
    assert_eq!(bl.add_cb(cb(&log, 1), name.clone(), "w1", None), Ok(1));
    assert_eq!(*log.borrow(), vec![(0, 60), (1, 60)]);
    log.borrow_mut().clear();
    bl.call(&name, 75);
    assert_eq!(*log.borrow(), vec![(0, 75), (1, 75)]);
    log.borrow_mut().clear();
    let removed = bl.remove_cb(0).unwrap();
    assert_eq!(removed.0, name);
    assert_eq!(removed.1, "w0");
    assert!(bl.remove_cb(0).is_none());
    bl.call(&name, 80);
    assert_eq!(*log.borrow(), vec![(1, 80)]);
    // calling an unknown device does nothing
    bl.call(&"other".to_string(), 1);
    assert_eq!(log.borrow().len(), 1);
}

#[test]
fn failed_device_open_keeps_callback_and_id() {
    let log: Log = Rc::new(RefCell::new(vec![]));
    let mut bl: Bl = BackLight::new();
    let r = bl.add_cb(cb(&log, 0), "acpi".to_string(), "w", Some(Err("no such device".to_string())));
    assert_eq!(r, Err("no such device".to_string()));
    assert!(log.borrow().is_empty());
    assert!(!bl.has_device(&"acpi".to_string()));
    // the id was not used up
    bl.update_v("acpi".to_string(), 5);
    assert_eq!(bl.add_cb(cb(&log, 1), "acpi".to_string(), "w", Some(Ok("d"))), Ok(0));
    assert_eq!(*log.borrow(), vec![(1, 5)]);
}

#[test]
fn device_mut_and_global() {
    let mut g: Option<Bl> = None;
    assert!(!is_bl_inited(&g));
    assert!(unregister_callback(&mut g, 0).is_none());
    init_bl(&mut g);
    assert!(is_bl_inited(&g));
    let bl = g.as_mut().unwrap();
    bl.update_v("x".to_string(), 1);
    bl.add_cb(Box::new(|_| {}), "x".to_string(), "w", Some(Ok("d1"))).unwrap();
    *bl.device_mut(&"x".to_string()) = "d2";
    assert_eq!(bl.device(&"x".to_string()), Some(&"d2"));
    assert!(!bl.has_device(&"y".to_string()));
    let removed = unregister_callback(&mut g, 0);
    assert_eq!(removed.map(|e| e.1), Some("w"));
}

#[test]
fn watch_and_unwatch_paths() {
    let mut senders: KeyedMap<String, u8> = KeyedMap::new();
    let p = "/sys/class/backlight/x/brightness".to_string();
    assert_eq!(watch(&mut senders, p.clone(), Ok(()), 1), Ok(()));
    assert_eq!(senders.get(&p), Some(&1));
    assert_eq!(watch(&mut senders, "q".to_string(), Err("denied".to_string()), 2), Err("denied".to_string()));
    assert!(!senders.contains_key(&"q".to_string()));
    assert_eq!(unwatch(&mut senders, &p, Err("busy".to_string())), Err("busy".to_string()));
    assert!(senders.contains_key(&p));
    assert_eq!(unwatch(&mut senders, &p, Ok(())), Ok(()));
    assert!(!senders.contains_key(&p));
}
