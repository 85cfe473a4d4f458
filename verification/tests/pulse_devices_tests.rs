use std::cell::RefCell;
use std::rc::Rc;
use way_edges::pulse::PaError;
use way_edges::pulse_devices::{match_name_index, DeviceStates, ListEntry, NameMatch, PaGlobal, SinkOrSource, PA};

type Log = Rc<RefCell<Vec<(i32, u32)>>>;
type Cb = Box<dyn FnMut(&u32)>;

fn cb(log: &Log, tag: i32) -> Cb {
    let log = log.clone();
    Box::new(move |v: &u32| log.borrow_mut().push((tag, *v)))
}

fn sink(s: &str) -> SinkOrSource {
    SinkOrSource::Sink(s.to_string())
}

#[test]
fn sink_or_source_equality() {
    assert_eq!(sink("a"), sink("a"));
    assert_ne!(sink("a"), SinkOrSource::Source("a".to_string()));
    assert_ne!(sink("a"), sink("b"));
    assert_eq!(sink("a").clone(), sink("a"));
}

#[test]
fn callbacks_by_device() {
    let log: Log = Rc::new(RefCell::new(vec![]));
    let mut pa: PA<Cb> = PA::new();
    assert_eq!(pa.add_cb(cb(&log, 0), sink("spk"), Some(50u32)), 0);
    assert_eq!(pa.add_cb(cb(&log, 1), sink("hdmi"), None), 1);
    assert_eq!(pa.add_cb(cb(&log, 2), sink("spk"), Some(51u32)), 2);
    assert_eq!(*log.borrow(), vec![(0, 50), (2, 51)]);
    log.borrow_mut().clear();
    pa.call(&sink("spk"), Some(70u32));
    assert_eq!(*log.borrow(), vec![(0, 70), (2, 70)]);
    log.borrow_mut().clear();
    pa.call(&sink("spk"), None::<u32>);
    pa.call(&SinkOrSource::Source("spk".to_string()), Some(1u32));
    assert!(log.borrow().is_empty());
    pa.remove_cb(0);
    pa.call(&sink("spk"), Some(71u32));
    assert_eq!(*log.borrow(), vec![(2, 71)]);
}

#[test]
fn global_register_and_unregister() {
    let log: Log = Rc::new(RefCell::new(vec![]));
    let mut g: PaGlobal<Cb> = PaGlobal::new();
    assert!(!g.is_pa_inited());
    assert_eq!(g.register_callback(cb(&log, 0), sink("spk"), Some(3u32)), Ok(0));
    assert!(g.is_pa_inited());
    assert_eq!(g.register_callback(cb(&log, 1), sink("spk"), None::<u32>), Ok(1));
    g.unregister_callback(1);
    g.call_pa(&sink("spk"), Some(4u32));
    assert_eq!(*log.borrow(), vec![(0, 3), (0, 4)]);
    assert_eq!(g.try_init_pulseaudio(), Ok(()));
}

#[test]
fn device_states_and_defaults() {
    let mut d: DeviceStates<u32> = DeviceStates::new();
    assert_eq!(d.get_default_sink(), None);
    d.set_default_sink("spk".to_string());
    d.set_default_source("mic".to_string());
    assert_eq!(d.get_default_sink(), Some(&"spk".to_string()));
    assert_eq!(d.get_default_source(), Some(&"mic".to_string()));
    d.set_sink_vol_by_name("spk".to_string(), 40);
    d.set_source_vol_by_name("mic".to_string(), 7);
    d.set_sink_vol_by_name("spk".to_string(), 41);
    assert_eq!(d.get_sink_vol_by_name(&"spk".to_string()), Some(&41));
    assert_eq!(d.get_source_vol_by_name(&"spk".to_string()), None);
    assert_eq!(d.get_vinfo(&sink("spk")), Some(&41));
    assert_eq!(d.get_vinfo(&SinkOrSource::Source("mic".to_string())), Some(&7));
    let named = "hdmi".to_string();
    assert_eq!(d.sink_to_change(Some(&named)), Some(&named));
    assert_eq!(d.sink_to_change(None), Some(&"spk".to_string()));
    assert_eq!(d.source_to_change(None), Some(&"mic".to_string()));
    let e: DeviceStates<u32> = DeviceStates::new();
    assert_eq!(e.source_to_change(None), None);
}

#[test]
fn name_match_finds_first_and_stops() {
    let entries = vec![
        ListEntry::Item("a".to_string(), 4),
        ListEntry::Item("b".to_string(), 5),
        ListEntry::Item("b".to_string(), 6),
    ];
    assert_eq!(match_name_index("b".to_string(), entries), Some(5));
    let entries = vec![ListEntry::Item("a".to_string(), 4), ListEntry::End, ListEntry::Item("b".to_string(), 6)];
    assert_eq!(match_name_index("b".to_string(), entries), None);
    let entries = vec![ListEntry::Error, ListEntry::Item("b".to_string(), 6)];
    assert_eq!(match_name_index("b".to_string(), entries), None);
    assert_eq!(match_name_index("b".to_string(), vec![]), None);
}

#[test]
fn name_match_steps() {
    let mut m = NameMatch::new("x".to_string());
    assert!(!m.is_done());
    m.step(ListEntry::Item("y".to_string(), 1));
    assert!(!m.is_done());
    m.step(ListEntry::Item("x".to_string(), 2));
    assert!(m.is_done());
    assert_eq!(m.result(), Some(2));
    m.step(ListEntry::Item("x".to_string(), 3));
    assert_eq!(m.result(), Some(2));
}

#[test]
fn closed_error_variant_exists() {
    assert_ne!(PaError::Closed, PaError::Unavailable);
}
