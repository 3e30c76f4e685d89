use heat_test::config::{parse_interval, parse_millis, DeviceConfig, DeviceSet};
use heat_test::reader::{DeviceReader, InitError, Message, Poll, SourceError};
use heat_test::store::AggregationStore;
use heat_test::watcher::ConfigWatcher;
use heat_test::Controller;

fn bits(v: f64) -> u64 {
    v.to_bits()
}

fn cfg(file: &str, cycle: &str) -> DeviceConfig {
    DeviceConfig::new(file.to_string(), cycle.to_string())
}

fn set_of(items: &[(&str, &str, &str)]) -> DeviceSet {
    let mut d = DeviceSet::new();
    for (name, file, cycle) in items {
        d.insert(name.to_string(), cfg(file, cycle));
    }
    d
}

fn total(store: &AggregationStore) -> f64 {
    store.values().iter().map(|b| f64::from_bits(*b)).sum()
}

fn started(results: Vec<Result<DeviceReader, InitError>>) -> Vec<DeviceReader> {
    results.into_iter().filter_map(|r| r.ok()).collect()
}

#[test]
fn scenario_single_device_value_update() {
    let d = set_of(&[("A", "a.txt", "1000")]);
    let mut c = Controller::new(d);
    let mut readers = started(c.create_tasks(&vec![Ok(bits(1.0))]));
    assert_eq!(readers.len(), 1);
    let first = readers[0].send_current_value();
    match &first {
        Message::ValueChange { name, value, .. } => {
            assert_eq!(name, "A");
            assert_eq!(f64::from_bits(*value), 1.0);
        }
        _ => panic!("expected a value change"),
    }
    assert!(!c.handle(first));
    assert_eq!(c.values().len(), 1);
    assert_eq!(c.values().get(&"A".to_string()), Some(bits(1.0)));
    assert_eq!(readers[0].cycle_time_ms(), 1000);

    match readers[0].read_content(Ok(bits(2.5))) {
        Poll::Changed(m) => {
            match &m {
                Message::ValueChange { name, value, .. } => {
                    assert_eq!(name, "A");
                    assert_eq!(f64::from_bits(*value), 2.5);
                }
                _ => panic!("expected a value change"),
            }
            assert!(!c.handle(m));
        }
        _ => panic!("expected a change"),
    }
    assert_eq!(c.values().get(&"A".to_string()), Some(bits(2.5)));
    assert_eq!(total(c.values()), 2.5);
}

#[test]
fn scenario_replacement_clears_then_repopulates() {
    let d = set_of(&[("A", "a.txt", "100")]);
    let mut c = Controller::new(d);
    let old = started(c.create_tasks(&vec![Ok(bits(1.0))]));
    c.handle(old[0].send_current_value());
    assert_eq!(c.values().get(&"A".to_string()), Some(bits(1.0)));

    let d2 = set_of(&[("A", "a.txt", "100"), ("B", "b.txt", "200")]);
    assert!(c.handle(Message::ConfigChange(d2)));
    assert_eq!(c.values().len(), 0);

    let new = started(c.create_tasks(&vec![Ok(bits(3.0)), Ok(bits(4.0))]));
    assert_eq!(new.len(), 2);
    // a late report from the stopped poller is not stored
    c.handle(old[0].send_current_value());
    assert_eq!(c.values().len(), 0);
    for r in &new {
        c.handle(r.send_current_value());
    }
    assert_eq!(c.values().len(), 2);
    assert_eq!(c.values().get(&"A".to_string()), Some(bits(3.0)));
    assert_eq!(c.values().get(&"B".to_string()), Some(bits(4.0)));
    assert_eq!(total(c.values()), 7.0);
}

#[test]
fn unreadable_device_gets_no_entry() {
    let d = set_of(&[("A", "a.txt", "100"), ("B", "missing.txt", "100"), ("C", "c.txt", "100")]);
    let mut c = Controller::new(d);
    let results = c.create_tasks(&vec![Ok(bits(1.0)), Err(SourceError::Unreadable), Ok(bits(2.0))]);
    assert!(matches!(results[1], Err(InitError::Source(SourceError::Unreadable))));
    let readers = started(results);
    assert_eq!(readers.len(), 2);
    for r in &readers {
        c.handle(r.send_current_value());
    }
    // even a forged report for the device is refused
    let epoch = c.epoch();
    c.handle(Message::ValueChange { name: "B".to_string(), value: bits(9.0), epoch });
    assert_eq!(c.values().get(&"B".to_string()), None);
    assert_eq!(c.values().len(), 2);
    assert_eq!(total(c.values()), 3.0);
}

#[test]
fn equal_snapshot_reports_nothing() {
    let mut w = ConfigWatcher::new(set_of(&[("A", "a.txt", "100"), ("B", "b.txt", "5")]));
    assert!(w.observe(set_of(&[("B", "b.txt", "5"), ("A", "a.txt", "100")])).is_none());
    match w.observe(set_of(&[("A", "a.txt", "100")])) {
        Some(Message::ConfigChange(d)) => assert_eq!(d.len(), 1),
        _ => panic!("expected a configuration change"),
    }
    assert_eq!(w.last_known().len(), 1);
    assert!(w.observe(set_of(&[("A", "a.txt", "100")])).is_none());
    assert!(w.observe(set_of(&[("A", "a.txt", "101")])).is_some());
}

#[test]
fn cycle_time_parsing() {
    assert_eq!(parse_millis("1000"), Some(1000));
    assert_eq!(parse_millis("+7"), Some(7));
    assert_eq!(parse_millis("0"), Some(0));
    assert_eq!(parse_millis("18446744073709551615"), Some(u64::MAX));
    assert_eq!(parse_millis("18446744073709551616"), None);
    assert_eq!(parse_millis(""), None);
    assert_eq!(parse_millis("+"), None);
    assert_eq!(parse_millis("-1"), None);
    assert_eq!(parse_millis("12a"), None);
    assert_eq!(parse_millis(" 12"), None);
    assert_eq!(parse_interval("0"), None);
    assert_eq!(parse_interval("250"), Some(250));
}

#[test]
fn reader_init_errors() {
    let e = DeviceReader::from_config("A".to_string(), cfg("a.txt", "100"), 0, Err(SourceError::Unparsable));
    assert!(matches!(e, Err(InitError::Source(SourceError::Unparsable))));
    let e = DeviceReader::from_config("A".to_string(), cfg("a.txt", "0"), 0, Ok(bits(1.0)));
    assert!(matches!(e, Err(InitError::Interval)));
    let e = DeviceReader::from_config("A".to_string(), cfg("a.txt", "soon"), 0, Ok(bits(1.0)));
    assert!(matches!(e, Err(InitError::Interval)));
    // the source is read before the interval is checked
    let e = DeviceReader::from_config("A".to_string(), cfg("a.txt", "0"), 0, Err(SourceError::Unreadable));
    assert!(matches!(e, Err(InitError::Source(SourceError::Unreadable))));
    let r = DeviceReader::from_config("A".to_string(), cfg("a.txt", "+15"), 4, Ok(bits(1.5))).ok().unwrap();
    assert_eq!(r.name(), "A");
    assert_eq!(r.file_path(), "a.txt");
    assert_eq!(r.cycle_time_ms(), 15);
    assert_eq!(r.current_value(), bits(1.5));
    assert_eq!(r.epoch(), 4);
}

#[test]
fn reader_polls() {
    let mut r = DeviceReader::from_config("A".to_string(), cfg("a.txt", "10"), 0, Ok(bits(1.0))).ok().unwrap();
    assert!(matches!(r.read_content(Ok(bits(1.0))), Poll::Unchanged));
    assert_eq!(r.current_value(), bits(1.0));
    assert!(matches!(r.read_content(Err(SourceError::Unreadable)), Poll::Failed(SourceError::Unreadable)));
    assert_eq!(r.current_value(), bits(1.0));
    assert!(matches!(r.read_content(Ok(bits(-3.0))), Poll::Changed(_)));
    assert_eq!(r.current_value(), bits(-3.0));
}

#[test]
fn device_set_insert_replaces() {
    let mut d = DeviceSet::new();
    d.insert("A".to_string(), cfg("a.txt", "1"));
    d.insert("B".to_string(), cfg("b.txt", "2"));
    d.insert("A".to_string(), cfg("a2.txt", "3"));
    assert_eq!(d.len(), 2);
    let (name, c) = d.entry(0);
    assert_eq!(name, "A");
    assert_eq!(c.file, "a2.txt");
    assert_eq!(c.cycle_time_ms, "3");
    let copy = d.duplicate();
    assert!(copy.same_as(&d));
    assert!(!d.same_as(&set_of(&[("A", "a2.txt", "3")])));
}

#[test]
fn store_upsert_and_clear() {
    let mut s = AggregationStore::new();
    s.insert("A".to_string(), bits(1.0));
    s.insert("B".to_string(), bits(2.0));
    s.insert("A".to_string(), bits(5.0));
    assert_eq!(s.len(), 2);
    assert_eq!(s.values(), vec![bits(5.0), bits(2.0)]);
    assert_eq!(s.get(&"C".to_string()), None);
    s.clear();
    assert_eq!(s.len(), 0);
    assert_eq!(total(&s), 0.0);
}

#[test]
fn bad_interval_does_not_block_others() {
    let d = set_of(&[("A", "a.txt", "x"), ("B", "b.txt", "20")]);
    let mut c = Controller::new(d);
    let results = c.create_tasks(&vec![Ok(bits(1.0)), Ok(bits(2.0))]);
    assert!(matches!(results[0], Err(InitError::Interval)));
    let readers = started(results);
    assert_eq!(readers.len(), 1);
    assert_eq!(readers[0].name(), "B");
    c.handle(readers[0].send_current_value());
    assert_eq!(c.values().get(&"B".to_string()), Some(bits(2.0)));
}

#[test]
fn epoch_advances_per_generation() {
    let mut c = Controller::new(set_of(&[("A", "a.txt", "1")]));
    assert_eq!(c.epoch(), 0);
    c.create_tasks(&vec![Ok(bits(1.0))]);
    assert_eq!(c.epoch(), 1);
    c.handle(Message::ConfigChange(set_of(&[])));
    assert_eq!(c.devices().len(), 0);
    c.create_tasks(&vec![]);
    assert_eq!(c.epoch(), 2);
}
