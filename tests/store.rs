use shortlink::clock::Timestamp;
use shortlink::entry::EntryStore;
use shortlink::index;
use shortlink::store::{Store, StoreError};
use shortlink::visit::{IpAddress, Visit, VisitLog};

fn visitor() -> IpAddress {
    IpAddress::V4([203, 0, 113, 5])
}

#[test]
fn index_greets() {
    assert_eq!(index(), "Hello, world!");
}

#[test]
fn register_returns_code_and_url() {
    let mut s = Store::new();
    let e = s.create_entry("abc".to_string(), "https://example.com".to_string());
    assert_eq!(e.code, "abc");
    assert_eq!(e.url, "https://example.com");
    assert_eq!(s.visit("abc", visitor()), Ok("https://example.com".to_string()));
}

#[test]
fn register_accepts_empty_strings() {
    let mut s = Store::new();
    let e = s.create_entry(String::new(), String::new());
    assert_eq!(e.code, "");
    assert_eq!(s.visit("", visitor()), Ok(String::new()));
    assert_eq!(s.list_entries().len(), 1);
}

#[test]
fn fresh_ids_are_version_four_and_distinct() {
    let mut s = Store::new();
    let a = s.create_entry("a".to_string(), "u".to_string());
    let b = s.create_entry("b".to_string(), "u".to_string());
    assert_ne!(a.id, b.id);
    assert_eq!((a.id >> 76) & 0xf, 4);
    assert_eq!((a.id >> 62) & 0x3, 2);
}

#[test]
fn unknown_code_is_not_found_and_records_nothing() {
    let mut s = Store::new();
    s.create_entry("abc".to_string(), "https://example.com".to_string());
    assert_eq!(s.visit("nope", visitor()), Err(StoreError::NotFound));
    assert!(s.list_visits().is_empty());
    let mut empty = Store::new();
    assert_eq!(empty.visit("abc", visitor()), Err(StoreError::NotFound));
}

#[test]
fn first_registration_wins() {
    let mut s = Store::new();
    let first = s.create_entry("x".to_string(), "https://one.example".to_string());
    s.create_entry("x".to_string(), "https://two.example".to_string());
    assert_eq!(s.visit("x", visitor()), Ok("https://one.example".to_string()));
    assert_eq!(s.visit("x", visitor()), Ok("https://one.example".to_string()));
    let visits = s.list_visits();
    assert_eq!(visits.len(), 2);
    assert!(visits.iter().all(|v| v.entry_id == first.id));
}

#[test]
fn visits_accumulate_in_time_order() {
    let mut s = Store::new();
    let e = s.create_entry("abc".to_string(), "https://example.com".to_string());
    for _ in 0..5 {
        assert_eq!(s.visit("abc", visitor()), Ok("https://example.com".to_string()));
    }
    let visits = s.list_visits();
    assert_eq!(visits.len(), 5);
    for v in &visits {
        assert_eq!(v.entry_id, e.id);
        assert_eq!(v.ip, visitor());
    }
    for w in visits.windows(2) {
        let (a, b) = (w[0].timestamp, w[1].timestamp);
        assert!(a.secs < b.secs || (a.secs == b.secs && a.nanos <= b.nanos));
    }
}

#[test]
fn entry_visits_are_filtered_in_order() {
    let mut s = Store::new();
    let a = s.create_entry("a".to_string(), "https://a.example".to_string());
    let b = s.create_entry("b".to_string(), "https://b.example".to_string());
    let v6 = IpAddress::V6([0x20, 0x01, 0x0d, 0xb8, 0, 0, 0, 0, 0, 0, 0, 0, 0, 0, 0, 1]);
    s.visit("a", visitor()).unwrap();
    s.visit("b", visitor()).unwrap();
    s.visit("a", v6).unwrap();
    let all = s.list_visits();
    let of_a = s.list_entry_visits(a.id).unwrap();
    assert_eq!(of_a, vec![all[0], all[2]]);
    assert_eq!(of_a[1].ip, v6);
    assert_eq!(s.list_entry_visits(b.id).unwrap(), vec![all[1]]);
}

#[test]
fn entry_without_visits_lists_empty() {
    let mut s = Store::new();
    let e = s.create_entry("abc".to_string(), "https://example.com".to_string());
    assert_eq!(s.list_entry_visits(e.id), Ok(Vec::new()));
}

#[test]
fn end_to_end_scenario() {
    let mut s = Store::new();
    let e = s.create_entry("abc".to_string(), "https://example.com".to_string());
    assert_eq!(e.code, "abc");
    assert_eq!(e.url, "https://example.com");
    assert_eq!(s.visit("abc", visitor()), Ok("https://example.com".to_string()));
    let all = s.list_visits();
    assert_eq!(all.len(), 1);
    assert_eq!(all[0].entry_id, e.id);
    assert_eq!(all[0].ip, IpAddress::V4([203, 0, 113, 5]));
    assert_eq!(s.list_entry_visits(e.id), Ok(all.clone()));
    let unused = e.id ^ 1;
    assert_eq!(s.list_entry_visits(unused), Err(StoreError::NotFound));
}

#[test]
fn list_entries_keeps_registration_order() {
    let mut s = Store::new();
    s.create_entry("b".to_string(), "2".to_string());
    s.create_entry("a".to_string(), "1".to_string());
    let codes: Vec<String> = s.list_entries().into_iter().map(|e| e.code).collect();
    assert_eq!(codes, vec!["b".to_string(), "a".to_string()]);
}

#[test]
fn entry_store_lookups() {
    let mut es = EntryStore::new();
    let e = es.insert("k".to_string(), "https://k.example".to_string());
    assert_eq!(es.lookup_by_code("k").map(|f| f.id), Some(e.id));
    assert!(es.lookup_by_code("z").is_none());
    assert_eq!(es.lookup_by_id(e.id).map(|f| f.url), Some("https://k.example".to_string()));
    assert!(es.lookup_by_id(e.id ^ 1).is_none());
}

#[test]
fn log_clamps_a_clock_that_went_back() {
    let mut log = VisitLog::new();
    let ip = visitor();
    let early = Timestamp { secs: 100, nanos: 5 };
    let late = Timestamp { secs: 200, nanos: 0 };
    let first = log.push_ordered(Visit { id: 1, entry_id: 9, ip, timestamp: late });
    assert_eq!(first.timestamp, late);
    let second = log.push_ordered(Visit { id: 2, entry_id: 9, ip, timestamp: early });
    assert_eq!(second.timestamp, late);
    assert_eq!(second.id, 2);
    let third = log.push_ordered(Visit { id: 3, entry_id: 8, ip, timestamp: Timestamp { secs: 200, nanos: 7 } });
    assert_eq!(third.timestamp, Timestamp { secs: 200, nanos: 7 });
    assert_eq!(log.list_by_entry(9).len(), 2);
    assert_eq!(log.list_all().len(), 3);
}

#[test]
fn later_of_compares_seconds_then_nanos() {
    let a = Timestamp { secs: 1, nanos: 999 };
    let b = Timestamp { secs: 2, nanos: 0 };
    let c = Timestamp { secs: 2, nanos: 1 };
    assert_eq!(a.later_of(b), b);
    assert_eq!(b.later_of(a), b);
    assert_eq!(c.later_of(b), c);
    assert!(b.at_or_before(c));
    assert!(!c.at_or_before(b));
}

#[test]
fn new_visit_reads_the_clock() {
    let v = Visit::new(7, visitor());
    assert_eq!(v.entry_id, 7);
    assert!(v.timestamp.secs > 1_600_000_000);
    assert!(v.timestamp.nanos < 2_000_000_000);
}
