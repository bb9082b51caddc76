use cddns::inventory::Inventory;
use cddns::reconcile::{check_records, find_match, LiveRecord, ReconcileError};

fn s(x: &str) -> String {
    x.to_string()
}

fn record(id: &str, zone_id: &str, zone_name: &str, name: &str, kind: &str, content: &str) -> LiveRecord {
    LiveRecord {
        id: s(id),
        zone_id: s(zone_id),
        zone_name: s(zone_name),
        name: s(name),
        record_type: s(kind),
        content: s(content),
    }
}

fn single(zone: &str, rec: &str) -> Inventory {
    let mut inv = Inventory::new();
    inv.insert(s(zone), s(rec));
    inv
}

#[test]
fn matching_content_is_good() {
    let inv = single("zoneA", "rec1");
    let live = vec![record("rec1", "zoneA", "example.com", "a.example.com", "A", "1.2.3.4")];
    let out = check_records(&inv, &live, &Some(s("1.2.3.4")), &None).ok().unwrap();
    assert_eq!(out.good.len(), 1);
    assert_eq!(out.good[0].id, "rec1");
    assert!(out.bad.is_empty());
    assert!(out.invalid.is_empty());
}

#[test]
fn stale_content_is_bad() {
    let inv = single("zoneA", "rec1");
    let live = vec![record("rec1", "zoneA", "example.com", "a.example.com", "A", "1.2.3.4")];
    let out = check_records(&inv, &live, &Some(s("5.6.7.8")), &None).ok().unwrap();
    assert!(out.good.is_empty());
    assert_eq!(out.bad.len(), 1);
    assert_eq!(out.bad[0].id, "rec1");
    assert_eq!(out.bad[0].content, "1.2.3.4");
    assert!(out.invalid.is_empty());
}

#[test]
fn missing_record_is_invalid() {
    let inv = single("zoneA", "rec1");
    let live: Vec<LiveRecord> = vec![];
    let out = check_records(&inv, &live, &Some(s("1.2.3.4")), &None).ok().unwrap();
    assert!(out.good.is_empty());
    assert!(out.bad.is_empty());
    assert_eq!(out.invalid, vec![(s("zoneA"), s("rec1"))]);
}

#[test]
fn unresolved_ipv4_aborts_pass() {
    let inv = single("zoneA", "rec1");
    let live = vec![record("rec1", "zoneA", "example.com", "a.example.com", "A", "1.2.3.4")];
    let out = check_records(&inv, &live, &None, &Some(s("::1")));
    assert!(matches!(out, Err(ReconcileError::NoComparableAddress(t)) if t == "A"));
}

#[test]
fn unresolved_ipv6_aborts_pass() {
    let inv = single("zoneA", "rec1");
    let live = vec![record("rec1", "zoneA", "example.com", "a.example.com", "AAAA", "::1")];
    let out = check_records(&inv, &live, &Some(s("1.2.3.4")), &None);
    assert!(matches!(out, Err(ReconcileError::NoComparableAddress(t)) if t == "AAAA"));
}

#[test]
fn ipv6_record_compared_with_ipv6() {
    let inv = single("zoneA", "rec1");
    let live = vec![record("rec1", "zoneA", "example.com", "a.example.com", "AAAA", "::1")];
    let out = check_records(&inv, &live, &Some(s("::1")), &Some(s("::1"))).ok().unwrap();
    assert_eq!(out.good.len(), 1);
    let out = check_records(&inv, &live, &None, &Some(s("::2"))).ok().unwrap();
    assert_eq!(out.bad.len(), 1);
}

#[test]
fn unsupported_type_aborts_pass() {
    let inv = single("zoneA", "rec1");
    let live = vec![record("rec1", "zoneA", "example.com", "a.example.com", "CNAME", "x.example.com")];
    let out = check_records(&inv, &live, &Some(s("1.2.3.4")), &Some(s("::1")));
    assert!(matches!(out, Err(ReconcileError::UnsupportedRecordType(t)) if t == "CNAME"));
}

#[test]
fn unmatched_entries_need_no_address() {
    let inv = single("zoneA", "rec1");
    let live = vec![record("other", "zoneB", "b.com", "b.b.com", "A", "1.2.3.4")];
    let out = check_records(&inv, &live, &None, &None).ok().unwrap();
    assert_eq!(out.invalid.len(), 1);
}

#[test]
fn match_by_zone_name_and_record_name() {
    let live = vec![record("rec1", "zoneA", "example.com", "a.example.com", "A", "1.2.3.4")];
    for (zone, rec) in [
        ("zoneA", "rec1"),
        ("zoneA", "a.example.com"),
        ("example.com", "rec1"),
        ("example.com", "a.example.com"),
    ] {
        let inv = single(zone, rec);
        let out = check_records(&inv, &live, &Some(s("1.2.3.4")), &None).ok().unwrap();
        assert_eq!(out.good.len(), 1);
    }
    let inv = single("example.com", "zoneA");
    let out = check_records(&inv, &live, &Some(s("1.2.3.4")), &None).ok().unwrap();
    assert_eq!(out.invalid.len(), 1);
}

#[test]
fn first_matching_record_wins() {
    let live = vec![
        record("x", "zoneB", "b.com", "x.b.com", "A", "9.9.9.9"),
        record("rec1", "zoneA", "a.com", "dup", "A", "1.1.1.1"),
        record("rec2", "zoneA", "a.com", "dup", "A", "2.2.2.2"),
    ];
    assert_eq!(find_match(&live, &s("zoneA"), &s("dup")), Some(1));
    assert_eq!(find_match(&live, &s("zoneC"), &s("dup")), None);
}

#[test]
fn partition_counts_every_entry() {
    let mut inv = Inventory::new();
    inv.insert(s("zoneA"), s("rec1"));
    inv.insert(s("zoneA"), s("rec2"));
    inv.insert(s("zoneA"), s("gone"));
    inv.insert(s("b.com"), s("rec3"));
    let live = vec![
        record("rec1", "zoneA", "a.com", "one.a.com", "A", "1.2.3.4"),
        record("rec2", "zoneA", "a.com", "two.a.com", "A", "4.3.2.1"),
        record("rec3", "zoneB", "b.com", "three.b.com", "AAAA", "::1"),
    ];
    let out = check_records(&inv, &live, &Some(s("1.2.3.4")), &Some(s("::1"))).ok().unwrap();
    assert_eq!(out.good.len() + out.bad.len() + out.invalid.len(), 4);
    assert_eq!(out.good.len(), 2);
    assert_eq!(out.bad.len(), 1);
    assert_eq!(out.invalid, vec![(s("zoneA"), s("gone"))]);
}

#[test]
fn empty_inventory_gives_empty_classes() {
    let inv = Inventory::new();
    let live = vec![record("rec1", "zoneA", "a.com", "one.a.com", "A", "1.2.3.4")];
    let out = check_records(&inv, &live, &None, &None).ok().unwrap();
    assert!(out.good.is_empty() && out.bad.is_empty() && out.invalid.is_empty());
}

#[test]
fn missing_address_aborts_after_classified_pairs() {
    let mut inv = Inventory::new();
    inv.insert(s("zoneA"), s("gone"));
    inv.insert(s("zoneA"), s("rec6"));
    inv.insert(s("zoneA"), s("rec4"));
    let live = vec![
        record("rec6", "zoneA", "a.com", "six.a.com", "AAAA", "::1"),
        record("rec4", "zoneA", "a.com", "four.a.com", "A", "1.2.3.4"),
    ];
    let out = check_records(&inv, &live, &None, &Some(s("::1")));
    assert!(matches!(out, Err(ReconcileError::NoComparableAddress(t)) if t == "A"));
}
