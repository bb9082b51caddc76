use cddns::inventory::{Inventory, InventoryError};

fn s(x: &str) -> String {
    x.to_string()
}

fn zones_of(inv: Inventory) -> Vec<(String, Vec<String>)> {
    let mut it = inv.into_iter();
    let mut out = Vec::new();
    while let Some(item) = it.next() {
        out.push(item);
    }
    out
}

#[test]
fn new_inventory_is_empty() {
    let inv = Inventory::new();
    assert!(inv.is_empty());
    assert!(inv.pairs().is_empty());
    assert!(zones_of(inv).is_empty());
}

#[test]
fn insert_makes_inventory_non_empty() {
    let mut inv = Inventory::new();
    inv.insert(s("zoneA"), s("rec1"));
    assert!(!inv.is_empty());
}

#[test]
fn insert_twice_yields_single_entry() {
    let mut inv = Inventory::new();
    inv.insert(s("zoneA"), s("rec1"));
    inv.insert(s("zoneA"), s("rec1"));
    assert_eq!(inv.pairs(), vec![(s("zoneA"), s("rec1"))]);
    assert_eq!(zones_of(inv), vec![(s("zoneA"), vec![s("rec1")])]);
}

#[test]
fn insert_keeps_zones_and_records_apart() {
    let mut inv = Inventory::new();
    inv.insert(s("zoneA"), s("rec1"));
    inv.insert(s("zoneB"), s("rec1"));
    inv.insert(s("zoneA"), s("rec2"));
    inv.insert(s("zoneB"), s("rec1"));
    let mut pairs = inv.pairs();
    pairs.sort();
    assert_eq!(
        pairs,
        vec![
            (s("zoneA"), s("rec1")),
            (s("zoneA"), s("rec2")),
            (s("zoneB"), s("rec1")),
        ]
    );
    let zones = zones_of(inv);
    assert_eq!(zones.len(), 2);
}

#[test]
fn iterator_ends_with_none() {
    let mut inv = Inventory::new();
    inv.insert(s("zoneA"), s("rec1"));
    let mut it = inv.into_iter();
    assert!(it.next().is_some());
    assert!(it.next().is_none());
    assert!(it.next().is_none());
}

#[test]
fn yaml_reads_zones_and_records() {
    let inv = Inventory::from_yaml("zoneA:\n  - rec1\n  - rec2\nzoneB:\n  - rec3\n").ok().unwrap();
    let mut pairs = inv.pairs();
    pairs.sort();
    assert_eq!(
        pairs,
        vec![
            (s("zoneA"), s("rec1")),
            (s("zoneA"), s("rec2")),
            (s("zoneB"), s("rec3")),
        ]
    );
}

#[test]
fn yaml_collapses_duplicate_records() {
    let inv = Inventory::from_yaml("zoneA:\n  - rec1\n  - rec1\n").ok().unwrap();
    assert_eq!(inv.pairs(), vec![(s("zoneA"), s("rec1"))]);
}

#[test]
fn yaml_null_document_is_empty() {
    let inv = Inventory::from_yaml("null\n").ok().unwrap();
    assert!(inv.is_empty());
}

#[test]
fn yaml_zone_without_records_is_present() {
    let inv = Inventory::from_yaml("zoneA:\n").ok().unwrap();
    assert!(!inv.is_empty());
    assert!(inv.pairs().is_empty());
    assert_eq!(zones_of(inv), vec![(s("zoneA"), vec![])]);
}

#[test]
fn yaml_rejects_other_shapes() {
    assert!(matches!(Inventory::from_yaml("- a\n- b\n"), Err(InventoryError::ParseError)));
    assert!(matches!(Inventory::from_yaml("zoneA: [\n"), Err(InventoryError::ParseError)));
    assert!(matches!(Inventory::from_yaml("zoneA: 5\n"), Err(InventoryError::ParseError)));
}

#[test]
fn yaml_written_text_lists_records() {
    let mut inv = Inventory::new();
    inv.insert(s("zoneA"), s("rec1"));
    let text = inv.to_yaml().ok().unwrap();
    assert_eq!(text, "zoneA:\n- rec1\n");
}

#[test]
fn yaml_round_trip_keeps_pairs() {
    let mut inv = Inventory::new();
    inv.insert(s("zoneB"), s("rec3"));
    inv.insert(s("zoneA"), s("rec1"));
    inv.insert(s("zoneA"), s("rec2"));
    let mut before = inv.pairs();
    let text = inv.to_yaml().ok().unwrap();
    let back = Inventory::from_yaml(&text).ok().unwrap();
    let mut after = back.pairs();
    before.sort();
    after.sort();
    assert_eq!(before, after);
}

#[test]
fn yaml_round_trip_of_empty_inventory() {
    let inv = Inventory::new();
    let text = inv.to_yaml().ok().unwrap();
    let back = Inventory::from_yaml(&text).ok().unwrap();
    assert!(back.is_empty());
}

#[test]
fn document_with_null_records_gives_empty_zone() {
    let inv = Inventory::from_document(Some(vec![(s("zoneA"), None), (s("zoneB"), Some(vec![s("r")]))]));
    let mut pairs = inv.pairs();
    pairs.sort();
    assert_eq!(pairs, vec![(s("zoneB"), s("r"))]);
    assert_eq!(zones_of(inv).len(), 2);
}
