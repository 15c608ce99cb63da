use nemclass::scan::{ScanResults, ScanType};
use nemclass::spider::spider_entry;
use nemclass::table::{CheatEntry, CheatTable, FreezeValue};
use nemclass::types::FieldKind;

fn two_entries() -> CheatTable {
    let mut t = CheatTable::new();
    t.add_entry("Health", "0x10", "I32").unwrap();
    t.add_entry("Ammo", "0x20", "U16").unwrap();
    t
}

#[test]
fn add_entry_parses_the_kind() {
    let mut t = two_entries();
    assert_eq!(t.entries.len(), 2);
    assert_eq!(t.entries[1].kind, FieldKind::U16);
    assert_eq!(t.add_entry("x", "0x0", "Int").unwrap_err(), "unknown kind `Int`");
    assert_eq!(t.entries.len(), 2);
}

#[test]
fn update_entry_keeps_freeze_and_children() {
    let mut t = two_entries();
    t.entries[0].freeze = Some(FreezeValue { bytes: vec![1, 0, 0, 0] });
    t.entries[0].children.push(CheatEntry::new("child", "0x14", FieldKind::U8));
    assert_eq!(t.update_entry(0, "HP".into(), "0x18".into(), "Nope").unwrap_err(), "unknown kind `Nope`");
    assert_eq!(t.update_entry(5, "HP".into(), "0x18".into(), "I64").unwrap_err(), "entry index out of range");
    t.update_entry(0, "HP".into(), "0x18".into(), "I64").unwrap();
    let e = &t.entries[0];
    assert_eq!((e.description.as_str(), e.address.as_str(), e.kind), ("HP", "0x18", FieldKind::I64));
    assert_eq!(e.freeze, Some(FreezeValue { bytes: vec![1, 0, 0, 0] }));
    assert_eq!(e.children.len(), 1);
}

#[test]
fn remove_and_freeze_check_the_index() {
    let mut t = two_entries();
    assert_eq!(t.set_freeze(2, None).unwrap_err(), "entry index out of range");
    t.set_freeze(1, Some(FreezeValue { bytes: vec![7, 0] })).unwrap();
    assert_eq!(t.entries[1].freeze, Some(FreezeValue { bytes: vec![7, 0] }));
    t.set_freeze(1, None).unwrap();
    assert_eq!(t.entries[1].freeze, None);
    assert_eq!(t.remove_entry(2).unwrap_err(), "entry index out of range");
    t.remove_entry(0).unwrap();
    assert_eq!(t.entries.len(), 1);
    assert_eq!(t.entries[0].description, "Ammo");
}

#[test]
fn scan_result_becomes_a_typed_entry() {
    let r = ScanResults::from_parts(ScanType::U32, 4, vec![0x7FF0_1A2B, 0x40], vec![0; 8]).unwrap();
    let e = r.table_entry(0, "").unwrap();
    assert_eq!((e.description.as_str(), e.address.as_str(), e.kind), ("0x7FF01A2B", "0x7FF01A2B", FieldKind::U32));
    let e = r.table_entry(1, "gold").unwrap();
    assert_eq!((e.description.as_str(), e.address.as_str()), ("gold", "0x40"));
    assert_eq!(r.table_entry(2, "").unwrap_err(), "index out of range");
    let b = ScanResults::from_parts(ScanType::Bytes, 2, vec![0x10], vec![1, 2]).unwrap();
    assert_eq!(b.table_entry(0, "").unwrap_err(), "byte-array scans can't be added as a typed entry");
}

#[test]
fn spider_path_becomes_an_entry() {
    let e = spider_entry(0x1000, &[0x10], 0x8, FieldKind::I32, "");
    assert_eq!(e.description, "spider");
    assert_eq!(e.address, "[0x1000+0x10]+0x8");
    assert_eq!(e.kind, FieldKind::I32);
    let e = spider_entry(0x1000, &[], 0x4, FieldKind::U8, "hp");
    assert_eq!((e.description.as_str(), e.address.as_str()), ("hp", "0x1000+0x4"));
}
