use nemclass::table::{CheatEntry, CheatTable, FreezeValue, Hotkey, HotkeyAction};
use nemclass::types::{FieldKind, FloatWidth};

fn sample_table() -> CheatTable {
    let mut t = CheatTable::new();
    let mut health = CheatEntry::new("Health", "[<game.exe>+0x1A2B]+0x10", FieldKind::I32);
    health.freeze = Some(FreezeValue { bytes: 100i32.to_ne_bytes().to_vec() });
    health.hotkey = Some(Hotkey { combo: "Ctrl+F1".into(), action: HotkeyAction::ToggleFreeze });
    health.group = Some("Player".into());
    health.children.push(CheatEntry::new("Max Health", "[<game.exe>+0x1A2B]+0x14", FieldKind::I32));
    t.entries.push(health);
    t.entries.push(CheatEntry::new(
        "Position",
        "[<game.exe>+0x2000]",
        FieldKind::Vector { components: 3, width: FloatWidth::F32 },
    ));
    t
}

#[test]
fn flatten_counts_children() {
    let table = sample_table();
    // Health + Max Health + Position == 3.
    assert_eq!(table.all_entries().len(), 3);
}

#[test]
fn flatten_is_depth_first_parents_first() {
    let table = sample_table();
    let names: Vec<&str> = table.all_entries().iter().map(|e| e.description.as_str()).collect();
    assert_eq!(names, vec!["Health", "Max Health", "Position"]);
    assert_eq!(table.entries[0].flatten().len(), 2);
    assert_eq!(table.version, CheatTable::CURRENT_VERSION);
}

#[test]
fn new_entry_is_bare() {
    let e = CheatEntry::new("Gold", "0x10", FieldKind::U32);
    assert_eq!(e.description, "Gold");
    assert_eq!(e.address, "0x10");
    assert_eq!(e.kind, FieldKind::U32);
    assert!(e.freeze.is_none() && e.hotkey.is_none() && e.group.is_none() && e.children.is_empty());
}
