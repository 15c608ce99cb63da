use nemclass::classes::{end_offset, ClassModel};
use nemclass::dto::FieldInputDto;
use nemclass::schema::{FieldDef, TypeDef};
use nemclass::types::FieldKind;

fn field(name: &str, offset: usize, kind: FieldKind, meta: Option<&str>) -> FieldDef {
    FieldDef { name: name.into(), offset, kind, metadata: meta.map(|m| m.to_string()) }
}

fn sample() -> ClassModel {
    ClassModel::new(vec![
        TypeDef {
            name: "Player".into(),
            fields: vec![field("hp", 0, FieldKind::I32, None), field("pos", 8, FieldKind::Ptr, Some("Vec"))],
        },
        TypeDef { name: "Vec".into(), fields: vec![field("x", 0, FieldKind::F32, None)] },
    ])
}

fn names(m: &ClassModel) -> Vec<String> {
    m.classes().iter().map(|c| c.name.clone()).collect()
}

#[test]
fn end_offset_is_the_furthest_field_end() {
    let t = TypeDef {
        name: "T".into(),
        fields: vec![field("p", 16, FieldKind::Ptr, None), field("a", 0, FieldKind::I64, None)],
    };
    assert_eq!(end_offset(&t, 8), 24);
    assert_eq!(end_offset(&t, 4), 20);
    assert_eq!(end_offset(&TypeDef { name: "E".into(), fields: vec![] }, 8), 0);
}

#[test]
fn add_class_trims_and_refuses_empty_or_taken_names() {
    let mut m = sample();
    assert!(!m.is_dirty());
    assert_eq!(m.add_class("   ").unwrap_err(), "class name cannot be empty");
    assert_eq!(m.add_class(" Player ").unwrap_err(), "a class named `Player` already exists");
    assert!(!m.is_dirty());
    m.add_class("  Enemy ").unwrap();
    assert_eq!(names(&m), vec!["Player", "Vec", "Enemy"]);
    assert!(m.is_dirty());
    assert!(m.classes()[2].fields.is_empty());
}

#[test]
fn rename_class_repoints_pointer_fields() {
    let mut m = sample();
    assert_eq!(m.rename_class("Nope", "X").unwrap_err(), "no class named `Nope`");
    assert_eq!(m.rename_class("Vec", "Player").unwrap_err(), "a class named `Player` already exists");
    assert_eq!(m.rename_class("Vec", " ").unwrap_err(), "class name cannot be empty");
    m.rename_class("Vec", " Vec3 ").unwrap();
    assert_eq!(names(&m), vec!["Player", "Vec3"]);
    assert_eq!(m.classes()[0].fields[1].metadata.as_deref(), Some("Vec3"));
    // Renaming to the same name is allowed.
    m.rename_class("Vec3", "Vec3").unwrap();
}

#[test]
fn delete_class_and_get_class() {
    let mut m = sample();
    assert_eq!(m.get_class("Vec").unwrap().fields.len(), 1);
    assert_eq!(m.get_class("Nope").unwrap_err(), "no class named `Nope`");
    assert_eq!(m.delete_class("Nope").unwrap_err(), "no class named `Nope`");
    m.delete_class("Player").unwrap();
    assert_eq!(names(&m), vec!["Vec"]);
    assert_eq!(m.class_index("Vec"), Some(0));
    assert_eq!(m.class_index("Player"), None);
}

#[test]
fn list_classes_summarizes_each_class() {
    let m = sample();
    let l = m.list_classes(8);
    assert_eq!(l.len(), 2);
    assert_eq!((l[0].name.as_str(), l[0].field_count, l[0].size), ("Player", 2, 16));
    assert_eq!((l[1].name.as_str(), l[1].field_count, l[1].size), ("Vec", 1, 4));
}

#[test]
fn add_field_appends_after_the_layout_end() {
    let mut m = sample();
    assert_eq!(m.add_field("Player", "x".into(), "Bogus", None, 8).unwrap_err(), "unknown kind `Bogus`");
    assert!(!m.is_dirty());
    m.add_field("Player", "armor".into(), "U16", None, 8).unwrap();
    let f = &m.classes()[0].fields[2];
    assert_eq!((f.name.as_str(), f.offset, f.kind), ("armor", 16, FieldKind::U16));
    m.add_field("Player", "next".into(), "Ptr", Some("Player".into()), 4).unwrap();
    let f = &m.classes()[0].fields[3];
    assert_eq!((f.offset, f.metadata.as_deref()), (18, Some("Player")));
}

#[test]
fn unknown_class_after_recording_still_marks_unsaved() {
    let mut m = sample();
    assert_eq!(m.add_field("Nope", "x".into(), "U8", None, 8).unwrap_err(), "no class named `Nope`");
    assert!(m.is_dirty());
    assert!(m.undo());
    assert_eq!(names(&m), vec!["Player", "Vec"]);
}

#[test]
fn field_setters_and_index_errors() {
    let mut m = sample();
    assert_eq!(m.set_field_name("Player", 5, "z".into()).unwrap_err(), "field index out of range");
    m.set_field_name("Player", 0, "health".into()).unwrap();
    m.set_field_offset("Player", 0, 4).unwrap();
    assert_eq!(m.set_field_kind("Player", 0, "nah", None).unwrap_err(), "unknown kind `nah`");
    m.set_field_kind("Player", 0, "F32", None).unwrap();
    m.set_field_kind("Player", 1, "Ptr", Some("Player".into())).unwrap();
    let fs = &m.classes()[0].fields;
    assert_eq!((fs[0].name.as_str(), fs[0].offset, fs[0].kind), ("health", 4, FieldKind::F32));
    assert_eq!(fs[1].metadata.as_deref(), Some("Player"));
    assert_eq!(m.delete_field("Player", 2).unwrap_err(), "field index out of range");
    m.delete_field("Player", 0).unwrap();
    assert_eq!(m.classes()[0].fields.len(), 1);
    assert_eq!(m.classes()[0].fields[0].name, "pos");
}

#[test]
fn insert_fields_splices_at_the_index() {
    let mut m = sample();
    let input = |name: &str, offset: usize, kind: &str| FieldInputDto {
        name: name.into(),
        offset,
        kind: kind.into(),
        metadata: None,
    };
    let bad = vec![input("a", 0, "U8"), input("b", 1, "what"), input("c", 2, "also")];
    assert_eq!(m.insert_fields("Player", 0, bad).unwrap_err(), "unknown field kind `what`");
    assert!(!m.is_dirty());
    m.insert_fields("Player", 1, vec![input("a", 4, "U8"), input("b", 5, "U8")]).unwrap();
    let got: Vec<&str> = m.classes()[0].fields.iter().map(|f| f.name.as_str()).collect();
    assert_eq!(got, vec!["hp", "a", "b", "pos"]);
    m.insert_fields("Player", 99, vec![input("z", 40, "I64")]).unwrap();
    assert_eq!(m.classes()[0].fields[4].name, "z");
    assert_eq!(m.classes()[0].fields[4].kind, FieldKind::I64);
}

#[test]
fn undo_restores_and_redo_reapplies() {
    let mut m = sample();
    assert!(!m.undo());
    assert!(!m.redo());
    m.add_class("A").unwrap();
    m.delete_class("Vec").unwrap();
    assert_eq!(names(&m), vec!["Player", "A"]);
    m.mark_saved();
    assert!(m.undo());
    assert!(m.is_dirty());
    assert_eq!(names(&m), vec!["Player", "Vec", "A"]);
    assert!(m.undo());
    assert_eq!(names(&m), vec!["Player", "Vec"]);
    assert!(!m.undo());
    assert!(m.redo());
    assert_eq!(names(&m), vec!["Player", "Vec", "A"]);
    // A new edit clears what could be redone.
    m.rename_class("A", "B").unwrap();
    assert!(!m.redo());
    assert!(m.undo());
    assert_eq!(names(&m), vec!["Player", "Vec", "A"]);
}
