use nemclass::debug::FridaDebugger;
use nemclass::error::SdkError;
use nemclass::inspect::{inspect, walk, InspectMemory, MAX_DEPTH};
use nemclass::offset::{eval, resolve, SnapshotEnv};
use nemclass::spider::spider_expr;
use nemclass::schema::{FieldDef, TypeDef};
use nemclass::types::FieldKind;
use std::collections::HashMap;

/// Memory made of 8-byte little-endian words and strings.
struct Mem {
    words: HashMap<usize, u64>,
    strings: HashMap<usize, String>,
}

impl InspectMemory for Mem {
    fn read_bytes(&self, addr: usize, len: usize) -> Option<Vec<u8>> {
        let w = self.words.get(&addr)?;
        Some(w.to_le_bytes()[..len.min(8)].to_vec())
    }
    fn read_ptr(&self, addr: usize) -> Option<usize> {
        self.words.get(&addr).map(|w| *w as usize)
    }
    fn read_string(&self, addr: usize) -> Option<String> {
        self.strings.get(&addr).cloned()
    }
    fn show(&self, kind: FieldKind, bytes: &[u8], ptr: usize) -> String {
        nemclass::format::format_bytes(kind, bytes, ptr)
    }
}

fn field(name: &str, offset: usize, kind: FieldKind, meta: Option<&str>) -> FieldDef {
    FieldDef { name: name.into(), offset, kind, metadata: meta.map(|m| m.to_string()) }
}

fn classes() -> Vec<TypeDef> {
    vec![
        TypeDef {
            name: "Player".into(),
            fields: vec![
                field("health", 0, FieldKind::I32, None),
                field("target", 8, FieldKind::Ptr, Some("Enemy")),
                field("tag", 16, FieldKind::StrPtr, None),
                field("other", 24, FieldKind::Ptr, Some("Missing")),
            ],
        },
        TypeDef { name: "Enemy".into(), fields: vec![field("hp", 4, FieldKind::U16, None)] },
    ]
}

fn mem() -> Mem {
    let mut words = HashMap::new();
    words.insert(0x1000, 250);
    words.insert(0x1008, 0x2000);
    words.insert(0x1010, 0x3000);
    words.insert(0x1018, 0x4000);
    words.insert(0x2004, 77);
    let mut strings = HashMap::new();
    strings.insert(0x3000, "boss".to_string());
    Mem { words, strings }
}

#[test]
fn walk_reads_rows_and_expands_pointer() {
    let cs = classes();
    let m = mem();
    let mut path = vec![];
    let rows = walk(&cs, "Player", 0x1000, 8, Some(&m), &mut path, &[vec![1]], 0);
    assert!(path.is_empty());
    assert_eq!(rows.len(), 4);
    assert_eq!(rows[0].value.as_deref(), Some("250"));
    assert_eq!(rows[0].address, 0x1000);
    assert_eq!(rows[0].kind, "I32");
    assert_eq!(rows[0].size, 4);
    assert!(rows[1].expandable);
    assert_eq!(rows[1].pointee, Some(0x2000));
    assert_eq!(rows[1].children.len(), 1);
    assert_eq!(rows[1].children[0].address, 0x2004);
    assert_eq!(rows[1].children[0].value.as_deref(), Some("77"));
    assert_eq!(rows[2].value.as_deref(), Some("\"boss\""));
    assert_eq!(rows[2].pointee, Some(0x3000));
    assert!(!rows[3].expandable);
    assert!(rows[3].children.is_empty());
}

#[test]
fn walk_without_target_or_class() {
    let cs = classes();
    let mut path = vec![];
    let rows = walk::<Mem>(&cs, "Player", 0x1000, 8, None, &mut path, &[vec![1]], 0);
    assert_eq!(rows.len(), 4);
    assert!(rows.iter().all(|r| r.value.is_none() && r.pointee.is_none() && r.children.is_empty()));
    assert!(walk::<Mem>(&cs, "Nope", 0, 8, None, &mut path, &[], 0).is_empty());
    let m = mem();
    let deep = walk(&cs, "Player", 0x1000, 8, Some(&m), &mut path, &[vec![1]], MAX_DEPTH);
    assert!(deep[1].children.is_empty());
}

#[test]
fn inspect_reports_unknown_class() {
    let cs = classes();
    let m = mem();
    match inspect(&cs, "Ghost".into(), 0, 8, Some(&m), &[]) {
        Err(e) => assert_eq!(e, "no class named `Ghost`"),
        Ok(_) => panic!("expected an error"),
    }
    let ok = inspect(&cs, "Enemy".into(), 0x2000, 8, Some(&m), &[]).unwrap();
    assert!(ok.attached);
    assert_eq!(ok.rows.len(), 1);
    assert_eq!(ok.rows[0].value.as_deref(), Some("77"));
}

#[test]
fn frida_backend_refuses() {
    assert!(matches!(FridaDebugger::attach(7), Err(SdkError::Unsupported(_))));
}

#[test]
fn spider_path_expression_evaluates_to_its_chain() {
    let mut env = SnapshotEnv::new();
    env.add_word(0x1410, 0x2000);
    env.add_word(0x2008, 0x3000);
    let e = spider_expr(0x1400, &[0x10, 0x8], 0x4);
    assert_eq!(e, "[[0x1400+0x10]+0x8]+0x4");
    assert_eq!(eval(&env, &e).unwrap(), 0x3004);
    assert_eq!(resolve(&env, 0x1400, &[0x10, 0x8, 0x4]), Some(0x3004));
    // An unreadable pointer on the way fails the evaluation with an access error.
    let broken = spider_expr(0x1400, &[0x20], 0x4);
    assert!(matches!(eval(&env, &broken), Err(SdkError::Access { address: 0x1420 })));
}
