use nemclass::compare::{Criterion, Needle};
use nemclass::disasm::{disassemble_bytes, parse_maps_line};
use nemclass::dto::{field_kinds, parse_access_backend, parse_backend, parse_scan_type, parse_scan_value, parse_watch_kind, ClassSummaryDto, CompareDto, FieldInputDto, InsnDto, MapRegionDto};
use nemclass::history::{Config, History};
use nemclass::offset::{resolve, rip_target, SnapshotEnv};
use nemclass::scan::ScanType;
use nemclass::access::AccessBackend;
use nemclass::debug::{BackendKind, WatchKind};
use nemclass::schema::{FieldDef, TypeDef};
use nemclass::spider::{follows, search_window, spider_expr};
use nemclass::table::CheatEntry;
use nemclass::types::FieldKind;

fn field(name: &str, offset: usize, kind: FieldKind) -> FieldDef {
    FieldDef { name: name.into(), offset, kind, metadata: None }
}

#[test]
fn field_input_conversion() {
    let ok = FieldInputDto { name: "hp".into(), offset: 4, kind: "I32".into(), metadata: None }.into_field().unwrap();
    assert_eq!((ok.offset, ok.kind), (4, FieldKind::I32));
    let bad = FieldInputDto { name: "x".into(), offset: 0, kind: "Nope".into(), metadata: None }.into_field();
    assert_eq!(bad.unwrap_err(), "unknown field kind `Nope`");
}

#[test]
fn class_summary_and_palette() {
    let t = TypeDef { name: "C".into(), fields: vec![field("a", 0, FieldKind::I32), field("p", 8, FieldKind::Ptr)] };
    let s = ClassSummaryDto::of(&t, 4);
    assert_eq!((s.name.as_str(), s.field_count, s.size), ("C", 2, 12));
    let k = field_kinds();
    assert_eq!(k.len(), 24);
    assert_eq!((k[0].kind.as_str(), k[0].size), ("Hex8", 1));
    assert_eq!((k[23].kind.as_str(), k[23].size), ("Mat4x4f", 64));
}

#[test]
fn view_records() {
    let insns = disassemble_bytes(&[0xE8, 0, 0, 0, 0], 0x1000, 1);
    let d = InsnDto::of(&insns[0]);
    assert_eq!(d.bytes, "E8 00 00 00 00");
    assert_eq!(d.kind, "call");
    assert_eq!(d.target, Some(0x1005));
    let r = MapRegionDto::of(&parse_maps_line("1000-3000 rw-p 0 00:00 0 [heap]").unwrap());
    assert_eq!((r.size, r.kind.as_str(), r.label.as_str()), (0x2000, "heap", "[heap]"));
}

#[test]
fn compare_entries() {
    assert_eq!(parse_scan_value(ScanType::I32, " 0x10 "), Ok(Needle::Int(16)));
    assert_eq!(parse_scan_value(ScanType::I32, "-7"), Ok(Needle::Int(-7)));
    assert_eq!(parse_scan_value(ScanType::I32, "x"), Err("invalid integer".to_string()));
    assert_eq!(parse_scan_value(ScanType::U8, "0xZZ"), Err("invalid hex integer".to_string()));
    assert_eq!(parse_scan_value(ScanType::Bytes, "0xAA bb"), Ok(Needle::Bytes(vec![0xAA, 0xBB])));
    assert_eq!(parse_scan_value(ScanType::Bytes, "AA GG"), Err("invalid byte pattern".to_string()));
    let c = CompareDto { op: "between".into(), value: Some("1".into()), value2: Some("9".into()) };
    assert_eq!(c.into_compare(ScanType::U32), Ok(Criterion::Between(Needle::Int(1), Needle::Int(9))));
    let c = CompareDto { op: "greater".into(), value: None, value2: None };
    assert_eq!(c.into_compare(ScanType::U32), Err("comparison needs a value".to_string()));
    let c = CompareDto { op: "bogus".into(), value: None, value2: None };
    assert_eq!(c.into_compare(ScanType::U32), Err("unknown comparison `bogus`".to_string()));
}

#[test]
fn undo_redo() {
    let mut h: History<u32> = History::new();
    let mut cur = 1;
    h.snapshot(cur);
    cur = 2;
    assert!(h.undo(&mut cur));
    assert_eq!(cur, 1);
    assert!(h.redo(&mut cur));
    assert_eq!(cur, 2);
    assert!(!h.redo(&mut cur));
    h.snapshot(cur);
    assert!(h.undo(&mut cur));
    h.snapshot(cur);
    assert!(!h.redo(&mut cur));
    let c = Config::default();
    assert_eq!((c.poll_hz, c.recent_projects.len(), c.layout.is_none()), (30, 0, true));
}

#[test]
fn pointer_chains() {
    let mut env = SnapshotEnv::new();
    env.add_word(0x1010, 0x5000);
    env.add_word(0x5008, 0x6000);
    assert_eq!(resolve(&env, 0x1000, &[]), Some(0x1000));
    assert_eq!(resolve(&env, 0x1000, &[0x10, 0x8, 0x4]), Some(0x6004));
    assert_eq!(resolve(&env, 0x1000, &[0x20, 0x4]), None);
    assert_eq!(rip_target(-0x10, 0x1000), 0xFF0);
    assert_eq!(rip_target(0x20, 0x1000), 0x1020);
    let e = CheatEntry::new("x", "[0x1010]+4", FieldKind::I32);
    assert_eq!(e.resolve(&env).unwrap(), 0x5004);
}

#[test]
fn spider_paths() {
    assert_eq!(spider_expr(0x1400, &[0x10], 0x8), "[0x1400+0x10]+0x8");
    assert_eq!(spider_expr(0xAB, &[], 0x1C), "0xAB+0x1C");
    assert_eq!(spider_expr(0x1, &[0x2, 0x3], 0x4), "[[0x1+0x2]+0x3]+0x4");
    assert_eq!(search_window(0x1001, 8, 0x20), Some((0x1008, 0x1028)));
    assert_eq!(search_window(0x1000, 0, 0x10), Some((0x1000, 0x1010)));
    assert_eq!(search_window(usize::MAX, 8, 0), None);
    assert!(follows(0x1008, 0x2000, 0x1000));
    assert!(!follows(0x1004, 0x2000, 0x1000));
    assert!(!follows(0x1008, 0x1000, 0x1000));
}

#[test]
fn field_at_offsets_are_padded_contiguous() {
    let ty = TypeDef {
        name: "SGE".into(),
        fields: vec![
            FieldDef { name: "EntitySystem".into(), offset: 0xC0, kind: FieldKind::Ptr, metadata: None },
            FieldDef { name: "PSystem".into(), offset: 0x90, kind: FieldKind::Ptr, metadata: None },
        ],
    };
    let out = ty.normalize_contiguous(8);
    let ps = out.fields.iter().find(|f| f.name == "PSystem").unwrap();
    let es = out.fields.iter().find(|f| f.name == "EntitySystem").unwrap();
    assert_eq!(ps.offset, 0x90);
    assert_eq!(es.offset, 0xC0);
    let mut cur = 0;
    for f in &out.fields {
        assert_eq!(f.offset, cur, "gap/overlap at {:#x}", f.offset);
        cur += f.kind.size_with_ptr(8);
    }
    assert_eq!(cur, 0xC8);
}

#[test]
fn front_end_names_parse() {
    assert_eq!(parse_scan_type("U16"), Ok(ScanType::U16));
    assert_eq!(parse_scan_type("Bytes"), Ok(ScanType::Bytes));
    assert_eq!(parse_scan_type("u16"), Err("unknown scan type `u16`".to_string()));
    assert_eq!(parse_backend("PTrace"), Ok(BackendKind::Ptrace));
    assert_eq!(parse_backend("frida"), Ok(BackendKind::Frida));
    assert_eq!(parse_backend("gdb"), Err("unknown debugger backend `gdb`".to_string()));
    assert_eq!(parse_watch_kind("exec"), Ok(WatchKind::Execute));
    assert_eq!(parse_watch_kind("Access"), Ok(WatchKind::ReadWrite));
    assert_eq!(parse_watch_kind("write"), Ok(WatchKind::Write));
    assert_eq!(parse_watch_kind("poke"), Err("unknown watch kind `poke`".to_string()));
    assert_eq!(parse_access_backend("HW"), Ok(AccessBackend::Hardware));
    assert_eq!(parse_access_backend("lbr"), Ok(AccessBackend::LibIht));
    assert_eq!(parse_access_backend("pt"), Ok(AccessBackend::IntelPt));
    assert_eq!(parse_access_backend("x"), Err("unknown access backend `x`".to_string()));
}

#[test]
fn scan_types_map_to_field_kinds_and_back() {
    assert_eq!(ScanType::from_field_kind(FieldKind::I32), Some(ScanType::I32));
    assert_eq!(ScanType::from_field_kind(FieldKind::Ptr), None);
    assert_eq!(ScanType::I32.to_field_kind(), Some(FieldKind::I32));
    assert_eq!(ScanType::Bytes.to_field_kind(), None);
}

#[test]
fn recent_projects_keep_the_newest_first() {
    let mut c = Config::default();
    for i in 0..14 {
        c.remember_recent(&format!("/p/{i}"));
    }
    assert_eq!(c.recent_projects.len(), 12);
    assert_eq!(c.recent_projects[0], "/p/13");
    assert_eq!(c.recent_projects[11], "/p/2");
    c.remember_recent("/p/5");
    assert_eq!(c.recent_projects[0], "/p/5");
    assert_eq!(c.recent_projects.len(), 12);
    assert_eq!(c.recent_projects.iter().filter(|p| p.as_str() == "/p/5").count(), 1);
    assert_eq!(c.recent_projects[1], "/p/13");
}
