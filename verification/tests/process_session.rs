use nemclass::access::{HwAccessTracer, PollAction};
use nemclass::debug::{BpId, DebugEvent, Registers, StopReason, ThreadId};
use nemclass::dirs::{dir_listing, order_by_key, DirEntryDto};
use nemclass::error::{MfError, SdkError};
use nemclass::process::{parent_pid_of, process_display_name, ProcessInfo, ProcessIterator, StrReader};
use nemclass::project::{ClassFile, FieldFile, LoadedProject, Manifest};

#[test]
fn str_reader_stops_at_first_nul() {
    let mut r = StrReader::new(0x1000);
    assert_eq!(r.next_address(), Some(0x1000));
    assert!(r.feed(b"game").is_none());
    assert_eq!(r.next_address(), Some(0x1004));
    let s = r.feed(&[b'.', b'x', 0, b'z']).unwrap().unwrap();
    assert_eq!(s, "game.x");
}

#[test]
fn str_reader_empty_and_invalid() {
    let mut r = StrReader::new(16);
    assert_eq!(r.feed(&[0, 1, 2, 3]).unwrap().unwrap(), "");
    let mut bad = StrReader::new(16);
    assert_eq!(bad.feed(&[0xff, 0xfe, 0, 0]).unwrap(), Err(MfError::InvalidString));
    let end = StrReader::new(usize::MAX);
    assert_eq!(end.next_address(), Some(usize::MAX));
    let mut last = StrReader::new(usize::MAX);
    assert!(last.feed(b"a").is_none());
    assert_eq!(last.next_address(), None);
}

#[test]
fn ppid_from_status_text() {
    let status = "Name:\tbash\nUmask:\t0022\nState:\tS (sleeping)\nTgid:\t4242\nPid:\t4242\nPPid:\t  17 \nTracerPid:\t0\n";
    assert_eq!(parent_pid_of(status), Some(17));
    assert_eq!(parent_pid_of("Name:\tx\n"), None);
    assert_eq!(parent_pid_of("PPid:\tabc\nPPid:\t5\n"), None);
    assert_eq!(parent_pid_of("PPid:\t4294967296\n"), None);
}

#[test]
fn wine_processes_show_their_program() {
    assert_eq!(process_display_name("wine64-preloader", Some("Terraria.exe")), "wine64-preloader (Terraria.exe)");
    assert_eq!(process_display_name("WineServer", Some("a.exe")), "WineServer (a.exe)");
    assert_eq!(process_display_name("wine64-preloader", None), "wine64-preloader");
    assert_eq!(process_display_name("bash", Some("x.exe")), "bash");
}

#[test]
fn process_iterator_in_order() {
    let ps = vec![
        ProcessInfo { id: 1, name: "init".into(), parent_id: 0 },
        ProcessInfo { id: 7, name: "sh".into(), parent_id: 1 },
    ];
    let mut it = ProcessIterator::new(ps);
    assert_eq!(it.next().map(|p| p.id), Some(1));
    assert_eq!(it.next().map(|p| p.name), Some("sh".to_string()));
    assert!(it.next().is_none());
    assert!(it.next().is_none());
}

fn regs_at(rip: u64, rax: u64) -> Registers {
    let mut r = Registers::default();
    r.rip = rip;
    r.rax = rax;
    r
}

#[test]
fn hw_tracer_aggregates_by_instruction() {
    let mut t = HwAccessTracer::new();
    assert!(t.check_attached().is_ok());
    t.watch_set(BpId(3));
    let hit = Ok(DebugEvent { tid: ThreadId(9), reason: StopReason::Watchpoint { id: BpId(3), addr: 0x50 } });
    assert_eq!(HwAccessTracer::poll_action(&hit), PollAction::Record(ThreadId(9)));
    t.record(regs_at(0x400, 1));
    t.record(regs_at(0x410, 2));
    t.record(regs_at(0x400, 3));
    let recs = t.records();
    assert_eq!(recs.len(), 2);
    assert_eq!(recs[0].insn_addr, 0x400);
    assert_eq!(recs[0].hits, 2);
    assert_eq!(recs[0].regs.rax, 3);
    assert_eq!(recs[1].hits, 1);
    assert_eq!(t.stop(), (true, Some(BpId(3))));
    assert_eq!(t.stop(), (false, None));
    match t.check_attached() {
        Err(SdkError::Debug(m)) => assert_eq!(m, "tracer stopped"),
        other => panic!("unexpected {other:?}"),
    }
}

#[test]
fn hw_tracer_poll_actions() {
    let exited = Ok(DebugEvent { tid: ThreadId(1), reason: StopReason::Exited(0) });
    assert_eq!(HwAccessTracer::poll_action(&exited), PollAction::Finish);
    let sig = Ok(DebugEvent { tid: ThreadId(1), reason: StopReason::Signal(10) });
    assert_eq!(HwAccessTracer::poll_action(&sig), PollAction::Resume);
    let timeout: Result<DebugEvent, SdkError> = Err(SdkError::Debug("timeout".into()));
    assert_eq!(HwAccessTracer::poll_action(&timeout), PollAction::Finish);
}

fn field(name: &str, offset: usize, kind: &str) -> FieldFile {
    FieldFile { name: name.into(), offset, kind: kind.into(), target: None }
}

#[test]
fn loaded_project_reads_classes_in_order() {
    let files = vec![
        ClassFile { name: "A".into(), fields: vec![field("x", 0, "I32"), field("y", 4, "F32")] },
        ClassFile { name: "B".into(), fields: vec![] },
    ];
    let p = LoadedProject::assemble("/p".into(), Manifest::new("demo"), files, vec!["/p/scripts/a.lua".into()])
        .unwrap();
    assert_eq!(p.dir, "/p");
    assert_eq!(p.manifest.name, "demo");
    assert_eq!(p.classes.classes.len(), 2);
    assert_eq!(p.classes.classes[0].name, "A");
    assert_eq!(p.classes.classes[0].fields[1].offset, 4);
    assert_eq!(p.classes.classes[1].name, "B");
    assert_eq!(p.scripts, vec!["/p/scripts/a.lua".to_string()]);
}

#[test]
fn loaded_project_reports_unknown_kind() {
    let files = vec![
        ClassFile { name: "A".into(), fields: vec![field("x", 0, "I32")] },
        ClassFile { name: "B".into(), fields: vec![field("y", 0, "Nope"), field("z", 8, "Bogus")] },
    ];
    match LoadedProject::assemble("/p".into(), Manifest::new("demo"), files, vec![]) {
        Err(SdkError::Project(m)) => assert_eq!(m, "unknown field kind `Nope`"),
        other => panic!("unexpected {:?}", other.map(|p| p.dir)),
    }
}

fn entry(name: &str) -> DirEntryDto {
    DirEntryDto { name: name.into(), path: format!("/home/{name}"), is_project: name == "game" }
}

#[test]
fn dir_listing_hides_and_orders() {
    let l = dir_listing(
        "/home".into(),
        Some("/".into()),
        vec![entry("zeta"), entry(".cache"), entry("Alpha"), entry("game"), entry("beta"), entry("ALPHA")],
    );
    assert_eq!(l.path, "/home");
    assert_eq!(l.parent.as_deref(), Some("/"));
    let names: Vec<&str> = l.dirs.iter().map(|d| d.name.as_str()).collect();
    assert_eq!(names, vec!["Alpha", "ALPHA", "beta", "game", "zeta"]);
    assert!(l.dirs[3].is_project);
    assert_eq!(l.dirs[4].path, "/home/zeta");
}

#[test]
fn order_by_key_is_stable() {
    let items = vec![
        ("b".chars().collect::<Vec<char>>(), 1),
        ("a".chars().collect(), 2),
        ("ab".chars().collect(), 3),
        ("a".chars().collect(), 4),
        ("".chars().collect(), 5),
    ];
    assert_eq!(order_by_key(items), vec![5, 2, 4, 3, 1]);
}

#[test]
fn module_line_soundness() {
    assert!(nemclass::process::module_line_sound("7f00-7f10 r-xp 0 08:02 1 /usr/lib/x.so"));
    assert!(!nemclass::process::module_line_sound("zz-7f10 r-xp 0 08:02 1 /usr/lib/x.so"));
    assert!(nemclass::process::module_line_sound("7f00-7f10 rw-p 0 00:00 0"));
}
