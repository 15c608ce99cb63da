use nemclass::debug::{BpId, DebugEvent, StopReason, ThreadId, WatchKind, WatchSize};
use nemclass::error::SdkError;
use nemclass::ptrace::{idle_outcome, splice_word, word_chunk, PtraceDebugger, Removed, SIGSTOP, SIGTRAP};

fn session() -> PtraceDebugger {
    PtraceDebugger::new(100, vec![100, 101]).unwrap()
}

#[test]
fn new_session_starts_with_main_stopped() {
    let s = session();
    assert_eq!(s.pid(), 100);
    assert_eq!(s.tids(), &vec![100, 101]);
    assert_eq!(s.dr7(), 0);
    assert!(matches!(PtraceDebugger::new(7, vec![]), Err(SdkError::Debug(m)) if m == "no threads for pid 7"));
}

#[test]
fn breakpoint_handles_are_fresh_and_clear() {
    let mut s = session();
    let a = s.add_sw(0x1000, 0x55);
    let b = s.add_hw(0x2000, WatchSize::B4, WatchKind::Write).unwrap();
    assert_eq!(a, BpId(1));
    assert_eq!(b, BpId(2));
    // Write, 4 bytes, slot 0: L0 + RW=01 + LEN=11 at bit 16.
    assert_eq!(s.dr7(), 0x000D_0001);
    assert_eq!(s.slot_addr(0), 0x2000);
    assert_eq!(s.remove(a), Ok(Removed::Sw { addr: 0x1000, orig: 0x55 }));
    assert_eq!(s.remove(b), Ok(Removed::Hw { slot: 0 }));
    assert_eq!(s.dr7(), 0);
    assert!(matches!(s.remove(a), Err(SdkError::Debug(m)) if m == "unknown breakpoint"));
}

#[test]
fn four_slots_only() {
    let mut s = session();
    for i in 0..4 {
        assert!(s.add_hw(0x100 * (i + 1), WatchSize::B1, WatchKind::ReadWrite).is_ok());
    }
    assert!(matches!(s.add_hw(0x900, WatchSize::B1, WatchKind::Execute), Err(SdkError::Debug(m)) if m == "no free debug register"));
}

#[test]
fn stops_signals_and_continue() {
    let mut s = session();
    assert_eq!(s.record_stop(101, SIGTRAP), None);
    assert_eq!(
        s.record_stop(101, 11),
        Some(DebugEvent { tid: ThreadId(101), reason: StopReason::Signal(11) })
    );
    assert!(s.record_stop(102, SIGSTOP).is_some());
    let cont = s.take_stopped();
    assert_eq!(cont, vec![(100, None), (101, Some(11)), (102, None)]);
    assert!(s.take_stopped().is_empty());
}

#[test]
fn exits_clones_and_traps() {
    let mut s = session();
    let e = s.on_clone(105);
    assert_eq!(e, DebugEvent { tid: ThreadId(105), reason: StopReason::ThreadCreated(ThreadId(105)) });
    assert_eq!(s.tids(), &vec![100, 101, 105]);
    let e = s.on_exited(101, 0);
    assert_eq!(e.reason, StopReason::Exited(0));
    assert_eq!(s.tids(), &vec![100, 105]);
    let id = s.add_sw(0x4000, 0x90);
    let (bp, ev) = s.trap_outcome(105, Some(0x4001));
    assert_eq!(bp.map(|b| b.addr), Some(0x4000));
    assert_eq!(ev.reason, StopReason::Breakpoint { id, addr: 0x4000 });
    let (bp, ev) = s.trap_outcome(105, Some(0x5000));
    assert!(bp.is_none());
    assert_eq!(ev.reason, StopReason::SingleStep);
    let w = s.add_hw(0x8000, WatchSize::B8, WatchKind::ReadWrite).unwrap();
    assert_eq!(s.watch_hit(105, 0b0001).map(|(slot, e)| (slot, e.reason)), Some((0, StopReason::Watchpoint { id: w, addr: 0x8000 })));
    assert_eq!(s.watch_hit(105, 0b0010), None);
}

#[test]
fn word_steps() {
    assert_eq!(word_chunk(0x1003, 100), (0x1000, 3, 5));
    assert_eq!(word_chunk(0x1008, 2), (0x1008, 0, 2));
    let w = splice_word(&[0, 1, 2, 3, 4, 5, 6, 7], 2, &[0xAA, 0xBB]);
    assert_eq!(w, vec![0, 1, 0xAA, 0xBB, 4, 5, 6, 7]);
}

#[test]
fn idle_wait_times_out_only_past_the_deadline() {
    assert_eq!(idle_outcome(false), Ok(()));
    assert_eq!(idle_outcome(true), Err(SdkError::Debug("timeout".into())));
}
