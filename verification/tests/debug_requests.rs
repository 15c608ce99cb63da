use nemclass::access::AccessLog;
use nemclass::debug::{
    call_of, reply_of, DbgCall, DbgOutcome, handle_request, BpId, DbgReply, DbgRequest, DebugEvent, Debugger, Registers, ThreadId, WatchKind, WatchSize,
};
use nemclass::error::SdkError;

/// A scripted session: fixed threads, breakpoints numbered from 1, and one
/// register file per process.
struct Scripted {
    next: u64,
    regs: Registers,
    running: bool,
}

impl Debugger for Scripted {
    fn pid(&self) -> u32 {
        42
    }
    fn threads(&self) -> Result<Vec<ThreadId>, SdkError> {
        Ok(vec![ThreadId(42), ThreadId(43)])
    }
    fn set_sw_breakpoint(&mut self, _addr: usize) -> Result<BpId, SdkError> {
        self.next += 1;
        Ok(BpId(self.next))
    }
    fn set_hw_breakpoint(&mut self, _addr: usize, _size: WatchSize, _kind: WatchKind) -> Result<BpId, SdkError> {
        Err(SdkError::Debug("no free hardware debug register slot".into()))
    }
    fn clear_breakpoint(&mut self, id: BpId) -> Result<(), SdkError> {
        if id.0 <= self.next { Ok(()) } else { Err(SdkError::Debug("unknown breakpoint".into())) }
    }
    fn cont(&mut self) -> Result<(), SdkError> {
        self.running = true;
        Ok(())
    }
    fn step(&mut self, _tid: ThreadId) -> Result<(), SdkError> {
        Ok(())
    }
    fn wait(&mut self, _timeout: Option<core::time::Duration>) -> Result<DebugEvent, SdkError> {
        Err(SdkError::Debug("timeout".into()))
    }
    fn registers(&self, _tid: ThreadId) -> Result<Registers, SdkError> {
        Ok(self.regs)
    }
    fn set_registers(&mut self, _tid: ThreadId, regs: &Registers) -> Result<(), SdkError> {
        self.regs = *regs;
        Ok(())
    }
    fn read_mem(&self, _addr: usize, _buf: &mut [u8]) -> Result<usize, SdkError> {
        Ok(0)
    }
    fn write_mem(&mut self, _addr: usize, buf: &[u8]) -> Result<usize, SdkError> {
        Ok(buf.len())
    }
    fn detach(self: Box<Self>) -> Result<(), SdkError> {
        Ok(())
    }
}

#[test]
fn requests_get_replies_of_their_shape() {
    let mut d = Scripted { next: 0, regs: Registers::default(), running: false };
    assert!(matches!(handle_request(&mut d, DbgRequest::SetSwBp(0x401000)), Ok(DbgReply::BpId(1))));
    assert!(matches!(handle_request(&mut d, DbgRequest::ClearBp(1)), Ok(DbgReply::Done)));
    assert!(matches!(
        handle_request(&mut d, DbgRequest::ClearBp(9)),
        Err(SdkError::Debug(m)) if m == "unknown breakpoint"
    ));
    assert!(matches!(
        handle_request(&mut d, DbgRequest::SetHwBp(0x10, WatchSize::B4, WatchKind::Write)),
        Err(SdkError::Debug(_))
    ));
    match handle_request(&mut d, DbgRequest::Threads) {
        Ok(DbgReply::Threads(t)) => assert_eq!(t, vec![42, 43]),
        other => panic!("unexpected {other:?}"),
    }
    let mut regs = Registers::default();
    regs.rip = 0x401234;
    assert!(matches!(handle_request(&mut d, DbgRequest::SetRegisters(42, Box::new(regs))), Ok(DbgReply::Done)));
    match handle_request(&mut d, DbgRequest::Registers(42)) {
        Ok(DbgReply::Regs(r)) => assert_eq!(r.rip, 0x401234),
        other => panic!("unexpected {other:?}"),
    }
    assert!(matches!(handle_request(&mut d, DbgRequest::Cont), Ok(DbgReply::Done)));
    assert!(d.running);
    assert!(matches!(handle_request(&mut d, DbgRequest::Step(42)), Ok(DbgReply::Done)));
}

#[test]
fn access_log_counts_each_instruction_once() {
    let mut log = AccessLog::new();
    let mut regs = Registers::default();
    regs.rax = 5;
    log.note(0x2000, regs);
    log.note_all(&[0x1000, 0x2000, 0x1000, 0x1000]);
    let r = log.snapshot();
    assert_eq!(r.len(), 2);
    assert_eq!((r[0].insn_addr, r[0].hits), (0x2000, 2));
    assert_eq!(r[0].regs, Registers::default());
    assert_eq!((r[1].insn_addr, r[1].hits), (0x1000, 3));
}

#[test]
fn requests_name_their_calls() {
    assert!(matches!(call_of(DbgRequest::SetSwBp(0x40)), DbgCall::SetSwBreakpoint(0x40)));
    assert!(matches!(
        call_of(DbgRequest::SetHwBp(0x80, WatchSize::B8, WatchKind::ReadWrite)),
        DbgCall::SetHwBreakpoint(0x80, WatchSize::B8, WatchKind::ReadWrite)
    ));
    assert!(matches!(call_of(DbgRequest::ClearBp(3)), DbgCall::ClearBreakpoint(BpId(3))));
    assert!(matches!(call_of(DbgRequest::Cont), DbgCall::Cont));
    assert!(matches!(call_of(DbgRequest::Step(7)), DbgCall::Step(ThreadId(7))));
    assert!(matches!(call_of(DbgRequest::Threads), DbgCall::Threads));
    assert!(matches!(call_of(DbgRequest::Registers(9)), DbgCall::Registers(ThreadId(9))));
    let mut regs = Registers::default();
    regs.rsp = 0x7FF0;
    match call_of(DbgRequest::SetRegisters(2, Box::new(regs))) {
        DbgCall::SetRegisters(ThreadId(2), g) => assert_eq!(g.rsp, 0x7FF0),
        other => panic!("unexpected {other:?}"),
    }
}

#[test]
fn outcomes_become_replies() {
    assert!(matches!(reply_of(DbgOutcome::Handle(Ok(BpId(12)))), Ok(DbgReply::BpId(12))));
    match reply_of(DbgOutcome::Threads(Ok(vec![ThreadId(5), ThreadId(3)]))) {
        Ok(DbgReply::Threads(t)) => assert_eq!(t, vec![5, 3]),
        other => panic!("unexpected {other:?}"),
    }
    let mut regs = Registers::default();
    regs.rip = 0x1234;
    match reply_of(DbgOutcome::Regs(Ok(regs))) {
        Ok(DbgReply::Regs(r)) => assert_eq!(*r, regs),
        other => panic!("unexpected {other:?}"),
    }
    assert!(matches!(reply_of(DbgOutcome::Unit(Ok(()))), Ok(DbgReply::Done)));
    assert!(matches!(
        reply_of(DbgOutcome::Unit(Err(SdkError::Debug("gone".into())))),
        Err(SdkError::Debug(m)) if m == "gone"
    ));
}
