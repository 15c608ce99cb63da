//! Debugger vocabulary shared by every backend — thread and breakpoint ids,
//! watch kinds and sizes, the register file, stop events — and the x86 DR7
//! debug-control encoding.

use vstd::prelude::*;
use crate::error::SdkError;

verus! {

/// A thread id (Linux LWP / TID).
#[derive(Debug, Clone, Copy, PartialEq, Eq, PartialOrd, Ord, Hash, Structural)]
pub struct ThreadId(pub u32);

impl ThreadId {
    /// The raw thread id.
    pub fn raw(self) -> (r: u32)
        ensures
            r == self.0,
    {
        self.0
    }
}

/// An opaque, backend-assigned breakpoint/watchpoint handle.
#[derive(Debug, Clone, Copy, PartialEq, Eq, PartialOrd, Ord, Hash, Structural)]
pub struct BpId(pub u64);

/// What kind of access a hardware breakpoint/watchpoint should trap on.
#[derive(Debug, Clone, Copy, PartialEq, Eq, Structural)]
pub enum WatchKind {
    /// Trap on instruction execution at the address.
    Execute,
    /// Trap on writes to the watched range.
    Write,
    /// Trap on reads or writes to the watched range.
    ReadWrite,
}

/// The length of a hardware watchpoint range, in bytes.
#[derive(Debug, Clone, Copy, PartialEq, Eq, Structural)]
pub enum WatchSize {
    /// 1 byte.
    B1,
    /// 2 bytes.
    B2,
    /// 4 bytes.
    B4,
    /// 8 bytes.
    B8,
}

impl WatchSize {
    /// The size in bytes.
    pub open spec fn byte_len(self) -> nat {
        match self {
            WatchSize::B1 => 1,
            WatchSize::B2 => 2,
            WatchSize::B4 => 4,
            WatchSize::B8 => 8,
        }
    }

    /// The size in bytes.
    pub fn bytes(self) -> (r: usize)
        ensures
            r == self.byte_len(),
    {
        match self {
            WatchSize::B1 => 1,
            WatchSize::B2 => 2,
            WatchSize::B4 => 4,
            WatchSize::B8 => 8,
        }
    }

    /// The smallest `WatchSize` covering `bytes` (rounded up, capped at 8).
    pub fn for_len(bytes: usize) -> (r: WatchSize)
        ensures
            bytes <= 8 ==> r.byte_len() >= bytes,
            r == WatchSize::B1 || r.byte_len() / 2 < bytes,
            bytes >= 8 ==> r == WatchSize::B8,
    {
        if bytes <= 1 {
            WatchSize::B1
        } else if bytes == 2 {
            WatchSize::B2
        } else if bytes <= 4 {
            WatchSize::B4
        } else {
            WatchSize::B8
        }
    }
}

/// x86-64 general-purpose register file, field-compatible with the kernel's
/// `user_regs_struct`.
#[derive(Debug, Clone, Copy, PartialEq, Eq)]
pub struct Registers {
    pub r15: u64,
    pub r14: u64,
    pub r13: u64,
    pub r12: u64,
    pub rbp: u64,
    pub rbx: u64,
    pub r11: u64,
    pub r10: u64,
    pub r9: u64,
    pub r8: u64,
    pub rax: u64,
    pub rcx: u64,
    pub rdx: u64,
    pub rsi: u64,
    pub rdi: u64,
    pub orig_rax: u64,
    pub rip: u64,
    pub cs: u64,
    pub eflags: u64,
    pub rsp: u64,
    pub ss: u64,
    pub fs_base: u64,
    pub gs_base: u64,
    pub ds: u64,
    pub es: u64,
    pub fs: u64,
    pub gs: u64,
}

impl Registers {
    /// Whether every register is zero.
    pub open spec fn all_zero(self) -> bool {
        self.r15 == 0 && self.r14 == 0 && self.r13 == 0 && self.r12 == 0 && self.rbp == 0
            && self.rbx == 0 && self.r11 == 0 && self.r10 == 0 && self.r9 == 0 && self.r8 == 0
            && self.rax == 0 && self.rcx == 0 && self.rdx == 0 && self.rsi == 0 && self.rdi == 0
            && self.orig_rax == 0 && self.rip == 0 && self.cs == 0 && self.eflags == 0
            && self.rsp == 0 && self.ss == 0 && self.fs_base == 0 && self.gs_base == 0
            && self.ds == 0 && self.es == 0 && self.fs == 0 && self.gs == 0
    }

    /// The instruction pointer (`rip`).
    pub fn ip(&self) -> (r: usize)
        ensures
            r == self.rip as usize,
    {
        self.rip as usize
    }

    /// The stack pointer (`rsp`).
    pub fn sp(&self) -> (r: usize)
        ensures
            r == self.rsp as usize,
    {
        self.rsp as usize
    }
}

impl Default for Registers {
    fn default() -> (r: Self)
        ensures
            r.all_zero(),
    {
        Registers {
            r15: 0,
            r14: 0,
            r13: 0,
            r12: 0,
            rbp: 0,
            rbx: 0,
            r11: 0,
            r10: 0,
            r9: 0,
            r8: 0,
            rax: 0,
            rcx: 0,
            rdx: 0,
            rsi: 0,
            rdi: 0,
            orig_rax: 0,
            rip: 0,
            cs: 0,
            eflags: 0,
            rsp: 0,
            ss: 0,
            fs_base: 0,
            gs_base: 0,
            ds: 0,
            es: 0,
            fs: 0,
            gs: 0,
        }
    }
}

/// Why the target stopped.
#[derive(Debug, Clone, Copy, PartialEq, Eq, Structural)]
pub enum StopReason {
    /// A software breakpoint was hit at `addr`.
    Breakpoint {
        /// The breakpoint handle.
        id: BpId,
        /// The address that trapped.
        addr: usize,
    },
    /// A hardware watchpoint fired for `addr`.
    Watchpoint {
        /// The watchpoint handle.
        id: BpId,
        /// The watched address that trapped.
        addr: usize,
    },
    /// A single-step completed.
    SingleStep,
    /// The target stopped on a signal not attributed to a breakpoint.
    Signal(i32),
    /// The target exited with the given status code.
    Exited(i32),
    /// A new thread was created (LWP).
    ThreadCreated(ThreadId),
    /// The stop could not be attributed to a specific cause.
    Unknown,
}

/// A stop event: which thread stopped and why.
#[derive(Debug, Clone, Copy, PartialEq, Eq, Structural)]
pub struct DebugEvent {
    /// The thread that stopped.
    pub tid: ThreadId,
    /// Why it stopped.
    pub reason: StopReason,
}

/// A successful reply from a debugger session to a request.
#[derive(Debug)]
pub enum DbgReply {
    /// Done, nothing to return.
    Done,
    /// A new breakpoint handle value.
    BpId(u64),
    /// The thread ids.
    Threads(Vec<u32>),
    /// A register file.
    Regs(Box<Registers>),
}

/// Selects which debugger backend to build.
#[derive(Debug, Clone, Copy, PartialEq, Eq, Structural)]
pub enum BackendKind {
    /// Native Linux `ptrace` debugger.
    Ptrace,
    /// Frida-backed debugger/instrumentation.
    Frida,
}

/// Frida-backed debugger. This backend is not implemented: attaching always
/// reports it as unsupported.
pub struct FridaDebugger {
    pid: u32,
    calls: Ghost<Seq<DbgCall>>,
    last: Ghost<DbgOutcome>,
}

impl FridaDebugger {
    /// The process id the backend was asked to attach to.
    pub closed spec fn pid_view(&self) -> u32 {
        self.pid
    }

    /// Attaches Frida to `pid`; always `Err(Unsupported(..))` since the backend
    /// is not implemented.
    pub fn attach(pid: u32) -> (r: Result<Self, SdkError>)
        ensures
            r matches Err(SdkError::Unsupported(m)) && m@ == "frida backend not yet implemented"@,
    {
        Err(SdkError::Unsupported("frida backend not yet implemented"))
    }
}

/// The pluggable debugger control interface: breakpoint, register, stepping
/// and memory control for one attached process. Backends implement it; the
/// access tracers and the front end are written against it.
///
/// Its contract follows a session by the control calls made on it
/// (`calls`), the outcome of the latest one (`last_outcome`), and what the
/// thread list and a thread's registers read as in the current state.
pub trait Debugger: Send {
    /// The control calls made on this session so far, oldest first. An
    /// implementation that is verified overrides this; others leave it
    /// unspecified.
    closed spec fn calls(&self) -> Seq<DbgCall> {
        arbitrary()
    }

    /// What the latest control call gave back (overridden as `calls` is).
    closed spec fn last_outcome(&self) -> DbgOutcome {
        arbitrary()
    }

    /// What listing the threads gives in the current state (overridden as
    /// `calls` is).
    closed spec fn threads_spec(&self) -> Result<Seq<ThreadId>, SdkError> {
        arbitrary()
    }

    /// What reading thread `tid`'s registers gives in the current state
    /// (overridden as `calls` is).
    closed spec fn registers_spec(&self, tid: ThreadId) -> Result<Registers, SdkError> {
        arbitrary()
    }

    /// The attached process id.
    fn pid(&self) -> u32;

    /// The threads (LWPs) currently known for the target.
    fn threads(&self) -> (r: Result<Vec<ThreadId>, SdkError>)
        ensures
            threads_read(r, self.threads_spec()),
    ;

    /// Sets a software (int3) breakpoint at `addr`.
    fn set_sw_breakpoint(&mut self, addr: usize) -> (r: Result<BpId, SdkError>)
        ensures
            final(self).calls() == old(self).calls().push(DbgCall::SetSwBreakpoint(addr)),
            final(self).last_outcome() == DbgOutcome::Handle(r),
    ;

    /// Sets a hardware breakpoint/watchpoint on `[addr, addr+size)` for `kind`.
    fn set_hw_breakpoint(&mut self, addr: usize, size: WatchSize, kind: WatchKind) -> (r: Result<
        BpId,
        SdkError,
    >)
        ensures
            final(self).calls() == old(self).calls().push(DbgCall::SetHwBreakpoint(addr, size, kind)),
            final(self).last_outcome() == DbgOutcome::Handle(r),
    ;

    /// Removes a previously set breakpoint/watchpoint.
    fn clear_breakpoint(&mut self, id: BpId) -> (r: Result<(), SdkError>)
        ensures
            final(self).calls() == old(self).calls().push(DbgCall::ClearBreakpoint(id)),
            final(self).last_outcome() == DbgOutcome::Unit(r),
    ;

    /// Resumes all stopped threads.
    fn cont(&mut self) -> (r: Result<(), SdkError>)
        ensures
            final(self).calls() == old(self).calls().push(DbgCall::Cont),
            final(self).last_outcome() == DbgOutcome::Unit(r),
    ;

    /// Single-steps one thread.
    fn step(&mut self, tid: ThreadId) -> (r: Result<(), SdkError>)
        ensures
            final(self).calls() == old(self).calls().push(DbgCall::Step(tid)),
            final(self).last_outcome() == DbgOutcome::Unit(r),
    ;

    /// Waits for the next stop event, optionally bounded by `timeout`; an
    /// elapsed timeout is reported as `Debug("timeout")`.
    fn wait(&mut self, timeout: Option<core::time::Duration>) -> Result<DebugEvent, SdkError>;

    /// Reads a thread's register file.
    fn registers(&self, tid: ThreadId) -> (r: Result<Registers, SdkError>)
        ensures
            r == self.registers_spec(tid),
    ;

    /// Writes a thread's register file.
    fn set_registers(&mut self, tid: ThreadId, regs: &Registers) -> (r: Result<(), SdkError>)
        ensures
            final(self).calls() == old(self).calls().push(DbgCall::SetRegisters(tid, *regs)),
            final(self).last_outcome() == DbgOutcome::Unit(r),
    ;

    /// Reads memory into `buf`; returns the number of bytes read.
    fn read_mem(&self, addr: usize, buf: &mut [u8]) -> Result<usize, SdkError>;

    /// Writes `buf` to memory; returns the number of bytes written.
    fn write_mem(&mut self, addr: usize, buf: &[u8]) -> Result<usize, SdkError>;

    /// Detaches from the target, restoring any patched bytes.
    fn detach(self: Box<Self>) -> Result<(), SdkError>;
}

/// `r` is what the thread list reads as: the same threads in the same
/// order, or the same error.
pub open spec fn threads_read(r: Result<Vec<ThreadId>, SdkError>, spec: Result<Seq<ThreadId>, SdkError>) -> bool {
    match r {
        Ok(v) => spec == Ok::<Seq<ThreadId>, SdkError>(v@),
        Err(e) => spec == Err::<Seq<ThreadId>, SdkError>(e),
    }
}

/// The refusal every call on the Frida backend gives.
pub open spec fn frida_error() -> SdkError {
    SdkError::Unsupported("frida backend not yet implemented")
}

/// Whether `r` is the "frida backend not yet implemented" refusal.
pub open spec fn frida_refusal<T>(r: Result<T, SdkError>) -> bool {
    r matches Err(SdkError::Unsupported(m)) && m@ == "frida backend not yet implemented"@
}

impl Debugger for FridaDebugger {
    closed spec fn calls(&self) -> Seq<DbgCall> {
        self.calls@
    }

    closed spec fn last_outcome(&self) -> DbgOutcome {
        self.last@
    }

    closed spec fn threads_spec(&self) -> Result<Seq<ThreadId>, SdkError> {
        Err(frida_error())
    }

    closed spec fn registers_spec(&self, tid: ThreadId) -> Result<Registers, SdkError> {
        Err(frida_error())
    }

    fn pid(&self) -> (r: u32)
        ensures
            r == self.pid_view(),
    {
        self.pid
    }

    fn threads(&self) -> (r: Result<Vec<ThreadId>, SdkError>)
        ensures
            frida_refusal(r),
    {
        Err(SdkError::Unsupported("frida backend not yet implemented"))
    }

    fn set_sw_breakpoint(&mut self, addr: usize) -> (r: Result<BpId, SdkError>)
        ensures
            frida_refusal(r),
    {
        let r = Err(SdkError::Unsupported("frida backend not yet implemented"));
        self.calls = Ghost(self.calls@.push(DbgCall::SetSwBreakpoint(addr)));
        self.last = Ghost(DbgOutcome::Handle(r));
        r
    }

    fn set_hw_breakpoint(&mut self, addr: usize, size: WatchSize, kind: WatchKind) -> (r: Result<
        BpId,
        SdkError,
    >)
        ensures
            frida_refusal(r),
    {
        let r = Err(SdkError::Unsupported("frida backend not yet implemented"));
        self.calls = Ghost(self.calls@.push(DbgCall::SetHwBreakpoint(addr, size, kind)));
        self.last = Ghost(DbgOutcome::Handle(r));
        r
    }

    fn clear_breakpoint(&mut self, id: BpId) -> (r: Result<(), SdkError>)
        ensures
            frida_refusal(r),
    {
        let r = Err(SdkError::Unsupported("frida backend not yet implemented"));
        self.calls = Ghost(self.calls@.push(DbgCall::ClearBreakpoint(id)));
        self.last = Ghost(DbgOutcome::Unit(r));
        r
    }

    fn cont(&mut self) -> (r: Result<(), SdkError>)
        ensures
            frida_refusal(r),
    {
        let r = Err(SdkError::Unsupported("frida backend not yet implemented"));
        self.calls = Ghost(self.calls@.push(DbgCall::Cont));
        self.last = Ghost(DbgOutcome::Unit(r));
        r
    }

    fn step(&mut self, tid: ThreadId) -> (r: Result<(), SdkError>)
        ensures
            frida_refusal(r),
    {
        let r = Err(SdkError::Unsupported("frida backend not yet implemented"));
        self.calls = Ghost(self.calls@.push(DbgCall::Step(tid)));
        self.last = Ghost(DbgOutcome::Unit(r));
        r
    }

    fn wait(&mut self, timeout: Option<core::time::Duration>) -> (r: Result<DebugEvent, SdkError>)
        ensures
            frida_refusal(r),
    {
        Err(SdkError::Unsupported("frida backend not yet implemented"))
    }

    fn registers(&self, tid: ThreadId) -> (r: Result<Registers, SdkError>)
        ensures
            frida_refusal(r),
    {
        Err(SdkError::Unsupported("frida backend not yet implemented"))
    }

    fn set_registers(&mut self, tid: ThreadId, regs: &Registers) -> (r: Result<(), SdkError>)
        ensures
            frida_refusal(r),
    {
        let r = Err(SdkError::Unsupported("frida backend not yet implemented"));
        self.calls = Ghost(self.calls@.push(DbgCall::SetRegisters(tid, *regs)));
        self.last = Ghost(DbgOutcome::Unit(r));
        r
    }

    fn read_mem(&self, addr: usize, buf: &mut [u8]) -> (r: Result<usize, SdkError>)
        ensures
            frida_refusal(r),
    {
        Err(SdkError::Unsupported("frida backend not yet implemented"))
    }

    fn write_mem(&mut self, addr: usize, buf: &[u8]) -> (r: Result<usize, SdkError>)
        ensures
            frida_refusal(r),
    {
        Err(SdkError::Unsupported("frida backend not yet implemented"))
    }

    fn detach(self: Box<Self>) -> (r: Result<(), SdkError>)
        ensures
            frida_refusal(r),
    {
        Err(SdkError::Unsupported("frida backend not yet implemented"))
    }
}

/// A request to a debugger session.
#[derive(Debug)]
pub enum DbgRequest {
    /// Set a software breakpoint at an address.
    SetSwBp(usize),
    /// Set a hardware breakpoint/watchpoint.
    SetHwBp(usize, WatchSize, WatchKind),
    /// Remove a breakpoint by handle value.
    ClearBp(u64),
    /// Resume all threads.
    Cont,
    /// Single-step a thread.
    Step(u32),
    /// List the threads.
    Threads,
    /// Read a thread's registers.
    Registers(u32),
    /// Write a thread's registers.
    SetRegisters(u32, Box<Registers>),
}

/// The reply of a successful request has the shape the request asks for:
/// a breakpoint handle for a new breakpoint, the thread list, a register
/// file, or nothing.
pub open spec fn reply_fits(req: DbgRequest, rep: DbgReply) -> bool {
    match req {
        DbgRequest::SetSwBp(_) | DbgRequest::SetHwBp(..) => rep is BpId,
        DbgRequest::Threads => rep is Threads,
        DbgRequest::Registers(_) => rep is Regs,
        _ => rep is Done,
    }
}

fn thread_numbers(ts: Vec<ThreadId>) -> (r: Vec<u32>)
    ensures
        r@.len() == ts@.len(),
        forall|i: int| 0 <= i < ts@.len() ==> r@[i] == (#[trigger] ts@[i]).0,
{
    let mut out: Vec<u32> = Vec::new();
    let mut i: usize = 0;
    while i < ts.len()
        invariant
            i <= ts@.len(),
            out@.len() == i,
            forall|k: int| 0 <= k < i ==> out@[k] == (#[trigger] ts@[k]).0,
        decreases ts.len() - i,
    {
        out.push(ts[i].0);
        i = i + 1;
    }
    out
}

/// A call on a debugger session: the method of [`Debugger`] and its
/// arguments.
#[derive(Debug)]
pub enum DbgCall {
    /// `set_sw_breakpoint(addr)`.
    SetSwBreakpoint(usize),
    /// `set_hw_breakpoint(addr, size, kind)`.
    SetHwBreakpoint(usize, WatchSize, WatchKind),
    /// `clear_breakpoint(id)`.
    ClearBreakpoint(BpId),
    /// `cont()`.
    Cont,
    /// `step(tid)`.
    Step(ThreadId),
    /// `threads()`.
    Threads,
    /// `registers(tid)`.
    Registers(ThreadId),
    /// `set_registers(tid, &regs)`.
    SetRegisters(ThreadId, Registers),
}

/// The call a request makes: handle values as `BpId`, thread numbers as
/// `ThreadId`, everything else as given.
pub open spec fn call_spec(req: DbgRequest) -> DbgCall {
    match req {
        DbgRequest::SetSwBp(addr) => DbgCall::SetSwBreakpoint(addr),
        DbgRequest::SetHwBp(addr, size, kind) => DbgCall::SetHwBreakpoint(addr, size, kind),
        DbgRequest::ClearBp(id) => DbgCall::ClearBreakpoint(BpId(id)),
        DbgRequest::Cont => DbgCall::Cont,
        DbgRequest::Step(tid) => DbgCall::Step(ThreadId(tid)),
        DbgRequest::Threads => DbgCall::Threads,
        DbgRequest::Registers(tid) => DbgCall::Registers(ThreadId(tid)),
        DbgRequest::SetRegisters(tid, regs) => DbgCall::SetRegisters(ThreadId(tid), *regs),
    }
}

/// The call a request makes.
pub fn call_of(req: DbgRequest) -> (c: DbgCall)
    ensures
        c == call_spec(req),
{
    match req {
        DbgRequest::SetSwBp(addr) => DbgCall::SetSwBreakpoint(addr),
        DbgRequest::SetHwBp(addr, size, kind) => DbgCall::SetHwBreakpoint(addr, size, kind),
        DbgRequest::ClearBp(id) => DbgCall::ClearBreakpoint(BpId(id)),
        DbgRequest::Cont => DbgCall::Cont,
        DbgRequest::Step(tid) => DbgCall::Step(ThreadId(tid)),
        DbgRequest::Threads => DbgCall::Threads,
        DbgRequest::Registers(tid) => DbgCall::Registers(ThreadId(tid)),
        DbgRequest::SetRegisters(tid, regs) => DbgCall::SetRegisters(ThreadId(tid), *regs),
    }
}

/// What a call on a debugger session gave back.
#[derive(Debug)]
pub enum DbgOutcome {
    /// The result of setting a breakpoint.
    Handle(Result<BpId, SdkError>),
    /// The result of listing the threads.
    Threads(Result<Vec<ThreadId>, SdkError>),
    /// The result of reading registers.
    Regs(Result<Registers, SdkError>),
    /// The result of a call that returns nothing.
    Unit(Result<(), SdkError>),
}

/// An outcome of the kind the call's method returns.
pub open spec fn outcome_fits(c: DbgCall, o: DbgOutcome) -> bool {
    match c {
        DbgCall::SetSwBreakpoint(_) | DbgCall::SetHwBreakpoint(..) => o is Handle,
        DbgCall::Threads => o is Threads,
        DbgCall::Registers(_) => o is Regs,
        _ => o is Unit,
    }
}

/// `r` is the reply to outcome `o`: the handle value of a new breakpoint,
/// the raw numbers of the threads in order, the register file, or `Done`;
/// an error is passed on unchanged.
pub open spec fn reply_spec(o: DbgOutcome, r: Result<DbgReply, SdkError>) -> bool {
    match o {
        DbgOutcome::Handle(Ok(id)) => r == Ok::<DbgReply, SdkError>(DbgReply::BpId(id.0)),
        DbgOutcome::Threads(Ok(ts)) => r matches Ok(DbgReply::Threads(v)) && v@ == ts@.map_values(
            |t: ThreadId| t.0,
        ),
        DbgOutcome::Regs(Ok(g)) => r matches Ok(DbgReply::Regs(b)) && *b == g,
        DbgOutcome::Unit(Ok(_)) => r == Ok::<DbgReply, SdkError>(DbgReply::Done),
        DbgOutcome::Handle(Err(e)) | DbgOutcome::Threads(Err(e)) | DbgOutcome::Regs(Err(e))
        | DbgOutcome::Unit(Err(e)) => r == Err::<DbgReply, SdkError>(e),
    }
}

/// The reply to what a debugger call gave back.
pub fn reply_of(o: DbgOutcome) -> (r: Result<DbgReply, SdkError>)
    ensures
        reply_spec(o, r),
{
    match o {
        DbgOutcome::Handle(Ok(id)) => Ok(DbgReply::BpId(id.0)),
        DbgOutcome::Threads(Ok(ts)) => {
            let v = thread_numbers(ts);
            assert(v@ =~= ts@.map_values(|t: ThreadId| t.0));
            Ok(DbgReply::Threads(v))
        },
        DbgOutcome::Regs(Ok(g)) => Ok(DbgReply::Regs(Box::new(g))),
        DbgOutcome::Unit(Ok(())) => Ok(DbgReply::Done),
        DbgOutcome::Handle(Err(e)) => Err(e),
        DbgOutcome::Threads(Err(e)) => Err(e),
        DbgOutcome::Regs(Err(e)) => Err(e),
        DbgOutcome::Unit(Err(e)) => Err(e),
    }
}

/// Session `after` is session `before` once call `c` was made on it, and
/// `o` is what the call gave back: a control call is appended to the
/// session's calls and `o` is its outcome; a read (the threads, a thread's
/// registers) leaves the calls as they were and `o` is what the state reads
/// as.
pub open spec fn performed<D: Debugger + ?Sized>(before: &D, after: &D, c: DbgCall, o: DbgOutcome) -> bool {
    match c {
        DbgCall::Threads => after.calls() == before.calls() && (o matches DbgOutcome::Threads(r) && threads_read(
            r,
            before.threads_spec(),
        )),
        DbgCall::Registers(tid) => after.calls() == before.calls() && o == DbgOutcome::Regs(
            before.registers_spec(tid),
        ),
        _ => after.calls() == before.calls().push(c) && o == after.last_outcome(),
    }
}

/// Makes call `c` on a debugger session: the method `c` names, with its
/// arguments, once.
pub fn perform<D: Debugger + ?Sized>(dbg: &mut D, c: DbgCall) -> (o: DbgOutcome)
    ensures
        outcome_fits(c, o),
        performed(old(dbg), final(dbg), c, o),
{
    match c {
        DbgCall::SetSwBreakpoint(addr) => DbgOutcome::Handle(dbg.set_sw_breakpoint(addr)),
        DbgCall::SetHwBreakpoint(addr, size, kind) => DbgOutcome::Handle(dbg.set_hw_breakpoint(addr, size, kind)),
        DbgCall::ClearBreakpoint(id) => DbgOutcome::Unit(dbg.clear_breakpoint(id)),
        DbgCall::Cont => DbgOutcome::Unit(dbg.cont()),
        DbgCall::Step(tid) => DbgOutcome::Unit(dbg.step(tid)),
        DbgCall::Threads => DbgOutcome::Threads(dbg.threads()),
        DbgCall::Registers(tid) => DbgOutcome::Regs(dbg.registers(tid)),
        DbgCall::SetRegisters(tid, regs) => DbgOutcome::Unit(dbg.set_registers(tid, &regs)),
    }
}

/// Carries out one request on a debugger session: makes the call the
/// request names, with its arguments, and answers with the reply to what
/// that call gave back.
pub fn handle_request<D: Debugger + ?Sized>(dbg: &mut D, req: DbgRequest) -> (r: Result<DbgReply, SdkError>)
    ensures
        r matches Ok(rep) ==> reply_fits(req, rep),
        exists|o: DbgOutcome|
            outcome_fits(call_spec(req), o) && performed(old(dbg), final(dbg), call_spec(req), o) && #[trigger] reply_spec(
                o,
                r,
            ),
{
    let ghost rq = req;
    let c = call_of(req);
    let o = perform(dbg, c);
    let ghost og = o;
    let r = reply_of(o);
    assert(outcome_fits(call_spec(rq), og) && performed(old(dbg), dbg, call_spec(rq), og) && reply_spec(og, r));
    r
}

// --- DR7 debug-register control encoding ----------------------------------
//
// DR7 layout (x86-64):
//  - bits 0..7: local/global enable per slot (Ln = bit 2*n, Gn = bit 2*n+1);
//    the *local* enable is used.
//  - bits 16..31: a 4-bit condition field per slot at bit `16 + slot*4`,
//    low 2 bits = R/W, high 2 bits = LEN.

/// R/W condition bits for a watch kind (x86 has no read-only trap).
pub open spec fn rw_spec(kind: WatchKind) -> u64 {
    match kind {
        WatchKind::Execute => 0,
        WatchKind::Write => 1,
        WatchKind::ReadWrite => 3,
    }
}

/// LEN bits for a watch size; execution breakpoints encode LEN=00.
pub open spec fn len_spec(size: WatchSize, kind: WatchKind) -> u64 {
    if kind == WatchKind::Execute {
        0
    } else {
        match size {
            WatchSize::B1 => 0,
            WatchSize::B2 => 1,
            WatchSize::B8 => 2,
            WatchSize::B4 => 3,
        }
    }
}

/// The 4-bit condition field of a slot.
pub open spec fn field_spec(kind: WatchKind, size: WatchSize) -> u64 {
    rw_spec(kind) | (len_spec(size, kind) << 2u64)
}

/// `dr7` with `slot` enabled and its condition field replaced by `f`.
pub open spec fn dr7_set_spec(dr7: u64, slot: u64, f: u64) -> u64 {
    ((dr7 | (1u64 << (slot * 2))) & !(0xFu64 << (16 + slot * 4))) | (f << (16 + slot * 4))
}

/// `dr7` with `slot` disabled and its condition field cleared.
pub open spec fn dr7_clear_spec(dr7: u64, slot: u64) -> u64 {
    (dr7 & !(1u64 << (slot * 2))) & !(0xFu64 << (16 + slot * 4))
}

/// R/W condition bits for a watch kind.
pub fn rw_bits(kind: WatchKind) -> (r: u64)
    ensures
        r == rw_spec(kind),
{
    match kind {
        WatchKind::Execute => 0b00,
        WatchKind::Write => 0b01,
        WatchKind::ReadWrite => 0b11,
    }
}

/// LEN bits for a watch size. Execution breakpoints must encode LEN=00.
pub fn len_bits(size: WatchSize, kind: WatchKind) -> (r: u64)
    ensures
        r == len_spec(size, kind),
{
    if kind == WatchKind::Execute {
        return 0b00;
    }
    match size {
        WatchSize::B1 => 0b00,
        WatchSize::B2 => 0b01,
        WatchSize::B8 => 0b10,
        WatchSize::B4 => 0b11,
    }
}

/// Returns `dr7` with `slot` enabled and its condition field set for
/// `kind`/`size`.
pub fn dr7_set(dr7: u64, slot: usize, kind: WatchKind, size: WatchSize) -> (r: u64)
    requires
        slot < 4,
    ensures
        r == dr7_set_spec(dr7, slot as u64, field_spec(kind, size)),
{
    let s = slot as u64;
    let mut v = dr7;
    v = v | (1u64 << (s * 2));
    let shift = 16 + s * 4;
    v = v & !(0xFu64 << shift);
    let field = rw_bits(kind) | (len_bits(size, kind) << 2u64);
    v = v | (field << shift);
    v
}

/// Returns `dr7` with `slot` disabled and its condition field cleared.
pub fn dr7_clear(dr7: u64, slot: usize) -> (r: u64)
    requires
        slot < 4,
    ensures
        r == dr7_clear_spec(dr7, slot as u64),
{
    let s = slot as u64;
    let mut v = dr7;
    v = v & !(1u64 << (s * 2));
    v = v & !(0xFu64 << (16 + s * 4));
    v
}

/// Every condition field fits in four bits.
pub proof fn lemma_field_fits(kind: WatchKind, size: WatchSize)
    ensures
        field_spec(kind, size) < 16,
{
    let r = rw_spec(kind);
    let l = len_spec(size, kind);
    assert(r <= 3 && l <= 3 ==> (r | (l << 2u64)) < 16) by (bit_vector);
}

/// Setting a slot enables it and stores its condition field:
/// the slot's local-enable bit reads 1 and its nibble reads `field_spec`.
pub proof fn lemma_dr7_set_reads_back(dr7: u64, slot: u64, kind: WatchKind, size: WatchSize)
    requires
        slot < 4,
    ensures
        (dr7_set_spec(dr7, slot, field_spec(kind, size)) >> (slot * 2)) & 1 == 1,
        (dr7_set_spec(dr7, slot, field_spec(kind, size)) >> (16 + slot * 4)) & 0xF == field_spec(
            kind,
            size,
        ),
{
    let f = field_spec(kind, size);
    lemma_field_fits(kind, size);
    assert(slot < 4 && f < 16 ==> (((((dr7 | (1u64 << (slot * 2))) & !(0xFu64 << (16 + slot * 4)))
        | (f << (16 + slot * 4))) >> (slot * 2)) & 1 == 1)) by (bit_vector);
    assert(slot < 4 && f < 16 ==> (((((dr7 | (1u64 << (slot * 2))) & !(0xFu64 << (16 + slot * 4)))
        | (f << (16 + slot * 4))) >> (16 + slot * 4)) & 0xF == f)) by (bit_vector);
}

/// Setting one slot leaves every other slot's enable bit and condition field
/// as they were.
pub proof fn lemma_dr7_set_other_slots(dr7: u64, slot: u64, other: u64, f: u64)
    requires
        slot < 4,
        other < 4,
        other != slot,
        f < 16,
    ensures
        (dr7_set_spec(dr7, slot, f) >> (other * 2)) & 1 == (dr7 >> (other * 2)) & 1,
        (dr7_set_spec(dr7, slot, f) >> (16 + other * 4)) & 0xF == (dr7 >> (16 + other * 4)) & 0xF,
{
    assert(slot < 4 && other < 4 && other != slot && f < 16 ==> (((((dr7 | (1u64 << (slot * 2)))
        & !(0xFu64 << (16 + slot * 4))) | (f << (16 + slot * 4))) >> (other * 2)) & 1 == (dr7 >> (
    other * 2)) & 1)) by (bit_vector);
    assert(slot < 4 && other < 4 && other != slot && f < 16 ==> (((((dr7 | (1u64 << (slot * 2)))
        & !(0xFu64 << (16 + slot * 4))) | (f << (16 + slot * 4))) >> (16 + other * 4)) & 0xF == (
    dr7 >> (16 + other * 4)) & 0xF)) by (bit_vector);
}

/// Clearing a slot undoes setting it: `dr7_clear(dr7_set(d, s, ..), s) ==
/// dr7_clear(d, s)`.
pub proof fn lemma_dr7_clear_undoes_set(dr7: u64, slot: u64, f: u64)
    requires
        slot < 4,
        f < 16,
    ensures
        dr7_clear_spec(dr7_set_spec(dr7, slot, f), slot) == dr7_clear_spec(dr7, slot),
{
    assert(slot < 4 && f < 16 ==> ((((((dr7 | (1u64 << (slot * 2))) & !(0xFu64 << (16 + slot * 4)))
        | (f << (16 + slot * 4))) & !(1u64 << (slot * 2))) & !(0xFu64 << (16 + slot * 4))) == ((dr7
        & !(1u64 << (slot * 2))) & !(0xFu64 << (16 + slot * 4))))) by (bit_vector);
}


/// Clearing a slot disables it and zeroes its condition field.
pub proof fn lemma_dr7_clear_reads_back(dr7: u64, slot: u64)
    requires
        slot < 4,
    ensures
        (dr7_clear_spec(dr7, slot) >> (slot * 2)) & 1 == 0,
        (dr7_clear_spec(dr7, slot) >> (16 + slot * 4)) & 0xF == 0,
{
    assert(slot < 4 ==> ((((dr7 & !(1u64 << (slot * 2))) & !(0xFu64 << (16 + slot * 4))) >> (slot
        * 2)) & 1 == 0)) by (bit_vector);
    assert(slot < 4 ==> ((((dr7 & !(1u64 << (slot * 2))) & !(0xFu64 << (16 + slot * 4))) >> (16
        + slot * 4)) & 0xF == 0)) by (bit_vector);
}

/// Clearing one slot leaves every other slot's enable bit and condition
/// field as they were.
pub proof fn lemma_dr7_clear_other_slots(dr7: u64, slot: u64, other: u64)
    requires
        slot < 4,
        other < 4,
        other != slot,
    ensures
        (dr7_clear_spec(dr7, slot) >> (other * 2)) & 1 == (dr7 >> (other * 2)) & 1,
        (dr7_clear_spec(dr7, slot) >> (16 + other * 4)) & 0xF == (dr7 >> (16 + other * 4)) & 0xF,
{
    assert(slot < 4 && other < 4 && other != slot ==> ((((dr7 & !(1u64 << (slot * 2))) & !(0xFu64
        << (16 + slot * 4))) >> (other * 2)) & 1 == (dr7 >> (other * 2)) & 1)) by (bit_vector);
    assert(slot < 4 && other < 4 && other != slot ==> ((((dr7 & !(1u64 << (slot * 2))) & !(0xFu64
        << (16 + slot * 4))) >> (16 + other * 4)) & 0xF == (dr7 >> (16 + other * 4)) & 0xF))
        by (bit_vector);
}

/// The accesses an x86 DR7 R/W field traps on: `00` instruction execution,
/// `01` data writes, `11` data reads and writes (`10`, I/O, is not used).
pub open spec fn x86_rw_kind(rw: u64) -> Option<WatchKind> {
    if rw == 0 {
        Some(WatchKind::Execute)
    } else if rw == 1 {
        Some(WatchKind::Write)
    } else if rw == 3 {
        Some(WatchKind::ReadWrite)
    } else {
        None
    }
}

/// The bytes an x86 DR7 LEN field watches: `00` one, `01` two, `10`
/// eight, `11` four.
pub open spec fn x86_len_width(len: u64) -> nat {
    if len == 0 {
        1
    } else if len == 1 {
        2
    } else if len == 2 {
        8
    } else {
        4
    }
}

/// Setting a slot programs the x86 meaning of the watch: the slot's R/W
/// bits trap on exactly the requested kind of access, and for a data watch
/// its LEN bits cover exactly the requested width (an execution breakpoint
/// has LEN `00`, as the architecture requires).
pub proof fn lemma_dr7_set_encodes_watch(dr7: u64, slot: u64, kind: WatchKind, size: WatchSize)
    requires
        slot < 4,
    ensures
        ({
            let nib = (dr7_set_spec(dr7, slot, field_spec(kind, size)) >> (16 + slot * 4)) & 0xF;
            &&& x86_rw_kind(nib & 3) == Some(kind)
            &&& kind != WatchKind::Execute ==> x86_len_width(nib >> 2) == size.byte_len()
            &&& kind == WatchKind::Execute ==> nib >> 2 == 0
        }),
{
    lemma_dr7_set_reads_back(dr7, slot, kind, size);
    let r = rw_spec(kind);
    let l = len_spec(size, kind);
    assert(r <= 3 && l <= 3 ==> (r | (l << 2u64)) & 3 == r) by (bit_vector);
    assert(r <= 3 && l <= 3 ==> (r | (l << 2u64)) >> 2u64 == l) by (bit_vector);
}
} // verus!
