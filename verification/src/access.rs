//! "Find out what accesses this address": the tracer vocabulary, and the
//! Intel Processor Trace packet decoder that recovers flow-changing
//! instruction pointers from a raw PT byte stream.

use vstd::prelude::*;
use crate::debug::{BpId, DebugEvent, Registers, StopReason, ThreadId, WatchKind, WatchSize};
use crate::error::SdkError;

verus! {

/// One instruction observed accessing the watched address.
#[derive(Debug, Clone)]
pub struct AccessRecord {
    /// Address of the instruction that performed the access.
    pub insn_addr: usize,
    /// Register snapshot at the moment of the access (a zeroed register file
    /// when the backend cannot recover a full context).
    pub regs: Registers,
    /// How many times this instruction has hit the watch so far.
    pub hits: u64,
}

/// Which observation mechanism a "what accesses" trace uses.
#[derive(Debug, Clone, Copy, PartialEq, Eq, Structural)]
pub enum AccessBackend {
    /// x86 hardware debug registers via `ptrace`.
    Hardware,
    /// LibIHT Last Branch Records.
    LibIht,
    /// Intel Processor Trace.
    IntelPt,
}

/// LibIHT (Last Branch Record) access tracer. This backend is not
/// implemented: attaching always reports it as unsupported.
pub struct LibIhtTracer {
    pid: u32,
}

impl LibIhtTracer {
    /// Attaches to `pid` via the LibIHT device; always `Err(Unsupported(..))`
    /// since the backend is not implemented.
    pub fn attach(pid: u32) -> (r: Result<Self, SdkError>)
        ensures
            r matches Err(SdkError::Unsupported(m)) && m@ == "libiht access tracer not yet implemented"@,
    {
        Err(SdkError::Unsupported("libiht access tracer not yet implemented"))
    }
}

/// A running "what accesses this address" observation.
pub trait AccessTracer {
    /// Begins watching `[addr, addr+size)` for accesses of `kind`.
    fn start(&mut self, addr: usize, size: WatchSize, kind: WatchKind) -> Result<(), SdkError>;

    /// The accessing instructions found so far, aggregated by instruction
    /// address (so `hits` accumulates across polls).
    fn poll(&mut self) -> Result<Vec<AccessRecord>, SdkError>;

    /// Stops the trace and releases its resources.
    fn stop(&mut self) -> Result<(), SdkError>;
}

impl AccessTracer for LibIhtTracer {
    fn start(&mut self, addr: usize, size: WatchSize, kind: WatchKind) -> (r: Result<(), SdkError>)
        ensures
            r matches Err(SdkError::Unsupported(m)) && m@ == "libiht access tracer not yet implemented"@,
    {
        Err(SdkError::Unsupported("libiht access tracer not yet implemented"))
    }

    fn poll(&mut self) -> (r: Result<Vec<AccessRecord>, SdkError>)
        ensures
            r matches Err(SdkError::Unsupported(m)) && m@ == "libiht access tracer not yet implemented"@,
    {
        Err(SdkError::Unsupported("libiht access tracer not yet implemented"))
    }

    fn stop(&mut self) -> (r: Result<(), SdkError>)
        ensures
            r matches Err(SdkError::Unsupported(m)) && m@ == "libiht access tracer not yet implemented"@,
    {
        Err(SdkError::Unsupported("libiht access tracer not yet implemented"))
    }
}

/// The accessing instructions seen so far, one record per instruction
/// address, each with the latest registers seen there and its hit count.
pub struct AccessLog {
    records: Vec<AccessRecord>,
}

/// The index of the record for `addr`, if any.
pub open spec fn record_index(rs: Seq<AccessRecord>, addr: usize) -> Option<int>
    decreases rs.len(),
{
    if rs.len() == 0 {
        None
    } else if rs.last().insn_addr == addr {
        Some(rs.len() - 1)
    } else {
        record_index(rs.drop_last(), addr)
    }
}

/// The records after one more access by the instruction at `insn_addr`
/// with registers `regs`: its record's hit count goes up by one (saturating)
/// and takes `regs`, or a new record with one hit is appended.
pub open spec fn noted(rs: Seq<AccessRecord>, insn_addr: usize, regs: Registers) -> Seq<AccessRecord> {
    match record_index(rs, insn_addr) {
        Some(i) => rs.update(
            i,
            AccessRecord {
                insn_addr,
                regs,
                hits: (if rs[i].hits == u64::MAX {
                    u64::MAX
                } else {
                    (rs[i].hits + 1) as u64
                }),
            },
        ),
        None => rs.push(AccessRecord { insn_addr, regs, hits: 1 }),
    }
}

/// The register file with every register zero.
pub open spec fn zero_regs() -> Registers {
    Registers {
        r15: 0,
        r14: 0,
        r13: 0,
        r12: 0,
        rbp: 0,
        rbx: 0,
        r11: 0,
        r10: 0,
        r9: 0,
        r8: 0,
        rax: 0,
        rcx: 0,
        rdx: 0,
        rsi: 0,
        rdi: 0,
        orig_rax: 0,
        rip: 0,
        cs: 0,
        eflags: 0,
        rsp: 0,
        ss: 0,
        fs_base: 0,
        gs_base: 0,
        ds: 0,
        es: 0,
        fs: 0,
        gs: 0,
    }
}

/// The records after an access by each instruction pointer of `ips`, in
/// order, with zeroed registers.
pub open spec fn noted_all(rs: Seq<AccessRecord>, ips: Seq<u64>) -> Seq<AccessRecord>
    decreases ips.len(),
{
    if ips.len() == 0 {
        rs
    } else {
        noted(noted_all(rs, ips.drop_last()), ips.last() as usize, zero_regs())
    }
}

impl AccessLog {
    /// The records, oldest instruction first.
    pub closed spec fn records_view(&self) -> Seq<AccessRecord> {
        self.records@
    }

    /// No instruction address has two records.
    pub closed spec fn wf(&self) -> bool {
        forall|i: int, j: int|
            0 <= i < j < self.records@.len() ==> self.records@[i].insn_addr != self.records@[j].insn_addr
    }

    /// An empty log.
    pub fn new() -> (r: Self)
        ensures
            r.wf(),
            r.records_view() == Seq::<AccessRecord>::empty(),
    {
        AccessLog { records: Vec::new() }
    }

    /// Counts one more access by the instruction at `insn_addr`, keeping
    /// `regs` as its latest registers.
    pub fn note(&mut self, insn_addr: usize, regs: Registers)
        requires
            old(self).wf(),
        ensures
            final(self).wf(),
            final(self).records_view() == noted(old(self).records_view(), insn_addr, regs),
    {
        let mut i = self.records.len();
        assert(self.records@.take(i as int) =~= self.records@);
        while i > 0
            invariant
                i <= self.records@.len(),
                old(self).wf(),
                self.records@ == old(self).records@,
                record_index(self.records@, insn_addr) == record_index(self.records@.take(i as int), insn_addr),
            decreases i,
        {
            let ghost t = self.records@.take(i as int);
            assert(t.drop_last() =~= self.records@.take(i - 1));
            if self.records[i - 1].insn_addr == insn_addr {
                let h = self.records[i - 1].hits;
                let hits = if h == u64::MAX { u64::MAX } else { h + 1 };
                self.records.set(i - 1, AccessRecord { insn_addr, regs, hits });
                proof {
                    assert forall|a: int, b: int| 0 <= a < b < self.records@.len() implies self.records@[a].insn_addr
                        != self.records@[b].insn_addr by {
                        assert(self.records@[a].insn_addr == old(self).records@[a].insn_addr);
                        assert(self.records@[b].insn_addr == old(self).records@[b].insn_addr);
                    }
                }
                return;
            }
            i = i - 1;
        }
        proof {
            assert forall|k: int| 0 <= k < self.records@.len() implies self.records@[k].insn_addr != insn_addr by {
                lemma_record_index_none(self.records@, insn_addr, k);
            }
        }
        self.records.push(AccessRecord { insn_addr, regs, hits: 1 });
    }

    /// Counts one access per instruction pointer in `ips`, in order, with
    /// zeroed registers (a trace that carries no register context).
    pub fn note_all(&mut self, ips: &[u64])
        requires
            old(self).wf(),
        ensures
            final(self).wf(),
            final(self).records_view() == noted_all(old(self).records_view(), ips@),
    {
        let mut k: usize = 0;
        while k < ips.len()
            invariant
                k <= ips@.len(),
                self.wf(),
                self.records_view() == noted_all(old(self).records_view(), ips@.take(k as int)),
            decreases ips.len() - k,
        {
            let z = Registers::default();
            assert(z == zero_regs());
            self.note(ips[k] as usize, z);
            assert(ips@.take(k + 1).drop_last() =~= ips@.take(k as int));
            k = k + 1;
        }
        assert(ips@.take(ips@.len() as int) =~= ips@);
    }

    /// A copy of the records.
    pub fn snapshot(&self) -> (r: Vec<AccessRecord>)
        ensures
            r@ == self.records_view(),
    {
        let mut out: Vec<AccessRecord> = Vec::new();
        let mut i: usize = 0;
        while i < self.records.len()
            invariant
                i <= self.records@.len(),
                out@ == self.records@.take(i as int),
            decreases self.records.len() - i,
        {
            let r = &self.records[i];
            out.push(AccessRecord { insn_addr: r.insn_addr, regs: r.regs, hits: r.hits });
            i = i + 1;
            assert(out@ =~= self.records@.take(i as int));
        }
        assert(self.records@.take(self.records@.len() as int) =~= self.records@);
        out
    }
}


/// What the hardware tracer's poll loop does after one wait for a stop.
#[derive(Debug, Clone, Copy, PartialEq, Eq, Structural)]
pub enum PollAction {
    /// The watchpoint fired in this thread: read its registers and record
    /// them, step it off the accessing instruction, consume the step's trap,
    /// resume, and keep waiting.
    Record(ThreadId),
    /// Some other stop: resume the target and keep waiting.
    Resume,
    /// The target exited, or the wait timed out or failed: report what was
    /// gathered.
    Finish,
}

/// The action a poll takes on the outcome of one wait.
pub open spec fn poll_action_spec(ev: Result<DebugEvent, SdkError>) -> PollAction {
    match ev {
        Ok(e) => match e.reason {
            StopReason::Watchpoint { .. } => PollAction::Record(e.tid),
            StopReason::Exited(_) => PollAction::Finish,
            _ => PollAction::Resume,
        },
        Err(_) => PollAction::Finish,
    }
}

/// The bookkeeping of the hardware-watchpoint "what accesses" tracer: whether
/// its own ptrace attach is still held, the watchpoint it set, and the
/// accessing instructions seen, aggregated by instruction address so hit
/// counts accumulate across polls. The debugger calls themselves are made by
/// the caller, as the methods' results direct.
pub struct HwAccessTracer {
    attached: bool,
    log: AccessLog,
    bp: Option<BpId>,
}

impl HwAccessTracer {
    /// Whether the tracer still holds its attach (it has not been stopped).
    pub closed spec fn attached_view(&self) -> bool {
        self.attached
    }

    /// The watchpoint set by `start`, if any.
    pub closed spec fn bp_view(&self) -> Option<BpId> {
        self.bp
    }

    /// The accessing instructions seen so far.
    pub closed spec fn records_view(&self) -> Seq<AccessRecord> {
        self.log.records_view()
    }

    /// The log holds one record per instruction address.
    pub closed spec fn wf(&self) -> bool {
        self.log.wf()
    }

    /// The state just after attaching: nothing watched, nothing seen.
    pub fn new() -> (r: Self)
        ensures
            r.wf(),
            r.attached_view(),
            r.bp_view() is None,
            r.records_view() == Seq::<AccessRecord>::empty(),
    {
        HwAccessTracer { attached: true, log: AccessLog::new(), bp: None }
    }

    /// `Ok` while the tracer is attached; once stopped, every operation
    /// fails with `Debug("tracer stopped")`.
    pub fn check_attached(&self) -> (r: Result<(), SdkError>)
        ensures
            r is Ok <==> self.attached_view(),
            r matches Err(SdkError::Debug(m)) ==> m@ == "tracer stopped"@,
            r is Err ==> r matches Err(SdkError::Debug(_)),
    {
        if self.attached {
            Ok(())
        } else {
            Err(SdkError::Debug(String::from_str("tracer stopped")))
        }
    }

    /// Remembers the watchpoint that `start` set.
    pub fn watch_set(&mut self, bp: BpId)
        requires
            old(self).wf(),
        ensures
            final(self).wf(),
            final(self).bp_view() == Some(bp),
            final(self).attached_view() == old(self).attached_view(),
            final(self).records_view() == old(self).records_view(),
    {
        self.bp = Some(bp);
    }

    /// What to do after a wait that gave `ev`.
    pub fn poll_action(ev: &Result<DebugEvent, SdkError>) -> (r: PollAction)
        ensures
            r == poll_action_spec(*ev),
    {
        match ev {
            Ok(e) => match e.reason {
                StopReason::Watchpoint { .. } => PollAction::Record(e.tid),
                StopReason::Exited(_) => PollAction::Finish,
                _ => PollAction::Resume,
            },
            Err(_) => PollAction::Finish,
        }
    }

    /// Counts one access by the instruction at `regs.rip`, keeping `regs` as
    /// its latest registers.
    pub fn record(&mut self, regs: Registers)
        requires
            old(self).wf(),
        ensures
            final(self).wf(),
            final(self).attached_view() == old(self).attached_view(),
            final(self).bp_view() == old(self).bp_view(),
            match record_index(old(self).records_view(), regs.rip as usize) {
                Some(i) => final(self).records_view() == old(self).records_view().update(
                    i,
                    AccessRecord {
                        insn_addr: regs.rip as usize,
                        regs,
                        hits: (if old(self).records_view()[i].hits == u64::MAX {
                            u64::MAX
                        } else {
                            (old(self).records_view()[i].hits + 1) as u64
                        }),
                    },
                ),
                None => final(self).records_view() == old(self).records_view().push(
                    AccessRecord { insn_addr: regs.rip as usize, regs, hits: 1 },
                ),
            },
    {
        self.log.note(regs.rip as usize, regs);
    }

    /// The records gathered so far, as a poll reports them.
    pub fn records(&self) -> (r: Vec<AccessRecord>)
        ensures
            r@ == self.records_view(),
    {
        self.log.snapshot()
    }

    /// Stops the tracer. Returns whether the caller is to detach, and the
    /// watchpoint to clear before it does; a second stop does nothing.
    pub fn stop(&mut self) -> (r: (bool, Option<BpId>))
        requires
            old(self).wf(),
        ensures
            final(self).wf(),
            !final(self).attached_view(),
            final(self).records_view() == old(self).records_view(),
            old(self).attached_view() ==> r == (true, old(self).bp_view()) && final(self).bp_view() is None,
            !old(self).attached_view() ==> r == (false, None::<BpId>) && final(self).bp_view() == old(
                self,
            ).bp_view(),
    {
        if self.attached {
            self.attached = false;
            let b = self.bp;
            self.bp = None;
            (true, b)
        } else {
            (false, None)
        }
    }
}

proof fn lemma_record_index_none(rs: Seq<AccessRecord>, addr: usize, k: int)
    requires
        record_index(rs, addr) is None,
        0 <= k < rs.len(),
    ensures
        rs[k].insn_addr != addr,
    decreases rs.len(),
{
    if k < rs.len() - 1 {
        assert(rs.drop_last()[k] == rs[k]);
        lemma_record_index_none(rs.drop_last(), addr, k);
    }
}

/// The unread part of a processor-trace AUX ring of `size` bytes whose
/// producer is at `head` and consumer at `tail`: `None` when nothing is
/// unread; otherwise the consumer position to read from (only the newest
/// `size` bytes survive an overrun), the ring offset it starts at, how many
/// bytes to read, and how many of them lie before the ring's end.
pub fn aux_window(head: u64, tail: u64, size: u64) -> (r: Option<(u64, u64, u64, u64)>)
    requires
        size > 0,
        head.wrapping_sub(tail) > size ==> head >= size,
    ensures
        match r {
            None => head == tail,
            Some((t, start, avail, first)) => {
                let unread: int = if head >= tail { head - tail } else { head - tail + 0x1_0000_0000_0000_0000 };
                &&& head != tail
                &&& avail == (if unread > size { size as int } else { unread })
                &&& t == (if unread > size { (head - size) as u64 } else { tail })
                &&& start == t % size
                &&& first == (if size - start < avail { size - start } else { avail as int })
            },
        },
{
    let mut t = tail;
    let mut avail = head.wrapping_sub(tail);
    if avail == 0 {
        return None;
    }
    if avail > size {
        t = head - size;
        avail = size;
    }
    let start = t % size;
    let first = if size - start < avail { size - start } else { avail };
    Some((t, start, avail, first))
}

/// `_IO('$', 0)`: the perf ioctl that enables an event.
pub const PERF_EVENT_IOC_ENABLE: u64 = 0x2400;

/// `_IO('$', 1)`: the perf ioctl that disables an event.
pub const PERF_EVENT_IOC_DISABLE: u64 = 0x2401;

// --- Minimal PT packet decoder --------------------------------------------

/// Bytes of IP payload following an IP packet opcode, by its IPBytes field.
pub open spec fn payload_len_spec(ipbytes: u8) -> Option<int> {
    if ipbytes == 0 {
        Some(0)
    } else if ipbytes == 1 {
        Some(2)
    } else if ipbytes == 2 {
        Some(4)
    } else if ipbytes == 3 || ipbytes == 4 {
        Some(6)
    } else if ipbytes == 6 {
        Some(8)
    } else {
        None
    }
}

/// Bytes of IP payload following an IP packet opcode, by the IPBytes field
/// (`opcode >> 5`). `None` marks a reserved encoding.
pub fn ip_payload_len(ipbytes: u8) -> (r: Option<usize>)
    ensures
        match payload_len_spec(ipbytes) {
            Some(n) => r == Some(n as usize),
            None => r is None,
        },
{
    match ipbytes {
        0 => Some(0),
        1 => Some(2),
        2 => Some(4),
        3 => Some(6),
        4 => Some(6),
        6 => Some(8),
        _ => None,
    }
}

/// The little-endian value of the first `k` bytes of `s`.
pub open spec fn le_value(s: Seq<u8>, k: nat) -> u64
    decreases k,
{
    if k == 0 {
        0
    } else {
        le_value(s, (k - 1) as nat) | ((s[k - 1] as u64) << (8 * (k - 1)) as u64)
    }
}

/// The number of bytes `read_le` takes: `n`, or fewer if `s` is shorter.
pub open spec fn le_count(s: Seq<u8>, n: nat) -> nat {
    if n < s.len() {
        n
    } else {
        s.len()
    }
}

proof fn lemma_le_step(v: u64, b: u8, i: u64)
    requires
        i < 8,
        (v >> (8 * i)) == 0,
    ensures
        ((v | ((b as u64) << (8 * i))) >> (8 * i)) & 0xff == b as u64,
        forall|j: u64| j < i ==> (#[trigger] ((v | ((b as u64) << (8 * i))) >> (8 * j))) & 0xff == (v >> (8 * j)) & 0xff,
        i < 7 ==> ((v | ((b as u64) << (8 * i))) >> (8 * (i + 1))) == 0,
{
    assert(i < 8 && (v >> (8 * i)) == 0 ==> ((v | ((b as u64) << (8 * i))) >> (8 * i)) & 0xff == b
        as u64) by (bit_vector);
    assert forall|j: u64| j < i implies (#[trigger] ((v | ((b as u64) << (8 * i))) >> (8 * j))) & 0xff == (v >> (8
        * j)) & 0xff by {
        assert(j < i && i < 8 ==> ((v | ((b as u64) << (8 * i))) >> (8 * j)) & 0xff == (v >> (8 * j))
            & 0xff) by (bit_vector);
    }
    assert(i < 7 && (v >> (8 * i)) == 0 ==> ((v | ((b as u64) << (8 * i))) >> (8 * (i + 1))) == 0)
        by (bit_vector);
}

/// Reads up to `n` bytes of `buf` as a little-endian integer: byte `i` of the
/// result is `buf[i]` for every byte taken, and the rest are zero.
pub fn read_le(buf: &[u8], n: usize) -> (v: u64)
    requires
        le_count(buf@, n as nat) <= 8,
    ensures
        v == le_value(buf@, le_count(buf@, n as nat)),
        forall|i: u64| i < le_count(buf@, n as nat) ==> #[trigger] ((v >> (8 * i)) & 0xff) == buf@[i as int] as u64,
        le_count(buf@, n as nat) < 8 ==> v >> (8 * le_count(buf@, n as nat)) as u64 == 0,
{
    let k = if n < buf.len() { n } else { buf.len() };
    let mut v: u64 = 0;
    let mut i: usize = 0;
    assert((0u64 >> 0u64) == 0) by (bit_vector);
    while i < k
        invariant
            k == le_count(buf@, n as nat),
            k <= 8,
            k <= buf@.len(),
            i <= k,
            v == le_value(buf@, i as nat),
            forall|j: u64| j < i ==> #[trigger] ((v >> (8 * j)) & 0xff) == buf@[j as int] as u64,
            i < 8 ==> v >> (8 * i) as u64 == 0,
        decreases k - i,
    {
        let b = buf[i];
        proof {
            lemma_le_step(v, b, i as u64);
        }
        let ghost old_v = v;
        v = v | ((b as u64) << (8 * i as u64));
        i = i + 1;
        proof {
            assert forall|j: u64| j < i implies #[trigger] ((v >> (8 * j)) & 0xff) == buf@[j as int]
                as u64 by {
                if j < (i - 1) as u64 {
                    assert(((v >> (8 * j)) & 0xff) == (old_v >> (8 * j)) & 0xff);
                }
            }
        }
    }
    v
}

/// Sign-extends the low `bits` bits of `v` to 64 bits.
pub open spec fn sext_spec(v: u64, bits: u64) -> u64 {
    (((v << (64 - bits)) as i64) >> (64 - bits)) as u64
}

/// Sign-extends the low `bits` bits of `v` to 64 bits.
pub fn sext(v: u64, bits: u32) -> (r: u64)
    requires
        1 <= bits <= 64,
    ensures
        r == sext_spec(v, bits as u64),
{
    let shift = 64 - bits;
    (((v << shift) as i64) >> shift) as u64
}

/// Rebuilds a full IP from the running `last` IP and a compressed payload.
pub open spec fn reconstruct_spec(last: u64, ipbytes: u8, payload: Seq<u8>) -> u64 {
    if ipbytes == 0 {
        last
    } else if ipbytes == 1 {
        (last & !0xFFFFu64) | le_value(payload, le_count(payload, 2))
    } else if ipbytes == 2 {
        (last & !0xFFFF_FFFFu64) | le_value(payload, le_count(payload, 4))
    } else if ipbytes == 3 {
        sext_spec(le_value(payload, le_count(payload, 6)), 48)
    } else if ipbytes == 4 {
        (last & !0xFFFF_FFFF_FFFFu64) | le_value(payload, le_count(payload, 6))
    } else if ipbytes == 6 {
        le_value(payload, le_count(payload, 8))
    } else {
        last
    }
}

/// Rebuilds a full IP from the running `last` IP and a compressed payload.
pub fn reconstruct_ip(last: u64, ipbytes: u8, payload: &[u8]) -> (r: u64)
    ensures
        r == reconstruct_spec(last, ipbytes, payload@),
{
    match ipbytes {
        0 => last,
        1 => (last & !0xFFFFu64) | read_le(payload, 2),
        2 => (last & !0xFFFF_FFFFu64) | read_le(payload, 4),
        3 => sext(read_le(payload, 6), 48),
        4 => (last & !0xFFFF_FFFF_FFFFu64) | read_le(payload, 6),
        6 => read_le(payload, 8),
        _ => last,
    }
}

/// The length of an extended (`0x02`-prefixed) packet, by its second byte.
pub open spec fn ext_len(b: u8) -> int {
    if b == 0x82 {
        16
    } else if b == 0x03 {
        4
    } else if b == 0xA3 || b == 0x43 {
        8
    } else {
        2
    }
}

/// Whether an opcode's low five bits mark a TIP / FUP / TIP.PGE / TIP.PGD
/// packet.
pub open spec fn is_ip_opcode(b: u8) -> bool {
    let opc = b & 0x1F;
    opc == 0x0D || opc == 0x11 || opc == 0x01 || opc == 0x1D
}

/// The IPs recovered from `buf` starting at byte `i` with running IP `last`.
pub open spec fn decode_from(buf: Seq<u8>, i: int, last: u64) -> Seq<u64>
    decreases (if i < buf.len() { buf.len() - i } else { 0 }),
{
    if i < 0 || i >= buf.len() {
        seq![]
    } else {
        let b = buf[i];
        if b == 0x02 {
            if i + 1 >= buf.len() {
                seq![]
            } else {
                decode_from(buf, i + ext_len(buf[i + 1]), last)
            }
        } else if b == 0x00 {
            decode_from(buf, i + 1, last)
        } else if b == 0x19 {
            decode_from(buf, i + 8, last)
        } else if b == 0x59 || b == 0x99 {
            decode_from(buf, i + 2, last)
        } else if is_ip_opcode(b) {
            let ipbytes = b >> 5;
            match payload_len_spec(ipbytes) {
                Some(plen) => if i + 1 + plen > buf.len() {
                    seq![]
                } else if ipbytes != 0 {
                    let ip = reconstruct_spec(last, ipbytes, buf.subrange(i + 1, i + 1 + plen));
                    seq![ip] + decode_from(buf, i + 1 + plen, ip)
                } else {
                    decode_from(buf, i + 1 + plen, last)
                },
                None => decode_from(buf, i + 1, last),
            }
        } else {
            decode_from(buf, i + 1, last)
        }
    }
}

/// Walks a PT byte stream and returns the flow-changing IPs (from TIP / FUP /
/// TIP.PGE / TIP.PGD). Unrecognised bytes advance by one.
pub fn decode_ips(buf: &[u8]) -> (out: Vec<u64>)
    ensures
        out@ == decode_from(buf@, 0, 0),
{
    let mut out: Vec<u64> = Vec::new();
    let mut last: u64 = 0;
    let mut i: usize = 0;
    let n = buf.len();
    while i < n
        invariant
            n == buf@.len(),
            i <= n,
            decode_from(buf@, 0, 0) == out@ + decode_from(buf@, i as int, last),
        decreases n - i,
    {
        let b = buf[i];
        if b == 0x02 {
            if i + 1 >= n {
                i = n;
                continue;
            }
            let nb = buf[i + 1];
            let len: usize = if nb == 0x82 {
                16
            } else if nb == 0x03 {
                4
            } else if nb == 0xA3 || nb == 0x43 {
                8
            } else {
                2
            };
            assert(decode_from(buf@, i as int, last) == decode_from(buf@, i + len, last));
            if len > n - i {
                i = n;
                continue;
            }
            i = i + len;
            continue;
        }
        let step: usize = if b == 0x00 {
            1
        } else if b == 0x19 {
            8
        } else if b == 0x59 || b == 0x99 {
            2
        } else {
            0
        };
        if step > 0 {
            assert(decode_from(buf@, i as int, last) == decode_from(buf@, i + step, last));
            if step > n - i {
                i = n;
                continue;
            }
            i = i + step;
            continue;
        }
        let opc = b & 0x1F;
        if opc == 0x0D || opc == 0x11 || opc == 0x01 || opc == 0x1D {
            let ipbytes = b >> 5;
            match ip_payload_len(ipbytes) {
                Some(plen) => {
                    if plen + 1 > n - i {
                        assert(decode_from(buf@, i as int, last) == Seq::<u64>::empty());
                        i = n;
                        continue;
                    }
                    if ipbytes != 0 {
                        let ghost prev = out@;
                        let payload = vstd::slice::slice_subrange(buf, i + 1, i + 1 + plen);
                        last = reconstruct_ip(last, ipbytes, payload);
                        out.push(last);
                        proof {
                            assert(prev + seq![last] + decode_from(buf@, (i + 1 + plen) as int, last) =~= out@ + decode_from(buf@, (i + 1 + plen) as int, last));
                        }
                    }
                    i = i + 1 + plen;
                    continue;
                },
                None => {
                    i = i + 1;
                    continue;
                },
            }
        }
        i = i + 1;
    }
    assert(out@ + Seq::<u64>::empty() =~= out@);
    out
}

proof fn lemma_le_value_bytes(s: Seq<u8>, k: nat)
    requires
        k <= 8,
        k <= s.len(),
    ensures
        forall|j: u64| j < k ==> #[trigger] ((le_value(s, k) >> (8 * j)) & 0xff) == s[j as int] as u64,
        k < 8 ==> le_value(s, k) >> (8 * k) as u64 == 0,
    decreases k,
{
    if k == 0 {
        assert((0u64 >> 0u64) == 0) by (bit_vector);
    } else {
        let i = (k - 1) as nat;
        lemma_le_value_bytes(s, i);
        let v = le_value(s, i);
        lemma_le_step(v, s[i as int], i as u64);
        assert forall|j: u64| j < k implies #[trigger] ((le_value(s, k) >> (8 * j)) & 0xff) == s[j as int] as u64 by {
            if j < i as u64 {
                assert(((le_value(s, k) >> (8 * j)) & 0xff) == (v >> (8 * j)) & 0xff);
            }
        }
    }
}

/// Whether the low five bits of a packet header name a packet that carries
/// an IP: TIP (`0x0D`), FUP (`0x1D`), TIP.PGE (`0x11`) or TIP.PGD (`0x01`).
pub open spec fn carries_ip(low: u8) -> bool {
    low == 0x0D || low == 0x1D || low == 0x11 || low == 0x01
}

/// A TIP, FUP, TIP.PGE or TIP.PGD packet with a full IP (IPBytes = 6) at
/// `i` yields the IP held by its eight payload bytes, least significant
/// byte first, and decoding goes on after the payload with that IP as the
/// running one. All four kinds yield their IP alike.
pub proof fn lemma_full_ip_packet(buf: Seq<u8>, i: int, last: u64)
    requires
        0 <= i,
        i + 9 <= buf.len(),
        buf[i] >> 5 == 6,
        carries_ip(buf[i] & 0x1F),
    ensures
        decode_from(buf, i, last).len() >= 1,
        forall|j: u64| j < 8 ==> #[trigger] ((decode_from(buf, i, last)[0] >> (8 * j)) & 0xff) == buf[i + 1 + j] as u64,
        decode_from(buf, i, last) == seq![decode_from(buf, i, last)[0]] + decode_from(buf, i + 9, decode_from(buf, i, last)[0]),
{
    let b = buf[i];
    assert(b >> 5 == 6 ==> b != 0x02 && b != 0x00 && b != 0x19 && b != 0x59 && b != 0x99) by (bit_vector);
    assert(is_ip_opcode(b));
    let p = buf.subrange(i + 1, i + 9);
    assert(le_count(p, 8) == 8);
    lemma_le_value_bytes(p, 8);
    let ip = le_value(p, 8);
    assert(decode_from(buf, i, last) == seq![ip] + decode_from(buf, i + 9, ip));
    assert forall|j: u64| j < 8 implies #[trigger] ((decode_from(buf, i, last)[0] >> (8 * j)) & 0xff) == buf[i + 1 + j] as u64 by {
        assert(p[j as int] == buf[i + 1 + j]);
    }
}

/// The payload bytes an IP packet with compression `ipbytes` (1, 2 or 4)
/// carries: the low 16, 32 or 48 bits of the IP.
pub open spec fn updated_bytes(ipbytes: u8) -> int {
    if ipbytes == 1 {
        2
    } else if ipbytes == 2 {
        4
    } else {
        6
    }
}

/// The low-bytes mask of an IP update carrying `k` payload bytes.
spec fn low_mask(k: u64) -> u64 {
    if k == 2 {
        0xFFFFu64
    } else if k == 4 {
        0xFFFF_FFFFu64
    } else {
        0xFFFF_FFFF_FFFFu64
    }
}

proof fn lemma_or_low_bytes(last: u64, v: u64, k: u64, mask: u64)
    requires
        k == 2 || k == 4 || k == 6,
        mask == low_mask(k),
        v >> (8 * k) == 0,
    ensures
        forall|j: u64|
            j < 8 ==> #[trigger] ((((last & !mask) | v) >> (8 * j)) & 0xff) == (if j < k {
                (v >> (8 * j)) & 0xff
            } else {
                (last >> (8 * j)) & 0xff
            }),
{
    if k == 2 {
        assert(forall|j: u64| mask == 0xFFFFu64 && v >> 16 == 0 && j < 8 ==> #[trigger] ((((last & !mask) | v) >> (8 * j)) & 0xff) == (if j
            < 2 { (v >> (8 * j)) & 0xff } else { (last >> (8 * j)) & 0xff })) by (bit_vector);
    } else if k == 4 {
        assert(forall|j: u64| mask == 0xFFFF_FFFFu64 && v >> 32 == 0 && j < 8 ==> #[trigger] ((((last & !mask) | v) >> (8 * j)) & 0xff) == (
        if j < 4 { (v >> (8 * j)) & 0xff } else { (last >> (8 * j)) & 0xff })) by (bit_vector);
    } else {
        assert(forall|j: u64| mask == 0xFFFF_FFFF_FFFFu64 && v >> 48 == 0 && j < 8 ==> #[trigger] ((((last & !mask) | v) >> (8 * j))
            & 0xff) == (if j < 6 { (v >> (8 * j)) & 0xff } else { (last >> (8 * j)) & 0xff })) by (bit_vector);
    }
}

/// A TIP, FUP, TIP.PGE or TIP.PGD packet that updates the low 16, 32 or 48
/// bits of the IP (IPBytes 1, 2 or 4) yields the running IP with those low
/// bytes replaced by its payload, least significant first, and the upper
/// bytes kept; decoding goes on after the payload with that IP.
pub proof fn lemma_partial_ip_packet(buf: Seq<u8>, i: int, last: u64)
    requires
        0 <= i < buf.len(),
        buf[i] >> 5 == 1 || buf[i] >> 5 == 2 || buf[i] >> 5 == 4,
        i + 1 + updated_bytes(buf[i] >> 5) <= buf.len(),
        carries_ip(buf[i] & 0x1F),
    ensures
        decode_from(buf, i, last).len() >= 1,
        forall|j: u64|
            j < 8 ==> #[trigger] ((decode_from(buf, i, last)[0] >> (8 * j)) & 0xff) == (if j < updated_bytes(buf[i] >> 5) {
                buf[i + 1 + j] as u64
            } else {
                (last >> (8 * j)) & 0xff
            }),
        decode_from(buf, i, last) == seq![decode_from(buf, i, last)[0]] + decode_from(
            buf,
            i + 1 + updated_bytes(buf[i] >> 5),
            decode_from(buf, i, last)[0],
        ),
{
    let b = buf[i];
    let ipb = b >> 5;
    assert(((b & 0x1F) == 0x0D || (b & 0x1F) == 0x1D || (b & 0x1F) == 0x11 || (b & 0x1F) == 0x01) ==> b != 0x02 && b
        != 0x00 && b != 0x19 && b != 0x59 && b != 0x99) by (bit_vector);
    assert(is_ip_opcode(b));
    let k = updated_bytes(ipb);
    let p = buf.subrange(i + 1, i + 1 + k);
    assert(le_count(p, k as nat) == k);
    lemma_le_value_bytes(p, k as nat);
    let v = le_value(p, k as nat);
    lemma_or_low_bytes(last, v, k as u64, low_mask(k as u64));
    let ip = reconstruct_spec(last, ipb, p);
    assert(decode_from(buf, i, last) == seq![ip] + decode_from(buf, i + 1 + k, ip));
    assert forall|j: u64| j < 8 implies #[trigger] ((decode_from(buf, i, last)[0] >> (8 * j)) & 0xff) == (if j < k {
        buf[i + 1 + j] as u64
    } else {
        (last >> (8 * j)) & 0xff
    }) by {
        if j < k {
            assert(p[j as int] == buf[i + 1 + j]);
        }
    }
}

/// A TIP, FUP, TIP.PGE or TIP.PGD packet whose IP is suppressed
/// (IPBytes 0) yields nothing: decoding goes on at the next byte with the
/// running IP unchanged.
pub proof fn lemma_suppressed_ip_packet(buf: Seq<u8>, i: int, last: u64)
    requires
        0 <= i < buf.len(),
        buf[i] >> 5 == 0,
        carries_ip(buf[i] & 0x1F),
    ensures
        decode_from(buf, i, last) == decode_from(buf, i + 1, last),
{
    let b = buf[i];
    assert(((b & 0x1F) == 0x0D || (b & 0x1F) == 0x1D || (b & 0x1F) == 0x11 || (b & 0x1F) == 0x01) ==> b != 0x02 && b
        != 0x00 && b != 0x19 && b != 0x59 && b != 0x99) by (bit_vector);
}

proof fn lemma_sext48_bytes(v: u64)
    requires
        v >> 48 == 0,
    ensures
        forall|j: u64|
            j < 8 ==> #[trigger] ((sext_spec(v, 48) >> (8 * j)) & 0xff) == (if j < 6 {
                (v >> (8 * j)) & 0xff
            } else if (v >> 47) & 1 == 1 {
                0xffu64
            } else {
                0u64
            }),
{
    assert(forall|j: u64| v >> 48 == 0 && j < 8 ==> #[trigger] (((((v << 16u64) as i64) >> 16u64) as u64 >> (8 * j)) & 0xff)
        == (if j < 6 { (v >> (8 * j)) & 0xff } else if (v >> 47) & 1 == 1 { 0xffu64 } else { 0u64 })) by (bit_vector);
}

/// A TIP, FUP, TIP.PGE or TIP.PGD packet with a sign-extended IP
/// (IPBytes 3) yields the IP whose low six bytes are its payload, least
/// significant first, and whose top two bytes repeat bit 47 (all ones or
/// all zeros), whatever the running IP was.
pub proof fn lemma_sext_ip_packet(buf: Seq<u8>, i: int, last: u64)
    requires
        0 <= i,
        i + 7 <= buf.len(),
        buf[i] >> 5 == 3,
        carries_ip(buf[i] & 0x1F),
    ensures
        decode_from(buf, i, last).len() >= 1,
        forall|j: u64|
            j < 8 ==> #[trigger] ((decode_from(buf, i, last)[0] >> (8 * j)) & 0xff) == (if j < 6 {
                buf[i + 1 + j] as u64
            } else if buf[i + 6] >= 0x80 {
                0xffu64
            } else {
                0u64
            }),
        decode_from(buf, i, last) == seq![decode_from(buf, i, last)[0]] + decode_from(buf, i + 7, decode_from(buf, i, last)[0]),
{
    let b = buf[i];
    assert(((b & 0x1F) == 0x0D || (b & 0x1F) == 0x1D || (b & 0x1F) == 0x11 || (b & 0x1F) == 0x01) ==> b != 0x02 && b
        != 0x00 && b != 0x19 && b != 0x59 && b != 0x99) by (bit_vector);
    let p = buf.subrange(i + 1, i + 7);
    assert(le_count(p, 6) == 6);
    lemma_le_value_bytes(p, 6);
    let v = le_value(p, 6);
    lemma_sext48_bytes(v);
    let top = p[5];
    assert((v >> (8 * 5u64)) & 0xff == top as u64);
    assert(v >> 48 == 0 && (v >> 40) & 0xff == top as u64 ==> ((v >> 47) & 1 == 1 <==> top as u64 >= 0x80)) by (bit_vector);
    let ip = reconstruct_spec(last, 3, p);
    assert(decode_from(buf, i, last) == seq![ip] + decode_from(buf, i + 7, ip));
    assert forall|j: u64| j < 8 implies #[trigger] ((decode_from(buf, i, last)[0] >> (8 * j)) & 0xff) == (if j < 6 {
        buf[i + 1 + j] as u64
    } else if buf[i + 6] >= 0x80 {
        0xffu64
    } else {
        0u64
    }) by {
        if j < 6 {
            assert(p[j as int] == buf[i + 1 + j]);
        }
    }
}

} // verus!
