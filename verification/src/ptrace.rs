//! The bookkeeping and stop-decoding decisions of the native `ptrace`
//! debugger: attached threads, software and hardware breakpoints, breakpoint
//! handles, the stopped set and the signal held back for redelivery. The
//! system calls themselves are made by the caller, which hands each
//! `waitpid` result, debug-status word or instruction pointer to this state
//! and performs the action it answers with.

use vstd::prelude::*;
use vstd::string::*;
use crate::debug::{
    dr7_clear, dr7_clear_spec, dr7_set, dr7_set_spec, field_spec, lemma_dr7_clear_other_slots,
    lemma_dr7_clear_reads_back, lemma_dr7_set_other_slots, lemma_dr7_set_reads_back,
    lemma_field_fits, BpId, DebugEvent, StopReason, ThreadId, WatchKind, WatchSize,
};
use crate::error::SdkError;
use crate::text::{dec, push_dec};

verus! {

/// `SIGTRAP` on Linux.
pub const SIGTRAP: i32 = 5;

/// `SIGSTOP` on Linux.
pub const SIGSTOP: i32 = 19;

/// A software breakpoint: its handle, address, and the byte the `int3`
/// replaced.
#[derive(Debug, Clone, Copy, PartialEq, Eq, Structural)]
pub struct SwBp {
    /// Handle value.
    pub id: u64,
    /// Patched address.
    pub addr: usize,
    /// The original byte at `addr`.
    pub orig: u8,
}

/// A hardware breakpoint/watchpoint occupying a debug-register slot.
#[derive(Debug, Clone, Copy, PartialEq, Eq, Structural)]
pub struct HwBp {
    /// Handle value.
    pub id: u64,
    /// Watched address.
    pub addr: usize,
    /// Access that traps.
    pub kind: WatchKind,
    /// Watched length.
    pub size: WatchSize,
}

/// What clearing a breakpoint freed, for the caller to undo in the target.
#[derive(Debug, Clone, Copy, PartialEq, Eq, Structural)]
pub enum Removed {
    /// A software breakpoint: write `orig` back at `addr`.
    Sw {
        /// Patched address.
        addr: usize,
        /// Byte to restore.
        orig: u8,
    },
    /// A hardware slot was freed: reprogram the debug registers.
    Hw {
        /// The freed slot.
        slot: usize,
    },
}

/// The state of a native debugger session.
pub struct PtraceDebugger {
    pid: u32,
    tids: Vec<i32>,
    sw: Vec<SwBp>,
    hw: Vec<Option<HwBp>>,
    next_id: u64,
    pending: Option<(i32, i32)>,
    stopped: Vec<i32>,
}

/// Whether no value occurs twice in `s`.
pub open spec fn distinct(s: Seq<i32>) -> bool {
    forall|i: int, j: int| 0 <= i < j < s.len() ==> s[i] != s[j]
}

/// The first free debug-register slot at or after `i`.
pub open spec fn free_slot_from(hw: Seq<Option<HwBp>>, i: int) -> Option<int>
    decreases hw.len() - i,
{
    if i < 0 || i >= hw.len() {
        None
    } else if hw[i] is None {
        Some(i)
    } else {
        free_slot_from(hw, i + 1)
    }
}

/// The first slot at or after `i` holding the breakpoint with handle `id`.
pub open spec fn hw_slot_from(hw: Seq<Option<HwBp>>, id: u64, i: int) -> Option<int>
    decreases hw.len() - i,
{
    if i < 0 || i >= hw.len() {
        None
    } else if hw[i] matches Some(b) && b.id == id {
        Some(i)
    } else {
        hw_slot_from(hw, id, i + 1)
    }
}

/// The first software breakpoint at or after `i` with handle `id`.
pub open spec fn sw_index_from(sw: Seq<SwBp>, id: u64, i: int) -> Option<int>
    decreases sw.len() - i,
{
    if i < 0 || i >= sw.len() {
        None
    } else if sw[i].id == id {
        Some(i)
    } else {
        sw_index_from(sw, id, i + 1)
    }
}

/// The first software breakpoint at or after `i` patched at `addr`.
pub open spec fn sw_at_from(sw: Seq<SwBp>, addr: usize, i: int) -> Option<int>
    decreases sw.len() - i,
{
    if i < 0 || i >= sw.len() {
        None
    } else if sw[i].addr == addr {
        Some(i)
    } else {
        sw_at_from(sw, addr, i + 1)
    }
}

/// DR7 as programmed from the first `k` slots: each occupied slot enabled
/// with its condition field, each free slot disabled.
pub open spec fn dr7_upto(hw: Seq<Option<HwBp>>, k: int) -> u64
    decreases k,
{
    if k <= 0 {
        0
    } else {
        let prev = dr7_upto(hw, k - 1);
        match hw[k - 1] {
            Some(b) => dr7_set_spec(prev, (k - 1) as u64, field_spec(b.kind, b.size)),
            None => dr7_clear_spec(prev, (k - 1) as u64),
        }
    }
}

/// The first slot (of four) whose bit is set in the debug-status word `dr6`
/// and which holds a breakpoint, from slot `i` on.
pub open spec fn dr6_hit_from(hw: Seq<Option<HwBp>>, dr6: i64, i: int) -> Option<int>
    decreases 4 - i,
{
    if i < 0 || i >= 4 {
        None
    } else if (dr6 & (1i64 << (i as i64))) != 0 && hw[i] is Some {
        Some(i)
    } else {
        dr6_hit_from(hw, dr6, i + 1)
    }
}

/// The thread id a raw tid reports as.
pub open spec fn thread_of(t: i32) -> ThreadId {
    ThreadId(t as u32)
}


/// Whether `v` holds `t`.
fn holds(v: &Vec<i32>, t: i32) -> (r: bool)
    ensures
        r == v@.contains(t),
{
    let mut i: usize = 0;
    while i < v.len()
        invariant
            i <= v@.len(),
            forall|k: int| 0 <= k < i ==> v@[k] != t,
        decreases v.len() - i,
    {
        if v[i] == t {
            return true;
        }
        i = i + 1;
    }
    false
}

/// `v` without any occurrence of `t`, order kept.
fn without(v: &Vec<i32>, t: i32) -> (r: Vec<i32>)
    ensures
        r@ == v@.filter(|x: i32| x != t),
{
    let mut out: Vec<i32> = Vec::new();
    let mut i: usize = 0;
    while i < v.len()
        invariant
            i <= v@.len(),
            out@ == v@.take(i as int).filter(|x: i32| x != t),
        decreases v.len() - i,
    {
        proof {
            reveal(Seq::filter);
            assert(v@.take(i + 1).drop_last() =~= v@.take(i as int));
        }
        if v[i] != t {
            out.push(v[i]);
        }
        i = i + 1;
    }
    assert(v@.take(v@.len() as int) =~= v@);
    out
}

/// Removing a value keeps a duplicate-free sequence duplicate-free.
proof fn lemma_filter_distinct(s: Seq<i32>, t: i32)
    requires
        distinct(s),
    ensures
        distinct(s.filter(|x: i32| x != t)),
        forall|x: i32| s.filter(|y: i32| y != t).contains(x) <==> (s.contains(x) && x != t),
    decreases s.len(),
{
    reveal(Seq::filter);
    if s.len() > 0 {
        lemma_filter_distinct(s.drop_last(), t);
        let f = s.drop_last().filter(|x: i32| x != t);
        assert forall|x: i32| s.filter(|y: i32| y != t).contains(x) <==> (s.contains(x) && x != t) by {
            if s.contains(x) && x != t {
                let k = choose|k: int| 0 <= k < s.len() && s[k] == x;
                if k < s.len() - 1 {
                    assert(s.drop_last()[k] == x);
                }
            }
            if f.contains(x) {
                assert(s.drop_last().contains(x));
                let k = choose|k: int| 0 <= k < s.drop_last().len() && s.drop_last()[k] == x;
                assert(s[k] == x);
            }
        }
        if s.last() != t {
            assert forall|i: int, j: int| 0 <= i < j < f.push(s.last()).len() implies f.push(s.last())[i]
                != f.push(s.last())[j] by {
                if j == f.len() {
                    assert(f.contains(f[i]));
                    assert(s.drop_last().contains(f[i]));
                    let k = choose|k: int| 0 <= k < s.drop_last().len() && s.drop_last()[k] == f[i];
                    assert(s[k] == f[i]);
                }
            }
        }
    }
}

impl PtraceDebugger {
    /// The traced process.
    pub closed spec fn pid_view(&self) -> u32 {
        self.pid
    }

    /// Attached threads.
    pub closed spec fn tids_view(&self) -> Seq<i32> {
        self.tids@
    }

    /// Software breakpoints, oldest first.
    pub closed spec fn sw_view(&self) -> Seq<SwBp> {
        self.sw@
    }

    /// The four debug-register slots.
    pub closed spec fn hw_view(&self) -> Seq<Option<HwBp>> {
        self.hw@
    }

    /// The next handle value to hand out.
    pub closed spec fn next_id_view(&self) -> u64 {
        self.next_id
    }

    /// A signal held back for redelivery: `(tid, signal)`.
    pub closed spec fn pending_view(&self) -> Option<(i32, i32)> {
        self.pending
    }

    /// Threads currently stopped under the debugger's control.
    pub closed spec fn stopped_view(&self) -> Seq<i32> {
        self.stopped@
    }

    /// The session's invariant: four slots, no thread stopped twice, and
    /// every handle in use below the next one to hand out.
    pub closed spec fn wf(&self) -> bool {
        &&& self.hw@.len() == 4
        &&& distinct(self.stopped@)
        &&& forall|i: int| 0 <= i < self.sw@.len() ==> (#[trigger] self.sw@[i]).id < self.next_id
        &&& forall|i: int|
            0 <= i < 4 ==> (#[trigger] self.hw@[i] matches Some(b) ==> b.id < self.next_id)
    }

    /// A session on `pid` with its threads `tids` attached: the main thread
    /// starts stopped, handles start at 1. Fails when there are no threads.
    pub fn new(pid: u32, tids: Vec<i32>) -> (r: Result<Self, SdkError>)
        ensures
            match r {
                Ok(s) => {
                    &&& tids@.len() > 0
                    &&& s.wf()
                    &&& s.pid_view() == pid
                    &&& s.tids_view() == tids@
                    &&& s.sw_view() == Seq::<SwBp>::empty()
                    &&& s.hw_view() == seq![None::<HwBp>, None, None, None]
                    &&& s.next_id_view() == 1
                    &&& s.pending_view() is None
                    &&& s.stopped_view() == seq![pid as i32]
                },
                Err(e) => {
                    &&& tids@.len() == 0
                    &&& e matches SdkError::Debug(m) && m@ == "no threads for pid "@ + dec(pid as nat)
                },
            },
    {
        if tids.len() == 0 {
            let mut m = String::from_str("no threads for pid ");
            push_dec(&mut m, pid as u128);
            return Err(SdkError::Debug(m));
        }
        let mut hw: Vec<Option<HwBp>> = Vec::new();
        hw.push(None);
        hw.push(None);
        hw.push(None);
        hw.push(None);
        let mut stopped: Vec<i32> = Vec::new();
        stopped.push(pid as i32);
        let s = PtraceDebugger { pid, tids, sw: Vec::new(), hw, next_id: 1, pending: None, stopped };
        assert(s.hw@ =~= seq![None::<HwBp>, None, None, None]);
        Ok(s)
    }

    /// Whether `a` and `b` agree on the process, its threads, the stopped set
    /// and the held-back signal.
    pub open spec fn same_threads(a: &Self, b: &Self) -> bool {
        &&& a.pid_view() == b.pid_view()
        &&& a.tids_view() == b.tids_view()
        &&& a.stopped_view() == b.stopped_view()
        &&& a.pending_view() == b.pending_view()
    }

    /// Whether `a` and `b` hold the same breakpoints and next handle.
    pub open spec fn same_bps(a: &Self, b: &Self) -> bool {
        &&& a.sw_view() == b.sw_view()
        &&& a.hw_view() == b.hw_view()
        &&& a.next_id_view() == b.next_id_view()
    }

    /// The traced process id.
    pub fn pid(&self) -> (r: u32)
        ensures
            r == self.pid_view(),
    {
        self.pid
    }

    /// The attached threads.
    pub fn tids(&self) -> (r: &Vec<i32>)
        ensures
            r@ == self.tids_view(),
    {
        &self.tids
    }

    /// The software breakpoints, oldest first.
    pub fn sw_breakpoints(&self) -> (r: &Vec<SwBp>)
        ensures
            r@ == self.sw_view(),
    {
        &self.sw
    }

    /// The handle the next breakpoint will get.
    pub fn next_handle(&self) -> (r: u64)
        ensures
            r == self.next_id_view(),
    {
        self.next_id
    }

    /// Records a software breakpoint at `addr` whose original byte was
    /// `orig`, under a fresh handle.
    pub fn add_sw(&mut self, addr: usize, orig: u8) -> (id: BpId)
        requires
            old(self).wf(),
            old(self).next_id_view() < u64::MAX,
        ensures
            final(self).wf(),
            id.0 == old(self).next_id_view(),
            final(self).sw_view() == old(self).sw_view().push(SwBp { id: id.0, addr, orig }),
            final(self).hw_view() == old(self).hw_view(),
            final(self).next_id_view() == old(self).next_id_view() + 1,
            Self::same_threads(&*final(self), &*old(self)),
    {
        let id = self.next_id;
        self.next_id = self.next_id + 1;
        self.sw.push(SwBp { id, addr, orig });
        BpId(id)
    }

    /// Places a hardware breakpoint in the first free debug-register slot,
    /// under a fresh handle; fails when all four slots are taken.
    pub fn add_hw(&mut self, addr: usize, size: WatchSize, kind: WatchKind) -> (r: Result<
        BpId,
        SdkError,
    >)
        requires
            old(self).wf(),
            old(self).next_id_view() < u64::MAX,
        ensures
            final(self).wf(),
            Self::same_threads(&*final(self), &*old(self)),
            match r {
                Ok(id) => {
                    &&& free_slot_from(old(self).hw_view(), 0) matches Some(slot)
                    &&& final(self).hw_view() == old(self).hw_view().update(
                        slot,
                        Some(HwBp { id: id.0, addr, kind, size }),
                    )
                    &&& id.0 == old(self).next_id_view()
                    &&& final(self).next_id_view() == old(self).next_id_view() + 1
                    &&& final(self).sw_view() == old(self).sw_view()
                },
                Err(e) => {
                    &&& free_slot_from(old(self).hw_view(), 0) is None
                    &&& e matches SdkError::Debug(m) && m@ == "no free debug register"@
                    &&& Self::same_bps(&*final(self), &*old(self))
                },
            },
    {
        let mut slot: usize = 0;
        while slot < 4 && self.hw[slot].is_some()
            invariant
                self.hw@.len() == 4,
                slot <= 4,
                free_slot_from(self.hw@, 0) == free_slot_from(self.hw@, slot as int),
            decreases 4 - slot,
        {
            slot = slot + 1;
        }
        if slot == 4 {
            return Err(SdkError::Debug(String::from_str("no free debug register")));
        }
        let id = self.next_id;
        self.next_id = self.next_id + 1;
        self.hw.set(slot, Some(HwBp { id, addr, kind, size }));
        Ok(BpId(id))
    }

    /// Clears the breakpoint with handle `id`: a software breakpoint first,
    /// else a hardware slot; fails when no breakpoint has that handle.
    pub fn remove(&mut self, id: BpId) -> (r: Result<Removed, SdkError>)
        requires
            old(self).wf(),
        ensures
            final(self).wf(),
            Self::same_threads(&*final(self), &*old(self)),
            final(self).next_id_view() == old(self).next_id_view(),
            match sw_index_from(old(self).sw_view(), id.0, 0) {
                Some(i) => {
                    &&& r == Ok::<Removed, SdkError>(
                        Removed::Sw { addr: old(self).sw_view()[i].addr, orig: old(self).sw_view()[i].orig },
                    )
                    &&& final(self).sw_view() == old(self).sw_view().remove(i)
                    &&& final(self).hw_view() == old(self).hw_view()
                },
                None => match hw_slot_from(old(self).hw_view(), id.0, 0) {
                    Some(slot) => {
                        &&& r == Ok::<Removed, SdkError>(Removed::Hw { slot: slot as usize })
                        &&& final(self).hw_view() == old(self).hw_view().update(slot, None)
                        &&& final(self).sw_view() == old(self).sw_view()
                    },
                    None => {
                        &&& r matches Err(SdkError::Debug(m)) && m@ == "unknown breakpoint"@
                        &&& Self::same_bps(&*final(self), &*old(self))
                    },
                },
            },
    {
        let mut i: usize = 0;
        while i < self.sw.len()
            invariant
                self.sw@ == old(self).sw@,
                self.hw@ == old(self).hw@,
                self.next_id == old(self).next_id,
                self.pid == old(self).pid,
                self.tids@ == old(self).tids@,
                self.stopped@ == old(self).stopped@,
                self.pending == old(self).pending,
                old(self).wf(),
                i <= self.sw@.len(),
                sw_index_from(self.sw@, id.0, 0) == sw_index_from(self.sw@, id.0, i as int),
            decreases self.sw.len() - i,
        {
            if self.sw[i].id == id.0 {
                let b = self.sw.remove(i);
                proof {
                    assert forall|k: int| 0 <= k < self.sw@.len() implies (#[trigger] self.sw@[k]).id
                        < self.next_id by {
                        if k < i {
                            assert(self.sw@[k] == old(self).sw@[k]);
                        } else {
                            assert(self.sw@[k] == old(self).sw@[k + 1]);
                        }
                    }
                    assert(self.sw@ =~= old(self).sw@.remove(i as int));
                }
                return Ok(Removed::Sw { addr: b.addr, orig: b.orig });
            }
            i = i + 1;
        }
        let mut slot: usize = 0;
        while slot < 4
            invariant
                self.sw@ == old(self).sw@,
                self.hw@ == old(self).hw@,
                self.next_id == old(self).next_id,
                self.pid == old(self).pid,
                self.tids@ == old(self).tids@,
                self.stopped@ == old(self).stopped@,
                self.pending == old(self).pending,
                old(self).wf(),
                self.hw@.len() == 4,
                slot <= 4,
                sw_index_from(old(self).sw@, id.0, 0) is None,
                hw_slot_from(self.hw@, id.0, 0) == hw_slot_from(self.hw@, id.0, slot as int),
            decreases 4 - slot,
        {
            match self.hw[slot] {
                Some(b) => {
                    if b.id == id.0 {
                        self.hw.set(slot, None);
                        return Ok(Removed::Hw { slot });
                    }
                },
                None => {},
            }
            slot = slot + 1;
        }
        Err(SdkError::Debug(String::from_str("unknown breakpoint")))
    }

    /// The DR7 value programming every occupied slot and disabling every
    /// free one.
    pub fn dr7(&self) -> (r: u64)
        requires
            self.wf(),
        ensures
            r == dr7_upto(self.hw_view(), 4),
    {
        let mut v: u64 = 0;
        let mut i: usize = 0;
        while i < 4
            invariant
                self.hw@.len() == 4,
                i <= 4,
                v == dr7_upto(self.hw@, i as int),
            decreases 4 - i,
        {
            match self.hw[i] {
                Some(b) => {
                    v = dr7_set(v, i, b.kind, b.size);
                },
                None => {
                    v = dr7_clear(v, i);
                },
            }
            i = i + 1;
        }
        v
    }

    /// The address programmed into debug register `slot` (0 when free).
    pub fn slot_addr(&self, slot: usize) -> (r: u64)
        requires
            self.wf(),
            slot < 4,
        ensures
            r == (match self.hw_view()[slot as int] {
                Some(b) => b.addr as u64,
                None => 0u64,
            }),
    {
        match self.hw[slot] {
            Some(b) => b.addr as u64,
            None => 0,
        }
    }

    /// Empties the stopped set for a continue: each stopped thread, in
    /// order, with the signal to deliver to it (the held-back one, if it is
    /// that thread's).
    pub fn take_stopped(&mut self) -> (r: Vec<(i32, Option<i32>)>)
        requires
            old(self).wf(),
        ensures
            final(self).wf(),
            Self::same_bps(&*final(self), &*old(self)),
            final(self).pid_view() == old(self).pid_view(),
            final(self).tids_view() == old(self).tids_view(),
            final(self).stopped_view() == Seq::<i32>::empty(),
            r@.len() == old(self).stopped_view().len(),
            forall|i: int|
                0 <= i < r@.len() ==> (#[trigger] r@[i]).0 == old(self).stopped_view()[i] && r@[i].1
                    == (match old(self).pending_view() {
                    Some((t, s)) => if t == old(self).stopped_view()[i] {
                        Some(s)
                    } else {
                        None
                    },
                    None => None,
                }),
            final(self).pending_view() == (match old(self).pending_view() {
                Some((t, s)) => if old(self).stopped_view().contains(t) {
                    None
                } else {
                    Some((t, s))
                },
                None => None,
            }),
    {
        let mut out: Vec<(i32, Option<i32>)> = Vec::new();
        let mut i: usize = 0;
        while i < self.stopped.len()
            invariant
                self.stopped@ == old(self).stopped@,
                distinct(self.stopped@),
                self.pid == old(self).pid,
                self.tids@ == old(self).tids@,
                self.sw@ == old(self).sw@,
                self.hw@ == old(self).hw@,
                self.next_id == old(self).next_id,
                i <= self.stopped@.len(),
                out@.len() == i,
                forall|k: int|
                    0 <= k < i ==> (#[trigger] out@[k]).0 == self.stopped@[k] && out@[k].1 == (match old(
                        self,
                    ).pending {
                        Some((t, s)) => if t == self.stopped@[k] {
                            Some(s)
                        } else {
                            None
                        },
                        None => None,
                    }),
                self.pending == (match old(self).pending {
                    Some((t, s)) => if self.stopped@.take(i as int).contains(t) {
                        None
                    } else {
                        Some((t, s))
                    },
                    None => None,
                }),
            decreases self.stopped.len() - i,
        {
            let t = self.stopped[i];
            let sig = match self.pending {
                Some((pt, s)) => {
                    if pt == t {
                        self.pending = None;
                        Some(s)
                    } else {
                        None
                    }
                },
                None => None,
            };
            proof {
                let pre = self.stopped@.take(i as int);
                let post = self.stopped@.take(i + 1);
                assert(post =~= pre.push(t));
                match old(self).pending {
                    Some((pt, s)) => {
                        if pre.contains(pt) {
                            let k = choose|k: int| 0 <= k < pre.len() && pre[k] == pt;
                            assert(self.stopped@[k] == pt);
                            assert(pt != t);
                        }
                        if post.contains(pt) && !pre.contains(pt) {
                            let k = choose|k: int| 0 <= k < post.len() && post[k] == pt;
                            assert(k == i);
                        }
                        if pt == t {
                            assert(post[i as int] == pt);
                        }
                    },
                    None => {},
                }
            }
            out.push((t, sig));
            i = i + 1;
        }
        assert(self.stopped@.take(self.stopped@.len() as int) =~= self.stopped@);
        self.stopped = Vec::new();
        out
    }

    /// Marks `t` as running (after a single-step request).
    pub fn mark_running(&mut self, t: i32)
        requires
            old(self).wf(),
        ensures
            final(self).wf(),
            Self::same_bps(&*final(self), &*old(self)),
            final(self).pid_view() == old(self).pid_view(),
            final(self).tids_view() == old(self).tids_view(),
            final(self).pending_view() == old(self).pending_view(),
            final(self).stopped_view() == old(self).stopped_view().filter(|x: i32| x != t),
    {
        proof {
            lemma_filter_distinct(self.stopped@, t);
        }
        self.stopped = without(&self.stopped, t);
    }

    /// Forgets thread `t`, which has ended.
    fn forget(&mut self, t: i32)
        requires
            old(self).wf(),
        ensures
            final(self).wf(),
            Self::same_bps(&*final(self), &*old(self)),
            final(self).pid_view() == old(self).pid_view(),
            final(self).pending_view() == old(self).pending_view(),
            final(self).tids_view() == old(self).tids_view().filter(|x: i32| x != t),
            final(self).stopped_view() == old(self).stopped_view().filter(|x: i32| x != t),
    {
        proof {
            lemma_filter_distinct(self.stopped@, t);
        }
        self.tids = without(&self.tids, t);
        self.stopped = without(&self.stopped, t);
    }

    /// Thread `t` exited with status `code`: it is forgotten, and the event
    /// reports the exit.
    pub fn on_exited(&mut self, t: i32, code: i32) -> (e: DebugEvent)
        requires
            old(self).wf(),
        ensures
            final(self).wf(),
            Self::same_bps(&*final(self), &*old(self)),
            final(self).pid_view() == old(self).pid_view(),
            final(self).pending_view() == old(self).pending_view(),
            final(self).tids_view() == old(self).tids_view().filter(|x: i32| x != t),
            final(self).stopped_view() == old(self).stopped_view().filter(|x: i32| x != t),
            e == (DebugEvent { tid: thread_of(t), reason: StopReason::Exited(code) }),
    {
        self.forget(t);
        DebugEvent { tid: ThreadId(t as u32), reason: StopReason::Exited(code) }
    }

    /// Thread `t` was killed by signal `sig`: it is forgotten, and the event
    /// reports the signal.
    pub fn on_signaled(&mut self, t: i32, sig: i32) -> (e: DebugEvent)
        requires
            old(self).wf(),
        ensures
            final(self).wf(),
            Self::same_bps(&*final(self), &*old(self)),
            final(self).pid_view() == old(self).pid_view(),
            final(self).pending_view() == old(self).pending_view(),
            final(self).tids_view() == old(self).tids_view().filter(|x: i32| x != t),
            final(self).stopped_view() == old(self).stopped_view().filter(|x: i32| x != t),
            e == (DebugEvent { tid: thread_of(t), reason: StopReason::Signal(sig) }),
    {
        self.forget(t);
        DebugEvent { tid: ThreadId(t as u32), reason: StopReason::Signal(sig) }
    }

    /// A traced thread cloned thread `new` (0 when its id could not be
    /// read): a new, nonzero id is attached, and the event reports it.
    pub fn on_clone(&mut self, new: i32) -> (e: DebugEvent)
        requires
            old(self).wf(),
        ensures
            final(self).wf(),
            Self::same_bps(&*final(self), &*old(self)),
            final(self).pid_view() == old(self).pid_view(),
            final(self).pending_view() == old(self).pending_view(),
            final(self).stopped_view() == old(self).stopped_view(),
            final(self).tids_view() == (if new != 0 && !old(self).tids_view().contains(new) {
                old(self).tids_view().push(new)
            } else {
                old(self).tids_view()
            }),
            e == (DebugEvent { tid: thread_of(new), reason: StopReason::ThreadCreated(thread_of(new)) }),
    {
        if new != 0 && !holds(&self.tids, new) {
            self.tids.push(new);
        }
        DebugEvent {
            tid: ThreadId(new as u32),
            reason: StopReason::ThreadCreated(ThreadId(new as u32)),
        }
    }

    /// Thread `t` stopped on signal `sig`: it joins the stopped set. A
    /// `SIGTRAP` is left for [`Self::watch_hit`] and [`Self::trap_outcome`]
    /// to attribute (`None`); any other signal is reported, and held back
    /// for redelivery unless it is the `SIGSTOP` a new thread starts with.
    pub fn record_stop(&mut self, t: i32, sig: i32) -> (e: Option<DebugEvent>)
        requires
            old(self).wf(),
        ensures
            final(self).wf(),
            Self::same_bps(&*final(self), &*old(self)),
            final(self).pid_view() == old(self).pid_view(),
            final(self).tids_view() == old(self).tids_view(),
            final(self).stopped_view() == (if old(self).stopped_view().contains(t) {
                old(self).stopped_view()
            } else {
                old(self).stopped_view().push(t)
            }),
            final(self).pending_view() == (if sig != SIGTRAP && sig != SIGSTOP {
                Some((t, sig))
            } else {
                old(self).pending_view()
            }),
            e == (if sig == SIGTRAP {
                None
            } else {
                Some(DebugEvent { tid: thread_of(t), reason: StopReason::Signal(sig) })
            }),
    {
        if !holds(&self.stopped, t) {
            self.stopped.push(t);
        }
        if sig == SIGTRAP {
            return None;
        }
        if sig != SIGSTOP {
            self.pending = Some((t, sig));
        }
        Some(DebugEvent { tid: ThreadId(t as u32), reason: StopReason::Signal(sig) })
    }

    /// Attributes a `SIGTRAP` of thread `t` to a hardware slot: the first of
    /// the four whose bit is set in the debug-status word `dr6` and which
    /// holds a breakpoint.
    pub fn watch_hit(&self, t: i32, dr6: i64) -> (r: Option<(usize, DebugEvent)>)
        requires
            self.wf(),
        ensures
            match dr6_hit_from(self.hw_view(), dr6, 0) {
                Some(slot) => self.hw_view()[slot] matches Some(b) && r == Some(
                    (
                        slot as usize,
                        DebugEvent {
                            tid: thread_of(t),
                            reason: StopReason::Watchpoint { id: BpId(b.id), addr: b.addr },
                        },
                    ),
                ),
                None => r is None,
            },
    {
        let mut slot: usize = 0;
        while slot < 4
            invariant
                self.hw@.len() == 4,
                slot <= 4,
                dr6_hit_from(self.hw@, dr6, 0) == dr6_hit_from(self.hw@, dr6, slot as int),
            decreases 4 - slot,
        {
            if (dr6 & (1i64 << (slot as i64))) != 0 {
                match self.hw[slot] {
                    Some(b) => {
                        return Some(
                            (
                                slot,
                                DebugEvent {
                                    tid: ThreadId(t as u32),
                                    reason: StopReason::Watchpoint { id: BpId(b.id), addr: b.addr },
                                },
                            ),
                        );
                    },
                    None => {},
                }
            }
            slot = slot + 1;
        }
        None
    }

    /// Attributes a `SIGTRAP` of thread `t` that no watchpoint claimed, given
    /// its instruction pointer (`None` when it could not be read): a software
    /// breakpoint when the byte just before `rip` is one, else a single-step.
    pub fn trap_outcome(&self, t: i32, rip: Option<u64>) -> (r: (Option<SwBp>, DebugEvent))
        requires
            self.wf(),
        ensures
            match rip {
                Some(ip) => {
                    let a: usize = if ip as usize == 0 {
                        usize::MAX
                    } else {
                        (ip as usize - 1) as usize
                    };
                    match sw_at_from(self.sw_view(), a, 0) {
                        Some(i) => r == (
                            Some(self.sw_view()[i]),
                            DebugEvent {
                                tid: thread_of(t),
                                reason: StopReason::Breakpoint {
                                    id: BpId(self.sw_view()[i].id),
                                    addr: self.sw_view()[i].addr,
                                },
                            },
                        ),
                        None => r == (
                            None::<SwBp>,
                            DebugEvent { tid: thread_of(t), reason: StopReason::SingleStep },
                        ),
                    }
                },
                None => r == (
                    None::<SwBp>,
                    DebugEvent { tid: thread_of(t), reason: StopReason::SingleStep },
                ),
            },
    {
        let step = DebugEvent { tid: ThreadId(t as u32), reason: StopReason::SingleStep };
        let ip = match rip {
            Some(ip) => ip,
            None => return (None, step),
        };
        let a = (ip as usize).wrapping_sub(1);
        let mut i: usize = 0;
        while i < self.sw.len()
            invariant
                i <= self.sw@.len(),
                rip == Some(ip),
                a == (if ip as usize == 0 {
                    usize::MAX
                } else {
                    (ip as usize - 1) as usize
                }),
                sw_at_from(self.sw@, a, 0) == sw_at_from(self.sw@, a, i as int),
            decreases self.sw.len() - i,
        {
            if self.sw[i].addr == a {
                let b = self.sw[i];
                return (
                    Some(b),
                    DebugEvent {
                        tid: ThreadId(t as u32),
                        reason: StopReason::Breakpoint { id: BpId(b.id), addr: b.addr },
                    },
                );
            }
            i = i + 1;
        }
        (None, step)
    }
}


/// One step of a word-at-a-time transfer at `cur` with `remaining` bytes
/// left: the 8-byte-aligned word holding `cur`, the offset of `cur` in it,
/// and how many bytes of the transfer that word covers.
pub fn word_chunk(cur: usize, remaining: usize) -> (r: (usize, usize, usize))
    requires
        remaining > 0,
    ensures
        r.0 == cur - cur % 8,
        r.1 == cur % 8,
        r.2 == (if 8 - cur % 8 < remaining {
            8 - cur % 8
        } else {
            remaining as int
        }),
        1 <= r.2 <= 8,
{
    let aligned = cur & !7usize;
    assert(aligned == cur - cur % 8) by (bit_vector)
        requires
            aligned == cur & !7usize,
    ;
    let off = cur - aligned;
    let left = 8 - off;
    let n = if left < remaining {
        left
    } else {
        remaining
    };
    (aligned, off, n)
}

/// The 8-byte word `old` with `data` written over it from offset `off`.
pub fn splice_word(old: &[u8], off: usize, data: &[u8]) -> (r: Vec<u8>)
    requires
        old@.len() == 8,
        off + data@.len() <= 8,
    ensures
        r@ == old@.take(off as int) + data@ + old@.skip(off + data@.len()),
{
    let mut out: Vec<u8> = Vec::new();
    let mut i: usize = 0;
    let end = off + data.len();
    while i < 8
        invariant
            old@.len() == 8,
            end == off + data@.len(),
            end <= 8,
            i <= 8,
            out@ == (old@.take(off as int) + data@ + old@.skip(end as int)).take(i as int),
        decreases 8 - i,
    {
        let b = if i < off {
            old[i]
        } else if i < end {
            data[i - off]
        } else {
            old[i]
        };
        out.push(b);
        i = i + 1;
        assert(out@ =~= (old@.take(off as int) + data@ + old@.skip(end as int)).take(i as int));
    }
    assert((old@.take(off as int) + data@ + old@.skip(end as int)).len() == 8);
    out
}

/// Whether slot `i` of `dr7` is enabled with condition field `f` (when the
/// slot holds a breakpoint) or disabled with a zero field (when it is free).
pub open spec fn slot_programmed(dr7: u64, i: int, slot: Option<HwBp>) -> bool {
    match slot {
        Some(b) => (dr7 >> ((i * 2) as u64)) & 1 == 1 && (dr7 >> ((16 + i * 4) as u64)) & 0xF
            == field_spec(b.kind, b.size),
        None => (dr7 >> ((i * 2) as u64)) & 1 == 0 && (dr7 >> ((16 + i * 4) as u64)) & 0xF == 0,
    }
}

proof fn lemma_dr7_upto(hw: Seq<Option<HwBp>>, k: int)
    requires
        0 <= k <= 4,
        hw.len() == 4,
    ensures
        forall|i: int| 0 <= i < k ==> slot_programmed(dr7_upto(hw, k), i, #[trigger] hw[i]),
    decreases k,
{
    if k > 0 {
        lemma_dr7_upto(hw, k - 1);
        let prev = dr7_upto(hw, k - 1);
        let s = (k - 1) as u64;
        match hw[k - 1] {
            Some(b) => {
                lemma_dr7_set_reads_back(prev, s, b.kind, b.size);
                lemma_field_fits(b.kind, b.size);
                assert forall|i: int| 0 <= i < k - 1 implies slot_programmed(
                    dr7_upto(hw, k),
                    i,
                    #[trigger] hw[i],
                ) by {
                    lemma_dr7_set_other_slots(prev, s, i as u64, field_spec(b.kind, b.size));
                }
            },
            None => {
                lemma_dr7_clear_reads_back(prev, s);
                assert forall|i: int| 0 <= i < k - 1 implies slot_programmed(
                    dr7_upto(hw, k),
                    i,
                    #[trigger] hw[i],
                ) by {
                    lemma_dr7_clear_other_slots(prev, s, i as u64);
                }
            },
        }
    }
}

/// The programmed DR7 enables exactly the occupied slots, each with the
/// condition field of its breakpoint, and disables every free slot.
pub proof fn lemma_dr7_matches_slots(s: &PtraceDebugger)
    requires
        s.wf(),
    ensures
        forall|i: int| 0 <= i < 4 ==> slot_programmed(dr7_upto(s.hw_view(), 4), i, #[trigger] s.hw_view()[i]),
{
    lemma_dr7_upto(s.hw_view(), 4);
}

/// A handle handed out next is held by no breakpoint in the session.
pub proof fn lemma_next_handle_fresh(s: &PtraceDebugger)
    requires
        s.wf(),
    ensures
        forall|i: int| 0 <= i < s.sw_view().len() ==> (#[trigger] s.sw_view()[i]).id != s.next_id_view(),
        forall|i: int|
            0 <= i < s.hw_view().len() ==> (#[trigger] s.hw_view()[i] matches Some(b) ==> b.id != s.next_id_view()),
        sw_index_from(s.sw_view(), s.next_id_view(), 0) is None,
        hw_slot_from(s.hw_view(), s.next_id_view(), 0) is None,
{
    lemma_sw_index_absent(s.sw_view(), s.next_id_view(), 0);
    lemma_hw_slot_absent(s.hw_view(), s.next_id_view(), 0);
}

proof fn lemma_sw_index_absent(sw: Seq<SwBp>, id: u64, i: int)
    requires
        0 <= i,
        forall|k: int| 0 <= k < sw.len() ==> (#[trigger] sw[k]).id != id,
    ensures
        sw_index_from(sw, id, i) is None,
    decreases sw.len() - i,
{
    if i < sw.len() {
        lemma_sw_index_absent(sw, id, i + 1);
    }
}

proof fn lemma_hw_slot_absent(hw: Seq<Option<HwBp>>, id: u64, i: int)
    requires
        0 <= i,
        forall|k: int| 0 <= k < hw.len() ==> (#[trigger] hw[k] matches Some(b) ==> b.id != id),
    ensures
        hw_slot_from(hw, id, i) is None,
    decreases hw.len() - i,
{
    if i < hw.len() {
        lemma_hw_slot_absent(hw, id, i + 1);
    }
}

/// Clearing a software breakpoint right after setting it gives back the
/// breakpoint list it was set in: the new handle is found at the end.
pub proof fn lemma_remove_undoes_add_sw(sw: Seq<SwBp>, id: u64, addr: usize, orig: u8)
    requires
        forall|k: int| 0 <= k < sw.len() ==> (#[trigger] sw[k]).id != id,
    ensures
        sw_index_from(sw.push(SwBp { id, addr, orig }), id, 0) == Some(sw.len() as int),
        sw.push(SwBp { id, addr, orig }).remove(sw.len() as int) == sw,
{
    lemma_sw_index_last(sw, SwBp { id, addr, orig }, 0);
    assert(sw.push(SwBp { id, addr, orig }).remove(sw.len() as int) =~= sw);
}

proof fn lemma_sw_index_last(sw: Seq<SwBp>, b: SwBp, i: int)
    requires
        0 <= i <= sw.len(),
        forall|k: int| 0 <= k < sw.len() ==> (#[trigger] sw[k]).id != b.id,
    ensures
        sw_index_from(sw.push(b), b.id, i) == Some(sw.len() as int),
    decreases sw.len() - i,
{
    if i < sw.len() {
        assert(sw.push(b)[i] == sw[i]);
        lemma_sw_index_last(sw, b, i + 1);
    }
}

/// Clearing a hardware breakpoint right after placing it in a free slot
/// frees that slot again, giving back the slot table it was placed in.
pub proof fn lemma_remove_undoes_add_hw(hw: Seq<Option<HwBp>>, slot: int, b: HwBp)
    requires
        0 <= slot < hw.len(),
        hw[slot] is None,
        forall|k: int| 0 <= k < hw.len() ==> (#[trigger] hw[k] matches Some(c) ==> c.id != b.id),
    ensures
        hw_slot_from(hw.update(slot, Some(b)), b.id, 0) == Some(slot),
        hw.update(slot, Some(b)).update(slot, None) == hw,
{
    lemma_hw_slot_placed(hw, slot, b, 0);
    assert(hw.update(slot, Some(b)).update(slot, None) =~= hw);
}

proof fn lemma_hw_slot_placed(hw: Seq<Option<HwBp>>, slot: int, b: HwBp, i: int)
    requires
        0 <= slot < hw.len(),
        0 <= i <= slot,
        forall|k: int| 0 <= k < hw.len() ==> (#[trigger] hw[k] matches Some(c) ==> c.id != b.id),
    ensures
        hw_slot_from(hw.update(slot, Some(b)), b.id, i) == Some(slot),
    decreases slot - i,
{
    if i < slot {
        assert(hw.update(slot, Some(b))[i] == hw[i]);
        lemma_hw_slot_placed(hw, slot, b, i + 1);
    }
}
/// What a wait does when no thread has changed state: once its deadline
/// has passed it ends with the `timeout` error; until then (and always,
/// without a deadline) it polls again.
pub fn idle_outcome(deadline_passed: bool) -> (r: Result<(), SdkError>)
    ensures
        deadline_passed ==> (r matches Err(SdkError::Debug(m)) && m@ == "timeout"@),
        !deadline_passed ==> r is Ok,
{
    if deadline_passed {
        Err(SdkError::Debug(String::from_str("timeout")))
    } else {
        Ok(())
    }
}

} // verus!
