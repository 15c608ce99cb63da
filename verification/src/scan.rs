//! Value-scan vocabulary: the slot types a scan interprets memory as, the
//! scan configuration, and the result set (surviving addresses plus a
//! snapshot of their values).

use vstd::prelude::*;
use vstd::slice::slice_subrange;
use vstd::string::*;
use crate::compare::{passes, passes_spec, relative_spec, Criterion, Needle};
use crate::error::SdkError;
use crate::types::FieldKind;
use crate::process::MemoryRegion;
use crate::table::{fresh_entry, CheatEntry};
use crate::text::{hex_upper, push_hex_upper};

verus! {

/// The interpretation applied to each candidate slot during a scan.
#[derive(Debug, Clone, Copy, PartialEq, Eq, Structural)]
pub enum ScanType {
    /// Signed 8-bit.
    I8,
    /// Unsigned 8-bit.
    U8,
    /// Signed 16-bit.
    I16,
    /// Unsigned 16-bit.
    U16,
    /// Signed 32-bit.
    I32,
    /// Unsigned 32-bit.
    U32,
    /// Signed 64-bit.
    I64,
    /// Unsigned 64-bit.
    U64,
    /// 32-bit float.
    F32,
    /// 64-bit float.
    F64,
    /// Raw byte sequence (array-of-bytes).
    Bytes,
}

impl ScanType {
    /// The fixed slot size in bytes (0 for the variable-length `Bytes`).
    pub open spec fn slot_size(self) -> nat {
        match self {
            ScanType::I8 | ScanType::U8 => 1,
            ScanType::I16 | ScanType::U16 => 2,
            ScanType::I32 | ScanType::U32 | ScanType::F32 => 4,
            ScanType::I64 | ScanType::U64 | ScanType::F64 => 8,
            ScanType::Bytes => 0,
        }
    }

    /// The field kind a scalar scan type corresponds to.
    pub open spec fn field_kind_of(self) -> Option<FieldKind> {
        match self {
            ScanType::I8 => Some(FieldKind::I8),
            ScanType::U8 => Some(FieldKind::U8),
            ScanType::I16 => Some(FieldKind::I16),
            ScanType::U16 => Some(FieldKind::U16),
            ScanType::I32 => Some(FieldKind::I32),
            ScanType::U32 => Some(FieldKind::U32),
            ScanType::I64 => Some(FieldKind::I64),
            ScanType::U64 => Some(FieldKind::U64),
            ScanType::F32 => Some(FieldKind::F32),
            ScanType::F64 => Some(FieldKind::F64),
            ScanType::Bytes => None,
        }
    }

    /// The fixed slot size in bytes (0 for the variable-length `Bytes`).
    pub fn size(self) -> (r: usize)
        ensures
            r == self.slot_size(),
    {
        match self {
            ScanType::I8 | ScanType::U8 => 1,
            ScanType::I16 | ScanType::U16 => 2,
            ScanType::I32 | ScanType::U32 | ScanType::F32 => 4,
            ScanType::I64 | ScanType::U64 | ScanType::F64 => 8,
            ScanType::Bytes => 0,
        }
    }

    /// Whether this is a floating-point type.
    pub fn is_float(self) -> (r: bool)
        ensures
            r == (self == ScanType::F32 || self == ScanType::F64),
    {
        match self {
            ScanType::F32 | ScanType::F64 => true,
            _ => false,
        }
    }

    /// The field kind a found address of this type maps to; `None` for
    /// `Bytes`.
    pub fn to_field_kind(self) -> (r: Option<FieldKind>)
        ensures
            r == self.field_kind_of(),
    {
        match self {
            ScanType::I8 => Some(FieldKind::I8),
            ScanType::U8 => Some(FieldKind::U8),
            ScanType::I16 => Some(FieldKind::I16),
            ScanType::U16 => Some(FieldKind::U16),
            ScanType::I32 => Some(FieldKind::I32),
            ScanType::U32 => Some(FieldKind::U32),
            ScanType::I64 => Some(FieldKind::I64),
            ScanType::U64 => Some(FieldKind::U64),
            ScanType::F32 => Some(FieldKind::F32),
            ScanType::F64 => Some(FieldKind::F64),
            ScanType::Bytes => None,
        }
    }

    /// The scan type corresponding to a scalar field kind, if any.
    pub fn from_field_kind(kind: FieldKind) -> (r: Option<ScanType>)
        ensures
            match r {
                Some(t) => t.field_kind_of() == Some(kind),
                None => forall|t: ScanType| t.field_kind_of() != Some(kind),
            },
    {
        match kind {
            FieldKind::I8 => Some(ScanType::I8),
            FieldKind::U8 => Some(ScanType::U8),
            FieldKind::I16 => Some(ScanType::I16),
            FieldKind::U16 => Some(ScanType::U16),
            FieldKind::I32 => Some(ScanType::I32),
            FieldKind::U32 => Some(ScanType::U32),
            FieldKind::I64 => Some(ScanType::I64),
            FieldKind::U64 => Some(ScanType::U64),
            FieldKind::F32 => Some(ScanType::F32),
            FieldKind::F64 => Some(ScanType::F64),
            _ => None,
        }
    }
}

/// Converting a scan type to a field kind and back gives the same scan type.
pub proof fn lemma_scan_type_field_kind_roundtrip(t: ScanType)
    ensures
        t.field_kind_of() matches Some(k) ==> (forall|u: ScanType| u.field_kind_of() == Some(k) ==> u == t),
{
}

/// Scan configuration: value type, address alignment, and region filtering.
#[derive(Debug, Clone)]
pub struct ScanConfig {
    /// The value type to interpret slots as.
    pub value_type: ScanType,
    /// Address alignment for candidate slots.
    pub alignment: usize,
    /// Restrict a first scan to writable regions.
    pub writable_only: bool,
}

impl ScanConfig {
    /// A config for `value_type` with natural alignment (the type size, at
    /// least 1) and writable-only scanning.
    pub fn new(value_type: ScanType) -> (c: Self)
        ensures
            c.value_type == value_type,
            c.alignment == (if value_type.slot_size() >= 1 { value_type.slot_size() } else { 1 }),
            c.writable_only,
    {
        let s = value_type.size();
        ScanConfig { value_type, alignment: if s >= 1 { s } else { 1 }, writable_only: true }
    }
}

/// The surviving addresses of a scan, plus a snapshot of their values.
#[derive(Debug)]
pub struct ScanResults {
    ty: ScanType,
    value_size: usize,
    addrs: Vec<usize>,
    snapshot: Vec<u8>,
}

impl ScanResults {
    /// The value type these results were scanned as.
    pub closed spec fn scan_type(&self) -> ScanType {
        self.ty
    }

    /// The byte width of each snapshot value.
    pub closed spec fn width(&self) -> nat {
        self.value_size as nat
    }

    /// The surviving addresses, in scan order.
    pub closed spec fn addrs_view(&self) -> Seq<usize> {
        self.addrs@
    }

    /// The snapshot bytes: `width()` bytes per address, in the same order.
    pub closed spec fn snapshot_view(&self) -> Seq<u8> {
        self.snapshot@
    }

    /// The snapshot holds exactly one value per address.
    #[verifier::type_invariant]
    closed spec fn wf(&self) -> bool {
        self.snapshot@.len() == self.addrs@.len() * self.value_size
    }

    /// Builds a result set; `None` unless `snapshot` holds exactly
    /// `value_size` bytes per address.
    pub fn from_parts(ty: ScanType, value_size: usize, addrs: Vec<usize>, snapshot: Vec<u8>) -> (r:
        Option<Self>)
        ensures
            r is Some <==> snapshot@.len() == addrs@.len() * value_size,
            r matches Some(res) ==> {
                &&& res.scan_type() == ty
                &&& res.width() == value_size
                &&& res.addrs_view() == addrs@
                &&& res.snapshot_view() == snapshot@
            },
    {
        let n = addrs.len();
        let sl = snapshot.len();
        let ok = match n.checked_mul(value_size) {
            Some(total) => total == snapshot.len(),
            None => false,
        };
        if ok {
            Some(ScanResults { ty, value_size, addrs, snapshot })
        } else {
            proof {
                if snapshot@.len() == addrs@.len() * value_size {
                    assert(addrs@.len() * value_size <= usize::MAX);
                }
            }
            None
        }
    }

    /// The byte width of each snapshot value.
    pub fn value_size(&self) -> (r: usize)
        ensures
            r == self.width(),
    {
        self.value_size
    }

    /// The value type these results were scanned as.
    pub fn value_type(&self) -> (r: ScanType)
        ensures
            r == self.scan_type(),
    {
        self.ty
    }

    /// The number of surviving addresses.
    pub fn len(&self) -> (r: usize)
        ensures
            r == self.addrs_view().len(),
    {
        self.addrs.len()
    }

    /// Whether no addresses survived.
    pub fn is_empty(&self) -> (r: bool)
        ensures
            r == (self.addrs_view().len() == 0),
    {
        self.addrs.len() == 0
    }

    /// The surviving addresses.
    pub fn addresses(&self) -> (r: &[usize])
        ensures
            r@ == self.addrs_view(),
    {
        self.addrs.as_slice()
    }

    /// The snapshot value bytes of `addresses()[i]`, or `None` when that
    /// range lies outside the snapshot.
    pub fn value_bytes(&self, i: usize) -> (r: Option<&[u8]>)
        requires
            (i + 1) * self.width() <= usize::MAX,
        ensures
            r is Some <==> (i + 1) * self.width() <= self.snapshot_view().len(),
            self.width() > 0 ==> (r is Some <==> i < self.addrs_view().len()),
            r matches Some(b) ==> b@.len() == self.width(),
            r matches Some(b) ==> b@ == self.snapshot_view().subrange(
                i * self.width(),
                (i + 1) * self.width(),
            ),
    {
        proof {
            use_type_invariant(self);
            assert(i * self.width() <= (i + 1) * self.width()) by (nonlinear_arith);
            if self.width() > 0 {
                if i < self.addrs@.len() {
                    assert((i + 1) * self.width() <= self.addrs@.len() * self.width()) by (nonlinear_arith)
                        requires i + 1 <= self.addrs@.len();
                } else {
                    assert((i + 1) * self.width() > self.addrs@.len() * self.width()) by (nonlinear_arith)
                        requires i + 1 > self.addrs@.len(), self.width() > 0;
                }
            }
        }
        assert(i * self.width() + self.width() == (i + 1) * self.width()) by (nonlinear_arith);
        let lo = i * self.value_size;
        let hi = lo + self.value_size;
        if hi <= self.snapshot.len() {
            Some(slice_subrange(self.snapshot.as_slice(), lo, hi))
        } else {
            None
        }
    }
}


/// The span of memory read per step of a first scan; a slot is taken from
/// the step whose span holds its start.
pub const SCAN_CHUNK: usize = 0x1_0000;

/// Whether a first scan sweeps `region`: it must be readable, and writable
/// too when the scan is limited to writable regions.
pub fn sweeps_region(region: &MemoryRegion, writable_only: bool) -> (r: bool)
    ensures
        r == (region.prot.read && (!writable_only || region.prot.write)),
{
    region.prot.read && (!writable_only || region.prot.write)
}

/// One step of a first scan's sweep over a region ending at `to`, from
/// `base`, for slots `vs` bytes wide at alignment `align`: `None` when the
/// sweep of the region is over (`base` reached `to`, or lies too close to
/// the top of the address space for another step); otherwise how many
/// bytes to read at `base` (a step's span plus one slot's width, cut at
/// `to`) and where the next step starts.
pub fn sweep_step(base: usize, to: usize, align: usize, vs: usize) -> (r: Option<(usize, usize)>)
    requires
        align <= usize::MAX - SCAN_CHUNK,
        vs <= usize::MAX - SCAN_CHUNK,
    ensures
        r is None <==> (base >= to || base > usize::MAX - SCAN_CHUNK - align),
        r matches Some((len, next)) ==> {
            &&& len == (if SCAN_CHUNK + vs < to - base { SCAN_CHUNK + vs } else { to - base })
            &&& next == base + SCAN_CHUNK
            &&& base + SCAN_CHUNK + align <= usize::MAX
        },
{
    if base >= to || base > usize::MAX - SCAN_CHUNK - align {
        return None;
    }
    let span = SCAN_CHUNK + vs;
    let len = if span < to - base { span } else { to - base };
    Some((len, base + SCAN_CHUNK))
}

/// The byte width of each candidate slot for a scan of `ty` under `c`:
/// the type's size, or the needle's length for a byte-array scan (which
/// must be an exact match on a non-empty needle).
pub open spec fn width_spec(ty: ScanType, c: Criterion) -> Result<nat, Seq<char>> {
    if ty == ScanType::Bytes {
        match c {
            Criterion::Exact(Needle::Bytes(n)) => if n@.len() > 0 {
                Ok(n@.len())
            } else {
                Err("byte-array scans require Exact(ScanValue::Bytes(..))"@)
            },
            _ => Err("byte-array scans require Exact(ScanValue::Bytes(..))"@),
        }
    } else {
        Ok(ty.slot_size())
    }
}

/// What a first scan of `ty` under `c` is refused with, or its slot width:
/// a relative criterion has nothing to compare with yet.
pub open spec fn first_scan_spec(ty: ScanType, c: Criterion) -> Result<nat, Seq<char>> {
    if relative_spec(c) {
        Err("relative comparison requires a previous scan (use next_scan)"@)
    } else {
        width_spec(ty, c)
    }
}

/// Checks a first scan of `ty` under `c` and gives its slot width.
pub fn first_scan_width(ty: ScanType, c: &Criterion) -> (r: Result<usize, SdkError>)
    ensures
        match (r, first_scan_spec(ty, *c)) {
            (Ok(w), Ok(ws)) => w == ws,
            (Err(e), Err(m)) => e matches SdkError::Scan(s) && s@ == m,
            _ => false,
        },
{
    if c.is_relative() {
        return Err(SdkError::Scan(String::from_str("relative comparison requires a previous scan (use next_scan)")));
    }
    if ty == ScanType::Bytes {
        match c {
            Criterion::Exact(Needle::Bytes(n)) => {
                if n.len() > 0 {
                    return Ok(n.len());
                }
            },
            _ => {},
        }
        return Err(SdkError::Scan(String::from_str("byte-array scans require Exact(ScanValue::Bytes(..))")));
    }
    Ok(ty.size())
}

/// The smallest multiple of `a` that is at least `x`.
pub open spec fn next_multiple(x: int, a: int) -> int {
    if x % a == 0 {
        x
    } else {
        x + (a - x % a)
    }
}

/// The aligned slot addresses from `addr` on, below `limit`, whose
/// `vs`-byte slot lies within the `buf_len` bytes read at `base`.
pub open spec fn window_from(base: int, limit: int, align: int, vs: int, buf_len: int, addr: int) -> Seq<int>
    decreases (if addr < limit { limit - addr } else { 0 }),
{
    if align < 1 || addr >= limit {
        seq![]
    } else {
        (if addr - base + vs <= buf_len {
            seq![addr]
        } else {
            seq![]
        }) + window_from(base, limit, align, vs, buf_len, addr + align)
    }
}

/// The candidate slots of one first-scan step at `base` in a region ending
/// at `region_to`: aligned addresses from `base` up to the end of the step's
/// span or the region, whichever is first.
pub open spec fn window_spec(base: int, region_to: int, align: int, vs: int, buf_len: int) -> Seq<int> {
    let limit = if base + SCAN_CHUNK < region_to {
        base + SCAN_CHUNK
    } else {
        region_to
    };
    window_from(base, limit, align, vs, buf_len, next_multiple(base, align))
}

/// The candidate slot addresses of one first-scan step: `buf_len` bytes were
/// read at `base`, in a region ending at `region_to`.
pub fn window_candidates(base: usize, region_to: usize, align: usize, vs: usize, buf_len: usize) -> (v: Vec<usize>)
    requires
        align >= 1,
        base + SCAN_CHUNK + align <= usize::MAX,
    ensures
        v@.map_values(|a: usize| a as int) == window_spec(base as int, region_to as int, align as int, vs as int, buf_len as int),
{
    let rem = base % align;
    let first = if rem == 0 { base } else { base + (align - rem) };
    let limit = if base + SCAN_CHUNK < region_to { base + SCAN_CHUNK } else { region_to };
    let mut out: Vec<usize> = Vec::new();
    let mut addr = first;
    let ghost all = window_spec(base as int, region_to as int, align as int, vs as int, buf_len as int);
    assert(all =~= out@.map_values(|a: usize| a as int) + window_from(base as int, limit as int, align as int, vs as int, buf_len as int, addr as int));
    while addr < limit
        invariant
            align >= 1,
            base + SCAN_CHUNK + align <= usize::MAX,
            limit <= base + SCAN_CHUNK,
            base <= addr,
            all == out@.map_values(|a: usize| a as int) + window_from(
                base as int,
                limit as int,
                align as int,
                vs as int,
                buf_len as int,
                addr as int,
            ),
        decreases (if addr < limit { limit - addr } else { 0 }),
    {
        let ghost before = out@;
        let off = addr - base;
        if vs <= buf_len && off <= buf_len - vs {
            out.push(addr);
        }
        assert(out@.map_values(|a: usize| a as int) =~= before.map_values(|a: usize| a as int) + (if addr - base + vs <= buf_len {
            seq![addr as int]
        } else {
            seq![]
        }));
        addr = addr + align;
    }
    assert(window_from(base as int, limit as int, align as int, vs as int, buf_len as int, addr as int) =~= seq![]);
    out
}

/// The `vs` bytes of the slot at `a`, within bytes read at `base`.
pub open spec fn slot_at(buf: Seq<u8>, base: int, vs: int, a: int) -> Seq<u8> {
    buf.subrange(a - base, a - base + vs)
}

/// The candidates `cands` that pass `c` on their slot, in order.
pub open spec fn window_hits(cands: Seq<int>, buf: Seq<u8>, base: int, vs: int, ty: ScanType, c: Criterion) -> Seq<int>
    decreases cands.len(),
{
    if cands.len() == 0 {
        seq![]
    } else {
        let rest = window_hits(cands.drop_last(), buf, base, vs, ty, c);
        if passes_spec(ty, c, None, slot_at(buf, base, vs, cands.last())) {
            rest.push(cands.last())
        } else {
            rest
        }
    }
}

/// The slots of `addrs`, one after another.
pub open spec fn slots_concat(addrs: Seq<int>, buf: Seq<u8>, base: int, vs: int) -> Seq<u8>
    decreases addrs.len(),
{
    if addrs.len() == 0 {
        seq![]
    } else {
        slots_concat(addrs.drop_last(), buf, base, vs) + slot_at(buf, base, vs, addrs.last())
    }
}

/// One first-scan step for an integer or byte-array type: of the candidate
/// slots of the `buf` bytes read at `base` (in a region ending at
/// `region_to`), the addresses that pass `c`, and their slots' bytes one
/// after another.
pub fn scan_window(
    buf: &[u8],
    base: usize,
    region_to: usize,
    align: usize,
    vs: usize,
    ty: ScanType,
    c: &Criterion,
) -> (r: (Vec<usize>, Vec<u8>))
    requires
        align >= 1,
        base + SCAN_CHUNK + align <= usize::MAX,
        !(ty == ScanType::F32 || ty == ScanType::F64),
    ensures
        r.0@.map_values(|a: usize| a as int) == window_hits(
            window_spec(base as int, region_to as int, align as int, vs as int, buf@.len() as int),
            buf@,
            base as int,
            vs as int,
            ty,
            *c,
        ),
        r.1@ == slots_concat(r.0@.map_values(|a: usize| a as int), buf@, base as int, vs as int),
{
    let cands = window_candidates(base, region_to, align, vs, buf.len());
    let ghost cs = cands@.map_values(|a: usize| a as int);
    proof {
        let limit: int = if base + SCAN_CHUNK < region_to { base + SCAN_CHUNK } else { region_to as int };
        lemma_window_bounds(base as int, limit, align as int, vs as int, buf@.len() as int, next_multiple(base as int, align as int));
    }
    let mut addrs: Vec<usize> = Vec::new();
    let mut snap: Vec<u8> = Vec::new();
    let mut i: usize = 0;
    while i < cands.len()
        invariant
            i <= cands@.len(),
            cs == cands@.map_values(|a: usize| a as int),
            forall|k: int| 0 <= k < cs.len() ==> base <= #[trigger] cs[k] && cs[k] - base + vs <= buf@.len(),
            !(ty == ScanType::F32 || ty == ScanType::F64),
            addrs@.map_values(|a: usize| a as int) == window_hits(cs.take(i as int), buf@, base as int, vs as int, ty, *c),
            snap@ == slots_concat(addrs@.map_values(|a: usize| a as int), buf@, base as int, vs as int),
        decreases cands.len() - i,
    {
        let a = cands[i];
        assert(cs[i as int] == a as int);
        let off = a - base;
        assert(off + vs <= buf.len());
        let slot = slice_subrange(buf, off, off + vs);
        let ghost pre = addrs@.map_values(|x: usize| x as int);
        assert(cs.take(i + 1).drop_last() =~= cs.take(i as int));
        if passes(ty, c, None, slot) {
            addrs.push(a);
            let mut j: usize = 0;
            let ghost snap0 = snap@;
            while j < vs
                invariant
                    j <= vs,
                    off + vs <= buf.len(),
                    snap@ == snap0 + buf@.subrange(off as int, off + j),
                decreases vs - j,
            {
                snap.push(buf[off + j]);
                j = j + 1;
                assert(snap@ =~= snap0 + buf@.subrange(off as int, off + j));
            }
            assert(addrs@.map_values(|x: usize| x as int) =~= pre.push(a as int));
            assert(addrs@.map_values(|x: usize| x as int).drop_last() =~= pre);
        }
        i = i + 1;
    }
    assert(cs.take(cs.len() as int) =~= cs);
    (addrs, snap)
}

proof fn lemma_window_bounds(base: int, limit: int, align: int, vs: int, buf_len: int, addr: int)
    requires
        base <= addr,
    ensures
        forall|k: int| 0 <= k < window_from(base, limit, align, vs, buf_len, addr).len() ==> base
            <= #[trigger] window_from(base, limit, align, vs, buf_len, addr)[k] && window_from(
            base,
            limit,
            align,
            vs,
            buf_len,
            addr,
        )[k] - base + vs <= buf_len,
    decreases (if addr < limit { limit - addr } else { 0 }),
{
    if align >= 1 && addr < limit {
        lemma_window_bounds(base, limit, align, vs, buf_len, addr + align);
        let w = window_from(base, limit, align, vs, buf_len, addr);
        let head: Seq<int> = if addr - base + vs <= buf_len {
            seq![addr]
        } else {
            seq![]
        };
        let rest = window_from(base, limit, align, vs, buf_len, addr + align);
        assert(w == head + rest);
        assert forall|k: int| 0 <= k < w.len() implies base <= #[trigger] w[k] && w[k] - base + vs
            <= buf_len by {
            if k < head.len() {
                assert(w[k] == addr);
            } else {
                assert(w[k] == rest[k - head.len()]);
            }
        }
    }
}

/// The addresses of `addrs` whose flag in `keep` is set, among the first `n`.
pub open spec fn kept_addrs(addrs: Seq<usize>, keep: Seq<bool>, n: int) -> Seq<usize>
    decreases n,
{
    if n <= 0 {
        seq![]
    } else {
        kept_addrs(addrs, keep, n - 1) + (if keep[n - 1] {
            seq![addrs[n - 1]]
        } else {
            seq![]
        })
    }
}

/// The `w`-byte values of `vals` whose flag in `keep` is set, among the
/// first `n`, one after another.
pub open spec fn kept_values(vals: Seq<u8>, keep: Seq<bool>, w: int, n: int) -> Seq<u8>
    decreases n,
{
    if n <= 0 {
        seq![]
    } else {
        kept_values(vals, keep, w, n - 1) + (if keep[n - 1] {
            vals.subrange((n - 1) * w, n * w)
        } else {
            seq![]
        })
    }
}

impl ScanResults {
    /// The next result set after a rescan: the candidates whose flag in
    /// `keep` is set, each with its freshly read value from `fresh` (one
    /// value per candidate, in order).
    pub fn keep_where(&self, fresh: &[u8], keep: &[bool]) -> (r: ScanResults)
        requires
            fresh@.len() == self.addrs_view().len() * self.width(),
            keep@.len() == self.addrs_view().len(),
        ensures
            r.scan_type() == self.scan_type(),
            r.width() == self.width(),
            r.addrs_view() == kept_addrs(self.addrs_view(), keep@, keep@.len() as int),
            r.snapshot_view() == kept_values(fresh@, keep@, self.width() as int, keep@.len() as int),
    {
        let n = self.addrs.len();
        let w = self.value_size;
        let mut addrs: Vec<usize> = Vec::new();
        let mut snap: Vec<u8> = Vec::new();
        let mut i: usize = 0;
        let mut off: usize = 0;
        while i < n
            invariant
                n == self.addrs@.len(),
                w == self.value_size,
                keep@.len() == n,
                fresh@.len() == n * w,
                i <= n,
                off == i * w,
                addrs@ == kept_addrs(self.addrs@, keep@, i as int),
                snap@ == kept_values(fresh@, keep@, w as int, i as int),
                snap@.len() == addrs@.len() * w,
            decreases n - i,
        {
            proof {
                assert((i + 1) * w == i * w + w) by (nonlinear_arith);
                assert((i + 1) * w <= n * w) by (nonlinear_arith)
                    requires
                        i < n,
                ;
            }
            assert(off + w <= fresh.len());
            if keep[i] {
                addrs.push(self.addrs[i]);
                let mut j: usize = 0;
                let ghost snap0 = snap@;
                while j < w
                    invariant
                        j <= w,
                        off + w <= fresh.len(),
                        snap@ == snap0 + fresh@.subrange(off as int, off + j),
                    decreases w - j,
                {
                    snap.push(fresh[off + j]);
                    j = j + 1;
                    assert(snap@ =~= snap0 + fresh@.subrange(off as int, off + j));
                }
                proof {
                    assert((addrs@.len() - 1) * w + w == addrs@.len() * w) by (nonlinear_arith);
                }
            }
            off = off + w;
            i = i + 1;
        }
        proof {
            assert(snap@.len() == addrs@.len() * w);
        }
        ScanResults { ty: self.ty, value_size: w, addrs, snapshot: snap }
    }

    /// A rescan of these candidates under `c` for an integer or byte-array
    /// type: `fresh` holds each candidate's freshly read value, `readable`
    /// whether its address is still readable. A candidate survives when it
    /// is readable and its fresh value passes `c` against its snapshot value.
    pub fn refine(&self, fresh: &[u8], readable: &[bool], c: &Criterion) -> (r: ScanResults)
        requires
            fresh@.len() == self.addrs_view().len() * self.width(),
            readable@.len() == self.addrs_view().len(),
            !(self.scan_type() == ScanType::F32 || self.scan_type() == ScanType::F64),
        ensures
            r.scan_type() == self.scan_type(),
            r.width() == self.width(),
            exists|keep: Seq<bool>| {
                &&& keep.len() == readable@.len()
                &&& forall|i: int| 0 <= i < keep.len() ==> #[trigger] keep[i] == (readable@[i] && passes_spec(
                    self.scan_type(),
                    *c,
                    Some(self.snapshot_view().subrange(i * self.width(), (i + 1) * self.width())),
                    fresh@.subrange(i * self.width(), (i + 1) * self.width()),
                ))
                &&& r.addrs_view() == kept_addrs(self.addrs_view(), keep, keep.len() as int)
                &&& r.snapshot_view() == kept_values(fresh@, keep, self.width() as int, keep.len() as int)
            },
    {
        proof {
            use_type_invariant(self);
        }
        let n = self.addrs.len();
        let w = self.value_size;
        let mut keep: Vec<bool> = Vec::new();
        let mut i: usize = 0;
        let mut off: usize = 0;
        while i < n
            invariant
                n == self.addrs@.len(),
                w == self.value_size,
                readable@.len() == n,
                fresh@.len() == n * w,
                self.snapshot@.len() == n * w,
                !(self.ty == ScanType::F32 || self.ty == ScanType::F64),
                i <= n,
                off == i * w,
                keep@.len() == i,
                forall|k: int| 0 <= k < i ==> #[trigger] keep@[k] == (readable@[k] && passes_spec(
                    self.ty,
                    *c,
                    Some(self.snapshot@.subrange(k * w, (k + 1) * w)),
                    fresh@.subrange(k * w, (k + 1) * w),
                )),
            decreases n - i,
        {
            proof {
                assert((i + 1) * w == i * w + w) by (nonlinear_arith);
                assert((i + 1) * w <= n * w) by (nonlinear_arith)
                    requires
                        i < n,
                ;
            }
            assert(off + w <= fresh.len());
            let old_v = slice_subrange(self.snapshot.as_slice(), off, off + w);
            let new_v = slice_subrange(fresh, off, off + w);
            let k = readable[i] && passes(self.ty, c, Some(old_v), new_v);
            keep.push(k);
            off = off + w;
            i = i + 1;
        }
        self.keep_where(fresh, keep.as_slice())
    }
}

/// A rescan never adds a candidate: every kept address was a candidate,
/// and no more addresses are kept than there were.
pub proof fn lemma_kept_subset(addrs: Seq<usize>, keep: Seq<bool>, n: int)
    requires
        0 <= n <= addrs.len(),
        n <= keep.len(),
    ensures
        kept_addrs(addrs, keep, n).len() <= n,
        forall|a: usize| kept_addrs(addrs, keep, n).contains(a) ==> addrs.take(n).contains(a),
    decreases n,
{
    if n > 0 {
        lemma_kept_subset(addrs, keep, n - 1);
        let prev = kept_addrs(addrs, keep, n - 1);
        assert forall|a: usize| kept_addrs(addrs, keep, n).contains(a) implies addrs.take(n).contains(a) by {
            let cur = kept_addrs(addrs, keep, n);
            let k = choose|k: int| 0 <= k < cur.len() && #[trigger] cur[k] == a;
            if k < prev.len() {
                assert(prev[k] == a);
                assert(prev.contains(a));
                let t = addrs.take(n - 1);
                let j = choose|j: int| 0 <= j < t.len() && #[trigger] t[j] == a;
                assert(addrs.take(n)[j] == a);
            } else {
                assert(addrs.take(n)[n - 1] == a);
            }
        }
    }
}
/// An address written as an expression: `0x` and upper-case hex digits.
pub open spec fn addr_text(a: usize) -> Seq<char> {
    "0x"@ + hex_upper(a as nat)
}

/// Message: a result index past the surviving addresses.
pub open spec fn msg_result_index() -> Seq<char> {
    "index out of range"@
}

/// Message: a byte-array result, which has no field kind.
pub open spec fn msg_untyped() -> Seq<char> {
    "byte-array scans can't be added as a typed entry"@
}

fn addr_string(a: usize) -> (s: String)
    ensures
        s@ == addr_text(a),
{
    let mut s = String::from_str("0x");
    push_hex_upper(&mut s, a as u128);
    s
}

impl ScanResults {
    /// A cheat-table entry for surviving address `index`, typed by the
    /// scan's field kind and described by `description`, or by its address
    /// when that is empty. Fails on an index past the results, then on a
    /// byte-array scan.
    pub fn table_entry(&self, index: usize, description: &str) -> (r: Result<CheatEntry, String>)
        ensures
            index >= self.addrs_view().len() ==> (r matches Err(m) && m@ == msg_result_index()),
            index < self.addrs_view().len() ==> ({
                let a = self.addrs_view()[index as int];
                match self.scan_type().field_kind_of() {
                    None => r matches Err(m) && m@ == msg_untyped(),
                    Some(k) => r matches Ok(e) && fresh_entry(
                        e,
                        if description@.len() == 0 { addr_text(a) } else { description@ },
                        addr_text(a),
                        k,
                    ),
                }
            }),
    {
        if index >= self.addrs.len() {
            return Err(String::from_str("index out of range"));
        }
        let a = self.addrs[index];
        let k = match self.ty.to_field_kind() {
            None => return Err(String::from_str("byte-array scans can't be added as a typed entry")),
            Some(k) => k,
        };
        let address = addr_string(a);
        if description.unicode_len() == 0 {
            Ok(CheatEntry::new(address.as_str(), address.as_str(), k))
        } else {
            Ok(CheatEntry::new(description, address.as_str(), k))
        }
    }
}

} // verus!
