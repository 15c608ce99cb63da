//! The comparison predicates of a value scan over the integer and byte-array
//! slot types: how a slot's bytes read as a number, and which candidates a
//! criterion keeps.

use vstd::prelude::*;
use crate::scan::ScanType;

verus! {

/// A value a scan compares against: an integer (for the integer slot types)
/// or a byte string (for byte-array scans).
#[derive(Debug, Clone, PartialEq)]
pub enum Needle {
    /// An integer value.
    Int(i128),
    /// A byte string.
    Bytes(Vec<u8>),
}

/// The test a scan applies to each candidate. The relative tests compare a
/// slot's fresh value with its value in the previous scan's snapshot.
#[derive(Debug, Clone, PartialEq)]
pub enum Criterion {
    /// Equal to the value.
    Exact(Needle),
    /// Anything (first-scan "unknown initial value").
    Unknown,
    /// Within the inclusive range.
    Between(Needle, Needle),
    /// Greater than the value.
    Greater(Needle),
    /// Less than the value.
    Less(Needle),
    /// Greater than before.
    Increased,
    /// Less than before.
    Decreased,
    /// Different from before.
    Changed,
    /// The same as before.
    Unchanged,
    /// Exactly this much more than before.
    IncreasedBy(Needle),
    /// Exactly this much less than before.
    DecreasedBy(Needle),
}

/// Whether a criterion compares with a previous snapshot.
pub open spec fn relative_spec(c: Criterion) -> bool {
    match c {
        Criterion::Increased | Criterion::Decreased | Criterion::Changed | Criterion::Unchanged
        | Criterion::IncreasedBy(_) | Criterion::DecreasedBy(_) => true,
        _ => false,
    }
}

impl Criterion {
    /// Whether this criterion needs a previous snapshot.
    pub fn is_relative(&self) -> (r: bool)
        ensures
            r == relative_spec(*self),
    {
        match self {
            Criterion::Increased | Criterion::Decreased | Criterion::Changed
            | Criterion::Unchanged | Criterion::IncreasedBy(_) | Criterion::DecreasedBy(_) => true,
            _ => false,
        }
    }
}

/// The unsigned little-endian value of `b`.
pub open spec fn le_nat(b: Seq<u8>) -> nat
    decreases b.len(),
{
    if b.len() == 0 {
        0
    } else {
        (b[0] as nat) + 256 * le_nat(b.drop_first())
    }
}

/// `256` to the power `k`.
pub open spec fn byte_range(k: nat) -> nat
    decreases k,
{
    if k == 0 {
        1
    } else {
        256 * byte_range((k - 1) as nat)
    }
}

/// Whether a slot type is a signed integer type.
pub open spec fn is_signed(ty: ScanType) -> bool {
    ty == ScanType::I8 || ty == ScanType::I16 || ty == ScanType::I32 || ty == ScanType::I64
}

/// Whether a slot type is an integer type.
pub open spec fn is_integer(ty: ScanType) -> bool {
    !(ty == ScanType::F32 || ty == ScanType::F64 || ty == ScanType::Bytes)
}

/// How the leading bytes of `b` read as an integer of type `ty` (native
/// byte order, which is little-endian on the x86-64 targets this library
/// inspects); `None` when `b` is too short or `ty` is not an integer type.
pub open spec fn slot_value(ty: ScanType, b: Seq<u8>) -> Option<int> {
    let n = ty.slot_size();
    if !is_integer(ty) || b.len() < n {
        None
    } else {
        let v = le_nat(b.take(n as int));
        if is_signed(ty) && v >= byte_range(n) / 2 {
            Some(v - byte_range(n))
        } else {
            Some(v as int)
        }
    }
}

/// The integer a needle holds, if it holds one.
pub open spec fn needle_int(v: Needle) -> Option<int> {
    match v {
        Needle::Int(i) => Some(i as int),
        Needle::Bytes(_) => None,
    }
}

/// Whether a candidate whose fresh bytes are `new` (and whose snapshot bytes
/// were `old`, for the relative tests) survives `c` for the non-float type
/// `ty`. Byte-array scans compare raw bytes; integer scans compare values.
pub open spec fn passes_spec(ty: ScanType, c: Criterion, old: Option<Seq<u8>>, new: Seq<u8>) -> bool {
    if ty == ScanType::Bytes {
        match c {
            Criterion::Exact(Needle::Bytes(needle)) => new.len() >= needle@.len() && new.take(
                needle@.len() as int,
            ) == needle@,
            Criterion::Unchanged => old matches Some(o) && o == new,
            Criterion::Changed => old matches Some(o) && o != new,
            _ => false,
        }
    } else {
        match slot_value(ty, new) {
            None => false,
            Some(n) => {
                let prev = match old {
                    Some(o) => slot_value(ty, o),
                    None => None,
                };
                match c {
                    Criterion::Unknown => true,
                    Criterion::Exact(v) => needle_int(v) matches Some(t) && n == t,
                    Criterion::Greater(v) => needle_int(v) matches Some(t) && n > t,
                    Criterion::Less(v) => needle_int(v) matches Some(t) && n < t,
                    Criterion::Between(a, b) => needle_int(a) matches Some(x) && needle_int(b) matches Some(
                        y,
                    ) && x <= n && n <= y,
                    Criterion::Increased => prev matches Some(o) && n > o,
                    Criterion::Decreased => prev matches Some(o) && n < o,
                    Criterion::Changed => prev matches Some(o) && n != o,
                    Criterion::Unchanged => prev matches Some(o) && n == o,
                    Criterion::IncreasedBy(d) => prev matches Some(o) && needle_int(d) matches Some(
                        x,
                    ) && n == o + x,
                    Criterion::DecreasedBy(d) => prev matches Some(o) && needle_int(d) matches Some(
                        x,
                    ) && n == o - x,
                }
            },
        }
    }
}

proof fn lemma_le_nat_bound(b: Seq<u8>)
    ensures
        le_nat(b) < byte_range(b.len()),
    decreases b.len(),
{
    if b.len() > 0 {
        lemma_le_nat_bound(b.drop_first());
    }
}

/// A little-endian value of `n` bytes is below `256^n`, which for the
/// usual widths is `2^8`, `2^16`, `2^32` and `2^64`.
pub proof fn lemma_le_nat_fits(b: Seq<u8>)
    ensures
        le_nat(b) < byte_range(b.len()),
        byte_range(1) == 0x100,
        byte_range(2) == 0x1_0000,
        byte_range(4) == 0x1_0000_0000,
        byte_range(8) == 0x1_0000_0000_0000_0000,
{
    lemma_le_nat_bound(b);
    lemma_byte_range_values();
}

proof fn lemma_byte_range_values()
    ensures
        byte_range(1) == 0x100,
        byte_range(2) == 0x1_0000,
        byte_range(4) == 0x1_0000_0000,
        byte_range(8) == 0x1_0000_0000_0000_0000,
{
    reveal_with_fuel(byte_range, 9);
}

/// Reads the leading bytes of `b` as an integer of type `ty`.
pub fn decode_int(ty: ScanType, b: &[u8]) -> (r: Option<i128>)
    ensures
        match r {
            Some(v) => slot_value(ty, b@) == Some(v as int),
            None => slot_value(ty, b@) is None,
        },
        r matches Some(v) ==> -0x8000_0000_0000_0000 <= v < 0x1_0000_0000_0000_0000,
{
    let n = ty.size();
    if ty == ScanType::F32 || ty == ScanType::F64 || ty == ScanType::Bytes || b.len() < n {
        return None;
    }
    let mut acc: u128 = 0;
    let mut i: usize = n;
    proof {
        lemma_byte_range_values();
    }
    while i > 0
        invariant
            n == ty.slot_size(),
            1 <= n <= 8,
            i <= n <= b@.len(),
            acc as nat == le_nat(b@.subrange(i as int, n as int)),
            acc < byte_range((n - i) as nat),
            byte_range(8) == 0x1_0000_0000_0000_0000,
        decreases i,
    {
        proof {
            let s = b@.subrange(i - 1, n as int);
            assert(s.drop_first() =~= b@.subrange(i as int, n as int));
            lemma_byte_range_mono((n - i) as nat, 7);
        }
        acc = acc * 256 + b[i - 1] as u128;
        i = i - 1;
    }
    assert(b@.subrange(0, n as int) =~= b@.take(n as int));
    let half: u128 = if n == 1 { 0x80 } else if n == 2 { 0x8000 } else if n == 4 { 0x8000_0000 } else { 0x8000_0000_0000_0000 };
    let full: u128 = half * 2;
    assert(full == byte_range(n as nat)) by {
        lemma_byte_range_values();
    }
    proof {
        lemma_byte_range_mono(n as nat, 8);
    }
    let signed = ty == ScanType::I8 || ty == ScanType::I16 || ty == ScanType::I32 || ty == ScanType::I64;
    if signed && acc >= half {
        Some(acc as i128 - full as i128)
    } else {
        Some(acc as i128)
    }
}

/// `256^n` grows with `n`.
pub proof fn lemma_byte_range_mono(a: nat, b: nat)
    requires
        a <= b,
    ensures
        byte_range(a) <= byte_range(b),
    decreases b,
{
    if a < b {
        lemma_byte_range_mono(a, (b - 1) as nat);
    }
}


fn bytes_eq(a: &[u8], b: &[u8]) -> (r: bool)
    ensures
        r == (a@ == b@),
{
    if a.len() != b.len() {
        return false;
    }
    let mut i: usize = 0;
    while i < a.len()
        invariant
            a@.len() == b@.len(),
            i <= a@.len(),
            forall|j: int| 0 <= j < i ==> a@[j] == b@[j],
        decreases a.len() - i,
    {
        if a[i] != b[i] {
            return false;
        }
        i = i + 1;
    }
    assert(a@ =~= b@);
    true
}

fn starts_with_bytes(s: &[u8], p: &[u8]) -> (r: bool)
    ensures
        r == (s@.len() >= p@.len() && s@.take(p@.len() as int) == p@),
{
    if s.len() < p.len() {
        return false;
    }
    let mut i: usize = 0;
    while i < p.len()
        invariant
            p@.len() <= s@.len(),
            i <= p@.len(),
            forall|j: int| 0 <= j < i ==> s@[j] == p@[j],
        decreases p.len() - i,
    {
        if s[i] != p[i] {
            assert(s@.take(p@.len() as int)[i as int] != p@[i as int]);
            return false;
        }
        i = i + 1;
    }
    assert(s@.take(p@.len() as int) =~= p@);
    true
}

fn needle_value(v: &Needle) -> (r: Option<i128>)
    ensures
        match r {
            Some(x) => needle_int(*v) == Some(x as int),
            None => needle_int(*v) is None,
        },
{
    match v {
        Needle::Int(i) => Some(*i),
        Needle::Bytes(_) => None,
    }
}

/// Whether a candidate whose fresh bytes are `new` (and whose previous
/// snapshot bytes are `old`, for the relative tests) survives `c`, for an
/// integer or byte-array scan type.
pub fn passes(ty: ScanType, c: &Criterion, old: Option<&[u8]>, new: &[u8]) -> (r: bool)
    requires
        !(ty == ScanType::F32 || ty == ScanType::F64),
    ensures
        r == passes_spec(
            ty,
            *c,
            match old {
                Some(o) => Some(o@),
                None => None,
            },
            new@,
        ),
{
    if ty == ScanType::Bytes {
        return match c {
            Criterion::Exact(Needle::Bytes(needle)) => starts_with_bytes(new, needle.as_slice()),
            Criterion::Unchanged => match old {
                Some(o) => bytes_eq(o, new),
                None => false,
            },
            Criterion::Changed => match old {
                Some(o) => !bytes_eq(o, new),
                None => false,
            },
            _ => false,
        };
    }
    let n = match decode_int(ty, new) {
        Some(n) => n,
        None => return false,
    };
    let prev: Option<i128> = match old {
        Some(o) => decode_int(ty, o),
        None => None,
    };
    proof {
        if let Some(p) = prev {
            assert(slot_value(ty, old.unwrap()@) == Some(p as int));
        }
    }
    match c {
        Criterion::Unknown => true,
        Criterion::Exact(v) => match needle_value(v) {
            Some(t) => n == t,
            None => false,
        },
        Criterion::Greater(v) => match needle_value(v) {
            Some(t) => n > t,
            None => false,
        },
        Criterion::Less(v) => match needle_value(v) {
            Some(t) => n < t,
            None => false,
        },
        Criterion::Between(a, b) => match (needle_value(a), needle_value(b)) {
            (Some(x), Some(y)) => x <= n && n <= y,
            _ => false,
        },
        Criterion::Increased => match prev {
            Some(o) => n > o,
            None => false,
        },
        Criterion::Decreased => match prev {
            Some(o) => n < o,
            None => false,
        },
        Criterion::Changed => match prev {
            Some(o) => n != o,
            None => false,
        },
        Criterion::Unchanged => match prev {
            Some(o) => n == o,
            None => false,
        },
        Criterion::IncreasedBy(d) => match (prev, needle_value(d)) {
            (Some(o), Some(x)) => n - o == x,
            _ => false,
        },
        Criterion::DecreasedBy(d) => match (prev, needle_value(d)) {
            (Some(o), Some(x)) => o - n == x,
            _ => false,
        },
    }
}
/// How the relative tests of an integer scan relate, for a candidate whose
/// previous and fresh slots both hold a value: exactly one of increased,
/// decreased and unchanged holds; changed is the opposite of unchanged;
/// a slot increased from `old` to `new` exactly when it decreased from
/// `new` to `old` (and by the same amount); identical slot bytes are
/// unchanged. So a value that stayed the same never passes a decreased or
/// increased test.
pub proof fn lemma_relative_tests(ty: ScanType, old: Seq<u8>, new: Seq<u8>, d: i128)
    requires
        is_integer(ty),
        old.len() >= ty.slot_size(),
        new.len() >= ty.slot_size(),
    ensures
        ({
            let inc = passes_spec(ty, Criterion::Increased, Some(old), new);
            let dec = passes_spec(ty, Criterion::Decreased, Some(old), new);
            let same = passes_spec(ty, Criterion::Unchanged, Some(old), new);
            &&& (inc || dec || same)
            &&& !(inc && dec) && !(inc && same) && !(dec && same)
        }),
        passes_spec(ty, Criterion::Changed, Some(old), new) == !passes_spec(ty, Criterion::Unchanged, Some(old), new),
        passes_spec(ty, Criterion::Increased, Some(old), new) == passes_spec(ty, Criterion::Decreased, Some(new), old),
        passes_spec(ty, Criterion::Unchanged, Some(old), new) == passes_spec(ty, Criterion::Unchanged, Some(new), old),
        passes_spec(ty, Criterion::IncreasedBy(Needle::Int(d)), Some(old), new) == passes_spec(
            ty,
            Criterion::DecreasedBy(Needle::Int(d)),
            Some(new),
            old,
        ),
        old.take(ty.slot_size() as int) == new.take(ty.slot_size() as int) ==> passes_spec(
            ty,
            Criterion::Unchanged,
            Some(old),
            new,
        ),
        old.take(ty.slot_size() as int) == new.take(ty.slot_size() as int) ==> !passes_spec(
            ty,
            Criterion::Decreased,
            Some(old),
            new,
        ) && !passes_spec(ty, Criterion::Increased, Some(old), new),
{
    assert(slot_value(ty, old) is Some);
    assert(slot_value(ty, new) is Some);
}

/// How the value tests of an integer scan relate, for a candidate whose
/// slot holds a value: unknown keeps everything; against any value exactly
/// one of less, exact and greater holds; exact is the one-value range;
/// a range keeps what is neither below its low end nor above its high end;
/// and an increase or decrease by zero is no change.
pub proof fn lemma_value_tests(ty: ScanType, new: Seq<u8>, old: Seq<u8>, a: i128, b: i128)
    requires
        is_integer(ty),
        new.len() >= ty.slot_size(),
        old.len() >= ty.slot_size(),
    ensures
        passes_spec(ty, Criterion::Unknown, None, new),
        ({
            let lt = passes_spec(ty, Criterion::Less(Needle::Int(a)), None, new);
            let eq = passes_spec(ty, Criterion::Exact(Needle::Int(a)), None, new);
            let gt = passes_spec(ty, Criterion::Greater(Needle::Int(a)), None, new);
            &&& (lt || eq || gt)
            &&& !(lt && eq) && !(lt && gt) && !(eq && gt)
        }),
        passes_spec(ty, Criterion::Exact(Needle::Int(a)), None, new) == passes_spec(
            ty,
            Criterion::Between(Needle::Int(a), Needle::Int(a)),
            None,
            new,
        ),
        passes_spec(ty, Criterion::Between(Needle::Int(a), Needle::Int(b)), None, new) == (!passes_spec(
            ty,
            Criterion::Less(Needle::Int(a)),
            None,
            new,
        ) && !passes_spec(ty, Criterion::Greater(Needle::Int(b)), None, new)),
        passes_spec(ty, Criterion::IncreasedBy(Needle::Int(0)), Some(old), new) == passes_spec(
            ty,
            Criterion::Unchanged,
            Some(old),
            new,
        ),
        passes_spec(ty, Criterion::DecreasedBy(Needle::Int(0)), Some(old), new) == passes_spec(
            ty,
            Criterion::Unchanged,
            Some(old),
            new,
        ),
{
    assert(slot_value(ty, old) is Some);
    assert(slot_value(ty, new) is Some);
}

proof fn lemma_byte_range_pos(k: nat)
    ensures
        byte_range(k) >= 1,
    decreases k,
{
    if k > 0 {
        lemma_byte_range_pos((k - 1) as nat);
    }
}

proof fn lemma_le_nat_last(t: Seq<u8>)
    requires
        t.len() > 0,
    ensures
        le_nat(t) == le_nat(t.drop_last()) + (t.last() as nat) * byte_range((t.len() - 1) as nat),
    decreases t.len(),
{
    if t.len() == 1 {
        assert(le_nat(t.drop_last()) == 0);
        assert(le_nat(t.drop_first()) == 0);
        assert(le_nat(t) == t[0] as nat);
        assert(byte_range(0) == 1);
    } else {
        let u = t.drop_first();
        lemma_le_nat_last(u);
        let d = t.drop_last();
        assert(d.drop_first() =~= u.drop_last());
        assert(d[0] == t[0]);
        assert(u.last() == t.last());
        let r = byte_range((u.len() - 1) as nat);
        let last = t.last() as nat;
        assert(le_nat(t) == t[0] as nat + 256 * le_nat(u));
        assert(le_nat(d) == d[0] as nat + 256 * le_nat(d.drop_first()));
        assert(le_nat(u) == le_nat(u.drop_last()) + last * r);
        assert(byte_range((t.len() - 1) as nat) == 256 * r);
        assert(256 * (le_nat(u.drop_last()) + last * r) == 256 * le_nat(u.drop_last()) + last * (256 * r)) by (nonlinear_arith);
    }
}

/// How an integer slot's bytes read, for every integer type and any slot
/// at least as long as the type: an unsigned type gives the little-endian
/// value of the first bytes, below `256^n`; a signed type gives a value in
/// `[-256^n / 2, 256^n / 2)` that is negative exactly when the top bit of
/// the last of those bytes is set, and that differs from the unsigned
/// reading by `256^n` or not at all.
pub proof fn lemma_slot_value_reads(ty: ScanType, b: Seq<u8>)
    requires
        is_integer(ty),
        b.len() >= ty.slot_size(),
    ensures
        ({
            let n = ty.slot_size();
            let u = le_nat(b.take(n as int));
            let v = slot_value(ty, b)->Some_0;
            &&& slot_value(ty, b) is Some
            &&& u < byte_range(n)
            &&& !is_signed(ty) ==> v == u
            &&& is_signed(ty) ==> {
                &&& -(byte_range(n) / 2) <= v < byte_range(n) / 2
                &&& (v < 0 <==> b[n - 1] >= 0x80)
                &&& (v == u || v == u - byte_range(n))
            }
        }),
{
    let n = ty.slot_size();
    let t = b.take(n as int);
    lemma_le_nat_bound(t);
    assert(n >= 1);
    lemma_le_nat_last(t);
    lemma_le_nat_bound(t.drop_last());
    lemma_byte_range_pos((n - 1) as nat);
    let r = byte_range((n - 1) as nat);
    assert(byte_range(n) == 256 * r);
    assert(byte_range(n) / 2 == 128 * r);
    assert(t.last() == b[n - 1]);
    let low = le_nat(t.drop_last());
    let top = t.last() as nat;
    assert(top >= 128 ==> low + top * r >= 128 * r) by (nonlinear_arith)
        requires r >= 1;
    assert(top < 128 ==> low + top * r < 128 * r) by (nonlinear_arith)
        requires low < r, r >= 1;
}

} // verus!
