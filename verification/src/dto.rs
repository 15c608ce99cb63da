//! The records exchanged with a front end, and the conversions between them
//! and the library's own types.

use vstd::prelude::*;
use vstd::string::*;
use crate::compare::{Criterion, Needle};
use crate::access::AccessBackend;
use crate::debug::{BackendKind, WatchKind};
use crate::disasm::{FlowKind, Insn, MapRegion, RegionKind};
use crate::format::ascii_lower;
use crate::wine::lower_chars;
use crate::format::{parse_i128, has_hex_prefix};
use crate::project::msg_unknown_kind;
use crate::scan::ScanType;
use crate::schema::{FieldDef, TypeDef};
use crate::text::{
    chars_eq, hex_upper, parse_hex, parse_hex_chars, push_char, push_chars, push_hex_upper, push_padded, split_ws,
    str_chars, string_of, sub_chars, tokens_from, trim_chars, trim_spec, zero_pad,
};
use crate::types::{kind_string, parse_kind, FieldKind, FloatWidth, DEFAULT_PTR_SIZE};

verus! {

/// A field as supplied by a front end: `kind` is the compact string form,
/// `metadata` a pointer's target class name.
#[derive(Debug, Clone)]
pub struct FieldInputDto {
    /// Field name.
    pub name: String,
    /// Byte offset.
    pub offset: usize,
    /// Compact kind string.
    pub kind: String,
    /// Pointer target class name.
    pub metadata: Option<String>,
}

impl FieldInputDto {
    /// Converts to a schema field, failing on an unknown kind string.
    pub fn into_field(self) -> (r: Result<FieldDef, String>)
        ensures
            match parse_kind(self.kind@) {
                Some(k) => r matches Ok(f) && f.name == self.name && f.offset == self.offset && f.kind
                    == k && f.metadata == self.metadata,
                None => r matches Err(m) && m@ == msg_unknown_kind(self.kind@),
            },
    {
        match FieldKind::from_kind_string(self.kind.as_str()) {
            Some(kind) => Ok(FieldDef { name: self.name, offset: self.offset, kind, metadata: self.metadata }),
            None => {
                let mut m = String::from_str("unknown field kind `");
                m.append(self.kind.as_str());
                m.append("`");
                Err(m)
            },
        }
    }
}

/// A running process, for an attach picker.
#[derive(Debug, Clone)]
pub struct ProcessInfoDto {
    /// Process id.
    pub id: u32,
    /// Process name.
    pub name: String,
    /// Parent process id.
    pub parent_id: u32,
}

/// Summary of the attached target.
#[derive(Debug, Clone)]
pub struct AttachedDto {
    /// Process id.
    pub pid: u32,
    /// Process name.
    pub name: String,
    /// Pointer width in bytes.
    pub pointer_size: usize,
    /// Whether the target runs under Wine.
    pub is_wine: bool,
    /// Whether memory goes through a managed plugin.
    pub is_managed: bool,
}

/// One entry in a class list.
#[derive(Debug, Clone)]
pub struct ClassSummaryDto {
    /// Class name.
    pub name: String,
    /// Number of fields.
    pub field_count: usize,
    /// Layout size: the largest field end offset.
    pub size: usize,
}

/// The end offset of every field of `fields`, sized with pointer width `ptr`.
pub open spec fn field_end(f: FieldDef, ptr: nat) -> int {
    f.offset + f.kind.byte_size(ptr)
}

/// The largest end offset among the first `n` fields (0 for none).
pub open spec fn max_end(fields: Seq<FieldDef>, ptr: nat, n: int) -> int
    decreases n,
{
    if n <= 0 {
        0
    } else {
        let prev = max_end(fields, ptr, n - 1);
        let e = field_end(fields[n - 1], ptr);
        if e > prev {
            e
        } else {
            prev
        }
    }
}

impl ClassSummaryDto {
    /// Summarizes a class layout, sizing pointer fields with `ptr_size`.
    pub fn of(t: &TypeDef, ptr_size: usize) -> (r: Self)
        requires
            forall|i: int| 0 <= i < t.fields@.len() ==> field_end(#[trigger] t.fields@[i], ptr_size as nat) <= usize::MAX,
        ensures
            r.name == t.name,
            r.field_count == t.fields@.len(),
            r.size == max_end(t.fields@, ptr_size as nat, t.fields@.len() as int),
    {
        let mut size: usize = 0;
        let mut i: usize = 0;
        while i < t.fields.len()
            invariant
                i <= t.fields@.len(),
                forall|k: int| 0 <= k < t.fields@.len() ==> field_end(#[trigger] t.fields@[k], ptr_size as nat) <= usize::MAX,
                size == max_end(t.fields@, ptr_size as nat, i as int),
            decreases t.fields.len() - i,
        {
            let f = &t.fields[i];
            assert(field_end(t.fields@[i as int], ptr_size as nat) <= usize::MAX);
            let e = f.offset + f.kind.size_with_ptr(ptr_size);
            if e > size {
                size = e;
            }
            i = i + 1;
        }
        ClassSummaryDto { name: t.name.clone(), field_count: t.fields.len(), size }
    }
}

/// A field kind option for a type-change menu.
#[derive(Debug, Clone)]
pub struct KindOptionDto {
    /// Compact kind string.
    pub kind: String,
    /// Size in bytes at the default pointer width.
    pub size: usize,
}

/// One row of an inspector tree: a field's identity, live value, and the
/// resolved children of an expanded pointer.
#[derive(Debug)]
pub struct FieldRow {
    /// Index of the field in its class.
    pub field_index: usize,
    /// Byte offset.
    pub offset: usize,
    /// Absolute address.
    pub address: u64,
    /// Field name.
    pub name: String,
    /// Compact kind string.
    pub kind: String,
    /// Size in bytes.
    pub size: usize,
    /// Formatted value, when memory could be read.
    pub value: Option<String>,
    /// Pointer target class name.
    pub kind_meta: Option<String>,
    /// Resolved pointer value.
    pub pointee: Option<u64>,
    /// A pointer whose target class is known.
    pub expandable: bool,
    /// Children of an expanded pointer.
    pub children: Vec<FieldRow>,
}

/// The inspector view of a class at a base address.
#[derive(Debug)]
pub struct InspectResult {
    /// Class name.
    pub class_name: String,
    /// Base address.
    pub base_addr: u64,
    /// Pointer width used.
    pub ptr_size: usize,
    /// Whether a target is attached.
    pub attached: bool,
    /// Rows.
    pub rows: Vec<FieldRow>,
}

/// One cheat-table row with its live resolution and value.
#[derive(Debug, Clone)]
pub struct CheatEntryDto {
    /// Row index.
    pub index: usize,
    /// Description.
    pub description: String,
    /// Address expression.
    pub address: String,
    /// Compact kind string.
    pub kind: String,
    /// Resolved address.
    pub resolved: Option<u64>,
    /// Formatted value.
    pub value: Option<String>,
    /// Whether the entry is frozen.
    pub frozen: bool,
}

/// A decoded instruction for a disassembly view.
#[derive(Debug, Clone)]
pub struct InsnDto {
    /// Address.
    pub addr: u64,
    /// Length in bytes.
    pub len: usize,
    /// Encoded bytes as space-separated upper-case hex pairs.
    pub bytes: String,
    /// NASM text.
    pub text: String,
    /// Flow role name.
    pub kind: String,
    /// Branch/call target.
    pub target: Option<u64>,
}

/// The name a flow role is shown as.
pub open spec fn flow_name(k: FlowKind) -> Seq<char> {
    match k {
        FlowKind::Next => "seq"@,
        FlowKind::Call => "call"@,
        FlowKind::Jump => "jump"@,
        FlowKind::CondJump => "condJump"@,
        FlowKind::Ret => "ret"@,
        FlowKind::Int => "int"@,
        FlowKind::Bad => "bad"@,
    }
}

/// Bytes as two-digit upper-case hex, separated by single spaces.
pub open spec fn hex_bytes(b: Seq<u8>) -> Seq<char>
    decreases b.len(),
{
    if b.len() == 0 {
        seq![]
    } else if b.len() == 1 {
        zero_pad(hex_upper(b[0] as nat), 2)
    } else {
        hex_bytes(b.drop_last()) + seq![' '] + zero_pad(hex_upper(b.last() as nat), 2)
    }
}

pub(crate) fn push_byte_hex(s: &mut String, b: u8)
    ensures
        final(s)@ == old(s)@ + zero_pad(hex_upper(b as nat), 2),
{
    let mut h = String::new();
    push_hex_upper(&mut h, b as u128);
    let hc = str_chars(h.as_str());
    push_padded(s, hc.as_slice(), 2);
}

fn flow_text(k: FlowKind) -> (s: String)
    ensures
        s@ == flow_name(k),
{
    match k {
        FlowKind::Next => String::from_str("seq"),
        FlowKind::Call => String::from_str("call"),
        FlowKind::Jump => String::from_str("jump"),
        FlowKind::CondJump => String::from_str("condJump"),
        FlowKind::Ret => String::from_str("ret"),
        FlowKind::Int => String::from_str("int"),
        FlowKind::Bad => String::from_str("bad"),
    }
}

impl InsnDto {
    /// The view record of an instruction.
    pub fn of(i: &Insn) -> (r: Self)
        ensures
            r.addr == i.addr as u64,
            r.len == i.len,
            r.bytes@ == hex_bytes(i.bytes@),
            r.text@ == i.text@,
            r.kind@ == flow_name(i.kind),
            r.target == (match i.target {
                Some(t) => Some(t as u64),
                None => None,
            }),
    {
        let mut bytes = String::new();
        let mut k: usize = 0;
        while k < i.bytes.len()
            invariant
                k <= i.bytes@.len(),
                bytes@ == hex_bytes(i.bytes@.take(k as int)),
            decreases i.bytes.len() - k,
        {
            let ghost pre = i.bytes@.take(k as int);
            assert(i.bytes@.take(k + 1).drop_last() =~= pre);
            if k > 0 {
                push_char(&mut bytes, ' ');
            }
            push_byte_hex(&mut bytes, i.bytes[k]);
            proof {
                if k > 0 {
                    assert(bytes@ =~= hex_bytes(pre) + seq![' '] + zero_pad(hex_upper(i.bytes@[k as int] as nat), 2));
                } else {
                    assert(bytes@ =~= zero_pad(hex_upper(i.bytes@[0] as nat), 2));
                }
            }
            k = k + 1;
        }
        assert(i.bytes@.take(i.bytes@.len() as int) =~= i.bytes@);
        let tc = str_chars(i.text.as_str());
        InsnDto {
            addr: i.addr as u64,
            len: i.len,
            bytes,
            text: string_of(tc.as_slice()),
            kind: flow_text(i.kind),
            target: match i.target {
                Some(t) => Some(t as u64),
                None => None,
            },
        }
    }
}

/// A parsed memory-map region for a map view.
#[derive(Debug, Clone)]
pub struct MapRegionDto {
    /// Start address.
    pub from: u64,
    /// End address.
    pub to: u64,
    /// Size in bytes.
    pub size: usize,
    /// Readable.
    pub read: bool,
    /// Writable.
    pub write: bool,
    /// Executable.
    pub execute: bool,
    /// Mapped name.
    pub name: String,
    /// Display label.
    pub label: String,
    /// Region role name.
    pub kind: String,
}

/// The name a region role is shown as.
pub open spec fn region_name(k: RegionKind) -> Seq<char> {
    match k {
        RegionKind::Module => "module"@,
        RegionKind::Heap => "heap"@,
        RegionKind::Stack => "stack"@,
        RegionKind::Vdso => "vdso"@,
        RegionKind::Anon => "anon"@,
        RegionKind::Other => "other"@,
    }
}

fn push_region_kind(k: RegionKind) -> (s: String)
    ensures
        s@ == region_name(k),
{
    match k {
        RegionKind::Module => String::from_str("module"),
        RegionKind::Heap => String::from_str("heap"),
        RegionKind::Stack => String::from_str("stack"),
        RegionKind::Vdso => String::from_str("vdso"),
        RegionKind::Anon => String::from_str("anon"),
        RegionKind::Other => String::from_str("other"),
    }
}

impl MapRegionDto {
    /// The view record of a region.
    pub fn of(r: &MapRegion) -> (d: Self)
        ensures
            d.from == r.from as u64,
            d.to == r.to as u64,
            d.size == (if r.to >= r.from { (r.to - r.from) as usize } else { 0 }),
            d.read == r.read,
            d.write == r.write,
            d.execute == r.execute,
            d.name@ == r.name@,
            d.label@ == (if r.name@.len() == 0 {
                "anon 0x"@ + crate::text::hex_lower(r.from as nat)
            } else {
                r.name@
            }),
            d.kind@ == region_name(r.kind),
    {
        let nc = str_chars(r.name.as_str());
        MapRegionDto {
            from: r.from as u64,
            to: r.to as u64,
            size: r.size(),
            read: r.read,
            write: r.write,
            execute: r.execute,
            name: string_of(nc.as_slice()),
            label: r.label(),
            kind: push_region_kind(r.kind),
        }
    }
}

/// A string found in memory.
#[derive(Debug, Clone)]
pub struct StringHitDto {
    /// Address.
    pub addr: u64,
    /// Text.
    pub text: String,
}

/// A loaded module.
#[derive(Debug, Clone)]
pub struct ModuleInfoDto {
    /// Base address.
    pub base: u64,
    /// Size in bytes.
    pub size: usize,
    /// File name.
    pub name: String,
}

/// Summary of a first/next scan.
#[derive(Debug, Clone)]
pub struct ScanSummaryDto {
    /// Number of results.
    pub count: usize,
    /// Value type name.
    pub value_type: String,
}

/// One scan result row.
#[derive(Debug, Clone)]
pub struct ScanRowDto {
    /// Address.
    pub address: u64,
    /// Current value.
    pub value: Option<String>,
    /// Snapshot value.
    pub previous: String,
}

/// A scan comparison from a front end: `op` is one of `exact`, `unknown`,
/// `between`, `greater`, `less`, `increased`, `decreased`, `changed`,
/// `unchanged`, `increasedBy`, `decreasedBy`.
#[derive(Debug, Clone)]
pub struct CompareDto {
    /// The operation.
    pub op: String,
    /// First value.
    pub value: Option<String>,
    /// Second value (for `between`).
    pub value2: Option<String>,
}

/// Open-project summary.
#[derive(Debug, Clone)]
pub struct ProjectStatusDto {
    /// Project name.
    pub name: String,
    /// Project folder.
    pub dir: Option<String>,
    /// Unsaved changes.
    pub dirty: bool,
    /// Number of classes.
    pub class_count: usize,
    /// The attached target.
    pub attached: Option<AttachedDto>,
}


/// A scan value as the specification sees it.
pub enum NeedleView {
    /// An integer.
    Int(int),
    /// A byte string.
    Bytes(Seq<u8>),
}

/// The view of a needle.
pub open spec fn needle_view(n: Needle) -> NeedleView {
    match n {
        Needle::Int(i) => NeedleView::Int(i as int),
        Needle::Bytes(b) => NeedleView::Bytes(b@),
    }
}

/// A scan criterion as the specification sees it.
pub enum CriterionView {
    /// Equal to.
    Exact(NeedleView),
    /// Anything.
    Unknown,
    /// Within.
    Between(NeedleView, NeedleView),
    /// Greater than.
    Greater(NeedleView),
    /// Less than.
    Less(NeedleView),
    /// Greater than before.
    Increased,
    /// Less than before.
    Decreased,
    /// Different from before.
    Changed,
    /// Same as before.
    Unchanged,
    /// This much more than before.
    IncreasedBy(NeedleView),
    /// This much less than before.
    DecreasedBy(NeedleView),
}

/// The view of a criterion.
pub open spec fn criterion_view(c: Criterion) -> CriterionView {
    match c {
        Criterion::Exact(v) => CriterionView::Exact(needle_view(v)),
        Criterion::Unknown => CriterionView::Unknown,
        Criterion::Between(a, b) => CriterionView::Between(needle_view(a), needle_view(b)),
        Criterion::Greater(v) => CriterionView::Greater(needle_view(v)),
        Criterion::Less(v) => CriterionView::Less(needle_view(v)),
        Criterion::Increased => CriterionView::Increased,
        Criterion::Decreased => CriterionView::Decreased,
        Criterion::Changed => CriterionView::Changed,
        Criterion::Unchanged => CriterionView::Unchanged,
        Criterion::IncreasedBy(v) => CriterionView::IncreasedBy(needle_view(v)),
        Criterion::DecreasedBy(v) => CriterionView::DecreasedBy(needle_view(v)),
    }
}

/// `s` without any leading repetitions of `0x` (`trim_start_matches("0x")`).
pub open spec fn strip_0x(s: Seq<char>) -> Seq<char>
    decreases s.len(),
{
    if s.len() >= 2 && s[0] == '0' && s[1] == 'x' {
        strip_0x(s.skip(2))
    } else {
        s
    }
}

/// Whitespace-separated hex bytes, each with any `0x` prefixes.
pub open spec fn byte_tokens(toks: Seq<Seq<char>>) -> Option<Seq<u8>>
    decreases toks.len(),
{
    if toks.len() == 0 {
        Some(seq![])
    } else {
        match (byte_tokens(toks.drop_last()), parse_hex(strip_0x(toks.last()), 255)) {
            (Some(bs), Some(v)) => Some(bs.push(v as u8)),
            _ => None,
        }
    }
}

/// How a value entry reads for a scan of the non-float type `ty`: hex bytes
/// for a byte-array scan, else an `i128` in `0x`/`0X` hex or decimal.
pub open spec fn scan_value_spec(ty: ScanType, text: Seq<char>) -> Result<NeedleView, Seq<char>> {
    let s = trim_spec(text);
    if ty == ScanType::Bytes {
        match byte_tokens(tokens_from(s, 0)) {
            Some(b) => Ok(NeedleView::Bytes(b)),
            None => Err("invalid byte pattern"@),
        }
    } else if has_hex_prefix(s) {
        match parse_i128(s.skip(2), true) {
            Some(v) => Ok(NeedleView::Int(v)),
            None => Err("invalid hex integer"@),
        }
    } else {
        match parse_i128(s, false) {
            Some(v) => Ok(NeedleView::Int(v)),
            None => Err("invalid integer"@),
        }
    }
}

fn strip_0x_exec(s: &[char]) -> (v: Vec<char>)
    ensures
        v@ == strip_0x(s@),
{
    let mut i: usize = 0;
    assert(s@.skip(0) =~= s@);
    while i < s.len() && s.len() - i >= 2 && s[i] == '0' && s[i + 1] == 'x'
        invariant
            i <= s@.len(),
            strip_0x(s@) == strip_0x(s@.skip(i as int)),
        decreases s.len() - i,
    {
        assert(s@.skip(i as int).skip(2) =~= s@.skip(i + 2));
        i = i + 2;
    }
    let v = sub_chars(s, i, s.len());
    assert(v@ =~= s@.skip(i as int));
    v
}

fn parse_i128_value(s: &[char], hex: bool) -> (r: Option<i128>)
    ensures
        match r {
            Some(v) => parse_i128(s@, hex) == Some(v as int),
            None => parse_i128(s@, hex) is None,
        },
{
    match crate::format::parse_i128_chars(s, hex) {
        Some((neg, m)) => {
            if neg {
                if m == 0x8000_0000_0000_0000_0000_0000_0000_0000 {
                    Some(i128::MIN)
                } else {
                    Some(-(m as i128))
                }
            } else {
                Some(m as i128)
            }
        },
        None => None,
    }
}

/// Reads a value entry for a scan of the non-float type `ty`.
pub fn parse_scan_value(ty: ScanType, text: &str) -> (r: Result<Needle, String>)
    requires
        !(ty == ScanType::F32 || ty == ScanType::F64),
    ensures
        match (r, scan_value_spec(ty, text@)) {
            (Ok(n), Ok(v)) => needle_view(n) == v,
            (Err(e), Err(m)) => e@ == m,
            _ => false,
        },
{
    let chars = str_chars(text);
    let s = trim_chars(chars.as_slice());
    if ty == ScanType::Bytes {
        let toks = split_ws(s.as_slice());
        let mut out: Vec<u8> = Vec::new();
        let mut k: usize = 0;
        let ghost ts = tokens_from(s@, 0);
        while k < toks.len()
            invariant
                k <= toks@.len(),
                ty == ScanType::Bytes,
                ts == tokens_from(trim_spec(text@), 0),
                toks@.len() == ts.len(),
                forall|j: int| 0 <= j < toks@.len() ==> (#[trigger] toks@[j])@ == ts[j],
                byte_tokens(ts.take(k as int)) == Some(out@),
            decreases toks.len() - k,
        {
            assert(ts.take(k + 1).drop_last() =~= ts.take(k as int));
            assert(ts.take(k + 1).last() == toks@[k as int]@);
            let body = strip_0x_exec(toks[k].as_slice());
            match parse_hex_chars(body.as_slice(), 255) {
                Some(v) => {
                    out.push(v as u8);
                },
                None => {
                    proof {
                        assert(parse_hex(strip_0x(ts.take(k + 1).last()), 255) is None);
                        assert(byte_tokens(ts.take(k + 1)) is None);
                        lemma_byte_tokens_prefix_fails(ts, k as int + 1);
                    }
                    return Err(String::from_str("invalid byte pattern"));
                },
            }
            k = k + 1;
        }
        assert(ts.take(ts.len() as int) =~= ts);
        return Ok(Needle::Bytes(out));
    }
    let hex = s.len() >= 2 && s[0] == '0' && (s[1] == 'x' || s[1] == 'X');
    if hex {
        let h = sub_chars(s.as_slice(), 2, s.len());
        assert(h@ =~= s@.skip(2));
        match parse_i128_value(h.as_slice(), true) {
            Some(v) => Ok(Needle::Int(v)),
            None => Err(String::from_str("invalid hex integer")),
        }
    } else {
        match parse_i128_value(s.as_slice(), false) {
            Some(v) => Ok(Needle::Int(v)),
            None => Err(String::from_str("invalid integer")),
        }
    }
}

/// A token list that fails to read in its first `n` tokens fails as a whole.
proof fn lemma_byte_tokens_prefix_fails(ts: Seq<Seq<char>>, n: int)
    requires
        0 <= n <= ts.len(),
        byte_tokens(ts.take(n)) is None,
    ensures
        byte_tokens(ts) is None,
    decreases ts.len() - n,
{
    if n < ts.len() {
        assert(ts.take(n + 1).drop_last() =~= ts.take(n));
        lemma_byte_tokens_prefix_fails(ts, n + 1);
    } else {
        assert(ts.take(n) =~= ts);
    }
}

/// How a front-end comparison reads for a scan of the non-float type `ty`:
/// the operation by name, reading the values it needs (first `value`, then
/// `value2`) and failing on the first missing or unreadable one.
pub open spec fn compare_spec(ty: ScanType, op: Seq<char>, v1: Option<Seq<char>>, v2: Option<Seq<char>>) -> Result<
    CriterionView,
    Seq<char>,
> {
    let val = |o: Option<Seq<char>>| match o {
        None => Err("comparison needs a value"@),
        Some(t) => scan_value_spec(ty, t),
    };
    if op == "exact"@ {
        match val(v1) { Ok(a) => Ok(CriterionView::Exact(a)), Err(e) => Err(e) }
    } else if op == "unknown"@ {
        Ok(CriterionView::Unknown)
    } else if op == "between"@ {
        match val(v1) {
            Err(e) => Err(e),
            Ok(a) => match val(v2) { Ok(b) => Ok(CriterionView::Between(a, b)), Err(e) => Err(e) },
        }
    } else if op == "greater"@ {
        match val(v1) { Ok(a) => Ok(CriterionView::Greater(a)), Err(e) => Err(e) }
    } else if op == "less"@ {
        match val(v1) { Ok(a) => Ok(CriterionView::Less(a)), Err(e) => Err(e) }
    } else if op == "increased"@ {
        Ok(CriterionView::Increased)
    } else if op == "decreased"@ {
        Ok(CriterionView::Decreased)
    } else if op == "changed"@ {
        Ok(CriterionView::Changed)
    } else if op == "unchanged"@ {
        Ok(CriterionView::Unchanged)
    } else if op == "increasedBy"@ {
        match val(v1) { Ok(a) => Ok(CriterionView::IncreasedBy(a)), Err(e) => Err(e) }
    } else if op == "decreasedBy"@ {
        match val(v1) { Ok(a) => Ok(CriterionView::DecreasedBy(a)), Err(e) => Err(e) }
    } else {
        Err("unknown comparison `"@ + op + "`"@)
    }
}

fn value_of(ty: ScanType, o: &Option<String>) -> (r: Result<Needle, String>)
    requires
        !(ty == ScanType::F32 || ty == ScanType::F64),
    ensures
        match (r, match *o {
            None => Err("comparison needs a value"@),
            Some(t) => scan_value_spec(ty, t@),
        }) {
            (Ok(n), Ok(v)) => needle_view(n) == v,
            (Err(e), Err(m)) => e@ == m,
            _ => false,
        },
{
    match o {
        None => Err(String::from_str("comparison needs a value")),
        Some(t) => parse_scan_value(ty, t.as_str()),
    }
}

fn op_is(op: &str, lit: &str) -> (r: bool)
    ensures
        r == (op@ == lit@),
{
    let a = str_chars(op);
    let b = str_chars(lit);
    chars_eq(a.as_slice(), b.as_slice())
}

impl CompareDto {
    /// Reads the comparison for a scan of the non-float type `ty`.
    pub fn into_compare(self, ty: ScanType) -> (r: Result<Criterion, String>)
        requires
            !(ty == ScanType::F32 || ty == ScanType::F64),
        ensures
            match (r, compare_spec(
                ty,
                self.op@,
                match self.value { Some(t) => Some(t@), None => None },
                match self.value2 { Some(t) => Some(t@), None => None },
            )) {
                (Ok(c), Ok(v)) => criterion_view(c) == v,
                (Err(e), Err(m)) => e@ == m,
                _ => false,
            },
    {
        let op = self.op.as_str();
        if op_is(op, "exact") {
            match value_of(ty, &self.value) { Ok(a) => Ok(Criterion::Exact(a)), Err(e) => Err(e) }
        } else if op_is(op, "unknown") {
            Ok(Criterion::Unknown)
        } else if op_is(op, "between") {
            match value_of(ty, &self.value) {
                Err(e) => Err(e),
                Ok(a) => match value_of(ty, &self.value2) { Ok(b) => Ok(Criterion::Between(a, b)), Err(e) => Err(e) },
            }
        } else if op_is(op, "greater") {
            match value_of(ty, &self.value) { Ok(a) => Ok(Criterion::Greater(a)), Err(e) => Err(e) }
        } else if op_is(op, "less") {
            match value_of(ty, &self.value) { Ok(a) => Ok(Criterion::Less(a)), Err(e) => Err(e) }
        } else if op_is(op, "increased") {
            Ok(Criterion::Increased)
        } else if op_is(op, "decreased") {
            Ok(Criterion::Decreased)
        } else if op_is(op, "changed") {
            Ok(Criterion::Changed)
        } else if op_is(op, "unchanged") {
            Ok(Criterion::Unchanged)
        } else if op_is(op, "increasedBy") {
            match value_of(ty, &self.value) { Ok(a) => Ok(Criterion::IncreasedBy(a)), Err(e) => Err(e) }
        } else if op_is(op, "decreasedBy") {
            match value_of(ty, &self.value) { Ok(a) => Ok(Criterion::DecreasedBy(a)), Err(e) => Err(e) }
        } else {
            let mut m = String::from_str("unknown comparison `");
            m.append(op);
            m.append("`");
            Err(m)
        }
    }
}

/// The field kinds offered by a type-change menu, in order.
pub open spec fn kind_palette() -> Seq<FieldKind> {
    seq![
        FieldKind::Unk8,
        FieldKind::Unk16,
        FieldKind::Unk32,
        FieldKind::Unk64,
        FieldKind::I8,
        FieldKind::I16,
        FieldKind::I32,
        FieldKind::I64,
        FieldKind::U8,
        FieldKind::U16,
        FieldKind::U32,
        FieldKind::U64,
        FieldKind::F32,
        FieldKind::F64,
        FieldKind::Bool,
        FieldKind::Ptr,
        FieldKind::StrPtr,
        FieldKind::Vector { components: 2, width: FloatWidth::F32 },
        FieldKind::Vector { components: 3, width: FloatWidth::F32 },
        FieldKind::Vector { components: 4, width: FloatWidth::F32 },
        FieldKind::Vector { components: 2, width: FloatWidth::F64 },
        FieldKind::Vector { components: 3, width: FloatWidth::F64 },
        FieldKind::Vector { components: 4, width: FloatWidth::F64 },
        FieldKind::Matrix { rows: 4, cols: 4, width: FloatWidth::F32 },
    ]
}

/// The menu of field kinds: each kind's compact string and its size at
/// the default pointer width.
pub fn field_kinds() -> (r: Vec<KindOptionDto>)
    ensures
        r@.len() == kind_palette().len(),
        forall|i: int|
            0 <= i < r@.len() ==> (#[trigger] r@[i]).kind@ == kind_string(kind_palette()[i]) && r@[i].size
                == kind_palette()[i].byte_size(DEFAULT_PTR_SIZE as nat),
{
    let mut kinds: Vec<FieldKind> = Vec::new();
    kinds.push(FieldKind::Unk8);
    kinds.push(FieldKind::Unk16);
    kinds.push(FieldKind::Unk32);
    kinds.push(FieldKind::Unk64);
    kinds.push(FieldKind::I8);
    kinds.push(FieldKind::I16);
    kinds.push(FieldKind::I32);
    kinds.push(FieldKind::I64);
    kinds.push(FieldKind::U8);
    kinds.push(FieldKind::U16);
    kinds.push(FieldKind::U32);
    kinds.push(FieldKind::U64);
    kinds.push(FieldKind::F32);
    kinds.push(FieldKind::F64);
    kinds.push(FieldKind::Bool);
    kinds.push(FieldKind::Ptr);
    kinds.push(FieldKind::StrPtr);
    kinds.push(FieldKind::Vector { components: 2, width: FloatWidth::F32 });
    kinds.push(FieldKind::Vector { components: 3, width: FloatWidth::F32 });
    kinds.push(FieldKind::Vector { components: 4, width: FloatWidth::F32 });
    kinds.push(FieldKind::Vector { components: 2, width: FloatWidth::F64 });
    kinds.push(FieldKind::Vector { components: 3, width: FloatWidth::F64 });
    kinds.push(FieldKind::Vector { components: 4, width: FloatWidth::F64 });
    kinds.push(FieldKind::Matrix { rows: 4, cols: 4, width: FloatWidth::F32 });
    assert(kinds@ =~= kind_palette());
    let mut out: Vec<KindOptionDto> = Vec::new();
    let mut i: usize = 0;
    while i < kinds.len()
        invariant
            kinds@ == kind_palette(),
            i <= kinds@.len(),
            out@.len() == i,
            forall|k: int|
                0 <= k < i ==> (#[trigger] out@[k]).kind@ == kind_string(kind_palette()[k]) && out@[k].size
                    == kind_palette()[k].byte_size(DEFAULT_PTR_SIZE as nat),
        decreases kinds.len() - i,
    {
        let k = kinds[i];
        out.push(KindOptionDto { kind: k.to_kind_string(), size: k.size_with_ptr(DEFAULT_PTR_SIZE) });
        i = i + 1;
    }
    out
}

/// The error for a word that names nothing: `unknown <what> `<word>``.
pub open spec fn msg_unknown(what: Seq<char>, word: Seq<char>) -> Seq<char> {
    "unknown "@ + what + " `"@ + word + "`"@
}

fn unknown(what: &str, word: &str) -> (m: String)
    ensures
        m@ == msg_unknown(what@, word@),
{
    let mut m = String::from_str("unknown ");
    m.append(what);
    m.append(" `");
    m.append(word);
    m.append("`");
    m
}

fn is_word(s: &[char], lit: &str) -> (r: bool)
    ensures
        r == (s@ == lit@),
{
    let l = str_chars(lit);
    chars_eq(s, l.as_slice())
}

/// The scan type a name denotes (exact spelling, as in `ScanType`).
pub open spec fn scan_type_named(s: Seq<char>) -> Option<ScanType> {
    if s == "I8"@ { Some(ScanType::I8) }
    else if s == "U8"@ { Some(ScanType::U8) }
    else if s == "I16"@ { Some(ScanType::I16) }
    else if s == "U16"@ { Some(ScanType::U16) }
    else if s == "I32"@ { Some(ScanType::I32) }
    else if s == "U32"@ { Some(ScanType::U32) }
    else if s == "I64"@ { Some(ScanType::I64) }
    else if s == "U64"@ { Some(ScanType::U64) }
    else if s == "F32"@ { Some(ScanType::F32) }
    else if s == "F64"@ { Some(ScanType::F64) }
    else if s == "Bytes"@ { Some(ScanType::Bytes) }
    else { None }
}

/// Reads a scan type name.
pub fn parse_scan_type(s: &str) -> (r: Result<ScanType, String>)
    ensures
        match scan_type_named(s@) {
            Some(t) => r == Ok::<ScanType, String>(t),
            None => r matches Err(m) && m@ == msg_unknown("scan type"@, s@),
        },
{
    let c = str_chars(s);
    let v = c.as_slice();
    if is_word(v, "I8") { Ok(ScanType::I8) }
    else if is_word(v, "U8") { Ok(ScanType::U8) }
    else if is_word(v, "I16") { Ok(ScanType::I16) }
    else if is_word(v, "U16") { Ok(ScanType::U16) }
    else if is_word(v, "I32") { Ok(ScanType::I32) }
    else if is_word(v, "U32") { Ok(ScanType::U32) }
    else if is_word(v, "I64") { Ok(ScanType::I64) }
    else if is_word(v, "U64") { Ok(ScanType::U64) }
    else if is_word(v, "F32") { Ok(ScanType::F32) }
    else if is_word(v, "F64") { Ok(ScanType::F64) }
    else if is_word(v, "Bytes") { Ok(ScanType::Bytes) }
    else { Err(unknown("scan type", s)) }
}

/// `s` with ASCII letters in lower case.
pub open spec fn lower(s: Seq<char>) -> Seq<char> {
    s.map_values(|c: char| ascii_lower(c))
}

/// The debugger backend a name denotes, in any ASCII case.
pub open spec fn backend_named(s: Seq<char>) -> Option<BackendKind> {
    let l = lower(s);
    if l == "ptrace"@ { Some(BackendKind::Ptrace) } else if l == "frida"@ { Some(BackendKind::Frida) } else { None }
}

/// Reads a debugger backend name.
pub fn parse_backend(s: &str) -> (r: Result<BackendKind, String>)
    ensures
        match backend_named(s@) {
            Some(k) => r == Ok::<BackendKind, String>(k),
            None => r matches Err(m) && m@ == msg_unknown("debugger backend"@, s@),
        },
{
    let c = str_chars(s);
    let l = lower_chars(c.as_slice());
    if is_word(l.as_slice(), "ptrace") { Ok(BackendKind::Ptrace) }
    else if is_word(l.as_slice(), "frida") { Ok(BackendKind::Frida) }
    else { Err(unknown("debugger backend", s)) }
}

/// The watch kind a name denotes, in any ASCII case.
pub open spec fn watch_kind_named(s: Seq<char>) -> Option<WatchKind> {
    let l = lower(s);
    if l == "execute"@ || l == "exec"@ { Some(WatchKind::Execute) }
    else if l == "write"@ { Some(WatchKind::Write) }
    else if l == "readwrite"@ || l == "read"@ || l == "access"@ { Some(WatchKind::ReadWrite) }
    else { None }
}

/// Reads a watch kind name.
pub fn parse_watch_kind(s: &str) -> (r: Result<WatchKind, String>)
    ensures
        match watch_kind_named(s@) {
            Some(k) => r == Ok::<WatchKind, String>(k),
            None => r matches Err(m) && m@ == msg_unknown("watch kind"@, s@),
        },
{
    let c = str_chars(s);
    let l = lower_chars(c.as_slice());
    let v = l.as_slice();
    if is_word(v, "execute") || is_word(v, "exec") { Ok(WatchKind::Execute) }
    else if is_word(v, "write") { Ok(WatchKind::Write) }
    else if is_word(v, "readwrite") || is_word(v, "read") || is_word(v, "access") { Ok(WatchKind::ReadWrite) }
    else { Err(unknown("watch kind", s)) }
}

/// The access-trace backend a name denotes, in any ASCII case.
pub open spec fn access_backend_named(s: Seq<char>) -> Option<AccessBackend> {
    let l = lower(s);
    if l == "hardware"@ || l == "hw"@ { Some(AccessBackend::Hardware) }
    else if l == "libiht"@ || l == "lbr"@ { Some(AccessBackend::LibIht) }
    else if l == "intelpt"@ || l == "pt"@ { Some(AccessBackend::IntelPt) }
    else { None }
}

/// Reads an access-trace backend name.
pub fn parse_access_backend(s: &str) -> (r: Result<AccessBackend, String>)
    ensures
        match access_backend_named(s@) {
            Some(k) => r == Ok::<AccessBackend, String>(k),
            None => r matches Err(m) && m@ == msg_unknown("access backend"@, s@),
        },
{
    let c = str_chars(s);
    let l = lower_chars(c.as_slice());
    let v = l.as_slice();
    if is_word(v, "hardware") || is_word(v, "hw") { Ok(AccessBackend::Hardware) }
    else if is_word(v, "libiht") || is_word(v, "lbr") { Ok(AccessBackend::LibIht) }
    else if is_word(v, "intelpt") || is_word(v, "pt") { Ok(AccessBackend::IntelPt) }
    else { Err(unknown("access backend", s)) }
}
} // verus!
