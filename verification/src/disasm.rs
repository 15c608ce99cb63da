//! x86-64 disassembly and lightweight code/memory analysis.
//!
//! Decoding and rendering go through `iced-x86`; what the library does with
//! the decoded instructions (flow classification, branch targets, call-target
//! and function discovery, string extraction, `/proc/<pid>/maps` parsing) is
//! its own logic.

use vstd::prelude::*;
use vstd::string::*;
use vstd::slice::{slice_subrange, slice_to_vec};
use vstd::utf8::*;
use iced_x86::{Decoder, DecoderOptions, Formatter, NasmFormatter};
use crate::text::{
    chars_eq, hex_lower, parse_hex, parse_hex_chars, push_char, push_chars, push_hex, split_ws,
    str_chars, string_of, sub_chars, tokens_from,
};
use crate::types::{find_from, starts_with};

verus! {

/// The control-flow role of an instruction.
#[derive(Debug, Clone, Copy, PartialEq, Eq, Structural)]
pub enum FlowKind {
    /// Falls through to the next instruction.
    Next,
    /// A call (near call resolves [`Insn::target`]).
    Call,
    /// An unconditional/indirect jump.
    Jump,
    /// A conditional jump.
    CondJump,
    /// A return.
    Ret,
    /// A software interrupt / breakpoint.
    Int,
    /// An invalid / undecodable byte.
    Bad,
}

/// One decoded instruction.
#[derive(Debug, Clone)]
pub struct Insn {
    /// Instruction address.
    pub addr: usize,
    /// Encoded length in bytes.
    pub len: usize,
    /// Raw encoded bytes.
    pub bytes: Vec<u8>,
    /// Formatted (NASM) text.
    pub text: String,
    /// Control-flow role.
    pub kind: FlowKind,
    /// Resolved absolute target for near branches/calls, if any.
    pub target: Option<usize>,
}

/// What the decoder reports of one instruction: its length, whether it is
/// invalid, its flow-control class (`iced_x86::FlowControl`'s discriminant:
/// 0 next, 1 unconditional branch, 2 indirect branch, 3 conditional branch,
/// 4 return, 5 call, 6 indirect call, 7 interrupt, 8 xbegin/xabort/xend,
/// 9 exception) and its near-branch target (0 when there is none).
#[derive(Debug, Clone, Copy, PartialEq, Eq, Structural)]
pub struct DecodedInsn {
    /// Encoded length in bytes.
    pub len: usize,
    /// Whether the bytes do not encode a valid instruction.
    pub invalid: bool,
    /// Flow-control class.
    pub flow: u8,
    /// Near-branch target, or 0.
    pub near_target: u64,
}

/// The first instruction of `code` as 64-bit x86 code located at `ip`.
pub uninterp spec fn x86_decode(code: Seq<u8>, ip: u64) -> DecodedInsn;

/// The NASM-syntax text of the first instruction of `code` located at `ip`.
pub uninterp spec fn nasm_text(code: Seq<u8>, ip: u64) -> Seq<char>;

/// Decodes the first instruction of `code` at `ip` with
/// `iced_x86::Decoder::decode` (64-bit, default options). The result is a
/// function of the bytes and the address alone.
#[verifier::external_body]
fn decode_insn(code: &[u8], ip: u64) -> (r: DecodedInsn)
    ensures
        r == x86_decode(code@, ip),
{
    let insn = Decoder::with_ip(64, code, ip, DecoderOptions::NONE).decode();
    DecodedInsn {
        len: insn.len(),
        invalid: insn.is_invalid(),
        flow: insn.flow_control() as u8,
        near_target: insn.near_branch_target(),
    }
}

/// Renders the first instruction of `code` at `ip` with
/// `iced_x86::NasmFormatter::format`. The text is a function of the bytes
/// and the address alone.
#[verifier::external_body]
fn format_insn(code: &[u8], ip: u64) -> (r: String)
    ensures
        r@ == nasm_text(code@, ip),
{
    let insn = Decoder::with_ip(64, code, ip, DecoderOptions::NONE).decode();
    let mut text = String::new();
    NasmFormatter::new().format(&insn, &mut text);
    text
}

/// The address `pos` bytes past `start`, wrapping as a 64-bit instruction
/// pointer does.
pub open spec fn ip_at(start: usize, pos: int) -> u64 {
    ((start as int + pos) % 0x1_0000_0000_0000_0000int) as u64
}

/// The flow role and resolved target of an instruction of flow-control class
/// `flow` whose near-branch target is `near` (0 for indirect operands).
pub open spec fn classify_spec(flow: u8, near: u64) -> (FlowKind, Option<usize>) {
    let t = if near != 0 { Some(near as usize) } else { None };
    if flow == 5 || flow == 6 {
        (FlowKind::Call, t)
    } else if flow == 1 || flow == 2 {
        (FlowKind::Jump, t)
    } else if flow == 3 {
        (FlowKind::CondJump, t)
    } else if flow == 4 {
        (FlowKind::Ret, None)
    } else if flow == 7 {
        (FlowKind::Int, None)
    } else {
        (FlowKind::Next, None)
    }
}

fn classify(flow: u8, near: u64) -> (r: (FlowKind, Option<usize>))
    ensures
        r == classify_spec(flow, near),
{
    let t = if near != 0 { Some(near as usize) } else { None };
    if flow == 5 || flow == 6 {
        (FlowKind::Call, t)
    } else if flow == 1 || flow == 2 {
        (FlowKind::Jump, t)
    } else if flow == 3 {
        (FlowKind::CondJump, t)
    } else if flow == 4 {
        (FlowKind::Ret, None)
    } else if flow == 7 {
        (FlowKind::Int, None)
    } else {
        (FlowKind::Next, None)
    }
}

/// The instruction decoded at offset `pos` of `code`, whose first byte is at
/// `start`.
pub open spec fn decoded_at(code: Seq<u8>, start: usize, pos: int) -> DecodedInsn {
    x86_decode(code.subrange(pos, code.len() as int), ip_at(start, pos))
}

/// How far the decoder moves past the instruction at `pos` (at least one
/// byte).
pub open spec fn step_len(code: Seq<u8>, start: usize, pos: int) -> usize {
    let d = decoded_at(code, start, pos);
    if d.len == 0 {
        1
    } else {
        d.len
    }
}

/// The offsets at which decoding from `pos` on starts an instruction, at most
/// `count` of them.
pub open spec fn decode_starts(code: Seq<u8>, start: usize, pos: int, count: nat) -> Seq<int>
    decreases (if pos < code.len() { code.len() - pos } else { 0 }),
{
    if pos < 0 || pos >= code.len() || count == 0 {
        seq![]
    } else {
        proof {
            assert(step_len(code, start, pos) >= 1);
        }
        seq![pos] + decode_starts(code, start, pos + step_len(code, start, pos), (count - 1) as nat)
    }
}

/// Whether `i` is the instruction decoded at offset `pos` of `code` (first
/// byte at `start`).
pub open spec fn insn_is(i: Insn, code: Seq<u8>, start: usize, pos: int) -> bool {
    let d = decoded_at(code, start, pos);
    let len = step_len(code, start, pos);
    &&& i.addr == ip_at(start, pos) as usize
    &&& i.len == len
    &&& i.bytes@ == (if pos + len <= code.len() {
        code.subrange(pos, pos + len)
    } else {
        Seq::<u8>::empty()
    })
    &&& if d.invalid {
        &&& i.text@ == "(bad)"@
        &&& i.kind == FlowKind::Bad
        &&& i.target is None
    } else {
        &&& i.text@ == nasm_text(code.subrange(pos, code.len() as int), ip_at(start, pos))
        &&& (i.kind, i.target) == classify_spec(d.flow, d.near_target)
    }
}

/// The most bytes a region analysis reads in one call (8 MiB).
pub const MAX_SCAN: usize = 0x80_0000;

/// The bytes a region analysis of `len` bytes reads: `len`, capped at
/// `MAX_SCAN`.
pub fn scan_span(len: usize) -> (r: usize)
    ensures
        r == (if len < MAX_SCAN { len } else { MAX_SCAN }),
{
    if len < MAX_SCAN {
        len
    } else {
        MAX_SCAN
    }
}

/// The bytes fetched to decode `count` instructions for a view: 16 per
/// instruction (saturating at `usize::MAX`), and at least 16.
pub fn fetch_span(count: usize) -> (r: usize)
    ensures
        r == (if count * 16 > usize::MAX { usize::MAX as int } else if count * 16 < 16 { 16 } else { count * 16 }),
{
    if count > usize::MAX / 16 {
        usize::MAX
    } else if count == 0 {
        16
    } else {
        count * 16
    }
}

/// Decodes up to `count` instructions from `bytes` (whose first byte is at
/// `start`), one after another.
pub fn disassemble_bytes(bytes: &[u8], start: usize, count: usize) -> (out: Vec<Insn>)
    ensures
        out@.len() == decode_starts(bytes@, start, 0, count as nat).len(),
        forall|k: int|
            0 <= k < out@.len() ==> insn_is(
                #[trigger] out@[k],
                bytes@,
                start,
                decode_starts(bytes@, start, 0, count as nat)[k],
            ),
{
    let n = bytes.len();
    let mut out: Vec<Insn> = Vec::new();
    let mut pos: usize = 0;
    let ghost mut done: Seq<int> = seq![];
    let ghost all = decode_starts(bytes@, start, 0, count as nat);
    assert(all =~= done + decode_starts(bytes@, start, 0, count as nat));
    while pos < n && out.len() < count
        invariant
            n == bytes@.len(),
            out@.len() <= count,
            all == decode_starts(bytes@, start, 0, count as nat),
            all == done + decode_starts(bytes@, start, pos as int, (count - out@.len()) as nat),
            out@.len() == done.len(),
            forall|k: int| 0 <= k < out@.len() ==> insn_is(#[trigger] out@[k], bytes@, start, done[k]),
        decreases n - pos,
    {
        let rest = slice_subrange(bytes, pos, n);
        let ip = (start as u64).wrapping_add(pos as u64);
        assert(ip == ip_at(start, pos as int));
        let d = decode_insn(rest, ip);
        let len: usize = if d.len == 0 { 1 } else { d.len };
        let ibytes: Vec<u8> = if len <= n - pos {
            slice_to_vec(slice_subrange(bytes, pos, pos + len))
        } else {
            Vec::new()
        };
        let insn = if d.invalid {
            Insn {
                addr: ip as usize,
                len,
                bytes: ibytes,
                text: String::from_str("(bad)"),
                kind: FlowKind::Bad,
                target: None,
            }
        } else {
            let (kind, target) = classify(d.flow, d.near_target);
            Insn { addr: ip as usize, len, bytes: ibytes, text: format_insn(rest, ip), kind, target }
        };
        proof {
            let tail = decode_starts(bytes@, start, pos as int, (count - out@.len()) as nat);
            assert(tail == seq![pos as int] + decode_starts(
                bytes@,
                start,
                pos + len,
                (count - out@.len() - 1) as nat,
            ));
            assert(done + tail =~= done.push(pos as int) + decode_starts(
                bytes@,
                start,
                pos + len,
                (count - out@.len() - 1) as nat,
            ));
            done = done.push(pos as int);
        }
        out.push(insn);
        if len > n - pos {
            proof {
                assert(decode_starts(bytes@, start, n as int, (count - out@.len()) as nat) =~= seq![]);
                assert(decode_starts(
                    bytes@,
                    start,
                    pos + len,
                    (count - out@.len()) as nat,
                ) =~= seq![]);
            }
            pos = n;
        } else {
            pos = pos + len;
        }
    }
    proof {
        assert(decode_starts(bytes@, start, pos as int, (count - out@.len()) as nat) =~= seq![]);
        assert(all =~= done);
    }
    out
}


// --- memory map -----------------------------------------------------------

/// The role of a memory region in the target's address space.
#[derive(Debug, Clone, Copy, PartialEq, Eq, Structural)]
pub enum RegionKind {
    /// A file-backed mapping (executable, library, etc.).
    Module,
    /// The main heap (`[heap]`).
    Heap,
    /// A thread stack (`[stack]`).
    Stack,
    /// Kernel-provided mapping (`[vdso]`/`[vvar]`/`[vsyscall]`).
    Vdso,
    /// An anonymous mapping (no backing file).
    Anon,
    /// Anything else (e.g. named anon `[anon:...]`).
    Other,
}

/// A parsed `/proc/<pid>/maps` region.
#[derive(Debug, Clone)]
pub struct MapRegion {
    /// Start address (inclusive).
    pub from: usize,
    /// End address (exclusive).
    pub to: usize,
    /// Readable.
    pub read: bool,
    /// Writable.
    pub write: bool,
    /// Executable.
    pub execute: bool,
    /// Path / pseudo-name (empty for plain anonymous mappings).
    pub name: String,
    /// Classified role.
    pub kind: RegionKind,
}

/// The role a region's name gives it.
pub open spec fn region_kind(name: Seq<char>) -> RegionKind {
    if name.len() == 0 {
        RegionKind::Anon
    } else if name == "[heap]"@ {
        RegionKind::Heap
    } else if starts_with(name, "[stack"@) {
        RegionKind::Stack
    } else if name == "[vdso]"@ || name == "[vvar]"@ || name == "[vsyscall]"@ {
        RegionKind::Vdso
    } else if name[0] == '/' {
        RegionKind::Module
    } else {
        RegionKind::Other
    }
}

/// Tokens joined with single spaces.
pub open spec fn join_spaced(ts: Seq<Seq<char>>) -> Seq<char>
    decreases ts.len(),
{
    if ts.len() == 0 {
        seq![]
    } else if ts.len() == 1 {
        ts[0]
    } else {
        join_spaced(ts.drop_last()) + seq![' '] + ts.last()
    }
}

/// What one maps line describes.
pub struct MapsLine {
    /// Start address.
    pub from: usize,
    /// End address.
    pub to: usize,
    /// Readable.
    pub read: bool,
    /// Writable.
    pub write: bool,
    /// Executable.
    pub execute: bool,
    /// The mapped name.
    pub name: Seq<char>,
}

/// How a maps line reads: `start-end perms offset dev inode [name...]`. The
/// first two fields are required; the name is every field after the fifth,
/// joined by single spaces. Addresses are read as `from_str_radix(_, 16)`
/// reads them; a permission is granted when its byte of the permission field
/// holds its letter.
pub open spec fn maps_line_spec(line: Seq<char>) -> Option<MapsLine> {
    let toks = tokens_from(line, 0);
    if toks.len() < 2 {
        None
    } else {
        let range = toks[0];
        let p = encode_utf8(toks[1]);
        let name = join_spaced(
            if toks.len() > 5 {
                toks.skip(5)
            } else {
                seq![]
            },
        );
        match find_from(range, '-', 0) {
            None => None,
            Some(d) => match (
                parse_hex(range.take(d), usize::MAX as nat),
                parse_hex(range.skip(d + 1), usize::MAX as nat),
            ) {
                (Some(f), Some(t)) => Some(
                    MapsLine {
                        from: f as usize,
                        to: t as usize,
                        read: p.len() > 0 && p[0] == 0x72,
                        write: p.len() > 1 && p[1] == 0x77,
                        execute: p.len() > 2 && p[2] == 0x78,
                        name,
                    },
                ),
                _ => None,
            },
        }
    }
}

/// Whether `r` is the region the maps line `m` describes.
pub open spec fn region_is(r: MapRegion, m: MapsLine) -> bool {
    &&& r.from == m.from
    &&& r.to == m.to
    &&& r.read == m.read
    &&& r.write == m.write
    &&& r.execute == m.execute
    &&& r.name@ == m.name
    &&& r.kind == region_kind(m.name)
}

fn has_prefix(s: &[char], p: &[char]) -> (r: bool)
    ensures
        r == starts_with(s@, p@),
{
    if s.len() < p.len() {
        return false;
    }
    let head = sub_chars(s, 0, p.len());
    chars_eq(head.as_slice(), p)
}

fn find_char(s: &[char], c: char) -> (r: Option<usize>)
    ensures
        match r {
            Some(i) => find_from(s@, c, 0) == Some(i as int),
            None => find_from(s@, c, 0) is None,
        },
{
    let mut i: usize = 0;
    while i < s.len()
        invariant
            i <= s@.len(),
            find_from(s@, c, 0) == find_from(s@, c, i as int),
        decreases s.len() - i,
    {
        if s[i] == c {
            return Some(i);
        }
        i = i + 1;
    }
    None
}

proof fn lemma_find_from_in_bounds(s: Seq<char>, c: char, i: int)
    requires
        0 <= i,
    ensures
        find_from(s, c, i) matches Some(j) ==> i <= j < s.len() && s[j] == c,
    decreases s.len() - i,
{
    if i < s.len() && s[i] != c {
        lemma_find_from_in_bounds(s, c, i + 1);
    }
}

fn is_literal(s: &[char], lit: &str) -> (r: bool)
    ensures
        r == (s@ == lit@),
{
    let l = str_chars(lit);
    chars_eq(s, l.as_slice())
}

/// The role of a region named `name`.
pub fn classify_region(name: &[char]) -> (r: RegionKind)
    ensures
        r == region_kind(name@),
{
    let stack = str_chars("[stack");
    if name.len() == 0 {
        RegionKind::Anon
    } else if is_literal(name, "[heap]") {
        RegionKind::Heap
    } else if has_prefix(name, stack.as_slice()) {
        RegionKind::Stack
    } else if is_literal(name, "[vdso]") || is_literal(name, "[vvar]") || is_literal(
        name,
        "[vsyscall]",
    ) {
        RegionKind::Vdso
    } else if name[0] == '/' {
        RegionKind::Module
    } else {
        RegionKind::Other
    }
}

/// Parses one `/proc/<pid>/maps` line, e.g.
/// `55d4…-55d4… r-xp 00001000 08:02 1234  /usr/bin/foo`.
pub fn parse_maps_line(line: &str) -> (r: Option<MapRegion>)
    ensures
        match (r, maps_line_spec(line@)) {
            (Some(reg), Some(m)) => region_is(reg, m),
            (None, None) => true,
            _ => false,
        },
{
    let chars = str_chars(line);
    let toks = split_ws(chars.as_slice());
    let ghost ts = tokens_from(line@, 0);
    if toks.len() < 2 {
        return None;
    }
    let mut name = String::new();
    let mut k: usize = 5;
    proof {
        if ts.len() > 5 {
            assert(ts.skip(5).take(0) =~= seq![]);
        }
    }
    while k < toks.len()
        invariant
            toks@.len() == ts.len(),
            forall|i: int| 0 <= i < toks@.len() ==> (#[trigger] toks@[i])@ == ts[i],
            5 <= k,
            k <= toks@.len() || (k == 5 && toks@.len() <= 5),
            ts.len() > 5 ==> name@ == join_spaced(ts.skip(5).take(k - 5)),
            ts.len() <= 5 ==> name@ == Seq::<char>::empty(),
        decreases toks.len() - k,
    {
        let ghost before = ts.skip(5).take(k - 5);
        let ghost after = ts.skip(5).take(k + 1 - 5);
        assert(after.drop_last() =~= before);
        assert(after.last() == toks@[k as int]@);
        if k > 5 {
            push_char(&mut name, ' ');
        } else {
            assert(after =~= seq![toks@[k as int]@]);
        }
        push_chars(&mut name, toks[k].as_slice());
        proof {
            if k > 5 {
                assert(name@ =~= join_spaced(before) + seq![' '] + after.last());
            } else {
                assert(name@ =~= after[0]);
            }
        }
        k = k + 1;
    }
    proof {
        if ts.len() > 5 {
            assert(ts.skip(5).take(ts.len() - 5) =~= ts.skip(5));
        }
    }
    let range = &toks[0];
    let rs = range.as_slice();
    let dash = match find_char(rs, '-') {
        Some(d) => d,
        None => return None,
    };
    proof {
        lemma_find_from_in_bounds(rs@, '-', 0);
    }
    assert(dash < range@.len());
    assert(dash < rs.len());
    let fpart = sub_chars(range.as_slice(), 0, dash);
    let tpart = sub_chars(range.as_slice(), dash + 1, range.len());
    assert(fpart@ =~= ts[0].take(dash as int));
    assert(tpart@ =~= ts[0].skip(dash + 1));
    let from = match parse_hex_chars(fpart.as_slice(), usize::MAX as u128) {
        Some(v) => v as usize,
        None => return None,
    };
    let to = match parse_hex_chars(tpart.as_slice(), usize::MAX as u128) {
        Some(v) => v as usize,
        None => return None,
    };
    let perms = string_of(toks[1].as_slice());
    let p = perms.as_str().as_bytes();
    let read = p.len() > 0 && p[0] == 0x72;
    let write = p.len() > 1 && p[1] == 0x77;
    let execute = p.len() > 2 && p[2] == 0x78;
    let nchars = str_chars(name.as_str());
    let kind = classify_region(nchars.as_slice());
    Some(MapRegion { from, to, read, write, execute, name, kind })
}

impl MapRegion {
    /// Size in bytes (0 for an inverted range).
    pub fn size(&self) -> (r: usize)
        ensures
            r == (if self.to >= self.from { (self.to - self.from) as usize } else { 0 }),
    {
        self.to.saturating_sub(self.from)
    }

    /// A short display label: the name, or `anon 0x…` (the start address in
    /// lower-case hex) for a region without one.
    pub fn label(&self) -> (s: String)
        ensures
            s@ == (if self.name@.len() == 0 {
                "anon 0x"@ + hex_lower(self.from as nat)
            } else {
                self.name@
            }),
    {
        let n = str_chars(self.name.as_str());
        if n.len() == 0 {
            let mut s = String::from_str("anon 0x");
            push_hex(&mut s, self.from as u128);
            s
        } else {
            string_of(n.as_slice())
        }
    }
}

// --- strings & functions --------------------------------------------------

/// A printable-ASCII string found in memory.
#[derive(Debug, Clone)]
pub struct StringHit {
    /// Address of the first byte.
    pub addr: usize,
    /// The decoded text.
    pub text: String,
}

/// Printable ASCII (space through `~`).
pub open spec fn printable(b: u8) -> bool {
    0x20 <= b <= 0x7e
}

/// The state of a left-to-right string scan: where the current run of
/// printable bytes began, the run itself, and the runs emitted so far.
pub struct StringScan {
    /// Offset at which the current (or last) run began.
    pub run_start: int,
    /// The current run.
    pub run: Seq<u8>,
    /// Emitted `(offset, bytes)` runs.
    pub hits: Seq<(int, Seq<u8>)>,
}

/// Ends the current run: it is emitted when it holds at least `min_len`
/// bytes.
pub open spec fn end_run(st: StringScan, min_len: nat) -> StringScan {
    StringScan {
        run_start: st.run_start,
        run: seq![],
        hits: if st.run.len() >= min_len {
            st.hits.push((st.run_start, st.run))
        } else {
            st.hits
        },
    }
}

/// The scan state after the first `n` bytes: a printable byte extends the
/// current run (starting one if there is none), any other byte ends it.
pub open spec fn scan_strings(bytes: Seq<u8>, min_len: nat, n: nat) -> StringScan
    decreases n,
{
    if n == 0 {
        StringScan { run_start: 0, run: seq![], hits: seq![] }
    } else {
        let st = scan_strings(bytes, min_len, (n - 1) as nat);
        let b = bytes[n - 1];
        if printable(b) {
            StringScan {
                run_start: if st.run.len() == 0 {
                    n - 1
                } else {
                    st.run_start
                },
                run: st.run.push(b),
                hits: st.hits,
            }
        } else {
            end_run(st, min_len)
        }
    }
}

/// The runs of printable bytes that a full scan of `bytes` emits, the last
/// run being ended by the end of the input.
pub open spec fn string_runs(bytes: Seq<u8>, min_len: nat) -> Seq<(int, Seq<u8>)> {
    end_run(scan_strings(bytes, min_len, bytes.len()), min_len).hits
}

/// Bytes read as the characters of the same code.
pub open spec fn ascii_text(b: Seq<u8>) -> Seq<char> {
    b.map_values(|x: u8| x as char)
}

/// Whether `h` is the string found at run `run` of memory starting at
/// `start`.
pub open spec fn hit_is(h: StringHit, start: usize, run: (int, Seq<u8>)) -> bool {
    h.addr == start + run.0 && h.text@ == ascii_text(run.1)
}

/// Appends the emitted run, if long enough, as a hit.
fn flush_run(
    out: &mut Vec<StringHit>,
    run: &Vec<u8>,
    run_start: usize,
    start: usize,
    min_len: usize,
)
    requires
        start + run_start <= usize::MAX,
    ensures
        run@.len() >= min_len ==> final(out)@ == old(out)@.push(
            StringHit { addr: (start + run_start) as usize, text: final(out)@.last().text },
        ) && final(out)@.last().text@ == ascii_text(run@),
        run@.len() < min_len ==> final(out)@ == old(out)@,
{
    if run.len() >= min_len {
        let mut text = String::new();
        let mut i: usize = 0;
        while i < run.len()
            invariant
                i <= run@.len(),
                text@ == ascii_text(run@.take(i as int)),
            decreases run.len() - i,
        {
            push_char(&mut text, run[i] as char);
            i = i + 1;
            assert(text@ =~= ascii_text(run@.take(i as int)));
        }
        assert(run@.take(run@.len() as int) =~= run@);
        out.push(StringHit { addr: start + run_start, text });
    }
}

/// Extracts the runs of printable ASCII of at least `min_len` bytes from
/// `bytes`, whose first byte is at `start`.
pub fn strings_in(bytes: &[u8], start: usize, min_len: usize) -> (out: Vec<StringHit>)
    requires
        start + bytes@.len() <= usize::MAX,
    ensures
        out@.len() == string_runs(bytes@, min_len as nat).len(),
        forall|k: int|
            0 <= k < out@.len() ==> hit_is(
                #[trigger] out@[k],
                start,
                string_runs(bytes@, min_len as nat)[k],
            ),
{
    let n = bytes.len();
    let mut out: Vec<StringHit> = Vec::new();
    let mut run_start: usize = 0;
    let mut run: Vec<u8> = Vec::new();
    let mut i: usize = 0;
    while i < n
        invariant
            n == bytes@.len(),
            start + n <= usize::MAX,
            i <= n,
            scan_strings(bytes@, min_len as nat, i as nat).run_start == run_start as int,
            scan_strings(bytes@, min_len as nat, i as nat).run == run@,
            run_start <= i,
            run_start < n || i == 0 || run_start <= n,
            out@.len() == scan_strings(bytes@, min_len as nat, i as nat).hits.len(),
            forall|k: int|
                0 <= k < out@.len() ==> hit_is(
                    #[trigger] out@[k],
                    start,
                    scan_strings(bytes@, min_len as nat, i as nat).hits[k],
                ),
        decreases n - i,
    {
        let b = bytes[i];
        if 0x20 <= b && b <= 0x7e {
            if run.len() == 0 {
                run_start = i;
            }
            run.push(b);
        } else {
            let ghost before = out@;
            flush_run(&mut out, &run, run_start, start, min_len);
            run.clear();
            assert(forall|k: int| 0 <= k < before.len() ==> out@[k] == before[k]);
        }
        i = i + 1;
    }
    let ghost before = out@;
    flush_run(&mut out, &run, run_start, start, min_len);
    assert(forall|k: int| 0 <= k < before.len() ==> out@[k] == before[k]);
    out
}

/// Whether the values of `v` strictly increase.
pub open spec fn strictly_increasing(v: Seq<usize>) -> bool {
    forall|i: int, j: int| 0 <= i < j < v.len() ==> v[i] < v[j]
}

/// Adds `x` to the strictly increasing `v`, keeping it so.
fn insert_sorted(v: &mut Vec<usize>, x: usize)
    requires
        strictly_increasing(old(v)@),
    ensures
        strictly_increasing(final(v)@),
        forall|t: usize| final(v)@.contains(t) <==> (old(v)@.contains(t) || t == x),
{
    let mut i: usize = 0;
    while i < v.len() && v[i] < x
        invariant
            i <= v@.len(),
            forall|j: int| 0 <= j < i ==> v@[j] < x,
        decreases v.len() - i,
    {
        i = i + 1;
    }
    if i < v.len() && v[i] == x {
        assert(v@[i as int] == x);
        return;
    }
    let ghost old_v = v@;
    assert(old_v == old(v)@);
    v.insert(i, x);
    assert(v@ =~= old_v.take(i as int).push(x) + old_v.skip(i as int));
    assert forall|t: usize| v@.contains(t) <==> (old_v.contains(t) || t == x) by {
        if old_v.contains(t) {
            let j = choose|j: int| 0 <= j < old_v.len() && old_v[j] == t;
            if j < i {
                assert(v@[j] == t);
            } else {
                assert(v@[j + 1] == t);
            }
        }
        if v@.contains(t) {
            let j = choose|j: int| 0 <= j < v@.len() && v@[j] == t;
            if j < i {
                assert(old_v[j] == t);
            } else if j > i {
                assert(old_v[j - 1] == t);
            }
        }
        if t == x {
            assert(v@[i as int] == x);
        }
    }
    assert(forall|t: usize| v@.contains(t) <==> (old(v)@.contains(t) || t == x));
}

/// Whether `t` is the resolved target of a call in `insns`.
pub open spec fn is_call_target(insns: Seq<Insn>, t: usize) -> bool {
    exists|i: int| 0 <= i < insns.len() && (#[trigger] insns[i]).kind == FlowKind::Call && insns[i].target == Some(t)
}

/// Direct near-call targets referenced by `insns`, sorted and deduplicated.
pub fn call_targets(insns: &[Insn]) -> (v: Vec<usize>)
    ensures
        strictly_increasing(v@),
        forall|t: usize| v@.contains(t) <==> is_call_target(insns@, t),
{
    let mut v: Vec<usize> = Vec::new();
    let mut i: usize = 0;
    while i < insns.len()
        invariant
            i <= insns@.len(),
            strictly_increasing(v@),
            forall|t: usize| v@.contains(t) <==> is_call_target(insns@.take(i as int), t),
        decreases insns.len() - i,
    {
        let ghost pre = insns@.take(i as int);
        let ghost post = insns@.take(i + 1);
        assert(forall|k: int| 0 <= k < pre.len() ==> pre[k] == post[k]);
        assert(post[i as int] == insns@[i as int]);
        if insns[i].kind == FlowKind::Call {
            match insns[i].target {
                Some(t) => {
                    insert_sorted(&mut v, t);
                },
                None => {},
            }
        }
        proof {
            assert forall|t: usize| v@.contains(t) <==> is_call_target(post, t) by {
                if is_call_target(post, t) {
                    let k = choose|k: int| 0 <= k < post.len() && (#[trigger] post[k]).kind == FlowKind::Call && post[k].target == Some(t);
                    if k < i {
                        assert(pre[k] == post[k]);
                        assert(is_call_target(pre, t));
                    }
                }
                if is_call_target(pre, t) {
                    let k = choose|k: int| 0 <= k < pre.len() && (#[trigger] pre[k]).kind == FlowKind::Call && pre[k].target == Some(t);
                    assert(post[k] == pre[k]);
                }
            }
        }
        i = i + 1;
    }
    assert(insns@.take(insns@.len() as int) =~= insns@);
    v
}

/// Whether `code[i..i + 4]` is the frame-setup prologue
/// `push rbp; mov rbp, rsp` (`55 48 89 E5`).
pub open spec fn prologue_at(code: Seq<u8>, i: int) -> bool {
    0 <= i && i + 4 <= code.len() && code[i] == 0x55 && code[i + 1] == 0x48 && code[i + 2]
        == 0x89 && code[i + 3] == 0xE5
}

/// Whether decoding all of `code` (first byte at `start`) meets a valid call
/// whose resolved target is `t`.
pub open spec fn code_calls(code: Seq<u8>, start: usize, t: usize) -> bool {
    let ps = decode_starts(code, start, 0, usize::MAX as nat);
    exists|k: int|
        0 <= k < ps.len() && !(#[trigger] decoded_at(code, start, ps[k])).invalid && classify_spec(
            decoded_at(code, start, ps[k]).flow,
            decoded_at(code, start, ps[k]).near_target,
        ) == (FlowKind::Call, Some(t))
}

/// Whether `t` is a function entry found in `code` (first byte at `start`):
/// a call target inside the range, or the start of a prologue.
pub open spec fn function_entry(code: Seq<u8>, start: usize, t: usize) -> bool {
    ||| (code_calls(code, start, t) && start <= t < start + code.len())
    ||| exists|i: int| prologue_at(code, i) && t == start + i
}

/// Best-effort function-entry discovery over code bytes whose first byte is
/// at `start`: call targets that land inside the range plus the starts of
/// `push rbp; mov rbp, rsp` prologues, sorted and deduplicated.
pub fn functions_in(bytes: &[u8], start: usize) -> (v: Vec<usize>)
    requires
        start + bytes@.len() <= usize::MAX,
    ensures
        strictly_increasing(v@),
        forall|t: usize| v@.contains(t) <==> function_entry(bytes@, start, t),
{
    let end = start + bytes.len();
    let insns = disassemble_bytes(bytes, start, usize::MAX);
    let targets = call_targets(insns.as_slice());
    proof {
        let ps = decode_starts(bytes@, start, 0, usize::MAX as nat);
        assert forall|t: usize| is_call_target(insns@, t) <==> code_calls(bytes@, start, t) by {
            if is_call_target(insns@, t) {
                let k = choose|k: int| 0 <= k < insns@.len() && (#[trigger] insns@[k]).kind == FlowKind::Call && insns@[k].target == Some(t);
                assert(insn_is(insns@[k], bytes@, start, ps[k]));
                assert(!decoded_at(bytes@, start, ps[k]).invalid);
            }
            if code_calls(bytes@, start, t) {
                let k = choose|k: int|
                    0 <= k < ps.len() && !(#[trigger] decoded_at(bytes@, start, ps[k])).invalid && classify_spec(
                        decoded_at(bytes@, start, ps[k]).flow,
                        decoded_at(bytes@, start, ps[k]).near_target,
                    ) == (FlowKind::Call, Some(t));
                assert(insn_is(insns@[k], bytes@, start, ps[k]));
                assert(insns@[k].kind == FlowKind::Call);
            }
        }
    }
    let mut funcs: Vec<usize> = Vec::new();
    let mut j: usize = 0;
    while j < targets.len()
        invariant
            j <= targets@.len(),
            end == start + bytes@.len(),
            strictly_increasing(funcs@),
            forall|t: usize| targets@.contains(t) <==> code_calls(bytes@, start, t),
            forall|t: usize|
                funcs@.contains(t) <==> (exists|q: int| 0 <= q < j && #[trigger] targets@[q] == t)
                    && start <= t < end,
        decreases targets.len() - j,
    {
        let t = targets[j];
        if t >= start && t < end {
            insert_sorted(&mut funcs, t);
        }
        proof {
            assert forall|u: usize|
                funcs@.contains(u) <==> (exists|q: int| 0 <= q < j + 1 && #[trigger] targets@[q] == u)
                    && start <= u < end by {
                if exists|q: int| 0 <= q < j + 1 && #[trigger] targets@[q] == u {
                    let q = choose|q: int| 0 <= q < j + 1 && #[trigger] targets@[q] == u;
                    if q < j {
                        assert(exists|q2: int| 0 <= q2 < j && #[trigger] targets@[q2] == u);
                    }
                }
                if exists|q: int| 0 <= q < j && #[trigger] targets@[q] == u {
                    let q = choose|q: int| 0 <= q < j && #[trigger] targets@[q] == u;
                    assert(0 <= q < j + 1 && targets@[q] == u);
                }
                if u == t {
                    assert(targets@[j as int] == u);
                }
            }
        }
        j = j + 1;
    }
    let n = bytes.len();
    let mut i: usize = 0;
    if n >= 4 {
        while i < n - 3
            invariant
                n == bytes@.len(),
                n >= 4,
                i <= n - 3,
                end == start + n,
                strictly_increasing(funcs@),
                forall|t: usize| targets@.contains(t) <==> code_calls(bytes@, start, t),
                forall|t: usize|
                    funcs@.contains(t) <==> ((targets@.contains(t) && start <= t < end) || exists|q: int|
                        0 <= q < i && prologue_at(bytes@, q) && t == start + q),
            decreases n - i,
        {
            if bytes[i] == 0x55 && bytes[i + 1] == 0x48 && bytes[i + 2] == 0x89 && bytes[i + 3] == 0xE5 {
                insert_sorted(&mut funcs, start + i);
            }
            proof {
                assert forall|u: usize|
                    funcs@.contains(u) <==> ((targets@.contains(u) && start <= u < end) || exists|q: int|
                        0 <= q < i + 1 && prologue_at(bytes@, q) && u == start + q) by {
                    if exists|q: int| 0 <= q < i + 1 && prologue_at(bytes@, q) && u == start + q {
                        let q = choose|q: int| 0 <= q < i + 1 && prologue_at(bytes@, q) && u == start + q;
                        if q < i {
                            assert(exists|q2: int| 0 <= q2 < i && prologue_at(bytes@, q2) && u == start + q2);
                        }
                    }
                    if exists|q: int| 0 <= q < i && prologue_at(bytes@, q) && u == start + q {
                        let q = choose|q: int| 0 <= q < i && prologue_at(bytes@, q) && u == start + q;
                        assert(0 <= q < i + 1 && prologue_at(bytes@, q) && u == start + q);
                    }
                    if prologue_at(bytes@, i as int) && u == start + i {
                        assert(0 <= i < i + 1 && prologue_at(bytes@, i as int) && u == start + i);
                    }
                }
            }
            i = i + 1;
        }
    }
    proof {
        assert forall|t: usize| funcs@.contains(t) <==> function_entry(bytes@, start, t) by {
            if exists|q: int| prologue_at(bytes@, q) && t == start + q {
                let q = choose|q: int| prologue_at(bytes@, q) && t == start + q;
                assert(q < i);
            }
            if targets@.contains(t) && start <= t < end {
            }
        }
    }
    funcs
}
} // verus!
