//! Processes, their modules and their memory map, as the library reasons
//! about them: lookups by name, protection queries, readable-address tests,
//! pattern scans over read memory, and the folding of `/proc/<pid>/maps`
//! lines into per-file module ranges.

use vstd::prelude::*;
use vstd::string::*;
use vstd::utf8::*;
use crate::error::{MfError, SdkError};
use crate::offset::str_from_utf8;
use crate::format::ascii_lower;
use crate::pattern::{matches_seq, DynPattern};
use crate::text::{
    chars_eq, parse_hex, parse_hex_chars, split_ws, str_chars, string_of, sub_chars, tokens_from,
};
use crate::types::{find_from, lemma_find_from_bounds};

verus! {

/// A process of the system, by id.
#[derive(Debug)]
pub struct OwnedProcess(pub u32);

impl OwnedProcess {
    /// The id of the process.
    pub fn id(&self) -> (r: u32)
        ensures
            r == self.0,
    {
        self.0
    }
}

/// Basic information about a running process.
#[derive(Debug, Clone)]
pub struct ProcessInfo {
    /// Process id.
    pub id: u32,
    /// Process (image) name.
    pub name: String,
    /// Parent process id.
    pub parent_id: u32,
}

/// Base address, size and name of a loaded module.
#[derive(Debug, Clone)]
pub struct ModuleInfo {
    /// Module base address in the target's address space.
    pub base: usize,
    /// Module size in bytes.
    pub size: usize,
    /// Module file name (e.g. `game.exe`).
    pub name: String,
}

/// Access rights of a mapped region.
#[derive(Debug, Clone, Copy, PartialEq, Eq, Structural)]
pub struct Protection {
    /// Readable.
    pub read: bool,
    /// Writable.
    pub write: bool,
    /// Executable.
    pub execute: bool,
}

/// A mapped region of a process and its access rights.
#[derive(Debug, Clone, Copy, PartialEq, Eq, Structural)]
pub struct MemoryRegion {
    /// Start address (inclusive).
    pub from: usize,
    /// End address (exclusive).
    pub to: usize,
    /// Access rights.
    pub prot: Protection,
}

/// Whether two names are equal ignoring ASCII case.
pub open spec fn ascii_ieq(a: Seq<char>, b: Seq<char>) -> bool {
    a.len() == b.len() && forall|i: int| 0 <= i < a.len() ==> ascii_lower(#[trigger] a[i]) == ascii_lower(b[i])
}

/// Whether two names are equal ignoring ASCII case.
pub fn eq_ignore_ascii_case(a: &str, b: &str) -> (r: bool)
    ensures
        r == ascii_ieq(a@, b@),
{
    let x = str_chars(a);
    let y = str_chars(b);
    if x.len() != y.len() {
        return false;
    }
    let mut i: usize = 0;
    while i < x.len()
        invariant
            x@ == a@,
            y@ == b@,
            x@.len() == y@.len(),
            i <= x@.len(),
            forall|k: int| 0 <= k < i ==> ascii_lower(#[trigger] x@[k]) == ascii_lower(y@[k]),
        decreases x.len() - i,
    {
        let c = x[i];
        let d = y[i];
        let lc = if 'A' <= c && c <= 'Z' { ((c as u32) + 32) as u8 as char } else { c };
        let ld = if 'A' <= d && d <= 'Z' { ((d as u32) + 32) as u8 as char } else { d };
        assert(lc == ascii_lower(c) && ld == ascii_lower(d));
        if lc != ld {
            return false;
        }
        i = i + 1;
    }
    true
}

/// The first index at or after `i` whose name equals `name` ignoring ASCII
/// case.
pub open spec fn first_named(names: Seq<Seq<char>>, name: Seq<char>, i: int) -> Option<int>
    decreases names.len() - i,
{
    if i < 0 || i >= names.len() {
        None
    } else if ascii_ieq(names[i], name) {
        Some(i)
    } else {
        first_named(names, name, i + 1)
    }
}

/// The names of `modules`, in order.
pub open spec fn module_names(modules: Seq<ModuleInfo>) -> Seq<Seq<char>> {
    modules.map_values(|m: ModuleInfo| m.name@)
}

/// The names of `procs`, in order.
pub open spec fn process_names(procs: Seq<ProcessInfo>) -> Seq<Seq<char>> {
    procs.map_values(|p: ProcessInfo| p.name@)
}

/// The index of the first module named `name`, ignoring ASCII case.
pub fn module_index(modules: &[ModuleInfo], name: &str) -> (r: Option<usize>)
    ensures
        match r {
            Some(i) => first_named(module_names(modules@), name@, 0) == Some(i as int),
            None => first_named(module_names(modules@), name@, 0) is None,
        },
        r matches Some(i) ==> i < modules@.len(),
{
    let mut i: usize = 0;
    while i < modules.len()
        invariant
            i <= modules@.len(),
            first_named(module_names(modules@), name@, 0) == first_named(module_names(modules@), name@, i as int),
        decreases modules.len() - i,
    {
        assert(module_names(modules@)[i as int] == modules@[i as int].name@);
        if eq_ignore_ascii_case(modules[i].name.as_str(), name) {
            return Some(i);
        }
        i = i + 1;
    }
    None
}

fn copy_module(m: &ModuleInfo) -> (r: ModuleInfo)
    ensures
        r.base == m.base,
        r.size == m.size,
        r.name@ == m.name@,
{
    let n = str_chars(m.name.as_str());
    ModuleInfo { base: m.base, size: m.size, name: string_of(n.as_slice()) }
}

/// Finds a module by name, ignoring ASCII case.
pub fn find_module(modules: &[ModuleInfo], name: &str) -> (r: Result<ModuleInfo, MfError>)
    ensures
        match first_named(module_names(modules@), name@, 0) {
            Some(i) => r matches Ok(m) && m.base == modules@[i].base && m.size == modules@[i].size
                && m.name@ == modules@[i].name@,
            None => r == Err::<ModuleInfo, MfError>(MfError::ModuleNotFound),
        },
{
    match module_index(modules, name) {
        Some(i) => Ok(copy_module(&modules[i])),
        None => Err(MfError::ModuleNotFound),
    }
}

/// Finds a module of a target by name, ignoring ASCII case; the error
/// names the module that was asked for.
pub fn module_named(modules: &[ModuleInfo], name: &str) -> (r: Result<ModuleInfo, SdkError>)
    ensures
        match first_named(module_names(modules@), name@, 0) {
            Some(i) => r matches Ok(m) && m.base == modules@[i].base && m.size == modules@[i].size
                && m.name@ == modules@[i].name@,
            None => r matches Err(SdkError::ModuleNotFound(n)) && n@ == name@,
        },
{
    match module_index(modules, name) {
        Some(i) => Ok(copy_module(&modules[i])),
        None => Err(SdkError::ModuleNotFound(String::from_str(name))),
    }
}

/// Finds the first process named `name`, ignoring ASCII case.
pub fn find_process_by_name(procs: &[ProcessInfo], name: &str) -> (r: Result<OwnedProcess, MfError>)
    ensures
        match first_named(process_names(procs@), name@, 0) {
            Some(i) => r matches Ok(p) && p.0 == procs@[i].id,
            None => r matches Err(MfError::ProcessNotFound),
        },
{
    let mut i: usize = 0;
    while i < procs.len()
        invariant
            i <= procs@.len(),
            first_named(process_names(procs@), name@, 0) == first_named(process_names(procs@), name@, i as int),
        decreases procs.len() - i,
    {
        assert(process_names(procs@)[i as int] == procs@[i as int].name@);
        if eq_ignore_ascii_case(procs[i].name.as_str(), name) {
            return Ok(OwnedProcess(procs[i].id));
        }
        i = i + 1;
    }
    Err(MfError::ProcessNotFound)
}

/// The first region at or after `i` that contains `address`.
pub open spec fn region_at(maps: Seq<MemoryRegion>, address: usize, i: int) -> Option<int>
    decreases maps.len() - i,
{
    if i < 0 || i >= maps.len() {
        None
    } else if maps[i].from <= address < maps[i].to {
        Some(i)
    } else {
        region_at(maps, address, i + 1)
    }
}

/// The protection of the mapping that contains `address`; `None` when no
/// mapping does.
pub fn query(maps: &[MemoryRegion], address: usize) -> (r: Option<Protection>)
    ensures
        r == (match region_at(maps@, address, 0) {
            Some(i) => Some(maps@[i].prot),
            None => None,
        }),
{
    let mut i: usize = 0;
    while i < maps.len()
        invariant
            i <= maps@.len(),
            region_at(maps@, address, 0) == region_at(maps@, address, i as int),
        decreases maps.len() - i,
    {
        if maps[i].from <= address && address < maps[i].to {
            return Some(maps[i].prot);
        }
        i = i + 1;
    }
    None
}

/// Whether some readable mapping contains `address`.
pub fn can_read(maps: &[MemoryRegion], address: usize) -> (r: bool)
    ensures
        r == (exists|i: int| 0 <= i < maps@.len() && #[trigger] maps@[i].from <= address < maps@[i].to
            && maps@[i].prot.read),
{
    let mut i: usize = 0;
    while i < maps.len()
        invariant
            i <= maps@.len(),
            forall|k: int| 0 <= k < i ==> !(#[trigger] maps@[k].from <= address < maps@[k].to && maps@[k].prot.read),
        decreases maps.len() - i,
    {
        if maps[i].from <= address && address < maps[i].to && maps[i].prot.read {
            return true;
        }
        i = i + 1;
    }
    false
}

/// The addresses `start + i` at which `pat` matches `buf[i..]`, for every
/// offset with room for the whole pattern (none for an empty pattern).
pub open spec fn scan_hits(pat: Seq<crate::pattern::ByteMatch>, buf: Seq<u8>, start: int) -> Seq<int> {
    if pat.len() == 0 || buf.len() < pat.len() {
        seq![]
    } else {
        Seq::new((buf.len() - pat.len() + 1) as nat, |i: int| i).filter(
            |i: int| matches_seq(pat, buf.subrange(i, i + pat.len())),
        ).map_values(|i: int| start + i)
    }
}

/// Every address at which `pat` matches within `buf`, which was read at
/// `start`, in increasing order.
pub fn scan_buffer(pat: &DynPattern, buf: &[u8], start: usize) -> (r: Vec<usize>)
    requires
        start + buf@.len() <= usize::MAX,
    ensures
        r@.map_values(|a: usize| a as int) == scan_hits(pat@, buf@, start as int),
{
    let plen = pat.len();
    let len = buf.len();
    let mut out: Vec<usize> = Vec::new();
    if plen == 0 || len < plen {
        return out;
    }
    let ghost idx = Seq::new((len - plen + 1) as nat, |i: int| i);
    let ghost pred = |i: int| matches_seq(pat@, buf@.subrange(i, i + pat@.len()));
    let mut i: usize = 0;
    while i <= len - plen
        invariant
            plen == pat@.len(),
            len == buf@.len(),
            1 <= plen <= len,
            start + len <= usize::MAX,
            i <= len - plen + 1,
            idx == Seq::new((len - plen + 1) as nat, |i: int| i),
            pred == (|i: int| matches_seq(pat@, buf@.subrange(i, i + pat@.len()))),
            out@.map_values(|a: usize| a as int) == idx.take(i as int).filter(pred).map_values(|k: int| start + k),
        decreases len - plen + 1 - i,
    {
        let w = vstd::slice::slice_subrange(buf, i, i + plen);
        proof {
            reveal(Seq::filter);
            assert(idx.take(i + 1).drop_last() =~= idx.take(i as int));
            assert(idx.take(i + 1).last() == i as int);
        }
        let ghost before = out@;
        if pat.matches(w) {
            out.push(start + i);
            assert(out@.map_values(|a: usize| a as int) =~= before.map_values(|a: usize| a as int).push(start + i));
        }
        i = i + 1;
    }
    assert(idx.take(i as int) =~= idx);
    out
}


/// The file-backed mapping a maps line names, when it has exactly six fields
/// (range, perms, offset, device, inode, path): the path and the range.
pub open spec fn module_line_spec(line: Seq<char>) -> Option<(Seq<char>, nat, nat)> {
    let toks = tokens_from(line, 0);
    if toks.len() != 6 {
        None
    } else {
        match find_from(toks[0], '-', 0) {
            Some(d) => match (
                parse_hex(toks[0].take(d), usize::MAX as nat),
                parse_hex(toks[0].skip(d + 1), usize::MAX as nat),
            ) {
                (Some(f), Some(t)) => Some((toks[5], f, t)),
                _ => None,
            },
            None => None,
        }
    }
}

/// Whether a six-field maps line carries a well-formed `from-to` range of
/// hex addresses (the kernel always writes one).
pub open spec fn module_line_ok(line: Seq<char>) -> bool {
    let toks = tokens_from(line, 0);
    toks.len() != 6 || (find_from(toks[0], '-', 0) matches Some(d) && parse_hex(
        toks[0].take(d),
        usize::MAX as nat,
    ) is Some && parse_hex(toks[0].skip(d + 1), usize::MAX as nat) is Some)
}

/// The `from-to` hex range a maps line's first field spells.
pub open spec fn hex_range_spec(range: Seq<char>) -> Option<(nat, nat)> {
    match find_from(range, '-', 0) {
        Some(d) => match (
            parse_hex(range.take(d), usize::MAX as nat),
            parse_hex(range.skip(d + 1), usize::MAX as nat),
        ) {
            (Some(f), Some(t)) => Some((f, t)),
            _ => None,
        },
        None => None,
    }
}

/// Reads a `from-to` range of hex addresses.
fn hex_range(range: &[char]) -> (r: Option<(usize, usize)>)
    ensures
        match (r, hex_range_spec(range@)) {
            (Some((f, t)), Some((fs, ts))) => f == fs && t == ts,
            (None, None) => true,
            _ => false,
        },
{
    let mut d: usize = 0;
    proof {
        lemma_find_from_bounds(range@, '-', 0);
    }
    while d < range.len() && range[d] != '-'
        invariant
            d <= range@.len(),
            find_from(range@, '-', 0) == find_from(range@, '-', d as int),
        decreases range.len() - d,
    {
        d = d + 1;
    }
    if d >= range.len() {
        return None;
    }
    let f = sub_chars(range, 0, d);
    let t = sub_chars(range, d + 1, range.len());
    assert(f@ =~= range@.take(d as int));
    assert(t@ =~= range@.skip(d + 1));
    let from = match parse_hex_chars(f.as_slice(), usize::MAX as u128) {
        Some(v) => v as usize,
        None => return None,
    };
    let to = match parse_hex_chars(t.as_slice(), usize::MAX as u128) {
        Some(v) => v as usize,
        None => return None,
    };
    Some((from, to))
}

/// Whether a maps line is one `module_line` accepts: not a six-field line,
/// or one whose range is well formed.
pub fn module_line_sound(line: &str) -> (r: bool)
    ensures
        r == module_line_ok(line@),
{
    let chars = str_chars(line);
    let toks = split_ws(chars.as_slice());
    if toks.len() != 6 {
        return true;
    }
    hex_range(toks[0].as_slice()).is_some()
}

/// Reads the file-backed mapping of a six-field maps line: its path and its
/// address range.
pub fn module_line(line: &str) -> (r: Option<(Vec<char>, usize, usize)>)
    requires
        module_line_ok(line@),
    ensures
        match (r, module_line_spec(line@)) {
            (Some((p, f, t)), Some((ps, fs, ts))) => p@ == ps && f == fs && t == ts,
            (None, None) => true,
            _ => false,
        },
{
    let chars = str_chars(line);
    let toks = split_ws(chars.as_slice());
    if toks.len() != 6 {
        return None;
    }
    let (from, to) = match hex_range(toks[0].as_slice()) {
        Some(ft) => ft,
        None => return None,
    };
    let path = sub_chars(toks[5].as_slice(), 0, toks[5].len());
    assert(path@ =~= toks@[5]@);
    Some((path, from, to))
}

/// The index of the entry for `path` among `acc`, if any.
pub open spec fn path_index(acc: Seq<(Seq<char>, nat, nat)>, path: Seq<char>) -> Option<int>
    decreases acc.len(),
{
    if acc.len() == 0 {
        None
    } else if acc.last().0 == path {
        Some(acc.len() - 1)
    } else {
        path_index(acc.drop_last(), path)
    }
}

/// Folds the first `n` mappings into one bounding range per file, in the
/// order files first appear (a Wine PE is mapped as many sections).
pub open spec fn merged_ranges(entries: Seq<(Seq<char>, nat, nat)>, n: int) -> Seq<(Seq<char>, nat, nat)>
    decreases n,
{
    if n <= 0 {
        seq![]
    } else {
        let acc = merged_ranges(entries, n - 1);
        let e = entries[n - 1];
        match path_index(acc, e.0) {
            Some(j) => acc.update(
                j,
                (
                    e.0,
                    if e.1 < acc[j].1 { e.1 } else { acc[j].1 },
                    if e.2 > acc[j].2 { e.2 } else { acc[j].2 },
                ),
            ),
            None => acc.push(e),
        }
    }
}

/// The view of a list of `(path, from, to)` mappings.
pub open spec fn ranges_view(v: Seq<(Vec<char>, usize, usize)>) -> Seq<(Seq<char>, nat, nat)> {
    v.map_values(|e: (Vec<char>, usize, usize)| (e.0@, e.1 as nat, e.2 as nat))
}

proof fn lemma_path_index_bound(acc: Seq<(Seq<char>, nat, nat)>, path: Seq<char>)
    ensures
        path_index(acc, path) matches Some(j) ==> 0 <= j < acc.len() && acc[j].0 == path,
    decreases acc.len(),
{
    if acc.len() > 0 && acc.last().0 != path {
        lemma_path_index_bound(acc.drop_last(), path);
    }
}

/// Folds mappings into one bounding range per file, in the order files
/// first appear.
pub fn merge_module_ranges(entries: &[(Vec<char>, usize, usize)]) -> (r: Vec<(Vec<char>, usize, usize)>)
    ensures
        ranges_view(r@) == merged_ranges(ranges_view(entries@), entries@.len() as int),
{
    let mut acc: Vec<(Vec<char>, usize, usize)> = Vec::new();
    let mut k: usize = 0;
    assert(ranges_view(acc@) =~= merged_ranges(ranges_view(entries@), 0));
    while k < entries.len()
        invariant
            k <= entries@.len(),
            ranges_view(acc@) == merged_ranges(ranges_view(entries@), k as int),
        decreases entries.len() - k,
    {
        let e = &entries[k];
        let ghost av = ranges_view(acc@);
        let ghost ev = ranges_view(entries@)[k as int];
        assert(ev == (e.0@, e.1 as nat, e.2 as nat));
        let mut j = acc.len();
        let mut hit: Option<usize> = None;
        assert(av.take(j as int) =~= av);
        while j > 0
            invariant
                j <= acc@.len(),
                av == ranges_view(acc@),
                ev == (e.0@, e.1 as nat, e.2 as nat),
                hit is Some ==> j == 0,
                match hit {
                    Some(i) => path_index(av, ev.0) == Some(i as int),
                    None => path_index(av, ev.0) == path_index(av.take(j as int), ev.0),
                },
            decreases j,
        {
            assert(av.take(j as int).drop_last() =~= av.take(j - 1));
            assert(av.take(j as int).last() == av[j - 1]);
            assert(av[j - 1].0 == acc@[j - 1].0@);
            if chars_eq(acc[j - 1].0.as_slice(), e.0.as_slice()) {
                assert(av[j - 1].0 == ev.0);
                assert(av.take(j as int).len() == j);
                assert(path_index(av.take(j as int), ev.0) == Some(j - 1));
                hit = Some(j - 1);
                j = 0;
            } else {
                j = j - 1;
            }
        }
        proof {
            lemma_path_index_bound(av, ev.0);
        }
        match hit {
            Some(i) => {
                let lo = if e.1 < acc[i].1 { e.1 } else { acc[i].1 };
                let hi = if e.2 > acc[i].2 { e.2 } else { acc[i].2 };
                let p = sub_chars(acc[i].0.as_slice(), 0, acc[i].0.len());
                assert(p@ =~= acc@[i as int].0@);
                acc.set(i, (p, lo, hi));
                assert(ranges_view(acc@) =~= av.update(i as int, (ev.0, lo as nat, hi as nat)));
            },
            None => {
                assert(av.take(0) =~= seq![]);
                let p = sub_chars(e.0.as_slice(), 0, e.0.len());
                assert(p@ =~= e.0@);
                acc.push((p, e.1, e.2));
                assert(ranges_view(acc@) =~= av.push(ev));
            },
        }
        k = k + 1;
    }
    acc
}

/// Whether a module name is a PE image name (`.exe`/`.dll`, any case), whose
/// true size is read from its headers.
pub fn is_pe_name(name: &[char]) -> (r: bool)
    ensures
        r == (crate::wine::ends_with(name@.map_values(|c: char| ascii_lower(c)), ".exe"@)
            || crate::wine::ends_with(name@.map_values(|c: char| ascii_lower(c)), ".dll"@)),
{
    let lower = crate::wine::lower_chars(name);
    crate::wine::ends_with_lit(lower.as_slice(), ".exe") || crate::wine::ends_with_lit(lower.as_slice(), ".dll")
}

/// Bytes read per step while looking for a string's terminating NUL.
pub const STR_STRIDE: usize = 4;

/// The index of the first NUL byte of `c` at or after `i`.
pub open spec fn nul_from(c: Seq<u8>, i: int) -> Option<int>
    decreases c.len() - i,
{
    if i < 0 || i >= c.len() {
        None
    } else if c[i] == 0 {
        Some(i)
    } else {
        nul_from(c, i + 1)
    }
}

/// What reading a NUL-terminated string gives once its bytes are `text`:
/// the string, when they are valid UTF-8.
pub open spec fn decoded_as(r: Result<String, MfError>, text: Seq<u8>) -> bool {
    match r {
        Ok(s) => valid_utf8(text) && encode_utf8(s@) == text,
        Err(e) => !valid_utf8(text) && e == MfError::InvalidString,
    }
}

/// A NUL-terminated string being read from another process's memory,
/// `STR_STRIDE` bytes at a time: the caller reads at `next_address` and
/// hands the bytes to `feed` until it reports the string.
pub struct StrReader {
    start: usize,
    bytes: Vec<u8>,
}

impl StrReader {
    /// The address the string starts at.
    pub closed spec fn start_view(&self) -> usize {
        self.start
    }

    /// The bytes gathered so far, none of them NUL.
    pub closed spec fn bytes_view(&self) -> Seq<u8> {
        self.bytes@
    }

    /// Nothing gathered so far is a NUL byte.
    pub closed spec fn wf(&self) -> bool {
        forall|k: int| 0 <= k < self.bytes@.len() ==> #[trigger] self.bytes@[k] != 0
    }

    /// Starts reading the string at `address`.
    pub fn new(address: usize) -> (r: Self)
        ensures
            r.wf(),
            r.start_view() == address,
            r.bytes_view() == Seq::<u8>::empty(),
    {
        StrReader { start: address, bytes: Vec::new() }
    }

    /// Where the next chunk is to be read: just past the bytes gathered so
    /// far; `None` when that address does not fit in a `usize`.
    pub fn next_address(&self) -> (r: Option<usize>)
        ensures
            match r {
                Some(a) => a == self.start_view() + self.bytes_view().len(),
                None => self.start_view() + self.bytes_view().len() > usize::MAX,
            },
    {
        self.start.checked_add(self.bytes.len())
    }

    /// Takes the next chunk read. When it holds a NUL byte, the string is
    /// complete: the bytes gathered before it, decoded as UTF-8, are
    /// returned. Otherwise the chunk is kept and `None` asks for more.
    pub fn feed(&mut self, chunk: &[u8]) -> (r: Option<Result<String, MfError>>)
        requires
            old(self).wf(),
        ensures
            final(self).wf(),
            final(self).start_view() == old(self).start_view(),
            match nul_from(chunk@, 0) {
                Some(i) => r matches Some(res) && decoded_as(
                    res,
                    old(self).bytes_view() + chunk@.take(i),
                ),
                None => r is None && final(self).bytes_view() == old(self).bytes_view() + chunk@,
            },
    {
        let ghost old_bytes = self.bytes@;
        let mut i: usize = 0;
        while i < chunk.len()
            invariant
                i <= chunk@.len(),
                nul_from(chunk@, 0) == nul_from(chunk@, i as int),
                self.bytes@ == old_bytes + chunk@.take(i as int),
                self.start == old(self).start,
                old_bytes == old(self).bytes@,
                forall|k: int| 0 <= k < self.bytes@.len() ==> #[trigger] self.bytes@[k] != 0,
            decreases chunk.len() - i,
        {
            if chunk[i] == 0 {
                let text = self.bytes.as_slice();
                let res = match str_from_utf8(text) {
                    Some(t) => Ok(t.to_owned()),
                    None => Err(MfError::InvalidString),
                };
                return Some(res);
            }
            self.bytes.push(chunk[i]);
            i = i + 1;
            assert(self.bytes@ =~= old_bytes + chunk@.take(i as int));
        }
        assert(chunk@.take(i as int) =~= chunk@);
        None
    }
}

/// Whether a line of `/proc/<pid>/status` is the parent-id line.
pub open spec fn is_ppid_line(l: Seq<char>) -> bool {
    l.len() >= 5 && l[0] == 'P' && l[1] == 'P' && l[2] == 'i' && l[3] == 'd' && l[4] == ':'
}

/// The index of the first parent-id line at or after `i`.
pub open spec fn ppid_line_from(ls: Seq<Seq<char>>, i: int) -> Option<int>
    decreases ls.len() - i,
{
    if i < 0 || i >= ls.len() {
        None
    } else if is_ppid_line(ls[i]) {
        Some(i)
    } else {
        ppid_line_from(ls, i + 1)
    }
}

/// The parent process id a `/proc/<pid>/status` text gives: the text after
/// `PPid:` on its first such line, trimmed and read as a `u32`.
pub open spec fn parent_pid_spec(status: Seq<char>) -> Option<nat> {
    let ls = crate::wine::lines_from(status, 0);
    match ppid_line_from(ls, 0) {
        Some(i) => crate::text::parse_unsigned(crate::text::trim_spec(ls[i].skip(5)), u32::MAX as nat),
        None => None,
    }
}

/// Reads the parent process id from the text of `/proc/<pid>/status`.
pub fn parent_pid_of(status: &str) -> (r: Option<u32>)
    ensures
        match r {
            Some(p) => parent_pid_spec(status@) == Some(p as nat),
            None => parent_pid_spec(status@) is None,
        },
{
    let chars = str_chars(status);
    let ls = crate::wine::split_lines(chars.as_slice());
    let mut i: usize = 0;
    while i < ls.len()
        invariant
            i <= ls@.len(),
            ls@.map_values(|v: Vec<char>| v@) == crate::wine::lines_from(status@, 0),
            ppid_line_from(crate::wine::lines_from(status@, 0), 0) == ppid_line_from(
                crate::wine::lines_from(status@, 0),
                i as int,
            ),
        decreases ls.len() - i,
    {
        let l = &ls[i];
        assert(l@ == crate::wine::lines_from(status@, 0)[i as int]);
        if l.len() >= 5 && l[0] == 'P' && l[1] == 'P' && l[2] == 'i' && l[3] == 'd' && l[4] == ':' {
            let tail = sub_chars(l.as_slice(), 5, l.len());
            assert(tail@ =~= l@.skip(5));
            let t = crate::text::trim_chars(tail.as_slice());
            let v = crate::text::parse_unsigned_chars(t.as_slice(), 0xffff_ffff);
            return match v {
                Some(x) => Some(x as u32),
                None => None,
            };
        }
        i = i + 1;
    }
    None
}

/// Whether `name`, ignoring ASCII case, starts with `wine`: the name of a
/// Wine loader rather than of the program it runs.
pub open spec fn is_wine_loader(name: Seq<char>) -> bool {
    name.len() >= 4 && ascii_lower(name[0]) == 'w' && ascii_lower(name[1]) == 'i' && ascii_lower(
        name[2],
    ) == 'n' && ascii_lower(name[3]) == 'e'
}

/// The name a process is listed under: a Wine loader running the Windows
/// program `exe` lists as `loader (exe)`; any other keeps its image name.
pub open spec fn display_name_spec(name: Seq<char>, exe: Option<Seq<char>>) -> Seq<char> {
    match exe {
        Some(e) if is_wine_loader(name) => name + " ("@ + e + ")"@,
        _ => name,
    }
}

/// The name to list a process under, given its image name and, for a Wine
/// process, the Windows program it runs.
pub fn process_display_name(name: &str, exe: Option<&str>) -> (r: String)
    ensures
        r@ == display_name_spec(name@, (match exe { Some(e) => Some(e@), None => None })),
{
    proof {
        reveal_strlit(" (");
        reveal_strlit(")");
    }
    let n = str_chars(name);
    let wine = n.len() >= 4 && {
        let l = crate::wine::lower_chars(n.as_slice());
        l[0] == 'w' && l[1] == 'i' && l[2] == 'n' && l[3] == 'e'
    };
    match exe {
        Some(e) => {
            if wine {
                let mut s = string_of(n.as_slice());
                crate::text::push_char(&mut s, ' ');
                crate::text::push_char(&mut s, '(');
                let ec = str_chars(e);
                crate::text::push_chars(&mut s, ec.as_slice());
                crate::text::push_char(&mut s, ')');
                assert(s@ =~= name@ + " ("@ + e@ + ")"@);
                s
            } else {
                string_of(n.as_slice())
            }
        },
        None => string_of(n.as_slice()),
    }
}

/// The processes of the system, handed out one at a time in the order they
/// were listed.
pub struct ProcessIterator {
    rest: Vec<ProcessInfo>,
}

impl ProcessIterator {
    /// The processes not yet handed out.
    pub closed spec fn rest_view(&self) -> Seq<ProcessInfo> {
        self.rest@
    }

    /// Iterates over `entries`, in order.
    pub fn new(entries: Vec<ProcessInfo>) -> (r: Self)
        ensures
            r.rest_view() == entries@,
    {
        ProcessIterator { rest: entries }
    }

    /// The next process, or `None` once all were handed out.
    pub fn next(&mut self) -> (r: Option<ProcessInfo>)
        ensures
            old(self).rest_view().len() == 0 ==> r is None && final(self).rest_view() == old(
                self,
            ).rest_view(),
            old(self).rest_view().len() > 0 ==> r == Some(old(self).rest_view()[0])
                && final(self).rest_view() == old(self).rest_view().drop_first(),
    {
        if self.rest.len() == 0 {
            None
        } else {
            Some(self.rest.remove(0))
        }
    }
}
} // verus!
