//! Wine-specific helpers: recovering the Windows program a Wine process runs
//! from its memory map, and reading PE header fields from the headers Wine
//! maps at a module's image base.

use vstd::prelude::*;
use vstd::string::*;
use crate::format::le_u64;
use crate::compare::le_nat;
use crate::text::{
    chars_eq, split_ws, str_chars, string_of, sub_chars, tokens_from,
};
use crate::types::{find_from, lemma_find_from_bounds, starts_with};
use crate::format::ascii_lower;

verus! {

/// `MZ`: the DOS header magic.
pub const IMAGE_DOS_SIGNATURE: [u8; 2] = [0x4D, 0x5A];

/// `PE\0\0`: the NT headers signature.
pub const IMAGE_NT_SIGNATURE: [u8; 4] = [0x50, 0x45, 0, 0];

/// The DOS header at a PE image's base (64 bytes).
#[derive(Clone, Copy)]
pub struct ImageDosHeader {
    /// `MZ`.
    pub e_magic: [u8; 2],
    /// Fields this library does not read.
    pub _reserved: [u8; 58],
    /// File offset of the NT headers.
    pub e_lfanew: i32,
}

/// The COFF file header (20 bytes).
#[derive(Clone, Copy)]
pub struct ImageFileHeader {
    /// Target machine.
    pub machine: u16,
    /// Section count.
    pub number_of_sections: u16,
    /// Link time.
    pub time_date_stamp: u32,
    /// Symbol table offset.
    pub pointer_to_symbol_table: u32,
    /// Symbol count.
    pub number_of_symbols: u32,
    /// Size of the optional header that follows.
    pub size_of_optional_header: u16,
    /// Image characteristics.
    pub characteristics: u16,
}

/// The leading fields of a PE32+ optional header, through `SizeOfImage`
/// (60 bytes).
#[derive(Clone, Copy)]
pub struct ImageOptionalHeader64 {
    /// `0x20b` for PE32+.
    pub magic: u16,
    /// Linker major version.
    pub major_linker_version: u8,
    /// Linker minor version.
    pub minor_linker_version: u8,
    /// Code size.
    pub size_of_code: u32,
    /// Initialized data size.
    pub size_of_initialized_data: u32,
    /// Uninitialized data size.
    pub size_of_uninitialized_data: u32,
    /// Entry point RVA.
    pub address_of_entry_point: u32,
    /// Code base RVA.
    pub base_of_code: u32,
    /// Preferred load address.
    pub image_base: u64,
    /// Section alignment in memory.
    pub section_alignment: u32,
    /// Section alignment in the file.
    pub file_alignment: u32,
    /// OS major version.
    pub major_operating_system_version: u16,
    /// OS minor version.
    pub minor_operating_system_version: u16,
    /// Image major version.
    pub major_image_version: u16,
    /// Image minor version.
    pub minor_image_version: u16,
    /// Subsystem major version.
    pub major_subsystem_version: u16,
    /// Subsystem minor version.
    pub minor_subsystem_version: u16,
    /// Reserved.
    pub win32_version_value: u32,
    /// Size of the whole image in memory.
    pub size_of_image: u32,
}

/// The little-endian value of `b[off..off + n]`.
pub open spec fn le_at(b: Seq<u8>, off: int, n: int) -> nat {
    le_nat(b.subrange(off, off + n))
}

fn field(b: &[u8], off: usize, n: usize) -> (r: u64)
    requires
        n <= 8,
        off + n <= b@.len(),
    ensures
        r as nat == le_at(b@, off as int, n as int),
{
    assert(off + n <= b.len());
    let s = vstd::slice::slice_subrange(b, off, off + n);
    let r = le_u64(s, n);
    assert(s@.take(n as int) =~= b@.subrange(off as int, off + n));
    r
}

impl ImageDosHeader {
    /// Reads the header from its 64 little-endian bytes.
    pub fn from_bytes(b: &[u8]) -> (r: Option<Self>)
        ensures
            r is Some <==> b@.len() >= 64,
            r matches Some(h) ==> h.e_magic@ == b@.take(2) && h.e_lfanew as int == (if le_at(b@, 60, 4)
                >= 0x8000_0000 {
                le_at(b@, 60, 4) - 0x1_0000_0000
            } else {
                le_at(b@, 60, 4) as int
            }),
    {
        if b.len() < 64 {
            return None;
        }
        let mut reserved = [0u8; 58];
        let mut i: usize = 0;
        while i < 58
            invariant
                i <= 58,
                b@.len() >= 64,
                reserved@.len() == 58,
            decreases 58 - i,
        {
            reserved.set(i, b[2 + i]);
            i = i + 1;
        }
        let raw = field(b, 60, 4);
        proof {
            crate::compare::lemma_le_nat_fits(b@.subrange(60, 64));
        }
        let e_lfanew: i32 = if raw >= 0x8000_0000 { (raw as i64 - 0x1_0000_0000) as i32 } else { raw as i32 };
        let magic = [b[0], b[1]];
        assert(magic@ =~= b@.take(2));
        Some(ImageDosHeader { e_magic: magic, _reserved: reserved, e_lfanew })
    }
}

/// Where the NT headers of an image based at `base` start, per its DOS
/// header: `None` unless the header carries the `MZ` magic and a
/// non-negative offset that does not overflow the address space.
pub open spec fn nt_offset_spec(dos: ImageDosHeader, base: usize) -> Option<usize> {
    if dos.e_magic@ != IMAGE_DOS_SIGNATURE@ || dos.e_lfanew < 0 || base + dos.e_lfanew > usize::MAX {
        None
    } else {
        Some((base + dos.e_lfanew) as usize)
    }
}

/// Where the NT headers of an image based at `base` start.
pub fn nt_offset(dos: &ImageDosHeader, base: usize) -> (r: Option<usize>)
    ensures
        r == nt_offset_spec(*dos, base),
{
    let magic = dos.e_magic;
    let e_lfanew = dos.e_lfanew;
    if !(magic[0] == 0x4D && magic[1] == 0x5A) || e_lfanew < 0 {
        proof {
            if magic[0] == 0x4D && magic[1] == 0x5A {
                assert(dos.e_lfanew < 0);
            } else {
                assert(dos.e_magic@ != IMAGE_DOS_SIGNATURE@) by {
                    if dos.e_magic@ == IMAGE_DOS_SIGNATURE@ {
                        assert(dos.e_magic@[0] == 0x4D);
                        assert(dos.e_magic@[1] == 0x5A);
                    }
                }
            }
        }
        return None;
    }
    assert(dos.e_magic@ =~= IMAGE_DOS_SIGNATURE@);
    base.checked_add(e_lfanew as usize)
}

/// Whether the four bytes at the NT headers are the `PE\0\0` signature.
pub fn is_nt_signature(sig: &[u8]) -> (r: bool)
    ensures
        r == (sig@ == IMAGE_NT_SIGNATURE@),
{
    let ok = sig.len() == 4 && sig[0] == 0x50 && sig[1] == 0x45 && sig[2] == 0 && sig[3] == 0;
    proof {
        if ok {
            assert(sig@ =~= IMAGE_NT_SIGNATURE@);
        } else if sig@ == IMAGE_NT_SIGNATURE@ {
            assert(sig@.len() == 4);
            assert(sig@[0] == 0x50 && sig@[1] == 0x45 && sig@[2] == 0 && sig@[3] == 0);
        }
    }
    ok
}

/// Where the optional header starts: after the 4-byte signature and the
/// 20-byte file header.
pub fn optional_header_offset(nt: usize) -> (r: usize)
    requires
        nt + 24 <= usize::MAX,
    ensures
        r == nt + 24,
{
    nt + 4 + 20
}

/// The pointer width an optional-header magic announces: 8 for PE32+
/// (`0x20b`), 4 for PE32 (`0x10b`).
pub fn pointer_size_of_magic(magic: u16) -> (r: Option<usize>)
    ensures
        r == (if magic == 0x20b {
            Some(8usize)
        } else if magic == 0x10b {
            Some(4usize)
        } else {
            None
        }),
{
    if magic == 0x20b {
        Some(8)
    } else if magic == 0x10b {
        Some(4)
    } else {
        None
    }
}

/// How `SizeOfImage` is read for an optional header at `opt` with magic
/// `magic`.
#[derive(Debug, Clone, Copy, PartialEq, Eq, Structural)]
pub enum ImageSizeRead {
    /// PE32+: read the 64-bit optional header at this address.
    Header64(usize),
    /// PE32: read the `u32` at this address (offset 56, as in PE32+).
    Field32(usize),
}

/// How `SizeOfImage` is read for an optional header at `opt` with magic
/// `magic`; `None` for a magic that is neither PE32 nor PE32+.
pub fn image_size_read(magic: u16, opt: usize) -> (r: Option<ImageSizeRead>)
    requires
        opt + 56 <= usize::MAX,
    ensures
        r == (if magic == 0x20b {
            Some(ImageSizeRead::Header64(opt))
        } else if magic == 0x10b {
            Some(ImageSizeRead::Field32((opt + 56) as usize))
        } else {
            None
        }),
{
    if magic == 0x20b {
        Some(ImageSizeRead::Header64(opt))
    } else if magic == 0x10b {
        Some(ImageSizeRead::Field32(opt + 56))
    } else {
        None
    }
}

impl ImageOptionalHeader64 {
    /// Reads the header fields from their 60 little-endian bytes.
    pub fn from_bytes(b: &[u8]) -> (r: Option<Self>)
        ensures
            r is Some <==> b@.len() >= 60,
            r matches Some(h) ==> h.magic as nat == le_at(b@, 0, 2) && h.size_of_image as nat == le_at(
                b@,
                56,
                4,
            ) && h.image_base as nat == le_at(b@, 24, 8),
    {
        if b.len() < 60 {
            return None;
        }
        proof {
            crate::compare::lemma_le_nat_fits(b@.subrange(0, 2));
            crate::compare::lemma_le_nat_fits(b@.subrange(2, 3));
            crate::compare::lemma_le_nat_fits(b@.subrange(3, 4));
            crate::compare::lemma_le_nat_fits(b@.subrange(4, 8));
            crate::compare::lemma_le_nat_fits(b@.subrange(8, 12));
            crate::compare::lemma_le_nat_fits(b@.subrange(12, 16));
            crate::compare::lemma_le_nat_fits(b@.subrange(16, 20));
            crate::compare::lemma_le_nat_fits(b@.subrange(20, 24));
            crate::compare::lemma_le_nat_fits(b@.subrange(32, 36));
            crate::compare::lemma_le_nat_fits(b@.subrange(36, 40));
            crate::compare::lemma_le_nat_fits(b@.subrange(40, 42));
            crate::compare::lemma_le_nat_fits(b@.subrange(42, 44));
            crate::compare::lemma_le_nat_fits(b@.subrange(44, 46));
            crate::compare::lemma_le_nat_fits(b@.subrange(46, 48));
            crate::compare::lemma_le_nat_fits(b@.subrange(48, 50));
            crate::compare::lemma_le_nat_fits(b@.subrange(50, 52));
            crate::compare::lemma_le_nat_fits(b@.subrange(52, 56));
            crate::compare::lemma_le_nat_fits(b@.subrange(56, 60));
        }
        Some(ImageOptionalHeader64 {
            magic: field(b, 0, 2) as u16,
            major_linker_version: field(b, 2, 1) as u8,
            minor_linker_version: field(b, 3, 1) as u8,
            size_of_code: field(b, 4, 4) as u32,
            size_of_initialized_data: field(b, 8, 4) as u32,
            size_of_uninitialized_data: field(b, 12, 4) as u32,
            address_of_entry_point: field(b, 16, 4) as u32,
            base_of_code: field(b, 20, 4) as u32,
            image_base: field(b, 24, 8),
            section_alignment: field(b, 32, 4) as u32,
            file_alignment: field(b, 36, 4) as u32,
            major_operating_system_version: field(b, 40, 2) as u16,
            minor_operating_system_version: field(b, 42, 2) as u16,
            major_image_version: field(b, 44, 2) as u16,
            minor_image_version: field(b, 46, 2) as u16,
            major_subsystem_version: field(b, 48, 2) as u16,
            minor_subsystem_version: field(b, 50, 2) as u16,
            win32_version_value: field(b, 52, 4) as u32,
            size_of_image: field(b, 56, 4) as u32,
        })
    }
}


/// The end of the segment starting at `i`: the next `c` at or after `i`, or
/// the end of `s`.
pub open spec fn seg_end(s: Seq<char>, c: char, i: int) -> int {
    match find_from(s, c, i) {
        Some(j) => j,
        None => s.len() as int,
    }
}

/// The lines of `s` from `i` on, as `str::lines` yields them: split after
/// each `\n`, which is dropped together with a `\r` just before it.
pub open spec fn lines_from(s: Seq<char>, i: int) -> Seq<Seq<char>>
    decreases (if i < s.len() { s.len() - i } else { 0 }),
{
    if i < 0 || i >= s.len() {
        seq![]
    } else {
        let e = seg_end(s, '\n', i);
        proof {
            lemma_find_from_bounds(s, '\n', i);
        }
        let l = s.subrange(i, e);
        let l2 = if e < s.len() && l.len() > 0 && l.last() == '\r' {
            l.drop_last()
        } else {
            l
        };
        seq![l2] + lines_from(s, e + 1)
    }
}

/// The non-empty `/`-separated segments of `p` from `i` on, other than `.`.
pub open spec fn segments_from(p: Seq<char>, i: int) -> Seq<Seq<char>>
    decreases (if i < p.len() { p.len() - i } else { 0 }),
{
    if i < 0 || i >= p.len() {
        seq![]
    } else {
        let e = seg_end(p, '/', i);
        proof {
            lemma_find_from_bounds(p, '/', i);
        }
        let seg = p.subrange(i, e);
        (if seg.len() == 0 || seg == seq!['.'] {
            seq![]
        } else {
            seq![seg]
        }) + segments_from(p, e + 1)
    }
}

/// The final component of a path, as `Path::file_name` gives it: the last
/// named segment, or `None` when there is none or it is `..`.
pub open spec fn file_name_spec(p: Seq<char>) -> Option<Seq<char>> {
    let s = segments_from(p, 0);
    if s.len() == 0 || s.last() == seq!['.', '.'] {
        None
    } else {
        Some(s.last())
    }
}

/// Whether `s` ends with `p`.
pub open spec fn ends_with(s: Seq<char>, p: Seq<char>) -> bool {
    s.len() >= p.len() && s.skip(s.len() - p.len()) == p
}

/// Whether `p` occurs in `s`.
pub open spec fn contains_seq(s: Seq<char>, p: Seq<char>) -> bool {
    exists|i: int| 0 <= i && i + p.len() <= s.len() && #[trigger] s.subrange(i, i + p.len()) == p
}

/// What a scan of a Wine process's memory map has found so far: whether a
/// PE image or Wine install path was seen, the program `.exe` chosen, and
/// whether that choice is one of Wine's builtin tools.
pub struct ExeScan {
    /// A mapped PE image or Wine path was seen.
    pub is_wine: bool,
    /// The chosen `.exe` name.
    pub exe: Option<Seq<char>>,
    /// The chosen `.exe` lives in Wine's install tree.
    pub builtin: bool,
}

/// One maps line's effect on the scan: only file-backed mappings (whose
/// sixth field is an absolute path) count; a `.dll`/`.exe` or a `/wine/`
/// path marks the process as Wine; an `.exe` is chosen when none is yet, or
/// when it replaces a builtin tool with a program outside Wine's install tree.
pub open spec fn exe_scan_step(st: ExeScan, line: Seq<char>) -> ExeScan {
    let toks = tokens_from(line, 0);
    if toks.len() <= 5 || !starts_with(toks[5], seq!['/']) {
        st
    } else {
        let path = toks[5];
        let lower = path.map_values(|c: char| ascii_lower(c));
        let is_wine = st.is_wine || ends_with(lower, ".dll"@) || ends_with(lower, ".exe"@) || contains_seq(
            lower,
            "/wine/"@,
        );
        if ends_with(lower, ".exe"@) {
            match file_name_spec(path) {
                None => ExeScan { is_wine, exe: st.exe, builtin: st.builtin },
                Some(name) => {
                    let builtin = contains_seq(lower, "/lib/wine/"@) || contains_seq(lower, "/lib64/wine/"@)
                        || contains_seq(lower, "/share/wine/"@);
                    if st.exe is None || (st.builtin && !builtin) {
                        ExeScan { is_wine, exe: Some(name), builtin }
                    } else {
                        ExeScan { is_wine, exe: st.exe, builtin: st.builtin }
                    }
                },
            }
        } else {
            ExeScan { is_wine, exe: st.exe, builtin: st.builtin }
        }
    }
}

/// The scan after the first `n` lines.
pub open spec fn exe_scan(lines: Seq<Seq<char>>, n: int) -> ExeScan
    decreases n,
{
    if n <= 0 {
        ExeScan { is_wine: false, exe: None, builtin: true }
    } else {
        exe_scan_step(exe_scan(lines, n - 1), lines[n - 1])
    }
}

/// The Windows program a Wine process with memory map `maps` runs: the
/// chosen `.exe`, when the map shows the process is Wine at all.
pub open spec fn windows_exe_spec(maps: Seq<char>) -> Option<Seq<char>> {
    let ls = lines_from(maps, 0);
    let st = exe_scan(ls, ls.len() as int);
    if st.is_wine {
        st.exe
    } else {
        None
    }
}

/// The end of the segment starting at `i` (the next `c`, or the end).
fn seg_end_exec(s: &[char], c: char, i: usize) -> (e: usize)
    requires
        i <= s@.len(),
    ensures
        e as int == seg_end(s@, c, i as int),
        i <= e <= s@.len(),
{
    let mut e = i;
    proof {
        lemma_find_from_bounds(s@, c, i as int);
    }
    while e < s.len() && s[e] != c
        invariant
            i <= e <= s@.len(),
            find_from(s@, c, i as int) == find_from(s@, c, e as int),
        decreases s.len() - e,
    {
        e = e + 1;
    }
    e
}

/// The lines of `s`, as `str::lines` yields them.
pub fn split_lines(s: &[char]) -> (v: Vec<Vec<char>>)
    ensures
        v@.len() == lines_from(s@, 0).len(),
        forall|k: int| 0 <= k < v@.len() ==> (#[trigger] v@[k])@ == lines_from(s@, 0)[k],
{
    let n = s.len();
    let mut out: Vec<Vec<char>> = Vec::new();
    let mut i: usize = 0;
    let ghost mut done: Seq<Seq<char>> = seq![];
    assert(lines_from(s@, 0) =~= done + lines_from(s@, 0));
    while i < n
        invariant
            n == s@.len(),
            i <= n,
            lines_from(s@, 0) == done + lines_from(s@, i as int),
            out@.len() == done.len(),
            forall|k: int| 0 <= k < out@.len() ==> (#[trigger] out@[k])@ == done[k],
        decreases n - i,
    {
        let e = seg_end_exec(s, '\n', i);
        let mut l = sub_chars(s, i, e);
        if e < n && l.len() > 0 && l[l.len() - 1] == '\r' {
            let k = l.len() - 1;
            l = sub_chars(l.as_slice(), 0, k);
            assert(l@ =~= s@.subrange(i as int, e as int).drop_last());
        }
        let ghost rest = lines_from(s@, e + 1);
        assert(lines_from(s@, i as int) == seq![l@] + rest);
        assert(done + lines_from(s@, i as int) =~= done.push(l@) + rest);
        out.push(l);
        proof {
            done = done.push(out@[out@.len() - 1]@);
        }
        if e == n {
            assert(lines_from(s@, e + 1) =~= seq![]);
            assert(lines_from(s@, n as int) =~= seq![]);
        }
        i = if e < n { e + 1 } else { n };
    }
    assert(done + lines_from(s@, n as int) =~= done);
    out
}

/// The final component of a path, as `Path::file_name` gives it.
pub fn file_name(p: &[char]) -> (r: Option<Vec<char>>)
    ensures
        match r {
            Some(v) => file_name_spec(p@) == Some(v@),
            None => file_name_spec(p@) is None,
        },
{
    let n = p.len();
    let mut last: Option<Vec<char>> = None;
    let mut i: usize = 0;
    let ghost mut done: Seq<Seq<char>> = seq![];
    assert(segments_from(p@, 0) =~= done + segments_from(p@, 0));
    while i < n
        invariant
            n == p@.len(),
            i <= n,
            segments_from(p@, 0) == done + segments_from(p@, i as int),
            match last {
                Some(v) => done.len() > 0 && v@ == done.last(),
                None => done.len() == 0,
            },
        decreases n - i,
    {
        let e = seg_end_exec(p, '/', i);
        let seg = sub_chars(p, i, e);
        let ghost rest = segments_from(p@, e + 1);
        let dot = seg.len() == 1 && seg[0] == '.';
        assert(dot == (seg@ == seq!['.'])) by {
            if seg@ == seq!['.'] {
                assert(seg@[0] == '.');
            }
            if dot {
                assert(seg@ =~= seq!['.']);
            }
        }
        if seg.len() == 0 || dot {
            assert(segments_from(p@, i as int) == rest);
        } else {
            assert(segments_from(p@, i as int) == seq![seg@] + rest);
            assert(done + segments_from(p@, i as int) =~= done.push(seg@) + rest);
            proof {
                done = done.push(seg@);
            }
            last = Some(seg);
        }
        if e == n {
            assert(segments_from(p@, e + 1) =~= seq![]);
            assert(segments_from(p@, n as int) =~= seq![]);
        }
        i = if e < n { e + 1 } else { n };
    }
    assert(done + segments_from(p@, n as int) =~= done);
    match last {
        None => None,
        Some(v) => {
            let dd = v.len() == 2 && v[0] == '.' && v[1] == '.';
            assert(dd == (v@ == seq!['.', '.'])) by {
                if v@ == seq!['.', '.'] {
                    assert(v@[0] == '.' && v@[1] == '.');
                }
                if dd {
                    assert(v@ =~= seq!['.', '.']);
                }
            }
            if dd {
                None
            } else {
                Some(v)
            }
        },
    }
}

/// The characters of `s` with ASCII letters in lower case.
pub fn lower_chars(s: &[char]) -> (v: Vec<char>)
    ensures
        v@ == s@.map_values(|c: char| ascii_lower(c)),
{
    let mut out: Vec<char> = Vec::new();
    let mut i: usize = 0;
    while i < s.len()
        invariant
            i <= s@.len(),
            out@ == s@.take(i as int).map_values(|c: char| ascii_lower(c)),
        decreases s.len() - i,
    {
        let c = s[i];
        let lc = if 'A' <= c && c <= 'Z' { ((c as u32) + 32) as u8 as char } else { c };
        assert(lc == ascii_lower(c));
        out.push(lc);
        i = i + 1;
        assert(out@ =~= s@.take(i as int).map_values(|c: char| ascii_lower(c)));
    }
    assert(s@.take(s@.len() as int) =~= s@);
    out
}

/// Whether `s` ends with `lit`.
pub fn ends_with_lit(s: &[char], lit: &str) -> (r: bool)
    ensures
        r == ends_with(s@, lit@),
{
    let p = str_chars(lit);
    if s.len() < p.len() {
        return false;
    }
    let tail = sub_chars(s, s.len() - p.len(), s.len());
    assert(tail@ =~= s@.skip(s@.len() - p@.len()));
    chars_eq(tail.as_slice(), p.as_slice())
}

/// Whether `lit` occurs in `s`.
pub fn contains_lit(s: &[char], lit: &str) -> (r: bool)
    ensures
        r == contains_seq(s@, lit@),
{
    let p = str_chars(lit);
    if s.len() < p.len() {
        assert(!contains_seq(s@, lit@));
        return false;
    }
    if p.len() == 0 {
        assert(s@.subrange(0int, 0int + lit@.len()) =~= lit@);
        return true;
    }
    let mut i: usize = 0;
    while i <= s.len() - p.len()
        invariant
            p@ == lit@,
            p@.len() <= s@.len(),
            p.len() >= 1,
            s.len() - p.len() < usize::MAX,
            i <= s@.len() - p@.len() + 1,
            forall|k: int| 0 <= k < i ==> #[trigger] s@.subrange(k, k + p@.len()) != p@,
        decreases s.len() - p.len() + 1 - i,
    {
        let w = sub_chars(s, i, i + p.len());
        if chars_eq(w.as_slice(), p.as_slice()) {
            return true;
        }
        i = i + 1;
    }
    assert forall|k: int| 0 <= k && k + p@.len() <= s@.len() implies #[trigger] s@.subrange(k, k + p@.len()) != p@ by {
        assert(k < i);
    }
    false
}

/// The Windows program (e.g. `Terraria.exe`) a Wine process runs, read from
/// its memory map `maps`; `None` when the map does not show a Wine process
/// or no program `.exe` is mapped yet.
pub fn windows_exe_name(maps: &str) -> (r: Option<String>)
    ensures
        match r {
            Some(s) => windows_exe_spec(maps@) == Some(s@),
            None => windows_exe_spec(maps@) is None,
        },
{
    let chars = str_chars(maps);
    let ls = split_lines(chars.as_slice());
    let mut is_wine = false;
    let mut exe: Option<Vec<char>> = None;
    let mut builtin_flag = true;
    let mut k: usize = 0;
    let ghost all = lines_from(maps@, 0);
    while k < ls.len()
        invariant
            k <= ls@.len(),
            ls@.len() == all.len(),
            all == lines_from(maps@, 0),
            forall|j: int| 0 <= j < ls@.len() ==> (#[trigger] ls@[j])@ == all[j],
            exe_scan(all, k as int).is_wine == is_wine,
            exe_scan(all, k as int).builtin == builtin_flag,
            match exe {
                Some(v) => exe_scan(all, k as int).exe == Some(v@),
                None => exe_scan(all, k as int).exe is None,
            },
        decreases ls.len() - k,
    {
        let line = &ls[k];
        let toks = split_ws(line.as_slice());
        if toks.len() > 5 && toks[5].len() > 0 && toks[5][0] == '/' {
            let path = &toks[5];
            let lower = lower_chars(path.as_slice());
            let dll = ends_with_lit(lower.as_slice(), ".dll");
            let is_exe = ends_with_lit(lower.as_slice(), ".exe");
            let wine_path = contains_lit(lower.as_slice(), "/wine/");
            if dll || is_exe || wine_path {
                is_wine = true;
            }
            if is_exe {
                match file_name(path.as_slice()) {
                    None => {},
                    Some(name) => {
                        let b = contains_lit(lower.as_slice(), "/lib/wine/") || contains_lit(lower.as_slice(), "/lib64/wine/")
                            || contains_lit(lower.as_slice(), "/share/wine/");
                        if exe.is_none() || (builtin_flag && !b) {
                            exe = Some(name);
                            builtin_flag = b;
                        }
                    },
                }
            }
            proof {
                assert(starts_with(toks@[5]@, seq!['/'])) by {
                    assert(toks@[5]@.take(1) =~= seq!['/']);
                }
            }
        } else {
            proof {
                if toks@.len() > 5 {
                    if starts_with(toks@[5]@, seq!['/']) {
                        assert(toks@[5]@.take(1)[0] == '/');
                    }
                }
            }
        }
        k = k + 1;
    }
    if is_wine {
        match exe {
            Some(v) => Some(string_of(v.as_slice())),
            None => None,
        }
    } else {
        None
    }
}
} // verus!
