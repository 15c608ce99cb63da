//! The inspector: a class layout walked over a target's memory, one row per
//! field with its address and live value, recursing into the pointers the
//! user has expanded.

use vstd::prelude::*;
use vstd::string::*;
use vstd::slice::slice_subrange;
use vstd::utf8::*;
use crate::compare::le_nat;
use crate::dto::{push_byte_hex, FieldRow, InspectResult};
use crate::format::le_u64;
use crate::offset::str_from_utf8;
use crate::process::nul_from;
use crate::format::{floats_in, format_bytes, format_spec, has_floats};
use crate::schema::{FieldDef, TypeDef};
use crate::text::{push_char, push_chars, str_chars, str_eq};
use crate::types::{kind_string, FieldKind};

verus! {

/// How deep the inspector follows expanded pointers (a guard against
/// pointer cycles).
pub const MAX_DEPTH: usize = 8;

/// What the inspector needs from a target: raw reads, and how a value with
/// floating-point parts read from it is shown. The reads are taken as a
/// fixed snapshot of the target during one walk.
pub trait InspectMemory {
    /// The `len` bytes at `addr`, or `None` if unreadable. An implementation
    /// whose memory is specified overrides this; others leave it
    /// unspecified.
    closed spec fn read_bytes_spec(&self, addr: usize, len: usize) -> Option<Seq<u8>> {
        arbitrary()
    }

    /// The pointer stored at `addr` (the target's width), or `None` if
    /// unreadable (overridden as `read_bytes_spec` is).
    closed spec fn read_ptr_spec(&self, addr: usize) -> Option<usize> {
        arbitrary()
    }

    /// The NUL-terminated string at `addr`, or `None` if unreadable
    /// (overridden as `read_bytes_spec` is).
    closed spec fn read_string_spec(&self, addr: usize) -> Option<Seq<char>> {
        arbitrary()
    }

    /// `len` bytes at `addr`, if readable.
    fn read_bytes(&self, addr: usize, len: usize) -> (r: Option<Vec<u8>>)
        ensures
            match r {
                Some(v) => self.read_bytes_spec(addr, len) == Some(v@),
                None => self.read_bytes_spec(addr, len) is None,
            },
    ;

    /// The pointer at `addr` (the target's width), if readable.
    fn read_ptr(&self, addr: usize) -> (r: Option<usize>)
        ensures
            r == self.read_ptr_spec(addr),
    ;

    /// The NUL-terminated string at `addr`, if readable.
    fn read_string(&self, addr: usize) -> (r: Option<String>)
        ensures
            match r {
                Some(s) => self.read_string_spec(addr) == Some(s@),
                None => self.read_string_spec(addr) is None,
            },
    ;

    /// The text a value of `kind`, which has floating-point parts, stored
    /// in `bytes` is shown as.
    fn show(&self, kind: FieldKind, bytes: &[u8], ptr: usize) -> String;
}

/// A captured span of a target's memory: `bytes` from address `base`, with
/// pointers `ptr_size` bytes wide (at most 8 are read), walked offline.
pub struct MemoryImage {
    base: usize,
    bytes: Vec<u8>,
    ptr_size: usize,
}

/// The `len` bytes at `addr` of an image of `bytes` at `base`, if they all
/// lie inside it.
pub open spec fn image_slice(base: usize, bytes: Seq<u8>, addr: usize, len: nat) -> Option<Seq<u8>> {
    if base <= addr && addr - base + len <= bytes.len() {
        Some(bytes.subrange(addr - base, addr - base + len))
    } else {
        None
    }
}

/// The string at `addr` of an image of `bytes` at `base`: the bytes up to
/// the first NUL inside the image, if there is one and they are valid
/// UTF-8.
pub open spec fn image_string(base: usize, bytes: Seq<u8>, addr: usize) -> Option<Seq<char>> {
    if base <= addr && addr - base <= bytes.len() {
        match nul_from(bytes, addr - base) {
            Some(j) => {
                let t = bytes.subrange(addr - base, j);
                if valid_utf8(t) {
                    Some(decode_utf8(t))
                } else {
                    None
                }
            },
            None => None,
        }
    } else {
        None
    }
}

impl MemoryImage {
    /// The address of the first byte.
    pub closed spec fn base_view(&self) -> usize {
        self.base
    }

    /// The captured bytes.
    pub closed spec fn bytes_view(&self) -> Seq<u8> {
        self.bytes@
    }

    /// The pointer width.
    pub closed spec fn width_view(&self) -> usize {
        self.ptr_size
    }

    /// An image of `bytes` captured at `base`, with pointers `ptr_size`
    /// bytes wide.
    pub fn new(base: usize, bytes: Vec<u8>, ptr_size: usize) -> (m: Self)
        ensures
            m.base_view() == base,
            m.bytes_view() == bytes@,
            m.width_view() == ptr_size,
    {
        MemoryImage { base, bytes, ptr_size }
    }

    fn slice_at(&self, addr: usize, len: usize) -> (r: Option<Vec<u8>>)
        ensures
            match r {
                Some(v) => image_slice(self.base, self.bytes@, addr, len as nat) == Some(v@),
                None => image_slice(self.base, self.bytes@, addr, len as nat) is None,
            },
    {
        if addr < self.base {
            return None;
        }
        let off = addr - self.base;
        if off > self.bytes.len() || len > self.bytes.len() - off {
            return None;
        }
        let mut v: Vec<u8> = Vec::new();
        let mut k: usize = 0;
        while k < len
            invariant
                k <= len,
                off + len <= self.bytes@.len(),
                self.bytes@.len() <= usize::MAX,
                v@ == self.bytes@.subrange(off as int, off + k),
            decreases len - k,
        {
            v.push(self.bytes[off + k]);
            k = k + 1;
            assert(v@ =~= self.bytes@.subrange(off as int, off + k));
        }
        Some(v)
    }
}

impl InspectMemory for MemoryImage {
    closed spec fn read_bytes_spec(&self, addr: usize, len: usize) -> Option<Seq<u8>> {
        image_slice(self.base, self.bytes@, addr, len as nat)
    }

    closed spec fn read_ptr_spec(&self, addr: usize) -> Option<usize> {
        let n = if self.ptr_size < 8 { self.ptr_size } else { 8 };
        match image_slice(self.base, self.bytes@, addr, n as nat) {
            Some(b) => Some(le_nat(b) as u64 as usize),
            None => None,
        }
    }

    closed spec fn read_string_spec(&self, addr: usize) -> Option<Seq<char>> {
        image_string(self.base, self.bytes@, addr)
    }

    fn read_bytes(&self, addr: usize, len: usize) -> (r: Option<Vec<u8>>) {
        self.slice_at(addr, len)
    }

    fn read_ptr(&self, addr: usize) -> (r: Option<usize>) {
        let n = if self.ptr_size < 8 { self.ptr_size } else { 8 };
        match self.slice_at(addr, n) {
            Some(b) => {
                let v = le_u64(b.as_slice(), n);
                proof {
                    assert(b@.take(n as int) =~= b@);
                }
                Some(#[verifier::truncate] (v as usize))
            },
            None => None,
        }
    }

    fn read_string(&self, addr: usize) -> (r: Option<String>) {
        if addr < self.base || addr - self.base > self.bytes.len() {
            return None;
        }
        let off = addr - self.base;
        let mut j: usize = off;
        while j < self.bytes.len() && self.bytes[j] != 0
            invariant
                off <= j <= self.bytes@.len(),
                nul_from(self.bytes@, off as int) == nul_from(self.bytes@, j as int),
            decreases self.bytes.len() - j,
        {
            j = j + 1;
        }
        if j >= self.bytes.len() {
            return None;
        }
        let t = slice_subrange(self.bytes.as_slice(), off, j);
        match str_from_utf8(t) {
            Some(st) => {
                proof {
                    broadcast use encode_utf8_decode_utf8;
                    assert(decode_utf8(t@) == st@);
                }
                Some(String::from_str(st))
            },
            None => None,
        }
    }

    /// Values with floating-point parts are not formatted here: they are
    /// shown as their bytes, in hex.
    fn show(&self, kind: FieldKind, bytes: &[u8], ptr: usize) -> String {
        let mut s = String::new();
        let mut k: usize = 0;
        while k < bytes.len()
            decreases bytes.len() - k,
        {
            if k > 0 {
                push_char(&mut s, ' ');
            }
            push_byte_hex(&mut s, bytes[k]);
            k = k + 1;
        }
        s
    }
}

/// The index of the first class named `name` at or after `i`.
pub open spec fn class_pos(classes: Seq<TypeDef>, name: Seq<char>, i: int) -> Option<int>
    decreases classes.len() - i,
{
    if i < 0 || i >= classes.len() {
        None
    } else if classes[i].name@ == name {
        Some(i)
    } else {
        class_pos(classes, name, i + 1)
    }
}

/// The first class with a name is one with that name.
pub proof fn lemma_class_pos_bounds(classes: Seq<TypeDef>, name: Seq<char>, i: int)
    requires
        0 <= i,
    ensures
        class_pos(classes, name, i) matches Some(j) ==> i <= j < classes.len() && classes[j].name@ == name,
    decreases classes.len() - i,
{
    if i < classes.len() && classes[i].name@ != name {
        lemma_class_pos_bounds(classes, name, i + 1);
    }
}

/// Whether a field is a pointer to a class the layout declares, which the
/// inspector can expand.
pub open spec fn is_expandable(classes: Seq<TypeDef>, kind: FieldKind, meta: Option<String>) -> bool {
    kind == FieldKind::Ptr && (meta matches Some(m) && class_pos(classes, m@, 0) is Some)
}

/// Row `r` describes field `f`, the `i`-th of a class at `base`: its index,
/// offset, address, name, kind, size, target class and expandability.
pub open spec fn row_describes(r: FieldRow, f: crate::schema::FieldDef, i: int, base: u64, ptr: nat, classes: Seq<TypeDef>) -> bool {
    &&& r.field_index == i
    &&& r.offset == f.offset
    &&& r.address == base.wrapping_add(f.offset as u64)
    &&& r.name == f.name
    &&& r.kind@ == kind_string(f.kind)
    &&& r.size == f.kind.byte_size(ptr)
    &&& r.kind_meta == f.metadata
    &&& r.expandable == is_expandable(classes, f.kind, f.metadata)
}

/// Whether `path` is among the expanded paths.
pub open spec fn is_expanded(expanded: Seq<Vec<usize>>, path: Seq<usize>) -> bool {
    exists|k: int| 0 <= k < expanded.len() && (#[trigger] expanded[k])@ == path
}

/// The first class named `name`.
pub fn class_position(classes: &[TypeDef], name: &str) -> (r: Option<usize>)
    ensures
        match r {
            Some(i) => class_pos(classes@, name@, 0) == Some(i as int),
            None => class_pos(classes@, name@, 0) is None,
        },
{
    let mut i: usize = 0;
    while i < classes.len()
        invariant
            i <= classes@.len(),
            class_pos(classes@, name@, 0) == class_pos(classes@, name@, i as int),
        decreases classes.len() - i,
    {
        if str_eq(classes[i].name.as_str(), name) {
            return Some(i);
        }
        i = i + 1;
    }
    None
}

fn same_path(a: &[usize], b: &[usize]) -> (r: bool)
    ensures
        r == (a@ == b@),
{
    if a.len() != b.len() {
        return false;
    }
    let mut i: usize = 0;
    while i < a.len()
        invariant
            a@.len() == b@.len(),
            i <= a@.len(),
            forall|k: int| 0 <= k < i ==> a@[k] == b@[k],
        decreases a.len() - i,
    {
        if a[i] != b[i] {
            return false;
        }
        i = i + 1;
    }
    assert(a@ =~= b@);
    true
}

/// Whether `path` is among the expanded paths.
fn path_expanded(expanded: &[Vec<usize>], path: &[usize]) -> (r: bool)
    ensures
        r == is_expanded(expanded@, path@),
{
    let mut k: usize = 0;
    while k < expanded.len()
        invariant
            k <= expanded@.len(),
            forall|j: int| 0 <= j < k ==> (#[trigger] expanded@[j])@ != path@,
        decreases expanded.len() - k,
    {
        if same_path(expanded[k].as_slice(), path) {
            return true;
        }
        k = k + 1;
    }
    false
}

/// `"` + `s` + `"`.
fn quoted(s: &str) -> (r: String)
    ensures
        r@ == seq!['"'] + s@ + seq!['"'],
{
    let mut r = String::new();
    push_char(&mut r, '"');
    let cs = str_chars(s);
    push_chars(&mut r, cs.as_slice());
    push_char(&mut r, '"');
    r
}

/// What remains of the depth budget at `depth`.
pub open spec fn depth_left(depth: int) -> nat {
    if depth < MAX_DEPTH {
        (MAX_DEPTH - depth) as nat
    } else {
        0
    }
}

/// The rows of a walk of `class` at `base`, reached by `path` at `depth`
/// over `target` (no memory when `None`): one row per field of the first
/// class of that name, in order, each as [`row_in_walk`] says; none for an
/// undeclared class.
pub open spec fn walk_rows<T: InspectMemory>(
    rows: Seq<FieldRow>,
    classes: Seq<TypeDef>,
    class: Seq<char>,
    base: u64,
    ptr: nat,
    target: Option<&T>,
    path: Seq<usize>,
    expanded: Seq<Vec<usize>>,
    depth: int,
) -> bool
    decreases depth_left(depth), 1nat,
{
    match class_pos(classes, class, 0) {
        None => rows.len() == 0,
        Some(ci) => {
            &&& 0 <= ci < classes.len()
            &&& rows.len() == classes[ci].fields@.len()
            &&& forall|i: int|
                0 <= i < rows.len() ==> row_in_walk(
                    #[trigger] rows[i],
                    classes[ci].fields@[i],
                    i,
                    classes,
                    base,
                    ptr,
                    target,
                    path,
                    expanded,
                    depth,
                )
        },
    }
}

/// The string a string pointer read as `ptrv` points to, if readable.
pub open spec fn pointed_string<T: InspectMemory>(t: &T, ptrv: Option<usize>) -> Option<Seq<char>> {
    match ptrv {
        Some(p) => t.read_string_spec(p),
        None => None,
    }
}

/// A value shown for the bytes read as `read`: none when unreadable,
/// otherwise some text, which for a kind without floats is that kind's
/// text of the bytes.
pub open spec fn value_read(value: Option<String>, kind: FieldKind, read: Option<Seq<u8>>, ptr: nat) -> bool {
    match read {
        None => value is None,
        Some(b) => value matches Some(v) && (!has_floats(kind) ==> v@ == format_spec(kind, b, ptr)),
    }
}

/// Row `r` of a walk over `target`, for field `f`, the `i`-th of a class at
/// `base`. It describes the field. Without memory it has no value and no
/// pointee. Otherwise its value is what the field's bytes at its address
/// read as (a string pointer whose string is readable shows that string
/// quoted instead), and a pointer or string pointer has as pointee what
/// the pointer at its address reads as; other kinds have none. When the
/// field is an expandable pointer whose path is expanded, below
/// `MAX_DEPTH`, pointing somewhere non-null, its children are the walk of
/// its target class at the pointee; else it has none.
pub open spec fn row_in_walk<T: InspectMemory>(
    r: FieldRow,
    f: FieldDef,
    i: int,
    classes: Seq<TypeDef>,
    base: u64,
    ptr: nat,
    target: Option<&T>,
    path: Seq<usize>,
    expanded: Seq<Vec<usize>>,
    depth: int,
) -> bool
    decreases depth_left(depth), 0nat,
{
    &&& row_describes(r, f, i, base, ptr, classes)
    &&& match target {
        None => r.value is None && r.pointee is None,
        Some(t) => {
            let at = r.address as usize;
            let ptrv = t.read_ptr_spec(at);
            &&& r.pointee == (if f.kind == FieldKind::Ptr || f.kind == FieldKind::StrPtr {
                match ptrv {
                    Some(v) => Some(v as u64),
                    None => None,
                }
            } else {
                None
            })
            &&& if f.kind == FieldKind::StrPtr && pointed_string(t, ptrv) is Some {
                r.value matches Some(v) && v@ == quoted_text(pointed_string(t, ptrv)->Some_0)
            } else {
                value_read(r.value, f.kind, t.read_bytes_spec(at, r.size), ptr)
            }
        },
    }
    &&& if r.expandable && depth < MAX_DEPTH && is_expanded(expanded, path.push(i as usize)) && (r.pointee matches Some(
        p,
    ) && p != 0) {
        walk_rows(
            r.children@,
            classes,
            r.kind_meta->Some_0@,
            r.pointee->Some_0,
            ptr,
            target,
            path.push(i as usize),
            expanded,
            depth + 1,
        )
    } else {
        r.children@.len() == 0
    }
}

/// `t` between double quotes.
pub open spec fn quoted_text(t: Seq<char>) -> Seq<char> {
    seq!['"'] + t + seq!['"']
}

/// Walks `class` at `base`: one row per field, in order, with the field's
/// address and, when `target` is given, its value (shown by the library's
/// formatter, or by the target for kinds with floats). A pointer to a
/// declared class is expandable; when its path (the field indices from the
/// top class) is among `expanded`, the depth is below `MAX_DEPTH` and it
/// points somewhere non-null, its rows are the walk of that class at the
/// pointee. A string pointer shows the quoted string it points to. An
/// undeclared class gives no rows.
pub fn walk<T: InspectMemory>(
    classes: &[TypeDef],
    class: &str,
    base: u64,
    ptr: usize,
    target: Option<&T>,
    path: &mut Vec<usize>,
    expanded: &[Vec<usize>],
    depth: usize,
) -> (rows: Vec<FieldRow>)
    ensures
        final(path)@ == old(path)@,
        walk_rows(rows@, classes@, class@, base, ptr as nat, target, old(path)@, expanded@, depth as int),
    decreases MAX_DEPTH - depth,
{
    let ci = match class_position(classes, class) {
        Some(ci) => ci,
        None => return Vec::new(),
    };
    proof {
        lemma_class_pos_bounds(classes@, class@, 0);
    }
    let t = &classes[ci];
    let mut rows: Vec<FieldRow> = Vec::new();
    let mut i: usize = 0;
    while i < t.fields.len()
        invariant
            t == classes@[ci as int],
            class_pos(classes@, class@, 0) == Some(ci as int),
            ci < classes@.len(),
            i <= t.fields@.len(),
            rows@.len() == i,
            path@ == old(path)@,
            forall|k: int|
                0 <= k < i ==> row_in_walk(
                    #[trigger] rows@[k],
                    t.fields@[k],
                    k,
                    classes@,
                    base,
                    ptr as nat,
                    target,
                    old(path)@,
                    expanded@,
                    depth as int,
                ),
        decreases t.fields.len() - i,
    {
        let f = &t.fields[i];
        let addr = base.wrapping_add(f.offset as u64);
        let at: usize = #[verifier::truncate] (addr as usize);
        let size = f.kind.size_with_ptr(ptr);
        let mut value: Option<String> = match target {
            Some(tg) => match tg.read_bytes(at, size) {
                Some(b) => {
                    if floats_in(f.kind) {
                        Some(tg.show(f.kind, b.as_slice(), ptr))
                    } else {
                        Some(format_bytes(f.kind, b.as_slice(), ptr))
                    }
                },
                None => None,
            },
            None => None,
        };
        let mut pointee: Option<u64> = None;
        let mut expandable = false;
        let mut children: Vec<FieldRow> = Vec::new();
        match f.kind {
            FieldKind::Ptr => {
                if let Some(tg) = target {
                    pointee = match tg.read_ptr(at) {
                        Some(v) => Some(v as u64),
                        None => None,
                    };
                }
                if let Some(meta) = &f.metadata {
                    if class_position(classes, meta.as_str()).is_some() {
                        expandable = true;
                        path.push(i);
                        if depth < MAX_DEPTH && path_expanded(expanded, path.as_slice()) {
                            if let Some(pv) = pointee {
                                if pv != 0 {
                                    children = walk(classes, meta.as_str(), pv, ptr, target, path, expanded, depth + 1);
                                }
                            }
                        }
                        path.pop();
                        assert(path@ =~= old(path)@);
                    }
                }
            },
            FieldKind::StrPtr => {
                if let Some(tg) = target {
                    if let Some(p) = tg.read_ptr(at) {
                        pointee = Some(p as u64);
                        if let Some(s) = tg.read_string(p) {
                            let q = quoted(s.as_str());
                            assert(q@ == quoted_text(s@));
                            value = Some(q);
                        }
                    }
                }
            },
            _ => {},
        }
        let row = FieldRow {
            field_index: i,
            offset: f.offset,
            address: addr,
            name: f.name.clone(),
            kind: f.kind.to_kind_string(),
            size,
            value,
            kind_meta: match &f.metadata {
                Some(m) => Some(m.clone()),
                None => None,
            },
            pointee,
            expandable,
            children,
        };
        assert(row_in_walk(row, t.fields@[i as int], i as int, classes@, base, ptr as nat, target, old(path)@, expanded@, depth as int));
        rows.push(row);
        i = i + 1;
    }
    rows
}

/// The inspector view of `class` at `base`; fails, naming the class, when
/// the layout declares no such class.
pub fn inspect<T: InspectMemory>(
    classes: &[TypeDef],
    class: String,
    base: u64,
    ptr: usize,
    target: Option<&T>,
    expanded: &[Vec<usize>],
) -> (r: Result<InspectResult, String>)
    ensures
        match r {
            Ok(res) => {
                &&& class_pos(classes@, class@, 0) is Some
                &&& res.class_name == class
                &&& res.base_addr == base
                &&& res.ptr_size == ptr
                &&& res.attached == target is Some
                &&& walk_rows(res.rows@, classes@, class@, base, ptr as nat, target, seq![], expanded@, 0)
            },
            Err(m) => class_pos(classes@, class@, 0) is None && m@ == "no class named `"@ + class@ + "`"@,
        },
{
    if class_position(classes, class.as_str()).is_none() {
        let mut m = String::from_str("no class named `");
        m.append(class.as_str());
        m.append("`");
        return Err(m);
    }
    let mut path: Vec<usize> = Vec::new();
    assert(path@ =~= seq![]);
    let rows = walk(classes, class.as_str(), base, ptr, target, &mut path, expanded, 0);
    Ok(InspectResult { class_name: class, base_addr: base, ptr_size: ptr, attached: target.is_some(), rows })
}

} // verus!
