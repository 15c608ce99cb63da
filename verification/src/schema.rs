//! The type-declaration model: fields, class layouts, projects, and a builder
//! that places fields at running offsets.

use vstd::prelude::*;
use vstd::string::*;
use crate::types::{FieldKind, DEFAULT_PTR_SIZE};

verus! {

/// A single field within a [`TypeDef`]: a name, an absolute offset, a kind,
/// and optional metadata (for [`FieldKind::Ptr`], the target type name).
#[derive(Debug, Clone, PartialEq)]
pub struct FieldDef {
    /// Field name.
    pub name: String,
    /// Byte offset from the start of the containing type.
    pub offset: usize,
    /// Field kind.
    pub kind: FieldKind,
    /// Optional metadata (e.g. the referenced type name for a pointer).
    pub metadata: Option<String>,
}

/// A class/struct layout: a name and its fields.
#[derive(Debug, Clone, PartialEq)]
pub struct TypeDef {
    /// Type name.
    pub name: String,
    /// Fields, in declaration order (not necessarily sorted by offset).
    pub fields: Vec<FieldDef>,
}

/// A collection of type declarations.
#[derive(Debug, Clone, PartialEq)]
#[non_exhaustive]
pub struct Project {
    /// The declared types.
    pub classes: Vec<TypeDef>,
}

impl Project {
    /// An empty project.
    pub fn new() -> (p: Self)
        ensures
            p.classes@.len() == 0,
    {
        Project { classes: Vec::new() }
    }

    /// A project holding exactly `types`, in order.
    pub fn from_types(types: Vec<TypeDef>) -> (p: Self)
        ensures
            p.classes@ == types@,
    {
        Project { classes: types }
    }

    /// Appends a type declaration.
    pub fn push(&mut self, t: TypeDef)
        ensures
            final(self).classes@ == old(self).classes@.push(t),
    {
        self.classes.push(t);
    }
}

/// Builds a [`TypeDef`] with running offsets, so callers can append fields
/// without computing offsets by hand. Pointer-sized fields advance by the
/// configured pointer width.
pub struct TypeBuilder {
    name: String,
    fields: Vec<FieldDef>,
    offset: usize,
    ptr_size: usize,
}

impl TypeBuilder {
    /// The type name being built.
    pub closed spec fn class_name(&self) -> Seq<char> {
        self.name@
    }

    /// The fields placed so far, in order.
    pub closed spec fn placed(&self) -> Seq<FieldDef> {
        self.fields@
    }

    /// The running offset: where the next appended field goes.
    pub closed spec fn next_offset(&self) -> nat {
        self.offset as nat
    }

    /// The pointer width used to size pointer fields.
    pub closed spec fn pointer_width(&self) -> nat {
        self.ptr_size as nat
    }

    /// Starts a new type builder assuming 64-bit pointers.
    pub fn new(name: &str) -> (b: Self)
        ensures
            b.class_name() == name@,
            b.placed().len() == 0,
            b.next_offset() == 0,
            b.pointer_width() == DEFAULT_PTR_SIZE,
    {
        TypeBuilder { name: String::from_str(name), fields: Vec::new(), offset: 0, ptr_size: DEFAULT_PTR_SIZE }
    }

    /// Sets the pointer width (4 or 8) used to advance the running offset for
    /// pointer fields.
    pub fn with_ptr_size(self, ptr_size: usize) -> (b: Self)
        ensures
            b.class_name() == self.class_name(),
            b.placed() == self.placed(),
            b.next_offset() == self.next_offset(),
            b.pointer_width() == ptr_size,
    {
        let mut b = self;
        b.ptr_size = ptr_size;
        b
    }

    /// Where the next appended field goes.
    pub fn cursor(&self) -> (r: usize)
        ensures
            r == self.next_offset(),
    {
        self.offset
    }

    /// The pointer width pointer fields are sized with.
    pub fn ptr_size(&self) -> (r: usize)
        ensures
            r == self.pointer_width(),
    {
        self.ptr_size
    }

    /// Appends a field at the current running offset, advancing by its size.
    pub fn field(&mut self, name: &str, kind: FieldKind) -> (r: &mut Self)
        requires
            old(self).next_offset() + kind.byte_size(old(self).pointer_width()) <= usize::MAX,
        ensures
            *final(self) == *final(r),
            r.class_name() == old(self).class_name(),
            r.pointer_width() == old(self).pointer_width(),
            r.placed().len() == old(self).placed().len() + 1,
            r.placed().drop_last() == old(self).placed(),
            r.placed().last().name@ == name@,
            r.placed().last().offset == old(self).next_offset(),
            r.placed().last().kind == kind,
            r.placed().last().metadata is None,
            r.next_offset() == old(self).next_offset() + kind.byte_size(
                old(self).pointer_width(),
            ),
    {
        self.field_with_meta(name, kind, None)
    }

    /// Like [`Self::field`], but attaches metadata (e.g. a pointer's target
    /// type name).
    pub fn field_with_meta(&mut self, name: &str, kind: FieldKind, metadata: Option<String>) -> (r: &mut Self)
        requires
            old(self).next_offset() + kind.byte_size(old(self).pointer_width()) <= usize::MAX,
        ensures
            *final(self) == *final(r),
            r.class_name() == old(self).class_name(),
            r.pointer_width() == old(self).pointer_width(),
            r.placed().len() == old(self).placed().len() + 1,
            r.placed().drop_last() == old(self).placed(),
            r.placed().last().name@ == name@,
            r.placed().last().offset == old(self).next_offset(),
            r.placed().last().kind == kind,
            r.placed().last().metadata == metadata,
            r.next_offset() == old(self).next_offset() + kind.byte_size(
                old(self).pointer_width(),
            ),
    {
        let size = kind.size_with_ptr(self.ptr_size);
        let f = FieldDef { name: String::from_str(name), offset: self.offset, kind, metadata };
        self.fields.push(f);
        self.offset = self.offset + size;
        assert(self.fields@.drop_last() =~= old(self).fields@);
        self
    }

    /// Places a field at an explicit offset; the running offset advances to
    /// just past it. Use for sparse layouts.
    pub fn field_at(&mut self, name: &str, kind: FieldKind, offset: usize) -> (r: &mut Self)
        requires
            offset + kind.byte_size(old(self).pointer_width()) <= usize::MAX,
        ensures
            *final(self) == *final(r),
            r.class_name() == old(self).class_name(),
            r.pointer_width() == old(self).pointer_width(),
            r.placed().len() == old(self).placed().len() + 1,
            r.placed().drop_last() == old(self).placed(),
            r.placed().last().name@ == name@,
            r.placed().last().offset == offset,
            r.placed().last().kind == kind,
            r.placed().last().metadata is None,
            r.next_offset() == offset + kind.byte_size(old(self).pointer_width()),
    {
        let size = kind.size_with_ptr(self.ptr_size);
        let f = FieldDef { name: String::from_str(name), offset, kind, metadata: None };
        self.fields.push(f);
        self.offset = offset + size;
        assert(self.fields@.drop_last() =~= old(self).fields@);
        self
    }

    /// Advances the running offset by `bytes` without adding a field.
    pub fn pad(&mut self, bytes: usize) -> (r: &mut Self)
        requires
            old(self).next_offset() + bytes <= usize::MAX,
        ensures
            *final(self) == *final(r),
            r.class_name() == old(self).class_name(),
            r.pointer_width() == old(self).pointer_width(),
            r.placed() == old(self).placed(),
            r.next_offset() == old(self).next_offset() + bytes,
    {
        self.offset = self.offset + bytes;
        self
    }

    /// Finalizes the builder into a [`TypeDef`].
    pub fn build(self) -> (t: TypeDef)
        ensures
            t.name@ == self.class_name(),
            t.fields@ == self.placed(),
    {
        TypeDef { name: self.name, fields: self.fields }
    }
}


/// One call on a type builder, with its arguments.
pub enum BuildStep {
    /// `field(name, kind)`.
    Field(Seq<char>, FieldKind),
    /// `field_with_meta(name, kind, metadata)`.
    FieldWithMeta(Seq<char>, FieldKind, Option<String>),
    /// `field_at(name, kind, offset)`.
    FieldAt(Seq<char>, FieldKind, usize),
    /// `pad(bytes)`.
    Pad(usize),
}

/// A placed field as name, offset, kind and metadata.
pub open spec fn placed_entry(f: FieldDef) -> (Seq<char>, int, FieldKind, Option<String>) {
    (f.name@, f.offset as int, f.kind, f.metadata)
}

/// Builder `b` is builder `a` after step `s`, as that builder method's
/// contract says.
pub open spec fn step_taken(a: TypeBuilder, s: BuildStep, b: TypeBuilder) -> bool {
    let w = a.pointer_width();
    &&& b.class_name() == a.class_name()
    &&& b.pointer_width() == w
    &&& match s {
        BuildStep::Pad(n) => b.placed() == a.placed() && b.next_offset() == a.next_offset() + n,
        _ => {
            let (name, off, kind, meta) = match s {
                BuildStep::Field(n, k) => (n, a.next_offset() as int, k, None::<String>),
                BuildStep::FieldWithMeta(n, k, m) => (n, a.next_offset() as int, k, m),
                BuildStep::FieldAt(n, k, o) => (n, o as int, k, None::<String>),
                BuildStep::Pad(_) => (seq![], 0, FieldKind::U8, None::<String>),
            };
            &&& b.placed().len() == a.placed().len() + 1
            &&& b.placed().drop_last() == a.placed()
            &&& placed_entry(b.placed().last()) == (name, off, kind, meta)
            &&& b.next_offset() == off + kind.byte_size(w)
        },
    }
}

/// The running offset after `steps` from a fresh builder with pointer
/// width `w`.
pub open spec fn steps_cursor(steps: Seq<BuildStep>, w: nat) -> int
    decreases steps.len(),
{
    if steps.len() == 0 {
        0
    } else {
        let c = steps_cursor(steps.drop_last(), w);
        match steps.last() {
            BuildStep::Field(_, k) => c + k.byte_size(w),
            BuildStep::FieldWithMeta(_, k, _) => c + k.byte_size(w),
            BuildStep::FieldAt(_, k, o) => o + k.byte_size(w),
            BuildStep::Pad(n) => c + n,
        }
    }
}

/// The fields `steps` place from a fresh builder with pointer width `w`:
/// one per field call, in call order, at the running offset (or the given
/// one), none for padding.
pub open spec fn steps_fields(steps: Seq<BuildStep>, w: nat) -> Seq<(Seq<char>, int, FieldKind, Option<String>)>
    decreases steps.len(),
{
    if steps.len() == 0 {
        seq![]
    } else {
        let before = steps_fields(steps.drop_last(), w);
        let c = steps_cursor(steps.drop_last(), w);
        match steps.last() {
            BuildStep::Field(n, k) => before.push((n, c, k, None)),
            BuildStep::FieldWithMeta(n, k, m) => before.push((n, c, k, m)),
            BuildStep::FieldAt(n, k, o) => before.push((n, o as int, k, None)),
            BuildStep::Pad(_) => before,
        }
    }
}

/// A builder fresh from `new` (or `with_ptr_size` on one), taken through
/// any sequence of `field`, `field_with_meta`, `field_at` and `pad` calls,
/// keeps its name and pointer width and holds exactly one field per field
/// call, in call order, none for `pad`; `build` then gives that name and
/// those fields.
pub proof fn lemma_builder_sequence(bs: Seq<TypeBuilder>, steps: Seq<BuildStep>)
    requires
        bs.len() == steps.len() + 1,
        bs[0].placed().len() == 0,
        bs[0].next_offset() == 0,
        forall|i: int| 0 <= i < steps.len() ==> step_taken(#[trigger] bs[i], steps[i], bs[i + 1]),
    ensures
        bs.last().class_name() == bs[0].class_name(),
        bs.last().pointer_width() == bs[0].pointer_width(),
        bs.last().placed().map_values(|f: FieldDef| placed_entry(f)) == steps_fields(steps, bs[0].pointer_width()),
        bs.last().next_offset() == steps_cursor(steps, bs[0].pointer_width()),
    decreases steps.len(),
{
    let w = bs[0].pointer_width();
    if steps.len() == 0 {
        assert(bs[0].placed().map_values(|f: FieldDef| placed_entry(f)) =~= seq![]);
    } else {
        let n = steps.len() - 1;
        let bs0 = bs.drop_last();
        let st0 = steps.drop_last();
        assert forall|i: int| 0 <= i < st0.len() implies step_taken(#[trigger] bs0[i], st0[i], bs0[i + 1]) by {
            assert(step_taken(bs[i], steps[i], bs[i + 1]));
        }
        lemma_builder_sequence(bs0, st0);
        assert(bs0.last() == bs[n]);
        assert(step_taken(bs[n], steps[n], bs[n + 1]));
        let a = bs[n];
        let b = bs[n + 1];
        let f = |x: FieldDef| placed_entry(x);
        match steps[n] {
            BuildStep::Pad(_) => {},
            _ => {
                assert(b.placed().map_values(f) =~= a.placed().map_values(f).push(placed_entry(b.placed().last())))
                    by {
                    assert(b.placed() =~= a.placed().push(b.placed().last()));
                }
            },
        }
    }
}

/// Where a field sorted by offset goes among `sorted`: after every field
/// whose offset is not greater (so equal offsets keep their order).
pub open spec fn insert_by_offset(sorted: Seq<FieldDef>, f: FieldDef) -> Seq<FieldDef>
    decreases sorted.len(),
{
    if sorted.len() == 0 {
        seq![f]
    } else if sorted.last().offset <= f.offset {
        sorted.push(f)
    } else {
        insert_by_offset(sorted.drop_last(), f).push(sorted.last())
    }
}

/// The fields stably sorted by offset.
pub open spec fn sort_by_offset(fields: Seq<FieldDef>) -> Seq<FieldDef>
    decreases fields.len(),
{
    if fields.len() == 0 {
        seq![]
    } else {
        insert_by_offset(sort_by_offset(fields.drop_last()), fields.last())
    }
}

/// The largest unknown-value chunk that fits a gap of `gap` bytes, and its
/// size.
pub open spec fn pad_chunk(gap: int) -> (FieldKind, int) {
    if gap >= 8 {
        (FieldKind::Unk64, 8)
    } else if gap >= 4 {
        (FieldKind::Unk32, 4)
    } else if gap >= 2 {
        (FieldKind::Unk16, 2)
    } else {
        (FieldKind::Unk8, 1)
    }
}

/// The padding fields `(offset, kind)` that fill `[cur, target)` with the
/// largest chunks that fit.
pub open spec fn padding(cur: int, target: int) -> Seq<(int, FieldKind)>
    decreases target - cur,
{
    if cur >= target {
        seq![]
    } else {
        let (k, sz) = pad_chunk(target - cur);
        seq![(cur, k)] + padding(cur + sz, target)
    }
}

/// A field as the layout sees it: name, offset, kind, metadata.
pub open spec fn field_view(f: FieldDef) -> (Seq<char>, int, FieldKind, Option<Seq<char>>) {
    (
        f.name@,
        f.offset as int,
        f.kind,
        match f.metadata {
            Some(m) => Some(m@),
            None => None,
        },
    )
}

/// A padding field's view.
pub open spec fn pad_view(p: (int, FieldKind)) -> (Seq<char>, int, FieldKind, Option<Seq<char>>) {
    (seq![], p.0, p.1, None)
}

/// Lays out `fields` (already sorted) from `cur` on: before each field, the
/// gap since the end of the layout so far is filled with padding; each field
/// keeps its offset, and the layout then ends at the later of its old end
/// and the field's end.
pub open spec fn contiguous_from(fields: Seq<FieldDef>, ptr: nat, cur: int) -> Seq<(Seq<char>, int, FieldKind, Option<Seq<char>>)>
    decreases fields.len(),
{
    if fields.len() == 0 {
        seq![]
    } else {
        let f = fields[0];
        let pads = padding(cur, f.offset as int).map_values(|p: (int, FieldKind)| pad_view(p));
        let after_pad = if cur < f.offset { f.offset as int } else { cur };
        let end = f.offset + f.kind.byte_size(ptr);
        let next = if after_pad > end { after_pad } else { end };
        pads.push(field_view(f)) + contiguous_from(fields.drop_first(), ptr, next)
    }
}

proof fn lemma_insert_elements(sorted: Seq<FieldDef>, f: FieldDef)
    ensures
        insert_by_offset(sorted, f).len() == sorted.len() + 1,
        forall|x: FieldDef| insert_by_offset(sorted, f).contains(x) ==> (sorted.contains(x) || x == f),
    decreases sorted.len(),
{
    if sorted.len() > 0 && sorted.last().offset > f.offset {
        lemma_insert_elements(sorted.drop_last(), f);
        let r = insert_by_offset(sorted.drop_last(), f);
        assert forall|x: FieldDef| r.push(sorted.last()).contains(x) implies (sorted.contains(x) || x == f) by {
            if r.contains(x) {
                if x != f {
                    assert(sorted.drop_last().contains(x));
                    let j = choose|j: int| 0 <= j < sorted.drop_last().len() && sorted.drop_last()[j] == x;
                    assert(sorted[j] == x);
                }
            } else {
                let j = choose|j: int| 0 <= j < r.push(sorted.last()).len() && r.push(sorted.last())[j] == x;
                if j < r.len() {
                    assert(r[j] == x);
                } else {
                    assert(sorted[sorted.len() - 1] == x);
                }
            }
        }
    } else if sorted.len() > 0 {
        assert forall|x: FieldDef| sorted.push(f).contains(x) implies (sorted.contains(x) || x == f) by {
            let j = choose|j: int| 0 <= j < sorted.push(f).len() && sorted.push(f)[j] == x;
            if j < sorted.len() {
                assert(sorted[j] == x);
            }
        }
    }
}

/// Sorting keeps the number of fields and introduces none.
proof fn lemma_sort_elements(s: Seq<FieldDef>)
    ensures
        sort_by_offset(s).len() == s.len(),
        forall|x: FieldDef| sort_by_offset(s).contains(x) ==> s.contains(x),
    decreases s.len(),
{
    if s.len() > 0 {
        lemma_sort_elements(s.drop_last());
        lemma_insert_elements(sort_by_offset(s.drop_last()), s.last());
        assert forall|x: FieldDef| sort_by_offset(s).contains(x) implies s.contains(x) by {
            assert(sort_by_offset(s) == insert_by_offset(sort_by_offset(s.drop_last()), s.last()));
            if x == s.last() {
                assert(s[s.len() - 1] == x);
            } else {
                assert(sort_by_offset(s.drop_last()).contains(x));
                let d = s.drop_last();
                assert(d.contains(x));
                let j = choose|j: int| 0 <= j < d.len() && d[j] == x;
                assert(s[j] == x);
            }
        }
    }
}

/// Inserts `f` into the offset-sorted `v`, after every field whose offset
/// is not greater.
fn insert_field(v: &mut Vec<FieldDef>, f: FieldDef)
    ensures
        final(v)@ == insert_by_offset(old(v)@, f),
    decreases old(v)@.len(),
{
    let n = v.len();
    if n == 0 {
        v.push(f);
        assert(v@ =~= seq![f]);
        return;
    }
    if v[n - 1].offset <= f.offset {
        v.push(f);
        return;
    }
    let last = v.pop().unwrap();
    assert(v@ == old(v)@.drop_last());
    insert_field(v, f);
    v.push(last);
}

impl TypeDef {
    /// Lays the fields out contiguously: sorts them by offset (stably) and
    /// fills every gap before a field with the largest unnamed unknown-value
    /// fields that fit; fields keep their offsets, and overlapping fields are
    /// left overlapping.
    pub fn normalize_contiguous(self, ptr: usize) -> (t: TypeDef)
        requires
            forall|i: int| 0 <= i < self.fields@.len() ==> (#[trigger] self.fields@[i]).offset + self.fields@[i].kind.byte_size(ptr as nat) <= usize::MAX,
        ensures
            t.name == self.name,
            t.fields@.map_values(|f: FieldDef| field_view(f)) == contiguous_from(
                sort_by_offset(self.fields@),
                ptr as nat,
                0,
            ),
    {
        let TypeDef { name, fields } = self;
        let nf = fields.len();
        let ghost orig = fields@;
        assert(orig.len() == nf);
        let mut rest = fields;
        let mut sorted: Vec<FieldDef> = Vec::new();
        let mut k: usize = 0;
        assert(orig.skip(0) =~= orig);
        assert(orig.take(0) =~= seq![]);
        while rest.len() > 0
            invariant
                k <= orig.len(),
                orig.len() <= usize::MAX,
                rest@ == orig.skip(k as int),
                sorted@ == sort_by_offset(orig.take(k as int)),
            decreases rest@.len(),
        {
            let f = rest.remove(0);
            proof {
                assert(f == orig[k as int]);
                assert(orig.take(k + 1).drop_last() =~= orig.take(k as int));
            }
            insert_field(&mut sorted, f);
            k = k + 1;
            assert(rest@ =~= orig.skip(k as int));
        }
        assert(orig.take(k as int) =~= orig);
        assert(sorted@ == sort_by_offset(orig));
        proof {
            lemma_sort_elements(orig);
            assert forall|i: int| 0 <= i < sorted@.len() implies (#[trigger] sorted@[i]).offset + sorted@[i].kind.byte_size(ptr as nat) <= usize::MAX by {
                assert(sorted@.contains(sorted@[i]));
                assert(orig.contains(sorted@[i]));
                let j = choose|j: int| 0 <= j < orig.len() && orig[j] == sorted@[i];
                assert(orig[j].offset + orig[j].kind.byte_size(ptr as nat) <= usize::MAX);
            }
        }
        let mut out: Vec<FieldDef> = Vec::new();
        let mut cur: usize = 0;
        let ghost srt = sorted@;
        while sorted.len() > 0
            invariant
                forall|i: int| 0 <= i < sorted@.len() ==> (#[trigger] sorted@[i]).offset + sorted@[i].kind.byte_size(ptr as nat) <= usize::MAX,
                out@.map_values(|f: FieldDef| field_view(f)) + contiguous_from(sorted@, ptr as nat, cur as int)
                    == contiguous_from(srt, ptr as nat, 0),
            decreases sorted@.len(),
        {
            let ghost sb = sorted@;
            let f = sorted.remove(0);
            let ghost after = sorted@;
            assert(sb[0] == f);
            assert(sb.drop_first() =~= after);
            assert(f.offset + f.kind.byte_size(ptr as nat) <= usize::MAX);
            let ghost before_out = out@.map_values(|x: FieldDef| field_view(x));
            let ghost cur0 = cur;
            while cur < f.offset
                invariant
                    cur0 <= cur,
                    out@.map_values(|x: FieldDef| field_view(x)) + padding(cur as int, f.offset as int).map_values(|p: (int, FieldKind)| pad_view(p))
                        == before_out + padding(cur0 as int, f.offset as int).map_values(|p: (int, FieldKind)| pad_view(p)),
                    cur0 < f.offset ==> cur <= f.offset,
                    cur0 >= f.offset ==> cur == cur0,
                decreases f.offset - cur,
            {
                let gap = f.offset - cur;
                let (kind, sz): (FieldKind, usize) = if gap >= 8 {
                    (FieldKind::Unk64, 8)
                } else if gap >= 4 {
                    (FieldKind::Unk32, 4)
                } else if gap >= 2 {
                    (FieldKind::Unk16, 2)
                } else {
                    (FieldKind::Unk8, 1)
                };
                let ghost pv = out@.map_values(|x: FieldDef| field_view(x));
                out.push(FieldDef { name: String::new(), offset: cur, kind, metadata: None });
                proof {
                    assert(out@.map_values(|x: FieldDef| field_view(x)) =~= pv.push(pad_view((cur as int, kind))));
                    assert(padding(cur as int, f.offset as int) == seq![(cur as int, kind)] + padding(cur + sz, f.offset as int));
                    assert(padding(cur as int, f.offset as int).map_values(|p: (int, FieldKind)| pad_view(p)) =~= seq![pad_view((cur as int, kind))] + padding(cur + sz, f.offset as int).map_values(|p: (int, FieldKind)| pad_view(p)));
                }
                cur = cur + sz;
            }
            assert(padding(cur as int, f.offset as int) =~= seq![]);
            let end = f.offset + f.kind.size_with_ptr(ptr);
            if end > cur {
                cur = end;
            }
            let ghost fv = field_view(f);
            let ghost pv2 = out@.map_values(|x: FieldDef| field_view(x));
            out.push(f);
            proof {
                assert(out@.map_values(|x: FieldDef| field_view(x)) =~= pv2.push(fv));
                let padmap = padding(cur0 as int, f.offset as int).map_values(|p: (int, FieldKind)| pad_view(p));
                assert(pv2 == before_out + padmap);
                assert(contiguous_from(sb, ptr as nat, cur0 as int) == padmap.push(fv) + contiguous_from(after, ptr as nat, cur as int));
                assert(out@.map_values(|x: FieldDef| field_view(x)) + contiguous_from(after, ptr as nat, cur as int) =~= before_out + contiguous_from(sb, ptr as nat, cur0 as int));
            }
        }
        TypeDef { name, fields: out }
    }
}

/// A laid-out field as the layout law sees it.
pub type LaidField = (Seq<char>, int, FieldKind, Option<Seq<char>>);

/// The fields of `v` tile the bytes from `start` on: each starts exactly
/// where the one before it ended.
pub open spec fn tiles(v: Seq<LaidField>, ptr: nat, start: int) -> bool
    decreases v.len(),
{
    v.len() == 0 || (v[0].1 == start && tiles(v.drop_first(), ptr, start + v[0].2.byte_size(ptr)))
}

/// Where the fields of `v`, laid end to end from `start`, end.
pub open spec fn tiles_end(v: Seq<LaidField>, ptr: nat, start: int) -> int
    decreases v.len(),
{
    if v.len() == 0 {
        start
    } else {
        tiles_end(v.drop_first(), ptr, start + v[0].2.byte_size(ptr))
    }
}

/// Consecutive fields of `fields` (in order) do not overlap, and the first
/// starts at or after `cur`.
pub open spec fn disjoint_from(fields: Seq<FieldDef>, ptr: nat, cur: int) -> bool {
    &&& (fields.len() > 0 ==> cur <= fields[0].offset)
    &&& forall|i: int|
        0 <= i < fields.len() - 1 ==> #[trigger] fields[i].offset + fields[i].kind.byte_size(ptr) <= fields[i
            + 1].offset
}

proof fn lemma_tiles_append(a: Seq<LaidField>, b: Seq<LaidField>, ptr: nat, start: int)
    requires
        tiles(a, ptr, start),
        tiles(b, ptr, tiles_end(a, ptr, start)),
    ensures
        tiles(a + b, ptr, start),
        tiles_end(a + b, ptr, start) == tiles_end(b, ptr, tiles_end(a, ptr, start)),
    decreases a.len(),
{
    if a.len() == 0 {
        assert(a + b =~= b);
    } else {
        lemma_tiles_append(a.drop_first(), b, ptr, start + a[0].2.byte_size(ptr));
        assert((a + b).drop_first() =~= a.drop_first() + b);
    }
}

proof fn lemma_padding_tiles(cur: int, target: int, ptr: nat)
    requires
        cur <= target,
    ensures
        tiles(padding(cur, target).map_values(|p: (int, FieldKind)| pad_view(p)), ptr, cur),
        tiles_end(padding(cur, target).map_values(|p: (int, FieldKind)| pad_view(p)), ptr, cur) == target,
    decreases target - cur,
{
    let v = padding(cur, target).map_values(|p: (int, FieldKind)| pad_view(p));
    if cur < target {
        let (k, sz) = pad_chunk(target - cur);
        assert(k.byte_size(ptr) == sz);
        lemma_padding_tiles(cur + sz, target, ptr);
        assert(v.drop_first() =~= padding(cur + sz, target).map_values(|p: (int, FieldKind)| pad_view(p)));
    } else {
        assert(v.len() == 0);
    }
}

proof fn lemma_contiguous_tiles(fields: Seq<FieldDef>, ptr: nat, cur: int)
    requires
        disjoint_from(fields, ptr, cur),
    ensures
        tiles(contiguous_from(fields, ptr, cur), ptr, cur),
        fields.len() > 0 ==> tiles_end(contiguous_from(fields, ptr, cur), ptr, cur) == fields.last().offset
            + fields.last().kind.byte_size(ptr),
        fields.len() == 0 ==> tiles_end(contiguous_from(fields, ptr, cur), ptr, cur) == cur,
    decreases fields.len(),
{
    if fields.len() > 0 {
        let f = fields[0];
        let pads = padding(cur, f.offset as int).map_values(|p: (int, FieldKind)| pad_view(p));
        let end = f.offset + f.kind.byte_size(ptr);
        lemma_padding_tiles(cur, f.offset as int, ptr);
        let head = pads.push(field_view(f));
        let one = seq![field_view(f)];
        assert(one.drop_first() =~= Seq::<LaidField>::empty());
        assert(tiles(one.drop_first(), ptr, end));
        assert(tiles_end(one.drop_first(), ptr, end) == end);
        assert(tiles(one, ptr, f.offset as int));
        assert(tiles_end(one, ptr, f.offset as int) == end);
        assert(head =~= pads + one);
        lemma_tiles_append(pads, one, ptr, cur);
        let rest = fields.drop_first();
        assert(disjoint_from(rest, ptr, end)) by {
            if rest.len() > 0 {
                assert(fields[0].offset + fields[0].kind.byte_size(ptr) <= fields[1].offset);
            }
            assert forall|i: int| 0 <= i < rest.len() - 1 implies #[trigger] rest[i].offset + rest[i].kind.byte_size(ptr)
                <= rest[i + 1].offset by {
                assert(fields[i + 1].offset + fields[i + 1].kind.byte_size(ptr) <= fields[i + 2].offset);
            }
        }
        lemma_contiguous_tiles(rest, ptr, end);
        lemma_tiles_append(head, contiguous_from(rest, ptr, end), ptr, cur);
        if rest.len() > 0 {
            assert(rest.last() == fields.last());
        }
    }
}

/// Laying out fields that do not overlap leaves no gap: once sorted by
/// offset, each field of the layout (padding included) starts exactly
/// where the one before it ended, the first at offset 0, and the layout
/// ends where the last field does.
pub proof fn lemma_normalized_gap_free(fields: Seq<FieldDef>, ptr: nat)
    requires
        disjoint_from(sort_by_offset(fields), ptr, 0),
    ensures
        tiles(contiguous_from(sort_by_offset(fields), ptr, 0), ptr, 0),
        fields.len() > 0 ==> tiles_end(contiguous_from(sort_by_offset(fields), ptr, 0), ptr, 0) == sort_by_offset(
            fields,
        ).last().offset + sort_by_offset(fields).last().kind.byte_size(ptr),
{
    lemma_sort_elements(fields);
    lemma_contiguous_tiles(sort_by_offset(fields), ptr, 0);
}
} // verus!
