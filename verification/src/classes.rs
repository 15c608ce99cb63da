//! Editing class layouts: class and field creation, renaming, retyping and
//! deletion over the session's class list, each edit undoable.

use vstd::prelude::*;
use vstd::string::*;
use crate::dto::{field_end, max_end, ClassSummaryDto, FieldInputDto};
use crate::history::{History, UNDO_LIMIT};
use crate::inspect::{class_pos, class_position, lemma_class_pos_bounds};
use crate::project::msg_unknown_kind;
use crate::schema::{FieldDef, TypeDef};
use crate::text::{str_chars, str_eq, string_of, trim_chars, trim_spec};
use crate::types::{parse_kind, FieldKind};

verus! {

/// Message: a class name that is empty once trimmed.
pub open spec fn msg_empty_name() -> Seq<char> {
    "class name cannot be empty"@
}

/// Message: a class of this name exists already.
pub open spec fn msg_exists(name: Seq<char>) -> Seq<char> {
    "a class named `"@ + name + "` already exists"@
}

/// Message: no class has this name.
pub open spec fn msg_no_class(name: Seq<char>) -> Seq<char> {
    "no class named `"@ + name + "`"@
}

/// Message: a kind string that names no kind.
pub open spec fn msg_unknown(kind: Seq<char>) -> Seq<char> {
    "unknown kind `"@ + kind + "`"@
}

/// Message: a field index past the class's fields.
pub open spec fn msg_index() -> Seq<char> {
    "field index out of range"@
}

/// Every field's end fits in a `usize`.
pub open spec fn ends_fit(fields: Seq<FieldDef>, ptr: nat) -> bool {
    forall|i: int| 0 <= i < fields.len() ==> field_end(#[trigger] fields[i], ptr) <= usize::MAX
}

/// The first free byte after a class layout: the furthest end of a field,
/// 0 for none.
pub fn end_offset(t: &TypeDef, ptr: usize) -> (r: usize)
    requires
        ends_fit(t.fields@, ptr as nat),
    ensures
        r == max_end(t.fields@, ptr as nat, t.fields@.len() as int),
{
    let mut best: usize = 0;
    let mut i: usize = 0;
    while i < t.fields.len()
        invariant
            i <= t.fields@.len(),
            ends_fit(t.fields@, ptr as nat),
            best == max_end(t.fields@, ptr as nat, i as int),
        decreases t.fields.len() - i,
    {
        let f = &t.fields[i];
        assert(field_end(t.fields@[i as int], ptr as nat) <= usize::MAX);
        let e = f.offset + f.kind.size_with_ptr(ptr);
        if e > best {
            best = e;
        }
        i = i + 1;
    }
    best
}

fn copy_opt(s: &Option<String>) -> (r: Option<String>)
    ensures
        r == *s,
{
    match s {
        Some(t) => Some(t.clone()),
        None => None,
    }
}

/// A class layout as the edits see it: its name and its fields.
pub struct ClassLayout {
    /// The class name.
    pub name: Seq<char>,
    /// The fields, in declaration order.
    pub fields: Seq<FieldDef>,
}

/// The layout of a class definition.
pub open spec fn layout_of(t: TypeDef) -> ClassLayout {
    ClassLayout { name: t.name@, fields: t.fields@ }
}

/// The layouts of a class list.
pub open spec fn layouts(v: Seq<TypeDef>) -> Seq<ClassLayout> {
    v.map_values(|t: TypeDef| layout_of(t))
}

/// A copy of a class definition.
pub fn copy_type(t: &TypeDef) -> (r: TypeDef)
    ensures
        layout_of(r) == layout_of(*t),
{
    let mut fields: Vec<FieldDef> = Vec::new();
    let mut i: usize = 0;
    while i < t.fields.len()
        invariant
            i <= t.fields@.len(),
            fields@ == t.fields@.take(i as int),
        decreases t.fields.len() - i,
    {
        let f = &t.fields[i];
        fields.push(FieldDef { name: f.name.clone(), offset: f.offset, kind: f.kind, metadata: copy_opt(&f.metadata) });
        i = i + 1;
        assert(fields@ =~= t.fields@.take(i as int));
    }
    assert(t.fields@.take(t.fields@.len() as int) =~= t.fields@);
    TypeDef { name: t.name.clone(), fields }
}

/// A copy of a class list.
pub fn copy_types(v: &Vec<TypeDef>) -> (r: Vec<TypeDef>)
    ensures
        layouts(r@) == layouts(v@),
{
    let mut out: Vec<TypeDef> = Vec::new();
    let mut i: usize = 0;
    while i < v.len()
        invariant
            i <= v@.len(),
            out@.len() == i,
            forall|k: int| 0 <= k < i ==> layout_of(#[trigger] out@[k]) == layout_of(v@[k]),
        decreases v.len() - i,
    {
        out.push(copy_type(&v[i]));
        i = i + 1;
    }
    assert(layouts(out@) =~= layouts(v@));
    out
}

fn msg_with(prefix: &str, name: &str, suffix: &str) -> (r: String)
    ensures
        r@ == prefix@ + name@ + suffix@,
{
    let mut m = String::from_str(prefix);
    m.append(name);
    m.append(suffix);
    m
}

/// The first index from `i` on of a layout named `name`.
pub open spec fn layout_pos(ls: Seq<ClassLayout>, name: Seq<char>, i: int) -> Option<int>
    decreases ls.len() - i,
{
    if i < 0 || i >= ls.len() {
        None
    } else if ls[i].name == name {
        Some(i)
    } else {
        layout_pos(ls, name, i + 1)
    }
}

proof fn lemma_layout_pos(v: Seq<TypeDef>, name: Seq<char>, i: int)
    requires
        0 <= i,
    ensures
        class_pos(v, name, i) == layout_pos(layouts(v), name, i),
        layout_pos(layouts(v), name, i) matches Some(j) ==> i <= j < v.len() && layouts(v)[j].name == name,
    decreases v.len() - i,
{
    lemma_class_pos_bounds(v, name, i);
    if i < v.len() {
        lemma_layout_pos(v, name, i + 1);
    }
}

/// Field `b` is field `a` after the class `from` was renamed `to`: a
/// pointer to `from` now points to `to`.
pub open spec fn renamed_field(a: FieldDef, b: FieldDef, from: Seq<char>, to: Seq<char>) -> bool {
    &&& b.name == a.name
    &&& b.offset == a.offset
    &&& b.kind == a.kind
    &&& if a.metadata matches Some(m) && m@ == from {
        b.metadata matches Some(n) && n@ == to
    } else {
        b.metadata == a.metadata
    }
}

/// Layout `b` is layout `a` after the class `from` was renamed `to`.
pub open spec fn renamed_layout(a: ClassLayout, b: ClassLayout, from: Seq<char>, to: Seq<char>) -> bool {
    &&& b.name == (if a.name == from { to } else { a.name })
    &&& b.fields.len() == a.fields.len()
    &&& forall|j: int| 0 <= j < a.fields.len() ==> renamed_field(#[trigger] a.fields[j], b.fields[j], from, to)
}

/// Layout list `b` is `a` after the class `from` was renamed `to`.
pub open spec fn renamed_all(a: Seq<ClassLayout>, b: Seq<ClassLayout>, from: Seq<char>, to: Seq<char>) -> bool {
    &&& b.len() == a.len()
    &&& forall|i: int| 0 <= i < a.len() ==> renamed_layout(#[trigger] a[i], b[i], from, to)
}

/// The layout list with the fields of class `i` replaced.
pub open spec fn with_fields(ls: Seq<ClassLayout>, i: int, fields: Seq<FieldDef>) -> Seq<ClassLayout> {
    ls.update(i, ClassLayout { name: ls[i].name, fields })
}

fn rename_in(t: &mut TypeDef, from: &str, to: &String)
    ensures
        renamed_layout(layout_of(*old(t)), layout_of(*final(t)), from@, to@),
{
    if str_eq(t.name.as_str(), from) {
        t.name = to.clone();
    }
    let ghost before = t.fields@;
    let mut j: usize = 0;
    while j < t.fields.len()
        invariant
            j <= t.fields@.len(),
            t.fields@.len() == before.len(),
            before == old(t).fields@,
            t.name@ == (if old(t).name@ == from@ { to@ } else { old(t).name@ }),
            forall|k: int| 0 <= k < j ==> renamed_field(#[trigger] before[k], t.fields@[k], from@, to@),
            forall|k: int| j <= k < before.len() ==> before[k] == #[trigger] t.fields@[k],
        decreases t.fields.len() - j,
    {
        let hit = match &t.fields[j].metadata {
            Some(m) => str_eq(m.as_str(), from),
            None => false,
        };
        if hit {
            let f = &mut t.fields[j];
            f.metadata = Some(to.clone());
        }
        j = j + 1;
    }
}

/// The field an input gives when its kind string names a kind.
pub open spec fn input_field(d: FieldInputDto) -> FieldDef {
    FieldDef { name: d.name, offset: d.offset, kind: parse_kind(d.kind@)->Some_0, metadata: d.metadata }
}

/// Whether each of the first `n` inputs has a kind string that names a
/// kind.
pub open spec fn kinds_known(s: Seq<FieldInputDto>, n: int) -> bool {
    forall|j: int| 0 <= j < n ==> parse_kind(#[trigger] s[j].kind@) is Some
}

/// `fs` with `new` inserted before position `at`, or at the end when `at`
/// is past it.
pub open spec fn spliced(fs: Seq<FieldDef>, at: int, new: Seq<FieldDef>) -> Seq<FieldDef> {
    let a = if at < fs.len() { at } else { fs.len() as int };
    fs.take(a) + new + fs.skip(a)
}

fn retype(f: &mut FieldDef, kind: FieldKind, metadata: Option<String>)
    ensures
        *final(f) == (FieldDef { name: old(f).name, offset: old(f).offset, kind, metadata }),
{
    f.kind = kind;
    f.metadata = metadata;
}

/// The class list of a session with its undo/redo history and whether it
/// has unsaved changes.
pub struct ClassModel {
    classes: Vec<TypeDef>,
    history: History<Vec<TypeDef>>,
    dirty: bool,
}

impl ClassModel {
    /// The class layouts.
    pub closed spec fn classes_view(&self) -> Seq<ClassLayout> {
        layouts(self.classes@)
    }

    /// The earlier class lists an undo steps back through, oldest first.
    pub closed spec fn undo_view(&self) -> Seq<Seq<ClassLayout>> {
        self.history.undo_view().map_values(|v: Vec<TypeDef>| layouts(v@))
    }

    /// The later class lists a redo steps forward through, the next last.
    pub closed spec fn redo_view(&self) -> Seq<Seq<ClassLayout>> {
        self.history.redo_view().map_values(|v: Vec<TypeDef>| layouts(v@))
    }

    /// Whether there are unsaved changes.
    pub closed spec fn dirty_view(&self) -> bool {
        self.dirty
    }

    /// The two stacks together keep at most `UNDO_LIMIT` states.
    pub open spec fn wf(&self) -> bool {
        self.undo_view().len() + self.redo_view().len() <= UNDO_LIMIT
    }

    /// The undo stack after recording `cur`: the oldest state is dropped
    /// beyond `UNDO_LIMIT`.
    pub open spec fn pushed(undo: Seq<Seq<ClassLayout>>, cur: Seq<ClassLayout>) -> Seq<Seq<ClassLayout>> {
        if undo.len() + 1 > UNDO_LIMIT {
            undo.push(cur).drop_first()
        } else {
            undo.push(cur)
        }
    }

    /// `after` is `before` with its classes recorded for undo ahead of an
    /// edit: one more undo state, no redo state, unsaved changes.
    pub open spec fn recorded(before: ClassModel, after: ClassModel) -> bool {
        &&& after.wf()
        &&& after.dirty_view()
        &&& after.undo_view() == Self::pushed(before.undo_view(), before.classes_view())
        &&& after.redo_view() == Seq::<Seq<ClassLayout>>::empty()
    }

    /// Nothing observable differs between `before` and `after`.
    pub open spec fn unchanged(before: ClassModel, after: ClassModel) -> bool {
        &&& after.classes_view() == before.classes_view()
        &&& after.undo_view() == before.undo_view()
        &&& after.redo_view() == before.redo_view()
        &&& after.dirty_view() == before.dirty_view()
    }

    /// A model holding `classes`, with no history and nothing unsaved.
    pub fn new(classes: Vec<TypeDef>) -> (m: Self)
        ensures
            m.wf(),
            m.classes_view() == layouts(classes@),
            m.undo_view() == Seq::<Seq<ClassLayout>>::empty(),
            m.redo_view() == Seq::<Seq<ClassLayout>>::empty(),
            !m.dirty_view(),
    {
        let m = ClassModel { classes, history: History::new(), dirty: false };
        assert(m.undo_view() =~= Seq::<Seq<ClassLayout>>::empty());
        assert(m.redo_view() =~= Seq::<Seq<ClassLayout>>::empty());
        m
    }

    /// The class definitions.
    pub fn classes(&self) -> (r: &Vec<TypeDef>)
        ensures
            layouts(r@) == self.classes_view(),
    {
        &self.classes
    }

    /// Whether there are unsaved changes.
    pub fn is_dirty(&self) -> (r: bool)
        ensures
            r == self.dirty_view(),
    {
        self.dirty
    }

    /// A summary of every class, pointer fields sized with `ptr`.
    pub fn list_classes(&self, ptr: usize) -> (r: Vec<ClassSummaryDto>)
        requires
            forall|i: int| 0 <= i < self.classes_view().len() ==> ends_fit(#[trigger] self.classes_view()[i].fields, ptr as nat),
        ensures
            r@.len() == self.classes_view().len(),
            forall|i: int|
                0 <= i < r@.len() ==> {
                    let c = #[trigger] self.classes_view()[i];
                    &&& r@[i].name@ == c.name
                    &&& r@[i].field_count == c.fields.len()
                    &&& r@[i].size == max_end(c.fields, ptr as nat, c.fields.len() as int)
                },
    {
        let mut out: Vec<ClassSummaryDto> = Vec::new();
        let mut i: usize = 0;
        while i < self.classes.len()
            invariant
                i <= self.classes@.len(),
                out@.len() == i,
                forall|k: int| 0 <= k < self.classes_view().len() ==> ends_fit(#[trigger] self.classes_view()[k].fields, ptr as nat),
                forall|k: int|
                    0 <= k < i ==> {
                        let c = #[trigger] self.classes_view()[k];
                        &&& out@[k].name@ == c.name
                        &&& out@[k].field_count == c.fields.len()
                        &&& out@[k].size == max_end(c.fields, ptr as nat, c.fields.len() as int)
                    },
            decreases self.classes.len() - i,
        {
            assert(ends_fit(self.classes_view()[i as int].fields, ptr as nat));
            out.push(ClassSummaryDto::of(&self.classes[i], ptr));
            i = i + 1;
        }
        out
    }

    /// A copy of the first class named `name`.
    pub fn get_class(&self, name: &str) -> (r: Result<TypeDef, String>)
        ensures
            match layout_pos(self.classes_view(), name@, 0) {
                None => r matches Err(m) && m@ == msg_no_class(name@),
                Some(i) => r matches Ok(t) && layout_of(t) == self.classes_view()[i],
            },
    {
        match self.class_index(name) {
            None => Err(msg_with("no class named `", name, "`")),
            Some(i) => Ok(copy_type(&self.classes[i])),
        }
    }

    /// Records that the classes were saved.
    pub fn mark_saved(&mut self)
        ensures
            !final(self).dirty_view(),
            final(self).classes_view() == old(self).classes_view(),
            final(self).undo_view() == old(self).undo_view(),
            final(self).redo_view() == old(self).redo_view(),
    {
        self.dirty = false;
    }

    /// The index of the first class named `name`.
    pub fn class_index(&self, name: &str) -> (r: Option<usize>)
        ensures
            match r {
                Some(i) => layout_pos(self.classes_view(), name@, 0) == Some(i as int),
                None => layout_pos(self.classes_view(), name@, 0) is None,
            },
            r matches Some(i) ==> i < self.classes_view().len() && self.classes_view()[i as int].name == name@,
    {
        proof {
            lemma_layout_pos(self.classes@, name@, 0);
        }
        class_position(self.classes.as_slice(), name)
    }

    /// Records the current classes for undo before an edit.
    fn snapshot(&mut self)
        requires
            old(self).wf(),
        ensures
            Self::recorded(*old(self), *final(self)),
            final(self).classes == old(self).classes,
    {
        let copy = copy_types(&self.classes);
        let ghost before = self.history.undo_view();
        self.history.snapshot(copy);
        self.dirty = true;
        proof {
            let f = |v: Vec<TypeDef>| layouts(v@);
            if before.len() + 1 > UNDO_LIMIT {
                assert(before.push(copy).drop_first().map_values(f) =~= before.map_values(f).push(layouts(copy@)).drop_first());
            } else {
                assert(before.push(copy).map_values(f) =~= before.map_values(f).push(layouts(copy@)));
            }
            assert(self.history.redo_view().map_values(f) =~= Seq::<Seq<ClassLayout>>::empty());
        }
    }

    /// `after` is `before` stepped back one undo state.
    pub open spec fn undone(before: ClassModel, after: ClassModel) -> bool {
        &&& after.classes_view() == before.undo_view().last()
        &&& after.undo_view() == before.undo_view().drop_last()
        &&& after.redo_view() == before.redo_view().push(before.classes_view())
        &&& after.dirty_view()
    }

    /// `after` is `before` stepped forward one redo state.
    pub open spec fn redone(before: ClassModel, after: ClassModel) -> bool {
        &&& after.classes_view() == before.redo_view().last()
        &&& after.redo_view() == before.redo_view().drop_last()
        &&& after.undo_view() == before.undo_view().push(before.classes_view())
        &&& after.dirty_view()
    }

    /// Steps back to the last recorded classes; `false`, with nothing
    /// changed, when there is nothing to undo.
    pub fn undo(&mut self) -> (r: bool)
        requires
            old(self).wf(),
        ensures
            final(self).wf(),
            r == (old(self).undo_view().len() > 0),
            r ==> Self::undone(*old(self), *final(self)),
            !r ==> Self::unchanged(*old(self), *final(self)),
    {
        let ghost u = self.history.undo_view();
        let ghost rd = self.history.redo_view();
        let ghost c = self.classes;
        let r = self.history.undo(&mut self.classes);
        if r {
            self.dirty = true;
            proof {
                let f = |v: Vec<TypeDef>| layouts(v@);
                assert(u.drop_last().map_values(f) =~= u.map_values(f).drop_last());
                assert(rd.push(c).map_values(f) =~= rd.map_values(f).push(layouts(c@)));
            }
        }
        r
    }

    /// Steps forward to the last undone classes; `false`, with nothing
    /// changed, when there is nothing to redo.
    pub fn redo(&mut self) -> (r: bool)
        requires
            old(self).wf(),
        ensures
            final(self).wf(),
            r == (old(self).redo_view().len() > 0),
            r ==> Self::redone(*old(self), *final(self)),
            !r ==> Self::unchanged(*old(self), *final(self)),
    {
        let ghost u = self.history.undo_view();
        let ghost rd = self.history.redo_view();
        let ghost c = self.classes;
        let r = self.history.redo(&mut self.classes);
        if r {
            self.dirty = true;
            proof {
                let f = |v: Vec<TypeDef>| layouts(v@);
                assert(rd.drop_last().map_values(f) =~= rd.map_values(f).drop_last());
                assert(u.push(c).map_values(f) =~= u.map_values(f).push(layouts(c@)));
            }
        }
        r
    }

    /// Creates an empty class named `name` with surrounding whitespace
    /// trimmed. Fails, changing nothing, on an empty name or one a class
    /// already has.
    pub fn add_class(&mut self, name: &str) -> (r: Result<(), String>)
        requires
            old(self).wf(),
        ensures
            final(self).wf(),
            ({
                let n = trim_spec(name@);
                if n.len() == 0 {
                    r matches Err(m) && m@ == msg_empty_name() && Self::unchanged(*old(self), *final(self))
                } else if layout_pos(old(self).classes_view(), n, 0) is Some {
                    r matches Err(m) && m@ == msg_exists(n) && Self::unchanged(*old(self), *final(self))
                } else {
                    &&& r is Ok
                    &&& Self::recorded(*old(self), *final(self))
                    &&& final(self).classes_view() == old(self).classes_view().push(
                        ClassLayout { name: n, fields: Seq::empty() },
                    )
                }
            }),
    {
        let chars = str_chars(name);
        let t = trim_chars(chars.as_slice());
        let n = string_of(t.as_slice());
        if t.len() == 0 {
            return Err(String::from_str("class name cannot be empty"));
        }
        if self.class_index(n.as_str()).is_some() {
            return Err(msg_with("a class named `", n.as_str(), "` already exists"));
        }
        self.snapshot();
        let ghost before = self.classes@;
        let fields: Vec<FieldDef> = Vec::new();
        self.classes.push(TypeDef { name: n, fields });
        assert(layouts(self.classes@) =~= layouts(before).push(ClassLayout { name: trim_spec(name@), fields: Seq::empty() }));
        Ok(())
    }

    /// Renames the class `old_name` to `new_name` with surrounding
    /// whitespace trimmed, and points every pointer field that targeted it
    /// at the new name. Fails, changing nothing, on an empty new name, an
    /// unknown class, or a new name that another class already has.
    pub fn rename_class(&mut self, old_name: &str, new_name: &str) -> (r: Result<(), String>)
        requires
            old(self).wf(),
        ensures
            final(self).wf(),
            ({
                let n = trim_spec(new_name@);
                let cv = old(self).classes_view();
                if n.len() == 0 {
                    r matches Err(m) && m@ == msg_empty_name() && Self::unchanged(*old(self), *final(self))
                } else if layout_pos(cv, old_name@, 0) is None {
                    r matches Err(m) && m@ == msg_no_class(old_name@) && Self::unchanged(*old(self), *final(self))
                } else if old_name@ != n && layout_pos(cv, n, 0) is Some {
                    r matches Err(m) && m@ == msg_exists(n) && Self::unchanged(*old(self), *final(self))
                } else {
                    &&& r is Ok
                    &&& Self::recorded(*old(self), *final(self))
                    &&& renamed_all(cv, final(self).classes_view(), old_name@, n)
                }
            }),
    {
        let chars = str_chars(new_name);
        let t = trim_chars(chars.as_slice());
        let n = string_of(t.as_slice());
        if t.len() == 0 {
            return Err(String::from_str("class name cannot be empty"));
        }
        if self.class_index(old_name).is_none() {
            return Err(msg_with("no class named `", old_name, "`"));
        }
        if !str_eq(old_name, n.as_str()) && self.class_index(n.as_str()).is_some() {
            return Err(msg_with("a class named `", n.as_str(), "` already exists"));
        }
        self.snapshot();
        let ghost before = layouts(self.classes@);
        let mut i: usize = 0;
        while i < self.classes.len()
            invariant
                i <= self.classes@.len(),
                layouts(self.classes@).len() == before.len(),
                forall|k: int| 0 <= k < i ==> renamed_layout(#[trigger] before[k], layouts(self.classes@)[k], old_name@, n@),
                forall|k: int| i <= k < before.len() ==> before[k] == #[trigger] layouts(self.classes@)[k],
                Self::recorded(*old(self), *self),
                before == old(self).classes_view(),
                n@ == trim_spec(new_name@),
            decreases self.classes.len() - i,
        {
            let ghost prev = self.classes@;
            rename_in(&mut self.classes[i], old_name, &n);
            proof {
                assert(layouts(self.classes@)[i as int] == layout_of(self.classes@[i as int]));
                assert(layouts(prev)[i as int] == layout_of(prev[i as int]));
                assert forall|k: int| 0 <= k < self.classes@.len() && k != i implies layouts(self.classes@)[k] == layouts(prev)[k] by {
                    assert(self.classes@[k] == prev[k]);
                }
                assert forall|k: int| i < k < before.len() implies before[k] == #[trigger] layouts(self.classes@)[k] by {
                    assert(layouts(prev)[k] == before[k]);
                    assert(self.classes@[k] == prev[k]);
                }
            }
            i = i + 1;
        }
        Ok(())
    }

    /// Deletes the first class named `name`; fails, changing nothing, when
    /// there is none.
    pub fn delete_class(&mut self, name: &str) -> (r: Result<(), String>)
        requires
            old(self).wf(),
        ensures
            final(self).wf(),
            match layout_pos(old(self).classes_view(), name@, 0) {
                None => r matches Err(m) && m@ == msg_no_class(name@) && Self::unchanged(*old(self), *final(self)),
                Some(i) => {
                    &&& r is Ok
                    &&& Self::recorded(*old(self), *final(self))
                    &&& final(self).classes_view() == old(self).classes_view().remove(i)
                },
            },
    {
        match self.class_index(name) {
            None => Err(msg_with("no class named `", name, "`")),
            Some(i) => {
                self.snapshot();
                let ghost before = self.classes@;
                self.classes.remove(i);
                assert(layouts(self.classes@) =~= layouts(before).remove(i as int));
                Ok(())
            },
        }
    }

    /// Records the classes for undo, then finds field `index` of class
    /// `class`.
    fn field_slot(&mut self, class: &str, index: usize) -> (r: Result<usize, String>)
        requires
            old(self).wf(),
        ensures
            Self::recorded(*old(self), *final(self)),
            final(self).classes == old(self).classes,
            Self::slot_result(old(self).classes_view(), class@, index, r),
            r matches Ok(i) ==> i < final(self).classes@.len() && index < final(self).classes@[i as int].fields@.len(),
    {
        proof {
            lemma_layout_pos(old(self).classes@, class@, 0);
        }
        self.snapshot();
        match self.class_index(class) {
            None => Err(msg_with("no class named `", class, "`")),
            Some(i) => {
                if index >= self.classes[i].fields.len() {
                    Err(String::from_str("field index out of range"))
                } else {
                    Ok(i)
                }
            },
        }
    }

    /// What looking up field `index` of class `class` gives: the class's
    /// position, or the error for an unknown class or an index past its
    /// fields.
    pub open spec fn slot_result(cv: Seq<ClassLayout>, class: Seq<char>, index: usize, r: Result<usize, String>) -> bool {
        match layout_pos(cv, class, 0) {
            None => r matches Err(m) && m@ == msg_no_class(class),
            Some(i) => if index >= cv[i].fields.len() {
                r matches Err(m) && m@ == msg_index()
            } else {
                r matches Ok(k) && k as int == i
            },
        }
    }

    /// The outcome of a field edit on `old`, with `fields` the class's
    /// fields after it: the classes recorded for undo, then, when the class
    /// and the field exist, the class's fields replaced; else the error and
    /// the classes as they were.
    pub open spec fn field_edit(
        before: ClassModel,
        after: ClassModel,
        class: Seq<char>,
        index: usize,
        r: Result<(), String>,
        fields: spec_fn(Seq<FieldDef>) -> Seq<FieldDef>,
    ) -> bool {
        let cv = before.classes_view();
        &&& Self::recorded(before, after)
        &&& match layout_pos(cv, class, 0) {
            None => r matches Err(m) && m@ == msg_no_class(class) && after.classes_view() == cv,
            Some(i) => if index >= cv[i].fields.len() {
                r matches Err(m) && m@ == msg_index() && after.classes_view() == cv
            } else {
                r is Ok && after.classes_view() == with_fields(cv, i, fields(cv[i].fields))
            },
        }
    }

    /// Appends a field after the furthest byte of class `class`'s layout.
    /// An unknown kind string fails first, changing nothing; otherwise the
    /// classes are recorded for undo, and an unknown class then fails.
    pub fn add_field(&mut self, class: &str, name: String, kind: &str, metadata: Option<String>, ptr: usize) -> (r: Result<(), String>)
        requires
            old(self).wf(),
            layout_pos(old(self).classes_view(), class@, 0) matches Some(i) ==> ends_fit(
                old(self).classes_view()[i].fields,
                ptr as nat,
            ),
        ensures
            final(self).wf(),
            ({
                let cv = old(self).classes_view();
                match parse_kind(kind@) {
                    None => r matches Err(m) && m@ == msg_unknown(kind@) && Self::unchanged(*old(self), *final(self)),
                    Some(k) => {
                        &&& Self::recorded(*old(self), *final(self))
                        &&& match layout_pos(cv, class@, 0) {
                            None => r matches Err(m) && m@ == msg_no_class(class@) && final(self).classes_view() == cv,
                            Some(i) => {
                                &&& r is Ok
                                &&& final(self).classes_view() == with_fields(
                                    cv,
                                    i,
                                    cv[i].fields.push(
                                        FieldDef {
                                            name,
                                            offset: max_end(cv[i].fields, ptr as nat, cv[i].fields.len() as int) as usize,
                                            kind: k,
                                            metadata,
                                        },
                                    ),
                                )
                            },
                        }
                    },
                }
            }),
    {
        let k = match FieldKind::from_kind_string(kind) {
            Some(k) => k,
            None => {
                return Err(msg_with("unknown kind `", kind, "`"));
            },
        };
        self.snapshot();
        match self.class_index(class) {
            None => Err(msg_with("no class named `", class, "`")),
            Some(i) => {
                proof {
                    lemma_layout_pos(old(self).classes@, class@, 0);
                }
                let offset = end_offset(&self.classes[i], ptr);
                let ghost before = self.classes@;
                let ghost f = FieldDef { name, offset, kind: k, metadata };
                self.classes[i].fields.push(FieldDef { name, offset, kind: k, metadata });
                proof {
                    assert(layouts(self.classes@) =~= with_fields(layouts(before), i as int, before[i as int].fields@.push(f)));
                }
                Ok(())
            },
        }
    }

    /// Renames field `index` of class `class`, after recording the classes
    /// for undo.
    pub fn set_field_name(&mut self, class: &str, index: usize, name: String) -> (r: Result<(), String>)
        requires
            old(self).wf(),
        ensures
            final(self).wf(),
            Self::field_edit(
                *old(self),
                *final(self),
                class@,
                index,
                r,
                |fs: Seq<FieldDef>|
                    fs.update(
                        index as int,
                        FieldDef { name, offset: fs[index as int].offset, kind: fs[index as int].kind, metadata: fs[index as int].metadata },
                    ),
            ),
    {
        let i = match self.field_slot(class, index) {
            Ok(i) => i,
            Err(m) => return Err(m),
        };
        let ghost before = self.classes@;
        let ghost g = before[i as int].fields@[index as int];
        let ghost nf = FieldDef { name, offset: g.offset, kind: g.kind, metadata: g.metadata };
        self.classes[i].fields[index].name = name;
        proof {
            assert(layouts(self.classes@) =~= with_fields(layouts(before), i as int, before[i as int].fields@.update(index as int, nf)));
        }
        Ok(())
    }

    /// Changes the kind and target metadata of field `index` of class
    /// `class`. An unknown kind string fails first, changing nothing;
    /// otherwise the classes are recorded for undo first.
    pub fn set_field_kind(&mut self, class: &str, index: usize, kind: &str, metadata: Option<String>) -> (r: Result<(), String>)
        requires
            old(self).wf(),
        ensures
            final(self).wf(),
            match parse_kind(kind@) {
                None => r matches Err(m) && m@ == msg_unknown(kind@) && Self::unchanged(*old(self), *final(self)),
                Some(k) => Self::field_edit(
                    *old(self),
                    *final(self),
                    class@,
                    index,
                    r,
                    |fs: Seq<FieldDef>|
                        fs.update(
                            index as int,
                            FieldDef { name: fs[index as int].name, offset: fs[index as int].offset, kind: k, metadata },
                        ),
                ),
            },
    {
        let k = match FieldKind::from_kind_string(kind) {
            Some(k) => k,
            None => {
                return Err(msg_with("unknown kind `", kind, "`"));
            },
        };
        let i = match self.field_slot(class, index) {
            Ok(i) => i,
            Err(m) => return Err(m),
        };
        let ghost before = self.classes@;
        let ghost g = before[i as int].fields@[index as int];
        let ghost nf = FieldDef { name: g.name, offset: g.offset, kind: k, metadata };
        retype(&mut self.classes[i].fields[index], k, metadata);
        proof {
            assert(layouts(self.classes@) =~= with_fields(layouts(before), i as int, before[i as int].fields@.update(index as int, nf)));
        }
        Ok(())
    }

    /// Sets the offset of field `index` of class `class`, after recording
    /// the classes for undo.
    pub fn set_field_offset(&mut self, class: &str, index: usize, offset: usize) -> (r: Result<(), String>)
        requires
            old(self).wf(),
        ensures
            final(self).wf(),
            Self::field_edit(
                *old(self),
                *final(self),
                class@,
                index,
                r,
                |fs: Seq<FieldDef>|
                    fs.update(
                        index as int,
                        FieldDef { name: fs[index as int].name, offset, kind: fs[index as int].kind, metadata: fs[index as int].metadata },
                    ),
            ),
    {
        let i = match self.field_slot(class, index) {
            Ok(i) => i,
            Err(m) => return Err(m),
        };
        let ghost before = self.classes@;
        let ghost g = before[i as int].fields@[index as int];
        let ghost nf = FieldDef { name: g.name, offset, kind: g.kind, metadata: g.metadata };
        self.classes[i].fields[index].offset = offset;
        proof {
            assert(layouts(self.classes@) =~= with_fields(layouts(before), i as int, before[i as int].fields@.update(index as int, nf)));
        }
        Ok(())
    }

    /// Deletes field `index` of class `class`, after recording the classes
    /// for undo.
    pub fn delete_field(&mut self, class: &str, index: usize) -> (r: Result<(), String>)
        requires
            old(self).wf(),
        ensures
            final(self).wf(),
            Self::field_edit(*old(self), *final(self), class@, index, r, |fs: Seq<FieldDef>| fs.remove(index as int)),
    {
        let i = match self.field_slot(class, index) {
            Ok(i) => i,
            Err(m) => return Err(m),
        };
        let ghost before = self.classes@;
        self.classes[i].fields.remove(index);
        proof {
            assert(layouts(self.classes@) =~= with_fields(layouts(before), i as int, before[i as int].fields@.remove(index as int)));
        }
        Ok(())
    }

    /// Inserts a batch of fields into class `class` before field
    /// `at_index` (at the end when past it). An input whose kind string
    /// names no kind fails first, with the error of the first such, changing
    /// nothing; otherwise the classes are recorded for undo, and an unknown
    /// class then fails.
    pub fn insert_fields(&mut self, class: &str, at_index: usize, fields: Vec<FieldInputDto>) -> (r: Result<(), String>)
        requires
            old(self).wf(),
        ensures
            final(self).wf(),
            ({
                let cv = old(self).classes_view();
                if kinds_known(fields@, fields@.len() as int) {
                    &&& Self::recorded(*old(self), *final(self))
                    &&& match layout_pos(cv, class@, 0) {
                        None => r matches Err(m) && m@ == msg_no_class(class@) && final(self).classes_view() == cv,
                        Some(i) => {
                            &&& r is Ok
                            &&& final(self).classes_view() == with_fields(
                                cv,
                                i,
                                spliced(cv[i].fields, at_index as int, fields@.map_values(|d: FieldInputDto| input_field(d))),
                            )
                        },
                    }
                } else {
                    &&& Self::unchanged(*old(self), *final(self))
                    &&& r matches Err(m) && exists|j: int|
                        0 <= j < fields@.len() && kinds_known(fields@, j) && parse_kind(#[trigger] fields@[j].kind@) is None
                            && m@ == msg_unknown_kind(fields@[j].kind@)
                }
            }),
    {
        let ghost all = fields@;
        let total = fields.len();
        let mut rest = fields;
        let mut parsed: Vec<FieldDef> = Vec::new();
        let mut j: usize = 0;
        while rest.len() > 0
            invariant
                j <= all.len(),
                rest@ == all.skip(j as int),
                rest@.len() == all.len() - j,
                all.len() == total,
                all == fields@,
                parsed@ == all.take(j as int).map_values(|d: FieldInputDto| input_field(d)),
                kinds_known(all, j as int),
                *self == *old(self),
                old(self).wf(),
            decreases rest.len(),
        {
            let d = rest.remove(0);
            assert(d == all[j as int]);
            match d.into_field() {
                Ok(f) => {
                    parsed.push(f);
                },
                Err(m) => {
                    assert(parse_kind(all[j as int].kind@) is None);
                    return Err(m);
                },
            }
            j = j + 1;
            assert(rest@ =~= all.skip(j as int));
            assert(parsed@ =~= all.take(j as int).map_values(|d: FieldInputDto| input_field(d)));
        }
        assert(all.take(all.len() as int) =~= all);
        self.snapshot();
        match self.class_index(class) {
            None => Err(msg_with("no class named `", class, "`")),
            Some(i) => {
                proof {
                    lemma_layout_pos(old(self).classes@, class@, 0);
                }
                let ghost before = self.classes@;
                let n = self.classes[i].fields.len();
                let at = if at_index < n { at_index } else { n };
                let mut head: Vec<FieldDef> = Vec::new();
                std::mem::swap(&mut self.classes[i].fields, &mut head);
                let mut tail = head.split_off(at);
                head.append(&mut parsed);
                head.append(&mut tail);
                std::mem::swap(&mut self.classes[i].fields, &mut head);
                proof {
                    let fs = before[i as int].fields@;
                    assert(fs.subrange(0, at as int) =~= fs.take(at as int));
                    assert(fs.subrange(at as int, fs.len() as int) =~= fs.skip(at as int));
                    assert(layouts(self.classes@) =~= with_fields(
                        layouts(before),
                        i as int,
                        spliced(fs, at_index as int, all.map_values(|d: FieldInputDto| input_field(d))),
                    ));
                }
                Ok(())
            },
        }
    }
}

/// Undoing right after an edit (or a failed edit that recorded the classes)
/// gives back the classes from before it, and, while the undo stack was
/// short of its limit, the undo stack too.
pub proof fn lemma_undo_reverts_edit(before: ClassModel, edited: ClassModel, undone: ClassModel)
    requires
        ClassModel::recorded(before, edited),
        ClassModel::undone(edited, undone),
    ensures
        undone.classes_view() == before.classes_view(),
        before.undo_view().len() < UNDO_LIMIT ==> undone.undo_view() == before.undo_view(),
        undone.redo_view() == seq![edited.classes_view()],
{
    if before.undo_view().len() + 1 <= UNDO_LIMIT {
        assert(before.undo_view().push(before.classes_view()).drop_last() =~= before.undo_view());
    }
    assert(Seq::<Seq<ClassLayout>>::empty().push(edited.classes_view()) =~= seq![edited.classes_view()]);
}

/// Redoing right after an undo gives back the model as it was before the
/// undo: its classes and both stacks.
pub proof fn lemma_redo_reverts_undo(before: ClassModel, undone: ClassModel, redone: ClassModel)
    requires
        before.undo_view().len() > 0,
        ClassModel::undone(before, undone),
        ClassModel::redone(undone, redone),
    ensures
        redone.classes_view() == before.classes_view(),
        redone.undo_view() == before.undo_view(),
        redone.redo_view() == before.redo_view(),
{
    assert(before.redo_view().push(before.classes_view()).drop_last() =~= before.redo_view());
    assert(before.undo_view().drop_last().push(before.undo_view().last()) =~= before.undo_view());
}

/// After an edit that recorded the classes, an undo brings back the
/// classes from before the edit and leaves the model unsaved, and a redo
/// right after it brings back the edited classes, again unsaved. (With no
/// recorded state, `undo` returns `false` and changes nothing: see its
/// contract.)
pub proof fn lemma_edit_undo_redo(before: ClassModel, edited: ClassModel, undone: ClassModel, redone: ClassModel)
    requires
        ClassModel::recorded(before, edited),
        ClassModel::undone(edited, undone),
        ClassModel::redone(undone, redone),
    ensures
        edited.undo_view().len() > 0,
        undone.classes_view() == before.classes_view(),
        undone.dirty_view(),
        undone.redo_view().len() > 0,
        redone.classes_view() == edited.classes_view(),
        redone.dirty_view(),
{
    lemma_undo_reverts_edit(before, edited, undone);
    assert(undone.redo_view().last() == edited.classes_view());
}

} // verus!
