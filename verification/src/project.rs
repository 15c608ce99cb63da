//! The folder-based project model: the manifest, and the on-disk class
//! representation (one TOML file per class) with its conversions to and from
//! the schema.

use vstd::prelude::*;
use vstd::string::*;
use crate::error::SdkError;
use crate::schema::{FieldDef, Project, TypeDef};
use crate::text::{push_char, str_chars};
use crate::types::{kind_string, lemma_kind_string_roundtrip, parse_kind, FieldKind};

verus! {

/// The manifest file name inside a project folder.
pub const MANIFEST_FILE: &'static str = "project.nemproj";

/// The subfolder holding one TOML file per class.
pub const CLASSES_DIR: &'static str = "classes";

/// The subfolder holding Lua scripts.
pub const SCRIPTS_DIR: &'static str = "scripts";

/// Optional auto-attach configuration: the process name to attach to and,
/// optionally, a module the chosen process must have loaded.
#[derive(Debug, Clone, PartialEq)]
pub struct AutoAttach {
    /// Process image name to attach to (e.g. `wine64-preloader`).
    pub process_name: String,
    /// Optional module the target process must have loaded (e.g. `test.dll`).
    pub module_name: Option<String>,
}

/// The project manifest.
#[derive(Debug, Clone, PartialEq)]
pub struct Manifest {
    /// Human-readable project name.
    pub name: String,
    /// Optional auto-attach configuration.
    pub auto_attach: Option<AutoAttach>,
}

impl Manifest {
    /// A fresh manifest with the given name and no auto-attach.
    pub fn new(name: &str) -> (m: Self)
        ensures
            m.name@ == name@,
            m.auto_attach is None,
    {
        Manifest { name: String::from_str(name), auto_attach: None }
    }
}

/// One field as stored in a class file: `kind` is the compact string form,
/// `target` a pointer's referenced class name.
#[derive(Debug, Clone)]
pub struct FieldFile {
    /// Field name.
    pub name: String,
    /// Byte offset from the start of the class.
    pub offset: usize,
    /// Field kind (compact string form).
    pub kind: String,
    /// For pointers, the referenced class name.
    pub target: Option<String>,
}

/// A class layout as stored in `classes/<Name>.toml`.
#[derive(Debug, Clone)]
pub struct ClassFile {
    /// Class name.
    pub name: String,
    /// Fields (stored as `[[field]]` tables).
    pub fields: Vec<FieldFile>,
}

/// Whether the stored field `ff` is the schema field `f` written out.
pub open spec fn file_describes(ff: FieldFile, f: FieldDef) -> bool {
    &&& ff.name == f.name
    &&& ff.offset == f.offset
    &&& ff.kind@ == kind_string(f.kind)
    &&& ff.target == f.metadata
}

/// The schema field a stored field reads back as, when its kind parses.
pub open spec fn field_of_file(ff: FieldFile) -> Option<FieldDef> {
    match parse_kind(ff.kind@) {
        Some(kind) => Some(FieldDef { name: ff.name, offset: ff.offset, kind, metadata: ff.target }),
        None => None,
    }
}

/// The message for a stored kind string that names no kind.
pub open spec fn msg_unknown_kind(kind: Seq<char>) -> Seq<char> {
    "unknown field kind `"@ + kind + "`"@
}

fn clone_opt_string(s: &Option<String>) -> (r: Option<String>)
    ensures
        r == *s,
{
    match s {
        Some(t) => Some(t.clone()),
        None => None,
    }
}

impl ClassFile {
    /// Writes a schema type out as its stored form.
    pub fn from_type(t: &TypeDef) -> (c: Self)
        ensures
            c.name == t.name,
            c.fields@.len() == t.fields@.len(),
            forall|i: int| 0 <= i < t.fields@.len() ==> file_describes(#[trigger] c.fields@[i], t.fields@[i]),
    {
        let mut fields: Vec<FieldFile> = Vec::new();
        let mut i: usize = 0;
        while i < t.fields.len()
            invariant
                i <= t.fields@.len(),
                fields@.len() == i,
                forall|j: int| 0 <= j < i ==> file_describes(#[trigger] fields@[j], t.fields@[j]),
            decreases t.fields@.len() - i,
        {
            let f = &t.fields[i];
            fields.push(
                FieldFile {
                    name: f.name.clone(),
                    offset: f.offset,
                    kind: f.kind.to_kind_string(),
                    target: clone_opt_string(&f.metadata),
                },
            );
            i = i + 1;
        }
        ClassFile { name: t.name.clone(), fields }
    }

    /// Reads the stored form back as a schema type; fails on the first field
    /// whose kind string names no kind.
    pub fn into_type(self) -> (r: Result<TypeDef, SdkError>)
        ensures
            match r {
                Ok(t) => {
                    &&& t.name == self.name
                    &&& t.fields@.len() == self.fields@.len()
                    &&& forall|i: int| 0 <= i < self.fields@.len() ==> field_of_file(#[trigger] self.fields@[i]) == Some(t.fields@[i])
                },
                Err(e) => exists|i: int| {
                    &&& 0 <= i < self.fields@.len()
                    &&& field_of_file(#[trigger] self.fields@[i]) is None
                    &&& (forall|j: int| 0 <= j < i ==> field_of_file(#[trigger] self.fields@[j]) is Some)
                    &&& e matches SdkError::Project(m) && m@ == msg_unknown_kind(self.fields@[i].kind@)
                },
            },
    {
        let ClassFile { name, fields: files } = self;
        let mut fields: Vec<FieldDef> = Vec::new();
        let mut i: usize = 0;
        while i < files.len()
            invariant
                i <= files@.len(),
                files@ == self.fields@,
                fields@.len() == i,
                forall|j: int| 0 <= j < i ==> field_of_file(#[trigger] files@[j]) == Some(fields@[j]),
            decreases files@.len() - i,
        {
            let f = &files[i];
            match FieldKind::from_kind_string(f.kind.as_str()) {
                Some(kind) => {
                    fields.push(
                        FieldDef {
                            name: f.name.clone(),
                            offset: f.offset,
                            kind,
                            metadata: clone_opt_string(&f.target),
                        },
                    );
                },
                None => {
                    let mut m = String::from_str("unknown field kind `");
                    m.append(f.kind.as_str());
                    m.append("`");
                    assert(field_of_file(files@[i as int]) is None);
                    return Err(SdkError::Project(m));
                },
            }
            i = i + 1;
        }
        Ok(TypeDef { name, fields })
    }
}

/// Writing a type out and reading it back gives the same type: every stored
/// field's kind string parses, and to the field it was written from.
pub proof fn lemma_class_file_roundtrip(c: ClassFile, t: TypeDef)
    requires
        c.name == t.name,
        c.fields@.len() == t.fields@.len(),
        forall|i: int| 0 <= i < t.fields@.len() ==> file_describes(#[trigger] c.fields@[i], t.fields@[i]),
    ensures
        forall|i: int| 0 <= i < c.fields@.len() ==> field_of_file(#[trigger] c.fields@[i]) == Some(t.fields@[i]),
{
    assert forall|i: int| 0 <= i < c.fields@.len() implies field_of_file(#[trigger] c.fields@[i]) == Some(
        t.fields@[i],
    ) by {
        assert(file_describes(c.fields@[i], t.fields@[i]));
        lemma_kind_string_roundtrip(t.fields@[i].kind);
    }
}


/// The class read from a stored class file is `t`: same name, and each
/// stored field read back as the field at the same place.
pub open spec fn file_gives(c: ClassFile, t: TypeDef) -> bool {
    &&& t.name == c.name
    &&& t.fields@.len() == c.fields@.len()
    &&& forall|i: int| 0 <= i < c.fields@.len() ==> field_of_file(#[trigger] c.fields@[i]) == Some(t.fields@[i])
}

/// Every stored field of `c` names a known kind.
pub open spec fn file_reads(c: ClassFile) -> bool {
    forall|i: int| 0 <= i < c.fields@.len() ==> field_of_file(#[trigger] c.fields@[i]) is Some
}

/// `e` is the error reading `c` reports: the one for its first field whose
/// kind string names no kind.
pub open spec fn file_error(c: ClassFile, e: SdkError) -> bool {
    exists|i: int| {
        &&& 0 <= i < c.fields@.len()
        &&& field_of_file(#[trigger] c.fields@[i]) is None
        &&& (forall|j: int| 0 <= j < i ==> field_of_file(#[trigger] c.fields@[j]) is Some)
        &&& e matches SdkError::Project(m) && m@ == msg_unknown_kind(c.fields@[i].kind@)
    }
}

/// A whole project as loaded from its folder: the folder, the manifest, the
/// class layouts, and the paths of its scripts.
#[derive(Debug, Clone)]
pub struct LoadedProject {
    /// The project directory.
    pub dir: String,
    /// The parsed manifest.
    pub manifest: Manifest,
    /// The class layouts.
    pub classes: Project,
    /// Paths of the scripts, sorted.
    pub scripts: Vec<String>,
}

impl LoadedProject {
    /// Puts a loaded project together from what was read from its folder:
    /// the class files are read back as classes, in order; the first class
    /// file with a field of unknown kind fails the whole load with that
    /// file's error.
    pub fn assemble(dir: String, manifest: Manifest, class_files: Vec<ClassFile>, scripts: Vec<String>) -> (r: Result<
        LoadedProject,
        SdkError,
    >)
        ensures
            r is Ok <==> (forall|k: int| 0 <= k < class_files@.len() ==> file_reads(#[trigger] class_files@[k])),
            r matches Ok(p) ==> {
                &&& p.dir == dir
                &&& p.manifest == manifest
                &&& p.scripts@ == scripts@
                &&& p.classes.classes@.len() == class_files@.len()
                &&& forall|k: int| 0 <= k < class_files@.len() ==> file_gives(#[trigger] class_files@[k], p.classes.classes@[k])
            },
            r matches Err(e) ==> exists|k: int| {
                &&& 0 <= k < class_files@.len()
                &&& (forall|j: int| 0 <= j < k ==> file_reads(#[trigger] class_files@[j]))
                &&& !file_reads(#[trigger] class_files@[k])
                &&& file_error(class_files@[k], e)
            },
    {
        let ghost orig = class_files@;
        let mut rest = class_files;
        let n = rest.len();
        let mut types: Vec<TypeDef> = Vec::new();
        let mut k: usize = 0;
        while rest.len() > 0
            invariant
                orig == class_files@,
                n == orig.len(),
                k + rest@.len() == orig.len(),
                rest@ == orig.skip(k as int),
                types@.len() == k,
                forall|j: int| 0 <= j < k ==> file_gives(#[trigger] orig[j], types@[j]),
                forall|j: int| 0 <= j < k ==> file_reads(#[trigger] orig[j]),
            decreases rest@.len(),
        {
            let c = rest.remove(0);
            let ghost cg = c;
            assert(cg == orig[k as int]);
            match c.into_type() {
                Ok(t) => {
                    types.push(t);
                },
                Err(e) => {
                    assert(file_error(cg, e));
                    assert(!file_reads(orig[k as int])) by {
                        let i = choose|i: int| {
                            &&& 0 <= i < cg.fields@.len()
                            &&& field_of_file(#[trigger] cg.fields@[i]) is None
                            &&& (forall|j: int| 0 <= j < i ==> field_of_file(#[trigger] cg.fields@[j]) is Some)
                            &&& e matches SdkError::Project(m) && m@ == msg_unknown_kind(cg.fields@[i].kind@)
                        };
                        assert(field_of_file(orig[k as int].fields@[i]) is None);
                    }
                    return Err(e);
                },
            }
            k = k + 1;
            assert(rest@ =~= orig.skip(k as int));
        }
        Ok(LoadedProject { dir, manifest, classes: Project::from_types(types), scripts })
    }
}

/// Whether a character is kept as-is in a file name.
pub open spec fn is_name_safe(c: char) -> bool {
    ('0' <= c <= '9') || ('a' <= c <= 'z') || ('A' <= c <= 'Z') || c == '-' || c == '_'
}

/// `name` with every character that is awkward in a file name replaced by `_`.
pub open spec fn sanitized(name: Seq<char>) -> Seq<char> {
    name.map_values(|c: char| if is_name_safe(c) { c } else { '_' })
}

/// Replaces characters that are awkward in file names with `_`.
pub fn sanitize(name: &str) -> (r: String)
    ensures
        r@ == sanitized(name@),
{
    let v = str_chars(name);
    let mut r = String::new();
    let mut i: usize = 0;
    while i < v.len()
        invariant
            i <= v@.len(),
            v@ == name@,
            r@ == sanitized(v@.take(i as int)),
        decreases v@.len() - i,
    {
        let c = v[i];
        let safe = ('0' <= c && c <= '9') || ('a' <= c && c <= 'z') || ('A' <= c && c <= 'Z') || c
            == '-' || c == '_';
        push_char(&mut r, if safe { c } else { '_' });
        i = i + 1;
        assert(r@ =~= sanitized(v@.take(i as int)));
    }
    assert(v@.take(v@.len() as int) =~= v@);
    r
}

} // verus!
