//! Cheat tables: described, typed, freezable address-expression entries with
//! nested children.

use vstd::prelude::*;
use vstd::string::*;
use crate::types::{parse_kind, FieldKind};
use crate::classes::msg_unknown;
use crate::error::SdkError;
use crate::offset::{eval, eval_agrees, eval_spec, AddrEnv};
use vstd::utf8::*;

verus! {

/// A value pinned by a freezer: the exact bytes to keep writing.
#[derive(Debug, Clone, PartialEq)]
pub struct FreezeValue {
    /// Native-endian bytes written back on every freeze tick.
    pub bytes: Vec<u8>,
}

/// What a hotkey does when pressed (interpreted by the host).
#[derive(Debug, Clone, PartialEq)]
pub enum HotkeyAction {
    /// Toggle this entry's freeze on/off.
    ToggleFreeze,
    /// Set the entry to a literal value (parsed per the entry's kind).
    SetValue(String),
}

/// A key binding attached to an entry.
#[derive(Debug, Clone, PartialEq)]
pub struct Hotkey {
    /// Human-readable key combo (e.g. `"Ctrl+F1"`).
    pub combo: String,
    /// The action to perform.
    pub action: HotkeyAction,
}

/// One cheat-table row: a described, typed address with optional freeze,
/// hotkey, group label, and nested children.
#[derive(Debug, PartialEq)]
pub struct CheatEntry {
    /// Human-readable description.
    pub description: String,
    /// Address expression (see [`crate::offset::eval`]).
    pub address: String,
    /// Value type at the address.
    pub kind: FieldKind,
    /// When set, the value is held to these bytes.
    pub freeze: Option<FreezeValue>,
    /// Optional key binding.
    pub hotkey: Option<Hotkey>,
    /// Optional group/folder label.
    pub group: Option<String>,
    /// Nested child entries.
    pub children: Vec<CheatEntry>,
}

/// An entry and all its descendants, depth-first, parents before children.
pub open spec fn preorder(e: CheatEntry) -> Seq<CheatEntry>
    decreases e, 1nat,
{
    seq![e] + preorder_all(e.children@)
}

/// The depth-first listings of `es`, one after another.
pub open spec fn preorder_all(es: Seq<CheatEntry>) -> Seq<CheatEntry>
    decreases es, 0nat,
{
    if es.len() == 0 {
        seq![]
    } else {
        preorder_all(es.drop_last()) + preorder(es.last())
    }
}

impl CheatEntry {
    /// Resolves this entry's address expression against `env`.
    pub fn resolve<E: AddrEnv>(&self, env: &E) -> (r: Result<usize, SdkError>)
        ensures
            eval_agrees(r, eval_spec(env, encode_utf8(self.address@))),
    {
        eval(env, self.address.as_str())
    }

    /// A minimal entry: description, address expression, and type.
    pub fn new(description: &str, address: &str, kind: FieldKind) -> (e: Self)
        ensures
            e.description@ == description@,
            e.address@ == address@,
            e.kind == kind,
            e.freeze is None,
            e.hotkey is None,
            e.group is None,
            e.children@.len() == 0,
    {
        CheatEntry {
            description: String::from_str(description),
            address: String::from_str(address),
            kind,
            freeze: None,
            hotkey: None,
            group: None,
            children: Vec::new(),
        }
    }

    /// Yields this entry and all descendants, depth-first.
    pub fn flatten(&self) -> (out: Vec<&CheatEntry>)
        ensures
            out@.map_values(|r: &CheatEntry| *r) == preorder(*self),
        decreases *self,
    {
        let mut out: Vec<&CheatEntry> = Vec::new();
        out.push(self);
        let mut i: usize = 0;
        while i < self.children.len()
            invariant
                i <= self.children@.len(),
                out@.map_values(|r: &CheatEntry| *r) == seq![*self] + preorder_all(
                    self.children@.take(i as int),
                ),
            decreases self.children@.len() - i,
        {
            let c = &self.children[i];
            let sub = c.flatten();
            let ghost before = out@;
            let mut j: usize = 0;
            while j < sub.len()
                invariant
                    j <= sub@.len(),
                    out@ == before + sub@.take(j as int),
                decreases sub@.len() - j,
            {
                out.push(sub[j]);
                j = j + 1;
                assert(out@ =~= before + sub@.take(j as int));
            }
            proof {
                assert(sub@.take(sub@.len() as int) =~= sub@);
                assert(self.children@.take(i + 1).drop_last() =~= self.children@.take(i as int));
                assert(self.children@.take(i + 1).last() == self.children@[i as int]);
                assert((before + sub@).map_values(|r: &CheatEntry| *r) =~= before.map_values(
                    |r: &CheatEntry| *r,
                ) + sub@.map_values(|r: &CheatEntry| *r));
            }
            i = i + 1;
        }
        assert(self.children@.take(self.children@.len() as int) =~= self.children@);
        out
    }
}

/// A cheat table: a versioned list of [`CheatEntry`] trees.
#[derive(Debug, PartialEq)]
pub struct CheatTable {
    /// On-disk schema version.
    pub version: u32,
    /// Top-level entries.
    pub entries: Vec<CheatEntry>,
}

impl CheatTable {
    /// The current on-disk schema version.
    pub const CURRENT_VERSION: u32 = 1;

    /// An empty table at the current version.
    pub fn new() -> (t: Self)
        ensures
            t.version == Self::CURRENT_VERSION,
            t.entries@.len() == 0,
    {
        CheatTable { version: Self::CURRENT_VERSION, entries: Vec::new() }
    }

    /// Every entry, flattened depth-first (parents before children).
    pub fn all_entries(&self) -> (out: Vec<&CheatEntry>)
        ensures
            out@.map_values(|r: &CheatEntry| *r) == preorder_all(self.entries@),
    {
        let mut out: Vec<&CheatEntry> = Vec::new();
        let mut i: usize = 0;
        while i < self.entries.len()
            invariant
                i <= self.entries@.len(),
                out@.map_values(|r: &CheatEntry| *r) == preorder_all(self.entries@.take(i as int)),
            decreases self.entries@.len() - i,
        {
            let sub = self.entries[i].flatten();
            let ghost before = out@;
            let mut j: usize = 0;
            while j < sub.len()
                invariant
                    j <= sub@.len(),
                    out@ == before + sub@.take(j as int),
                decreases sub@.len() - j,
            {
                out.push(sub[j]);
                j = j + 1;
                assert(out@ =~= before + sub@.take(j as int));
            }
            proof {
                assert(sub@.take(sub@.len() as int) =~= sub@);
                assert(self.entries@.take(i + 1).drop_last() =~= self.entries@.take(i as int));
                assert((before + sub@).map_values(|r: &CheatEntry| *r) =~= before.map_values(
                    |r: &CheatEntry| *r,
                ) + sub@.map_values(|r: &CheatEntry| *r));
            }
            i = i + 1;
        }
        assert(self.entries@.take(self.entries@.len() as int) =~= self.entries@);
        out
    }
}

/// Message: an entry index past the table's top-level entries.
pub open spec fn msg_entry_index() -> Seq<char> {
    "entry index out of range"@
}

/// `e` is a fresh entry: the given description, address and kind, and no
/// freeze, hotkey, group or children.
pub open spec fn fresh_entry(e: CheatEntry, description: Seq<char>, address: Seq<char>, kind: FieldKind) -> bool {
    &&& e.description@ == description
    &&& e.address@ == address
    &&& e.kind == kind
    &&& e.freeze is None
    &&& e.hotkey is None
    &&& e.group is None
    &&& e.children@.len() == 0
}

impl CheatTable {
    /// Appends a fresh top-level entry; fails, changing nothing, on a kind
    /// string that names no kind.
    pub fn add_entry(&mut self, description: &str, address: &str, kind: &str) -> (r: Result<(), String>)
        ensures
            match parse_kind(kind@) {
                None => r matches Err(m) && m@ == msg_unknown(kind@) && *final(self) == *old(self),
                Some(k) => {
                    &&& r is Ok
                    &&& final(self).version == old(self).version
                    &&& final(self).entries@.len() == old(self).entries@.len() + 1
                    &&& final(self).entries@.drop_last() == old(self).entries@
                    &&& fresh_entry(final(self).entries@.last(), description@, address@, k)
                },
            },
    {
        match FieldKind::from_kind_string(kind) {
            None => Err(unknown_kind(kind)),
            Some(k) => {
                self.entries.push(CheatEntry::new(description, address, k));
                assert(self.entries@.drop_last() =~= old(self).entries@);
                Ok(())
            },
        }
    }

    /// Replaces the description, address and kind of top-level entry
    /// `index`, keeping its freeze, hotkey, group and children. An unknown
    /// kind string fails first; an index past the entries fails next; both
    /// change nothing.
    pub fn update_entry(&mut self, index: usize, description: String, address: String, kind: &str) -> (r: Result<(), String>)
        ensures
            match parse_kind(kind@) {
                None => r matches Err(m) && m@ == msg_unknown(kind@) && *final(self) == *old(self),
                Some(k) => if index >= old(self).entries@.len() {
                    r matches Err(m) && m@ == msg_entry_index() && *final(self) == *old(self)
                } else {
                    let e = old(self).entries@[index as int];
                    &&& r is Ok
                    &&& final(self).version == old(self).version
                    &&& final(self).entries@ == old(self).entries@.update(
                        index as int,
                        CheatEntry {
                            description,
                            address,
                            kind: k,
                            freeze: e.freeze,
                            hotkey: e.hotkey,
                            group: e.group,
                            children: e.children,
                        },
                    )
                },
            },
    {
        let k = match FieldKind::from_kind_string(kind) {
            None => return Err(unknown_kind(kind)),
            Some(k) => k,
        };
        if index >= self.entries.len() {
            return Err(String::from_str("entry index out of range"));
        }
        relabel(&mut self.entries[index], description, address, k);
        Ok(())
    }

    /// Removes top-level entry `index`; fails, changing nothing, on an index
    /// past the entries.
    pub fn remove_entry(&mut self, index: usize) -> (r: Result<(), String>)
        ensures
            index >= old(self).entries@.len() ==> (r matches Err(m) && m@ == msg_entry_index() && *final(self)
                == *old(self)),
            index < old(self).entries@.len() ==> r is Ok && final(self).version == old(self).version
                && final(self).entries@ == old(self).entries@.remove(index as int),
    {
        if index >= self.entries.len() {
            return Err(String::from_str("entry index out of range"));
        }
        self.entries.remove(index);
        Ok(())
    }

    /// Sets (or, with `None`, clears) the pinned value of top-level entry
    /// `index`; fails, changing nothing, on an index past the entries.
    pub fn set_freeze(&mut self, index: usize, freeze: Option<FreezeValue>) -> (r: Result<(), String>)
        ensures
            index >= old(self).entries@.len() ==> (r matches Err(m) && m@ == msg_entry_index() && *final(self)
                == *old(self)),
            index < old(self).entries@.len() ==> {
                let e = old(self).entries@[index as int];
                &&& r is Ok
                &&& final(self).version == old(self).version
                &&& final(self).entries@ == old(self).entries@.update(
                    index as int,
                    CheatEntry {
                        description: e.description,
                        address: e.address,
                        kind: e.kind,
                        freeze,
                        hotkey: e.hotkey,
                        group: e.group,
                        children: e.children,
                    },
                )
            },
    {
        if index >= self.entries.len() {
            return Err(String::from_str("entry index out of range"));
        }
        self.entries[index].freeze = freeze;
        Ok(())
    }
}

fn unknown_kind(kind: &str) -> (m: String)
    ensures
        m@ == msg_unknown(kind@),
{
    let mut m = String::from_str("unknown kind `");
    m.append(kind);
    m.append("`");
    m
}

fn relabel(e: &mut CheatEntry, description: String, address: String, kind: FieldKind)
    ensures
        *final(e) == (CheatEntry {
            description,
            address,
            kind,
            freeze: old(e).freeze,
            hotkey: old(e).hotkey,
            group: old(e).group,
            children: old(e).children,
        }),
{
    e.description = description;
    e.address = address;
    e.kind = kind;
}

impl Default for CheatTable {
    fn default() -> (t: Self)
        ensures
            t.version == CheatTable::CURRENT_VERSION,
            t.entries@.len() == 0,
    {
        CheatTable::new()
    }
}

/// The number of entries in a set of trees, counting every descendant.
pub open spec fn tree_count(es: Seq<CheatEntry>) -> nat {
    preorder_all(es).len()
}

/// Flattening lists every entry once: a tree's listing starts with the entry
/// itself and is one longer than its children's listings together.
pub proof fn lemma_flatten_counts(e: CheatEntry)
    ensures
        preorder(e).len() == 1 + tree_count(e.children@),
        preorder(e)[0] == e,
{
}

} // verus!
