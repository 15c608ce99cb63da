//! Undo/redo history of an edited value (the class list of a session), and
//! the session configuration.

use vstd::prelude::*;
use vstd::string::*;
use crate::text::{chars_eq, str_chars};

verus! {

/// The most states the undo stack keeps; the oldest is dropped beyond it.
pub const UNDO_LIMIT: usize = 200;

/// Undo and redo stacks of earlier and later states of an edited value.
pub struct History<T> {
    undo: Vec<T>,
    redo: Vec<T>,
}

impl<T> History<T> {
    /// The states an undo steps back through, oldest first.
    pub closed spec fn undo_view(&self) -> Seq<T> {
        self.undo@
    }

    /// The states a redo steps forward through, the next one last.
    pub closed spec fn redo_view(&self) -> Seq<T> {
        self.redo@
    }

    /// An empty history.
    pub fn new() -> (h: Self)
        ensures
            h.undo_view() == Seq::<T>::empty(),
            h.redo_view() == Seq::<T>::empty(),
    {
        History { undo: Vec::new(), redo: Vec::new() }
    }

    /// Records `copy`, a copy of the current state, before an edit: it can
    /// be undone back to; the redo stack is cleared; only the latest
    /// `UNDO_LIMIT` states are kept.
    pub fn snapshot(&mut self, copy: T)
        requires
            old(self).undo_view().len() <= UNDO_LIMIT,
        ensures
            final(self).undo_view().len() <= UNDO_LIMIT,
            final(self).undo_view() == (if old(self).undo_view().len() + 1 > UNDO_LIMIT {
                old(self).undo_view().push(copy).drop_first()
            } else {
                old(self).undo_view().push(copy)
            }),
            final(self).redo_view() == Seq::<T>::empty(),
    {
        self.undo.push(copy);
        if self.undo.len() > UNDO_LIMIT {
            self.undo.remove(0);
            assert(self.undo@ =~= old(self).undo@.push(copy).drop_first());
        }
        self.redo.clear();
    }

    /// Steps back: the current state moves onto the redo stack and the last
    /// recorded state becomes current. `false` (nothing changed) when there
    /// is nothing to undo.
    pub fn undo(&mut self, current: &mut T) -> (r: bool)
        ensures
            r == (old(self).undo_view().len() > 0),
            r ==> {
                &&& *final(current) == old(self).undo_view().last()
                &&& final(self).undo_view() == old(self).undo_view().drop_last()
                &&& final(self).redo_view() == old(self).redo_view().push(*old(current))
            },
            !r ==> *final(current) == *old(current) && final(self).undo_view() == old(self).undo_view()
                && final(self).redo_view() == old(self).redo_view(),
    {
        match self.undo.pop() {
            Some(prev) => {
                let mut cur = prev;
                std::mem::swap(current, &mut cur);
                self.redo.push(cur);
                true
            },
            None => false,
        }
    }

    /// Steps forward: the current state moves onto the undo stack and the
    /// last undone state becomes current. `false` (nothing changed) when
    /// there is nothing to redo.
    pub fn redo(&mut self, current: &mut T) -> (r: bool)
        ensures
            r == (old(self).redo_view().len() > 0),
            r ==> {
                &&& *final(current) == old(self).redo_view().last()
                &&& final(self).redo_view() == old(self).redo_view().drop_last()
                &&& final(self).undo_view() == old(self).undo_view().push(*old(current))
            },
            !r ==> *final(current) == *old(current) && final(self).undo_view() == old(self).undo_view()
                && final(self).redo_view() == old(self).redo_view(),
    {
        match self.redo.pop() {
            Some(next) => {
                let mut cur = next;
                std::mem::swap(current, &mut cur);
                self.undo.push(cur);
                true
            },
            None => false,
        }
    }
}

/// Undoing and then redoing gives back the state before the undo and the
/// stacks as they were.
pub proof fn lemma_redo_undoes_undo<T>(undo: Seq<T>, redo: Seq<T>, current: T)
    requires
        undo.len() > 0,
    ensures
        ({
            let (u1, r1, c1) = (undo.drop_last(), redo.push(current), undo.last());
            &&& r1.len() > 0
            &&& r1.last() == current
            &&& u1.push(c1) == undo
            &&& r1.drop_last() == redo
        }),
{
    assert(undo.drop_last().push(undo.last()) =~= undo);
    assert(redo.push(current).drop_last() =~= redo);
}

/// Redoing and then undoing gives back the state before the redo and the
/// stacks as they were.
pub proof fn lemma_undo_undoes_redo<T>(undo: Seq<T>, redo: Seq<T>, current: T)
    requires
        redo.len() > 0,
    ensures
        ({
            let (u1, r1, c1) = (undo.push(current), redo.drop_last(), redo.last());
            &&& u1.len() > 0
            &&& u1.last() == current
            &&& r1.push(c1) == redo
            &&& u1.drop_last() == undo
        }),
{
    assert(redo.drop_last().push(redo.last()) =~= redo);
    assert(undo.push(current).drop_last() =~= undo);
}

/// Session settings: recently opened projects, the refresh rate, and the
/// saved window layout.
#[derive(Debug, Clone)]
pub struct Config {
    /// Recently opened project folders, newest first.
    pub recent_projects: Vec<String>,
    /// Live-value refresh rate in Hz.
    pub poll_hz: u32,
    /// Serialized window layout.
    pub layout: Option<String>,
}

impl Default for Config {
    fn default() -> (c: Self)
        ensures
            c.recent_projects@.len() == 0,
            c.poll_hz == 30,
            c.layout is None,
    {
        Config { recent_projects: Vec::new(), poll_hz: 30, layout: None }
    }
}


/// How many recent projects are remembered.
pub const RECENT_LIMIT: usize = 12;

/// The recent-project list after opening `dir`: `dir` first, then the
/// earlier entries other than `dir`, at most `RECENT_LIMIT` in all.
pub open spec fn remember_spec(recent: Seq<Seq<char>>, dir: Seq<char>) -> Seq<Seq<char>> {
    let l = seq![dir] + recent.filter(|p: Seq<char>| p != dir);
    if l.len() > RECENT_LIMIT { l.take(RECENT_LIMIT as int) } else { l }
}

impl Config {
    /// The recent projects as text.
    pub open spec fn recent_view(&self) -> Seq<Seq<char>> {
        self.recent_projects@.map_values(|s: String| s@)
    }

    /// Records `dir` as the most recently opened project.
    pub fn remember_recent(&mut self, dir: &str)
        ensures
            final(self).recent_view() == remember_spec(old(self).recent_view(), dir@),
            final(self).poll_hz == old(self).poll_hz,
            final(self).layout == old(self).layout,
    {
        let d = str_chars(dir);
        let mut kept: Vec<String> = Vec::new();
        kept.push(String::from_str(dir));
        let ghost old_view = self.recent_view();
        let mut i: usize = 0;
        while i < self.recent_projects.len()
            invariant
                i <= self.recent_projects@.len(),
                old_view == self.recent_view(),
                d@ == dir@,
                kept@.map_values(|s: String| s@) == seq![dir@] + old_view.take(i as int).filter(|p: Seq<char>| p != dir@),
            decreases self.recent_projects.len() - i,
        {
            proof {
                reveal(Seq::filter);
                assert(old_view.take(i + 1).drop_last() =~= old_view.take(i as int));
                assert(old_view.take(i + 1).last() == self.recent_projects@[i as int]@);
            }
            let p = str_chars(self.recent_projects[i].as_str());
            let ghost before = kept@.map_values(|s: String| s@);
            if !chars_eq(p.as_slice(), d.as_slice()) {
                kept.push(String::from_str(self.recent_projects[i].as_str()));
                assert(kept@.map_values(|s: String| s@) =~= before.push(self.recent_projects@[i as int]@));
            }
            i = i + 1;
        }
        assert(old_view.take(old_view.len() as int) =~= old_view);
        if kept.len() > RECENT_LIMIT {
            let ghost full = kept@.map_values(|s: String| s@);
            kept.truncate(RECENT_LIMIT);
            assert(kept@.map_values(|s: String| s@) =~= full.take(RECENT_LIMIT as int));
        }
        self.recent_projects = kept;
    }
}

/// After opening `dir`, it is the most recent project, it is listed once,
/// and at most `RECENT_LIMIT` projects are listed.
pub proof fn lemma_remember_recent(recent: Seq<Seq<char>>, dir: Seq<char>)
    ensures
        remember_spec(recent, dir).len() >= 1,
        remember_spec(recent, dir)[0] == dir,
        remember_spec(recent, dir).len() <= RECENT_LIMIT,
        forall|i: int| 1 <= i < remember_spec(recent, dir).len() ==> #[trigger] remember_spec(recent, dir)[i] != dir,
{
    let f = recent.filter(|p: Seq<char>| p != dir);
    let l = seq![dir] + f;
    assert forall|i: int| 1 <= i < l.len() implies #[trigger] l[i] != dir by {
        assert(l[i] == f[i - 1]);
        recent.lemma_filter_pred(|p: Seq<char>| p != dir, i - 1);
    }
}
} // verus!
