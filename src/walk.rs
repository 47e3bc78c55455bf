//! The decisions of the depth-first walk from one starting point.
//!
//! The caller reads metadata and lists directories; a [`Walk`] decides which
//! directories are descended into, remembers the inodes already entered so
//! that a cycle of symbolic or hard links is entered once, and records
//! whether any failure was met below the starting point.

use std::collections::HashSet;
use vstd::prelude::*;

use crate::error::{classify, Error, IoFailure};
use crate::predicate::{Entry, FileKind};

verus! {

broadcast use vstd::std_specs::hash::group_hash_axioms;

/// The state of the walk from one starting point.
pub struct Walk {
    follow_symlinks: bool,
    visited: HashSet<u64>,
    failed: bool,
}

/// The mathematical value of a [`Walk`].
pub struct WalkView {
    /// Whether symbolic links are followed.
    pub follow_symlinks: bool,
    /// The inodes of the directories entered so far.
    pub visited: Set<u64>,
    /// Whether a failure was met below the starting point.
    pub failed: bool,
}

impl View for Walk {
    type V = WalkView;

    closed spec fn view(&self) -> WalkView {
        WalkView {
            follow_symlinks: self.follow_symlinks,
            visited: self.visited@,
            failed: self.failed,
        }
    }
}

/// Whether the symlink policy and the entry's kind allow descending into it:
/// it is a directory, and either links are followed or it is not a link.
pub open spec fn may_descend(follow_symlinks: bool, e: Entry) -> bool {
    e.kind == FileKind::Directory && (follow_symlinks || e.kind != FileKind::Symlink)
}

/// Whether the walk in state `w` descends into entry `e`: the policy allows
/// it and its inode was not entered before.
pub open spec fn descends(w: WalkView, e: Entry) -> bool {
    may_descend(w.follow_symlinks, e) && !w.visited.contains(e.ino)
}

/// The state after the walk in state `w` has decided on `e`.
pub open spec fn after_visit(w: WalkView, e: Entry) -> WalkView {
    if may_descend(w.follow_symlinks, e) {
        WalkView { visited: w.visited.insert(e.ino), ..w }
    } else {
        w
    }
}

/// The state after deciding on each of `es` in turn, from `w`.
pub open spec fn after_visits(w: WalkView, es: Seq<Entry>) -> WalkView
    decreases es.len(),
{
    if es.len() == 0 {
        w
    } else {
        after_visit(after_visits(w, es.drop_last()), es.last())
    }
}

impl Walk {
    /// A walk that has entered nothing and met no failure.
    pub fn new(follow_symlinks: bool) -> (r: Walk)
        ensures
            r@ == (WalkView { follow_symlinks, visited: Set::empty(), failed: false }),
    {
        Walk { follow_symlinks, visited: HashSet::new(), failed: false }
    }

    /// Whether symbolic links are followed: metadata is then read through
    /// them.
    pub fn follows_symlinks(&self) -> (r: bool)
        ensures
            r == self@.follow_symlinks,
    {
        self.follow_symlinks
    }

    /// Whether a failure was met below the starting point.
    pub fn had_error(&self) -> (r: bool)
        ensures
            r == self@.failed,
    {
        self.failed
    }

    /// Decides whether to list and descend into `entry`, and records its
    /// inode as entered when it is a directory that the policy allows.
    pub fn should_descend(&mut self, entry: &Entry) -> (r: bool)
        ensures
            r == descends(old(self)@, *entry),
            final(self)@ == after_visit(old(self)@, *entry),
    {
        if entry.kind == FileKind::Directory && (self.follow_symlinks || entry.kind
            != FileKind::Symlink) {
            self.visited.insert(entry.ino)
        } else {
            false
        }
    }

    /// Records that the walk below `path`, a child of a directory being
    /// listed, failed, and returns the diagnostic to report for it. The walk
    /// goes on with the next child.
    pub fn child_failed(&mut self, failure: IoFailure, path: String) -> (r: Error)
        ensures
            r@ == classify(failure, path@),
            final(self)@ == (WalkView { failed: true, ..old(self)@ }),
    {
        self.failed = true;
        Error::from_io(failure, path)
    }
}

/// Each inode is descended into at most once in a walk: of any two decisions
/// that descend, at positions `i < j` of the sequence of entries met, the
/// inodes differ. However links form cycles, the walk descends no more times
/// than there are distinct directory inodes, and so it ends.
pub proof fn lemma_each_inode_entered_once(w: WalkView, es: Seq<Entry>, i: int, j: int)
    requires
        0 <= i < j < es.len(),
        descends(after_visits(w, es.take(i)), es[i]),
        descends(after_visits(w, es.take(j)), es[j]),
    ensures
        es[i].ino != es[j].ino,
{
    lemma_visited_grows(w, es, i + 1, j);
    assert(es.take(i + 1).drop_last() =~= es.take(i));
}

proof fn lemma_visited_grows(w: WalkView, es: Seq<Entry>, i: int, j: int)
    requires
        0 <= i <= j <= es.len(),
    ensures
        after_visits(w, es.take(i)).visited.subset_of(after_visits(w, es.take(j)).visited),
        after_visits(w, es.take(j)).follow_symlinks == w.follow_symlinks,
    decreases j,
{
    if j > 0 {
        assert(es.take(j).drop_last() =~= es.take(j - 1));
        lemma_visited_grows(w, es, if i < j { i } else { j - 1 }, j - 1);
    }
}

/// How many of the decisions on `es`, taken in turn from `w`, descend.
pub open spec fn descents(w: WalkView, es: Seq<Entry>) -> nat
    decreases es.len(),
{
    if es.len() == 0 {
        0
    } else {
        descents(w, es.drop_last()) + if descends(after_visits(w, es.drop_last()), es.last()) {
            1nat
        } else {
            0nat
        }
    }
}

/// The inodes of the entries `es`.
pub open spec fn inodes(es: Seq<Entry>) -> Set<u64> {
    es.map_values(|e: Entry| e.ino).to_set()
}

/// A walk that starts with nothing entered descends, over any sequence of
/// entries met, at most as many times as there are distinct inodes among
/// them. With finitely many physical directories, each listing finitely
/// many entries, the walk therefore ends, whatever cycles links form.
pub proof fn lemma_descents_bounded_by_inodes(w: WalkView, es: Seq<Entry>)
    requires
        w.visited == Set::<u64>::empty(),
    ensures
        descents(w, es) <= inodes(es).len(),
{
    lemma_visited_counts_descents(w, es);
    broadcast use vstd::seq_lib::seq_to_set_is_finite;
    vstd::set_lib::lemma_len_subset(after_visits(w, es).visited, inodes(es));
}

proof fn lemma_visited_counts_descents(w: WalkView, es: Seq<Entry>)
    requires
        w.visited.finite(),
    ensures
        after_visits(w, es).visited.finite(),
        after_visits(w, es).visited.len() == w.visited.len() + descents(w, es),
        after_visits(w, es).visited.subset_of(w.visited + inodes(es)),
    decreases es.len(),
{
    if es.len() > 0 {
        let rest = es.drop_last();
        lemma_visited_counts_descents(w, rest);
        assert(es.map_values(|e: Entry| e.ino) =~= rest.map_values(|e: Entry| e.ino).push(
            es.last().ino,
        ));
        let rm = rest.map_values(|e: Entry| e.ino);
        let em = es.map_values(|e: Entry| e.ino);
        assert forall|x: u64| inodes(rest).contains(x) implies inodes(es).contains(x) by {
            let i = choose|i: int| 0 <= i < rm.len() && #[trigger] rm[i] == x;
            assert(em[i] == x);
        }
        assert(inodes(es).contains(es.last().ino)) by {
            assert(es.map_values(|e: Entry| e.ino)[es.len() - 1] == es.last().ino);
        }
    }
}

/// Without symlink following, a symbolic link, to a directory or not, is
/// never descended into and leaves the walk's state as it was; whether it is
/// reported as a match is the predicate's decision alone.
pub proof fn lemma_link_not_descended_unfollowed(w: WalkView, e: Entry)
    requires
        !w.follow_symlinks,
        e.kind == FileKind::Symlink,
    ensures
        !descends(w, e),
        after_visit(w, e) == w,
{
}

} // verus!
