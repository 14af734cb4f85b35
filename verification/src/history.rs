//! The navigation history: the directories visited, with a cursor that
//! moves back and forward, and a new visit dropping everything ahead of it.
use vstd::prelude::*;
use crate::paths::{path_eq, same_path};
use crate::text::views;

verus! {

/// The abstract history: the visited paths and the position of the current one.
pub ghost struct HistoryView {
    pub paths: Seq<Seq<char>>,
    pub index: int,
}

impl HistoryView {
    pub open spec fn wf(self) -> bool {
        0 <= self.index < self.paths.len()
    }

    pub open spec fn current(self) -> Seq<char> {
        self.paths[self.index]
    }

    pub open spec fn can_go_back(self) -> bool {
        self.index > 0
    }

    pub open spec fn can_go_forward(self) -> bool {
        self.index + 1 < self.paths.len()
    }

    /// A visit to `path`: nothing changes when it is the current path (the
    /// same text, or the same components);
    /// otherwise everything after the current position is dropped and
    /// `path` becomes the new current one.
    pub open spec fn visit(self, path: Seq<char>) -> HistoryView {
        if self.paths[self.index] == path || same_path(self.paths[self.index], path) {
            self
        } else {
            HistoryView { paths: self.paths.take(self.index + 1).push(path), index: self.index + 1 }
        }
    }

    pub open spec fn back(self) -> HistoryView {
        HistoryView { paths: self.paths, index: self.index - 1 }
    }

    pub open spec fn forward(self) -> HistoryView {
        HistoryView { paths: self.paths, index: self.index + 1 }
    }
}

/// The navigation history.
pub struct History {
    paths: Vec<String>,
    index: usize,
}

impl View for History {
    type V = HistoryView;

    closed spec fn view(&self) -> HistoryView {
        HistoryView { paths: views(self.paths@), index: self.index as int }
    }
}

impl History {
    /// A history holding only `start`.
    pub fn new(start: String) -> (h: History)
        ensures
            h@.wf(),
            h@.paths == seq![start@],
            h@.index == 0,
    {
        let mut paths: Vec<String> = Vec::new();
        paths.push(start);
        let h = History { paths, index: 0 };
        assert(h@.paths == seq![start@]);
        h
    }

    /// The current path.
    pub fn current(&self) -> (p: String)
        requires
            self@.wf(),
        ensures
            p@ == self@.current(),
    {
        self.paths[self.index].clone()
    }

    pub fn can_go_back(&self) -> (b: bool)
        requires
            self@.wf(),
        ensures
            b == self@.can_go_back(),
    {
        self.index > 0
    }

    pub fn can_go_forward(&self) -> (b: bool)
        requires
            self@.wf(),
        ensures
            b == self@.can_go_forward(),
    {
        let n = self.paths.len();
        assert(self@.paths.len() == n);
        self.index + 1 < n
    }

    /// The path one step back, without moving.
    pub fn peek_back(&self) -> (p: String)
        requires
            self@.wf(),
            self@.can_go_back(),
        ensures
            p@ == self@.back().current(),
    {
        self.paths[self.index - 1].clone()
    }

    /// The path one step forward, without moving.
    pub fn peek_forward(&self) -> (p: String)
        requires
            self@.wf(),
            self@.can_go_forward(),
        ensures
            p@ == self@.forward().current(),
    {
        let n = self.paths.len();
        assert(self@.paths.len() == n);
        self.paths[self.index + 1].clone()
    }

    /// Records a visit to `path` (see `HistoryView::visit`).
    pub fn visit(&mut self, path: String)
        requires
            old(self)@.wf(),
        ensures
            final(self)@ == old(self)@.visit(path@),
            final(self)@.wf(),
    {
        let n = self.paths.len();
        assert(self@.paths.len() == n);
        if !path_eq(self.paths[self.index].as_str(), path.as_str()) {
            self.paths.truncate(self.index + 1);
            self.paths.push(path);
            self.index = self.paths.len() - 1;
            assert(self@.paths =~= old(self)@.paths.take(old(self)@.index + 1).push(path@));
        }
    }

    /// Steps back and returns the path now current.
    pub fn back(&mut self) -> (p: String)
        requires
            old(self)@.wf(),
            old(self)@.can_go_back(),
        ensures
            final(self)@ == old(self)@.back(),
            final(self)@.wf(),
            p@ == final(self)@.current(),
    {
        self.index = self.index - 1;
        self.paths[self.index].clone()
    }

    /// Steps forward and returns the path now current.
    pub fn forward(&mut self) -> (p: String)
        requires
            old(self)@.wf(),
            old(self)@.can_go_forward(),
        ensures
            final(self)@ == old(self)@.forward(),
            final(self)@.wf(),
            p@ == final(self)@.current(),
    {
        let n = self.paths.len();
        assert(self@.paths.len() == n);
        self.index = self.index + 1;
        self.paths[self.index].clone()
    }
}

/// Going back and then forward returns to the same place in the history.
pub proof fn lemma_back_then_forward(h: HistoryView)
    requires
        h.wf(),
        h.can_go_back(),
    ensures
        h.back().wf(),
        h.back().can_go_forward(),
        h.back().forward() == h,
{
}

/// Going forward and then back returns to the same place in the history.
pub proof fn lemma_forward_then_back(h: HistoryView)
    requires
        h.wf(),
        h.can_go_forward(),
    ensures
        h.forward().wf(),
        h.forward().can_go_back(),
        h.forward().back() == h,
{
}

/// Whether `path` names the current entry of `h`: the same text, or the
/// same components.
pub open spec fn is_current(h: HistoryView, path: Seq<char>) -> bool {
    h.current() == path || same_path(h.current(), path)
}

/// The way back is kept by a visit: the paths up to the old current one are
/// unchanged; and a visit to a path other than the current one makes it
/// current with nothing ahead of it.
pub proof fn lemma_visit(h: HistoryView, path: Seq<char>)
    requires
        h.wf(),
    ensures
        h.visit(path).wf(),
        !is_current(h, path) ==> h.visit(path).current() == path,
        !is_current(h, path) ==> !h.visit(path).can_go_forward(),
        h.visit(path).paths.take(h.index + 1) == h.paths.take(h.index + 1),
        !is_current(h, path) ==> h.visit(path).back() == (HistoryView { paths: h.paths.take(h.index + 1).push(path), index: h.index }),
{
    if !is_current(h, path) {
        assert(h.visit(path).paths.take(h.index + 1) =~= h.paths.take(h.index + 1));
    }
}

/// Visiting the current path leaves the history as it was.
pub proof fn lemma_visit_current(h: HistoryView, path: Seq<char>)
    requires
        h.wf(),
        is_current(h, path),
    ensures
        h.visit(path) == h,
{
}

/// Visiting the same path twice in a row is one visit: the second finds it
/// current and changes nothing.
pub proof fn lemma_visit_twice(h: HistoryView, path: Seq<char>)
    requires
        h.wf(),
    ensures
        h.visit(path).visit(path) == h.visit(path),
{
    if !is_current(h, path) {
        assert(h.visit(path).current() == path);
    }
}

} // verus!
