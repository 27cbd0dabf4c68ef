use vstd::prelude::*;

use crate::types::{InsertPosition, PurrStep};
use crate::cat_malloc::train_route::RouteBox;
use crate::cat_malloc::train_siding::PurrSiding;
use crate::cat_malloc::train_types::{CursorLine, PurrRule, PurrTrack, PurrTrainEvent};

verus! {

/// A train: baked carriages on a line, with the cursor on the running one.
/// Finished carriages stay on the line behind the cursor until the line is
/// shrunk.
#[derive(Debug)]
pub struct PurrTrain<T: PurrStep, U: PurrRule> {
    pub line: CursorLine<RouteBox<T, U>>,
}

impl<T: PurrStep, U: PurrRule> PurrTrain<T, U> {
    /// The cursor points into the line, or at 0.
    pub open spec fn wf(&self) -> bool {
        self.line.index == 0 || self.line.index < self.line.items@.len()
    }

    pub open spec fn carriages(&self) -> Seq<RouteBox<T, U>> {
        self.line.items@
    }

    pub open spec fn cursor(&self) -> int {
        self.line.cursor_spec()
    }

    pub fn new() -> (r: Self)
        ensures
            r.wf(),
            r.carriages() == Seq::<RouteBox<T, U>>::empty(),
            r.line.capacity == 0,
            r.line.index == 0,
    {
        PurrTrain { line: CursorLine::tr_new() }
    }

    /// Moves the siding's carriages to the end of the line.
    pub fn attach(&mut self, purr_siding: &mut PurrSiding<T, U>)
        requires
            old(self).wf(),
        ensures
            final(self).wf(),
            final(self).carriages() == old(self).carriages() + old(purr_siding).main_line@,
            final(purr_siding).main_line@ == Seq::<RouteBox<T, U>>::empty(),
            final(self).line.capacity == old(self).line.capacity,
            final(self).line.index == old(self).line.index,
    {
        self.line.tr_extend(&mut purr_siding.main_line);
    }

    /// Empties the line, cursor at 0, and moves the siding's carriages onto
    /// it. The line must not be empty.
    pub fn replace(&mut self, purr_siding: &mut PurrSiding<T, U>)
        requires
            old(self).wf(),
            old(self).carriages().len() > 0,
        ensures
            final(self).wf(),
            final(self).carriages() == old(purr_siding).main_line@,
            final(purr_siding).main_line@ == Seq::<RouteBox<T, U>>::empty(),
            final(self).line.capacity == old(self).carriages().len(),
            final(self).line.index == 0,
    {
        self.line.tr_clear();
        self.attach(purr_siding);
    }

    /// Where `reroute_at` inserts: at the cursor, or `i` past it, but not
    /// past the end of the line.
    pub open spec fn reroute_index(&self, insert_position: InsertPosition) -> int {
        let wanted = match insert_position {
            InsertPosition::Forward => self.cursor(),
            InsertPosition::Index(i) => i + self.cursor(),
        };
        if wanted < self.carriages().len() {
            wanted
        } else {
            self.carriages().len() as int
        }
    }

    /// Moves the siding's carriages into the line at the cursor, or `i`
    /// places after it, or at the end when that is past the end.
    pub fn reroute_at(&mut self, purr_siding: &mut PurrSiding<T, U>, insert_position: InsertPosition)
        requires
            old(self).wf(),
            insert_position matches InsertPosition::Index(i) ==> i + old(self).cursor() <= usize::MAX,
        ensures
            final(self).wf(),
            final(self).carriages() == ({
                let at = old(self).reroute_index(insert_position);
                old(self).carriages().take(at) + old(purr_siding).main_line@ + old(self).carriages().skip(at)
            }),
            final(purr_siding).main_line@ == Seq::<RouteBox<T, U>>::empty(),
            final(self).line.capacity == old(self).line.capacity,
            final(self).line.index == old(self).line.index,
    {
        let cursor_pos = self.line.tr_get_cursor();
        let mut index = match insert_position {
            InsertPosition::Forward => cursor_pos,
            InsertPosition::Index(i) => i + cursor_pos,
        };
        let len = self.line.tr_len();
        if index > len {
            index = len;
        }
        self.line.tr_splice(index, &mut purr_siding.main_line);
    }

    /// `post` is `pre` with the finished carriages behind the cursor dropped
    /// and the cursor back at 0, once the cursor is past `line_length`; else
    /// it is `pre`.
    pub open spec fn shrunk(pre: Self, post: Self, line_length: usize) -> bool {
        if pre.cursor() > line_length && pre.cursor() != 0 {
            &&& post.carriages() == pre.carriages().skip(pre.cursor())
            &&& post.line.index == 0
            &&& post.line.capacity == pre.carriages().len() - pre.cursor()
        } else {
            post.line == pre.line
        }
    }

    /// Drops the finished carriages behind the cursor once the cursor is past
    /// `line_length`, and puts the cursor back at 0.
    pub fn shrink_line(&mut self, line_length: usize)
        requires
            old(self).wf(),
        ensures
            final(self).wf(),
            Self::shrunk(*old(self), *final(self), line_length),
            final(self).line.current_spec() == old(self).line.current_spec(),
    {
        let cursor_idx = self.line.tr_get_cursor();
        if cursor_idx > line_length && cursor_idx != 0 {
            let _ = self.line.tr_drain(cursor_idx);
            self.line.tr_set_cursor(0);
        }
    }

    pub fn get_current(&self) -> (r: Option<RouteBox<T, U>>)
        ensures r == self.line.current_spec(),
    {
        self.line.tr_get_current()
    }

    pub fn get_current_ref(&self) -> (r: Option<&RouteBox<T, U>>)
        ensures
            r == (match self.line.current_spec() { Some(v) => Some(&v), None => None::<&RouteBox<T, U>> }),
    {
        self.line.tr_get_current_ref()
    }

    /// The carriage under the cursor, to change in place.
    pub fn get_current_mut(&mut self) -> (r: Option<&mut RouteBox<T, U>>)
        requires
            old(self).wf(),
        ensures
            final(self).wf(),
            final(self).line.capacity == old(self).line.capacity,
            final(self).line.index == old(self).line.index,
            old(self).line.current_spec() matches Some(v) ==> {
                &&& r matches Some(w) && *w == v
                &&& final(self).carriages() == old(self).carriages().update(old(self).cursor(), *final(r->0))
            },
            old(self).line.current_spec() is None ==> r is None && final(self).carriages() == old(self).carriages(),
    {
        self.line.tr_get_current_mut()
    }

    /// The whole line, to change in place. The cursor is untouched; the
    /// line is what the slice holds once the caller is done with it.
    pub fn get_mut_line(&mut self) -> (r: &mut [RouteBox<T, U>])
        ensures
            r@ == old(self).carriages(),
            final(self).carriages() == final(r)@,
            final(self).line.capacity == old(self).line.capacity,
            final(self).line.index == old(self).line.index,
    {
        self.line.tr_as_mut_slice()
    }

    pub fn get_cursor(&self) -> (r: usize)
        ensures r == self.cursor(),
    {
        self.line.tr_get_cursor()
    }

    pub fn get_line(&self) -> (r: &[RouteBox<T, U>])
        ensures r@ == self.carriages(),
    {
        self.line.tr_as_slice()
    }

    /// One step of the train, from `pre` to `post` reporting `r`, when the
    /// running carriage's rule answers `finished`.
    pub open spec fn advanced(pre: Self, post: Self, r: PurrTrainEvent<T, U>, finished: bool) -> bool {
        match pre.line.current_spec() {
            None => r == PurrTrainEvent::<T, U>::Idle && post.line == pre.line,
            Some(rb) => if !finished {
                r == PurrTrainEvent::<T, U>::Running(rb) && post.line == pre.line
            } else if pre.cursor() >= pre.carriages().len() - 1 {
                &&& r == PurrTrainEvent::<T, U>::Transition { from: rb, to: None }
                &&& post.carriages() == Seq::<RouteBox<T, U>>::empty()
                &&& post.line.index == 0
                &&& post.line.capacity == pre.carriages().len()
            } else {
                &&& post.carriages() == pre.carriages()
                &&& post.line.capacity == pre.carriages().len()
                &&& post.line.index == pre.line.index_after_set(pre.cursor() + 1)
                &&& r == PurrTrainEvent::<T, U>::Transition { from: rb, to: post.line.current_spec() }
            },
        }
    }

    /// One step of the train once it is known whether the running carriage
    /// is finished. With no carriage under the cursor the train is idle. An
    /// unfinished carriage is running. A finished last carriage empties the
    /// line; any other finished carriage moves the cursor on.
    pub fn advance_with(&mut self, finished: bool) -> (r: PurrTrainEvent<T, U>)
        requires
            old(self).wf(),
        ensures
            final(self).wf(),
            Self::advanced(*old(self), *final(self), r, finished),
    {
        match self.get_current() {
            Some(route_box) => {
                if finished {
                    if self.line.tr_get_cursor() >= self.line.tr_len() - 1 {
                        self.line.tr_clear();
                        return PurrTrainEvent::Transition { from: route_box, to: None };
                    }
                    self.line.tr_step_cursor();
                    let cursor_state = self.get_current();
                    PurrTrainEvent::Transition { from: route_box, to: cursor_state }
                } else {
                    PurrTrainEvent::Running(route_box)
                }
            },
            None => PurrTrainEvent::Idle,
        }
    }

    /// Asks the running carriage's rule whether it is finished, and steps the
    /// train as `advance_with` does for that answer.
    pub fn advance_train(&mut self) -> (r: PurrTrainEvent<T, U>)
        requires
            old(self).wf(),
        ensures
            final(self).wf(),
            Self::advanced(*old(self), *final(self), r, true) || Self::advanced(*old(self), *final(self), r, false),
    {
        match self.get_current() {
            Some(route_box) => {
                let finished = route_box.rule.is_finished();
                self.advance_with(finished)
            },
            None => PurrTrainEvent::Idle,
        }
    }
}

impl<T: PurrStep, U: PurrRule> Default for PurrTrain<T, U> {
    fn default() -> (r: Self)
        ensures
            r.wf(),
            r.carriages() == Seq::<RouteBox<T, U>>::empty(),
    {
        Self::new()
    }
}

/// Where `reroute_at` inserts is pinned to the cursor: `Index(0)` lands
/// where `Forward` does, at the cursor (or the end of a shorter line), and
/// each step of the index moves one place further, up to the end.
pub proof fn lemma_reroute_index_from_cursor<T: PurrStep, U: PurrRule>(t: PurrTrain<T, U>, i: usize)
    requires
        i < usize::MAX,
    ensures
        t.reroute_index(InsertPosition::Index(0)) == t.reroute_index(InsertPosition::Forward),
        t.reroute_index(InsertPosition::Forward) == (if t.cursor() < t.carriages().len() { t.cursor() } else { t.carriages().len() as int }),
        t.reroute_index(InsertPosition::Index((i + 1) as usize)) == (if t.reroute_index(InsertPosition::Index(i)) < t.carriages().len() {
            t.reroute_index(InsertPosition::Index(i)) + 1
        } else {
            t.carriages().len() as int
        }),
{
}

/// Advancing a train never moves its cursor back, and moves it on by one
/// place at most.
pub proof fn lemma_advance_cursor_steps<T: PurrStep, U: PurrRule>(
    pre: PurrTrain<T, U>,
    post: PurrTrain<T, U>,
    r: PurrTrainEvent<T, U>,
    finished: bool,
)
    requires
        pre.wf(),
        PurrTrain::advanced(pre, post, r, finished),
        post.carriages().len() > 0,
    ensures
        pre.cursor() <= post.cursor() <= pre.cursor() + 1,
{
}

/// A finished carriage that is not the last one hands over to a carriage of
/// the same line: the report names the carriage under the new cursor.
pub proof fn lemma_advance_hands_over<T: PurrStep, U: PurrRule>(
    pre: PurrTrain<T, U>,
    post: PurrTrain<T, U>,
    r: PurrTrainEvent<T, U>,
)
    requires
        pre.wf(),
        PurrTrain::advanced(pre, post, r, true),
        pre.carriages().len() >= 2,
        pre.cursor() < pre.carriages().len() - 1,
    ensures
        r == (PurrTrainEvent::<T, U>::Transition {
            from: pre.carriages()[pre.cursor()],
            to: Some(post.carriages()[post.cursor()]),
        }),
        post.carriages() == pre.carriages(),
{
}

} // verus!
