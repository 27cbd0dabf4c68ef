use vstd::prelude::*;

use crate::types::PurrStep;
use crate::cat_malloc::train_route::RouteBox;
use crate::condition::{InstantCondition, PurrFlag};

verus! {

/// Default capacity of a siding's buffer.
pub const VECTOR_SIZE: usize = 16;

/// Whether `launch` empties the siding before it adds a schedule.
#[derive(Debug, Clone, Copy, PartialEq, Eq, Hash)]
pub enum BufferMode {
    Clear,
    Keep,
}

/// The rule that decides when a carriage of a train is done.
pub trait PurrRule: core::fmt::Debug + Clone + Copy + PartialEq {
    fn is_finished(&self) -> bool;

    /// The condition of kind `C` that the rule holds, if any.
    fn as_ref_rule<C>(&self) -> (r: Option<&C>)
        where Self: UnpackRule<C>,
        ensures
            match r {
                Some(c) => <Self as UnpackRule<C>>::unpacked(self) == Some(*c),
                None => <Self as UnpackRule<C>>::unpacked(self) is None,
            },
    {
        self.unpack_ref()
    }

    /// The condition of kind `C` that the rule holds, if any, to change in
    /// place.
    fn as_mut_rule<C>(&mut self) -> (r: Option<&mut C>)
        where Self: UnpackRule<C>,
        ensures
            match r {
                Some(c) => <Self as UnpackRule<C>>::unpacked(old(self)) == Some(*c)
                    && <Self as UnpackRule<C>>::unpacked(final(self)) == Some(*final(c)),
                None => <Self as UnpackRule<C>>::unpacked(old(self)) is None && *final(self) == *old(self),
            },
    {
        self.unpack_mut()
    }
}

/// Access to the condition of one kind that a rule holds.
pub trait UnpackRule<C>: Sized {
    /// The condition of that kind that the rule holds, if any.
    spec fn unpacked(&self) -> Option<C>;

    fn unpack_ref(&self) -> (r: Option<&C>)
        ensures
            match r {
                Some(c) => self.unpacked() == Some(*c),
                None => self.unpacked() is None,
            },
    ;

    fn unpack_mut(&mut self) -> (r: Option<&mut C>)
        ensures
            match r {
                Some(c) => old(self).unpacked() == Some(*c) && final(self).unpacked() == Some(*final(c)),
                None => old(self).unpacked() is None && *final(self) == *old(self),
            },
    ;
}

/// The built-in rules that need no clock: done at once, or done while a
/// flag is raised.
#[derive(Debug, Clone, Copy, PartialEq)]
pub enum StandardRules {
    Instant(InstantCondition),
    Flag(PurrFlag),
}

impl StandardRules {
    pub fn instant() -> (r: Self)
        ensures r == StandardRules::Instant(InstantCondition),
    {
        StandardRules::Instant(InstantCondition)
    }

    /// A flag rule with its flag lowered.
    pub fn flag() -> (r: Self)
        ensures
            r matches StandardRules::Flag(f) && !f.flag(),
    {
        StandardRules::Flag(PurrFlag::new())
    }

    /// Whether the rule is done: an instant rule always, a flag rule while
    /// its flag is raised.
    pub open spec fn finished(&self) -> bool {
        match self {
            StandardRules::Instant(_) => true,
            StandardRules::Flag(f) => f.flag(),
        }
    }
}

impl PurrRule for StandardRules {
    fn is_finished(&self) -> (r: bool)
        ensures r == self.finished(),
    {
        match self {
            StandardRules::Instant(_) => true,
            StandardRules::Flag(f) => f.get_flag(),
        }
    }
}

impl UnpackRule<InstantCondition> for StandardRules {
    open spec fn unpacked(&self) -> Option<InstantCondition> {
        match self {
            StandardRules::Instant(c) => Some(*c),
            _ => None,
        }
    }

    fn unpack_ref(&self) -> Option<&InstantCondition> {
        match self {
            StandardRules::Instant(c) => Some(c),
            _ => None,
        }
    }

    fn unpack_mut(&mut self) -> Option<&mut InstantCondition> {
        match self {
            StandardRules::Instant(c) => Some(c),
            _ => None,
        }
    }
}

impl UnpackRule<PurrFlag> for StandardRules {
    open spec fn unpacked(&self) -> Option<PurrFlag> {
        match self {
            StandardRules::Flag(f) => Some(*f),
            _ => None,
        }
    }

    fn unpack_ref(&self) -> Option<&PurrFlag> {
        match self {
            StandardRules::Flag(f) => Some(f),
            _ => None,
        }
    }

    fn unpack_mut(&mut self) -> Option<&mut PurrFlag> {
        match self {
            StandardRules::Flag(f) => Some(f),
            _ => None,
        }
    }
}

/// What one advance of a train reports.
#[derive(Debug, Clone, Copy, PartialEq)]
pub enum PurrTrainEvent<T: PurrStep, U: PurrRule> {
    Idle,
    Running(RouteBox<T, U>),
    Transition { from: RouteBox<T, U>, to: Option<RouteBox<T, U>> },
}

/// A capacity hint for a new track.
#[derive(Debug, Clone, Copy, PartialEq, Eq, Hash, Default)]
pub enum TrackCapacity {
    Cap2,
    Cap4,
    Cap8,
    Cap16,
    #[default]
    Cap32,
    Cap64,
    Cap128,
    Cap256,
    Cap512,
    Cap1024,
    Cap2048,
}

/// A line of values with a cursor: what a train runs along.
pub trait PurrTrack<V: Copy>: Sized {
    /// The values on the line, in order.
    spec fn track_items(&self) -> Seq<V>;

    /// Where the cursor reads.
    spec fn track_cursor(&self) -> int;

    fn tr_new() -> (r: Self)
        ensures
            r.track_items() == Seq::<V>::empty(),
            r.track_cursor() == 0,
    ;

    fn tr_with_capacity(size: TrackCapacity) -> (r: Self)
        ensures
            r.track_items() == Seq::<V>::empty(),
            r.track_cursor() == 0,
    ;

    fn tr_get_cursor(&self) -> (r: usize)
        ensures
            r == self.track_cursor(),
    ;

    /// Moves the cursor; where it lands is the track's own rule, but it
    /// stays on the line. The line must not be empty.
    fn tr_set_cursor(&mut self, index: usize)
        requires
            old(self).track_items().len() > 0,
        ensures
            final(self).track_items() == old(self).track_items(),
            0 <= final(self).track_cursor() < final(self).track_items().len(),
    ;

    fn tr_step_cursor(&mut self)
        requires
            old(self).track_items().len() > 0,
            old(self).track_cursor() < usize::MAX,
        ensures
            final(self).track_items() == old(self).track_items(),
            0 <= final(self).track_cursor() < final(self).track_items().len(),
    ;

    fn tr_get(&self, index: usize) -> (r: Option<V>)
        ensures
            r == (if index < self.track_items().len() { Some(self.track_items()[index as int]) } else { None::<V> }),
    ;

    fn tr_get_ref(&self, index: usize) -> (r: Option<&V>)
        ensures
            r == (if index < self.track_items().len() { Some(&self.track_items()[index as int]) } else { None::<&V> }),
    ;

    fn tr_get_mut(&mut self, index: usize) -> (r: Option<&mut V>)
        ensures
            index < old(self).track_items().len() ==> {
                &&& r matches Some(v) && *v == old(self).track_items()[index as int]
                &&& final(self).track_items() == old(self).track_items().update(index as int, *final(r->0))
            },
            index >= old(self).track_items().len() ==> r is None && final(self).track_items() == old(self).track_items(),
    ;

    fn tr_get_current(&self) -> (r: Option<V>)
        ensures
            r == (if 0 <= self.track_cursor() < self.track_items().len() {
                Some(self.track_items()[self.track_cursor()])
            } else {
                None::<V>
            }),
    ;

    fn tr_get_current_ref(&self) -> (r: Option<&V>)
        ensures
            r == (if 0 <= self.track_cursor() < self.track_items().len() {
                Some(&self.track_items()[self.track_cursor()])
            } else {
                None::<&V>
            }),
    ;

    fn tr_get_current_mut(&mut self) -> (r: Option<&mut V>)
        ensures
            0 <= old(self).track_cursor() < old(self).track_items().len() ==> {
                &&& r matches Some(v) && *v == old(self).track_items()[old(self).track_cursor()]
                &&& final(self).track_items() == old(self).track_items().update(old(self).track_cursor(), *final(r->0))
            },
            !(0 <= old(self).track_cursor() < old(self).track_items().len()) ==> r is None && final(self).track_items() == old(self).track_items(),
    ;

    fn tr_as_slice(&self) -> (r: &[V])
        ensures
            r@ == self.track_items(),
    ;

    /// The line's values, to change in place; the line is what the slice
    /// holds once the caller is done with it.
    fn tr_as_mut_slice(&mut self) -> (r: &mut [V])
        ensures
            r@ == old(self).track_items(),
            final(self).track_items() == final(r)@,
    ;

    fn tr_extend(&mut self, values: &mut Vec<V>)
        ensures
            final(self).track_items() == old(self).track_items() + old(values)@,
            final(values)@ == Seq::<V>::empty(),
    ;

    fn tr_splice(&mut self, at: usize, values: &mut Vec<V>)
        requires
            at <= old(self).track_items().len(),
        ensures
            final(self).track_items() == old(self).track_items().take(at as int) + old(values)@ + old(self).track_items().skip(at as int),
            final(values)@ == Seq::<V>::empty(),
    ;

    fn tr_drain(&mut self, end: usize) -> (r: Vec<V>)
        requires
            end <= old(self).track_items().len(),
        ensures
            r@ == old(self).track_items().take(end as int),
            final(self).track_items() == old(self).track_items().skip(end as int),
    ;

    fn tr_len(&self) -> (r: usize)
        ensures
            r == self.track_items().len(),
    ;

    fn tr_is_empty(&self) -> (r: bool)
        ensures
            r == (self.track_items().len() == 0),
    ;

    /// Empties the line with the cursor at 0. The line must not be empty.
    fn tr_clear(&mut self)
        requires
            old(self).track_items().len() > 0,
        ensures
            final(self).track_items() == Seq::<V>::empty(),
            final(self).track_cursor() == 0,
    ;
}

/// A line of values with a cursor, as a train runs along it.
///
/// The cursor follows the rules of a cursored vector: `index` is where the
/// cursor points, and `capacity` is the bound that a new cursor position is
/// checked against; the bound is the line's length as of the last time the
/// cursor was set, so values added since then do not widen it.
#[derive(Debug)]
pub struct CursorLine<V> {
    pub items: Vec<V>,
    pub capacity: usize,
    pub index: usize,
}

impl<V: Copy> CursorLine<V> {
    /// The cursor as it reads: 0 on an empty line, else the index.
    pub open spec fn cursor_spec(&self) -> int {
        if self.items@.len() == 0 {
            0
        } else {
            self.index as int
        }
    }

    /// The index after the cursor is set to `c`: `c` when it is within the
    /// bound, else unchanged; then kept below the line's length.
    pub open spec fn index_after_set(&self, c: int) -> int {
        let moved = if c <= self.capacity { c } else { self.index as int };
        if moved >= self.items@.len() {
            self.items@.len() - 1
        } else {
            moved
        }
    }

    /// The value under the cursor, if there is one.
    pub open spec fn current_spec(&self) -> Option<V> {
        if 0 <= self.cursor_spec() < self.items@.len() {
            Some(self.items@[self.cursor_spec()])
        } else {
            None
        }
    }
}

impl<V: Copy> PurrTrack<V> for CursorLine<V> {
    open spec fn track_items(&self) -> Seq<V> {
        self.items@
    }

    open spec fn track_cursor(&self) -> int {
        self.cursor_spec()
    }

    fn tr_new() -> (r: Self)
        ensures
            r.items@ == Seq::<V>::empty(),
            r.capacity == 0,
            r.index == 0,
    {
        CursorLine { items: Vec::new(), capacity: 0, index: 0 }
    }

    /// A new line; the size hint does not change what the line holds.
    fn tr_with_capacity(size: TrackCapacity) -> (r: Self)
        ensures
            r.items@ == Seq::<V>::empty(),
            r.capacity == 0,
            r.index == 0,
    {
        Self::tr_new()
    }

    fn tr_get_cursor(&self) -> (r: usize)
        ensures r == self.cursor_spec(),
    {
        if self.items.len() == 0 {
            0
        } else {
            self.index
        }
    }

    /// Moves the cursor to `index` when that is within the bound, then takes
    /// the line's length as the new bound. The line must not be empty.
    fn tr_set_cursor(&mut self, index: usize)
        ensures
            final(self).items@ == old(self).items@,
            final(self).capacity == old(self).items@.len(),
            final(self).index == old(self).index_after_set(index as int),
    {
        if index <= self.capacity {
            self.index = index;
        }
        self.capacity = self.items.len();
        if self.index >= self.capacity {
            self.index = self.capacity - 1;
        }
    }

    /// Sets the cursor to one past where it reads.
    fn tr_step_cursor(&mut self)
        ensures
            final(self).items@ == old(self).items@,
            final(self).capacity == old(self).items@.len(),
            final(self).index == old(self).index_after_set(old(self).cursor_spec() + 1),
    {
        let index = self.tr_get_cursor();
        self.tr_set_cursor(index + 1);
    }

    fn tr_get(&self, index: usize) -> (r: Option<V>)
        ensures
            r == (if index < self.items@.len() { Some(self.items@[index as int]) } else { None::<V> }),
    {
        if index < self.items.len() {
            Some(self.items[index])
        } else {
            None
        }
    }

    fn tr_get_ref(&self, index: usize) -> (r: Option<&V>)
        ensures
            r == (if index < self.items@.len() { Some(&self.items@[index as int]) } else { None::<&V> }),
    {
        if index < self.items.len() {
            Some(&self.items[index])
        } else {
            None
        }
    }

    fn tr_get_mut(&mut self, index: usize) -> (r: Option<&mut V>)
        ensures
            index < old(self).items@.len() ==> {
                &&& r matches Some(v) && *v == old(self).items@[index as int]
                &&& final(self).items@ == old(self).items@.update(index as int, *final(r->0))
            },
            index >= old(self).items@.len() ==> r is None && final(self).items@ == old(self).items@,
            final(self).capacity == old(self).capacity,
            final(self).index == old(self).index,
    {
        if index < self.items.len() {
            Some(&mut self.items[index])
        } else {
            None
        }
    }

    fn tr_get_current(&self) -> (r: Option<V>)
        ensures r == self.current_spec(),
    {
        let index = self.tr_get_cursor();
        self.tr_get(index)
    }

    fn tr_get_current_ref(&self) -> (r: Option<&V>)
        ensures
            r == (match self.current_spec() { Some(v) => Some(&v), None => None::<&V> }),
    {
        let index = self.tr_get_cursor();
        self.tr_get_ref(index)
    }

    fn tr_get_current_mut(&mut self) -> (r: Option<&mut V>)
        ensures
            old(self).current_spec() matches Some(v) ==> {
                &&& r matches Some(w) && *w == v
                &&& final(self).items@ == old(self).items@.update(old(self).cursor_spec(), *final(r->0))
            },
            old(self).current_spec() is None ==> r is None && final(self).items@ == old(self).items@,
            final(self).capacity == old(self).capacity,
            final(self).index == old(self).index,
    {
        let index = self.tr_get_cursor();
        self.tr_get_mut(index)
    }

    fn tr_as_slice(&self) -> (r: &[V])
        ensures r@ == self.items@,
    {
        self.items.as_slice()
    }

    fn tr_as_mut_slice(&mut self) -> (r: &mut [V])
        ensures
            final(self).capacity == old(self).capacity,
            final(self).index == old(self).index,
    {
        self.items.as_mut_slice()
    }

    /// Moves all of `values` to the end of the line; the cursor is untouched.
    fn tr_extend(&mut self, values: &mut Vec<V>)
        ensures
            final(self).items@ == old(self).items@ + old(values)@,
            final(values)@ == Seq::<V>::empty(),
            final(self).capacity == old(self).capacity,
            final(self).index == old(self).index,
    {
        self.items.append(values);
    }

    /// Moves all of `values` into the line before position `at`; the cursor
    /// is untouched.
    fn tr_splice(&mut self, at: usize, values: &mut Vec<V>)
        ensures
            final(self).items@ == old(self).items@.take(at as int) + old(values)@ + old(self).items@.skip(at as int),
            final(values)@ == Seq::<V>::empty(),
            final(self).capacity == old(self).capacity,
            final(self).index == old(self).index,
    {
        let mut tail = self.items.split_off(at);
        self.items.append(values);
        self.items.append(&mut tail);
    }

    /// Takes the first `end` values off the line; the cursor is untouched.
    fn tr_drain(&mut self, end: usize) -> (r: Vec<V>)
        ensures
            r@ == old(self).items@.take(end as int),
            final(self).items@ == old(self).items@.skip(end as int),
            final(self).capacity == old(self).capacity,
            final(self).index == old(self).index,
    {
        let mut front = self.items.split_off(end);
        core::mem::swap(&mut front, &mut self.items);
        front
    }

    fn tr_len(&self) -> (r: usize)
        ensures r == self.items@.len(),
    {
        self.items.len()
    }

    fn tr_is_empty(&self) -> (r: bool)
        ensures r == (self.items@.len() == 0),
    {
        self.items.len() == 0
    }

    /// Sets the cursor to 0 and empties the line. The line must not be empty.
    fn tr_clear(&mut self)
        ensures
            final(self).items@ == Seq::<V>::empty(),
            final(self).capacity == old(self).items@.len(),
            final(self).index == 0,
    {
        self.tr_set_cursor(0);
        self.items.clear();
    }
}

} // verus!
