use vstd::prelude::*;

verus! {

/// A completion condition of a stage. `is_finished` may update the condition
/// (a timer rewinds itself when it reports completion).
pub trait PurrCondition {
    /// Whether the condition is in a state that a reset leaves it in. A
    /// condition kind that says nothing of its reset counts every state.
    open spec fn is_reset(&self) -> bool {
        true
    }

    fn is_finished(&mut self) -> bool;

    fn reset(&mut self)
        ensures
            final(self).is_reset(),
    ;
}

/// A condition that is finished at once.
#[derive(Debug, Clone, Copy, PartialEq, Eq, Default)]
pub struct InstantCondition;

impl PurrCondition for InstantCondition {
    fn is_finished(&mut self) -> (r: bool)
        ensures r,
    {
        true
    }

    fn reset(&mut self) {
    }
}

/// A condition that is finished while its flag is raised.
#[derive(Debug, Clone, Copy, PartialEq, Eq)]
pub struct PurrFlag {
    pub(crate) select_flag: bool,
}

impl PurrFlag {
    pub closed spec fn flag(&self) -> bool {
        self.select_flag
    }

    /// A lowered flag.
    pub fn new() -> (r: Self)
        ensures !r.flag(),
    {
        PurrFlag { select_flag: false }
    }

    pub fn get_flag(&self) -> (r: bool)
        ensures r == self.flag(),
    {
        self.select_flag
    }

    pub fn set_flag(&mut self, flag: bool)
        ensures final(self).flag() == flag,
    {
        self.select_flag = flag;
    }

    pub fn reverse_flag(&mut self)
        ensures final(self).flag() == !old(self).flag(),
    {
        self.select_flag = !self.select_flag;
    }
}

impl Default for PurrFlag {
    fn default() -> (r: Self)
        ensures !r.flag(),
    {
        PurrFlag::new()
    }
}

impl PurrCondition for PurrFlag {
    /// A reset flag is lowered.
    open spec fn is_reset(&self) -> bool {
        !self.flag()
    }

    fn is_finished(&mut self) -> (r: bool)
        ensures r == old(self).flag(), *final(self) == *old(self),
    {
        self.select_flag
    }

    fn reset(&mut self)
        ensures !final(self).flag(),
    {
        self.select_flag = false;
    }
}

} // verus!
