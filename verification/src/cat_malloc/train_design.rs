use vstd::prelude::*;
use std::collections::HashMap;

use crate::types::{PurrStep, lawful_step};
use crate::cat_malloc::train_types::PurrRule;

verus! {

/// The blueprint of one stage: its rule, and the stages it couples in front
/// of itself when it is baked.
#[derive(Debug, Clone, PartialEq)]
pub struct DesignBox<T: PurrStep, U: PurrRule> {
    pub rule: U,
    pub coupling: Option<Vec<T>>,
}

impl<T: PurrStep, U: PurrRule> DesignBox<T, U> {
    pub fn new(rule: U) -> (r: Self)
        ensures r.rule == rule, r.coupling is None,
    {
        DesignBox { rule, coupling: None }
    }

    pub fn set_coupling(&mut self, coupling: Vec<T>)
        ensures
            final(self).rule == old(self).rule,
            final(self).coupling == Some(coupling),
    {
        self.coupling = Some(coupling);
    }
}

/// The blueprints of all stages, by stage.
#[derive(Debug, Clone)]
pub struct PurrDesign<T: PurrStep, U: PurrRule> {
    pub blueprints: HashMap<T, DesignBox<T, U>>,
}

impl<T: PurrStep, U: PurrRule> PurrDesign<T, U> {
    pub fn new() -> (r: Self)
        ensures r.blueprints@ == Map::<T, DesignBox<T, U>>::empty(),
    {
        PurrDesign { blueprints: HashMap::new() }
    }

    /// A stage that bakes to itself alone.
    pub fn single(&mut self, parametr: T, rule: U)
        requires lawful_step::<T>(),
        ensures
            final(self).blueprints@ == old(self).blueprints@.insert(
                parametr,
                DesignBox { rule, coupling: None },
            ),
    {
        let design = DesignBox::new(rule);
        self.blueprints.insert(parametr, design);
    }

    /// A stage that bakes to the chains of `coupling`, in order, then itself.
    pub fn chain(&mut self, parametr: T, rule: U, coupling: Vec<T>)
        requires lawful_step::<T>(),
        ensures
            final(self).blueprints@ == old(self).blueprints@.insert(
                parametr,
                DesignBox { rule, coupling: Some(coupling) },
            ),
    {
        let mut design = DesignBox::new(rule);
        design.set_coupling(coupling);
        self.blueprints.insert(parametr, design);
    }

    pub fn design_chain(&mut self, parametr: T, design: DesignBox<T, U>)
        requires lawful_step::<T>(),
        ensures final(self).blueprints@ == old(self).blueprints@.insert(parametr, design),
    {
        self.blueprints.insert(parametr, design);
    }
}

impl<T: PurrStep, U: PurrRule> Default for PurrDesign<T, U> {
    fn default() -> (r: Self)
        ensures r.blueprints@ == Map::<T, DesignBox<T, U>>::empty(),
    {
        Self::new()
    }
}

} // verus!
