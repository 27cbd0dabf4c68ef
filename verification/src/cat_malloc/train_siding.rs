use vstd::prelude::*;

use crate::types::{PurrStep, lawful_step};
use crate::cat_malloc::train_error::{TrainError, TrainResult};
use crate::cat_malloc::train_route::{PurrRoute, RouteBox};
use crate::cat_malloc::train_types::{BufferMode, PurrRule, VECTOR_SIZE};

verus! {

broadcast use vstd::std_specs::hash::group_hash_axioms;

/// The rule that the last box of `boxes` for carriage `c` carries, or
/// `default` when none is for `c`.
pub open spec fn last_rule_for<T: PurrStep, U: PurrRule>(
    boxes: Seq<RouteBox<T, U>>,
    c: T,
    default: U,
) -> U
    decreases boxes.len(),
{
    if boxes.len() == 0 {
        default
    } else if boxes.last().carriage == c {
        boxes.last().rule
    } else {
        last_rule_for(boxes.drop_last(), c, default)
    }
}

/// A buffer where a train is assembled before it is attached.
#[derive(Debug, Clone)]
pub struct PurrSiding<T: PurrStep, U: PurrRule> {
    pub main_line: Vec<RouteBox<T, U>>,
}

impl<T: PurrStep, U: PurrRule> PurrSiding<T, U> {
    pub fn new(size: usize) -> (r: Self)
        ensures r.main_line@ == Seq::<RouteBox<T, U>>::empty(),
    {
        PurrSiding { main_line: Vec::with_capacity(size) }
    }

    /// Adds the baked route of `carriage` to the siding, after emptying it
    /// first in `Clear` mode. Refused, with the siding untouched, when the
    /// route holds no schedule for `carriage`.
    pub fn launch(&mut self, carriage: T, buffer_mode: BufferMode, purr_route: &PurrRoute<T, U>) -> (r: TrainResult<(), T>)
        requires
            lawful_step::<T>(),
        ensures
            purr_route.schedule@.contains_key(carriage) ==> {
                &&& r is Ok
                &&& final(self).main_line@ == (match buffer_mode {
                    BufferMode::Clear => Seq::<RouteBox<T, U>>::empty(),
                    BufferMode::Keep => old(self).main_line@,
                }) + purr_route.schedule@[carriage]@
            },
            !purr_route.schedule@.contains_key(carriage) ==> {
                &&& r == Err::<(), TrainError<T>>(TrainError::UnscheduledParam { carriage })
                &&& final(self).main_line@ == old(self).main_line@
            },
    {
        match purr_route.schedule.get(&carriage) {
            Some(branch) => {
                match buffer_mode {
                    BufferMode::Clear => self.clear_main_train(),
                    BufferMode::Keep => {},
                }
                let ghost start = self.main_line@;
                let mut i: usize = 0;
                while i < branch.len()
                    invariant
                        i <= branch.len(),
                        self.main_line@ == start + branch@.take(i as int),
                    decreases branch.len() - i,
                {
                    self.main_line.push(branch[i]);
                    i += 1;
                    assert(self.main_line@ =~= start + branch@.take(i as int));
                }
                assert(branch@.take(i as int) =~= branch@);
                Ok(())
            },
            None => Err(TrainError::UnscheduledParam { carriage }),
        }
    }

    /// Gives every box of `carriage` the rule `rule`.
    pub fn change_rule(&mut self, carriage: T, rule: U)
        requires
            lawful_step::<T>(),
        ensures
            final(self).main_line@.len() == old(self).main_line@.len(),
            forall|i: int| 0 <= i < old(self).main_line@.len() ==> #[trigger] final(self).main_line@[i] == (
                if old(self).main_line@[i].carriage == carriage {
                    RouteBox { rule, carriage }
                } else {
                    old(self).main_line@[i]
                }),
    {
        let ghost start = self.main_line@;
        let mut i: usize = 0;
        while i < self.main_line.len()
            invariant
                lawful_step::<T>(),
                i <= self.main_line@.len(),
                self.main_line@.len() == start.len(),
                forall|j: int| 0 <= j < start.len() ==> #[trigger] self.main_line@[j] == (
                    if j < i && start[j].carriage == carriage {
                        RouteBox { rule, carriage }
                    } else {
                        start[j]
                    }),
            decreases start.len() - i,
        {
            proof {
                reveal(vstd::laws_eq::obeys_concrete_eq);
            }
            let route_box = self.main_line[i];
            if carriage == route_box.carriage {
                self.main_line.set(i, RouteBox { rule, carriage: route_box.carriage });
            }
            i += 1;
        }
    }

    /// Gives every box the rule of the last box of `route_boxs` with the same
    /// carriage; boxes whose carriage none of them has keep their rule.
    pub fn change_rule_few(&mut self, route_boxs: &[RouteBox<T, U>])
        requires
            lawful_step::<T>(),
        ensures
            final(self).main_line@.len() == old(self).main_line@.len(),
            forall|i: int| 0 <= i < old(self).main_line@.len() ==> #[trigger] final(self).main_line@[i] == (RouteBox {
                rule: last_rule_for(route_boxs@, old(self).main_line@[i].carriage, old(self).main_line@[i].rule),
                carriage: old(self).main_line@[i].carriage,
            }),
    {
        let ghost start = self.main_line@;
        let mut i: usize = 0;
        while i < self.main_line.len()
            invariant
                lawful_step::<T>(),
                i <= self.main_line@.len(),
                self.main_line@.len() == start.len(),
                forall|j: int| 0 <= j < start.len() ==> #[trigger] self.main_line@[j] == (
                    if j < i {
                        (RouteBox {
                            rule: last_rule_for(route_boxs@, start[j].carriage, start[j].rule),
                            carriage: start[j].carriage,
                        })
                    } else {
                        start[j]
                    }),
            decreases start.len() - i,
        {
            let mut current = self.main_line[i];
            let mut j: usize = 0;
            while j < route_boxs.len()
                invariant
                    lawful_step::<T>(),
                    i < start.len(),
                    j <= route_boxs@.len(),
                    current.carriage == start[i as int].carriage,
                    current.rule == last_rule_for(route_boxs@.take(j as int), start[i as int].carriage, start[i as int].rule),
                decreases route_boxs@.len() - j,
            {
                proof {
                    reveal(vstd::laws_eq::obeys_concrete_eq);
                    assert(route_boxs@.take(j + 1).drop_last() =~= route_boxs@.take(j as int));
                }
                let route_box = route_boxs[j];
                if current.carriage == route_box.carriage {
                    current = RouteBox { rule: route_box.rule, carriage: current.carriage };
                }
                j += 1;
            }
            assert(route_boxs@.take(j as int) =~= route_boxs@);
            self.main_line.set(i, current);
            i += 1;
        }
    }

    pub fn clear_main_train(&mut self)
        ensures final(self).main_line@ == Seq::<RouteBox<T, U>>::empty(),
    {
        self.main_line.clear();
    }

    pub fn train_len(&self) -> (r: usize)
        ensures r == self.main_line@.len(),
    {
        self.main_line.len()
    }
}

impl<T: PurrStep, U: PurrRule> Default for PurrSiding<T, U> {
    fn default() -> (r: Self)
        ensures r.main_line@ == Seq::<RouteBox<T, U>>::empty(),
    {
        Self::new(VECTOR_SIZE)
    }
}

} // verus!
