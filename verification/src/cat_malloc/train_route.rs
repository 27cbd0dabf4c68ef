use vstd::prelude::*;
use std::collections::HashMap;
use vstd::std_specs::iter::IteratorSpec;

use crate::types::{PurrStep, lawful_step};
use crate::cat_malloc::train_design::{DesignBox, PurrDesign};
use crate::cat_malloc::train_error::TrainError;
use crate::cat_malloc::train_types::PurrRule;

verus! {

broadcast use {
    vstd::std_specs::hash::group_hash_axioms,
    vstd::seq_lib::group_seq_properties,
    vstd::set_lib::group_set_lib_default,
};

/// One carriage of a baked route: a stage and the rule that ends it.
#[derive(Debug, Clone, Copy, PartialEq)]
pub struct RouteBox<T: PurrStep, U: PurrRule> {
    pub rule: U,
    pub carriage: T,
}

impl<T: PurrStep, U: PurrRule> RouteBox<T, U> {
    pub fn new(rule: U, carriage: T) -> (r: Self)
        ensures r == (RouteBox { rule, carriage }),
    {
        RouteBox { rule, carriage }
    }
}

/// The coupling list of a blueprint, as a sequence (empty when there is none).
pub open spec fn coupling_of<T: PurrStep, U: PurrRule>(db: DesignBox<T, U>) -> Seq<T> {
    match db.coupling {
        Some(v) => v@,
        None => Seq::empty(),
    }
}

/// How many stages of the design are not on the stack `visited`.
pub open spec fn unvisited_count<T: PurrStep, U: PurrRule>(
    bp: Map<T, DesignBox<T, U>>,
    visited: Seq<T>,
) -> nat {
    bp.dom().difference(visited.to_set()).len()
}

pub proof fn lemma_unvisited_count_push<T: PurrStep, U: PurrRule>(
    bp: Map<T, DesignBox<T, U>>,
    visited: Seq<T>,
    p: T,
)
    requires
        bp.dom().finite(),
        bp.contains_key(p),
        !visited.contains(p),
    ensures
        unvisited_count(bp, visited.push(p)) < unvisited_count(bp, visited),
{
    let d = bp.dom().difference(visited.to_set());
    visited.lemma_push_to_set_commute(p);
    assert(bp.dom().difference(visited.push(p).to_set()) =~= d.remove(p));
    assert(d.contains(p));
}

/// The outcome of baking stage `p` while the stages of `visited` are being
/// baked: the result, the carriages added to the bake buffer, and the stack
/// left behind (the stack is unchanged on success).
pub open spec fn baked_stage<T: PurrStep, U: PurrRule>(
    bp: Map<T, DesignBox<T, U>>,
    visited: Seq<T>,
    p: T,
) -> (Result<(), TrainError<T>>, Seq<RouteBox<T, U>>, Seq<T>)
    decreases unvisited_count(bp, visited), 0nat,
    when bp.dom().finite()
{
    if visited.contains(p) {
        (Err(TrainError::RecursiveStage { carriage: p }), Seq::empty(), visited)
    } else if !bp.contains_key(p) {
        (Ok(()), Seq::empty(), visited)
    } else {
        proof {
            lemma_unvisited_count_push(bp, visited, p);
        }
        let inner = baked_list(bp, visited.push(p), coupling_of(bp[p]));
        if inner.0 is Err {
            inner
        } else {
            (Ok(()), inner.1.push(RouteBox { rule: bp[p].rule, carriage: p }), visited)
        }
    }
}

/// The outcome of baking the stages of `list` in order, stopping at the first
/// refusal.
pub open spec fn baked_list<T: PurrStep, U: PurrRule>(
    bp: Map<T, DesignBox<T, U>>,
    visited: Seq<T>,
    list: Seq<T>,
) -> (Result<(), TrainError<T>>, Seq<RouteBox<T, U>>, Seq<T>)
    decreases unvisited_count(bp, visited), list.len() + 1,
    when bp.dom().finite()
{
    if list.len() == 0 {
        (Ok(()), Seq::empty(), visited)
    } else {
        let first = baked_stage(bp, visited, list[0]);
        if first.0 is Err {
            first
        } else {
            let rest = baked_list(bp, visited, list.skip(1));
            if rest.0 is Err {
                (rest.0, first.1 + rest.1, rest.2)
            } else {
                (Ok(()), first.1 + rest.1, visited)
            }
        }
    }
}

/// The route that stage `p` of the design bakes to from an empty stack.
pub open spec fn baked_route<T: PurrStep, U: PurrRule>(
    bp: Map<T, DesignBox<T, U>>,
    p: T,
) -> (Result<(), TrainError<T>>, Seq<RouteBox<T, U>>, Seq<T>) {
    baked_stage(bp, Seq::empty(), p)
}

/// Every carriage that baking adds is a stage of the design and carries that
/// stage's rule, and a bake that succeeds leaves the stack as it found it.
pub proof fn lemma_baked_stage_from_design<T: PurrStep, U: PurrRule>(
    bp: Map<T, DesignBox<T, U>>,
    visited: Seq<T>,
    p: T,
)
    requires
        bp.dom().finite(),
    ensures
        ({
            let o = baked_stage(bp, visited, p);
            &&& o.0 is Ok ==> o.2 == visited
            &&& forall|i: int| 0 <= i < o.1.len() ==> {
                &&& bp.contains_key(#[trigger] o.1[i].carriage)
                &&& o.1[i].rule == bp[o.1[i].carriage].rule
            }
        }),
    decreases unvisited_count(bp, visited), 0nat,
{
    if !visited.contains(p) && bp.contains_key(p) {
        lemma_unvisited_count_push(bp, visited, p);
        lemma_baked_list_from_design(bp, visited.push(p), coupling_of(bp[p]));
    }
}

/// The list form of `lemma_baked_stage_from_design`.
pub proof fn lemma_baked_list_from_design<T: PurrStep, U: PurrRule>(
    bp: Map<T, DesignBox<T, U>>,
    visited: Seq<T>,
    list: Seq<T>,
)
    requires
        bp.dom().finite(),
    ensures
        ({
            let o = baked_list(bp, visited, list);
            &&& o.0 is Ok ==> o.2 == visited
            &&& forall|i: int| 0 <= i < o.1.len() ==> {
                &&& bp.contains_key(#[trigger] o.1[i].carriage)
                &&& o.1[i].rule == bp[o.1[i].carriage].rule
            }
        }),
    decreases unvisited_count(bp, visited), list.len() + 1,
{
    if list.len() > 0 {
        lemma_baked_stage_from_design(bp, visited, list[0]);
        let first = baked_stage(bp, visited, list[0]);
        if first.0 is Ok {
            lemma_baked_list_from_design(bp, visited, list.skip(1));
            let rest = baked_list(bp, visited, list.skip(1));
            assert forall|i: int| 0 <= i < first.1.len() + rest.1.len() implies {
                &&& bp.contains_key(#[trigger] (first.1 + rest.1)[i].carriage)
                &&& (first.1 + rest.1)[i].rule == bp[(first.1 + rest.1)[i].carriage].rule
            } by {
                if i < first.1.len() {
                    assert((first.1 + rest.1)[i] == first.1[i]);
                } else {
                    assert((first.1 + rest.1)[i] == rest.1[i - first.1.len()]);
                }
            }
        }
    }
}

/// A stage without a blueprint that is not on the stack bakes to nothing and
/// is not refused.
pub proof fn lemma_unplanned_stage_bakes_nothing<T: PurrStep, U: PurrRule>(
    bp: Map<T, DesignBox<T, U>>,
    visited: Seq<T>,
    p: T,
)
    requires
        bp.dom().finite(),
        !bp.contains_key(p),
        !visited.contains(p),
    ensures
        baked_stage(bp, visited, p) == (Ok::<(), TrainError<T>>(()), Seq::<RouteBox<T, U>>::empty(), visited),
{
}

/// In a list, a stage without a blueprint that is not on the stack is
/// passed over: the list bakes as the rest of it does.
pub proof fn lemma_list_passes_unplanned<T: PurrStep, U: PurrRule>(
    bp: Map<T, DesignBox<T, U>>,
    visited: Seq<T>,
    list: Seq<T>,
)
    requires
        bp.dom().finite(),
        list.len() > 0,
        !bp.contains_key(list[0]),
        !visited.contains(list[0]),
    ensures
        baked_list(bp, visited, list) == baked_list(bp, visited, list.subrange(1, list.len() as int)),
{
    assert(list.skip(1) =~= list.subrange(1, list.len() as int));
    lemma_baked_list_from_design(bp, visited, list.skip(1));
    let rest = baked_list(bp, visited, list.skip(1));
    let first = baked_stage(bp, visited, list[0]);
    assert(first == (Ok::<(), TrainError<T>>(()), Seq::<RouteBox<T, U>>::empty(), visited));
    assert(first.1 + rest.1 =~= rest.1);
    if rest.0 is Err {
        assert(baked_list(bp, visited, list) == (rest.0, first.1 + rest.1, rest.2));
    } else {
        assert(baked_list(bp, visited, list) == (Ok::<(), TrainError<T>>(()), first.1 + rest.1, visited));
    }
}

/// Baking refuses only a stage met again while it is on the stack: every
/// refusal is a `RecursiveStage`.
pub proof fn lemma_bake_refuses_only_recursion<T: PurrStep, U: PurrRule>(
    bp: Map<T, DesignBox<T, U>>,
    visited: Seq<T>,
    p: T,
)
    requires
        bp.dom().finite(),
    ensures
        baked_stage(bp, visited, p).0 is Err ==> baked_stage(bp, visited, p).0 matches Err(TrainError::RecursiveStage { .. }),
    decreases unvisited_count(bp, visited), 0nat,
{
    if !visited.contains(p) && bp.contains_key(p) {
        lemma_unvisited_count_push(bp, visited, p);
        lemma_list_refuses_only_recursion(bp, visited.push(p), coupling_of(bp[p]));
    }
}

/// The list form of `lemma_bake_refuses_only_recursion`.
pub proof fn lemma_list_refuses_only_recursion<T: PurrStep, U: PurrRule>(
    bp: Map<T, DesignBox<T, U>>,
    visited: Seq<T>,
    list: Seq<T>,
)
    requires
        bp.dom().finite(),
    ensures
        baked_list(bp, visited, list).0 is Err ==> baked_list(bp, visited, list).0 matches Err(TrainError::RecursiveStage { .. }),
    decreases unvisited_count(bp, visited), list.len() + 1,
{
    if list.len() > 0 {
        lemma_bake_refuses_only_recursion(bp, visited, list[0]);
        if baked_stage(bp, visited, list[0]).0 is Ok {
            lemma_list_refuses_only_recursion(bp, visited, list.skip(1));
        }
    }
}

/// A successful route of a stage with a blueprint ends with that stage and
/// its rule.
pub proof fn lemma_baked_route_ends_with_stage<T: PurrStep, U: PurrRule>(
    bp: Map<T, DesignBox<T, U>>,
    p: T,
)
    requires
        bp.dom().finite(),
        bp.contains_key(p),
        baked_route(bp, p).0 is Ok,
    ensures
        baked_route(bp, p).1.len() > 0,
        baked_route(bp, p).1.last() == (RouteBox { rule: bp[p].rule, carriage: p }),
{
}

/// Baking a list that holds a stage still on the stack is refused.
pub proof fn lemma_list_with_visited_refused<T: PurrStep, U: PurrRule>(
    bp: Map<T, DesignBox<T, U>>,
    visited: Seq<T>,
    list: Seq<T>,
    k: int,
)
    requires
        bp.dom().finite(),
        0 <= k < list.len(),
        visited.contains(list[k]),
    ensures
        baked_list(bp, visited, list).0 is Err,
    decreases list.len(),
{
    let first = baked_stage(bp, visited, list[0]);
    if k > 0 && first.0 is Ok {
        assert(list.skip(1)[k - 1] == list[k]);
        lemma_list_with_visited_refused(bp, visited, list.skip(1), k - 1);
    }
}

/// A stage that couples itself into its own chain cannot be baked.
pub proof fn lemma_self_coupling_refused<T: PurrStep, U: PurrRule>(
    bp: Map<T, DesignBox<T, U>>,
    p: T,
)
    requires
        bp.dom().finite(),
        bp.contains_key(p),
        coupling_of(bp[p]).contains(p),
    ensures
        baked_route(bp, p).0 is Err,
{
    let list = coupling_of(bp[p]);
    let k = choose|k: int| 0 <= k < list.len() && list[k] == p;
    let visited = Seq::<T>::empty().push(p);
    assert(visited[0] == p);
    lemma_list_with_visited_refused(bp, visited, list, k);
}

/// Baked routes by stage, with the buffers that baking uses.
#[derive(Debug, Clone)]
pub struct PurrRoute<T: PurrStep, U: PurrRule> {
    pub schedule: HashMap<T, Vec<RouteBox<T, U>>>,
    pub bake_buffer: Vec<RouteBox<T, U>>,
    pub visited_buffer: Vec<T>,
}

fn vec_contains<T: PurrStep>(v: &Vec<T>, x: &T) -> (r: bool)
    requires
        lawful_step::<T>(),
    ensures
        r == v@.contains(*x),
{
    let mut i: usize = 0;
    while i < v.len()
        invariant
            i <= v.len(),
            lawful_step::<T>(),
            forall|j: int| 0 <= j < i ==> v@[j] != *x,
        decreases v.len() - i,
    {
        proof {
            reveal(vstd::laws_eq::obeys_concrete_eq);
        }
        if v[i] == *x {
            assert(v@[i as int] == *x);
            return true;
        }
        i += 1;
    }
    false
}

fn copy_boxes<T: PurrStep, U: PurrRule>(v: &Vec<RouteBox<T, U>>) -> (r: Vec<RouteBox<T, U>>)
    ensures
        r@ == v@,
{
    let mut r: Vec<RouteBox<T, U>> = Vec::new();
    let mut i: usize = 0;
    while i < v.len()
        invariant
            i <= v.len(),
            r@ == v@.take(i as int),
        decreases v.len() - i,
    {
        r.push(v[i]);
        i += 1;
        assert(r@ =~= v@.take(i as int));
    }
    assert(r@ =~= v@);
    r
}

impl<T: PurrStep, U: PurrRule> PurrRoute<T, U> {
    pub fn new() -> (r: Self)
        ensures
            r.schedule@ == Map::<T, Vec<RouteBox<T, U>>>::empty(),
            r.bake_buffer@ == Seq::<RouteBox<T, U>>::empty(),
            r.visited_buffer@ == Seq::<T>::empty(),
    {
        PurrRoute { schedule: HashMap::new(), bake_buffer: Vec::new(), visited_buffer: Vec::new() }
    }

    /// Bakes every stage of the design from an empty stack and keeps the
    /// routes by stage. Succeeds exactly when every stage bakes; on a refusal
    /// it stops with that stage's error, keeping the routes baked before it.
    pub fn construct_schedule(&mut self, purr_design: &PurrDesign<T, U>) -> (r: Result<(), TrainError<T>>)
        requires
            lawful_step::<T>(),
        ensures
            ({
                let bp = purr_design.blueprints@;
                &&& r is Ok <==> (forall|k: T| bp.contains_key(k) ==> (#[trigger] baked_route(bp, k)).0 is Ok)
                &&& r is Ok ==> final(self).schedule@.dom() == bp.dom()
                &&& forall|k: T| #[trigger] final(self).schedule@.contains_key(k) ==> {
                    &&& bp.contains_key(k)
                    &&& baked_route(bp, k).0 is Ok
                    &&& final(self).schedule@[k]@ == baked_route(bp, k).1
                }
                &&& bp.dom().len() == 0 ==> {
                    &&& final(self).bake_buffer@ == old(self).bake_buffer@
                    &&& final(self).visited_buffer@ == old(self).visited_buffer@
                }
                &&& bp.dom().len() > 0 ==> exists|k: T| {
                    &&& bp.contains_key(k)
                    &&& r == (#[trigger] baked_route(bp, k)).0
                    &&& final(self).bake_buffer@ == baked_route(bp, k).1
                    &&& final(self).visited_buffer@ == baked_route(bp, k).2
                }
            }),
    {
        let ghost bp = purr_design.blueprints@;
        let ghost ks = vstd::std_specs::hash::spec_keys_iter(&purr_design.blueprints).remaining();
        let ghost bake0 = self.bake_buffer@;
        let ghost vis0 = self.visited_buffer@;
        proof {
            assert(bp.dom().finite());
            assert(ks.unref().to_set() == bp.dom());
            assert(ks.no_duplicates());
        }
        self.schedule.clear();
        for parametr in it: purr_design.blueprints.keys()
            invariant
                lawful_step::<T>(),
                bp == purr_design.blueprints@,
                bp.dom().finite(),
                it.seq() == ks,
                ks.unref().to_set() == bp.dom(),
                ks.len() == bp.dom().len(),
                forall|j: int| 0 <= j < it.index() ==> #[trigger] self.schedule@.contains_key(*ks[j]),
                forall|k: T| #[trigger] self.schedule@.contains_key(k) ==> {
                    &&& bp.contains_key(k)
                    &&& baked_route(bp, k).0 is Ok
                    &&& self.schedule@[k]@ == baked_route(bp, k).1
                },
                it.index() == 0 ==> self.bake_buffer@ == bake0 && self.visited_buffer@ == vis0,
                it.index() > 0 ==> {
                    &&& baked_route(bp, *ks[it.index() - 1]).0 is Ok
                    &&& self.bake_buffer@ == baked_route(bp, *ks[it.index() - 1]).1
                    &&& self.visited_buffer@ == baked_route(bp, *ks[it.index() - 1]).2
                },
        {
            let ghost j = it.index();
            assert(*parametr == *ks[j]);
            assert(ks.unref()[j] == *ks[j]);
            assert(bp.contains_key(*parametr));
            self.bake_buffer.clear();
            self.visited_buffer.clear();
            assert(self.visited_buffer@ =~= Seq::<T>::empty());
            let res = Self::bake_stage(parametr, purr_design, &mut self.bake_buffer, &mut self.visited_buffer);
            assert(self.bake_buffer@ =~= baked_route(bp, *parametr).1);
            if res.is_err() {
                return res;
            }
            let baked = copy_boxes(&self.bake_buffer);
            self.schedule.insert(*parametr, baked);
        }
        proof {
            assert forall|k: T| bp.contains_key(k) implies #[trigger] self.schedule@.contains_key(k) by {
                assert(ks.unref().to_set().contains(k));
                let j = choose|j: int| 0 <= j < ks.unref().len() && ks.unref()[j] == k;
                assert(self.schedule@.contains_key(*ks[j]));
            }
            assert(self.schedule@.dom() =~= bp.dom());
            if bp.dom().len() > 0 {
                let k = *ks[ks.len() - 1];
                assert(bp.contains_key(k));
            }
        }
        Ok(())
    }

    /// Appends to `bake_buffer` the carriages that `parametr` bakes to: the
    /// chains of its coupling in order, then itself. A stage without a
    /// blueprint bakes to nothing; a stage met again on the stack is refused.
    pub fn bake_stage(
        parametr: &T,
        purr_design: &PurrDesign<T, U>,
        bake_buffer: &mut Vec<RouteBox<T, U>>,
        visited_buffer: &mut Vec<T>,
    ) -> (r: Result<(), TrainError<T>>)
        requires
            lawful_step::<T>(),
        ensures
            ({
                let o = baked_stage(purr_design.blueprints@, old(visited_buffer)@, *parametr);
                &&& r == o.0
                &&& final(bake_buffer)@ == old(bake_buffer)@ + o.1
                &&& final(visited_buffer)@ == o.2
            }),
        decreases unvisited_count(purr_design.blueprints@, old(visited_buffer)@),
    {
        let ghost bp = purr_design.blueprints@;
        let ghost vis0 = visited_buffer@;
        let ghost bake0 = bake_buffer@;
        proof {
            assert(bp.dom().finite());
        }
        if vec_contains(visited_buffer, parametr) {
            return Err(TrainError::RecursiveStage { carriage: *parametr });
        }
        match purr_design.blueprints.get(parametr) {
            None => {
                Ok(())
            },
            Some(design_box) => {
                proof {
                    lemma_unvisited_count_push(bp, vis0, *parametr);
                }
                visited_buffer.push(*parametr);
                let ghost vis1 = visited_buffer@;
                let ghost list = coupling_of(*design_box);
                assert(list == coupling_of(bp[*parametr]));
                match &design_box.coupling {
                    Some(route_vec) => {
                        let mut i: usize = 0;
                        while i < route_vec.len()
                            invariant
                                lawful_step::<T>(),
                                bp == purr_design.blueprints@,
                                bp.dom().finite(),
                                list == route_vec@,
                                i <= route_vec.len(),
                                visited_buffer@ == vis1,
                                vis1 == vis0.push(*parametr),
                                old(visited_buffer)@ == vis0,
                                old(bake_buffer)@ == bake0,
                                !vis0.contains(*parametr),
                                bp.contains_key(*parametr),
                                bp[*parametr] == *design_box,
                                list == coupling_of(bp[*parametr]),
                                unvisited_count(bp, vis1) < unvisited_count(bp, vis0),
                                bake_buffer@.len() >= bake0.len(),
                                bake_buffer@.take(bake0.len() as int) == bake0,
                                baked_list(bp, vis1, list) == ({
                                    let x = baked_list(bp, vis1, list.skip(i as int));
                                    (x.0, bake_buffer@.skip(bake0.len() as int) + x.1, x.2)
                                }),
                            decreases route_vec.len() - i,
                        {
                            let ghost before = bake_buffer@;
                            let ghost rest = list.skip(i as int);
                            assert(rest[0] == list[i as int]);
                            assert(rest.skip(1) =~= list.skip(i + 1));
                            assert(unvisited_count(bp, visited_buffer@) < unvisited_count(bp, vis0));
                            let res = Self::bake_stage(&route_vec[i], purr_design, bake_buffer, visited_buffer);
                            let ghost first = baked_stage(bp, vis1, list[i as int]);
                            assert(baked_list(bp, vis1, rest) == ({
                                if first.0 is Err {
                                    first
                                } else {
                                    let more = baked_list(bp, vis1, rest.skip(1));
                                    if more.0 is Err {
                                        (more.0, first.1 + more.1, more.2)
                                    } else {
                                        (Ok(()), first.1 + more.1, vis1)
                                    }
                                }
                            }));
                            assert(bake_buffer@.take(bake0.len() as int) =~= bake0);
                            if res.is_err() {
                                assert(bake_buffer@.skip(bake0.len() as int) =~= before.skip(bake0.len() as int) + baked_stage(bp, vis1, list[i as int]).1);
                                assert(baked_list(bp, vis1, rest) == first);
                                assert(baked_stage(bp, vis0, *parametr) == baked_list(bp, vis1, list));
                                return res;
                            }
                            i += 1;
                            assert(bake_buffer@.skip(bake0.len() as int) =~= before.skip(bake0.len() as int) + baked_stage(bp, vis1, list[i - 1]).1);
                        }
                        assert(list.skip(i as int) =~= Seq::<T>::empty());
                    },
                    None => {
                        assert(bake_buffer@.skip(bake0.len() as int) =~= Seq::<RouteBox<T, U>>::empty());
                    },
                }
                visited_buffer.pop();
                assert(visited_buffer@ =~= vis0);
                let route_box = RouteBox::new(design_box.rule, *parametr);
                bake_buffer.push(route_box);
                assert(bake_buffer@ =~= bake0 + baked_list(bp, vis1, list).1.push(route_box));
                Ok(())
            },
        }
    }
}

impl<T: PurrStep, U: PurrRule> Default for PurrRoute<T, U> {
    fn default() -> (r: Self)
        ensures
            r.schedule@ == Map::<T, Vec<RouteBox<T, U>>>::empty(),
            r.bake_buffer@ == Seq::<RouteBox<T, U>>::empty(),
            r.visited_buffer@ == Seq::<T>::empty(),
    {
        Self::new()
    }
}

} // verus!
