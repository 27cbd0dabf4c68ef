use vstd::prelude::*;
use std::collections::HashMap;
use vstd::std_specs::convert::FromSpec;

use crate::types::{DuplicatePolicy, InsertPosition, PurrChainStep, PurrEvent, PurrStep, RumblePolicy, chain_of, lawful_step};
use crate::condition::{InstantCondition, PurrCondition};
use crate::cat_stage_manager::stage_graph::StageGraph;

verus! {

broadcast use vstd::std_specs::hash::group_hash_axioms;

/// `HashMap::get_mut`: the value under `k`, to change in place; a key that
/// is missing gives `None` and leaves the map as it was.
#[verifier::external_body]
fn map_get_mut<'a, K: core::cmp::Eq + core::hash::Hash, V>(m: &'a mut HashMap<K, V>, k: &K) -> (r: Option<&'a mut V>)
    requires
        vstd::std_specs::hash::obeys_key_model::<K>(),
    ensures
        old(m)@.contains_key(*k) ==> {
            &&& r.is_some()
            &&& *r.unwrap() == old(m)@[*k]
            &&& final(m)@ == old(m)@.insert(*k, *final(r.unwrap()))
        },
        !old(m)@.contains_key(*k) ==> r.is_none() && final(m)@ == old(m)@,
{
    m.get_mut(k)
}

/// The chain left of `chain` when it is added behind `queue`: under
/// `RemoveMatch` a first stage that repeats the queue's last stage is dropped.
pub open spec fn deduplicated<T>(queue: Seq<T>, chain: Seq<T>, policy: DuplicatePolicy) -> Seq<T> {
    match policy {
        DuplicatePolicy::KeepAll => chain,
        DuplicatePolicy::RemoveMatch => if chain.len() > 0 && queue.len() > 0 && chain[0] == queue.last() {
            chain.skip(1)
        } else {
            chain
        },
    }
}

/// Where `insert` puts a chain into a queue of length `len`.
pub open spec fn insert_index(position: InsertPosition, len: nat) -> int {
    match position {
        InsertPosition::Forward => 0,
        InsertPosition::Index(i) => if i > len { len as int } else { i as int },
    }
}

/// The stages of `s` in the order they first occur.
pub open spec fn first_occurrences<T>(s: Seq<T>) -> Seq<T>
    decreases s.len(),
{
    if s.len() == 0 {
        Seq::empty()
    } else {
        let p = first_occurrences(s.drop_last());
        if p.contains(s.last()) { p } else { p.push(s.last()) }
    }
}

/// The edges between consecutive stages of `s`, each once, in the order
/// they are first met.
pub open spec fn chain_edges<T>(s: Seq<T>) -> Seq<(T, T)>
    decreases s.len(),
{
    if s.len() < 2 {
        Seq::empty()
    } else {
        let p = chain_edges(s.drop_last());
        let e = (s[s.len() - 2], s.last());
        if p.contains(e) { p } else { p.push(e) }
    }
}

/// The stages of a chain's nodes.
pub open spec fn node_stages<T, K>(nodes: Seq<(T, Option<K>)>) -> Seq<T> {
    nodes.map_values(|n: (T, Option<K>)| n.0)
}

/// The last condition that the nodes give `stage`, if any.
pub open spec fn last_condition<T, K>(nodes: Seq<(T, Option<K>)>, stage: T) -> Option<K>
    decreases nodes.len(),
{
    if nodes.len() == 0 {
        None
    } else if nodes.last().0 == stage && nodes.last().1 is Some {
        nodes.last().1
    } else {
        last_condition(nodes.drop_last(), stage)
    }
}

proof fn lemma_first_occurrences<T>(s: Seq<T>)
    ensures
        first_occurrences(s).len() <= s.len(),
        forall|x: T| first_occurrences(s).contains(x) <==> s.contains(x),
    decreases s.len(),
{
    if s.len() > 0 {
        let d = s.drop_last();
        let l = s.last();
        let p = first_occurrences(d);
        lemma_first_occurrences(d);
        assert forall|x: T| first_occurrences(s).contains(x) <==> s.contains(x) by {
            if x == l {
                assert(s[s.len() - 1] == x);
                if !p.contains(l) {
                    assert(p.push(l)[p.len() as int] == x);
                }
            } else {
                if s.contains(x) {
                    let k = choose|k: int| 0 <= k < s.len() && s[k] == x;
                    assert(d[k] == x);
                    assert(d.contains(x));
                    assert(p.contains(x));
                    let m = choose|m: int| 0 <= m < p.len() && p[m] == x;
                    assert(p.push(l)[m] == x);
                }
                if first_occurrences(s).contains(x) {
                    let m = choose|m: int| 0 <= m < first_occurrences(s).len() && first_occurrences(s)[m] == x;
                    if !p.contains(l) {
                        assert(m < p.len());
                        assert(p[m] == x);
                    }
                    assert(p.contains(x));
                    assert(d.contains(x));
                    let k = choose|k: int| 0 <= k < d.len() && d[k] == x;
                    assert(s[k] == x);
                }
            }
        }
    }
}

proof fn lemma_last_condition_stage<T, K>(nodes: Seq<(T, Option<K>)>, stage: T)
    ensures
        last_condition(nodes, stage) is Some ==> node_stages(nodes).contains(stage),
    decreases nodes.len(),
{
    if nodes.len() > 0 {
        lemma_last_condition_stage(nodes.drop_last(), stage);
        if last_condition(nodes, stage) is Some {
            if nodes.last().0 == stage && nodes.last().1 is Some {
                assert(node_stages(nodes)[nodes.len() - 1] == stage);
            } else {
                let k = choose|k: int| 0 <= k < node_stages(nodes.drop_last()).len() && node_stages(nodes.drop_last())[k] == stage;
                assert(node_stages(nodes)[k] == stage);
            }
        }
    }
}

/// A queue of stages driven by their conditions, the dependency graph that
/// pushing a stage follows, and nested managers by index.
#[derive(Debug)]
pub struct StageManager<T: PurrStep, K> {
    pub(crate) vector_stage: Vec<T>,
    pub(crate) graph: StageGraph<T>,
    pub(crate) conditions: HashMap<T, K>,
    pub(crate) sub_managers: HashMap<usize, Box<StageManager<T, K>>>,
}

impl<T: PurrStep, K: PurrCondition + From<InstantCondition>> StageManager<T, K> {
    /// The queue, front first.
    pub closed spec fn queue(&self) -> Seq<T> {
        self.vector_stage@
    }

    /// The registered stages and their dependencies.
    pub closed spec fn stage_graph(&self) -> StageGraph<T> {
        self.graph
    }

    /// The condition of each stage that has one.
    pub closed spec fn conditions(&self) -> Map<T, K> {
        self.conditions@
    }

    /// The nested managers by index.
    pub closed spec fn sub_managers(&self) -> Map<usize, Box<StageManager<T, K>>> {
        self.sub_managers@
    }

    pub fn new() -> (r: Self)
        ensures
            r.queue() == Seq::<T>::empty(),
            r.stage_graph().stages() == Seq::<T>::empty(),
            r.stage_graph().edges() == Seq::<(usize, usize)>::empty(),
            r.conditions() == Map::<T, K>::empty(),
            r.sub_managers() == Map::<usize, Box<StageManager<T, K>>>::empty(),
    {
        StageManager {
            vector_stage: Vec::new(),
            graph: StageGraph::new(),
            conditions: HashMap::new(),
            sub_managers: HashMap::new(),
        }
    }

    /// What `add_to_graph` makes of `pre` for `stage` (its nested managers
    /// aside).
    pub open spec fn added_to_graph(pre: Self, post: Self, stage: T) -> bool {
        if pre.stage_graph().stages().contains(stage) {
            &&& post.stage_graph() == pre.stage_graph()
            &&& post.conditions() =~= pre.conditions()
            &&& post.queue() =~= pre.queue()
        } else {
            &&& post.stage_graph().stages() =~= pre.stage_graph().stages().push(stage)
            &&& post.stage_graph().edges() =~= pre.stage_graph().edges()
            &&& post.conditions().dom() =~= pre.conditions().dom().insert(stage)
            &&& forall|s: T| s != stage && #[trigger] pre.conditions().contains_key(s) ==> post.conditions()[s] == pre.conditions()[s]
            &&& K::obeys_from_spec() ==> post.conditions()[stage] == K::from_spec(InstantCondition)
            &&& post.queue() =~= pre.queue()
        }
    }

    /// Registers `stage` with an instant condition; a registered stage is
    /// left as it is.
    pub fn add_to_graph(&mut self, stage: T)
        requires
            lawful_step::<T>(),
            !old(self).stage_graph().stages().contains(stage) ==> old(self).stage_graph().stages().len() < u32::MAX,
        ensures
            Self::added_to_graph(*old(self), *final(self), stage),
            final(self).sub_managers() == old(self).sub_managers(),
    {
        if self.graph.contains(&stage) {
            return;
        }
        let mut graph = StageGraph::new();
        core::mem::swap(&mut graph, &mut self.graph);
        self.graph = graph.with_stage(stage);
        self.set_condition(stage, K::from(InstantCondition));
    }

    /// Makes `to` depend on `from`: pushing `to` queues `from` first. Stages
    /// that are not registered, and an edge already there, change nothing.
    pub fn add_dependency(&mut self, from: T, to: T)
        requires
            lawful_step::<T>(),
            old(self).stage_graph().edges().len() < u32::MAX,
        ensures
            final(self).stage_graph().stages() == old(self).stage_graph().stages(),
            ({
                let g = old(self).stage_graph();
                if g.stages().contains(from) && g.stages().contains(to) && !g.stage_edges().contains((from, to)) {
                    &&& final(self).stage_graph().stage_edges() == g.stage_edges().push((from, to))
                    &&& final(self).stage_graph().edges().len() == g.edges().len() + 1
                } else {
                    final(self).stage_graph() == g
                }
            }),
            final(self).queue() == old(self).queue(),
            final(self).conditions() == old(self).conditions(),
            final(self).sub_managers() == old(self).sub_managers(),
    {
        let mut graph = StageGraph::new();
        core::mem::swap(&mut graph, &mut self.graph);
        self.graph = graph.with_edge(from, to);
    }

    /// Sets the condition of `stage`.
    pub fn set_condition(&mut self, stage: T, condition: K)
        requires
            lawful_step::<T>(),
        ensures
            final(self).conditions() == old(self).conditions().insert(stage, condition),
            final(self).queue() == old(self).queue(),
            final(self).stage_graph() == old(self).stage_graph(),
            final(self).sub_managers() == old(self).sub_managers(),
    {
        self.conditions.insert(stage, condition);
    }

    pub fn get_condition(&self, stage: T) -> (r: Option<&K>)
        requires
            lawful_step::<T>(),
        ensures
            r == (if self.conditions().contains_key(stage) { Some(&self.conditions()[stage]) } else { None::<&K> }),
    {
        self.conditions.get(&stage)
    }

    pub fn get_condition_mut(&mut self, stage: T) -> (r: Option<&mut K>)
        requires
            lawful_step::<T>(),
        ensures
            old(self).conditions().contains_key(stage) ==> {
                &&& r.is_some()
                &&& *r.unwrap() == old(self).conditions()[stage]
                &&& final(self).conditions() == old(self).conditions().insert(stage, *final(r.unwrap()))
            },
            !old(self).conditions().contains_key(stage) ==> r.is_none() && final(self).conditions() == old(self).conditions(),
            final(self).queue() == old(self).queue(),
            final(self).stage_graph() == old(self).stage_graph(),
            final(self).sub_managers() == old(self).sub_managers(),
    {
        map_get_mut(&mut self.conditions, &stage)
    }

    /// One step of a queue `queue` whose conditions are `conds`, once it is
    /// known whether the front stage is `finished`: `post` and its report
    /// `r`. An empty queue is idle. An unfinished front stage is running and
    /// nothing changes. A finished one leaves the queue and the transition
    /// names the next stage; the next stage's condition is left reset, and
    /// no other condition changes.
    pub open spec fn stepped(queue: Seq<T>, conds: Map<T, K>, post: Self, r: PurrEvent<T>, finished: bool) -> bool {
        &&& post.conditions().dom() =~= conds.dom()
        &&& if queue.len() == 0 {
            &&& r == PurrEvent::<T>::Idle
            &&& post.queue() =~= queue
            &&& post.conditions() =~= conds
        } else if !finished {
            &&& r == PurrEvent::<T>::Running(queue[0])
            &&& post.queue() =~= queue
            &&& post.conditions() =~= conds
        } else {
            let next = if queue.len() > 1 { Some(queue[1]) } else { None::<T> };
            &&& r == (PurrEvent::<T>::Transition { from: queue[0], to: next })
            &&& post.queue() =~= queue.skip(1)
            &&& forall|s: T| #[trigger] conds.contains_key(s) && next != Some(s) ==> post.conditions()[s] == conds[s]
            &&& queue.len() > 1 && conds.contains_key(queue[1]) ==> post.conditions()[queue[1]].is_reset()
        }
    }

    /// What `update` makes of `pre`, reporting `r`: with no front stage, or
    /// no condition on it, nothing changes and the manager is idle;
    /// otherwise the front stage's condition is asked, which may change it
    /// to some `c`, and the queue steps on its answer `f`.
    pub open spec fn updated(pre: Self, post: Self, r: PurrEvent<T>) -> bool {
        &&& post.stage_graph() == pre.stage_graph()
        &&& post.sub_managers() =~= pre.sub_managers()
        &&& if pre.queue().len() == 0 || !pre.conditions().contains_key(pre.queue()[0]) {
            &&& r == PurrEvent::<T>::Idle
            &&& post.queue() =~= pre.queue()
            &&& post.conditions() =~= pre.conditions()
        } else {
            exists|c: K, f: bool| #[trigger] Self::stepped(pre.queue(), pre.conditions().insert(pre.queue()[0], c), post, r, f)
        }
    }

    /// One step of the queue once the front stage's condition has answered
    /// `finished`: an unfinished front stage is running; a finished one
    /// leaves the queue, the next stage's condition is reset, and the
    /// transition names both.
    pub fn update_with(&mut self, finished: bool) -> (r: PurrEvent<T>)
        requires
            lawful_step::<T>(),
        ensures
            Self::stepped(old(self).queue(), old(self).conditions(), *final(self), r, finished),
            final(self).stage_graph() == old(self).stage_graph(),
            final(self).sub_managers() == old(self).sub_managers(),
    {
        if self.vector_stage.len() == 0 {
            return PurrEvent::Idle;
        }
        let front = self.vector_stage[0];
        if finished {
            let next_stage = if self.vector_stage.len() > 1 { Some(self.vector_stage[1]) } else { None };
            self.vector_stage.remove(0);
            assert(self.vector_stage@ =~= old(self).vector_stage@.skip(1));
            if let Some(next) = next_stage {
                if let Some(next_condition) = map_get_mut(&mut self.conditions, &next) {
                    next_condition.reset();
                }
            }
            PurrEvent::Transition { from: front, to: next_stage }
        } else {
            PurrEvent::Running(front)
        }
    }

    /// One update of the queue. With an empty queue, or no condition on the
    /// front stage, nothing changes and the manager is idle. Otherwise the
    /// front stage's condition is asked (and may update itself), and the
    /// queue steps on its answer as `update_with` does.
    pub fn update(&mut self) -> (r: PurrEvent<T>)
        requires
            lawful_step::<T>(),
        ensures
            Self::updated(*old(self), *final(self), r),
    {
        if self.vector_stage.len() == 0 {
            return PurrEvent::Idle;
        }
        let front = self.vector_stage[0];
        let finished = match map_get_mut(&mut self.conditions, &front) {
            Some(condition) => condition.is_finished(),
            None => return PurrEvent::Idle,
        };
        let ghost asked = self.conditions@;
        let r = self.update_with(finished);
        assert(asked == old(self).conditions().insert(front, asked[front]));
        assert(Self::stepped(old(self).queue(), old(self).conditions().insert(old(self).queue()[0], asked[front]), *self, r, finished));
        r
    }

    pub fn current_vec_query(&self) -> (r: &[T])
        ensures r@ == self.queue(),
    {
        self.vector_stage.as_slice()
    }

    pub fn len_vec_query(&self) -> (r: usize)
        ensures r == self.queue().len(),
    {
        self.vector_stage.len()
    }

    pub fn query_is_empty(&self) -> (r: bool)
        ensures r == (self.queue().len() == 0),
    {
        self.vector_stage.len() == 0
    }

    pub fn first_vec_query(&self) -> (r: Option<&T>)
        ensures r == (if self.queue().len() > 0 { Some(&self.queue()[0]) } else { None::<&T> }),
    {
        if self.vector_stage.len() > 0 {
            Some(&self.vector_stage[0])
        } else {
            None
        }
    }

    pub fn last_vec_query(&self) -> (r: Option<&T>)
        ensures r == (if self.queue().len() > 0 { Some(&self.queue().last()) } else { None::<&T> }),
    {
        let len = self.vector_stage.len();
        if len > 0 {
            Some(&self.vector_stage[len - 1])
        } else {
            None
        }
    }

    pub fn next_vec_query(&self) -> (r: Option<&T>)
        ensures r == (if self.queue().len() > 1 { Some(&self.queue()[1]) } else { None::<&T> }),
    {
        if self.vector_stage.len() > 1 {
            Some(&self.vector_stage[1])
        } else {
            None
        }
    }

    pub fn contains_stage(&self, stage: &T) -> (r: bool)
        requires
            lawful_step::<T>(),
        ensures
            r == self.queue().contains(*stage),
    {
        let mut i: usize = 0;
        while i < self.vector_stage.len()
            invariant
                lawful_step::<T>(),
                i <= self.vector_stage@.len(),
                forall|j: int| 0 <= j < i ==> self.vector_stage@[j] != *stage,
            decreases self.vector_stage@.len() - i,
        {
            proof {
                reveal(vstd::laws_eq::obeys_concrete_eq);
            }
            if self.vector_stage[i] == *stage {
                assert(self.vector_stage@[i as int] == *stage);
                return true;
            }
            i += 1;
        }
        false
    }

    pub fn clear_query(&mut self)
        ensures
            final(self).queue() == Seq::<T>::empty(),
            final(self).stage_graph() == old(self).stage_graph(),
            final(self).conditions() == old(self).conditions(),
            final(self).sub_managers() == old(self).sub_managers(),
    {
        self.vector_stage.clear();
    }

    /// Drops the first stage of `new_stages` under `RemoveMatch` when it
    /// repeats the queue's last stage.
    fn check_duplicate(&self, new_stages: &mut Vec<T>, duplicate_policy: DuplicatePolicy)
        requires
            lawful_step::<T>(),
        ensures
            final(new_stages)@ == deduplicated(self.queue(), old(new_stages)@, duplicate_policy),
    {
        match duplicate_policy {
            DuplicatePolicy::KeepAll => {},
            DuplicatePolicy::RemoveMatch => {
                let len = self.vector_stage.len();
                if new_stages.len() == 0 || len == 0 {
                    return;
                }
                proof {
                    reveal(vstd::laws_eq::obeys_concrete_eq);
                }
                if new_stages[0] == self.vector_stage[len - 1] {
                    new_stages.remove(0);
                    assert(new_stages@ =~= old(new_stages)@.skip(1));
                }
            },
        }
    }

    /// The chain that pushing `target` queues (see `StageGraph::dependencies`).
    fn calculate_dependencies(&self, target: T) -> (r: Vec<T>)
        requires
            lawful_step::<T>(),
        ensures
            r@ == self.stage_graph().dependencies(target),
            self.stage_graph().dependencies_sound(target),
    {
        self.graph.calculate_dependencies(target)
    }

    /// Adds the chain of `target` behind the queue.
    pub fn push(&mut self, target: T, duplicate_policy: DuplicatePolicy)
        requires
            lawful_step::<T>(),
        ensures
            old(self).stage_graph().dependencies_sound(target),
            final(self).queue() == old(self).queue() + deduplicated(
                old(self).queue(),
                old(self).stage_graph().dependencies(target),
                duplicate_policy,
            ),
            old(self).stage_graph().stages().contains(target) ==> {
                &&& final(self).queue().len() > 0
                &&& final(self).queue().last() == target
            },
            final(self).stage_graph() == old(self).stage_graph(),
            final(self).conditions() == old(self).conditions(),
            final(self).sub_managers() == old(self).sub_managers(),
    {
        let mut new_stages = self.calculate_dependencies(target);
        let ghost chain = new_stages@;
        self.check_duplicate(&mut new_stages, duplicate_policy);
        let ghost kept = new_stages@;
        self.vector_stage.append(&mut new_stages);
        proof {
            let q = old(self).vector_stage@;
            if chain.len() > 0 && kept.len() == 0 {
                assert(chain.len() == 1 && q.len() > 0 && chain[0] == q.last());
                assert(self.vector_stage@ =~= q);
            } else if kept.len() > 0 {
                assert(kept.last() == chain.last());
                assert(self.vector_stage@.last() == kept.last());
            }
        }
    }

    /// Replaces the queue with the chain of `target`.
    pub fn push_and_delete(&mut self, target: T)
        requires
            lawful_step::<T>(),
        ensures
            old(self).stage_graph().dependencies_sound(target),
            final(self).queue() == old(self).stage_graph().dependencies(target),
            final(self).stage_graph() == old(self).stage_graph(),
            final(self).conditions() == old(self).conditions(),
            final(self).sub_managers() == old(self).sub_managers(),
    {
        let new_stages = self.calculate_dependencies(target);
        self.vector_stage = new_stages;
    }

    /// Puts the chain of `target` into the queue at the front, or at an
    /// index (the end when the index is past it). The duplicate check looks
    /// at the queue's last stage wherever the chain goes.
    pub fn insert(&mut self, target: T, duplicate_policy: DuplicatePolicy, index: InsertPosition)
        requires
            lawful_step::<T>(),
        ensures
            old(self).stage_graph().dependencies_sound(target),
            final(self).queue() == ({
                let q = old(self).queue();
                let at = insert_index(index, q.len());
                q.take(at) + deduplicated(q, old(self).stage_graph().dependencies(target), duplicate_policy) + q.skip(at)
            }),
            final(self).stage_graph() == old(self).stage_graph(),
            final(self).conditions() == old(self).conditions(),
            final(self).sub_managers() == old(self).sub_managers(),
    {
        let mut new_stages = self.calculate_dependencies(target);
        self.check_duplicate(&mut new_stages, duplicate_policy);
        let len = self.len_vec_query();
        let target_index = match index {
            InsertPosition::Forward => 0,
            InsertPosition::Index(idx) => if idx > len { len } else { idx },
        };
        let mut tail = self.vector_stage.split_off(target_index);
        self.vector_stage.append(&mut new_stages);
        self.vector_stage.append(&mut tail);
    }

    /// Keeps `sub_manager` under the smallest index that is free, and
    /// returns that index.
    pub fn register_sub_manager(&mut self, sub_manager: StageManager<T, K>) -> (r: usize)
        ensures
            !old(self).sub_managers().contains_key(r),
            forall|j: usize| j < r ==> old(self).sub_managers().contains_key(j),
            final(self).sub_managers() == old(self).sub_managers().insert(r, Box::new(sub_manager)),
            final(self).queue() == old(self).queue(),
            final(self).stage_graph() == old(self).stage_graph(),
            final(self).conditions() == old(self).conditions(),
    {
        let count = self.sub_managers.len();
        let mut new_id: usize = 0;
        if count != 0 {
            while self.sub_managers.contains_key(&new_id)
                invariant
                    count == self.sub_managers@.len(),
                    self.sub_managers@.dom().finite(),
                    forall|j: usize| j < new_id ==> self.sub_managers@.contains_key(j),
                decreases usize::MAX - new_id,
            {
                if new_id == usize::MAX {
                    proof {
                        lemma_full_prefix_len(self.sub_managers@, new_id);
                    }
                    assert(false);
                }
                new_id += 1;
            }
        }
        self.sub_managers.insert(new_id, Box::new(sub_manager));
        new_id
    }

    pub fn get_sub_manager(&self, sub_manager_index: usize) -> (r: Option<&Box<StageManager<T, K>>>)
        ensures
            r == (if self.sub_managers().contains_key(sub_manager_index) {
                Some(&self.sub_managers()[sub_manager_index])
            } else {
                None::<&Box<StageManager<T, K>>>
            }),
    {
        self.sub_managers.get(&sub_manager_index)
    }

    pub fn get_sub_manager_mut(&mut self, sub_manager_index: usize) -> (r: Option<&mut Box<StageManager<T, K>>>)
        ensures
            old(self).sub_managers().contains_key(sub_manager_index) ==> {
                &&& r.is_some()
                &&& *r.unwrap() == old(self).sub_managers()[sub_manager_index]
                &&& final(self).sub_managers() == old(self).sub_managers().insert(sub_manager_index, *final(r.unwrap()))
            },
            !old(self).sub_managers().contains_key(sub_manager_index) ==> r.is_none() && final(self).sub_managers() == old(self).sub_managers(),
            final(self).queue() == old(self).queue(),
            final(self).stage_graph() == old(self).stage_graph(),
            final(self).conditions() == old(self).conditions(),
    {
        map_get_mut(&mut self.sub_managers, &sub_manager_index)
    }

    /// Whether the queue is not empty and the two indices agree.
    pub fn sub_manager_is_first(&self, first_index: usize, sub_manager_index: usize) -> (r: bool)
        ensures
            r == (self.queue().len() > 0 && first_index == sub_manager_index),
    {
        if self.vector_stage.len() == 0 {
            return false;
        }
        if first_index != sub_manager_index {
            return false;
        }
        true
    }

    /// Drops the nested manager at an index; says whether there was one.
    pub fn remove_sub_manager(&mut self, sub_manager_index: usize) -> (r: bool)
        ensures
            r == old(self).sub_managers().contains_key(sub_manager_index),
            final(self).sub_managers() == old(self).sub_managers().remove(sub_manager_index),
            final(self).queue() == old(self).queue(),
            final(self).stage_graph() == old(self).stage_graph(),
            final(self).conditions() == old(self).conditions(),
    {
        let removed_manager = self.sub_managers.remove(&sub_manager_index);
        removed_manager.is_some()
    }

    /// Takes the nested manager at an index out.
    pub fn remove_sub_manager_get(&mut self, sub_manager_index: usize) -> (r: Option<Box<StageManager<T, K>>>)
        ensures
            r == (if old(self).sub_managers().contains_key(sub_manager_index) {
                Some(old(self).sub_managers()[sub_manager_index])
            } else {
                None::<Box<StageManager<T, K>>>
            }),
            final(self).sub_managers() == old(self).sub_managers().remove(sub_manager_index),
            final(self).queue() == old(self).queue(),
            final(self).stage_graph() == old(self).stage_graph(),
            final(self).conditions() == old(self).conditions(),
    {
        self.sub_managers.remove(&sub_manager_index)
    }
}

impl<T: PurrStep, K: PurrCondition + From<InstantCondition>> StageManager<T, K> {
    /// `m` is the nested manager built from `nodes`: an empty queue, the
    /// nodes' stages registered in the order they first occur, each with
    /// the last condition a node gives it (an instant one when none does),
    /// and a dependency from each node's stage to the next one's.
    pub open spec fn is_chain_of(m: Self, nodes: Seq<(T, Option<K>)>) -> bool {
        &&& m.queue() == Seq::<T>::empty()
        &&& m.sub_managers() == Map::<usize, Box<StageManager<T, K>>>::empty()
        &&& m.stage_graph().stages() == first_occurrences(node_stages(nodes))
        &&& m.stage_graph().stage_edges() == chain_edges(node_stages(nodes))
        &&& forall|s: T| #[trigger] m.conditions().contains_key(s) <==> node_stages(nodes).contains(s)
        &&& forall|s: T| #[trigger] m.conditions().contains_key(s) ==> match last_condition(nodes, s) {
            Some(c) => m.conditions()[s] == c,
            None => K::obeys_from_spec() ==> m.conditions()[s] == K::from_spec(InstantCondition),
        }
    }

    /// Builds the nested manager of `nodes` (see `is_chain_of`).
    fn chain_manager(nodes: Vec<(T, Option<K>)>) -> (r: Self)
        requires
            lawful_step::<T>(),
            nodes@.len() < u32::MAX,
        ensures
            Self::is_chain_of(r, nodes@),
    {
        let ghost all = nodes@;
        let n = nodes.len();
        let mut nodes = nodes;
        let mut sub: Self = StageManager::new();
        let mut stages: Vec<T> = Vec::new();
        let mut i: usize = 0;
        while i < n
            invariant
                lawful_step::<T>(),
                n == all.len(),
                n < u32::MAX,
                i <= n,
                nodes@ == all.skip(i as int),
                stages@ == node_stages(all.take(i as int)),
                sub.queue() == Seq::<T>::empty(),
                sub.sub_managers() == Map::<usize, Box<StageManager<T, K>>>::empty(),
                sub.stage_graph().stages() == first_occurrences(stages@),
                sub.stage_graph().edges() == Seq::<(usize, usize)>::empty(),
                forall|s: T| #[trigger] sub.conditions().contains_key(s) <==> stages@.contains(s),
                forall|s: T| #[trigger] sub.conditions().contains_key(s) ==> match last_condition(all.take(i as int), s) {
                    Some(c) => sub.conditions()[s] == c,
                    None => K::obeys_from_spec() ==> sub.conditions()[s] == K::from_spec(InstantCondition),
                },
            decreases n - i,
        {
            let ghost pre = all.take(i as int);
            let ghost post = all.take(i + 1);
            proof {
                lemma_first_occurrences(stages@);
                assert(all.skip(i as int)[0] == all[i as int]);
                assert(all.skip(i as int).skip(1) =~= all.skip(i + 1));
                assert(post.drop_last() =~= pre);
                assert(node_stages(post) =~= node_stages(pre).push(all[i as int].0));
            }
            let (stage, condition) = nodes.remove(0);
            sub.add_to_graph(stage);
            let ghost mid = sub;
            match condition {
                Some(c) => sub.set_condition(stage, c),
                None => {},
            }
            let ghost before = stages@;
            stages.push(stage);
            proof {
                assert(stages@.drop_last() =~= before);
                lemma_first_occurrences(stages@);
                assert forall|s: T| #[trigger] sub.conditions().contains_key(s) <==> stages@.contains(s) by {
                    if s == stage {
                        assert(stages@[stages@.len() - 1] == stage);
                    }
                    if stages@.contains(s) && s != stage {
                        let k = choose|k: int| 0 <= k < stages@.len() && stages@[k] == s;
                        assert(node_stages(pre)[k] == s);
                    }
                    if node_stages(pre).contains(s) {
                        let k = choose|k: int| 0 <= k < node_stages(pre).len() && node_stages(pre)[k] == s;
                        assert(stages@[k] == s);
                    }
                }
                assert forall|s: T| #[trigger] sub.conditions().contains_key(s) implies match last_condition(post, s) {
                    Some(c) => sub.conditions()[s] == c,
                    None => K::obeys_from_spec() ==> sub.conditions()[s] == K::from_spec(InstantCondition),
                } by {
                    lemma_last_condition_stage(pre, s);
                    if s != stage {
                        assert(last_condition(post, s) == last_condition(pre, s));
                        assert(node_stages(pre).contains(s));
                    }
                }
            }
            i += 1;
        }
        proof {
            assert(all.take(n as int) =~= all);
        }
        let mut j: usize = 0;
        let ghost st = stages@;
        if n > 0 {
            proof {
                lemma_first_occurrences(st);
                assert(chain_edges(st.take(1)) =~= Seq::<(T, T)>::empty());
                assert(sub.stage_graph().stage_edges() =~= Seq::<(T, T)>::empty());
            }
            while j + 1 < n
                invariant
                    lawful_step::<T>(),
                    n == st.len(),
                    0 < n < u32::MAX,
                    j + 1 <= n,
                    stages@ == st,
                    forall|x: T| sub.stage_graph().stages().contains(x) <==> st.contains(x),
                    sub.stage_graph().stage_edges() == chain_edges(st.take(j + 1)),
                    sub.stage_graph().edges().len() <= j,
                    sub.queue() == Seq::<T>::empty(),
                    sub.sub_managers() == Map::<usize, Box<StageManager<T, K>>>::empty(),
                    sub.stage_graph().stages() == first_occurrences(st),
                    forall|s: T| #[trigger] sub.conditions().contains_key(s) <==> st.contains(s),
                    forall|s: T| #[trigger] sub.conditions().contains_key(s) ==> match last_condition(all, s) {
                        Some(c) => sub.conditions()[s] == c,
                        None => K::obeys_from_spec() ==> sub.conditions()[s] == K::from_spec(InstantCondition),
                    },
                decreases n - j,
            {
                let from = stages[j];
                let to = stages[j + 1];
                proof {
                    assert(st.contains(st[j as int]));
                    assert(st.contains(st[j + 1]));
                    let t = st.take(j + 2);
                    assert(t.drop_last() =~= st.take(j + 1));
                    assert(t[t.len() - 2] == from);
                    assert(t.last() == to);
                }
                sub.add_dependency(from, to);
                j += 1;
            }
            proof {
                assert(st.take(n as int) =~= st);
            }
        } else {
            proof {
                assert(sub.stage_graph().stage_edges() =~= Seq::<(T, T)>::empty());
            }
        }
        sub
    }
}

impl<T: PurrChainStep, K: PurrCondition + From<InstantCondition>> StageManager<T, K> {
    /// Builds a nested manager from `nodes` (see `is_chain_of`), keeps it
    /// under the smallest free index, registers the chain stage for that
    /// index here, and returns that stage.
    pub fn new_purr_chain(&mut self, nodes: Vec<(T, Option<K>)>) -> (r: T)
        requires
            lawful_step::<T>(),
            nodes@.len() < u32::MAX,
            old(self).stage_graph().stages().len() < u32::MAX,
        ensures
            exists|idx: usize| {
                &&& r == T::chain_stage(idx)
                &&& !old(self).sub_managers().contains_key(idx)
                &&& forall|j: usize| j < idx ==> old(self).sub_managers().contains_key(j)
                &&& final(self).sub_managers().dom() == old(self).sub_managers().dom().insert(idx)
                &&& forall|j: usize| j != idx && #[trigger] old(self).sub_managers().contains_key(j)
                    ==> final(self).sub_managers()[j] == old(self).sub_managers()[j]
                &&& Self::is_chain_of(*final(self).sub_managers()[idx], nodes@)
            },
            Self::added_to_graph(*old(self), *final(self), r),
    {
        let sub = Self::chain_manager(nodes);
        let ghost sub_spec = sub;
        let idx = self.register_sub_manager(sub);
        let stage = T::purr_chain(idx);
        self.add_to_graph(stage);
        assert(self.sub_managers()[idx] == Box::new(sub_spec));
        stage
    }

    /// The nested manager that a rumble of the chain stage `stage` runs: the
    /// one `stage` stands for, while `stage` is queued, the queue's front is
    /// a chain stage too, that front is `stage` itself unless the policy is
    /// parallel, and a nested manager is kept under the index.
    pub open spec fn rumble_index(&self, stage: T, policy: RumblePolicy) -> Option<usize> {
        if !self.queue().contains(stage) || self.queue().len() == 0 {
            None
        } else {
            match (chain_of(stage), chain_of(self.queue()[0])) {
                (Some(i), Some(j)) => {
                    if policy is StrictOrder && j != i {
                        None
                    } else if self.sub_managers().contains_key(i) {
                        Some(i)
                    } else {
                        None
                    }
                },
                _ => None,
            }
        }
    }

    /// The nested manager to run for the chain stage `stage` under `policy`
    /// (see `rumble_index`).
    pub fn rumble_target(&self, stage: T, policy: RumblePolicy) -> (r: Option<usize>)
        requires
            lawful_step::<T>(),
        ensures
            r == self.rumble_index(stage, policy),
    {
        if !self.contains_stage(&stage) {
            return None;
        }
        let sub_manager_index = match stage.chain_index() {
            Some(i) => i,
            None => return None,
        };
        proof {
            T::lemma_chain_stage_injective(sub_manager_index, chain_of(stage)->0);
        }
        let first_index = match self.first_vec_query() {
            Some(first) => match first.chain_index() {
                Some(j) => j,
                None => return None,
            },
            None => return None,
        };
        proof {
            T::lemma_chain_stage_injective(first_index, chain_of(self.queue()[0])->0);
        }
        let strict = match policy {
            RumblePolicy::StrictOrder => true,
            RumblePolicy::Parallel => false,
        };
        if strict && !self.sub_manager_is_first(first_index, sub_manager_index) {
            return None;
        }
        if self.sub_managers.contains_key(&sub_manager_index) {
            Some(sub_manager_index)
        } else {
            None
        }
    }

    /// Updates the nested manager under `index` and reports its event, with
    /// whether the chain stage `stage`'s flag is to be raised: when the
    /// nested queue is idle while `stage` is still queued here.
    pub fn rumble_update(&mut self, stage: T, index: usize) -> (r: (PurrEvent<T>, bool))
        requires
            lawful_step::<T>(),
            old(self).sub_managers().contains_key(index),
        ensures
            final(self).sub_managers().dom() == old(self).sub_managers().dom(),
            Self::updated(*old(self).sub_managers()[index], *final(self).sub_managers()[index], r.0),
            forall|j: usize| j != index && #[trigger] old(self).sub_managers().contains_key(j)
                ==> final(self).sub_managers()[j] == old(self).sub_managers()[j],
            r.1 == (r.0 is Idle && old(self).queue().contains(stage)),
            final(self).queue() == old(self).queue(),
            final(self).stage_graph() == old(self).stage_graph(),
            final(self).conditions() == old(self).conditions(),
    {
        let sub_box = self.sub_managers.remove(&index).unwrap();
        let mut sub = *sub_box;
        let event = sub.update();
        self.sub_managers.insert(index, Box::new(sub));
        let raise = match event {
            PurrEvent::Idle => self.contains_stage(&stage),
            _ => false,
        };
        (event, raise)
    }
}

impl<T: PurrStep, K: PurrCondition + From<InstantCondition>> Default for StageManager<T, K> {
    fn default() -> (r: Self)
        ensures
            r.queue() == Seq::<T>::empty(),
            r.stage_graph().stages() == Seq::<T>::empty(),
            r.conditions() == Map::<T, K>::empty(),
            r.sub_managers() == Map::<usize, Box<StageManager<T, K>>>::empty(),
    {
        Self::new()
    }
}

/// Inserting a chain at an index at or past the end of the queue queues it
/// as pushing it does.
pub proof fn lemma_insert_past_end_is_push<T>(queue: Seq<T>, chain: Seq<T>, policy: DuplicatePolicy, i: usize)
    requires
        i >= queue.len(),
    ensures
        ({
            let at = insert_index(InsertPosition::Index(i), queue.len());
            queue.take(at) + deduplicated(queue, chain, policy) + queue.skip(at)
        }) == queue + deduplicated(queue, chain, policy),
{
    assert(queue.take(queue.len() as int) =~= queue);
    assert(queue.skip(queue.len() as int) =~= Seq::<T>::empty());
    assert(queue + deduplicated(queue, chain, policy) + Seq::<T>::empty() =~= queue + deduplicated(queue, chain, policy));
}

/// When the front stage is finished and a next stage with a condition
/// follows, the step hands over to it and leaves its condition reset,
/// whichever stage it is (the finished one again included).
pub proof fn lemma_finished_step_resets_next<T: PurrStep, K: PurrCondition + From<InstantCondition>>(
    queue: Seq<T>,
    conds: Map<T, K>,
    post: StageManager<T, K>,
    r: PurrEvent<T>,
)
    requires
        StageManager::stepped(queue, conds, post, r, true),
        queue.len() > 1,
        conds.contains_key(queue[1]),
    ensures
        r == (PurrEvent::Transition { from: queue[0], to: Some(queue[1]) }),
        post.queue() == queue.subrange(1, queue.len() as int),
        post.conditions().contains_key(queue[1]),
        post.conditions()[queue[1]].is_reset(),
{
    assert(queue.skip(1) =~= queue.subrange(1, queue.len() as int));
}

/// An unfinished front stage runs, and nothing changes.
pub proof fn lemma_unfinished_step_runs<T: PurrStep, K: PurrCondition + From<InstantCondition>>(
    queue: Seq<T>,
    conds: Map<T, K>,
    post: StageManager<T, K>,
    r: PurrEvent<T>,
)
    requires
        StageManager::stepped(queue, conds, post, r, false),
        queue.len() > 0,
    ensures
        r == PurrEvent::Running(queue[0]),
        post.queue() == queue,
        post.conditions() == conds,
{
}

/// Under `RemoveMatch` a chain that starts with the queue's last stage is
/// queued without that first stage, whatever its length; any other chain,
/// and any chain under `KeepAll`, is queued whole.
pub proof fn lemma_remove_match_drops_repeat<T>(queue: Seq<T>, chain: Seq<T>)
    ensures
        queue.len() > 0 && chain.len() > 0 && chain[0] == queue.last()
            ==> deduplicated(queue, chain, DuplicatePolicy::RemoveMatch) == chain.subrange(1, chain.len() as int),
        !(queue.len() > 0 && chain.len() > 0 && chain[0] == queue.last())
            ==> deduplicated(queue, chain, DuplicatePolicy::RemoveMatch) == chain,
        deduplicated(queue, chain, DuplicatePolicy::KeepAll) == chain,
{
    if queue.len() > 0 && chain.len() > 0 && chain[0] == queue.last() {
        assert(chain.skip(1) =~= chain.subrange(1, chain.len() as int));
    }
}

/// Pushing the queue's last stage when it has no dependencies, under
/// `RemoveMatch`, leaves the queue as it was.
pub proof fn lemma_remove_match_single_repeat<T>(queue: Seq<T>, stage: T)
    requires
        queue.len() > 0,
        queue.last() == stage,
    ensures
        queue + deduplicated(queue, seq![stage], DuplicatePolicy::RemoveMatch) == queue,
{
    assert(seq![stage].skip(1) =~= Seq::<T>::empty());
    assert(queue + Seq::<T>::empty() =~= queue);
}

/// Inserting a chain at the front puts it before the whole queue.
pub proof fn lemma_insert_forward_prepends<T>(queue: Seq<T>, chain: Seq<T>, policy: DuplicatePolicy)
    ensures
        ({
            let at = insert_index(InsertPosition::Forward, queue.len());
            queue.take(at) + deduplicated(queue, chain, policy) + queue.skip(at)
        }) == deduplicated(queue, chain, policy) + queue,
{
    assert(queue.take(0) =~= Seq::<T>::empty());
    assert(queue.skip(0) =~= queue);
    assert(Seq::<T>::empty() + deduplicated(queue, chain, policy) =~= deduplicated(queue, chain, policy));
}

/// Under the strict order a rumble runs only the chain at the front of the
/// queue, and it runs the nested manager that chain stands for.
pub proof fn lemma_strict_rumble_runs_front<T: PurrChainStep, K: PurrCondition + From<InstantCondition>>(
    m: StageManager<T, K>,
    stage: T,
)
    requires
        m.rumble_index(stage, RumblePolicy::StrictOrder) is Some,
    ensures
        m.queue().len() > 0,
        m.queue()[0] == stage,
        stage == T::chain_stage(m.rumble_index(stage, RumblePolicy::StrictOrder)->0),
        m.sub_managers().contains_key(m.rumble_index(stage, RumblePolicy::StrictOrder)->0),
{
}

/// The indices `0..=n` are `n + 1` indices.
proof fn lemma_upto_len(n: usize)
    ensures
        Set::new(|k: usize| k <= n).finite(),
        Set::new(|k: usize| k <= n).len() == n + 1,
    decreases n,
{
    if n == 0 {
        assert(Set::new(|k: usize| k <= n) =~= Set::empty().insert(0usize));
    } else {
        lemma_upto_len((n - 1) as usize);
        assert(Set::new(|k: usize| k <= n) =~= Set::new(|k: usize| k <= (n - 1) as usize).insert(n));
    }
}

/// A map that holds every index up to `n` holds more than `n` entries.
proof fn lemma_full_prefix_len<V>(m: Map<usize, V>, n: usize)
    requires
        m.dom().finite(),
        forall|j: usize| j <= n ==> m.contains_key(j),
    ensures
        m.dom().len() > n,
{
    lemma_upto_len(n);
    vstd::set_lib::lemma_len_subset(Set::new(|k: usize| k <= n), m.dom());
}

} // verus!
