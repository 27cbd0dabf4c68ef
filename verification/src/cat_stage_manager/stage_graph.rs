use vstd::prelude::*;
use std::collections::HashMap;
use petgraph::graph::{DiGraph, NodeIndex};
use petgraph::visit::{Dfs, Reversed, Walker};

use crate::types::{PurrStep, lawful_step};

verus! {

broadcast use vstd::std_specs::hash::group_hash_axioms;

#[verifier::external_type_specification]
#[verifier::external_body]
#[verifier::reject_recursive_types(N)]
#[verifier::reject_recursive_types(E)]
#[verifier::reject_recursive_types(Ty)]
#[verifier::reject_recursive_types(Ix)]
pub struct ExGraph<N, E, Ty, Ix>(petgraph::graph::Graph<N, E, Ty, Ix>);

#[verifier::external_type_specification]
#[verifier::external_body]
pub struct ExDirected(petgraph::Directed);

/// How many nodes a dependency graph holds.
pub uninterp spec fn graph_node_count(g: DiGraph<(), ()>) -> nat;

/// The edges of a dependency graph, as (from, to) node indices in the order
/// they were added.
pub uninterp spec fn graph_edges(g: DiGraph<(), ()>) -> Seq<(usize, usize)>;

/// The nodes, in the order petgraph's depth-first walk emits them, of a walk
/// from `start` against the edges of a graph with `node_count` nodes built by
/// adding its edges `edges` in order.
pub uninterp spec fn reversed_dfs_order(node_count: nat, edges: Seq<(usize, usize)>, start: usize) -> Seq<usize>;

/// Node `order[i]` has an edge into a node emitted before it.
pub open spec fn follows_earlier(edges: Seq<(usize, usize)>, order: Seq<usize>, i: int) -> bool {
    exists|j: int| 0 <= j < i && #[trigger] edges.contains((order[i], order[j]))
}

/// Stage `path[a]` has an edge in `se` to a stage placed after it.
pub open spec fn leads_forward<T>(se: Seq<(T, T)>, path: Seq<T>, a: int) -> bool {
    exists|b: int| a < b < path.len() && #[trigger] se.contains((path[a], path[b]))
}

/// `path` follows edges of `edges` from its first node to its last.
pub open spec fn is_edge_path(edges: Seq<(usize, usize)>, path: Seq<usize>) -> bool {
    &&& path.len() > 0
    &&& forall|i: int| 0 <= i < path.len() - 1 ==> edges.contains((#[trigger] path[i], path[i + 1]))
}

/// Node `from` leads to node `to` along edges of `edges` (every node leads to
/// itself).
pub open spec fn leads_to(edges: Seq<(usize, usize)>, from: usize, to: usize) -> bool {
    exists|path: Seq<usize>| #[trigger] is_edge_path(edges, path) && path[0] == from && path.last() == to
}

/// `DiGraph::new`: a graph with no nodes and no edges.
#[verifier::external_body]
fn graph_new() -> (g: DiGraph<(), ()>)
    ensures
        graph_node_count(g) == 0,
        graph_edges(g) == Seq::<(usize, usize)>::empty(),
{
    DiGraph::new()
}

/// `Graph::add_node`: the new node's index is the former node count, and the
/// edges stay. It panics at the index type's node limit, which `requires`
/// keeps out.
#[verifier::external_body]
fn graph_add_node(g: &mut DiGraph<(), ()>) -> (r: usize)
    requires
        graph_node_count(*old(g)) < u32::MAX,
    ensures
        r == graph_node_count(*old(g)),
        graph_node_count(*final(g)) == graph_node_count(*old(g)) + 1,
        graph_edges(*final(g)) == graph_edges(*old(g)),
{
    g.add_node(()).index()
}

/// `Graph::add_edge`: the edge (a, b) is added last. It panics on a missing
/// node and at the edge limit, which `requires` keeps out.
#[verifier::external_body]
fn graph_add_edge(g: &mut DiGraph<(), ()>, a: usize, b: usize)
    requires
        a < graph_node_count(*old(g)),
        b < graph_node_count(*old(g)),
        graph_edges(*old(g)).len() < u32::MAX,
    ensures
        graph_node_count(*final(g)) == graph_node_count(*old(g)),
        graph_edges(*final(g)) == graph_edges(*old(g)).push((a, b)),
{
    g.add_edge(NodeIndex::new(a), NodeIndex::new(b), ());
}

/// `Graph::contains_edge`: whether an edge from `a` to `b` was added.
#[verifier::external_body]
fn graph_contains_edge(g: &DiGraph<(), ()>, a: usize, b: usize) -> (r: bool)
    requires
        a < graph_node_count(*g),
        b < graph_node_count(*g),
    ensures
        r == graph_edges(*g).contains((a, b)),
{
    g.contains_edge(NodeIndex::new(a), NodeIndex::new(b))
}

/// `Dfs::new` on `Reversed(g)`, walked to the end: the nodes in the order
/// the walk emits them. The walk emits `start` first, each node once, and
/// exactly the nodes from which `start` can be reached along the graph's
/// edges; every other node is emitted after a node it has an edge to (the
/// walk reaches a node only from an emitted node whose incoming edge it
/// follows).
#[verifier::external_body]
fn graph_reversed_dfs(g: &DiGraph<(), ()>, start: usize) -> (r: Vec<usize>)
    requires
        start < graph_node_count(*g),
    ensures
        r@ == reversed_dfs_order(graph_node_count(*g), graph_edges(*g), start),
        r@.len() > 0,
        r@[0] == start,
        r@.no_duplicates(),
        forall|n: usize| r@.contains(n) <==> leads_to(graph_edges(*g), n, start),
        forall|i: int| 0 < i < r@.len() ==> #[trigger] follows_earlier(graph_edges(*g), r@, i),
{
    Dfs::new(Reversed(g), NodeIndex::new(start)).iter(Reversed(g)).map(|n: NodeIndex| n.index()).collect()
}

/// Reversing a walk in which every node after the first follows an edge
/// into an earlier one puts every stage but the last before a stage it has
/// an edge to.
proof fn lemma_reversed_walk_leads_forward<T>(
    order: Seq<usize>,
    st: Seq<T>,
    edges: Seq<(usize, usize)>,
    se: Seq<(T, T)>,
    path: Seq<T>,
)
    requires
        se.len() == edges.len(),
        forall|t: int| 0 <= t < edges.len() ==> #[trigger] se[t] == (st[edges[t].0 as int], st[edges[t].1 as int]),
        forall|n: usize| order.contains(n) ==> n < st.len(),
        forall|i: int| 0 < i < order.len() ==> #[trigger] follows_earlier(edges, order, i),
        path == order.map_values(|i: usize| st[i as int]).reverse(),
    ensures
        forall|a: int| 0 <= a < path.len() - 1 ==> #[trigger] leads_forward(se, path, a),
{
    let walked = order.map_values(|i: usize| st[i as int]);
    assert forall|a: int| 0 <= a < path.len() - 1 implies #[trigger] leads_forward(se, path, a) by {
        let n = walked.len();
        let i = n - 1 - a;
        assert(path[a] == walked[i]);
        assert(0 < i < order.len());
        assert(order.contains(order[i]));
        assert(follows_earlier(edges, order, i));
        let j = choose|j: int| 0 <= j < i && #[trigger] edges.contains((order[i], order[j]));
        assert(order.contains(order[j]));
        let t = choose|t: int| 0 <= t < edges.len() && edges[t] == (order[i], order[j]);
        assert(se[t] == (st[order[i] as int], st[order[j] as int]));
        let b = n - 1 - j;
        assert(path.len() == n);
        assert(a < b < path.len());
        assert(path[b] == walked[j]);
        assert(walked[i] == st[order[i] as int]);
        assert(walked[j] == st[order[j] as int]);
        assert(se[t] == (path[a], path[b]));
        assert(se.contains((path[a], path[b])));
    }
}

/// In a duplicate-free sequence, a map that sends each element to a place
/// holding it sends it to the element's place.
proof fn lemma_nodes_are_places<T>(st: Seq<T>, nodes: Map<T, usize>)
    requires
        st.no_duplicates(),
        forall|x: T| #[trigger] nodes.contains_key(x) <==> st.contains(x),
        forall|x: T| #[trigger] nodes.contains_key(x) ==> nodes[x] < st.len() && st[nodes[x] as int] == x,
    ensures
        forall|x: T| st.contains(x) ==> nodes[x] as int == #[trigger] st.index_of(x),
{
    assert forall|x: T| st.contains(x) implies nodes[x] as int == #[trigger] st.index_of(x) by {
        assert(nodes.contains_key(x));
        let i = st.index_of(x);
        assert(0 <= i < st.len() && st[i] == x);
    }
}

/// The stages registered with a manager, the dependency graph between them,
/// and the lookup from a stage to its node.
#[derive(Debug)]
pub struct StageGraph<T: PurrStep> {
    graph: DiGraph<(), ()>,
    stages: Vec<T>,
    nodes: HashMap<T, usize>,
}

impl<T: PurrStep> StageGraph<T> {
    #[verifier::type_invariant]
    spec fn inv(self) -> bool {
        &&& self.stages@.len() == graph_node_count(self.graph)
        &&& self.stages@.no_duplicates()
        &&& forall|s: T| #[trigger] self.nodes@.contains_key(s) <==> self.stages@.contains(s)
        &&& forall|s: T| #[trigger] self.nodes@.contains_key(s) ==> {
            &&& self.nodes@[s] < self.stages@.len()
            &&& self.stages@[self.nodes@[s] as int] == s
        }
        &&& forall|i: int| 0 <= i < graph_edges(self.graph).len() ==> {
            &&& (#[trigger] graph_edges(self.graph)[i]).0 < self.stages@.len()
            &&& graph_edges(self.graph)[i].1 < self.stages@.len()
        }
    }

    /// The registered stages, in the order they were added; stage `i` is
    /// node `i` of the graph.
    pub closed spec fn stages(&self) -> Seq<T> {
        self.stages@
    }

    /// The dependency edges as node indices, in the order they were added.
    pub closed spec fn edges(&self) -> Seq<(usize, usize)> {
        graph_edges(self.graph)
    }

    /// The node of a registered stage: its place among the stages.
    pub open spec fn node_of(&self, s: T) -> usize {
        self.stages().index_of(s) as usize
    }

    /// The dependency edges as (from, to) stages.
    pub open spec fn stage_edges(&self) -> Seq<(T, T)> {
        self.edges().map_values(|e: (usize, usize)| (self.stages()[e.0 as int], self.stages()[e.1 as int]))
    }

    /// The chain that pushing `target` queues: the stages that lead to
    /// `target`, in the reverse of the order the dependency walk meets them,
    /// so that `target` comes last; nothing for an unregistered stage.
    pub closed spec fn dependencies(&self, target: T) -> Seq<T> {
        if self.stages@.contains(target) {
            reversed_dfs_order(graph_node_count(self.graph), graph_edges(self.graph), self.nodes@[target])
                .map_values(|i: usize| self.stages@[i as int])
                .reverse()
        } else {
            Seq::empty()
        }
    }

    /// What the chain of `target` holds: nothing for an unregistered stage;
    /// otherwise each stage that leads to `target`, once, with `target`
    /// last, and every other stage before a stage it is a dependency of.
    pub open spec fn dependencies_sound(&self, target: T) -> bool {
        let d = self.dependencies(target);
        &&& self.stages().len() <= usize::MAX
        &&& !self.stages().contains(target) ==> d == Seq::<T>::empty()
        &&& self.stages().contains(target) ==> {
            &&& d.len() > 0
            &&& d.last() == target
            &&& d.no_duplicates()
            &&& forall|s: T| #[trigger] d.contains(s) <==> {
                &&& self.stages().contains(s)
                &&& leads_to(self.edges(), self.node_of(s), self.node_of(target))
            }
            &&& forall|a: int| 0 <= a < d.len() - 1 ==> #[trigger] leads_forward(self.stage_edges(), d, a)
        }
    }

    /// A registered stage's node is its place among the stages.
    pub proof fn lemma_node_of(&self, s: T)
        requires
            self.stages().contains(s),
            self.stages().len() <= usize::MAX,
        ensures
            0 <= self.node_of(s) < self.stages().len(),
            self.stages()[self.node_of(s) as int] == s,
    {
        let i = self.stages().index_of(s);
        assert(0 <= i < self.stages().len() && self.stages()[i] == s);
    }

    pub fn new() -> (r: Self)
        ensures
            r.stages() == Seq::<T>::empty(),
            r.edges() == Seq::<(usize, usize)>::empty(),
    {
        StageGraph { graph: graph_new(), stages: Vec::new(), nodes: HashMap::new() }
    }

    pub fn contains(&self, stage: &T) -> (r: bool)
        requires
            lawful_step::<T>(),
        ensures
            r == self.stages().contains(*stage),
    {
        proof {
            use_type_invariant(self);
        }
        self.nodes.contains_key(stage)
    }

    /// Registers `stage` as a new node; a stage already registered is kept
    /// as it is.
    pub fn with_stage(self, stage: T) -> (r: Self)
        requires
            lawful_step::<T>(),
            !self.stages().contains(stage) ==> self.stages().len() < u32::MAX,
        ensures
            self.stages().contains(stage) ==> r == self,
            !self.stages().contains(stage) ==> r.stages() == self.stages().push(stage),
            r.edges() == self.edges(),
    {
        proof {
            use_type_invariant(&self);
        }
        if self.nodes.contains_key(&stage) {
            return self;
        }
        let StageGraph { mut graph, mut stages, mut nodes } = self;
        let ghost old_stages = stages@;
        let ghost old_nodes = nodes@;
        let index = graph_add_node(&mut graph);
        stages.push(stage);
        nodes.insert(stage, index);
        proof {
            assert forall|s: T| #[trigger] nodes@.contains_key(s) <==> stages@.contains(s) by {
                if s != stage && stages@.contains(s) {
                    let j = choose|j: int| 0 <= j < stages@.len() && stages@[j] == s;
                    assert(old_stages[j] == s);
                }
                if s == stage {
                    assert(stages@[stages@.len() - 1] == s);
                }
                if s != stage && nodes@.contains_key(s) {
                    assert(old_nodes.contains_key(s));
                    assert(old_stages.contains(s));
                    let j = choose|j: int| 0 <= j < old_stages.len() && old_stages[j] == s;
                    assert(stages@[j] == s);
                }
            }
            assert forall|s: T| #[trigger] nodes@.contains_key(s) implies {
                &&& nodes@[s] < stages@.len()
                &&& stages@[nodes@[s] as int] == s
            } by {
                if s != stage {
                    assert(old_nodes.contains_key(s));
                }
            }
            assert forall|i: int, j: int| 0 <= i < j < stages@.len() implies stages@[i] != stages@[j] by {
                if j == stages@.len() - 1 {
                    assert(old_stages.contains(stages@[i]));
                }
            }
        }
        StageGraph { graph, stages, nodes }
    }

    /// Adds the edge from `from` to `to` when both are registered and the
    /// edge is not there yet.
    pub fn with_edge(self, from: T, to: T) -> (r: Self)
        requires
            lawful_step::<T>(),
            self.edges().len() < u32::MAX,
        ensures
            r.stages() == self.stages(),
            self.stages().contains(from) && self.stages().contains(to) && !self.stage_edges().contains((from, to)) ==> {
                &&& r.stage_edges() == self.stage_edges().push((from, to))
                &&& r.edges().len() == self.edges().len() + 1
            },
            !(self.stages().contains(from) && self.stages().contains(to) && !self.stage_edges().contains((from, to))) ==> r == self,
    {
        proof {
            use_type_invariant(&self);
        }
        let from_idx = match self.nodes.get(&from) {
            Some(i) => *i,
            None => return self,
        };
        let to_idx = match self.nodes.get(&to) {
            Some(i) => *i,
            None => return self,
        };
        let ghost se = self.stage_edges();
        let ghost ed = graph_edges(self.graph);
        proof {
            assert(ed.contains((from_idx, to_idx)) <==> se.contains((from, to))) by {
                if ed.contains((from_idx, to_idx)) {
                    let k = choose|k: int| 0 <= k < ed.len() && ed[k] == (from_idx, to_idx);
                    assert(se[k] == (from, to));
                }
                if se.contains((from, to)) {
                    let k = choose|k: int| 0 <= k < se.len() && se[k] == (from, to);
                    let e = ed[k];
                    assert(0 <= k < ed.len());
                    assert(self.stages@[e.0 as int] == from);
                    assert(self.stages@[e.1 as int] == to);
                    assert(e.0 == from_idx);
                    assert(e.1 == to_idx);
                }
            }
        }
        if graph_contains_edge(&self.graph, from_idx, to_idx) {
            return self;
        }
        let StageGraph { mut graph, stages, nodes } = self;
        graph_add_edge(&mut graph, from_idx, to_idx);
        let r = StageGraph { graph, stages, nodes };
        assert(r.stage_edges() =~= se.push((from, to)));
        r
    }

    /// The chain that pushing `target` queues (`dependencies`).
    pub fn calculate_dependencies(&self, target: T) -> (r: Vec<T>)
        requires
            lawful_step::<T>(),
        ensures
            r@ == self.dependencies(target),
            self.dependencies_sound(target),
    {
        proof {
            use_type_invariant(self);
        }
        let stage_count = self.stages.len();
        let target_idx = match self.nodes.get(&target) {
            Some(i) => *i,
            None => return Vec::new(),
        };
        let order = graph_reversed_dfs(&self.graph, target_idx);
        let ghost walked = order@.map_values(|i: usize| self.stages@[i as int]);
        let mut path: Vec<T> = Vec::new();
        let mut k: usize = order.len();
        while k > 0
            invariant
                k <= order@.len(),
                forall|n: usize| order@.contains(n) ==> n < self.stages@.len(),
                walked == order@.map_values(|i: usize| self.stages@[i as int]),
                path@ == walked.skip(k as int).reverse(),
            decreases k,
        {
            k -= 1;
            assert(order@.contains(order@[k as int]));
            let node_index = order[k];
            path.push(self.stages[node_index]);
            assert(path@ =~= walked.skip(k as int).reverse());
        }
        assert(walked.skip(0) =~= walked);
        proof {
            let st = self.stages@;
            lemma_nodes_are_places(st, self.nodes@);
            lemma_reversed_walk_leads_forward(order@, st, graph_edges(self.graph), self.stage_edges(), path@);
            assert(path@.last() == target) by {
                assert(path@.last() == walked[0]);
            }
            assert forall|a: int, b: int| 0 <= a < b < path@.len() implies path@[a] != path@[b] by {
                let n = walked.len();
                assert(path@[a] == walked[n - 1 - a]);
                assert(path@[b] == walked[n - 1 - b]);
                assert(order@.contains(order@[n - 1 - a]));
                assert(order@.contains(order@[n - 1 - b]));
                assert(order@[n - 1 - a] != order@[n - 1 - b]);
            }
            assert forall|x: T| #[trigger] path@.contains(x) <==> {
                &&& st.contains(x)
                &&& leads_to(graph_edges(self.graph), self.nodes@[x], self.nodes@[target])
            } by {
                if path@.contains(x) {
                    let a = choose|a: int| 0 <= a < path@.len() && path@[a] == x;
                    let n = walked.len();
                    let i = n - 1 - a;
                    assert(path@[a] == walked[i]);
                    assert(order@.contains(order@[i]));
                    assert(st[order@[i] as int] == x);
                    assert(st.contains(x));
                    assert(self.nodes@.contains_key(x));
                    assert(self.nodes@[x] == order@[i]);
                }
                if st.contains(x) && leads_to(graph_edges(self.graph), self.nodes@[x], self.nodes@[target]) {
                    assert(self.nodes@.contains_key(x));
                    assert(order@.contains(self.nodes@[x]));
                    let i = choose|i: int| 0 <= i < order@.len() && order@[i] == self.nodes@[x];
                    let n = walked.len();
                    assert(walked[i] == x);
                    assert(path@[n - 1 - i] == walked[i]);
                }
            }
        }
        path
    }
}

} // verus!
