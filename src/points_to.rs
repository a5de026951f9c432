use petgraph::graph::{EdgeIndex, Graph, NodeIndex};
use petgraph::visit::{Dfs, Walker};
use petgraph::Directed;
use std::collections::HashMap;
use vstd::prelude::*;

verus! {

broadcast use vstd::std_specs::hash::group_hash_axioms;

#[verifier::external_type_specification]
#[verifier::external_body]
#[verifier::reject_recursive_types(N)]
#[verifier::reject_recursive_types(E)]
#[verifier::reject_recursive_types(Ty)]
#[verifier::reject_recursive_types(Ix)]
pub struct ExGraph<N, E, Ty, Ix>(Graph<N, E, Ty, Ix>);

#[verifier::external_type_specification]
#[verifier::external_body]
pub struct ExDirected(Directed);

/// The graph type that holds slots: node weights are slot identifiers, edges
/// carry nothing, indices are `usize`.
pub type SlotGraph = Graph<u32, (), Directed, usize>;

/// The node weights of a graph, by node index.
pub uninterp spec fn graph_nodes(g: Graph<u32, (), Directed, usize>) -> Seq<u32>;

/// The edges of a graph as (source, target) node indices, by edge index.
pub uninterp spec fn graph_edges(g: Graph<u32, (), Directed, usize>) -> Seq<(usize, usize)>;

/// Relies on `Graph::with_capacity(0, 0)`: a graph with no nodes and no edges.
#[verifier::external_body]
fn graph_empty() -> (g: SlotGraph)
    ensures
        graph_nodes(g) == Seq::<u32>::empty(),
        graph_edges(g) == Seq::<(usize, usize)>::empty(),
{
    Graph::with_capacity(0, 0)
}

/// Relies on `Graph::node_count`: the number of nodes.
#[verifier::external_body]
fn graph_node_count(g: &SlotGraph) -> (r: usize)
    ensures
        r == graph_nodes(*g).len(),
{
    g.node_count()
}

/// Relies on `Graph::edge_count`: the number of edges.
#[verifier::external_body]
fn graph_edge_count(g: &SlotGraph) -> (r: usize)
    ensures
        r == graph_edges(*g).len(),
{
    g.edge_count()
}

/// Relies on `Graph::add_node`: the node goes last and its index is returned;
/// with `usize` indices it never panics.
#[verifier::external_body]
fn graph_add_node(g: &mut SlotGraph, weight: u32) -> (r: usize)
    ensures
        graph_nodes(*final(g)) == graph_nodes(*old(g)).push(weight),
        graph_edges(*final(g)) == graph_edges(*old(g)),
        r == graph_nodes(*old(g)).len(),
{
    g.add_node(weight).index()
}

/// Relies on `Graph::add_edge`: the edge goes last. It panics when an
/// endpoint is not a node, which `requires` leaves out.
#[verifier::external_body]
fn graph_add_edge(g: &mut SlotGraph, a: usize, b: usize)
    requires
        a < graph_nodes(*old(g)).len(),
        b < graph_nodes(*old(g)).len(),
    ensures
        graph_nodes(*final(g)) == graph_nodes(*old(g)),
        graph_edges(*final(g)) == graph_edges(*old(g)).push((a, b)),
{
    g.add_edge(NodeIndex::new(a), NodeIndex::new(b), ());
}

/// What `Graph::remove_edge` leaves of the edge list: the last edge takes the
/// place of the removed one.
pub open spec fn swap_removed(s: Seq<(usize, usize)>, e: int) -> Seq<(usize, usize)> {
    s.update(e, s.last()).drop_last()
}

/// Relies on `Graph::remove_edge`: the edge is removed and the last edge
/// adopts its index.
#[verifier::external_body]
fn graph_remove_edge(g: &mut SlotGraph, e: usize)
    requires
        e < graph_edges(*old(g)).len(),
    ensures
        graph_nodes(*final(g)) == graph_nodes(*old(g)),
        graph_edges(*final(g)) == swap_removed(graph_edges(*old(g)), e as int),
{
    g.remove_edge(EdgeIndex::new(e));
}

/// Relies on `Graph::edge_endpoints`: the source and target of an edge.
#[verifier::external_body]
fn graph_edge_endpoints(g: &SlotGraph, e: usize) -> (r: Option<(usize, usize)>)
    requires
        e < graph_edges(*g).len(),
    ensures
        r == Some(graph_edges(*g)[e as int]),
{
    g.edge_endpoints(EdgeIndex::new(e)).map(|(s, t)| (s.index(), t.index()))
}

/// Relies on indexing a `Graph` by node: the weight of the node. It panics
/// when the node does not exist, which `requires` leaves out.
#[verifier::external_body]
fn graph_node_weight(g: &SlotGraph, i: usize) -> (r: u32)
    requires
        i < graph_nodes(*g).len(),
    ensures
        r == graph_nodes(*g)[i as int],
{
    g[NodeIndex::new(i)]
}

/// Every consecutive pair of `p` is an edge.
pub open spec fn is_path(edges: Set<(usize, usize)>, p: Seq<usize>) -> bool {
    &&& p.len() >= 1
    &&& forall|i: int| 0 <= i < p.len() - 1 ==> edges.contains((#[trigger] p[i], p[i + 1]))
}

/// Node `b` can be reached from node `a` by following edges, `a` itself included.
#[verifier::opaque]
pub open spec fn reaches(edges: Set<(usize, usize)>, a: usize, b: usize) -> bool {
    exists|p: Seq<usize>| is_path(edges, p) && p[0] == a && p.last() == b
}

/// Relies on petgraph's `Dfs`: walking from `start`, it yields each node that
/// can be reached from `start` once, `start` first. It panics when `start` is
/// not a node, which `requires` leaves out.
#[verifier::external_body]
fn graph_reachable(g: &SlotGraph, start: usize) -> (r: Vec<usize>)
    requires
        start < graph_nodes(*g).len(),
    ensures
        forall|n: usize| r@.contains(n) <==> reaches(graph_edges(*g).to_set(), start, n),
{
    Dfs::new(g, NodeIndex::new(start)).iter(g).map(|n| n.index()).collect()
}

/// Whether `n` is among the elements of `v`.
fn contains_node(v: &Vec<usize>, n: usize) -> (r: bool)
    ensures
        r == v@.contains(n),
{
    let mut i: usize = 0;
    while i < v.len()
        invariant
            i <= v@.len(),
            forall|j: int| 0 <= j < i ==> v@[j] != n,
        decreases v@.len() - i,
    {
        if v[i] == n {
            assert(v@[i as int] == n);
            return true;
        }
        i = i + 1;
    }
    false
}

/// The abstract content of a points-to graph: the node of each registered
/// slot, the weight of each node, and the set of edges.
pub struct GraphView {
    pub vars: Map<u32, usize>,
    pub nodes: Seq<u32>,
    pub edges: Set<(usize, usize)>,
}

/// Registered slots name their own node, and edges join existing nodes.
pub open spec fn view_wf(g: GraphView) -> bool {
    &&& forall|s: u32| #[trigger]
        g.vars.contains_key(s) ==> g.vars[s] < g.nodes.len() && g.nodes[g.vars[s] as int] == s
    &&& forall|e: (usize, usize)| #[trigger]
        g.edges.contains(e) ==> e.0 < g.nodes.len() && e.1 < g.nodes.len()
}

/// `g` with a fresh node for slot `a`, unless `a` is registered already.
pub open spec fn view_with_slot(g: GraphView, a: u32) -> GraphView {
    if g.vars.contains_key(a) {
        g
    } else {
        GraphView {
            vars: g.vars.insert(a, g.nodes.len() as usize),
            nodes: g.nodes.push(a),
            edges: g.edges,
        }
    }
}

/// The graph after slot `a` is overwritten with a plain value: a registered
/// slot loses all its outgoing edges, a new slot gets a node.
pub open spec fn view_after_value(g: GraphView, a: u32) -> GraphView {
    if g.vars.contains_key(a) {
        GraphView {
            vars: g.vars,
            nodes: g.nodes,
            edges: g.edges.filter(|e: (usize, usize)| e.0 != g.vars[a]),
        }
    } else {
        view_with_slot(g, a)
    }
}

/// The graph after recording that slot `a` points to slot `b`.
pub open spec fn view_after_points_to(g: GraphView, a: u32, b: u32) -> GraphView {
    let g1 = view_with_slot(g, a);
    GraphView {
        vars: g1.vars,
        nodes: g1.nodes,
        edges: g1.edges.insert((g1.vars[a], g1.vars[b])),
    }
}

/// Two registered slots may alias when some node can be reached from both.
pub open spec fn may_alias_view(g: GraphView, a: u32, b: u32) -> bool {
    &&& g.vars.contains_key(a)
    &&& g.vars.contains_key(b)
    &&& exists|n: usize| reaches(g.edges, g.vars[a], n) && reaches(g.edges, g.vars[b], n)
}

/// Node `i` has incoming edges from two different nodes.
pub open spec fn is_suspect(edges: Set<(usize, usize)>, i: usize) -> bool {
    exists|s1: usize, s2: usize|
        s1 != s2 && #[trigger] edges.contains((s1, i)) && #[trigger] edges.contains((s2, i))
}

/// The weights of the suspect nodes among the first `n` nodes, in node order.
pub open spec fn suspects_upto(nodes: Seq<u32>, edges: Set<(usize, usize)>, n: nat) -> Seq<u32>
    decreases n,
{
    if n == 0 {
        Seq::empty()
    } else {
        let rest = suspects_upto(nodes, edges, (n - 1) as nat);
        if is_suspect(edges, (n - 1) as usize) {
            rest.push(nodes[n - 1])
        } else {
            rest
        }
    }
}

/// The node weights after merging a subgraph with node weights `sub`: each
/// node whose weight `m` maps is folded onto a caller node, every other one
/// is appended.
pub open spec fn imported_nodes(nodes: Seq<u32>, sub: Seq<u32>, m: Map<u32, u32>) -> Seq<u32>
    decreases sub.len(),
{
    if sub.len() == 0 {
        nodes
    } else {
        let r = imported_nodes(nodes, sub.drop_last(), m);
        if m.contains_key(sub.last()) {
            r
        } else {
            r.push(sub.last())
        }
    }
}

/// The node that node `i` of the subgraph becomes in the merged graph.
pub open spec fn node_image(g: GraphView, sub: Seq<u32>, m: Map<u32, u32>, i: int) -> usize {
    if m.contains_key(sub[i]) {
        g.vars[m[sub[i]]]
    } else {
        imported_nodes(g.nodes, sub.take(i), m).len() as usize
    }
}

/// The graph after merging a subgraph with node weights `sub` and edges
/// `sub_edges`, with `m` mapping subgraph slots onto caller slots.
pub open spec fn view_after_merge(
    g: GraphView,
    sub: Seq<u32>,
    sub_edges: Set<(usize, usize)>,
    m: Map<u32, u32>,
) -> GraphView {
    GraphView {
        vars: g.vars,
        nodes: imported_nodes(g.nodes, sub, m),
        edges: g.edges.union(
            sub_edges.map(
                |e: (usize, usize)| (node_image(g, sub, m, e.0 as int), node_image(g, sub, m, e.1 as int)),
            ),
        ),
    }
}

proof fn lemma_skip_contains(s: Seq<(usize, usize)>, i: int, e: (usize, usize))
    requires
        0 <= i < s.len(),
    ensures
        s.skip(i).contains(e) <==> (s[i] == e || s.skip(i + 1).contains(e)),
{
    if s.skip(i).contains(e) {
        let j = choose|j: int| 0 <= j < s.skip(i).len() && #[trigger] s.skip(i)[j] == e;
        if j > 0 {
            assert(s.skip(i + 1)[j - 1] == e);
        }
    }
    if s.skip(i + 1).contains(e) {
        let j = choose|j: int| 0 <= j < s.skip(i + 1).len() && #[trigger] s.skip(i + 1)[j] == e;
        assert(s.skip(i)[j + 1] == e);
    }
    if s[i] == e {
        assert(s.skip(i)[0] == e);
    }
}

proof fn lemma_imported_prefix(nodes: Seq<u32>, sub: Seq<u32>, m: Map<u32, u32>)
    ensures
        imported_nodes(nodes, sub, m).len() >= nodes.len(),
        imported_nodes(nodes, sub, m).take(nodes.len() as int) == nodes,
    decreases sub.len(),
{
    if sub.len() > 0 {
        lemma_imported_prefix(nodes, sub.drop_last(), m);
        let r = imported_nodes(nodes, sub.drop_last(), m);
        assert(r.push(sub.last()).take(nodes.len() as int) =~= r.take(nodes.len() as int));
    }
}

/// The points-to graph of one function activation.
pub struct PointsToGraph {
    pub graph: SlotGraph,
    pub variables: HashMap<u32, usize>,
}

impl View for PointsToGraph {
    type V = GraphView;

    open spec fn view(&self) -> GraphView {
        GraphView {
            vars: self.variables@,
            nodes: graph_nodes(self.graph),
            edges: graph_edges(self.graph).to_set(),
        }
    }
}

impl PointsToGraph {
    /// Each registered slot has its own node, whose weight is the slot, and
    /// every edge joins existing nodes.
    pub open spec fn wf(&self) -> bool {
        &&& forall|s: u32| #[trigger]
            self.variables@.contains_key(s) ==> self.variables@[s] < graph_nodes(self.graph).len()
                && graph_nodes(self.graph)[self.variables@[s] as int] == s
        &&& forall|k: int|
            0 <= k < graph_edges(self.graph).len() ==> (#[trigger] graph_edges(self.graph)[k]).0
                < graph_nodes(self.graph).len() && graph_edges(self.graph)[k].1 < graph_nodes(
                self.graph,
            ).len()
    }

    /// A well-formed graph has a well-formed view.
    pub proof fn lemma_wf_view(&self)
        requires
            self.wf(),
        ensures
            view_wf(self@),
    {
        assert forall|e: (usize, usize)| #[trigger] self@.edges.contains(e) implies e.0
            < self@.nodes.len() && e.1 < self@.nodes.len() by {
            let k = choose|k: int| 0 <= k < graph_edges(self.graph).len() && #[trigger] graph_edges(self.graph)[k] == e;
            assert(graph_edges(self.graph)[k] == e);
        }
    }

    pub fn new() -> (r: PointsToGraph)
        ensures
            r@.vars == Map::<u32, usize>::empty(),
            r@.nodes == Seq::<u32>::empty(),
            r@.edges == Set::<(usize, usize)>::empty(),
            r.wf(),
    {
        let r = PointsToGraph { graph: graph_empty(), variables: HashMap::new() };
        assert(r@.edges =~= Set::<(usize, usize)>::empty());
        r
    }

    /// The node of a registered slot.
    pub fn get_variable(&self, a: u32) -> (r: usize)
        requires
            self@.vars.contains_key(a),
        ensures
            r == self@.vars[a],
    {
        *self.variables.get(&a).unwrap()
    }

    /// Whether slot `a` has a node.
    pub fn does_variable_exits(&self, a: u32) -> (r: bool)
        ensures
            r == self@.vars.contains_key(a),
    {
        self.variables.contains_key(&a)
    }

    /// Slot `a` now holds a plain value: a registered slot loses all its
    /// outgoing edges, an unregistered one gets a node.
    pub fn constant(&mut self, a: u32)
        requires
            old(self).wf(),
        ensures
            final(self).wf(),
            final(self)@ == view_after_value(old(self)@, a),
            forall|x: u32|
                may_alias_view(final(self)@, a, x) <==> (final(self)@.vars.contains_key(x) && reaches(
                    final(self)@.edges,
                    final(self)@.vars[x],
                    final(self)@.vars[a],
                )),
    {
        let ghost g0 = self@;
        let ghost e0 = graph_edges(self.graph);
        let count = graph_node_count(&self.graph);
        proof {
            assert(count == g0.nodes.len());
            self.lemma_wf_view();
            assert forall|x: u32|
                may_alias_view(view_after_value(g0, a), a, x) <==> (view_after_value(
                    g0,
                    a,
                ).vars.contains_key(x) && reaches(
                    view_after_value(g0, a).edges,
                    view_after_value(g0, a).vars[x],
                    view_after_value(g0, a).vars[a],
                )) by {
                lemma_value_clears_aliasing(g0, a, x);
            }
        }
        if self.does_variable_exits(a) {
            let v = self.get_variable(a);
            let mut i: usize = graph_edge_count(&self.graph);
            assert(e0.skip(i as int) =~= Seq::<(usize, usize)>::empty());
            assert(e0.take(i as int) =~= e0);
            while i > 0
                invariant
                    self.wf(),
                    self.variables@ == g0.vars,
                    graph_nodes(self.graph) == g0.nodes,
                    g0.vars.contains_key(a),
                    v == g0.vars[a],
                    i <= graph_edges(self.graph).len(),
                    i <= e0.len(),
                    graph_edges(self.graph).take(i as int) == e0.take(i as int),
                    forall|e: (usize, usize)|
                        graph_edges(self.graph).skip(i as int).contains(e) <==> (e0.skip(
                            i as int,
                        ).contains(e) && e.0 != v),
                decreases i,
            {
                let ghost cur = graph_edges(self.graph);
                let ghost ip = i;
                i = i - 1;
                assert(cur[i as int] == e0[i as int]) by {
                    assert(cur.take(ip as int)[i as int] == e0.take(ip as int)[i as int]);
                }
                let (src, _) = graph_edge_endpoints(&self.graph, i).unwrap();
                assert(cur.take(i as int) =~= cur.take(ip as int).take(i as int));
                assert(e0.take(i as int) =~= e0.take(ip as int).take(i as int));
                assert forall|e: (usize, usize)| e0.skip(i as int).contains(e) <==> (e0[i as int] == e
                    || e0.skip(ip as int).contains(e)) by {
                    lemma_skip_contains(e0, i as int, e);
                }
                if src == v {
                    graph_remove_edge(&mut self.graph, i);
                    let ghost nxt = graph_edges(self.graph);
                    assert(nxt.take(i as int) =~= cur.take(i as int));
                    assert forall|e: (usize, usize)| nxt.skip(i as int).contains(e) <==> cur.skip(
                        ip as int,
                    ).contains(e) by {
                        if nxt.skip(i as int).contains(e) {
                            let j = choose|j: int| 0 <= j < nxt.skip(i as int).len() && #[trigger] nxt.skip(i as int)[j] == e;
                            if j == 0 {
                                assert(cur.skip(ip as int)[cur.len() - ip - 1] == e);
                            } else {
                                assert(cur.skip(ip as int)[j - 1] == e);
                            }
                        }
                        if cur.skip(ip as int).contains(e) {
                            let j = choose|j: int| 0 <= j < cur.skip(ip as int).len() && #[trigger] cur.skip(ip as int)[j] == e;
                            if ip + j == cur.len() - 1 {
                                assert(nxt.skip(i as int)[0] == e);
                            } else {
                                assert(nxt.skip(i as int)[j + 1] == e);
                            }
                        }
                    }
                    assert forall|k: int| 0 <= k < nxt.len() implies (#[trigger] nxt[k]).0
                        < graph_nodes(self.graph).len() && nxt[k].1 < graph_nodes(self.graph).len() by {
                        if k == i {
                            assert(nxt[k] == cur[cur.len() - 1]);
                        } else {
                            assert(nxt[k] == cur[k]);
                        }
                    }
                } else {
                    assert forall|e: (usize, usize)| cur.skip(i as int).contains(e) <==> (cur[i as int]
                        == e || cur.skip(ip as int).contains(e)) by {
                        lemma_skip_contains(cur, i as int, e);
                    }
                }
                assert forall|e: (usize, usize)| graph_edges(self.graph).skip(i as int).contains(e)
                    <==> (e0.skip(i as int).contains(e) && e.0 != v) by {
                    assert(cur.skip(ip as int).contains(e) <==> (e0.skip(ip as int).contains(e) && e.0
                        != v));
                    assert(e0.skip(i as int).contains(e) <==> (e0[i as int] == e || e0.skip(
                        ip as int,
                    ).contains(e)));
                    if src != v {
                        assert(cur.skip(i as int).contains(e) <==> (cur[i as int] == e || cur.skip(
                            ip as int,
                        ).contains(e)));
                    }
                }
            }
            let ghost fin = graph_edges(self.graph);
            assert(fin.skip(0) =~= fin);
            assert(e0.skip(0) =~= e0);
            assert forall|e: (usize, usize)| #[trigger] self@.edges.contains(e) <==> g0.edges.filter(
                |e: (usize, usize)| e.0 != g0.vars[a],
            ).contains(e) by {
                assert(fin.skip(0).contains(e) <==> (e0.skip(0).contains(e) && e.0 != v));
            }
            assert(self@.edges =~= g0.edges.filter(|e: (usize, usize)| e.0 != g0.vars[a]));
        } else {
            let n = graph_add_node(&mut self.graph, a);
            self.variables.insert(a, n);
            assert(self@.vars =~= g0.vars.insert(a, g0.nodes.len() as usize));
            assert forall|s: u32| #[trigger] self.variables@.contains_key(s) implies self.variables@[s]
                < graph_nodes(self.graph).len() && graph_nodes(self.graph)[self.variables@[s] as int]
                == s by {
                if s != a {
                    assert(g0.vars.contains_key(s));
                }
            }
        }
    }

    /// Records that slot `a` points into slot `b`; `a` gets a node if it has none.
    pub fn points_to(&mut self, a: u32, b: u32)
        requires
            old(self).wf(),
            old(self)@.vars.contains_key(b),
        ensures
            final(self).wf(),
            final(self)@ == view_after_points_to(old(self)@, a, b),
    {
        let ghost g0 = self@;
        let node;
        if self.does_variable_exits(a) {
            node = self.get_variable(a);
        } else {
            node = graph_add_node(&mut self.graph, a);
            self.variables.insert(a, node);
            assert(self@.vars =~= g0.vars.insert(a, g0.nodes.len() as usize));
            assert forall|s: u32| #[trigger] self.variables@.contains_key(s) implies self.variables@[s]
                < graph_nodes(self.graph).len() && graph_nodes(self.graph)[self.variables@[s] as int]
                == s by {
                if s != a {
                    assert(g0.vars.contains_key(s));
                }
            }
        }
        let ghost g1 = self@;
        let ghost e1 = graph_edges(self.graph);
        assert(g1 == view_with_slot(g0, a));
        let target = self.get_variable(b);
        graph_add_edge(&mut self.graph, node, target);
        let ghost e2 = graph_edges(self.graph);
        assert forall|e: (usize, usize)| e2.contains(e) <==> g1.edges.insert((node, target)).contains(e) by {
            if e2.contains(e) {
                let k = choose|k: int| 0 <= k < e2.len() && #[trigger] e2[k] == e;
                if k < e2.len() - 1 {
                    assert(e1[k] == e);
                }
            }
            if e1.contains(e) {
                let k = choose|k: int| 0 <= k < e1.len() && #[trigger] e1[k] == e;
                assert(e2[k] == e);
            }
            if e == (node, target) {
                assert(e2[e2.len() - 1] == e);
            }
        }
        assert(self@.edges =~= g1.edges.insert((node, target)));
        assert forall|k: int| 0 <= k < graph_edges(self.graph).len() implies (#[trigger] graph_edges(
            self.graph,
        )[k]).0 < graph_nodes(self.graph).len() && graph_edges(self.graph)[k].1 < graph_nodes(
            self.graph,
        ).len() by {
            if k < graph_edges(self.graph).len() - 1 {
                assert(graph_edges(self.graph)[k] == e1[k]);
            }
        }
    }


    /// Whether slots `a` and `b` may alias: both are registered and some node
    /// can be reached from both.
    pub fn are_alias(&self, a: u32, b: u32) -> (r: bool)
        requires
            self.wf(),
        ensures
            r == may_alias_view(self@, a, b),
    {
        if !self.does_variable_exits(a) || !self.does_variable_exits(b) {
            return false;
        }
        let na = self.get_variable(a);
        let nb = self.get_variable(b);
        let nodes_from_a = graph_reachable(&self.graph, na);
        let nodes_from_b = graph_reachable(&self.graph, nb);
        let mut i: usize = 0;
        while i < nodes_from_b.len()
            invariant
                i <= nodes_from_b@.len(),
                self@.vars.contains_key(a),
                self@.vars.contains_key(b),
                na == self@.vars[a],
                nb == self@.vars[b],
                forall|j: int| 0 <= j < i ==> !nodes_from_a@.contains(#[trigger] nodes_from_b@[j]),
                forall|n: usize| #[trigger]
                    nodes_from_a@.contains(n) <==> reaches(self@.edges, na, n),
                forall|n: usize| #[trigger]
                    nodes_from_b@.contains(n) <==> reaches(self@.edges, nb, n),
            decreases nodes_from_b@.len() - i,
        {
            let node = nodes_from_b[i];
            if contains_node(&nodes_from_a, node) {
                assert(nodes_from_b@.contains(node));
                assert(reaches(self@.edges, na, node) && reaches(self@.edges, nb, node));
                assert(may_alias_view(self@, a, b));
                return true;
            }
            i = i + 1;
        }
        assert forall|n: usize| !(reaches(self@.edges, na, n) && reaches(self@.edges, nb, n)) by {
            if reaches(self@.edges, na, n) && reaches(self@.edges, nb, n) {
                assert(nodes_from_b@.contains(n));
                let j = choose|j: int| 0 <= j < nodes_from_b@.len() && #[trigger] nodes_from_b@[j] == n;
                assert(!nodes_from_a@.contains(nodes_from_b@[j]));
            }
        }
        false
    }

    /// Whether node `node` has incoming edges from two different nodes.
    fn has_two_sources(&self, node: usize) -> (r: bool)
        ensures
            r == is_suspect(self@.edges, node),
    {
        let ghost es = graph_edges(self.graph);
        let m = graph_edge_count(&self.graph);
        let mut first: Option<usize> = None;
        let mut found = false;
        let mut j: usize = 0;
        while j < m && !found
            invariant
                m == es.len(),
                es == graph_edges(self.graph),
                j <= m,
                first is None ==> forall|k: int| 0 <= k < j ==> (#[trigger] es[k]).1 != node,
                first is Some ==> es.contains((first->0, node)),
                first is Some && !found ==> forall|k: int|
                    0 <= k < j && (#[trigger] es[k]).1 == node ==> es[k].0 == first->0,
                found ==> is_suspect(self@.edges, node),
            decreases m - j,
        {
            let (src, tgt) = graph_edge_endpoints(&self.graph, j).unwrap();
            if tgt == node {
                assert(es[j as int] == (src, tgt));
                match first {
                    None => {
                        first = Some(src);
                    },
                    Some(f) => {
                        if f != src {
                            assert(self@.edges.contains((f, node)));
                            assert(self@.edges.contains((src, node)));
                            found = true;
                        }
                    },
                }
            }
            j = j + 1;
        }
        if !found {
            assert forall|s1: usize, s2: usize|
                s1 != s2 && #[trigger] self@.edges.contains((s1, node)) implies !#[trigger] self@.edges.contains(
                (s2, node),
            ) by {
                if self@.edges.contains((s2, node)) {
                    let k1 = choose|k: int| 0 <= k < es.len() && #[trigger] es[k] == (s1, node);
                    let k2 = choose|k: int| 0 <= k < es.len() && #[trigger] es[k] == (s2, node);
                    assert(es[k1].1 == node);
                    assert(es[k2].1 == node);
                }
            }
        }
        found
    }

    /// The slots of the nodes that two or more different nodes point to, in
    /// node order: the candidates for aliasing.
    pub fn aliasing_test(&self) -> (r: Vec<u32>)
        requires
            self.wf(),
        ensures
            r@ == suspects_upto(self@.nodes, self@.edges, self@.nodes.len()),
    {
        let n = graph_node_count(&self.graph);
        let mut result: Vec<u32> = Vec::new();
        let mut i: usize = 0;
        while i < n
            invariant
                n == self@.nodes.len(),
                i <= n,
                result@ == suspects_upto(self@.nodes, self@.edges, i as nat),
            decreases n - i,
        {
            if self.has_two_sources(i) {
                let w = graph_node_weight(&self.graph, i);
                result.push(w);
            }
            i = i + 1;
        }
        result
    }

    /// Merges a callee's graph into this one. A callee node whose slot
    /// `args_ref` maps is folded onto the node of the mapped caller slot;
    /// every other callee node is added as a fresh node. Each callee edge is
    /// then added between the corresponding nodes.
    pub fn extend(&mut self, graph: SlotGraph, args_ref: HashMap<u32, u32>)
        requires
            old(self).wf(),
            forall|w: u32| #[trigger]
                args_ref@.contains_key(w) ==> old(self)@.vars.contains_key(args_ref@[w]),
            forall|k: int|
                0 <= k < graph_edges(graph).len() ==> (#[trigger] graph_edges(graph)[k]).0
                    < graph_nodes(graph).len() && graph_edges(graph)[k].1 < graph_nodes(graph).len(),
        ensures
            final(self).wf(),
            final(self)@ == view_after_merge(
                old(self)@,
                graph_nodes(graph),
                graph_edges(graph).to_set(),
                args_ref@,
            ),
    {
        let ghost g0 = self@;
        let ghost e0 = graph_edges(self.graph);
        let ghost sub = graph_nodes(graph);
        let ghost sub_edges = graph_edges(graph);
        let ghost m = args_ref@;
        let sub_count = graph_node_count(&graph);
        let mut image: Vec<usize> = Vec::new();
        let mut i: usize = 0;
        proof {
            assert(sub.take(0) =~= Seq::<u32>::empty());
        }
        while i < sub_count
            invariant
                sub_count == sub.len(),
                sub == graph_nodes(graph),
                m == args_ref@,
                i <= sub_count,
                self.wf(),
                self@.vars == g0.vars,
                graph_edges(self.graph) == e0,
                graph_nodes(self.graph) == imported_nodes(g0.nodes, sub.take(i as int), m),
                image@.len() == i,
                forall|j: int| 0 <= j < i ==> #[trigger] image@[j] == node_image(g0, sub, m, j),
                forall|j: int| 0 <= j < i ==> #[trigger] image@[j] < graph_nodes(self.graph).len(),
                forall|w: u32| #[trigger] m.contains_key(w) ==> g0.vars.contains_key(m[w]),
                g0.nodes.len() <= graph_nodes(self.graph).len(),
                graph_nodes(self.graph).take(g0.nodes.len() as int) == g0.nodes,
            decreases sub_count - i,
        {
            let ghost before = graph_nodes(self.graph);
            let w = graph_node_weight(&graph, i);
            assert(sub.take(i + 1).drop_last() =~= sub.take(i as int));
            assert(sub.take(i + 1).last() == w);
            match args_ref.get(&w) {
                Some(caller_slot) => {
                    let n = self.get_variable(*caller_slot);
                    image.push(n);
                },
                None => {
                    let n = graph_add_node(&mut self.graph, w);
                    image.push(n);
                    assert(graph_nodes(self.graph).take(g0.nodes.len() as int) =~= before.take(
                        g0.nodes.len() as int,
                    ));
                    assert forall|s: u32| #[trigger] self.variables@.contains_key(s) implies self.variables@[s]
                        < graph_nodes(self.graph).len() && graph_nodes(self.graph)[self.variables@[s] as int]
                        == s by {
                        assert(before[self.variables@[s] as int] == s);
                    }
                },
            }
            i = i + 1;
        }
        assert(sub.take(sub_count as int) =~= sub);
        let ghost nodes1 = graph_nodes(self.graph);
        let edge_count = graph_edge_count(&graph);
        let mut k: usize = 0;
        while k < edge_count
            invariant
                edge_count == sub_edges.len(),
                sub_edges == graph_edges(graph),
                sub == graph_nodes(graph),
                k <= edge_count,
                self.wf(),
                self@.vars == g0.vars,
                graph_nodes(self.graph) == nodes1,
                image@.len() == sub.len(),
                forall|j: int| 0 <= j < sub.len() ==> #[trigger] image@[j] == node_image(g0, sub, m, j),
                forall|j: int| 0 <= j < sub.len() ==> #[trigger] image@[j] < nodes1.len(),
                forall|q: int|
                    0 <= q < sub_edges.len() ==> (#[trigger] sub_edges[q]).0 < sub.len()
                        && sub_edges[q].1 < sub.len(),
                graph_edges(self.graph).len() == e0.len() + k,
                graph_edges(self.graph).take(e0.len() as int) == e0,
                forall|q: int|
                    0 <= q < k ==> #[trigger] graph_edges(self.graph)[e0.len() + q] == (
                        node_image(g0, sub, m, sub_edges[q].0 as int),
                        node_image(g0, sub, m, sub_edges[q].1 as int),
                    ),
            decreases edge_count - k,
        {
            let ghost before = graph_edges(self.graph);
            let (s, t) = graph_edge_endpoints(&graph, k).unwrap();
            assert(sub_edges[k as int] == (s, t));
            let a = image[s];
            let b = image[t];
            graph_add_edge(&mut self.graph, a, b);
            let ghost after = graph_edges(self.graph);
            assert(after.take(e0.len() as int) =~= before.take(e0.len() as int));
            assert forall|q: int| 0 <= q < k + 1 implies #[trigger] after[e0.len() + q] == (
                node_image(g0, sub, m, sub_edges[q].0 as int),
                node_image(g0, sub, m, sub_edges[q].1 as int),
            ) by {
                if q < k {
                    assert(after[e0.len() + q] == before[e0.len() + q]);
                }
            }
            assert forall|q: int| 0 <= q < after.len() implies (#[trigger] after[q]).0 < nodes1.len()
                && after[q].1 < nodes1.len() by {
                if q < before.len() {
                    assert(after[q] == before[q]);
                }
            }
            k = k + 1;
        }
        let ghost fin = graph_edges(self.graph);
        let ghost target = view_after_merge(g0, sub, sub_edges.to_set(), m);
        proof {
            lemma_imported_prefix(g0.nodes, sub, m);
            assert forall|e: (usize, usize)| #[trigger] self@.edges.contains(e) <==> target.edges.contains(e) by {
                if fin.contains(e) {
                    let q = choose|q: int| 0 <= q < fin.len() && #[trigger] fin[q] == e;
                    if q < e0.len() {
                        assert(fin.take(e0.len() as int)[q] == e);
                        assert(e0.contains(e));
                    } else {
                        let r = q - e0.len();
                        assert(fin[e0.len() + r] == e);
                        assert(sub_edges.to_set().contains(sub_edges[r]));
                    }
                }
                if g0.edges.contains(e) {
                    let q = choose|q: int| 0 <= q < e0.len() && #[trigger] e0[q] == e;
                    assert(fin.take(e0.len() as int)[q] == e);
                    assert(fin[q] == e);
                }
                if target.edges.contains(e) && !g0.edges.contains(e) {
                    let se = choose|se: (usize, usize)| #[trigger] sub_edges.to_set().contains(se) && e == (
                        node_image(g0, sub, m, se.0 as int),
                        node_image(g0, sub, m, se.1 as int),
                    );
                    let r = choose|r: int| 0 <= r < sub_edges.len() && #[trigger] sub_edges[r] == se;
                    assert(fin[e0.len() + r] == e);
                }
            }
            assert(self@.edges =~= target.edges);
        }
    }

}

/// Aliasing is symmetric: `a` may alias `b` exactly when `b` may alias `a`.
pub proof fn lemma_may_alias_symmetric(g: GraphView, a: u32, b: u32)
    ensures
        may_alias_view(g, a, b) == may_alias_view(g, b, a),
{
    if may_alias_view(g, a, b) {
        let n = choose|n: usize| reaches(g.edges, g.vars[a], n) && reaches(g.edges, g.vars[b], n);
        assert(reaches(g.edges, g.vars[b], n) && reaches(g.edges, g.vars[a], n));
    }
    if may_alias_view(g, b, a) {
        let n = choose|n: usize| reaches(g.edges, g.vars[b], n) && reaches(g.edges, g.vars[a], n);
        assert(reaches(g.edges, g.vars[a], n) && reaches(g.edges, g.vars[b], n));
    }
}

/// Two registered slots with edges into the node of one slot `c` may alias.
pub proof fn lemma_common_target_aliases(g: GraphView, a: u32, b: u32, c: u32)
    requires
        g.vars.contains_key(a),
        g.vars.contains_key(b),
        g.vars.contains_key(c),
        g.edges.contains((g.vars[a], g.vars[c])),
        g.edges.contains((g.vars[b], g.vars[c])),
    ensures
        may_alias_view(g, a, b),
{
    let n = g.vars[c];
    lemma_edge_reaches(g.edges, g.vars[a], n);
    lemma_edge_reaches(g.edges, g.vars[b], n);
}

/// An edge is a path.
proof fn lemma_edge_reaches(edges: Set<(usize, usize)>, a: usize, b: usize)
    requires
        edges.contains((a, b)),
    ensures
        reaches(edges, a, b),
{
    reveal(reaches);
    let p = seq![a, b];
    assert(p[0] == a && p[1] == b && p.last() == b);
    assert forall|i: int| 0 <= i < p.len() - 1 implies edges.contains((#[trigger] p[i], p[i + 1])) by {
        assert(i == 0);
    }
    assert(is_path(edges, p));
}

/// Every node reaches itself.
proof fn lemma_reaches_self(edges: Set<(usize, usize)>, a: usize)
    ensures
        reaches(edges, a, a),
{
    reveal(reaches);
    let p = seq![a];
    assert(p[0] == a && p.last() == a);
    assert(is_path(edges, p));
}

/// A node without outgoing edges reaches only itself.
proof fn lemma_reaches_from_sink(edges: Set<(usize, usize)>, a: usize, n: usize)
    requires
        forall|e: (usize, usize)| #[trigger] edges.contains(e) ==> e.0 != a,
        reaches(edges, a, n),
    ensures
        n == a,
{
    reveal(reaches);
    let p = choose|p: Seq<usize>| is_path(edges, p) && p[0] == a && p.last() == n;
    if p.len() > 1 {
        assert(edges.contains((p[0], p[1])));
    }
}

/// Once `a` and then `b` are recorded as pointing to the same slot `c`, `a`
/// and `b` may alias.
pub proof fn lemma_points_to_same_target(g: GraphView, a: u32, b: u32, c: u32)
    requires
        g.vars.contains_key(c),
    ensures
        may_alias_view(view_after_points_to(view_after_points_to(g, a, c), b, c), a, b),
{
    let g1 = view_after_points_to(g, a, c);
    let g2 = view_after_points_to(g1, b, c);
    assert(g2.vars[a] == g1.vars[a]);
    assert(g2.vars[c] == g1.vars[c]);
    assert(g2.edges.contains((g2.vars[a], g2.vars[c])));
    lemma_common_target_aliases(g2, a, b, c);
}

/// After slot `a` is overwritten with a plain value it has no outgoing edge,
/// so it may alias a slot `x` only where `x` itself reaches the node of `a`.
pub proof fn lemma_value_clears_aliasing(g: GraphView, a: u32, x: u32)
    requires
        view_wf(g),
        g.nodes.len() <= usize::MAX,
    ensures
        may_alias_view(view_after_value(g, a), a, x) <==> (view_after_value(g, a).vars.contains_key(x)
            && reaches(
            view_after_value(g, a).edges,
            view_after_value(g, a).vars[x],
            view_after_value(g, a).vars[a],
        )),
{
    let g1 = view_after_value(g, a);
    let va = g1.vars[a];
    if g.vars.contains_key(a) {
        assert forall|e: (usize, usize)| #[trigger] g1.edges.contains(e) implies e.0 != va by {
            assert(g.edges.filter(|e: (usize, usize)| e.0 != g.vars[a]).contains(e));
        }
    } else {
        assert forall|e: (usize, usize)| #[trigger] g1.edges.contains(e) implies e.0 != va by {
            assert(g.edges.contains(e));
        }
    }
    if may_alias_view(g1, a, x) {
        let n = choose|n: usize| reaches(g1.edges, va, n) && reaches(g1.edges, g1.vars[x], n);
        lemma_reaches_from_sink(g1.edges, va, n);
    }
    if g1.vars.contains_key(x) && reaches(g1.edges, g1.vars[x], va) {
        lemma_reaches_self(g1.edges, va);
    }
}

} // verus!
