use crate::digraph::{
    acyclic, add_edge, add_node, clone_graph, edge_weight, edges_within, graph_edges, graph_nodes, graph_order,
    is_topo_order, neighbors, edge_count, new_graph, remove_edge, remove_node, toposort, IdGraph,
};
use crate::video_node::{node_advanced, VideoNode};
use std::collections::HashMap;
use vstd::prelude::*;

verus! {

broadcast use vstd::std_specs::hash::group_hash_axioms;

/// Why a change of the graph was refused; the graph is left as it was.
#[derive(Clone, Copy, Debug, PartialEq, Eq, Structural)]
pub enum GraphError {
    /// An edge from a node to itself.
    SelfEdge,
    /// An identity that names no node of the graph.
    UnknownNode,
    /// A slot at or past the target's input count.
    InvalidSlot,
    /// Splicing a node in whose first input is taken by another node, or
    /// which has no input at all.
    SpliceConflict,
    /// The change would close a cycle.
    Cycle,
}

/// Each (target, slot) pair has at most one source.
pub open spec fn slots_unique(edges: Map<(usize, usize), usize>) -> bool {
    forall|a: usize, b: usize, d: usize|
        #[trigger] edges.contains_key((a, d)) && #[trigger] edges.contains_key((b, d)) && edges[(a, d)]
            == edges[(b, d)] ==> a == b
}

/// The node feeding slot `slot` of `dst`, if any.
pub open spec fn occupant(edges: Map<(usize, usize), usize>, dst: usize, slot: usize) -> Option<usize> {
    if exists|a: usize| #[trigger] edges.contains_key((a, dst)) && edges[(a, dst)] == slot {
        Some(choose|a: usize| #[trigger] edges.contains_key((a, dst)) && edges[(a, dst)] == slot)
    } else {
        None
    }
}

/// The edges after connecting `src` to slot `slot` of `dst`: a source
/// already in that slot is moved to the first input of `src`.
pub open spec fn spliced(edges: Map<(usize, usize), usize>, src: usize, dst: usize, slot: usize) -> Map<
    (usize, usize),
    usize,
> {
    match occupant(edges, dst, slot) {
        Some(a) => if a == src {
            edges
        } else {
            edges.remove((a, dst)).insert((a, src), 0).insert((src, dst), slot)
        },
        None => edges.insert((src, dst), slot),
    }
}

/// The edges after taking `id` out of the flow: its edges are gone, and
/// the node in its first input, if any, feeds each of its consumers in the
/// slot that `id` fed.
pub open spec fn rewired(edges: Map<(usize, usize), usize>, id: usize) -> Map<(usize, usize), usize> {
    let src = occupant(edges, id, 0);
    Map::new(
        |k: (usize, usize)|
            k.0 != id && k.1 != id && (edges.contains_key(k) || (src == Some(k.0) && edges.contains_key(
                (id, k.1),
            ))),
        |k: (usize, usize)|
            if src == Some(k.0) && edges.contains_key((id, k.1)) {
                edges[(id, k.1)]
            } else {
                edges[k]
            },
    )
}

/// The weight of `a -> b`, if that edge is present.
pub open spec fn edge_weight_is(edges: Map<(usize, usize), usize>, a: usize, b: usize) -> Option<usize> {
    if edges.contains_key((a, b)) {
        Some(edges[(a, b)])
    } else {
        None
    }
}

proof fn lemma_take_next(s: Seq<usize>, n: int)
    requires
        0 <= n < s.len(),
    ensures
        forall|x: usize| #[trigger] s.take(n + 1).contains(x) <==> (s.take(n).contains(x) || x == s[n]),
{
    assert(s.take(n + 1) =~= s.take(n).push(s[n]));
    assert forall|x: usize| #[trigger] s.take(n + 1).contains(x) <==> (s.take(n).contains(x) || x == s[n]) by {
        let t = s.take(n);
        if t.contains(x) {
            let k = choose|k: int| 0 <= k < t.len() && t[k] == x;
            assert(s.take(n + 1)[k] == x);
        }
        if x == s[n] {
            assert(s.take(n + 1)[n] == x);
        }
        let u = s.take(n + 1);
        if u.contains(x) {
            let k = choose|k: int| 0 <= k < u.len() && u[k] == x;
            if k < n {
                assert(t[k] == x);
            }
        }
    }
}

proof fn lemma_no_self_edge(nodes: Set<usize>, edges: Map<(usize, usize), usize>, x: usize)
    requires
        acyclic(nodes, edges),
        edges_within(nodes, edges),
    ensures
        !edges.contains_key((x, x)),
{
    if edges.contains_key((x, x)) {
        let s = choose|s: Seq<usize>| is_topo_order(nodes, edges, s);
        assert(s.to_set().contains(x));
        let i = choose|i: int| 0 <= i < s.len() && s[i] == x;
        assert(edges.contains_key((s[i], s[i])));
    }
}

/// Taking a node out of the flow keeps the graph acyclic: an order that
/// suits the edges before suits them after.
pub proof fn lemma_rewired_acyclic(nodes: Set<usize>, edges: Map<(usize, usize), usize>, id: usize)
    requires
        acyclic(nodes, edges),
        edges_within(nodes, edges),
    ensures
        acyclic(nodes, rewired(edges, id)),
{
    let s = choose|s: Seq<usize>| is_topo_order(nodes, edges, s);
    let r = rewired(edges, id);
    assert forall|i: int, j: int|
        0 <= i < s.len() && 0 <= j < s.len() && r.contains_key((#[trigger] s[i], #[trigger] s[j])) implies i < j by {
        let src = occupant(edges, id, 0);
        if src == Some(s[i]) && edges.contains_key((id, s[j])) {
            assert(edges.contains_key((s[i], id)));
            assert(nodes.contains(id));
            assert(s.contains(id)) by {
                assert(s.to_set().contains(id));
            }
            let k = choose|k: int| 0 <= k < s.len() && s[k] == id;
            assert(edges.contains_key((s[i], s[k])));
            assert(edges.contains_key((s[k], s[j])));
        } else {
            assert(edges.contains_key((s[i], s[j])));
        }
    }
    assert(is_topo_order(nodes, r, s));
}

/// Removing a node and its edges keeps the graph acyclic.
proof fn lemma_remove_keeps_acyclic(nodes: Set<usize>, edges: Map<(usize, usize), usize>, id: usize)
    requires
        acyclic(nodes, edges),
    ensures
        acyclic(
            nodes.remove(id),
            edges.restrict(edges.dom().filter(|k: (usize, usize)| k.0 != id && k.1 != id)),
        ),
{
    let s = choose|s: Seq<usize>| is_topo_order(nodes, edges, s);
    let e2 = edges.restrict(edges.dom().filter(|k: (usize, usize)| k.0 != id && k.1 != id));
    if !s.contains(id) {
        assert(!nodes.contains(id)) by {
            if nodes.contains(id) {
                assert(s.to_set().contains(id));
            }
        }
        assert(nodes.remove(id) =~= nodes);
        assert forall|i: int, j: int|
            0 <= i < s.len() && 0 <= j < s.len() && e2.contains_key((#[trigger] s[i], #[trigger] s[j])) implies i < j by {
            assert(edges.contains_key((s[i], s[j])));
        }
        assert(is_topo_order(nodes.remove(id), e2, s));
    } else {
        let k = choose|k: int| 0 <= k < s.len() && s[k] == id;
        let t = s.remove(k);
        assert forall|i: int| 0 <= i < t.len() implies #[trigger] t[i] == (if i < k { s[i] } else { s[i + 1] }) by {}
        assert(t.no_duplicates()) by {
            assert forall|i: int, j: int| 0 <= i < t.len() && 0 <= j < t.len() && i != j implies t[i] != t[j] by {
                let si = if i < k { i } else { i + 1 };
                let sj = if j < k { j } else { j + 1 };
                assert(t[i] == s[si] && t[j] == s[sj]);
            }
        }
        assert(t.to_set() =~= nodes.remove(id)) by {
            assert forall|x: usize| t.to_set().contains(x) <==> nodes.remove(id).contains(x) by {
                if t.contains(x) {
                    let i = choose|i: int| 0 <= i < t.len() && t[i] == x;
                    let si = if i < k { i } else { i + 1 };
                    assert(s[si] == x);
                    assert(s.to_set().contains(x));
                    assert(si != k);
                }
                if nodes.remove(id).contains(x) {
                    assert(s.to_set().contains(x));
                    let j = choose|j: int| 0 <= j < s.len() && s[j] == x;
                    assert(j != k);
                    let ti = if j < k { j } else { j - 1 };
                    assert(t[ti] == x);
                }
            }
        }
        assert forall|i: int, j: int|
            0 <= i < t.len() && 0 <= j < t.len() && e2.contains_key((#[trigger] t[i], #[trigger] t[j])) implies i < j by {
            let si = if i < k { i } else { i + 1 };
            let sj = if j < k { j } else { j + 1 };
            assert(t[i] == s[si] && t[j] == s[sj]);
            assert(edges.contains_key((s[si], s[sj])));
        }
        assert(is_topo_order(nodes.remove(id), e2, t));
    }
}

/// Directed graph of video nodes. Edges carry the target's input slot;
/// the graph stays acyclic and gives each slot at most one source.
pub struct Graph {
    nodes: HashMap<usize, VideoNode>,
    digraph: IdGraph,
}

impl Graph {
    /// The nodes, by identity.
    pub closed spec fn node_map(&self) -> Map<usize, VideoNode> {
        self.nodes@
    }

    /// The edges, keyed by (source, target), each with its target slot.
    pub closed spec fn edges(&self) -> Map<(usize, usize), usize> {
        graph_edges(self.digraph)
    }

    pub open spec fn ids(&self) -> Set<usize> {
        self.node_map().dom()
    }

    pub open spec fn n_inputs_of(&self, id: usize) -> nat {
        self.node_map()[id].spec_n_inputs()
    }

    pub closed spec fn wf(&self) -> bool {
        &&& graph_nodes(self.digraph) == self.nodes@.dom()
        &&& edges_within(self.nodes@.dom(), graph_edges(self.digraph))
        &&& forall|k: usize| #[trigger] self.nodes@.contains_key(k) ==> self.nodes@[k].spec_id() == k
            && self.nodes@[k].wf()
        &&& forall|a: usize, d: usize| #[trigger]
            graph_edges(self.digraph).contains_key((a, d)) ==> graph_edges(self.digraph)[(a, d)]
                < self.nodes@[d].spec_n_inputs()
        &&& slots_unique(graph_edges(self.digraph))
        &&& acyclic(self.nodes@.dom(), graph_edges(self.digraph))
    }

    /// An empty graph.
    pub fn new() -> (r: Graph)
        ensures
            r.wf(),
            r.node_map() == Map::<usize, VideoNode>::empty(),
            r.edges() == Map::<(usize, usize), usize>::empty(),
    {
        let r = Graph { nodes: HashMap::new(), digraph: new_graph() };
        proof {
            assert(graph_nodes(r.digraph) =~= r.nodes@.dom());
            assert(Seq::<usize>::empty().to_set() =~= Set::<usize>::empty());
            assert(r.nodes@.dom() =~= Set::<usize>::empty());
            assert(is_topo_order(r.nodes@.dom(), graph_edges(r.digraph), Seq::<usize>::empty()));
            assert(r.edges() =~= Map::<(usize, usize), usize>::empty());
        }
        r
    }

    /// Number of nodes.
    pub fn node_count(&self) -> (r: usize)
        ensures
            r == self.ids().len(),
    {
        self.nodes.len()
    }

    /// Adds `node` with no edges; refused where its identity is taken.
    pub fn add_videonode(&mut self, node: VideoNode) -> (r: bool)
        requires
            old(self).wf(),
            node.wf(),
        ensures
            final(self).wf(),
            r == !old(self).ids().contains(node.spec_id()),
            r ==> final(self).node_map() == old(self).node_map().insert(node.spec_id(), node),
            !r ==> final(self).node_map() == old(self).node_map(),
            final(self).edges() == old(self).edges(),
    {
        let id = node.id();
        if self.nodes.contains_key(&id) {
            return false;
        }
        let ghost old_nodes = self.nodes@.dom();
        let ghost edges = self.edges();
        proof {
            let s = choose|s: Seq<usize>| is_topo_order(old_nodes, edges, s);
            let t = s.push(id);
            assert(!s.contains(id)) by {
                assert(!s.to_set().contains(id));
            }
            assert(t.to_set() =~= old_nodes.insert(id)) by {
                assert forall|x: usize| t.to_set().contains(x) <==> old_nodes.insert(id).contains(x) by {
                    if x != id {
                        assert(t.contains(x) <==> s.contains(x)) by {
                            if s.contains(x) {
                                let i = choose|i: int| 0 <= i < s.len() && s[i] == x;
                                assert(t[i] == x);
                            }
                        }
                    } else {
                        assert(t[s.len() as int] == id);
                    }
                }
            }
            assert forall|i: int, j: int|
                0 <= i < t.len() && 0 <= j < t.len() && edges.contains_key((#[trigger] t[i], #[trigger] t[j]))
                    implies i < j by {
                if i == s.len() {
                    assert(old_nodes.contains(t[i]));
                } else if j == s.len() {
                    assert(old_nodes.contains(t[j]));
                } else {
                    assert(t[i] == s[i] && t[j] == s[j]);
                }
            }
            assert(is_topo_order(old_nodes.insert(id), edges, t));
        }
        add_node(&mut self.digraph, id);
        self.nodes.insert(id, node);
        proof {
            assert(graph_nodes(self.digraph) =~= self.nodes@.dom());
        }
        true
    }

    /// The node feeding slot `slot` of `dst`, if any.
    pub fn input_for_id(&self, dst: usize, slot: usize) -> (r: Option<usize>)
        requires
            self.wf(),
        ensures
            r == occupant(self.edges(), dst, slot),
    {
        let srcs = neighbors(&self.digraph, dst, true);
        let mut i: usize = 0;
        while i < srcs.len()
            invariant
                self.wf(),
                i <= srcs@.len(),
                forall|b: usize| #[trigger] srcs@.contains(b) <==> self.edges().contains_key((b, dst)),
                forall|k: int| 0 <= k < i ==> edge_weight_is(self.edges(), #[trigger] srcs@[k], dst) != Some(slot),
            decreases srcs@.len() - i,
        {
            let a = srcs[i];
            assert(srcs@.contains(a));
            if edge_weight(&self.digraph, a, dst) == Some(slot) {
                proof {
                    let e = self.edges();
                    assert(e.contains_key((a, dst)) && e[(a, dst)] == slot);
                    let c = choose|c: usize| #[trigger] e.contains_key((c, dst)) && e[(c, dst)] == slot;
                    assert(slots_unique(e));
                    assert(c == a);
                }
                return Some(a);
            }
            i = i + 1;
        }
        proof {
            assert forall|a: usize| #[trigger] self.edges().contains_key((a, dst)) implies self.edges()[(a, dst)] != slot by {
                assert(srcs@.contains(a));
                let k = choose|k: int| 0 <= k < srcs@.len() && srcs@[k] == a;
                assert(edge_weight_is(self.edges(), srcs@[k], dst) != Some(slot));
            }
        }
        None
    }

    /// Why connecting `src` to slot `slot` of `dst` is refused, if it is.
    pub open spec fn edge_error(&self, src: usize, dst: usize, slot: usize) -> Option<GraphError> {
        let e = self.edges();
        if src == dst {
            Some(GraphError::SelfEdge)
        } else if !self.ids().contains(src) || !self.ids().contains(dst) {
            Some(GraphError::UnknownNode)
        } else if slot >= self.n_inputs_of(dst) {
            Some(GraphError::InvalidSlot)
        } else if (match occupant(e, dst, slot) {
            Some(a) => a != src && (self.n_inputs_of(src) == 0 || (occupant(e, src, 0) is Some
                && occupant(e, src, 0) != Some(a))),
            None => false,
        }) {
            Some(GraphError::SpliceConflict)
        } else if !acyclic(self.ids(), spliced(e, src, dst, slot)) {
            Some(GraphError::Cycle)
        } else {
            None
        }
    }

    /// Connects `src` to input slot `slot` of `dst`. Where that slot is
    /// taken, the node in it is moved to the first input of `src`, so that
    /// `src` is spliced into the existing edge.
    pub fn add_edge_by_ids(&mut self, src: usize, dst: usize, slot: usize) -> (r: Result<(), GraphError>)
        requires
            old(self).wf(),
        ensures
            final(self).wf(),
            final(self).node_map() == old(self).node_map(),
            match old(self).edge_error(src, dst, slot) {
                Some(e) => r == Err::<(), GraphError>(e) && final(self).edges() == old(self).edges(),
                None => r is Ok && final(self).edges() == spliced(old(self).edges(), src, dst, slot),
            },
    {
        if src == dst {
            return Err(GraphError::SelfEdge);
        }
        let (n_src, n_dst) = match (self.nodes.get(&src), self.nodes.get(&dst)) {
            (Some(a), Some(b)) => (a.n_inputs(), b.n_inputs()),
            _ => {
                return Err(GraphError::UnknownNode);
            },
        };
        if slot >= n_dst {
            return Err(GraphError::InvalidSlot);
        }
        let ghost e = self.edges();
        let old_src = self.input_for_id(dst, slot);
        let mut g = clone_graph(&self.digraph);
        match old_src {
            Some(a) => {
                if a != src {
                    if n_src == 0 {
                        return Err(GraphError::SpliceConflict);
                    }
                    match self.input_for_id(src, 0) {
                        Some(c) => {
                            if c != a {
                                return Err(GraphError::SpliceConflict);
                            }
                        },
                        None => {},
                    }
                    remove_edge(&mut g, a, dst);
                    add_edge(&mut g, a, src, 0);
                    add_edge(&mut g, src, dst, slot);
                }
            },
            None => {
                add_edge(&mut g, src, dst, slot);
            },
        }
        proof {
            assert(graph_edges(g) == spliced(e, src, dst, slot));
            assert(graph_nodes(g) =~= graph_nodes(self.digraph));
        }
        match toposort(&g) {
            Some(_) => {
                proof {
                    let e2 = graph_edges(g);
                    let nodes = self.nodes@;
                    assert forall|x: usize, d: usize| #[trigger] e2.contains_key((x, d)) implies
                        e2[(x, d)] < nodes[d].spec_n_inputs()
                        && nodes.dom().contains(x) && nodes.dom().contains(d) by {
                        if !(x == src && d == dst) && !(old_src is Some && x == old_src->0 && d == src) {
                            assert(e.contains_key((x, d)));
                        }
                    }
                    assert forall|x: usize, y: usize, d: usize|
                        #[trigger] e2.contains_key((x, d)) && #[trigger] e2.contains_key((y, d)) && e2[(x, d)]
                            == e2[(y, d)] implies x == y by {
                        let a = old_src;
                        if d == dst && e2[(x, d)] == slot {
                            if x != src {
                                assert(e.contains_key((x, d)) && e[(x, d)] == slot);
                            }
                            if y != src {
                                assert(e.contains_key((y, d)) && e[(y, d)] == slot);
                            }
                        } else if a is Some && a->0 != src && d == src && e2[(x, d)] == 0 {
                            if x != a->0 {
                                assert(e.contains_key((x, d)) && e[(x, d)] == 0);
                            }
                            if y != a->0 {
                                assert(e.contains_key((y, d)) && e[(y, d)] == 0);
                            }
                        } else {
                            if !(x == src && d == dst) && !(a is Some && x == a->0 && d == src) {
                                assert(e.contains_key((x, d)));
                            }
                            if !(y == src && d == dst) && !(a is Some && y == a->0 && d == src) {
                                assert(e.contains_key((y, d)));
                            }
                        }
                    }
                }
                self.digraph = g;
                Ok(())
            },
            None => Err(GraphError::Cycle),
        }
    }

    /// The order in which `toposort` lists the nodes; it depends on the
    /// graph's value alone, so an unchanged graph is always listed alike.
    pub closed spec fn order(&self) -> Seq<usize> {
        graph_order(self.digraph)
    }

    /// Every node, each edge's source before its target, in `order()`.
    pub fn toposort(&self) -> (r: Vec<usize>)
        requires
            self.wf(),
        ensures
            is_topo_order(self.ids(), self.edges(), r@),
            r@ == self.order(),
    {
        match toposort(&self.digraph) {
            Some(order) => order,
            None => Vec::new(),
        }
    }

    /// For each input slot of node `id`, the node feeding it, if any.
    pub fn node_inputs(&self, id: usize) -> (r: Option<Vec<Option<usize>>>)
        requires
            self.wf(),
        ensures
            r is Some <==> self.ids().contains(id),
            r matches Some(v) ==> {
                &&& v@.len() == self.n_inputs_of(id)
                &&& forall|i: int| 0 <= i < v@.len() ==> #[trigger] v@[i] == occupant(self.edges(), id, i as usize)
            },
    {
        let n = match self.nodes.get(&id) {
            Some(node) => node.n_inputs(),
            None => {
                return None;
            },
        };
        let mut v: Vec<Option<usize>> = Vec::new();
        let mut i: usize = 0;
        while i < n
            invariant
                self.wf(),
                i <= n,
                v@.len() == i,
                forall|k: int| 0 <= k < i ==> #[trigger] v@[k] == occupant(self.edges(), id, k as usize),
            decreases n - i,
        {
            v.push(self.input_for_id(id, i));
            i = i + 1;
        }
        Some(v)
    }

    /// Takes node `id` out of the flow: its edges are removed, and the node
    /// in its first input, if any, feeds each of its consumers instead.
    pub fn disconnect_node(&mut self, id: usize) -> (r: Result<(), GraphError>)
        requires
            old(self).wf(),
        ensures
            final(self).wf(),
            final(self).node_map() == old(self).node_map(),
            !old(self).ids().contains(id) ==> r == Err::<(), GraphError>(GraphError::UnknownNode)
                && final(self).edges() == old(self).edges(),
            old(self).ids().contains(id) ==> r is Ok && final(self).edges() == rewired(old(self).edges(), id),
    {
        if !self.nodes.contains_key(&id) {
            return Err(GraphError::UnknownNode);
        }
        let ghost e = self.edges();
        let ghost nodes = self.nodes@;
        proof {
            lemma_no_self_edge(nodes.dom(), e, id);
        }
        let src = self.input_for_id(id, 0);
        let ins = neighbors(&self.digraph, id, true);
        let outs = neighbors(&self.digraph, id, false);
        let mut g = clone_graph(&self.digraph);
        let mut i: usize = 0;
        while i < ins.len()
            invariant
                i <= ins@.len(),
                forall|b: usize| #[trigger] ins@.contains(b) <==> e.contains_key((b, id)),
                ins@.no_duplicates(),
                graph_nodes(g) == nodes.dom(),
                forall|k: (usize, usize)| #[trigger] graph_edges(g).contains_key(k) <==> (e.contains_key(k)
                    && !(k.1 == id && ins@.take(i as int).contains(k.0))),
                forall|k: (usize, usize)| #[trigger] graph_edges(g).contains_key(k) ==> graph_edges(g)[k] == e[k],
            decreases ins@.len() - i,
        {
            remove_edge(&mut g, ins[i], id);
            proof {
                lemma_take_next(ins@, i as int);
            }
            i = i + 1;
        }
        proof {
            assert(ins@.take(ins@.len() as int) =~= ins@);
        }
        let mut j: usize = 0;
        while j < outs.len()
            invariant
                self.wf(),
                e == self.edges(),
                nodes == self.nodes@,
                src == occupant(e, id, 0),
                !e.contains_key((id, id)),
                j <= outs@.len(),
                forall|b: usize| #[trigger] outs@.contains(b) <==> e.contains_key((id, b)),
                outs@.no_duplicates(),
                graph_nodes(g) == nodes.dom(),
                edges_within(nodes.dom(), graph_edges(g)),
                forall|k: (usize, usize)| #[trigger] graph_edges(g).contains_key(k) <==> (
                    (e.contains_key(k) && k.1 != id && !(k.0 == id && outs@.take(j as int).contains(k.1)))
                    || (src == Some(k.0) && outs@.take(j as int).contains(k.1))),
                forall|k: (usize, usize)| #[trigger] graph_edges(g).contains_key(k) ==> graph_edges(g)[k] == (
                    if src == Some(k.0) && outs@.take(j as int).contains(k.1) { e[(id, k.1)] } else { e[k] }),
            decreases outs@.len() - j,
        {
            let d = outs[j];
            proof {
                assert(outs@.contains(d));
            }
            let w = match edge_weight(&self.digraph, id, d) {
                Some(w) => w,
                None => 0,
            };
            remove_edge(&mut g, id, d);
            match src {
                Some(a) => {
                    add_edge(&mut g, a, d, w);
                },
                None => {},
            }
            proof {
                lemma_take_next(outs@, j as int);
                if src is Some {
                    assert(graph_nodes(g) =~= nodes.dom()) by {
                        assert(e.contains_key((src->0, id)));
                        assert(e.contains_key((id, d)));
                    }
                }
                assert forall|x: usize, y: usize| #[trigger] graph_edges(g).contains_key((x, y)) implies
                    nodes.dom().contains(x) && nodes.dom().contains(y) by {
                    if src == Some(x) && outs@.take(j + 1).contains(y) {
                        assert(e.contains_key((x, id)));
                        assert(outs@.contains(y)) by {
                            let tk = outs@.take(j + 1);
                            let k = choose|k: int| 0 <= k < tk.len() && tk[k] == y;
                            assert(outs@[k] == y);
                        }
                        assert(e.contains_key((id, y)));
                    } else {
                        assert(e.contains_key((x, y)));
                    }
                }
            }
            j = j + 1;
        }
        proof {
            assert(outs@.take(outs@.len() as int) =~= outs@);
            assert(graph_edges(g) =~= rewired(e, id));
            lemma_rewired_acyclic(nodes.dom(), e, id);
        }
        match toposort(&g) {
            Some(_) => {
                proof {
                    let e2 = graph_edges(g);
                    assert forall|x: usize, d: usize| #[trigger] e2.contains_key((x, d)) implies
                        e2[(x, d)] < nodes[d].spec_n_inputs()
                        && nodes.dom().contains(x) && nodes.dom().contains(d) by {
                        if src == Some(x) && e.contains_key((id, d)) {
                            assert(e.contains_key((x, id)));
                        } else {
                            assert(e.contains_key((x, d)));
                        }
                    }
                    assert forall|x: usize, y: usize, d: usize|
                        #[trigger] e2.contains_key((x, d)) && #[trigger] e2.contains_key((y, d)) && e2[(x, d)]
                            == e2[(y, d)] implies x == y by {
                        let xs = src == Some(x) && e.contains_key((id, d));
                        let ys = src == Some(y) && e.contains_key((id, d));
                        if xs && ys {
                        } else if xs {
                            assert(e.contains_key((y, d)));
                            assert(e.contains_key((id, d)));
                        } else if ys {
                            assert(e.contains_key((x, d)));
                            assert(e.contains_key((id, d)));
                        } else {
                            assert(e.contains_key((x, d)));
                            assert(e.contains_key((y, d)));
                        }
                    }
                }
                self.digraph = g;
                Ok(())
            },
            None => Err(GraphError::Cycle),
        }
    }

    /// Removes node `id` and every edge from or to it; `false` where there
    /// is no such node.
    pub fn remove_videonode(&mut self, id: usize) -> (r: bool)
        requires
            old(self).wf(),
        ensures
            final(self).wf(),
            r == old(self).ids().contains(id),
            final(self).node_map() == old(self).node_map().remove(id),
            final(self).edges() == old(self).edges().restrict(
                old(self).edges().dom().filter(|k: (usize, usize)| k.0 != id && k.1 != id),
            ),
    {
        let ghost nodes = self.nodes@.dom();
        let ghost e = self.edges();
        let ins = neighbors(&self.digraph, id, true);
        let outs = neighbors(&self.digraph, id, false);
        let mut g = clone_graph(&self.digraph);
        let mut i: usize = 0;
        while i < ins.len()
            invariant
                i <= ins@.len(),
                forall|b: usize| #[trigger] ins@.contains(b) <==> e.contains_key((b, id)),
                graph_nodes(g) == nodes,
                forall|k: (usize, usize)| #[trigger] graph_edges(g).contains_key(k) <==> (e.contains_key(k)
                    && !(k.1 == id && ins@.take(i as int).contains(k.0))),
                forall|k: (usize, usize)| #[trigger] graph_edges(g).contains_key(k) ==> graph_edges(g)[k] == e[k],
            decreases ins@.len() - i,
        {
            remove_edge(&mut g, ins[i], id);
            proof {
                lemma_take_next(ins@, i as int);
            }
            i = i + 1;
        }
        proof {
            assert(ins@.take(ins@.len() as int) =~= ins@);
        }
        let mut j: usize = 0;
        while j < outs.len()
            invariant
                j <= outs@.len(),
                forall|b: usize| #[trigger] outs@.contains(b) <==> e.contains_key((id, b)),
                graph_nodes(g) == nodes,
                forall|k: (usize, usize)| #[trigger] graph_edges(g).contains_key(k) <==> (e.contains_key(k)
                    && k.1 != id && !(k.0 == id && outs@.take(j as int).contains(k.1))),
                forall|k: (usize, usize)| #[trigger] graph_edges(g).contains_key(k) ==> graph_edges(g)[k] == e[k],
            decreases outs@.len() - j,
        {
            remove_edge(&mut g, id, outs[j]);
            proof {
                lemma_take_next(outs@, j as int);
            }
            j = j + 1;
        }
        proof {
            assert(outs@.take(outs@.len() as int) =~= outs@);
        }
        let present = remove_node(&mut g, id);
        proof {
            assert(graph_edges(g) =~= e.restrict(e.dom().filter(|k: (usize, usize)| k.0 != id && k.1 != id)));
        }
        self.digraph = g;
        self.nodes.remove(&id);
        proof {
            let e2 = self.edges();
            assert(graph_nodes(self.digraph) =~= self.nodes@.dom());
            assert forall|a: usize, b: usize| #[trigger] e2.contains_key((a, b)) implies
                self.nodes@.dom().contains(a) && self.nodes@.dom().contains(b) by {
                assert(e.contains_key((a, b)));
            }
            assert forall|a: usize, d: usize| #[trigger] e2.contains_key((a, d)) implies e2[(a, d)]
                < self.nodes@[d].spec_n_inputs() by {
                assert(e.contains_key((a, d)));
            }
            assert forall|a: usize, b: usize, d: usize|
                #[trigger] e2.contains_key((a, d)) && #[trigger] e2.contains_key((b, d)) && e2[(a, d)]
                    == e2[(b, d)] implies a == b by {
                assert(e.contains_key((a, d)) && e.contains_key((b, d)));
            }
            lemma_remove_keeps_acyclic(nodes, e, id);
            assert(self.nodes@.dom() =~= nodes.remove(id));
        }
        present
    }

    /// Sets the intensity of effect `id`, in thousandths; `false` where `id`
    /// names no effect.
    pub fn set_intensity(&mut self, id: usize, intensity: u32) -> (r: bool)
        requires
            old(self).wf(),
            intensity <= 1000,
        ensures
            final(self).wf(),
            r == (old(self).ids().contains(id) && old(self).node_map()[id].spec_kind() is Effect),
            r ==> final(self).node_map()[id].spec_kind()->Effect_0.spec_intensity() == intensity,
            !r ==> final(self).node_map() == old(self).node_map(),
            final(self).ids() == old(self).ids(),
            forall|k: usize| k != id ==> #[trigger] final(self).node_map()[k] == old(self).node_map()[k],
            final(self).edges() == old(self).edges(),
    {
        match self.nodes.remove(&id) {
            Some(mut node) => {
                let r = node.set_intensity(intensity);
                self.nodes.insert(id, node);
                proof {
                    assert(self.nodes@.dom() =~= old(self).nodes@.dom());
                    if !r {
                        assert(self.nodes@ =~= old(self).nodes@);
                    }
                }
                r
            },
            None => {
                proof {
                    assert(self.nodes@ =~= old(self).nodes@);
                }
                false
            },
        }
    }

    /// Advances every node to `time` (milliseconds), as
    /// `VideoNode::pre_render` does.
    pub fn pre_render(&mut self, time: u64)
        requires
            old(self).wf(),
        ensures
            final(self).wf(),
            final(self).ids() == old(self).ids(),
            final(self).edges() == old(self).edges(),
            forall|k: usize| #[trigger] old(self).ids().contains(k) ==> node_advanced(
                old(self).node_map()[k],
                final(self).node_map()[k],
                time,
            ),
    {
        let order = self.toposort();
        let ghost ids0 = self.ids();
        let ghost e0 = self.edges();
        let ghost m0 = self.node_map();
        let mut i: usize = 0;
        while i < order.len()
            invariant
                self.wf(),
                self.ids() == ids0,
                self.edges() == e0,
                m0.dom() == ids0,
                i <= order@.len(),
                order@.no_duplicates(),
                order@.to_set() == ids0,
                forall|j: int| 0 <= j < i ==> node_advanced(m0[#[trigger] order@[j]], self.node_map()[order@[j]], time),
                forall|j: int| i <= j < order@.len() ==> self.node_map()[#[trigger] order@[j]] == m0[order@[j]],
            decreases order@.len() - i,
        {
            let id = order[i];
            proof {
                assert(order@.to_set().contains(id));
            }
            match self.nodes.remove(&id) {
                Some(mut node) => {
                    node.pre_render(time);
                    self.nodes.insert(id, node);
                    proof {
                        assert(self.nodes@.dom() =~= ids0);
                        assert forall|j: int| 0 <= j < i + 1 implies node_advanced(m0[#[trigger] order@[j]], self.node_map()[order@[j]], time) by {
                            if j < i {
                                assert(order@[j] != id);
                            }
                        }
                        assert forall|j: int| i + 1 <= j < order@.len() implies self.node_map()[#[trigger] order@[j]] == m0[order@[j]] by {
                            assert(order@[j] != id);
                        }
                    }
                },
                None => {},
            }
            i = i + 1;
        }
        proof {
            assert forall|k: usize| #[trigger] ids0.contains(k) implies node_advanced(m0[k], self.node_map()[k], time) by {
                assert(order@.to_set().contains(k));
                let j = choose|j: int| 0 <= j < order@.len() && order@[j] == k;
                assert(node_advanced(m0[order@[j]], self.node_map()[order@[j]], time));
            }
        }
    }

    /// The node with identity `id`, if any.
    pub fn node(&self, id: usize) -> (r: Option<&VideoNode>)
        requires
            self.wf(),
        ensures
            match r {
                Some(n) => self.ids().contains(id) && *n == self.node_map()[id] && n.wf() && n.spec_id() == id,
                None => !self.ids().contains(id),
            },
    {
        self.nodes.get(&id)
    }

    /// The slot that the edge `a -> b` feeds, if that edge is present.
    pub fn edge(&self, a: usize, b: usize) -> (r: Option<usize>)
        ensures
            r == edge_weight_is(self.edges(), a, b),
    {
        edge_weight(&self.digraph, a, b)
    }

    /// Number of edges.
    pub fn edge_count(&self) -> (r: usize)
        ensures
            r == self.edges().len(),
    {
        edge_count(&self.digraph)
    }
}

/// Whatever sequence of successful changes built a graph, its edges are
/// acyclic and each input slot has at most one source.
pub proof fn lemma_graph_acyclic_one_source(g: Graph)
    requires
        g.wf(),
    ensures
        acyclic(g.ids(), g.edges()),
        slots_unique(g.edges()),
{
}

/// In a well-formed graph every edge joins two of its nodes, feeds a slot
/// below its target's input count, and no node feeds itself.
pub proof fn lemma_graph_edges_valid(g: Graph)
    requires
        g.wf(),
    ensures
        edges_within(g.ids(), g.edges()),
        forall|a: usize, d: usize| #[trigger] g.edges().contains_key((a, d)) ==> g.edges()[(a, d)] < g.n_inputs_of(d),
        forall|x: usize| !#[trigger] g.edges().contains_key((x, x)),
        forall|k: usize| #[trigger] g.ids().contains(k) ==> g.node_map()[k].spec_id() == k,
{
    assert forall|x: usize| !#[trigger] g.edges().contains_key((x, x)) by {
        lemma_no_self_edge(g.ids(), g.edges(), x);
    }
}

/// Adding `b` on a slot of `dst` that `a` feeds succeeds and splices `b`
/// into that edge when `b` is a node with a free first input and the
/// result is acyclic.
pub proof fn lemma_splice_succeeds(g: Graph, a: usize, b: usize, dst: usize, slot: usize)
    requires
        g.wf(),
        g.edges().contains_key((a, dst)),
        g.edges()[(a, dst)] == slot,
        a != b,
        b != dst,
        g.ids().contains(b),
        g.n_inputs_of(b) >= 1,
        occupant(g.edges(), b, 0) is None,
        acyclic(g.ids(), spliced(g.edges(), b, dst, slot)),
    ensures
        g.edge_error(b, dst, slot) is None,
        spliced(g.edges(), b, dst, slot) == g.edges().remove((a, dst)).insert((a, b), 0).insert((b, dst), slot),
{
    assert(g.edges().contains_key((a, dst)) && g.edges()[(a, dst)] == slot);
    assert(occupant(g.edges(), dst, slot) == Some(a));
}

/// Connecting `b` to a slot of `dst` that `a` feeds splices `b` into that
/// edge: `a` feeds the first input of `b`, `b` feeds the slot, and the edge
/// from `a` to `dst` is gone.
pub proof fn lemma_splice_insert(
    edges: Map<(usize, usize), usize>,
    a: usize,
    b: usize,
    dst: usize,
    slot: usize,
)
    requires
        slots_unique(edges),
        edges.contains_key((a, dst)),
        edges[(a, dst)] == slot,
        a != b,
        b != dst,
    ensures
        spliced(edges, b, dst, slot).contains_key((a, b)),
        spliced(edges, b, dst, slot)[(a, b)] == 0,
        spliced(edges, b, dst, slot).contains_key((b, dst)),
        spliced(edges, b, dst, slot)[(b, dst)] == slot,
        !spliced(edges, b, dst, slot).contains_key((a, dst)),
{
    assert(edges.contains_key((a, dst)) && edges[(a, dst)] == slot);
    let c = occupant(edges, dst, slot);
    assert(c == Some(a));
}

} // verus!
