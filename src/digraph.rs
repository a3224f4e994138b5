use petgraph::graphmap::{DiGraphMap, GraphMap};
use vstd::prelude::*;

verus! {

#[verifier::external_type_specification]
#[verifier::external_body]
pub struct ExDirected(petgraph::Directed);

#[verifier::external_type_specification]
#[verifier::external_body]
#[verifier::reject_recursive_types(N)]
#[verifier::reject_recursive_types(E)]
#[verifier::reject_recursive_types(Ty)]
pub struct ExGraphMap<N, E, Ty>(GraphMap<N, E, Ty>);

/// Directed graph over node identities, each edge weighted by an input slot.
pub type IdGraph = DiGraphMap<usize, usize>;

/// The node identities that a directed graph map holds.
pub uninterp spec fn graph_nodes(g: IdGraph) -> Set<usize>;

/// The edges that a directed graph map holds, keyed by (source, target),
/// each with its weight.
pub uninterp spec fn graph_edges(g: IdGraph) -> Map<(usize, usize), usize>;

/// The order in which `petgraph::algo::toposort` lists the nodes of an
/// acyclic graph map: a function of the graph map's value, which holds its
/// nodes and edges in insertion order.
pub uninterp spec fn graph_order(g: IdGraph) -> Seq<usize>;

/// Every edge joins two nodes of the graph.
pub open spec fn edges_within(nodes: Set<usize>, edges: Map<(usize, usize), usize>) -> bool {
    forall|a: usize, b: usize|
        #[trigger] edges.contains_key((a, b)) ==> nodes.contains(a) && nodes.contains(b)
}

/// `s` lists each node once, and the source of every edge before its target.
pub open spec fn is_topo_order(
    nodes: Set<usize>,
    edges: Map<(usize, usize), usize>,
    s: Seq<usize>,
) -> bool {
    &&& s.no_duplicates()
    &&& s.to_set() == nodes
    &&& forall|i: int, j: int|
        0 <= i < s.len() && 0 <= j < s.len() && edges.contains_key((#[trigger] s[i], #[trigger] s[j]))
            ==> i < j
}

/// Some order of the nodes puts every edge's source before its target.
pub open spec fn acyclic(nodes: Set<usize>, edges: Map<(usize, usize), usize>) -> bool {
    exists|s: Seq<usize>| is_topo_order(nodes, edges, s)
}

/// Relies on `GraphMap::new`: an empty graph.
#[verifier::external_body]
pub(crate) fn new_graph() -> (r: IdGraph)
    ensures
        graph_nodes(r).is_empty(),
        graph_edges(r).is_empty(),
{
    DiGraphMap::new()
}

/// Relies on `GraphMap`'s derived `Clone`: the same nodes and edges.
#[verifier::external_body]
pub(crate) fn clone_graph(g: &IdGraph) -> (r: IdGraph)
    ensures
        graph_nodes(r) == graph_nodes(*g),
        graph_edges(r) == graph_edges(*g),
{
    g.clone()
}

/// Relies on `GraphMap::add_node`: adds `n` if absent, edges unchanged.
#[verifier::external_body]
pub(crate) fn add_node(g: &mut IdGraph, n: usize)
    ensures
        graph_nodes(*final(g)) == graph_nodes(*old(g)).insert(n),
        graph_edges(*final(g)) == graph_edges(*old(g)),
{
    g.add_node(n);
}

/// Relies on `GraphMap::remove_node`: removes a node that has no edges.
/// (For a node with incoming edges this version leaves those edges behind,
/// so callers remove every edge first.)
#[verifier::external_body]
pub(crate) fn remove_node(g: &mut IdGraph, n: usize) -> (r: bool)
    requires
        forall|k: (usize, usize)| #[trigger] graph_edges(*old(g)).contains_key(k) ==> k.0 != n && k.1 != n,
    ensures
        r == graph_nodes(*old(g)).contains(n),
        graph_nodes(*final(g)) == graph_nodes(*old(g)).remove(n),
        graph_edges(*final(g)) == graph_edges(*old(g)),
{
    g.remove_node(n)
}

/// Relies on `GraphMap::add_edge`: sets the edge `a -> b` to weight `w`
/// (one edge per ordered pair), adding `a` and `b` as nodes where absent,
/// and returns the weight it replaced. An edge that is already present
/// joins two nodes of the graph unless one was removed before its edges.
#[verifier::external_body]
pub(crate) fn add_edge(g: &mut IdGraph, a: usize, b: usize, w: usize) -> (r: Option<usize>)
    requires
        edges_within(graph_nodes(*old(g)), graph_edges(*old(g))),
    ensures
        graph_nodes(*final(g)) == graph_nodes(*old(g)).insert(a).insert(b),
        graph_edges(*final(g)) == graph_edges(*old(g)).insert((a, b), w),
        r == (if graph_edges(*old(g)).contains_key((a, b)) {
            Some(graph_edges(*old(g))[(a, b)])
        } else {
            None::<usize>
        }),
{
    g.add_edge(a, b, w)
}

/// Relies on `GraphMap::remove_edge`: removes the edge `a -> b` and returns
/// its weight.
#[verifier::external_body]
pub(crate) fn remove_edge(g: &mut IdGraph, a: usize, b: usize) -> (r: Option<usize>)
    ensures
        graph_nodes(*final(g)) == graph_nodes(*old(g)),
        graph_edges(*final(g)) == graph_edges(*old(g)).remove((a, b)),
        r == (if graph_edges(*old(g)).contains_key((a, b)) {
            Some(graph_edges(*old(g))[(a, b)])
        } else {
            None::<usize>
        }),
{
    g.remove_edge(a, b)
}

/// Relies on `GraphMap::edge_count`: the number of edges.
#[verifier::external_body]
pub(crate) fn edge_count(g: &IdGraph) -> (r: usize)
    ensures
        r == graph_edges(*g).len(),
{
    g.edge_count()
}

/// Relies on `GraphMap::edge_weight`: the weight of `a -> b`, if present.
#[verifier::external_body]
pub(crate) fn edge_weight(g: &IdGraph, a: usize, b: usize) -> (r: Option<usize>)
    ensures
        r == (if graph_edges(*g).contains_key((a, b)) {
            Some(graph_edges(*g)[(a, b)])
        } else {
            None::<usize>
        }),
{
    g.edge_weight(a, b).copied()
}

/// Relies on `GraphMap::neighbors_directed`: the nodes with an edge into
/// `a` (when `incoming`) or out of `a`, each once.
#[verifier::external_body]
pub(crate) fn neighbors(g: &IdGraph, a: usize, incoming: bool) -> (r: Vec<usize>)
    ensures
        r@.no_duplicates(),
        forall|b: usize|
            #[trigger] r@.contains(b) <==> (if incoming {
                graph_edges(*g).contains_key((b, a))
            } else {
                graph_edges(*g).contains_key((a, b))
            }),
{
    let dir = if incoming {
        petgraph::Direction::Incoming
    } else {
        petgraph::Direction::Outgoing
    };
    g.neighbors_directed(a, dir).collect()
}

/// Relies on `petgraph::algo::toposort`: for an acyclic graph every node,
/// each edge's source before its target; `None` for a graph with a cycle.
#[verifier::external_body]
pub(crate) fn toposort(g: &IdGraph) -> (r: Option<Vec<usize>>)
    ensures
        r is Some <==> acyclic(graph_nodes(*g), graph_edges(*g)),
        r matches Some(s) ==> is_topo_order(graph_nodes(*g), graph_edges(*g), s@) && s@ == graph_order(*g),
{
    petgraph::algo::toposort(g, None).ok()
}

} // verus!
