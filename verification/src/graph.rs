//! Trusted interface to the petgraph directed graph that the dependency
//! sorter builds and orders. The graph's contents are named by two
//! uninterpreted functions: its node weights in insertion order, and its
//! directed edges as pairs of node indices. Node indices are `usize`, so
//! petgraph's index-limit failures cannot occur.

use vstd::prelude::*;

verus! {

#[verifier::external_type_specification]
#[verifier::external_body]
#[verifier::reject_recursive_types(N)]
#[verifier::reject_recursive_types(E)]
#[verifier::reject_recursive_types(Ty)]
#[verifier::reject_recursive_types(Ix)]
pub struct ExGraph<N, E, Ty, Ix>(petgraph::graph::Graph<N, E, Ty, Ix>);

#[verifier::external_type_specification]
#[verifier::external_body]
pub struct ExDirected(petgraph::Directed);

/// What the graph holds: its node weights, in insertion order.
pub uninterp spec fn graph_nodes(
    g: petgraph::graph::Graph<String, (), petgraph::Directed, usize>,
) -> Seq<Seq<char>>;

/// What the graph holds: its directed edges, each a pair of node indices
/// from tail to head.
pub uninterp spec fn graph_edges(
    g: petgraph::graph::Graph<String, (), petgraph::Directed, usize>,
) -> Set<(int, int)>;

/// A walk of one or more edges that leaves `n` and returns to `n`.
pub open spec fn on_cycle(edges: Set<(int, int)>, n: int) -> bool {
    exists|p: Seq<int>|
        p.len() >= 2 && p.first() == n && p.last() == n && (forall|i: int|
            0 <= i < p.len() - 1 ==> #[trigger] edges.contains((p[i], p[i + 1])))
}

/// Relies on petgraph's `Graph::with_capacity`: creates a graph with no
/// nodes and no edges.
#[verifier::external_body]
pub fn graph_new() -> (g: petgraph::graph::DiGraph<String, (), usize>)
    ensures
        graph_nodes(g) == Seq::<Seq<char>>::empty(),
        graph_edges(g) == Set::<(int, int)>::empty(),
{
    petgraph::graph::DiGraph::with_capacity(0, 0)
}

/// Relies on petgraph's `Graph::add_node`: appends one node and returns
/// its index, which is the number of nodes before the call.
#[verifier::external_body]
pub fn graph_add_node(
    g: &mut petgraph::graph::DiGraph<String, (), usize>,
    weight: String,
) -> (idx: usize)
    ensures
        graph_nodes(*final(g)) == graph_nodes(*old(g)).push(weight@),
        graph_edges(*final(g)) == graph_edges(*old(g)),
        idx == graph_nodes(*old(g)).len(),
{
    g.add_node(weight).index()
}

/// Relies on petgraph's `Graph::add_edge`: adds one directed edge from `a`
/// to `b`. It panics when an endpoint does not exist, so both must.
#[verifier::external_body]
pub fn graph_add_edge(g: &mut petgraph::graph::DiGraph<String, (), usize>, a: usize, b: usize)
    requires
        a < graph_nodes(*old(g)).len(),
        b < graph_nodes(*old(g)).len(),
    ensures
        graph_nodes(*final(g)) == graph_nodes(*old(g)),
        graph_edges(*final(g)) == graph_edges(*old(g)).insert((a as int, b as int)),
{
    g.add_edge(petgraph::graph::NodeIndex::new(a), petgraph::graph::NodeIndex::new(b), ());
}

/// Relies on petgraph's `algo::toposort`: on success it returns every node
/// exactly once, each node ordered before its successors; on a cyclic graph
/// it returns a node that participates in a cycle.
#[verifier::external_body]
pub fn graph_toposort(g: &petgraph::graph::DiGraph<String, (), usize>) -> (r: Result<
    Vec<usize>,
    usize,
>)
    ensures
        match r {
            Ok(order) => {
                &&& order@.len() == graph_nodes(*g).len()
                &&& forall|i: int|
                    0 <= i < order@.len() ==> (#[trigger] order@[i]) < graph_nodes(*g).len()
                &&& forall|i: int, j: int| 0 <= i < j < order@.len() ==> order@[i] != order@[j]
                &&& forall|i: int, j: int|
                    0 <= i < order@.len() && 0 <= j < order@.len() && graph_edges(*g).contains(
                        ((#[trigger] order@[i]) as int, (#[trigger] order@[j]) as int),
                    ) ==> i < j
            },
            Err(n) => n < graph_nodes(*g).len() && on_cycle(graph_edges(*g), n as int),
        },
{
    match petgraph::algo::toposort(&*g, None) {
        Ok(order) => Ok(order.into_iter().map(|i| i.index()).collect()),
        Err(c) => Err(c.node_id().index()),
    }
}

} // verus!
