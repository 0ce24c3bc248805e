//! Graph storage for one subgraph level, backed by `petgraph`.
//!
//! Each subgraph keeps its topology in a directed `petgraph` graph with
//! `usize` indices. The graph's contents are named by two spec functions:
//! `graph_nodes` (the node weights, in node-index order) and `graph_edges`
//! (the endpoint index pairs, in edge-index order). The wrappers below state
//! over those names what `petgraph`'s source shows of each call.

use vstd::prelude::*;

verus! {

/// The concrete storage type: a directed graph, node weights `u64`,
/// edge weights `u64`, `usize` indices.
pub type GraphStore = petgraph::graph::Graph<u64, u64, petgraph::Directed, usize>;

#[verifier::external_type_specification]
#[verifier::external_body]
#[verifier::reject_recursive_types(N)]
#[verifier::reject_recursive_types(E)]
#[verifier::reject_recursive_types(Ty)]
#[verifier::reject_recursive_types(Ix)]
pub struct ExGraph<N, E, Ty, Ix>(petgraph::graph::Graph<N, E, Ty, Ix>);

#[verifier::external_type_specification]
#[verifier::external_body]
pub struct ExDirected(petgraph::Directed);

/// The node weights held by the store, in node-index order.
pub uninterp spec fn graph_nodes(g: GraphStore) -> Seq<u64>;

/// The edges held by the store as (source index, target index) pairs,
/// in edge-index order.
pub uninterp spec fn graph_edges(g: GraphStore) -> Seq<(usize, usize)>;

/// Relies on `petgraph::graph::Graph::with_capacity`: the new graph holds
/// no nodes and no edges.
#[verifier::external_body]
pub(crate) fn graph_new() -> (g: GraphStore)
    ensures
        graph_nodes(g) == Seq::<u64>::empty(),
        graph_edges(g) == Seq::<(usize, usize)>::empty(),
{
    petgraph::graph::Graph::with_capacity(0, 0)
}

/// Relies on `petgraph::graph::Graph::add_node`: appends a node and returns
/// its index, which equals the prior node count. With `usize` indices the
/// index-limit panic is disabled ("N/A if usize" in its documentation).
#[verifier::external_body]
pub(crate) fn graph_add_node(g: &mut GraphStore, weight: u64) -> (i: usize)
    ensures
        graph_nodes(*final(g)) == graph_nodes(*old(g)).push(weight),
        graph_edges(*final(g)) == graph_edges(*old(g)),
        i == graph_nodes(*old(g)).len(),
{
    g.add_node(weight).index()
}

/// Relies on `petgraph::graph::Graph::add_edge`: appends an edge from `a`
/// to `b` and returns its index, which equals the prior edge count. It
/// panics when an endpoint is not a node of the graph, so the contract
/// requires the endpoints in range; with `usize` indices the index-limit
/// panic is disabled ("N/A if usize" in its documentation).
#[verifier::external_body]
pub(crate) fn graph_add_edge(g: &mut GraphStore, a: usize, b: usize, weight: u64) -> (i: usize)
    requires
        a < graph_nodes(*old(g)).len(),
        b < graph_nodes(*old(g)).len(),
    ensures
        graph_nodes(*final(g)) == graph_nodes(*old(g)),
        graph_edges(*final(g)) == graph_edges(*old(g)).push((a, b)),
        i == graph_edges(*old(g)).len(),
{
    g.add_edge(
        petgraph::graph::NodeIndex::new(a),
        petgraph::graph::NodeIndex::new(b),
        weight,
    ).index()
}

/// Relies on `petgraph::graph::Graph::edge_references`: it yields the edges
/// in edge-index order, each with its endpoint indices.
#[verifier::external_body]
pub(crate) fn graph_edge_endpoints(g: &GraphStore) -> (v: Vec<(usize, usize)>)
    ensures
        v@ == graph_edges(*g),
{
    g.edge_references().map(
        |e: petgraph::graph::EdgeReference<'_, u64, usize>| {
            (petgraph::visit::EdgeRef::source(&e).index(), petgraph::visit::EdgeRef::target(&e).index())
        },
    ).collect()
}

} // verus!
