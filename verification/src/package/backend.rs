//! The graph structure that carries the edges of a dependency graph, and the
//! traversals that are run on it. Nothing in this file is proved: each item
//! states what the `petgraph` crate does.

use petgraph::graph::NodeIndex;
use petgraph::visit::DfsPostOrder;
use vstd::prelude::*;

verus! {

/// `petgraph::Graph`, as an opaque value.
#[verifier::external_type_specification]
#[verifier::external_body]
#[verifier::reject_recursive_types(N)]
#[verifier::reject_recursive_types(E)]
#[verifier::reject_recursive_types(Ty)]
#[verifier::reject_recursive_types(Ix)]
pub struct ExGraph<N, E, Ty, Ix>(petgraph::Graph<N, E, Ty, Ix>);

/// `petgraph::Directed`, the marker of directed graphs.
#[verifier::external_type_specification]
#[verifier::external_body]
pub struct ExDirected(petgraph::Directed);

/// The number of nodes of a graph. Nodes are numbered from zero in the order
/// in which they were added.
pub uninterp spec fn graph_node_count(g: &petgraph::Graph<(), (), petgraph::Directed, u32>) -> nat;

/// The edges of a graph as pairs of source and target, in the order in which
/// they were added.
pub uninterp spec fn graph_edges(g: &petgraph::Graph<(), (), petgraph::Directed, u32>) -> Seq<
    (usize, usize),
>;

/// The order in which `petgraph::visit::DfsPostOrder` emits nodes when it is
/// started at `start` on the graph with `node_count` nodes and the edges
/// `edges`, added in that order.
pub uninterp spec fn post_order(node_count: nat, edges: Seq<(usize, usize)>, start: usize) -> Seq<
    usize,
>;

/// `path` follows the edges: from each of its nodes an edge leads to the
/// next.
pub open spec fn is_path(edges: Seq<(usize, usize)>, path: Seq<usize>) -> bool {
    path.len() >= 1 && forall|i: int|
        0 <= i < path.len() - 1 ==> edges.contains((#[trigger] path[i], path[i + 1]))
}

/// The edges lead from `from` to `to`, over any number of nodes.
pub open spec fn reaches(edges: Seq<(usize, usize)>, from: usize, to: usize) -> bool {
    exists|path: Seq<usize>| #[trigger] is_path(edges, path) && path.first() == from && path.last() == to
}

/// `Graph::new`: a graph without nodes and edges.
#[verifier::external_body]
pub(crate) fn graph_new() -> (g: petgraph::Graph<(), (), petgraph::Directed, u32>)
    ensures
        graph_node_count(&g) == 0,
        graph_edges(&g) == Seq::<(usize, usize)>::empty(),
{
    petgraph::Graph::new()
}

/// `Graph::add_node`: the new node gets the next free number, and the edges
/// stay as they are. The call panics when the graph already holds as many
/// nodes as its index type can number, which `requires` leaves out.
#[verifier::external_body]
pub(crate) fn graph_add_node(g: &mut petgraph::Graph<(), (), petgraph::Directed, u32>) -> (index:
    usize)
    requires
        graph_node_count(old(g)) < u32::MAX,
    ensures
        index == graph_node_count(old(g)),
        graph_node_count(final(g)) == graph_node_count(old(g)) + 1,
        graph_edges(final(g)) == graph_edges(old(g)),
{
    g.add_node(()).index()
}

/// `Graph::add_edge`: the edge is added after the edges that are there;
/// parallel edges are kept. The call panics when one of the nodes does not
/// exist or the graph holds as many edges as its index type can number, which
/// `requires` leaves out.
#[verifier::external_body]
pub(crate) fn graph_add_edge(
    g: &mut petgraph::Graph<(), (), petgraph::Directed, u32>,
    from: usize,
    to: usize,
)
    requires
        from < graph_node_count(old(g)),
        to < graph_node_count(old(g)),
        graph_edges(old(g)).len() < u32::MAX,
    ensures
        graph_node_count(final(g)) == graph_node_count(old(g)),
        graph_edges(final(g)) == graph_edges(old(g)).push((from, to)),
{
    g.add_edge(NodeIndex::new(from), NodeIndex::new(to), ());
}

/// A whole run of `DfsPostOrder` from `start`: `DfsPostOrder::new`, then
/// `next` until it returns `None`.
///
/// The run emits the nodes that can be reached from `start`, each of them
/// once and after the nodes that were first reached through it. Of this the
/// contract states: no node is emitted twice, every node emitted is a node of
/// the graph to which the edges lead from `start`, `start` is emitted, with
/// the source of an edge its target is emitted too, and the target of an edge
/// is emitted before its source unless the edges lead back from the target to
/// the source.
#[verifier::external_body]
pub(crate) fn graph_post_order(
    g: &petgraph::Graph<(), (), petgraph::Directed, u32>,
    start: usize,
) -> (order: Vec<usize>)
    requires
        start < graph_node_count(g),
    ensures
        order@ == post_order(graph_node_count(g), graph_edges(g), start),
        order@.no_duplicates(),
        forall|i: int| 0 <= i < order@.len() ==> (#[trigger] order@[i]) < graph_node_count(g),
        forall|i: int| 0 <= i < order@.len() ==> reaches(graph_edges(g), start, #[trigger] order@[i]),
        order@.contains(start),
        forall|k: int|
            0 <= k < graph_edges(g).len() && order@.contains((#[trigger] graph_edges(g)[k]).0)
                ==> order@.contains(graph_edges(g)[k].1),
        forall|k: int, i: int, j: int|
            0 <= k < graph_edges(g).len() && 0 <= i < order@.len() && 0 <= j < order@.len() && (
            #[trigger] order@[j]) == (#[trigger] graph_edges(g)[k]).0 && (#[trigger] order@[i])
                == graph_edges(g)[k].1 ==> i <= j || reaches(
                graph_edges(g),
                graph_edges(g)[k].1,
                graph_edges(g)[k].0,
            ),
{
    let mut dfs = DfsPostOrder::new(g, NodeIndex::new(start));
    let mut order = Vec::new();
    while let Some(node) = dfs.next(g) {
        order.push(node.index());
    }
    order
}

/// The costs that `petgraph::algo::dijkstra` computes when every edge costs
/// one: for each node that can be reached from `start`, the number of edges
/// of a shortest path to it.
pub uninterp spec fn shortest_costs(
    node_count: nat,
    edges: Seq<(usize, usize)>,
    start: usize,
) -> Map<usize, usize>;

/// What every edge costs in the search for shortest paths.
pub(crate) fn unit_cost() -> (cost: usize)
    ensures
        cost == 1,
{
    1
}

/// `petgraph::algo::dijkstra` from `start`, without a goal and with the cost
/// one on every edge, and its result as a list.
///
/// The result is a hash map, so the order of the list is not known. The
/// contract states that the list holds each pair of the costs once, that
/// every node in it is a node of the graph, and that it holds `start` with
/// the cost zero.
#[verifier::external_body]
pub(crate) fn graph_costs(g: &petgraph::Graph<(), (), petgraph::Directed, u32>, start: usize) -> (costs:
    Vec<(usize, usize)>)
    requires
        start < graph_node_count(g),
    ensures
        forall|i: int|
            0 <= i < costs@.len() ==> shortest_costs(
                graph_node_count(g),
                graph_edges(g),
                start,
            ).contains_pair((#[trigger] costs@[i]).0, costs@[i].1),
        forall|i: int, j: int|
            0 <= i < j < costs@.len() ==> (#[trigger] costs@[i]).0 != (#[trigger] costs@[j]).0,
        forall|node: usize|
            shortest_costs(graph_node_count(g), graph_edges(g), start).dom().contains(node)
                ==> exists|i: int| 0 <= i < costs@.len() && (#[trigger] costs@[i]).0 == node,
        forall|i: int| 0 <= i < costs@.len() ==> (#[trigger] costs@[i]).0 < graph_node_count(g),
        exists|i: int| 0 <= i < costs@.len() && #[trigger] costs@[i] == (start, 0usize),
{
    let scores = petgraph::algo::dijkstra(g, NodeIndex::new(start), None, |_| unit_cost());
    let mut costs = Vec::new();
    for (node, cost) in scores {
        costs.push((node.index(), cost));
    }
    costs
}

} // verus!
