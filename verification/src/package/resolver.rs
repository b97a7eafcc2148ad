//! The dependency graph of a project.

use crate::package::backend::{
    graph_add_edge, graph_add_node, graph_costs, graph_edges, graph_new, graph_node_count,
    graph_post_order, post_order, reaches, shortest_costs,
};
use crate::package::index::{IndexError, PackageIndex, PackageIndexView};
use crate::ts::package_reference::{views, PackageReference, PackageReferenceView};
use crate::ts::version::{lemma_version_order_transitive, Version};
use vstd::prelude::*;

verus! {

/// How closely a reference has to match the node of its package.
#[derive(Clone, Copy, Debug, PartialEq, Eq, Structural)]
pub enum Granularity {
    /// The node has the version of the reference.
    All,
    /// The node may have any version.
    IgnoreVersion,
    /// The node has a version before that of the reference.
    LesserVersion,
    /// The node has a version after that of the reference.
    GreaterVersion,
}

/// The reference that stands at the root of every graph.
pub open spec fn root_view() -> PackageReferenceView {
    PackageReferenceView {
        namespace: seq!['@'],
        name: seq!['@'],
        version: Version { major: 0, minor: 0, patch: 0 },
    }
}

/// The first position at or after `from` whose node names the package of `r`,
/// or the number of nodes when there is none.
pub open spec fn loose_index(
    nodes: Seq<PackageReferenceView>,
    r: PackageReferenceView,
    from: int,
) -> int
    decreases nodes.len() - from,
{
    if from < 0 || from >= nodes.len() {
        nodes.len() as int
    } else if nodes[from].same_loose(r) {
        from
    } else {
        loose_index(nodes, r, from + 1)
    }
}

/// The position of the node that names the package of `r`, or the number of
/// nodes when there is none. The root, at position zero, is no package.
pub open spec fn node_of(nodes: Seq<PackageReferenceView>, r: PackageReferenceView) -> int {
    loose_index(nodes, r, 1)
}

/// No two nodes behind the root name the same package.
pub open spec fn distinct_loose(nodes: Seq<PackageReferenceView>) -> bool {
    forall|i: int, j: int|
        1 <= i < j < nodes.len() ==> !(#[trigger] nodes[i]).same_loose(#[trigger] nodes[j])
}

/// The nodes after `value` was added: a new node at the end when no node
/// names its package; the version of that node raised to the version of
/// `value` when it comes before it; else no change.
pub open spec fn add_spec(
    nodes: Seq<PackageReferenceView>,
    value: PackageReferenceView,
) -> Seq<PackageReferenceView> {
    let at = node_of(nodes, value);
    if at >= nodes.len() {
        nodes.push(value)
    } else if nodes[at].version.precedes(value.version) {
        nodes.update(at, value)
    } else {
        nodes
    }
}

/// Whether a node names the package of `value` in a version that matches
/// under `granularity`.
pub open spec fn contains_spec(
    nodes: Seq<PackageReferenceView>,
    value: PackageReferenceView,
    granularity: Granularity,
) -> bool {
    let at = node_of(nodes, value);
    at < nodes.len() && match granularity {
        Granularity::All => nodes[at].version == value.version,
        Granularity::IgnoreVersion => true,
        Granularity::LesserVersion => nodes[at].version.precedes(value.version),
        Granularity::GreaterVersion => value.version.precedes(nodes[at].version),
    }
}

/// What `loose_index` returns lies between `from` and the number of nodes,
/// names the package when it is a position, and nothing before it does.
pub proof fn lemma_loose_index(nodes: Seq<PackageReferenceView>, r: PackageReferenceView, from: int)
    requires
        0 <= from <= nodes.len(),
    ensures
        from <= loose_index(nodes, r, from) <= nodes.len(),
        loose_index(nodes, r, from) < nodes.len() ==> nodes[loose_index(nodes, r, from)].same_loose(
            r,
        ),
        forall|i: int| from <= i < loose_index(nodes, r, from) ==> !(#[trigger] nodes[i]).same_loose(r),
    decreases nodes.len() - from,
{
    if from < nodes.len() && !nodes[from].same_loose(r) {
        lemma_loose_index(nodes, r, from + 1);
    }
}

/// A position that names the package with nothing before it doing so is what
/// `loose_index` returns.
pub proof fn lemma_loose_index_is(
    nodes: Seq<PackageReferenceView>,
    r: PackageReferenceView,
    from: int,
    at: int,
)
    requires
        0 <= from <= at <= nodes.len(),
        at < nodes.len() ==> nodes[at].same_loose(r),
        forall|i: int| from <= i < at ==> !(#[trigger] nodes[i]).same_loose(r),
    ensures
        loose_index(nodes, r, from) == at,
    decreases at - from,
{
    if from < at {
        lemma_loose_index_is(nodes, r, from + 1, at);
    }
}

/// What holds of the nodes and edges of every graph: the root stands at
/// position zero, no two other nodes name the same package, every edge joins
/// two nodes, and nodes and edges can be numbered in 32 bits.
pub open spec fn parts_wf(nodes: Seq<PackageReferenceView>, edges: Seq<(usize, usize)>) -> bool {
    &&& nodes.len() >= 1
    &&& nodes[0] == root_view()
    &&& nodes.len() <= u32::MAX
    &&& edges.len() <= u32::MAX
    &&& distinct_loose(nodes)
    &&& forall|k: int|
        0 <= k < edges.len() ==> (#[trigger] edges[k]).0 < nodes.len() && edges[k].1 < nodes.len()
}

/// A graph of package references.
///
/// The node at position zero is the root; its edges lead to the packages that
/// were asked for directly. Every other node stands for one package, in the
/// greatest version that was added for it. An edge leads from a package to one
/// that it depends on.
pub struct DependencyGraph {
    graph: petgraph::Graph<(), (), petgraph::Directed, u32>,
    nodes: Vec<PackageReference>,
    links: Vec<(usize, usize)>,
}

impl DependencyGraph {
    /// The nodes, the root first.
    pub closed spec fn nodes(&self) -> Seq<PackageReferenceView> {
        views(self.nodes@)
    }

    /// The edges as pairs of positions, in the order in which they were added.
    pub closed spec fn edges(&self) -> Seq<(usize, usize)> {
        graph_edges(&self.graph)
    }

    /// The invariant of the graph: `parts_wf` holds of its nodes and edges.
    pub closed spec fn wf(&self) -> bool {
        &&& graph_node_count(&self.graph) == self.nodes@.len()
        &&& self.links@ == self.edges()
        &&& parts_wf(self.nodes(), self.edges())
    }

    /// A graph that holds the root and nothing else.
    pub fn new() -> (g: DependencyGraph)
        ensures
            g.wf(),
            g.nodes() == seq![root_view()],
            g.edges() == Seq::<(usize, usize)>::empty(),
    {
        let mut graph = graph_new();
        let _ = graph_add_node(&mut graph);
        let mut root_text = String::new();
        root_text.push('@');
        let root = PackageReference {
            namespace: root_text.clone(),
            name: root_text,
            version: Version::new(0, 0, 0),
        };
        let mut nodes: Vec<PackageReference> = Vec::new();
        nodes.push(root);
        let g = DependencyGraph { graph, nodes, links: Vec::new() };
        proof {
            assert(g.nodes() =~= seq![root_view()]);
            assert(g.nodes()[0].namespace =~= seq!['@']);
        }
        g
    }

    /// The number of nodes, the root included.
    pub fn node_count(&self) -> (n: usize)
        ensures
            n == self.nodes().len(),
    {
        self.nodes.len()
    }

    /// The invariant says of nodes and edges what `parts_wf` says.
    pub proof fn lemma_wf(&self)
        requires
            self.wf(),
        ensures
            parts_wf(self.nodes(), self.edges()),
    {
    }

    /// The graph with the nodes and edges that were stored. Nothing stored
    /// stands for the graph that holds the root alone. Nodes and edges of
    /// which `parts_wf` does not hold make no graph.
    pub fn from_graph(nodes: Vec<PackageReference>, edges: Vec<(usize, usize)>) -> (r: Option<
        DependencyGraph,
    >)
        ensures
            match r {
                Some(g) => g.wf() && (if nodes@.len() == 0 && edges@.len() == 0 {
                    g.nodes() == seq![root_view()] && g.edges() == Seq::<(usize, usize)>::empty()
                } else {
                    g.nodes() == views(nodes@) && g.edges() == edges@
                }),
                None => !(nodes@.len() == 0 && edges@.len() == 0) && !parts_wf(
                    views(nodes@),
                    edges@,
                ),
            },
    {
        if nodes.len() == 0 && edges.len() == 0 {
            return Some(DependencyGraph::new());
        }
        let limit: usize = 0xffff_ffff;
        if nodes.len() == 0 || nodes.len() > limit || edges.len() > limit {
            return None;
        }
        let empty = DependencyGraph::new();
        if !nodes[0].same_strict(&empty.nodes[0]) {
            return None;
        }
        let mut i: usize = 1;
        while i < nodes.len()
            invariant
                1 <= i <= nodes.len(),
                forall|a: int, b: int|
                    1 <= a < b < i ==> !(#[trigger] views(nodes@)[a]).same_loose(
                        #[trigger] views(nodes@)[b],
                    ),
            decreases nodes.len() - i,
        {
            let mut j: usize = 1;
            while j < i
                invariant
                    1 <= j <= i < nodes.len(),
                    forall|a: int| 1 <= a < j ==> !(#[trigger] views(nodes@)[a]).same_loose(
                        views(nodes@)[i as int],
                    ),
                decreases i - j,
            {
                if nodes[j].same_loose(&nodes[i]) {
                    assert(views(nodes@)[j as int].same_loose(views(nodes@)[i as int]));
                    return None;
                }
                j += 1;
            }
            i += 1;
        }
        let mut k: usize = 0;
        while k < edges.len()
            invariant
                k <= edges.len(),
                forall|e: int|
                    0 <= e < k ==> (#[trigger] edges@[e]).0 < nodes@.len() && edges@[e].1
                        < nodes@.len(),
            decreases edges.len() - k,
        {
            if edges[k].0 >= nodes.len() || edges[k].1 >= nodes.len() {
                return None;
            }
            k += 1;
        }
        let mut graph = graph_new();
        let mut n: usize = 0;
        while n < nodes.len()
            invariant
                n <= nodes.len() <= u32::MAX,
                graph_node_count(&graph) == n,
                graph_edges(&graph) == Seq::<(usize, usize)>::empty(),
            decreases nodes.len() - n,
        {
            let _ = graph_add_node(&mut graph);
            n += 1;
        }
        let mut m: usize = 0;
        while m < edges.len()
            invariant
                m <= edges.len() <= u32::MAX,
                graph_node_count(&graph) == nodes@.len(),
                graph_edges(&graph) == edges@.take(m as int),
                forall|e: int|
                    0 <= e < edges@.len() ==> (#[trigger] edges@[e]).0 < nodes@.len() && edges@[e].1
                        < nodes@.len(),
            decreases edges.len() - m,
        {
            graph_add_edge(&mut graph, edges[m].0, edges[m].1);
            m += 1;
            assert(graph_edges(&graph) =~= edges@.take(m as int));
        }
        assert(edges@.take(m as int) =~= edges@);
        let g = DependencyGraph { graph, nodes, links: edges };
        Some(g)
    }

    /// The nodes and the edges of the graph, as they are stored.
    pub fn into_inner(self) -> (r: (Vec<PackageReference>, Vec<(usize, usize)>))
        requires
            self.wf(),
        ensures
            views(r.0@) == self.nodes(),
            r.1@ == self.edges(),
    {
        (self.nodes, self.links)
    }

    /// The number of edges.
    pub fn edge_count(&self) -> (n: usize)
        requires
            self.wf(),
        ensures
            n == self.edges().len(),
    {
        self.links.len()
    }

    /// The position of the node that names the package of `value`.
    pub fn position(&self, value: &PackageReference) -> (r: Option<usize>)
        ensures
            r matches Some(at) ==> at == node_of(self.nodes(), value@) && 1 <= at < self.nodes().len(),
            r is None ==> node_of(self.nodes(), value@) >= self.nodes().len(),
    {
        let mut i: usize = 1;
        while i < self.nodes.len()
            invariant
                1 <= i,
                forall|j: int| 1 <= j < i && j < self.nodes().len() ==> !(#[trigger] self.nodes()[j]).same_loose(value@),
            decreases self.nodes.len() - i,
        {
            if self.nodes[i].same_loose(value) {
                proof {
                    lemma_loose_index_is(self.nodes(), value@, 1, i as int);
                }
                return Some(i);
            }
            i += 1;
        }
        proof {
            if self.nodes().len() >= 1 {
                lemma_loose_index_is(self.nodes(), value@, 1, self.nodes().len() as int);
            }
        }
        None
    }

    /// Adds `value`: as a new node when no node names its package; else the
    /// version of that node is raised to the version of `value` when it
    /// comes before it. A node's version is never lowered.
    pub fn add(&mut self, value: PackageReference)
        requires
            old(self).wf(),
            old(self).nodes().len() < u32::MAX,
        ensures
            final(self).wf(),
            final(self).nodes() == add_spec(old(self).nodes(), value@),
            final(self).edges() == old(self).edges(),
    {
        let ghost before = self.nodes();
        match self.position(&value) {
            None => {
                let _ = graph_add_node(&mut self.graph);
                self.nodes.push(value);
                proof {
                    assert(self.nodes() =~= before.push(value@));
                    lemma_loose_index(before, value@, 1);
                    assert forall|i: int, j: int| 1 <= i < j < self.nodes().len() implies !(
                    #[trigger] self.nodes()[i]).same_loose(#[trigger] self.nodes()[j]) by {
                        if j < before.len() {
                            assert(!before[i].same_loose(before[j]));
                        } else {
                            assert(!before[i].same_loose(value@));
                        }
                    }
                }
            },
            Some(at) => {
                if self.nodes[at].version.is_less_than(&value.version) {
                    self.nodes[at] = value;
                    proof {
                        assert(self.nodes() =~= before.update(at as int, value@));
                        lemma_loose_index(before, value@, 1);
                        assert forall|i: int, j: int|
                            1 <= i < j < self.nodes().len() implies !(
                        #[trigger] self.nodes()[i]).same_loose(#[trigger] self.nodes()[j]) by {
                            assert(!before[i].same_loose(before[j]));
                        }
                    }
                }
            },
        }
    }

    /// Adds an edge from the node of `parent` to the node of `child`; both
    /// packages must be in the graph. An edge that is there already is added
    /// once more.
    pub fn add_edge(&mut self, parent: &PackageReference, child: &PackageReference)
        requires
            old(self).wf(),
            old(self).edges().len() < u32::MAX,
            node_of(old(self).nodes(), parent@) < old(self).nodes().len(),
            node_of(old(self).nodes(), child@) < old(self).nodes().len(),
        ensures
            final(self).wf(),
            final(self).nodes() == old(self).nodes(),
            final(self).edges() == old(self).edges().push(
                (
                    node_of(old(self).nodes(), parent@) as usize,
                    node_of(old(self).nodes(), child@) as usize,
                ),
            ),
    {
        let from = match self.position(parent) {
            Some(at) => at,
            None => 0,
        };
        let to = match self.position(child) {
            Some(at) => at,
            None => 0,
        };
        self.link(from, to);
    }

    /// Adds an edge from the root to the node of `child`, which must be in
    /// the graph.
    pub fn add_rooted_edge(&mut self, child: &PackageReference)
        requires
            old(self).wf(),
            old(self).edges().len() < u32::MAX,
            node_of(old(self).nodes(), child@) < old(self).nodes().len(),
        ensures
            final(self).wf(),
            final(self).nodes() == old(self).nodes(),
            final(self).edges() == old(self).edges().push(
                (0usize, node_of(old(self).nodes(), child@) as usize),
            ),
    {
        let to = match self.position(child) {
            Some(at) => at,
            None => 0,
        };
        self.link(0, to);
    }

    /// Adds an edge between two positions.
    fn link(&mut self, from: usize, to: usize)
        requires
            old(self).wf(),
            old(self).edges().len() < u32::MAX,
            from < old(self).nodes().len(),
            to < old(self).nodes().len(),
        ensures
            final(self).wf(),
            final(self).nodes() == old(self).nodes(),
            final(self).edges() == old(self).edges().push((from, to)),
    {
        let ghost before = self.edges();
        graph_add_edge(&mut self.graph, from, to);
        self.links.push((from, to));
        proof {
            assert forall|k: int| 0 <= k < self.edges().len() implies (#[trigger] self.edges()[k]).0
                < self.nodes().len() && self.edges()[k].1 < self.nodes().len() by {
                if k < before.len() {
                    assert(self.edges()[k] == before[k]);
                }
            }
        }
    }

    /// Whether a node names the package of `value` in a version that matches
    /// under `granularity`.
    pub fn contains(&self, value: &PackageReference, granularity: Granularity) -> (r: bool)
        ensures
            r == contains_spec(self.nodes(), value@, granularity),
    {
        match self.position(value) {
            None => false,
            Some(at) => {
                let resident = &self.nodes[at].version;
                match granularity {
                    Granularity::All => resident.is_equal_to(&value.version),
                    Granularity::IgnoreVersion => true,
                    Granularity::LesserVersion => resident.is_less_than(&value.version),
                    Granularity::GreaterVersion => resident.is_greater_than(&value.version),
                }
            },
        }
    }

    /// The digest: the references of the graph, leaves first. It is the
    /// depth-first post-order from the root, without the root.
    pub closed spec fn digest_spec(&self) -> Seq<PackageReferenceView> {
        digest_of(self.nodes(), post_order(self.nodes().len(), self.edges(), 0))
    }

    /// The transition from this graph to `other`: what to remove and what
    /// to install, each in the order of the digest it is taken from.
    ///
    /// Carrying the delta out leads to the digest of `other`, unless `other`
    /// takes a package back to a version that comes before the one it has
    /// here: such a package is left as it is. Between graphs with the same
    /// digest the delta is empty.
    pub fn graph_delta(&self, other: &DependencyGraph) -> (delta: GraphDelta)
        requires
            self.wf(),
            other.wf(),
        ensures
            views(delta.add@) == delta_add(self.digest_spec(), other.digest_spec()),
            views(delta.del@) == delta_del(self.digest_spec(), other.digest_spec()),
            no_downgrade(self.digest_spec(), other.digest_spec())
                ==> self.digest_spec().to_set().difference(views(delta.del@).to_set()).union(
                views(delta.add@).to_set(),
            ) == other.digest_spec().to_set(),
            self.digest_spec() == other.digest_spec() ==> delta.add@.len() == 0 && delta.del@.len()
                == 0,
    {
        let old_digest = self.digest();
        let new_digest = other.digest();
        let delta = GraphDelta::between(&old_digest, &new_digest);
        proof {
            if no_downgrade(self.digest_spec(), other.digest_spec()) {
                lemma_delta_leads_to_new(self.digest_spec(), other.digest_spec());
            }
            if self.digest_spec() == other.digest_spec() {
                lemma_delta_of_same_is_empty(self.digest_spec());
                assert(views(delta.add@).len() == delta.add@.len());
                assert(views(delta.del@).len() == delta.del@.len());
            }
        }
        delta
    }

    /// The packages that `value` depends on, directly or through others, and
    /// the package itself, the nearest first: a package that is reached over
    /// fewer edges comes before one that is reached over more. Packages that
    /// are equally near come in any order. There is no answer for a package
    /// that is not in the graph.
    pub fn get_dependencies(&self, value: &PackageReference) -> (r: Option<Vec<PackageReference>>)
        requires
            self.wf(),
        ensures
            r is Some <==> node_of(self.nodes(), value@) < self.nodes().len(),
            r matches Some(list) ==> exists|order: Seq<(usize, usize)>|
                is_cost_order(
                    order,
                    shortest_costs(
                        self.nodes().len(),
                        self.edges(),
                        node_of(self.nodes(), value@) as usize,
                    ),
                ) && #[trigger] references_at(self.nodes(), order) == views(list@),
    {
        let start = match self.position(value) {
            Some(at) => at,
            None => {
                return None;
            },
        };
        let costs = graph_costs(&self.graph, start);
        let ghost map = shortest_costs(self.nodes().len(), self.edges(), start);
        let sorted = sort_by_cost(&costs);
        proof {
            lemma_cost_order(costs@, sorted@, map);
            assert forall|a: int| 0 <= a < sorted@.len() implies (#[trigger] sorted@[a]).0
                < self.nodes@.len() by {
                assert(sorted@.contains(sorted@[a]));
                vstd::seq_lib::to_multiset_contains(sorted@, sorted@[a]);
                vstd::seq_lib::to_multiset_contains(costs@, sorted@[a]);
                let b = choose|b: int| 0 <= b < costs@.len() && costs@[b] == sorted@[a];
                assert(costs@[b].0 < self.nodes@.len());
            }
        }
        let mut list: Vec<PackageReference> = Vec::new();
        let mut k: usize = 0;
        while k < sorted.len()
            invariant
                k <= sorted.len(),
                forall|a: int| 0 <= a < sorted@.len() ==> (#[trigger] sorted@[a]).0 < self.nodes@.len(),
                views(list@) == references_at(self.nodes(), sorted@.take(k as int)),
            decreases sorted.len() - k,
        {
            let ghost before = views(list@);
            list.push(self.nodes[sorted[k].0].duplicate());
            k += 1;
            proof {
                assert(sorted@.take(k as int).drop_last() =~= sorted@.take(k - 1));
                assert(views(list@) =~= before.push(self.nodes()[sorted@[k - 1].0 as int]));
            }
        }
        proof {
            assert(sorted@.take(k as int) =~= sorted@);
        }
        Some(list)
    }

    /// Graphs with the same nodes and the same edges have the same digest.
    pub proof fn lemma_digest_of_same_parts(&self, other: &DependencyGraph)
        requires
            self.nodes() == other.nodes(),
            self.edges() == other.edges(),
        ensures
            self.digest_spec() == other.digest_spec(),
    {
    }

    /// The references of the graph in depth-first post-order from the root,
    /// without the root: every package comes after the packages that were
    /// first reached through it.
    pub fn digest(&self) -> (list: Vec<PackageReference>)
        requires
            self.wf(),
        ensures
            views(list@) == self.digest_spec(),
            distinct_packages(self.digest_spec()),
            follows_edges(self.nodes(), self.edges(), self.digest_spec()),
            in_dependency_order(self.nodes(), self.edges(), self.digest_spec()),
            forall|m: int|
                0 <= m < self.digest_spec().len() ==> is_reached_node(
                    self.nodes(),
                    self.edges(),
                    #[trigger] self.digest_spec()[m],
                ),
    {
        let order = graph_post_order(&self.graph, 0);
        proof {
            lemma_digest_of(self.nodes(), order@);
            lemma_kept_positions(self.nodes(), order@);
            let digest = self.digest_spec();
            let kept = kept_positions(self.nodes(), order@);
            assert forall|k: int, i: int, j: int|
                0 <= k < self.edges().len() && 0 <= i < digest.len() && 0 <= j < digest.len() && (
                #[trigger] self.edges()[k]).0 != 0 && self.edges()[k].1 != 0 && (
                #[trigger] digest[j]) == self.nodes()[self.edges()[k].0 as int] && (
                #[trigger] digest[i]) == self.nodes()[self.edges()[k].1 as int] implies i <= j
                || reaches(self.edges(), self.edges()[k].1, self.edges()[k].0) by {
                let from = self.edges()[k].0 as int;
                let to = self.edges()[k].1 as int;
                let at_from = order@[kept[j]] as int;
                let at_to = order@[kept[i]] as int;
                if at_from != from {
                    if at_from < from {
                        assert(!self.nodes()[at_from].same_loose(self.nodes()[from]));
                    } else {
                        assert(!self.nodes()[from].same_loose(self.nodes()[at_from]));
                    }
                }
                if at_to != to {
                    if at_to < to {
                        assert(!self.nodes()[at_to].same_loose(self.nodes()[to]));
                    } else {
                        assert(!self.nodes()[to].same_loose(self.nodes()[at_to]));
                    }
                }
                assert(order@[kept[j]] == self.edges()[k].0);
                assert(order@[kept[i]] == self.edges()[k].1);
                if i > j {
                    assert(kept[j] < kept[i]);
                }
            }
            assert forall|k: int|
                0 <= k < self.edges().len() && (#[trigger] self.edges()[k]).1 != 0 && (
                self.edges()[k].0 == 0 || digest.contains(
                    self.nodes()[self.edges()[k].0 as int],
                )) implies digest.contains(self.nodes()[self.edges()[k].1 as int]) by {
                let from = self.edges()[k].0;
                let to = self.edges()[k].1;
                if from != 0 {
                    let m = choose|m: int|
                        0 <= m < digest.len() && digest[m] == self.nodes()[from as int];
                    let j = choose|j: int|
                        0 <= j < order@.len() && order@[j] != 0 && self.nodes()[order@[j] as int]
                            == digest[m];
                    let other = order@[j] as int;
                    if other != from {
                        if other < from {
                            assert(!self.nodes()[other].same_loose(self.nodes()[from as int]));
                        } else {
                            assert(!self.nodes()[from as int].same_loose(self.nodes()[other]));
                        }
                    }
                    assert(order@.contains(from));
                }
                assert(order@.contains(to));
                let j2 = choose|j2: int| 0 <= j2 < order@.len() && order@[j2] == to;
                assert(order@[j2] != 0);
            }
            assert forall|m: int| 0 <= m < digest.len() implies is_reached_node(
                self.nodes(),
                self.edges(),
                #[trigger] digest[m],
            ) by {
                let at = order@[kept[m]];
                assert(reaches(self.edges(), 0, at));
                assert(self.nodes()[at as int] == digest[m]);
            }
        }
        let mut list: Vec<PackageReference> = Vec::new();
        let mut i: usize = 0;
        while i < order.len()
            invariant
                i <= order.len(),
                forall|k: int| 0 <= k < order@.len() ==> (#[trigger] order@[k]) < self.nodes@.len(),
                views(list@) == digest_of(self.nodes(), order@.take(i as int)),
            decreases order.len() - i,
        {
            let at = order[i];
            proof {
                assert(order@.take(i + 1).drop_last() =~= order@.take(i as int));
            }
            if at != 0 {
                list.push(self.nodes[at].duplicate());
                proof {
                    assert(views(list@) =~= digest_of(self.nodes(), order@.take(i as int)).push(
                        self.nodes()[at as int],
                    ));
                }
            }
            i += 1;
        }
        proof {
            assert(order@.take(i as int) =~= order@);
        }
        list
    }
}

/// The references at the positions `order`, without the root.
pub open spec fn digest_of(nodes: Seq<PackageReferenceView>, order: Seq<usize>) -> Seq<
    PackageReferenceView,
>
    decreases order.len(),
{
    if order.len() == 0 {
        Seq::empty()
    } else if order.last() == 0 || order.last() >= nodes.len() {
        digest_of(nodes, order.drop_last())
    } else {
        digest_of(nodes, order.drop_last()).push(nodes[order.last() as int])
    }
}

/// `order` lists the nodes of `costs` with their costs, each node once, the
/// cheapest first.
pub open spec fn is_cost_order(order: Seq<(usize, usize)>, costs: Map<usize, usize>) -> bool {
    &&& forall|i: int|
        0 <= i < order.len() ==> costs.contains_pair((#[trigger] order[i]).0, order[i].1)
    &&& forall|i: int, j: int|
        0 <= i < j < order.len() ==> (#[trigger] order[i]).0 != (#[trigger] order[j]).0
    &&& forall|node: usize|
        costs.dom().contains(node) ==> exists|i: int|
            0 <= i < order.len() && (#[trigger] order[i]).0 == node
    &&& forall|i: int, j: int|
        0 <= i < j < order.len() ==> (#[trigger] order[i]).1 <= (#[trigger] order[j]).1
}

/// The references of the nodes that `order` lists.
pub open spec fn references_at(nodes: Seq<PackageReferenceView>, order: Seq<(usize, usize)>) -> Seq<
    PackageReferenceView,
>
    decreases order.len(),
{
    if order.len() == 0 {
        Seq::empty()
    } else {
        references_at(nodes, order.drop_last()).push(nodes[order.last().0 as int])
    }
}

/// The digest follows the edges: it holds the package of every edge that
/// starts at the root or at a package of the digest.
pub open spec fn follows_edges(
    nodes: Seq<PackageReferenceView>,
    edges: Seq<(usize, usize)>,
    digest: Seq<PackageReferenceView>,
) -> bool {
    forall|k: int|
        0 <= k < edges.len() && (#[trigger] edges[k]).1 != 0 && (edges[k].0 == 0 || digest.contains(
            nodes[edges[k].0 as int],
        )) ==> digest.contains(nodes[edges[k].1 as int])
}

/// The digest lists leaves first: a package that another one depends on
/// comes before it, unless the edges lead back from the first to the second,
/// so that the two depend on each other.
pub open spec fn in_dependency_order(
    nodes: Seq<PackageReferenceView>,
    edges: Seq<(usize, usize)>,
    digest: Seq<PackageReferenceView>,
) -> bool {
    forall|k: int, i: int, j: int|
        0 <= k < edges.len() && 0 <= i < digest.len() && 0 <= j < digest.len() && (
        #[trigger] edges[k]).0 != 0 && edges[k].1 != 0 && (#[trigger] digest[j])
            == nodes[edges[k].0 as int] && (#[trigger] digest[i]) == nodes[edges[k].1 as int] ==> i
            <= j || reaches(edges, edges[k].1, edges[k].0)
}

/// The positions of the order whose nodes a digest holds, in their order.
pub open spec fn kept_positions(nodes: Seq<PackageReferenceView>, order: Seq<usize>) -> Seq<int>
    decreases order.len(),
{
    if order.len() == 0 {
        Seq::empty()
    } else if order.last() == 0 || order.last() >= nodes.len() {
        kept_positions(nodes, order.drop_last())
    } else {
        kept_positions(nodes, order.drop_last()).push(order.len() - 1)
    }
}

/// The entries of a digest are the nodes at the kept positions of the order,
/// and the kept positions rise.
pub proof fn lemma_kept_positions(nodes: Seq<PackageReferenceView>, order: Seq<usize>)
    ensures
        kept_positions(nodes, order).len() == digest_of(nodes, order).len(),
        forall|m: int|
            0 <= m < kept_positions(nodes, order).len() ==> {
                let at = #[trigger] kept_positions(nodes, order)[m];
                &&& 0 <= at < order.len()
                &&& order[at] != 0
                &&& order[at] < nodes.len()
                &&& digest_of(nodes, order)[m] == nodes[order[at] as int]
            },
        forall|a: int, b: int|
            0 <= a < b < kept_positions(nodes, order).len() ==> (#[trigger] kept_positions(
                nodes,
                order,
            )[a]) < (#[trigger] kept_positions(nodes, order)[b]),
    decreases order.len(),
{
    if order.len() > 0 {
        let shorter = order.drop_last();
        lemma_kept_positions(nodes, shorter);
        let before = kept_positions(nodes, shorter);
        let kept = kept_positions(nodes, order);
        assert forall|m: int| 0 <= m < kept.len() implies {
            let at = #[trigger] kept[m];
            &&& 0 <= at < order.len()
            &&& order[at] != 0
            &&& order[at] < nodes.len()
            &&& digest_of(nodes, order)[m] == nodes[order[at] as int]
        } by {
            if m < before.len() {
                assert(kept[m] == before[m]);
                assert(order[before[m]] == shorter[before[m]]);
                assert(digest_of(nodes, order)[m] == digest_of(nodes, shorter)[m]);
            }
        }
        assert forall|a: int, b: int| 0 <= a < b < kept.len() implies (#[trigger] kept[a]) < (
        #[trigger] kept[b]) by {
            assert(kept[a] == before[a]);
            if b < before.len() {
                assert(kept[b] == before[b]);
            }
        }
    }
}

/// `r` is one of the nodes behind the root, and the edges lead to it from
/// the root.
pub open spec fn is_reached_node(
    nodes: Seq<PackageReferenceView>,
    edges: Seq<(usize, usize)>,
    r: PackageReferenceView,
) -> bool {
    exists|at: usize| 1 <= at < nodes.len() && #[trigger] nodes[at as int] == r && reaches(edges, 0, at)
}

/// No two entries of a list name the same package.
pub open spec fn distinct_packages(list: Seq<PackageReferenceView>) -> bool {
    forall|i: int, j: int|
        0 <= i < j < list.len() ==> !(#[trigger] list[i]).same_loose(#[trigger] list[j])
}

/// A digest holds the node of every position of the order but the root, and
/// nothing else; when no position occurs twice, no two of its entries name
/// the same package.
pub proof fn lemma_digest_of(nodes: Seq<PackageReferenceView>, order: Seq<usize>)
    requires
        distinct_loose(nodes),
        order.no_duplicates(),
        forall|k: int| 0 <= k < order.len() ==> (#[trigger] order[k]) < nodes.len(),
    ensures
        distinct_packages(digest_of(nodes, order)),
        forall|m: int|
            0 <= m < digest_of(nodes, order).len() ==> exists|k: int|
                0 <= k < order.len() && order[k] != 0 && nodes[order[k] as int] == (
                #[trigger] digest_of(nodes, order)[m]),
        forall|k: int|
            0 <= k < order.len() && (#[trigger] order[k]) != 0 ==> digest_of(nodes, order).contains(
                nodes[order[k] as int],
            ),
    decreases order.len(),
{
    if order.len() > 0 {
        let shorter = order.drop_last();
        let before = digest_of(nodes, shorter);
        let whole = digest_of(nodes, order);
        lemma_digest_of(nodes, shorter);
        let last = order.last();
        assert forall|m: int| 0 <= m < whole.len() implies exists|k: int|
            0 <= k < order.len() && order[k] != 0 && nodes[order[k] as int] == (
            #[trigger] whole[m]) by {
            if m < before.len() {
                let k = choose|k: int|
                    0 <= k < shorter.len() && shorter[k] != 0 && nodes[shorter[k] as int]
                        == before[m];
                assert(order[k] == shorter[k]);
            } else {
                assert(order[order.len() - 1] == last);
            }
        }
        assert forall|k: int| 0 <= k < order.len() && (#[trigger] order[k]) != 0 implies whole.contains(
            nodes[order[k] as int],
        ) by {
            if k < shorter.len() {
                assert(shorter[k] == order[k]);
                let m = choose|m: int| 0 <= m < before.len() && before[m] == nodes[order[k] as int];
                assert(whole[m] == nodes[order[k] as int]);
            } else {
                assert(whole[whole.len() - 1] == nodes[order[k] as int]);
            }
        }
        assert forall|i: int, j: int| 0 <= i < j < whole.len() implies !(#[trigger] whole[i]).same_loose(
            #[trigger] whole[j],
        ) by {
            if j < before.len() {
                assert(!before[i].same_loose(before[j]));
            } else {
                let k = choose|k: int|
                    0 <= k < shorter.len() && shorter[k] != 0 && nodes[shorter[k] as int]
                        == before[i];
                assert(order[k] == shorter[k]);
                assert(order[k] != order[order.len() - 1]);
                let a = order[k] as int;
                let b = last as int;
                if a < b {
                    assert(!nodes[a].same_loose(nodes[b]));
                } else {
                    assert(!nodes[b].same_loose(nodes[a]));
                }
            }
        }
    }
}

/// The transition from one graph to another: the references to install and
/// the references to remove.
///
/// `add` is in the order of the new graph's digest and `del` in the order of
/// the old graph's digest. Both are carried out from the back.
#[derive(Debug, PartialEq, Eq)]
pub struct GraphDelta {
    pub add: Vec<PackageReference>,
    pub del: Vec<PackageReference>,
}

/// The position of the first entry that names the package of `r`, or the
/// length of the list when there is none.
pub open spec fn entry_of(list: Seq<PackageReferenceView>, r: PackageReferenceView) -> int {
    loose_index(list, r, 0)
}

/// An entry of the new digest is installed when the old digest lacks its
/// package or holds it in a version that comes before.
pub open spec fn is_added(old_digest: Seq<PackageReferenceView>, r: PackageReferenceView) -> bool {
    let at = entry_of(old_digest, r);
    at >= old_digest.len() || old_digest[at].version.precedes(r.version)
}

/// An entry of the old digest is removed when the new digest lacks its
/// package or holds it in a version that comes after.
pub open spec fn is_removed(new_digest: Seq<PackageReferenceView>, r: PackageReferenceView) -> bool {
    let at = entry_of(new_digest, r);
    at >= new_digest.len() || r.version.precedes(new_digest[at].version)
}

/// `is_added` as a predicate on the entries of the new digest.
pub open spec fn added_to(old_digest: Seq<PackageReferenceView>) -> spec_fn(
    PackageReferenceView,
) -> bool {
    |r: PackageReferenceView| is_added(old_digest, r)
}

/// `is_removed` as a predicate on the entries of the old digest.
pub open spec fn removed_for(new_digest: Seq<PackageReferenceView>) -> spec_fn(
    PackageReferenceView,
) -> bool {
    |r: PackageReferenceView| is_removed(new_digest, r)
}

/// The references to install: the entries of the new digest that are added,
/// in the order of the new digest.
pub open spec fn delta_add(
    old_digest: Seq<PackageReferenceView>,
    new_digest: Seq<PackageReferenceView>,
) -> Seq<PackageReferenceView> {
    new_digest.filter(added_to(old_digest))
}

/// The references to remove: the entries of the old digest that are removed,
/// in the order of the old digest.
pub open spec fn delta_del(
    old_digest: Seq<PackageReferenceView>,
    new_digest: Seq<PackageReferenceView>,
) -> Seq<PackageReferenceView> {
    old_digest.filter(removed_for(new_digest))
}

/// No package of the new digest has a version that comes before the one it
/// has in the old digest.
pub open spec fn no_downgrade(
    old_digest: Seq<PackageReferenceView>,
    new_digest: Seq<PackageReferenceView>,
) -> bool {
    forall|i: int, j: int|
        0 <= i < old_digest.len() && 0 <= j < new_digest.len() && (#[trigger] old_digest[i]).same_loose(
            #[trigger] new_digest[j],
        ) ==> !new_digest[j].version.precedes(old_digest[i].version)
}

/// The position of the first entry that names the package of `r`.
fn find_entry(list: &Vec<PackageReference>, r: &PackageReference) -> (at: usize)
    ensures
        at == entry_of(views(list@), r@),
        at <= list.len(),
{
    let mut i: usize = 0;
    while i < list.len()
        invariant
            i <= list.len(),
            forall|j: int| 0 <= j < i ==> !(#[trigger] views(list@)[j]).same_loose(r@),
        decreases list.len() - i,
    {
        if list[i].same_loose(r) {
            proof {
                lemma_loose_index_is(views(list@), r@, 0, i as int);
            }
            return i;
        }
        i += 1;
    }
    proof {
        lemma_loose_index_is(views(list@), r@, 0, list.len() as int);
    }
    i
}

impl GraphDelta {
    /// The transition from a graph with the digest `old_digest` to one with
    /// the digest `new_digest`.
    ///
    /// A package that only the old digest holds is removed; one that only the
    /// new digest holds is installed; one that both hold is removed in its old
    /// version and installed in its new one when the new version comes after
    /// the old one, and left alone otherwise. Where a digest names a package
    /// more than once, its first entry for the package decides.
    pub fn between(old_digest: &Vec<PackageReference>, new_digest: &Vec<PackageReference>) -> (delta:
        GraphDelta)
        ensures
            views(delta.add@) == delta_add(views(old_digest@), views(new_digest@)),
            views(delta.del@) == delta_del(views(old_digest@), views(new_digest@)),
    {
        let ghost olds = views(old_digest@);
        let ghost news = views(new_digest@);
        let mut del: Vec<PackageReference> = Vec::new();
        let mut i: usize = 0;
        proof {
            reveal(Seq::filter);
            assert(olds.take(0).filter(removed_for(news)) =~= Seq::<PackageReferenceView>::empty());
        }
        while i < old_digest.len()
            invariant
                i <= old_digest.len(),
                olds == views(old_digest@),
                news == views(new_digest@),
                views(del@) == olds.take(i as int).filter(removed_for(news)),
            decreases old_digest.len() - i,
        {
            let current = &old_digest[i];
            let at = find_entry(new_digest, current);
            let removed = at >= new_digest.len() || current.version.is_less_than(
                &new_digest[at].version,
            );
            proof {
                assert(olds.take(i + 1) =~= olds.take(i as int).push(current@));
                olds.take(i as int).lemma_filter_push(current@, removed_for(news));
            }
            if removed {
                del.push(current.duplicate());
                proof {
                    assert(views(del@) =~= olds.take(i as int).filter(removed_for(news)).push(
                        current@,
                    ));
                }
            }
            i += 1;
        }
        let mut add: Vec<PackageReference> = Vec::new();
        let mut j: usize = 0;
        proof {
            reveal(Seq::filter);
            assert(news.take(0).filter(added_to(olds)) =~= Seq::<PackageReferenceView>::empty());
            assert(olds.take(i as int) =~= olds);
        }
        while j < new_digest.len()
            invariant
                j <= new_digest.len(),
                olds == views(old_digest@),
                news == views(new_digest@),
                views(add@) == news.take(j as int).filter(added_to(olds)),
            decreases new_digest.len() - j,
        {
            let current = &new_digest[j];
            let at = find_entry(old_digest, current);
            let added = at >= old_digest.len() || old_digest[at].version.is_less_than(
                &current.version,
            );
            proof {
                assert(news.take(j + 1) =~= news.take(j as int).push(current@));
                news.take(j as int).lemma_filter_push(current@, added_to(olds));
            }
            if added {
                add.push(current.duplicate());
                proof {
                    assert(views(add@) =~= news.take(j as int).filter(added_to(olds)).push(
                        current@,
                    ));
                }
            }
            j += 1;
        }
        proof {
            assert(news.take(j as int) =~= news);
        }
        GraphDelta { add, del }
    }
}

/// An entry is kept by a filter exactly when the list holds it and the
/// predicate accepts it.
proof fn lemma_filter_membership(
    list: Seq<PackageReferenceView>,
    pred: spec_fn(PackageReferenceView) -> bool,
    r: PackageReferenceView,
)
    ensures
        list.filter(pred).contains(r) <==> list.contains(r) && pred(r),
{
    if list.filter(pred).contains(r) {
        list.lemma_filter_contains_rev(pred, r);
        let m = choose|m: int| 0 <= m < list.filter(pred).len() && list.filter(pred)[m] == r;
        list.lemma_filter_pred(pred, m);
    }
    if list.contains(r) && pred(r) {
        let i = choose|i: int| 0 <= i < list.len() && list[i] == r;
        list.lemma_filter_contains(pred, i);
    }
}

/// In a list that names no package twice, the entry of a member is the
/// member.
proof fn lemma_entry_of_member(list: Seq<PackageReferenceView>, i: int)
    requires
        distinct_packages(list),
        0 <= i < list.len(),
    ensures
        entry_of(list, list[i]) == i,
{
    assert forall|k: int| 0 <= k < i implies !(#[trigger] list[k]).same_loose(list[i]) by {
        assert(!list[k].same_loose(list[i]));
    }
    lemma_loose_index_is(list, list[i], 0, i);
}

/// Carrying out a delta leads to the new digest: the entries of the old
/// digest without those removed, together with those installed, are the
/// entries of the new digest.
///
/// This holds when neither digest names a package twice and no package is
/// taken back to a version that comes before the one it had: a package whose
/// new version comes before its old one is left as it is.
pub proof fn lemma_delta_leads_to_new(
    old_digest: Seq<PackageReferenceView>,
    new_digest: Seq<PackageReferenceView>,
)
    requires
        distinct_packages(old_digest),
        distinct_packages(new_digest),
        no_downgrade(old_digest, new_digest),
    ensures
        old_digest.to_set().difference(delta_del(old_digest, new_digest).to_set()).union(
            delta_add(old_digest, new_digest).to_set(),
        ) == new_digest.to_set(),
{
    let add = delta_add(old_digest, new_digest);
    let del = delta_del(old_digest, new_digest);
    let applied = old_digest.to_set().difference(del.to_set()).union(add.to_set());
    assert forall|r: PackageReferenceView| applied.contains(r) <==> new_digest.to_set().contains(
        r,
    ) by {
        lemma_filter_membership(new_digest, added_to(old_digest), r);
        lemma_filter_membership(old_digest, removed_for(new_digest), r);
        if new_digest.contains(r) {
            let j = choose|j: int| 0 <= j < new_digest.len() && new_digest[j] == r;
            lemma_entry_of_member(new_digest, j);
            lemma_loose_index(old_digest, r, 0);
            let at = entry_of(old_digest, r);
            if at < old_digest.len() && !old_digest[at].version.precedes(r.version) {
                assert(old_digest[at].same_loose(new_digest[j]));
                assert(old_digest[at].version == r.version);
                assert(old_digest[at].namespace == r.namespace);
                assert(old_digest[at] == r);
                assert(old_digest.contains(r));
                assert(!is_removed(new_digest, r));
            }
        }
        if old_digest.contains(r) && !del.contains(r) {
            let i = choose|i: int| 0 <= i < old_digest.len() && old_digest[i] == r;
            lemma_loose_index(new_digest, r, 0);
            let at = entry_of(new_digest, r);
            assert(at < new_digest.len());
            assert(old_digest[i].same_loose(new_digest[at]));
            assert(new_digest[at].version == r.version);
            assert(new_digest[at] == r);
        }
    }
    assert(applied =~= new_digest.to_set());
}

/// Between a digest and itself nothing is installed and nothing is removed,
/// when the digest names no package twice.
pub proof fn lemma_delta_of_same_is_empty(digest: Seq<PackageReferenceView>)
    requires
        distinct_packages(digest),
    ensures
        delta_add(digest, digest).len() == 0,
        delta_del(digest, digest).len() == 0,
{
    let add = delta_add(digest, digest);
    let del = delta_del(digest, digest);
    if add.len() > 0 {
        let r = add[0];
        assert(add.contains(r));
        lemma_filter_membership(digest, added_to(digest), r);
        let i = choose|i: int| 0 <= i < digest.len() && digest[i] == r;
        lemma_entry_of_member(digest, i);
    }
    if del.len() > 0 {
        let r = del[0];
        assert(del.contains(r));
        lemma_filter_membership(digest, removed_for(digest), r);
        let i = choose|i: int| 0 <= i < digest.len() && digest[i] == r;
        lemma_entry_of_member(digest, i);
    }
}

/// A node names the package of `r` in a version that does not come before
/// that of `r`.
pub open spec fn covers(nodes: Seq<PackageReferenceView>, r: PackageReferenceView) -> bool {
    node_of(nodes, r) < nodes.len() && !nodes[node_of(nodes, r)].version.precedes(r.version)
}

/// The nodes after every reference of `adds` was added, one after the other.
pub open spec fn add_all(
    nodes: Seq<PackageReferenceView>,
    adds: Seq<PackageReferenceView>,
) -> Seq<PackageReferenceView>
    decreases adds.len(),
{
    if adds.len() == 0 {
        nodes
    } else {
        add_spec(add_all(nodes, adds.drop_last()), adds.last())
    }
}

/// What adding a reference does to the nodes: no node is lost or moved, no
/// package comes to stand twice, the reference is covered afterwards, what
/// was covered stays covered, and every node is the reference or the node
/// that stood there before.
pub proof fn lemma_add_spec(nodes: Seq<PackageReferenceView>, value: PackageReferenceView)
    requires
        nodes.len() >= 1,
        distinct_loose(nodes),
    ensures
        add_spec(nodes, value).len() >= nodes.len(),
        add_spec(nodes, value).len() <= nodes.len() + 1,
        add_spec(nodes, value)[0] == nodes[0],
        distinct_loose(add_spec(nodes, value)),
        covers(add_spec(nodes, value), value),
        forall|r: PackageReferenceView| #[trigger]
            covers(nodes, r) ==> covers(add_spec(nodes, value), r),
        forall|r: PackageReferenceView|
            node_of(nodes, r) < nodes.len() ==> #[trigger] node_of(add_spec(nodes, value), r)
                == node_of(nodes, r),
        forall|k: int|
            1 <= k < add_spec(nodes, value).len() ==> (#[trigger] add_spec(nodes, value)[k]) == value
                || (k < nodes.len() && add_spec(nodes, value)[k] == nodes[k]),
{
    let after = add_spec(nodes, value);
    let at = node_of(nodes, value);
    lemma_loose_index(nodes, value, 1);
    assert forall|i: int| 0 <= i < nodes.len() implies (#[trigger] after[i]).same_loose(nodes[i]) by {}
    assert forall|i: int, j: int| 1 <= i < j < after.len() implies !(#[trigger] after[i]).same_loose(
        #[trigger] after[j],
    ) by {
        if j < nodes.len() {
            assert(!nodes[i].same_loose(nodes[j]));
        }
    }
    assert forall|r: PackageReferenceView|
        node_of(nodes, r) < nodes.len() implies #[trigger] node_of(after, r) == node_of(
        nodes,
        r,
    ) by {
        lemma_loose_index(nodes, r, 1);
        let k = node_of(nodes, r);
        assert forall|i: int| 1 <= i < k implies !(#[trigger] after[i]).same_loose(r) by {
            assert(after[i].same_loose(nodes[i]));
        }
        assert(after[k].same_loose(nodes[k]));
        lemma_loose_index_is(after, r, 1, k);
    }
    assert forall|r: PackageReferenceView| #[trigger] covers(nodes, r) implies covers(after, r) by {
        let k = node_of(nodes, r);
        lemma_loose_index(nodes, r, 1);
        assert(node_of(after, r) == k);
        if after[k] != nodes[k] {
            assert(after[k] == value);
            assert(nodes[k].version.precedes(value.version));
            if value.version.precedes(r.version) {
                lemma_version_order_transitive(nodes[k].version, value.version, r.version);
            }
        }
    }
    if at >= nodes.len() {
        assert forall|i: int| 1 <= i < nodes.len() implies !(#[trigger] after[i]).same_loose(
            value,
        ) by {
            assert(after[i].same_loose(nodes[i]));
        }
        lemma_loose_index_is(after, value, 1, nodes.len() as int);
    } else {
        assert(node_of(after, value) == at);
    }
}

/// In a graph that was built by adding references to the root, the node of
/// every package has the greatest version that was added for the package: no
/// reference that was added has a version that comes after the one of its
/// node, and every node is one of the references that were added.
pub proof fn lemma_add_keeps_greatest(adds: Seq<PackageReferenceView>)
    ensures
        add_all(seq![root_view()], adds).len() >= 1,
        add_all(seq![root_view()], adds)[0] == root_view(),
        distinct_loose(add_all(seq![root_view()], adds)),
        forall|i: int|
            0 <= i < adds.len() ==> covers(add_all(seq![root_view()], adds), #[trigger] adds[i]),
        forall|k: int|
            1 <= k < add_all(seq![root_view()], adds).len() ==> adds.contains(
                #[trigger] add_all(seq![root_view()], adds)[k],
            ),
    decreases adds.len(),
{
    let start = seq![root_view()];
    if adds.len() > 0 {
        let shorter = adds.drop_last();
        let before = add_all(start, shorter);
        let after = add_all(start, adds);
        lemma_add_keeps_greatest(shorter);
        lemma_add_spec(before, adds.last());
        assert forall|i: int| 0 <= i < adds.len() implies covers(after, #[trigger] adds[i]) by {
            if i < shorter.len() {
                assert(shorter[i] == adds[i]);
                assert(covers(before, shorter[i]));
            }
        }
        assert forall|k: int| 1 <= k < after.len() implies adds.contains(#[trigger] after[k]) by {
            if after[k] == adds.last() {
                assert(adds[adds.len() - 1] == after[k]);
            } else {
                assert(shorter.contains(before[k]));
                let i = choose|i: int| 0 <= i < shorter.len() && shorter[i] == before[k];
                assert(adds[i] == after[k]);
            }
        }
    }
}

/// Why a set of packages could not be resolved.
#[derive(Debug, PartialEq, Eq)]
pub enum ResolveError {
    /// The index has no line for the package.
    PackageNotFound(PackageReference),
    /// The line of the package cannot be read from the index.
    CorruptIndex(PackageReference, IndexError),
    /// The graph would hold more nodes or edges than can be numbered in 32
    /// bits.
    GraphFull,
    /// Packages were still waiting when the allowed number of steps was used
    /// up.
    StepLimit,
}

/// The mathematical value of a `ResolveError`.
pub enum ResolveErrorView {
    PackageNotFound(PackageReferenceView),
    CorruptIndex(PackageReferenceView, IndexError),
    GraphFull,
    StepLimit,
}

impl View for ResolveError {
    type V = ResolveErrorView;

    open spec fn view(&self) -> ResolveErrorView {
        match self {
            ResolveError::PackageNotFound(r) => ResolveErrorView::PackageNotFound(r@),
            ResolveError::CorruptIndex(r, e) => ResolveErrorView::CorruptIndex(r@, *e),
            ResolveError::GraphFull => ResolveErrorView::GraphFull,
            ResolveError::StepLimit => ResolveErrorView::StepLimit,
        }
    }
}

/// The state of a resolution: the graph as far as it is built, and the
/// references that wait to be looked up, the next one first.
pub struct Resolution {
    pub nodes: Seq<PackageReferenceView>,
    pub edges: Seq<(usize, usize)>,
    pub queue: Seq<PackageReferenceView>,
}

/// What one dependency `dep` of the package `current` does to a resolution.
///
/// Unless the graph holds the package of `dep` in a version that comes after
/// that of `dep`, `dep` is added and waits to be looked up. In both cases an
/// edge from `current` to the package of `dep` is added.
pub open spec fn visit_dependency(
    s: Resolution,
    current: PackageReferenceView,
    dep: PackageReferenceView,
) -> Resolution {
    if contains_spec(s.nodes, dep, Granularity::GreaterVersion) {
        Resolution {
            nodes: s.nodes,
            edges: s.edges.push((node_of(s.nodes, current) as usize, node_of(s.nodes, dep) as usize)),
            queue: s.queue,
        }
    } else {
        let nodes = add_spec(s.nodes, dep);
        Resolution {
            nodes,
            edges: s.edges.push((node_of(nodes, current) as usize, node_of(nodes, dep) as usize)),
            queue: s.queue.push(dep),
        }
    }
}

/// What the dependencies of `current` do to a resolution, one after the
/// other.
pub open spec fn visit_all(
    s: Resolution,
    current: PackageReferenceView,
    deps: Seq<PackageReferenceView>,
) -> Resolution
    decreases deps.len(),
{
    if deps.len() == 0 {
        s
    } else {
        visit_dependency(visit_all(s, current, deps.drop_last()), current, deps.last())
    }
}

/// One step of a resolution: the reference that waited longest is added to
/// the graph, and then its dependencies `deps` are gone through.
pub open spec fn step_spec(s: Resolution, deps: Seq<PackageReferenceView>) -> Resolution {
    let current = s.queue[0];
    visit_all(
        Resolution { nodes: add_spec(s.nodes, current), edges: s.edges, queue: s.queue.skip(1) },
        current,
        deps,
    )
}

/// Whether a step with the dependencies `deps` keeps the graph within what
/// can be numbered in 32 bits.
pub open spec fn step_fits(s: Resolution, deps: Seq<PackageReferenceView>) -> bool {
    s.nodes.len() + deps.len() + 1 <= u32::MAX && s.edges.len() + deps.len() <= u32::MAX
}

/// A resolution run for at most `fuel` steps, until no reference waits.
///
/// Each step looks up the reference that waited longest in the index; a
/// reference that the index cannot give ends the run with an error.
pub open spec fn run_spec(s: Resolution, index: PackageIndexView, fuel: nat) -> Result<
    Resolution,
    ResolveErrorView,
>
    decreases fuel,
{
    if s.queue.len() == 0 {
        Ok(s)
    } else if fuel == 0 {
        Err(ResolveErrorView::StepLimit)
    } else {
        match index.get_package_spec(s.queue[0]) {
            Err(IndexError::NotFound) => Err(ResolveErrorView::PackageNotFound(s.queue[0])),
            Err(e) => Err(ResolveErrorView::CorruptIndex(s.queue[0], e)),
            Ok(record) => if step_fits(s, record.dependencies) {
                run_spec(step_spec(s, record.dependencies), index, (fuel - 1) as nat)
            } else {
                Err(ResolveErrorView::GraphFull)
            },
        }
    }
}

/// The edges after an edge from the root to the package of each of `roots`
/// was added.
pub open spec fn root_all(
    nodes: Seq<PackageReferenceView>,
    edges: Seq<(usize, usize)>,
    roots: Seq<PackageReferenceView>,
) -> Seq<(usize, usize)>
    decreases roots.len(),
{
    if roots.len() == 0 {
        edges
    } else {
        root_all(nodes, edges, roots.drop_last()).push(
            (0usize, node_of(nodes, roots.last()) as usize),
        )
    }
}

/// The resolution of `packages` against `index` in at most `fuel` steps: the
/// run that starts with the root alone and `packages` waiting, and then an
/// edge from the root to each of `packages`.
pub open spec fn resolve_spec(
    packages: Seq<PackageReferenceView>,
    index: PackageIndexView,
    fuel: nat,
) -> Result<Resolution, ResolveErrorView> {
    match run_spec(
        Resolution { nodes: seq![root_view()], edges: Seq::empty(), queue: packages },
        index,
        fuel,
    ) {
        Err(e) => Err(e),
        Ok(s) => if s.edges.len() + packages.len() > u32::MAX {
            Err(ResolveErrorView::GraphFull)
        } else {
            Ok(
                Resolution {
                    nodes: s.nodes,
                    edges: root_all(s.nodes, s.edges, packages),
                    queue: s.queue,
                },
            )
        },
    }
}

/// A digest holds the package of `r` in a version that does not come before
/// that of `r`.
pub open spec fn digest_covers(digest: Seq<PackageReferenceView>, r: PackageReferenceView) -> bool {
    exists|m: int|
        0 <= m < digest.len() && (#[trigger] digest[m]).same_loose(r) && !digest[m].version.precedes(
            r.version,
        )
}

/// The edges that start at the root are the last of the edges, one for each
/// of `roots` in turn, and each leads to the node of its package.
pub open spec fn root_edges_are(
    nodes: Seq<PackageReferenceView>,
    edges: Seq<(usize, usize)>,
    roots: Seq<PackageReferenceView>,
) -> bool {
    &&& edges.len() >= roots.len()
    &&& forall|k: int| 0 <= k < edges.len() - roots.len() ==> (#[trigger] edges[k]).0 != 0
    &&& forall|i: int|
        0 <= i < roots.len() ==> edges[edges.len() - roots.len() + i] == (
            0usize,
            node_of(nodes, #[trigger] roots[i]) as usize,
        )
}

/// Goes through one dependency of `current`.
fn visit(
    graph: &mut DependencyGraph,
    queue: &mut Vec<PackageReference>,
    current: &PackageReference,
    dep: &PackageReference,
)
    requires
        old(graph).wf(),
        node_of(old(graph).nodes(), current@) < old(graph).nodes().len(),
        old(graph).nodes().len() < u32::MAX,
        old(graph).edges().len() < u32::MAX,
    ensures
        final(graph).wf(),
        ({
            let s = visit_dependency(
                Resolution {
                    nodes: old(graph).nodes(),
                    edges: old(graph).edges(),
                    queue: views(old(queue)@),
                },
                current@,
                dep@,
            );
            final(graph).nodes() == s.nodes && final(graph).edges() == s.edges && views(
                final(queue)@,
            ) == s.queue
        }),
        final(graph).nodes().len() <= old(graph).nodes().len() + 1,
        final(graph).edges().len() == old(graph).edges().len() + 1,
        final(graph).edges().last().0 != 0,
        final(graph).edges().drop_last() == old(graph).edges(),
        node_of(final(graph).nodes(), current@) < final(graph).nodes().len(),
        forall|r: PackageReferenceView| #[trigger]
            covers(old(graph).nodes(), r) ==> covers(final(graph).nodes(), r),
        final(queue)@.len() >= old(queue)@.len(),
        forall|i: int|
            0 <= i < old(queue)@.len() ==> (#[trigger] final(queue)@[i]) == old(queue)@[i],
{
    let ghost nodes = graph.nodes();
    if !graph.contains(dep, Granularity::GreaterVersion) {
        proof {
            lemma_add_spec(nodes, dep@);
        }
        graph.add(dep.duplicate());
        proof {
            lemma_loose_index(graph.nodes(), current@, 1);
        }
        graph.add_edge(current, dep);
        queue.push(dep.duplicate());
        proof {
            assert(views(queue@) =~= views(old(queue)@).push(dep@));
        }
    } else {
        proof {
            lemma_loose_index(graph.nodes(), current@, 1);
        }
        graph.add_edge(current, dep);
        proof {
            assert(views(queue@) =~= views(old(queue)@));
        }
    }
    proof {
        assert(graph.edges().drop_last() =~= old(graph).edges());
    }
}

/// Resolves `packages`: builds the graph of the packages, of the packages
/// they depend on, and so on, from the records of `index`.
///
/// The references wait in a queue, `packages` first. As long as one waits,
/// the one that waited longest is looked up in the index and added to the
/// graph. Each of its dependencies gets an edge from it; unless the graph
/// holds the dependency's package in a version that comes after, the
/// dependency is added too and waits in turn. When none waits any more, the
/// root gets an edge to each of `packages`.
///
/// A reference that the index cannot give ends the resolution with an error,
/// and so does a graph that outgrows 32-bit numbering. The resolution takes
/// at most `max_steps` lookups: a catalog in which a package depends on
/// itself through others would keep it going for ever.
///
/// The digest of the graph holds every one of `packages`, in the version
/// asked for or one that comes after.
pub fn resolve_packages(packages: Vec<PackageReference>, index: &PackageIndex, max_steps: usize) -> (r:
    Result<DependencyGraph, ResolveError>)
    ensures
        match resolve_spec(views(packages@), index@, max_steps as nat) {
            Ok(s) => r matches Ok(g) && g.wf() && g.nodes() == s.nodes && g.edges() == s.edges,
            Err(e) => r matches Err(x) && x@ == e,
        },
        r matches Ok(g) ==> forall|i: int|
            0 <= i < packages@.len() ==> digest_covers(g.digest_spec(), (#[trigger] packages@[i])@),
        r matches Ok(g) ==> root_edges_are(g.nodes(), g.edges(), views(packages@)),
{
    let ghost roots = views(packages@);
    let ghost start = Resolution { nodes: seq![root_view()], edges: Seq::empty(), queue: roots };
    let mut graph = DependencyGraph::new();
    let mut queue: Vec<PackageReference> = Vec::new();
    let mut k: usize = 0;
    while k < packages.len()
        invariant
            k <= packages.len(),
            views(queue@) == views(packages@).take(k as int),
        decreases packages.len() - k,
    {
        let ghost before = views(queue@);
        queue.push(packages[k].duplicate());
        k += 1;
        assert(views(queue@) =~= before.push(packages@[k - 1]@));
        assert(views(packages@).take(k as int) =~= views(packages@).take(k - 1).push(
            packages@[k - 1]@,
        ));
    }
    assert(views(packages@).take(k as int) =~= roots);
    let mut head: usize = 0;
    let mut steps: usize = 0;
    assert(views(queue@).skip(0) =~= roots);
    while head < queue.len()
        invariant
            head <= queue.len(),
            steps <= max_steps,
            graph.wf(),
            roots == views(packages@),
            start == (Resolution { nodes: seq![root_view()], edges: Seq::empty(), queue: roots }),
            run_spec(
                Resolution {
                    nodes: graph.nodes(),
                    edges: graph.edges(),
                    queue: views(queue@).skip(head as int),
                },
                index@,
                (max_steps - steps) as nat,
            ) == run_spec(start, index@, max_steps as nat),
            forall|i: int|
                0 <= i < roots.len() ==> covers(graph.nodes(), #[trigger] roots[i]) || exists|j: int|
                    head <= j < queue@.len() && queue@[j]@ == roots[i],
            forall|k: int| 0 <= k < graph.edges().len() ==> (#[trigger] graph.edges()[k]).0 != 0,
        decreases max_steps - steps, queue.len() - head,
    {
        let ghost here = Resolution {
            nodes: graph.nodes(),
            edges: graph.edges(),
            queue: views(queue@).skip(head as int),
        };
        assert(here.queue[0] == queue@[head as int]@);
        if steps == max_steps {
            return Err(ResolveError::StepLimit);
        }
        let current = queue[head].duplicate();
        let record = match index.get_package(&current) {
            Ok(record) => record,
            Err(IndexError::NotFound) => {
                return Err(ResolveError::PackageNotFound(current));
            },
            Err(e) => {
                return Err(ResolveError::CorruptIndex(current, e));
            },
        };
        let deps = &record.dependencies;
        let limit: usize = 0xffff_ffff;
        if deps.len() >= limit || graph.node_count() >= limit - deps.len() || graph.edge_count()
            > limit - deps.len() {
            return Err(ResolveError::GraphFull);
        }
        assert(step_fits(here, views(deps@)));
        let ghost queue_before = queue@;
        proof {
            lemma_add_spec(graph.nodes(), current@);
        }
        graph.add(current.duplicate());
        head += 1;
        let ghost entered = Resolution {
            nodes: graph.nodes(),
            edges: graph.edges(),
            queue: views(queue@).skip(head as int),
        };
        assert(entered.queue =~= here.queue.skip(1));
        let mut j: usize = 0;
        while j < deps.len()
            invariant
                j <= deps.len(),
                head <= queue.len(),
                graph.wf(),
                node_of(graph.nodes(), current@) < graph.nodes().len(),
                graph.nodes().len() + (deps.len() - j) <= u32::MAX,
                graph.edges().len() + (deps.len() - j) <= u32::MAX,
                queue@.len() >= queue_before.len(),
                forall|i: int|
                    0 <= i < queue_before.len() ==> (#[trigger] queue@[i]) == queue_before[i],
                forall|r: PackageReferenceView| #[trigger]
                    covers(entered.nodes, r) ==> covers(graph.nodes(), r),
                forall|k: int| 0 <= k < graph.edges().len() ==> (#[trigger] graph.edges()[k]).0 != 0,
                (Resolution {
                    nodes: graph.nodes(),
                    edges: graph.edges(),
                    queue: views(queue@).skip(head as int),
                }) == visit_all(entered, current@, views(deps@).take(j as int)),
            decreases deps.len() - j,
        {
            let ghost queue_then = views(queue@);
            let ghost edges_then = graph.edges();
            visit(&mut graph, &mut queue, &current, &deps[j]);
            proof {
                assert forall|k: int| 0 <= k < graph.edges().len() implies (
                #[trigger] graph.edges()[k]).0 != 0 by {
                    if k < edges_then.len() {
                        assert(graph.edges()[k] == graph.edges().drop_last()[k]);
                    }
                }
                assert(views(deps@).take(j + 1).drop_last() =~= views(deps@).take(j as int));
                assert(views(deps@).take(j + 1).last() == deps@[j as int]@);
                if views(queue@) != queue_then {
                    assert(views(queue@).skip(head as int) =~= queue_then.skip(head as int).push(
                        deps@[j as int]@,
                    ));
                }
            }
            j += 1;
        }
        proof {
            assert(views(deps@).take(j as int) =~= views(deps@));
            assert forall|i: int| 0 <= i < roots.len() implies covers(
                graph.nodes(),
                #[trigger] roots[i],
            ) || exists|j: int| head <= j < queue@.len() && queue@[j]@ == roots[i] by {
                if covers(here.nodes, roots[i]) {
                    assert(covers(entered.nodes, roots[i]));
                } else {
                    let w = choose|w: int|
                        head - 1 <= w < queue_before.len() && queue_before[w]@ == roots[i];
                    if w == head - 1 {
                        assert(covers(entered.nodes, roots[i]));
                    } else {
                        assert(queue@[w] == queue_before[w]);
                    }
                }
            }
        }
        steps += 1;
    }
    let limit: usize = 0xffff_ffff;
    if packages.len() > limit || graph.edge_count() > limit - packages.len() {
        return Err(ResolveError::GraphFull);
    }
    let ghost nodes = graph.nodes();
    let ghost edges = graph.edges();
    assert(views(queue@).skip(head as int) =~= Seq::<PackageReferenceView>::empty());
    let mut m: usize = 0;
    while m < packages.len()
        invariant
            m <= packages.len(),
            graph.wf(),
            roots == views(packages@),
            graph.nodes() == nodes,
            graph.edges() == root_all(nodes, edges, roots.take(m as int)),
            graph.edges().len() == edges.len() + m,
            edges.len() + packages.len() <= u32::MAX,
            forall|i: int| 0 <= i < roots.len() ==> covers(nodes, #[trigger] roots[i]),
            forall|i: int|
                0 <= i < m ==> graph.edges().contains(
                    (0usize, node_of(nodes, #[trigger] roots[i]) as usize),
                ),
            forall|k: int| 0 <= k < edges.len() ==> (#[trigger] graph.edges()[k]) == edges[k],
            forall|i: int|
                0 <= i < m ==> graph.edges()[edges.len() + i] == (
                    0usize,
                    node_of(nodes, #[trigger] roots[i]) as usize,
                ),
            forall|k: int| 0 <= k < edges.len() ==> (#[trigger] edges[k]).0 != 0,
        decreases packages.len() - m,
    {
        let ghost edges_then = graph.edges();
        assert(covers(nodes, roots[m as int]));
        graph.add_rooted_edge(&packages[m]);
        proof {
            assert forall|k: int| 0 <= k < edges.len() implies (#[trigger] graph.edges()[k])
                == edges[k] by {
                assert(graph.edges()[k] == edges_then[k]);
            }
            assert forall|i: int| 0 <= i < m + 1 implies graph.edges()[edges.len() + i] == (
                0usize,
                node_of(nodes, #[trigger] roots[i]) as usize,
            ) by {
                if i < m {
                    assert(graph.edges()[edges.len() + i] == edges_then[edges.len() + i]);
                }
            }
            assert(roots.take(m + 1).drop_last() =~= roots.take(m as int));
            assert(roots.take(m + 1).last() == roots[m as int]);
            assert forall|i: int| 0 <= i < m + 1 implies graph.edges().contains(
                (0usize, node_of(nodes, #[trigger] roots[i]) as usize),
            ) by {
                if i < m {
                    let at = choose|at: int|
                        0 <= at < edges_then.len() && edges_then[at] == (
                            0usize,
                            node_of(nodes, roots[i]) as usize,
                        );
                    assert(graph.edges()[at] == edges_then[at]);
                } else {
                    assert(graph.edges()[graph.edges().len() - 1] == (
                        0usize,
                        node_of(nodes, roots[i]) as usize,
                    ));
                }
            }
        }
        m += 1;
    }
    assert(roots.take(m as int) =~= roots);
    let _ = graph.digest();
    proof {
        assert forall|i: int| 0 <= i < packages@.len() implies digest_covers(
            graph.digest_spec(),
            (#[trigger] packages@[i])@,
        ) by {
            let r = roots[i];
            assert(r == packages@[i]@);
            assert(covers(nodes, r));
            lemma_loose_index(nodes, r, 1);
            let at = node_of(nodes, r);
            let edge = (0usize, at as usize);
            assert(graph.edges().contains(edge));
            let e = choose|e: int| 0 <= e < graph.edges().len() && graph.edges()[e] == edge;
            assert(graph.edges()[e].1 != 0);
            assert(graph.digest_spec().contains(nodes[at]));
            let w = choose|w: int|
                0 <= w < graph.digest_spec().len() && graph.digest_spec()[w] == nodes[at];
            assert(graph.digest_spec()[w].same_loose(r));
        }
    }
    Ok(graph)
}

/// The pairs of `costs`, the cheapest first. Pairs that cost the same keep
/// their order.
fn sort_by_cost(costs: &Vec<(usize, usize)>) -> (sorted: Vec<(usize, usize)>)
    ensures
        sorted@.to_multiset() == costs@.to_multiset(),
        forall|a: int, b: int|
            0 <= a < b < sorted@.len() ==> (#[trigger] sorted@[a]).1 <= (#[trigger] sorted@[b]).1,
{
    let mut sorted: Vec<(usize, usize)> = Vec::new();
    let mut i: usize = 0;
    assert(costs@.take(0) =~= sorted@);
    while i < costs.len()
        invariant
            i <= costs.len(),
            sorted@.to_multiset() == costs@.take(i as int).to_multiset(),
            forall|a: int, b: int|
                0 <= a < b < sorted@.len() ==> (#[trigger] sorted@[a]).1 <= (#[trigger] sorted@[b]).1,
        decreases costs.len() - i,
    {
        let item = costs[i];
        let mut at: usize = 0;
        while at < sorted.len() && sorted[at].1 <= item.1
            invariant
                at <= sorted.len(),
                forall|a: int| 0 <= a < at ==> (#[trigger] sorted@[a]).1 <= item.1,
            decreases sorted.len() - at,
        {
            at += 1;
        }
        let ghost before = sorted@;
        sorted.insert(at, item);
        proof {
            vstd::seq_lib::to_multiset_insert(before, at as int, item);
            vstd::seq_lib::to_multiset_build(costs@.take(i as int), item);
            assert(costs@.take(i + 1) =~= costs@.take(i as int).push(item));
            assert forall|a: int, b: int| 0 <= a < b < sorted@.len() implies (
            #[trigger] sorted@[a]).1 <= (#[trigger] sorted@[b]).1 by {
                if a < at && b > at {
                    assert(sorted@[a] == before[a]);
                    assert(sorted@[b] == before[b - 1]);
                } else if a < at && b < at {
                    assert(sorted@[a] == before[a]);
                    assert(sorted@[b] == before[b]);
                } else if a > at {
                    assert(sorted@[a] == before[a - 1]);
                    assert(sorted@[b] == before[b - 1]);
                } else if a == at {
                    assert(sorted@[b] == before[b - 1]);
                    assert(before[at as int].1 <= before[b - 1].1 || b - 1 == at);
                } else {
                    assert(sorted@[a] == before[a]);
                }
            }
        }
        i += 1;
    }
    assert(costs@.take(i as int) =~= costs@);
    sorted
}

/// A list that holds each pair of the costs once and names no node twice,
/// put in the order of the costs, is a cost order.
proof fn lemma_cost_order(
    costs: Seq<(usize, usize)>,
    sorted: Seq<(usize, usize)>,
    map: Map<usize, usize>,
)
    requires
        forall|i: int| 0 <= i < costs.len() ==> map.contains_pair((#[trigger] costs[i]).0, costs[i].1),
        forall|i: int, j: int|
            0 <= i < j < costs.len() ==> (#[trigger] costs[i]).0 != (#[trigger] costs[j]).0,
        forall|node: usize|
            map.dom().contains(node) ==> exists|i: int|
                0 <= i < costs.len() && (#[trigger] costs[i]).0 == node,
        sorted.to_multiset() == costs.to_multiset(),
        forall|a: int, b: int|
            0 <= a < b < sorted.len() ==> (#[trigger] sorted[a]).1 <= (#[trigger] sorted[b]).1,
    ensures
        is_cost_order(sorted, map),
{
    sorted.to_multiset_ensures();
    costs.to_multiset_ensures();
    assert(costs.no_duplicates()) by {
        assert forall|i: int, j: int| 0 <= i < costs.len() && 0 <= j < costs.len() && i != j implies costs[i]
            != costs[j] by {
            if i < j {
                assert(costs[i].0 != costs[j].0);
            } else {
                assert(costs[j].0 != costs[i].0);
            }
        }
    }
    costs.lemma_multiset_has_no_duplicates();
    sorted.lemma_multiset_has_no_duplicates_conv();
    assert forall|i: int| 0 <= i < sorted.len() implies map.contains_pair(
        (#[trigger] sorted[i]).0,
        sorted[i].1,
    ) by {
        assert(sorted.contains(sorted[i]));
        vstd::seq_lib::to_multiset_contains(sorted, sorted[i]);
        vstd::seq_lib::to_multiset_contains(costs, sorted[i]);
        assert(costs.contains(sorted[i]));
        let b = choose|b: int| 0 <= b < costs.len() && costs[b] == sorted[i];
        assert(map.contains_pair(costs[b].0, costs[b].1));
    }
    assert forall|i: int, j: int| 0 <= i < j < sorted.len() implies (#[trigger] sorted[i]).0 != (
    #[trigger] sorted[j]).0 by {
        assert(sorted.contains(sorted[i]));
        assert(sorted.contains(sorted[j]));
        vstd::seq_lib::to_multiset_contains(sorted, sorted[i]);
        vstd::seq_lib::to_multiset_contains(costs, sorted[i]);
        vstd::seq_lib::to_multiset_contains(sorted, sorted[j]);
        vstd::seq_lib::to_multiset_contains(costs, sorted[j]);
        let c = choose|c: int| 0 <= c < costs.len() && costs[c] == sorted[i];
        let d = choose|d: int| 0 <= d < costs.len() && costs[d] == sorted[j];
        assert(sorted[i] != sorted[j]);
        if c < d {
            assert(costs[c].0 != costs[d].0);
        } else {
            assert(costs[d].0 != costs[c].0);
        }
    }
    assert forall|node: usize| map.dom().contains(node) implies exists|i: int|
        0 <= i < sorted.len() && (#[trigger] sorted[i]).0 == node by {
        let b = choose|b: int| 0 <= b < costs.len() && (#[trigger] costs[b]).0 == node;
        assert(costs.contains(costs[b]));
        vstd::seq_lib::to_multiset_contains(sorted, costs[b]);
        vstd::seq_lib::to_multiset_contains(costs, costs[b]);
        assert(sorted.contains(costs[b]));
        let a = choose|a: int| 0 <= a < sorted.len() && sorted[a] == costs[b];
        assert(sorted[a].0 == node);
    }
}

} // verus!
