//! The lock file of a project: the graph of what is installed, with a digest
//! that shows whether the file was changed by hand.

use crate::package::resolver::{parts_wf, root_view, DependencyGraph};
use crate::ts::package_reference::{views, PackageReference};
use crate::util::file::{md5, md5_hex};
use vstd::prelude::*;
use vstd::string::StringExecFns;

verus! {

/// The lock file of a project.
#[derive(Debug, PartialEq, Eq)]
pub struct LockFile {
    pub path: String,
    pub version: u32,
    pub graph_hash: String,
    pub nodes: Vec<PackageReference>,
    pub edges: Vec<(usize, usize)>,
}

impl LockFile {
    /// The lock file of a project in which nothing is installed: version 1,
    /// no digest, and a graph without nodes.
    pub fn new(path: &str) -> (lock: LockFile)
        ensures
            lock.path@ == path@,
            lock.version == 1,
            lock.graph_hash@ == Seq::<char>::empty(),
            lock.nodes@ == Seq::<PackageReference>::empty(),
            lock.edges@ == Seq::<(usize, usize)>::empty(),
    {
        LockFile {
            path: String::from_str(path),
            version: 1,
            graph_hash: String::new(),
            nodes: Vec::new(),
            edges: Vec::new(),
        }
    }

    /// The lock file with `package_graph` in place of its graph.
    /// `serialized` is the form in which the graph is written to the file;
    /// the lock file records the digest of it.
    pub fn with_graph(self, package_graph: DependencyGraph, serialized: &[u8]) -> (lock: LockFile)
        requires
            package_graph.wf(),
        ensures
            lock.path == self.path,
            lock.version == self.version,
            lock.graph_hash@ == md5_hex(serialized@),
            views(lock.nodes@) == package_graph.nodes(),
            lock.edges@ == package_graph.edges(),
    {
        let (nodes, edges) = package_graph.into_inner();
        LockFile { path: self.path, version: self.version, graph_hash: md5(serialized), nodes, edges }
    }

    /// Whether the digest that the lock file records is the digest of
    /// `serialized`, the form in which its graph is written in the file. A
    /// graph that was changed by hand does not have the digest any more.
    pub fn is_intact(&self, serialized: &[u8]) -> (r: bool)
        ensures
            r == (self.graph_hash@ == md5_hex(serialized@)),
    {
        let digest = md5(serialized);
        self.graph_hash == digest
    }

    /// The graph of the lock file. A lock file without nodes stands for the
    /// graph of a project in which nothing is installed. Nodes and edges that
    /// make no graph give nothing.
    pub fn into_graph(self) -> (r: Option<DependencyGraph>)
        ensures
            match r {
                Some(g) => g.wf() && (if self.nodes@.len() == 0 && self.edges@.len() == 0 {
                    g.nodes() == seq![root_view()] && g.edges() == Seq::<(usize, usize)>::empty()
                } else {
                    g.nodes() == views(self.nodes@) && g.edges() == self.edges@
                }),
                None => !(self.nodes@.len() == 0 && self.edges@.len() == 0) && !parts_wf(
                    views(self.nodes@),
                    self.edges@,
                ),
            },
    {
        DependencyGraph::from_graph(self.nodes, self.edges)
    }
}

} // verus!
