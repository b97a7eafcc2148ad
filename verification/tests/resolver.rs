use std::collections::HashSet;

use tcli::package::index::{IndexError, PackageIndex};
use tcli::package::resolver::{
    resolve_packages, DependencyGraph, Granularity, GraphDelta, ResolveError,
};
use tcli::ts::package_reference::PackageReference;

fn reference(text: &str) -> PackageReference {
    PackageReference::from_str(text).unwrap()
}

fn line(namespace: &str, name: &str, version: &str, dependencies: &[&str]) -> Vec<u8> {
    let quoted: Vec<String> = dependencies.iter().map(|d| format!("\"{}\"", d)).collect();
    format!(
        "{{\"namespace\":\"{}\",\"name\":\"{}\",\"version_number\":\"{}\",\"file_format\":\"thunderstore.io:v0\",\"file_size\":1024,\"dependencies\":[{}]}}",
        namespace,
        name,
        version,
        quoted.join(",")
    )
    .into_bytes()
}

fn catalog() -> PackageIndex {
    let lines = vec![
        line(
            "bbepis",
            "BepInExPack",
            "5.4.2113",
            &[
                "RiskofThunder-BepInEx_GUI-3.0.1",
                "RiskofThunder-FixPluginTypesSerialization-1.0.3",
                "RiskofThunder-RoR2BepInExPack-1.9.0",
            ],
        ),
        line("bbepis", "BepInExPack", "5.4.2112", &[]),
        line("RiskofThunder", "BepInEx_GUI", "3.0.1", &[]),
        line("RiskofThunder", "FixPluginTypesSerialization", "1.0.3", &[]),
        line("RiskofThunder", "RoR2BepInExPack", "1.9.0", &[]),
    ];
    PackageIndex::sync(&lines).unwrap()
}

fn expected_set() -> HashSet<PackageReference> {
    let expected = vec![
        "bbepis-BepInExPack-5.4.2113",
        "RiskofThunder-BepInEx_GUI-3.0.1",
        "RiskofThunder-FixPluginTypesSerialization-1.0.3",
        "RiskofThunder-RoR2BepInExPack-1.9.0",
    ];
    expected.into_iter().map(|x| PackageReference::from_str(x).unwrap()).collect::<HashSet<_>>()
}

#[test]
fn test_resolver() {
    let expected = expected_set();

    let target = PackageReference::from_str("bbepis-BepInExPack-5.4.2113").unwrap();
    let got = resolve_packages(vec![target], &catalog(), usize::MAX).unwrap();

    for package in got.digest().iter() {
        assert!(expected.contains(package));
    }
    assert_eq!(expected.len(), got.digest().len());
}

#[test]
fn test_resolver_version_hiearchy() {
    let expected = expected_set();

    let target = PackageReference::from_str("bbepis-BepInExPack-5.4.2113").unwrap();
    let disrupt = PackageReference::from_str("bbepis-BepInExPack-5.4.2112").unwrap();

    let graph = resolve_packages(vec![target, disrupt], &catalog(), usize::MAX).unwrap();
    let got = graph.digest();

    for package in got.iter() {
        assert!(expected.contains(package));
    }

    assert_eq!(expected.len(), got.len());
}

#[test]
fn version_collision_in_either_order_gives_the_same_digest() {
    let high = reference("bbepis-BepInExPack-5.4.2113");
    let low = reference("bbepis-BepInExPack-5.4.2112");
    let first = resolve_packages(vec![high.duplicate(), low.duplicate()], &catalog(), usize::MAX)
        .unwrap();
    let second = resolve_packages(vec![low, high], &catalog(), usize::MAX).unwrap();
    let single =
        resolve_packages(vec![reference("bbepis-BepInExPack-5.4.2113")], &catalog(), usize::MAX)
            .unwrap();
    assert_eq!(first.digest(), single.digest());
    assert_eq!(second.digest(), single.digest());
}

#[test]
fn digest_lists_leaves_first() {
    let graph =
        resolve_packages(vec![reference("bbepis-BepInExPack-5.4.2113")], &catalog(), usize::MAX)
            .unwrap();
    assert_eq!(
        graph.digest(),
        vec![
            reference("RiskofThunder-BepInEx_GUI-3.0.1"),
            reference("RiskofThunder-FixPluginTypesSerialization-1.0.3"),
            reference("RiskofThunder-RoR2BepInExPack-1.9.0"),
            reference("bbepis-BepInExPack-5.4.2113"),
        ]
    );
}

#[test]
fn digest_holds_every_requested_package() {
    let wanted = vec![
        reference("RiskofThunder-BepInEx_GUI-3.0.1"),
        reference("bbepis-BepInExPack-5.4.2112"),
    ];
    let graph = resolve_packages(
        vec![wanted[0].duplicate(), wanted[1].duplicate()],
        &catalog(),
        usize::MAX,
    )
    .unwrap();
    let digest = graph.digest();
    for package in wanted.iter() {
        assert!(digest
            .iter()
            .any(|d| d.same_loose(package) && !d.version.is_less_than(&package.version)));
    }
}

#[test]
fn delta_from_full_install_to_one_dependency() {
    let old = resolve_packages(vec![reference("bbepis-BepInExPack-5.4.2113")], &catalog(), usize::MAX)
        .unwrap();
    let new = resolve_packages(
        vec![reference("RiskofThunder-BepInEx_GUI-3.0.1")],
        &catalog(),
        usize::MAX,
    )
    .unwrap();
    let delta = old.graph_delta(&new);
    assert_eq!(
        delta.del,
        vec![
            reference("RiskofThunder-FixPluginTypesSerialization-1.0.3"),
            reference("RiskofThunder-RoR2BepInExPack-1.9.0"),
            reference("bbepis-BepInExPack-5.4.2113"),
        ]
    );
    assert_eq!(delta.add, Vec::<PackageReference>::new());
}

#[test]
fn delta_from_nothing_installs_everything() {
    let old = DependencyGraph::new();
    let new = resolve_packages(vec![reference("bbepis-BepInExPack-5.4.2113")], &catalog(), usize::MAX)
        .unwrap();
    let delta = old.graph_delta(&new);
    assert_eq!(delta.add, new.digest());
    assert!(delta.del.is_empty());
}

#[test]
fn delta_between_equal_graphs_is_empty() {
    let a = resolve_packages(vec![reference("bbepis-BepInExPack-5.4.2113")], &catalog(), usize::MAX)
        .unwrap();
    let b = resolve_packages(vec![reference("bbepis-BepInExPack-5.4.2113")], &catalog(), usize::MAX)
        .unwrap();
    let delta = a.graph_delta(&b);
    assert!(delta.add.is_empty());
    assert!(delta.del.is_empty());
}

#[test]
fn delta_replaces_a_raised_version() {
    let old = vec![reference("a-x-1.0.0"), reference("a-y-1.0.0"), reference("a-z-2.0.0")];
    let new = vec![reference("a-y-1.2.0"), reference("a-z-1.0.0"), reference("a-w-0.1.0")];
    let delta = GraphDelta::between(&old, &new);
    assert_eq!(delta.del, vec![reference("a-x-1.0.0"), reference("a-y-1.0.0")]);
    assert_eq!(delta.add, vec![reference("a-y-1.2.0"), reference("a-w-0.1.0")]);
}

#[test]
fn carrying_out_a_delta_gives_the_new_digest() {
    let old = vec![reference("a-x-1.0.0"), reference("a-y-1.0.0"), reference("a-z-2.0.0")];
    let new = vec![reference("a-y-1.2.0"), reference("a-z-2.0.0"), reference("a-w-0.1.0")];
    let delta = GraphDelta::between(&old, &new);
    let mut applied: HashSet<PackageReference> = old.into_iter().collect();
    for gone in delta.del.iter() {
        applied.remove(gone);
    }
    for added in delta.add.into_iter() {
        applied.insert(added);
    }
    let wanted: HashSet<PackageReference> = new.into_iter().collect();
    assert_eq!(applied, wanted);
}

#[test]
fn add_keeps_the_greatest_version() {
    let mut graph = DependencyGraph::new();
    graph.add(reference("a-x-1.0.0"));
    graph.add(reference("a-x-1.2.0"));
    graph.add(reference("a-x-1.1.9"));
    graph.add(reference("a-y-0.0.1"));
    assert_eq!(graph.node_count(), 3);
    assert!(graph.contains(&reference("a-x-1.2.0"), Granularity::All));
    assert!(!graph.contains(&reference("a-x-1.1.9"), Granularity::All));
    assert!(graph.contains(&reference("a-y-0.0.1"), Granularity::All));
}

#[test]
fn contains_compares_versions_by_granularity() {
    let mut graph = DependencyGraph::new();
    graph.add(reference("a-x-1.2.0"));
    let lower = reference("a-x-1.0.0");
    let same = reference("a-x-1.2.0");
    let higher = reference("a-x-2.0.0");
    let other = reference("a-q-1.2.0");
    assert!(graph.contains(&lower, Granularity::IgnoreVersion));
    assert!(graph.contains(&same, Granularity::All));
    assert!(!graph.contains(&lower, Granularity::All));
    assert!(graph.contains(&lower, Granularity::GreaterVersion));
    assert!(!graph.contains(&same, Granularity::GreaterVersion));
    assert!(graph.contains(&higher, Granularity::LesserVersion));
    assert!(!graph.contains(&lower, Granularity::LesserVersion));
    assert!(!graph.contains(&other, Granularity::IgnoreVersion));
    assert!(!graph.contains(&reference("@-@-0.0.0"), Granularity::IgnoreVersion));
}

#[test]
fn digest_follows_edges_from_the_root_only() {
    let mut graph = DependencyGraph::new();
    let a = reference("n-a-1.0.0");
    let b = reference("n-b-1.0.0");
    let c = reference("n-c-1.0.0");
    let loose = reference("n-loose-1.0.0");
    graph.add(a.duplicate());
    graph.add(b.duplicate());
    graph.add(c.duplicate());
    graph.add(loose);
    graph.add_edge(&a, &b);
    graph.add_edge(&b, &c);
    graph.add_edge(&b, &c);
    graph.add_rooted_edge(&a);
    assert_eq!(graph.edge_count(), 4);
    assert_eq!(graph.digest(), vec![c, b, a]);
}

#[test]
fn dependencies_come_nearest_first() {
    let mut graph = DependencyGraph::new();
    let a = reference("n-a-1.0.0");
    let b = reference("n-b-1.0.0");
    let c = reference("n-c-1.0.0");
    let d = reference("n-d-1.0.0");
    for r in [&a, &b, &c, &d] {
        graph.add(r.duplicate());
    }
    graph.add_edge(&a, &b);
    graph.add_edge(&b, &c);
    graph.add_edge(&c, &d);
    graph.add_edge(&a, &c);
    let list = graph.get_dependencies(&a).unwrap();
    assert_eq!(list.len(), 4);
    assert_eq!(list[0], a);
    assert_eq!(list[3], d);
    assert!(list[1..3].contains(&b) && list[1..3].contains(&c));
    assert_eq!(graph.get_dependencies(&d).unwrap(), vec![d.duplicate()]);
    assert_eq!(graph.get_dependencies(&reference("n-none-1.0.0")), None);
}

#[test]
fn graph_is_stored_and_restored() {
    let graph =
        resolve_packages(vec![reference("bbepis-BepInExPack-5.4.2113")], &catalog(), usize::MAX)
            .unwrap();
    let digest = graph.digest();
    let (nodes, edges) = graph.into_inner();
    assert_eq!(nodes.len(), 5);
    assert_eq!(nodes[0], reference("@-@-0.0.0"));
    assert_eq!(edges, vec![(1, 2), (1, 3), (1, 4), (0, 1)]);
    let restored = DependencyGraph::from_graph(nodes, edges).unwrap();
    assert_eq!(restored.digest(), digest);
}

#[test]
fn stored_graph_is_checked() {
    assert_eq!(DependencyGraph::from_graph(vec![], vec![]).unwrap().node_count(), 1);
    let root = reference("@-@-0.0.0");
    let a = reference("n-a-1.0.0");
    assert!(DependencyGraph::from_graph(vec![a.duplicate()], vec![]).is_none());
    assert!(DependencyGraph::from_graph(vec![], vec![(0, 0)]).is_none());
    assert!(DependencyGraph::from_graph(
        vec![root.duplicate(), a.duplicate(), reference("n-a-2.0.0")],
        vec![]
    )
    .is_none());
    assert!(DependencyGraph::from_graph(vec![root.duplicate(), a.duplicate()], vec![(0, 2)])
        .is_none());
    assert!(DependencyGraph::from_graph(vec![root, a], vec![(0, 1)]).is_some());
}

#[test]
fn missing_package_ends_the_resolution() {
    let missing = reference("nobody-Nothing-1.0.0");
    let result = resolve_packages(vec![missing.duplicate()], &catalog(), usize::MAX);
    assert_eq!(result.err(), Some(ResolveError::PackageNotFound(missing)));
}

#[test]
fn missing_dependency_ends_the_resolution() {
    let lines = vec![line("a", "top", "1.0.0", &["a-gone-1.0.0"])];
    let index = PackageIndex::sync(&lines).unwrap();
    let result = resolve_packages(vec![reference("a-top-1.0.0")], &index, usize::MAX);
    assert_eq!(result.err(), Some(ResolveError::PackageNotFound(reference("a-gone-1.0.0"))));
}

#[test]
fn corrupt_record_ends_the_resolution() {
    let lines = vec![
        b"{\"namespace\":\"a\",\"name\":\"top\",\"version_number\":\"1.0.0\"}".to_vec(),
    ];
    let index = PackageIndex::sync(&lines).unwrap();
    let result = resolve_packages(vec![reference("a-top-1.0.0")], &index, usize::MAX);
    assert!(matches!(
        result.err(),
        Some(ResolveError::CorruptIndex(_, IndexError::Corrupt(_)))
    ));
}

#[test]
fn cyclic_catalog_runs_into_the_step_limit() {
    let lines = vec![
        line("a", "ping", "1.0.0", &["a-pong-1.0.0"]),
        line("a", "pong", "1.0.0", &["a-ping-1.0.0"]),
    ];
    let index = PackageIndex::sync(&lines).unwrap();
    let result = resolve_packages(vec![reference("a-ping-1.0.0")], &index, 50);
    assert_eq!(result.err(), Some(ResolveError::StepLimit));
}

#[test]
fn step_limit_counts_lookups() {
    let enough = resolve_packages(vec![reference("bbepis-BepInExPack-5.4.2113")], &catalog(), 4);
    assert!(enough.is_ok());
    let short = resolve_packages(vec![reference("bbepis-BepInExPack-5.4.2113")], &catalog(), 3);
    assert_eq!(short.err(), Some(ResolveError::StepLimit));
    let nothing = resolve_packages(vec![], &catalog(), 0).unwrap();
    assert!(nothing.digest().is_empty());
}

#[test]
fn lower_dependency_is_not_queued_behind_a_higher_one() {
    let lines = vec![
        line("a", "top", "1.0.0", &["a-lib-2.0.0", "a-old-1.0.0"]),
        line("a", "lib", "2.0.0", &[]),
        line("a", "old", "1.0.0", &["a-lib-1.0.0"]),
    ];
    let index = PackageIndex::sync(&lines).unwrap();
    let graph = resolve_packages(vec![reference("a-top-1.0.0")], &index, usize::MAX).unwrap();
    let digest = graph.digest();
    assert!(digest.contains(&reference("a-lib-2.0.0")));
    assert!(!digest.iter().any(|r| *r == reference("a-lib-1.0.0")));
    assert_eq!(digest.len(), 3);
}
