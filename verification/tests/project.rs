use tcli::error::Error;
use tcli::package::index::PackageIndex;
use tcli::package::resolver::{resolve_packages, DependencyGraph};
use tcli::project::lock::LockFile;
use tcli::project::overrides::ProjectOverrides;
use tcli::project::{read_pid, stale_pid_files, stop_target, Project, StopTarget};
use tcli::ts::package_reference::PackageReference;
use tcli::ts::v1::package::download_for_package;
use tcli::ts::version::Version;
use tcli::util::file::md5;

fn pkg(text: &str) -> PackageReference {
    PackageReference::from_str(text).unwrap()
}

fn small_catalog() -> PackageIndex {
    let lines = vec![
        b"{\"namespace\":\"n\",\"name\":\"top\",\"version_number\":\"1.0.0\",\"file_size\":1,\"dependencies\":[\"n-mid-1.0.0\"]}".to_vec(),
        b"{\"namespace\":\"n\",\"name\":\"mid\",\"version_number\":\"1.0.0\",\"file_size\":1,\"dependencies\":[\"n-leaf-1.0.0\"]}".to_vec(),
        b"{\"namespace\":\"n\",\"name\":\"leaf\",\"version_number\":\"1.0.0\",\"file_size\":1,\"dependencies\":[]}".to_vec(),
        b"{\"namespace\":\"n\",\"name\":\"leaf\",\"version_number\":\"2.0.0\",\"file_size\":1,\"dependencies\":[]}".to_vec(),
    ];
    PackageIndex::sync(&lines).unwrap()
}

#[test]
fn project_layout() {
    let project = Project::open("/home/me/profile");
    assert_eq!(project.base_dir, "/home/me/profile");
    assert_eq!(project.state_dir, "/home/me/profile/.tcli/project_state");
    assert_eq!(project.staging_dir, "/home/me/profile/.tcli/staging");
    assert_eq!(project.manifest_path, "/home/me/profile/Thunderstore.toml");
    assert_eq!(project.lockfile_path, "/home/me/profile/Thunderstore.lock");
    assert_eq!(project.game_registry_path, "/home/me/profile/.tcli/game_registry.json");
    assert_eq!(project.statefile_path, "/home/me/profile/.tcli/state.json");
    assert_eq!(project.pid_file_path("ror2"), "/home/me/profile/.tcli/ror2.pid");
}

#[test]
fn pid_files_hold_decimal_numbers() {
    assert_eq!(read_pid("4242"), Some(4242));
    assert_eq!(read_pid("0"), Some(0));
    assert_eq!(read_pid("4294967295"), Some(4294967295));
    assert_eq!(read_pid("4294967296"), None);
    assert_eq!(read_pid(""), None);
    assert_eq!(read_pid("12\n"), None);
    assert_eq!(read_pid("-1"), None);
}

#[test]
fn stop_takes_a_pid_or_a_game() {
    assert_eq!(stop_target("1234"), StopTarget::Pid(1234));
    assert_eq!(stop_target("riskofrain2"), StopTarget::Game("riskofrain2".to_string()));
    assert_eq!(stop_target("12a"), StopTarget::Game("12a".to_string()));
}

#[test]
fn stale_pid_files_are_those_of_dead_processes() {
    let files = vec!["a.pid".to_string(), "b.pid".to_string(), "c.pid".to_string()];
    assert_eq!(
        stale_pid_files(&files, &vec![true, false, false]),
        vec!["b.pid".to_string(), "c.pid".to_string()]
    );
    assert_eq!(stale_pid_files(&files, &vec![false]), vec!["a.pid".to_string()]);
    assert!(stale_pid_files(&files, &vec![true, true, true]).is_empty());
}

#[test]
fn add_packages_merges_into_the_manifest() {
    let manifest = vec![pkg("n-a-1.0.0"), pkg("n-b-2.0.0"), pkg("n-c-1.0.0")];
    let asked = vec![pkg("n-b-2.1.0"), pkg("n-c-0.9.0"), pkg("n-d-1.0.0"), pkg("n-a-1.0.0")];
    assert_eq!(
        Project::add_packages(manifest, &asked),
        vec![pkg("n-a-1.0.0"), pkg("n-b-2.1.0"), pkg("n-c-1.0.0"), pkg("n-d-1.0.0")]
    );
    assert_eq!(Project::add_packages(vec![], &vec![pkg("n-a-1.0.0")]), vec![pkg("n-a-1.0.0")]);
    assert_eq!(Project::add_packages(vec![pkg("n-a-1.0.0")], &vec![]), vec![pkg("n-a-1.0.0")]);
}

#[test]
fn remove_packages_takes_exact_versions_out() {
    let manifest = vec![pkg("n-a-1.0.0"), pkg("n-b-2.0.0"), pkg("n-c-1.0.0")];
    let asked = vec![pkg("n-b-2.0.0"), pkg("n-c-9.9.9"), pkg("n-x-1.0.0")];
    assert_eq!(Project::remove_packages(manifest, &asked), vec![pkg("n-a-1.0.0"), pkg("n-c-1.0.0")]);
}

#[test]
fn commit_plan_works_from_the_back_of_the_delta() {
    let index = small_catalog();
    let old = DependencyGraph::new();
    let new = resolve_packages(vec![pkg("n-top-1.0.0")], &index, usize::MAX).unwrap();
    assert_eq!(new.digest(), vec![pkg("n-leaf-1.0.0"), pkg("n-mid-1.0.0"), pkg("n-top-1.0.0")]);
    let plan = Project::plan_commit(&old, &new);
    assert!(plan.uninstall.is_empty());
    assert_eq!(plan.install, vec![pkg("n-top-1.0.0"), pkg("n-mid-1.0.0"), pkg("n-leaf-1.0.0")]);
    let back = Project::plan_commit(&new, &old);
    assert_eq!(back.uninstall, vec![pkg("n-top-1.0.0"), pkg("n-mid-1.0.0"), pkg("n-leaf-1.0.0")]);
    assert!(back.install.is_empty());
}

#[test]
fn second_commit_of_the_same_manifest_has_nothing_to_do() {
    let index = small_catalog();
    let manifest = vec![pkg("n-top-1.0.0"), pkg("n-leaf-2.0.0")];
    let first = resolve_packages(
        vec![manifest[0].duplicate(), manifest[1].duplicate()],
        &index,
        usize::MAX,
    )
    .unwrap();
    let (nodes, edges) = first.into_inner();
    let locked = DependencyGraph::from_graph(nodes, edges).unwrap();
    let again = resolve_packages(manifest, &index, usize::MAX).unwrap();
    let plan = Project::plan_commit(&locked, &again);
    assert!(plan.uninstall.is_empty());
    assert!(plan.install.is_empty());
}

#[test]
fn upgrade_removes_the_old_version_and_installs_the_new() {
    let index = small_catalog();
    let old = resolve_packages(vec![pkg("n-mid-1.0.0")], &index, usize::MAX).unwrap();
    let new = resolve_packages(vec![pkg("n-mid-1.0.0"), pkg("n-leaf-2.0.0")], &index, usize::MAX)
        .unwrap();
    let plan = Project::plan_commit(&old, &new);
    assert_eq!(plan.uninstall, vec![pkg("n-leaf-1.0.0")]);
    assert_eq!(plan.install, vec![pkg("n-leaf-2.0.0")]);
}

#[test]
fn lock_file_records_graph_and_digest() {
    let index = small_catalog();
    let graph = resolve_packages(vec![pkg("n-mid-1.0.0")], &index, usize::MAX).unwrap();
    let digest = graph.digest();
    let lock = LockFile::new("Thunderstore.lock");
    assert_eq!(lock.version, 1);
    assert_eq!(lock.graph_hash, "");
    assert!(lock.nodes.is_empty() && lock.edges.is_empty());
    let lock = lock.with_graph(graph, b"serialized graph");
    assert_eq!(lock.path, "Thunderstore.lock");
    assert_eq!(lock.version, 1);
    assert_eq!(lock.graph_hash, md5(b"serialized graph"));
    assert!(lock.is_intact(b"serialized graph"));
    assert!(!lock.is_intact(b"serialized graph, edited"));
    assert_eq!(lock.nodes.len(), 3);
    assert_eq!(lock.into_graph().unwrap().digest(), digest);
}

#[test]
fn new_lock_file_stands_for_an_empty_project() {
    let graph = LockFile::new("x").into_graph().unwrap();
    assert_eq!(graph.node_count(), 1);
    assert!(graph.digest().is_empty());
    let broken = LockFile {
        path: "x".to_string(),
        version: 1,
        graph_hash: String::new(),
        nodes: vec![pkg("n-a-1.0.0")],
        edges: vec![],
    };
    assert!(broken.into_graph().is_none());
}

#[test]
fn overrides_are_set_one_by_one() {
    let overrides = ProjectOverrides::new()
        .namespace_override(Some("team".to_string()))
        .name_override(None)
        .version_override(Some(Version::new(1, 2, 3)))
        .output_dir_override(Some("dist".to_string()))
        .repository_override(Some("https://thunderstore.io".to_string()));
    assert_eq!(overrides.namespace, Some("team".to_string()));
    assert_eq!(overrides.name, None);
    assert_eq!(overrides.version, Some(Version::new(1, 2, 3)));
    assert_eq!(overrides.output_dir, Some("dist".to_string()));
    assert_eq!(overrides.repository, Some("https://thunderstore.io".to_string()));
}

#[test]
fn download_address_of_a_package() {
    assert_eq!(
        download_for_package(&pkg("bbepis-BepInExPack-5.4.2113")),
        "https://thunderstore.io/package/download/bbepis/BepInExPack/5.4.2113/"
    );
}

#[test]
fn new_project_is_not_created_over_a_file_or_a_manifest() {
    assert_eq!(
        Project::create_new("/p", false, true, false),
        Err(Error::ProjectDirIsFile("/p".to_string()))
    );
    assert_eq!(
        Project::create_new("/p", true, true, true),
        Err(Error::ProjectDirIsFile("/p".to_string()))
    );
    assert_eq!(
        Project::create_new("/p", false, false, true),
        Err(Error::ProjectAlreadyExists("/p/Thunderstore.toml".to_string()))
    );
    assert_eq!(Project::create_new("/p", true, false, true), Ok(Project::open("/p")));
    assert_eq!(Project::create_new("/p", false, false, false), Ok(Project::open("/p")));
}

#[test]
fn archive_is_named_after_the_package() {
    assert_eq!(Project::archive_name(&pkg("team-Mod-1.2.3")), "team-Mod-1.2.3.zip");
}
