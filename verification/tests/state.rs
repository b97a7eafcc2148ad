use tcli::package::install::api::{FileAction, TrackedFile};
use tcli::project::state::{
    split_reported, stage_reported, ReportedFile, StagedFile, StagedProbe, StateEntry, StateFile,
};
use tcli::ts::package_reference::PackageReference;
use tcli::util::file::{md5, remove_empty_dirs, DirInfo};

fn pkg(text: &str) -> PackageReference {
    PackageReference::from_str(text).unwrap()
}

fn file_at(path: &str) -> TrackedFile {
    TrackedFile { action: FileAction::Create, path: path.to_string(), context: None }
}

fn reported(path: &str, in_staging: bool, in_state: bool, contents: &[u8]) -> ReportedFile {
    ReportedFile { file: file_at(path), in_staging, in_state, contents: contents.to_vec() }
}

#[test]
fn md5_of_known_contents() {
    assert_eq!(md5(b"hello world"), "5eb63bbbe01eeed093cb22bb8f5acdc3");
    assert_eq!(md5(b""), "d41d8cd98f00b204e9800998ecf8427e");
    assert_eq!(md5(b"The quick brown fox jumps over the lazy dog"), "9e107d9d372bb6826bd81d3542a419d6");
}

#[test]
fn staged_file_records_the_digest() {
    let file = StagedFile::new(file_at("staging/mods/a.dll"), b"hello world");
    assert_eq!(file.md5, "5eb63bbbe01eeed093cb22bb8f5acdc3");
    assert!(file.dest.is_empty());
    assert_eq!(file.action, file_at("staging/mods/a.dll"));
}

#[test]
fn is_same_as_compares_digests() {
    let file = StagedFile::new(file_at("staging/mods/a.dll"), b"hello world");
    assert!(file.is_same_as(Some(b"hello world")));
    assert!(!file.is_same_as(Some(b"hello world!")));
    assert!(!file.is_same_as(Some(b"")));
    assert!(!file.is_same_as(None));
}

#[test]
fn uninstall_deletes_an_unchanged_copy() {
    let mut file = StagedFile::new(file_at("staging/mods/a.dll"), b"contents D");
    assert!(file.stage_to("game/mods/a.dll".to_string(), None));
    let current = vec![Some(b"contents D".to_vec())];
    assert_eq!(file.copies_to_delete(false, &current), vec!["game/mods/a.dll".to_string()]);
}

#[test]
fn uninstall_leaves_a_changed_copy() {
    let mut file = StagedFile::new(file_at("staging/mods/a.dll"), b"contents D");
    assert!(file.stage_to("game/mods/a.dll".to_string(), None));
    let current = vec![Some(b"edited by the user".to_vec())];
    assert_eq!(file.copies_to_delete(false, &current), Vec::<String>::new());
}

#[test]
fn copies_are_kept_while_the_staged_file_exists() {
    let mut file = StagedFile::new(file_at("staging/a"), b"x");
    file.stage_to("game/a".to_string(), None);
    file.stage_to("other/a".to_string(), None);
    let current = vec![Some(b"x".to_vec()), Some(b"x".to_vec())];
    assert!(file.copies_to_delete(true, &current).is_empty());
    assert_eq!(file.copies_to_delete(false, &current).len(), 2);
    let partly = vec![None, Some(b"x".to_vec())];
    assert_eq!(file.copies_to_delete(false, &partly), vec!["other/a".to_string()]);
    assert_eq!(file.copies_to_delete(false, &vec![Some(b"x".to_vec())]), vec!["game/a".to_string()]);
}

#[test]
fn launch_copies_what_differs() {
    let mut file = StagedFile::new(file_at("staging/a"), b"new");
    assert!(!file.stage_to("game/a".to_string(), Some(b"new")));
    assert!(file.dest.is_empty());
    assert!(file.stage_to("game/a".to_string(), Some(b"old")));
    assert!(file.stage_to("game/b".to_string(), None));
    assert_eq!(file.dest, vec!["game/a".to_string(), "game/b".to_string()]);
}

#[test]
fn reported_files_are_sorted_by_directory() {
    let files = vec![
        reported("staging/a", true, false, b"a"),
        reported("state/b", false, true, b""),
        reported("/tmp/c", false, false, b""),
        reported("staging/state/d", true, true, b"d"),
    ];
    let (staged, linked) = split_reported(&files);
    assert_eq!(staged, vec![file_at("staging/a"), file_at("staging/state/d")]);
    assert_eq!(linked, vec![file_at("state/b"), file_at("staging/state/d")]);
}

#[test]
fn state_records_and_forgets_packages() {
    let mut state = StateFile::new();
    let a = pkg("n-a-1.0.0");
    let b = pkg("n-b-1.0.0");
    state.record(&a, vec![StagedFile::new(file_at("staging/a1"), b"1")], vec![file_at("state/a2")]);
    state.record(&b, vec![], vec![file_at("state/b1")]);
    state.record(&a, vec![StagedFile::new(file_at("staging/a3"), b"3")], vec![]);
    assert_eq!(state.len(), 2);
    assert_eq!(state.position(&a), 0);
    assert_eq!(state.position(&b), 1);
    assert_eq!(state.package_at(1), &b);
    assert_eq!(state.entry_at(0).staged.len(), 2);
    assert_eq!(
        state.tracked_files(&a),
        vec![file_at("staging/a1"), file_at("staging/a3"), file_at("state/a2")]
    );
    assert_eq!(state.tracked_files(&pkg("n-a-2.0.0")), vec![]);
    let gone = state.remove(&a).unwrap();
    assert_eq!(gone.linked, vec![file_at("state/a2")]);
    assert_eq!(state.len(), 1);
    assert!(state.get(&a).is_none());
    assert!(state.remove(&a).is_none());
    assert_eq!(state.get(&b).unwrap().linked, vec![file_at("state/b1")]);
}

#[test]
fn uninstall_cleanup_of_a_package() {
    let mut state = StateFile::new();
    let package = pkg("n-mod-1.0.0");
    state.record(
        &package,
        vec![StagedFile::new(file_at("staging/mods/a.dll"), b"D")],
        vec![],
    );
    assert!(state.stage_to(0, 0, "game/mods/a.dll".to_string(), None));
    assert_eq!(state.tracked_files(&package), vec![file_at("staging/mods/a.dll")]);
    let entry = state.get(&package).unwrap();
    let delete = entry.staged[0].copies_to_delete(false, &vec![Some(b"D".to_vec())]);
    assert_eq!(delete, vec!["game/mods/a.dll".to_string()]);
    assert!(state.remove(&package).is_some());
    assert_eq!(state.len(), 0);
    let staging = vec![
        DirInfo { parent: None, files: 0, others: 0 },
        DirInfo { parent: Some(0), files: 0, others: 0 },
    ];
    assert_eq!(remove_empty_dirs(&staging, false), vec![1]);
}

#[test]
fn state_entry_lists_staged_before_linked() {
    let mut entry = StateEntry::new();
    assert!(entry.tracked_files().is_empty());
    entry.linked.push(file_at("state/x"));
    entry.staged.push(StagedFile::new(file_at("staging/y"), b"y"));
    assert_eq!(entry.tracked_files(), vec![file_at("staging/y"), file_at("state/x")]);
}

#[test]
fn empty_directories_are_removed_from_the_bottom_up() {
    // root / {a / {b / {c}}, d (one file), e / {f (a link inside)}, g}
    let dirs = vec![
        DirInfo { parent: None, files: 0, others: 0 },
        DirInfo { parent: Some(0), files: 0, others: 0 },
        DirInfo { parent: Some(1), files: 0, others: 0 },
        DirInfo { parent: Some(2), files: 0, others: 0 },
        DirInfo { parent: Some(0), files: 1, others: 0 },
        DirInfo { parent: Some(0), files: 0, others: 0 },
        DirInfo { parent: Some(5), files: 0, others: 1 },
        DirInfo { parent: Some(0), files: 0, others: 0 },
    ];
    assert_eq!(remove_empty_dirs(&dirs, false), vec![7, 3, 2, 1]);
    assert_eq!(remove_empty_dirs(&dirs, true), vec![7, 3, 2, 1]);
}

#[test]
fn root_is_removed_only_on_request() {
    let dirs = vec![
        DirInfo { parent: None, files: 0, others: 0 },
        DirInfo { parent: Some(0), files: 0, others: 0 },
    ];
    assert_eq!(remove_empty_dirs(&dirs, false), vec![1]);
    assert_eq!(remove_empty_dirs(&dirs, true), vec![1, 0]);
    assert_eq!(remove_empty_dirs(&vec![], true), Vec::<usize>::new());
    let with_file = vec![DirInfo { parent: None, files: 2, others: 0 }];
    assert!(remove_empty_dirs(&with_file, true).is_empty());
}

#[test]
fn staged_files_of_a_report_get_their_digests() {
    let files = vec![
        reported("staging/a", true, false, b"hello world"),
        reported("state/b", false, true, b"ignored"),
        reported("staging/c", true, false, b""),
    ];
    let staged = stage_reported(&files);
    assert_eq!(staged.len(), 2);
    assert_eq!(staged[0].action, file_at("staging/a"));
    assert_eq!(staged[0].md5, "5eb63bbbe01eeed093cb22bb8f5acdc3");
    assert_eq!(staged[1].action, file_at("staging/c"));
    assert_eq!(staged[1].md5, "d41d8cd98f00b204e9800998ecf8427e");
    assert!(staged[0].dest.is_empty() && staged[1].dest.is_empty());
}

#[test]
fn install_is_recorded_under_the_package() {
    let mut state = StateFile::new();
    let package = pkg("n-mod-1.0.0");
    state.record_install(
        &package,
        &vec![
            reported("staging/mods/a.dll", true, false, b"D"),
            reported("state/config.cfg", false, true, b""),
            reported("/elsewhere", false, false, b""),
        ],
    );
    state.record_install(&package, &vec![reported("staging/mods/b.dll", true, false, b"E")]);
    assert_eq!(state.len(), 1);
    let entry = state.get(&package).unwrap();
    assert_eq!(entry.staged.len(), 2);
    assert_eq!(entry.staged[0].md5, md5(b"D"));
    assert_eq!(entry.staged[1].action, file_at("staging/mods/b.dll"));
    assert_eq!(entry.linked, vec![file_at("state/config.cfg")]);
}

#[test]
fn uninstall_names_the_copies_to_delete() {
    let mut state = StateFile::new();
    let package = pkg("n-mod-1.0.0");
    let other = pkg("n-other-1.0.0");
    state.record_install(
        &package,
        &vec![
            reported("staging/mods/a.dll", true, false, b"A"),
            reported("staging/mods/b.dll", true, false, b"B"),
            reported("staging/mods/c.dll", true, false, b"C"),
        ],
    );
    state.record_install(&other, &vec![reported("staging/o", true, false, b"O")]);
    assert!(state.stage_to(0, 0, "game/mods/a.dll".to_string(), None));
    assert!(state.stage_to(0, 1, "game/mods/b.dll".to_string(), None));
    assert!(state.stage_to(0, 2, "game/mods/c.dll".to_string(), None));
    let probes = vec![
        StagedProbe { source_exists: false, copies: vec![Some(b"A".to_vec())] },
        StagedProbe { source_exists: false, copies: vec![Some(b"edited".to_vec())] },
        StagedProbe { source_exists: true, copies: vec![Some(b"C".to_vec())] },
    ];
    assert_eq!(state.uninstall(&package, &probes), Some(vec!["game/mods/a.dll".to_string()]));
    assert_eq!(state.len(), 1);
    assert!(state.get(&package).is_none());
    assert!(state.get(&other).is_some());
    assert_eq!(state.uninstall(&package, &probes), None);
    assert_eq!(state.uninstall(&other, &vec![]), Some(vec![]));
}
