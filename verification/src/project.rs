//! A project: its layout on disk, the packages its manifest asks for, and
//! the plan that brings what is installed in line with them.

pub mod lock;
pub mod overrides;
pub mod state;

use crate::error::Error;
use crate::package::resolver::{delta_add, delta_del, DependencyGraph};
use crate::project::overrides::ProjectOverrides;
use crate::ts::package_reference::{views, PackageReference, PackageReferenceView};
use crate::util::text::{chars_of, is_decimal_u32, decimal_value, parse_decimal, push_str};
use vstd::prelude::*;
use vstd::string::StringExecFns;

verus! {

/// What a new project is for.
#[derive(Debug, PartialEq, Eq)]
pub enum ProjectKind {
    /// A project that is built into a package.
    Dev(ProjectOverrides),
    /// A set of installed packages.
    Profile,
}

/// The places of a project on disk.
#[derive(Debug, PartialEq, Eq)]
pub struct Project {
    pub base_dir: String,
    pub state_dir: String,
    pub staging_dir: String,
    pub manifest_path: String,
    pub lockfile_path: String,
    pub game_registry_path: String,
    pub statefile_path: String,
}

/// What is to be done to bring a project from one graph to another: the
/// packages to remove and the packages to install, each in the order in which
/// the work is done. Everything is removed before anything is installed.
#[derive(Debug, PartialEq, Eq)]
pub struct CommitPlan {
    pub uninstall: Vec<PackageReference>,
    pub install: Vec<PackageReference>,
}

/// What `stop` is aimed at.
#[derive(Debug, PartialEq, Eq)]
pub enum StopTarget {
    /// The process with this number.
    Pid(u32),
    /// The game with this identifier, whose process is recorded in the
    /// project.
    Game(String),
}

/// The last position before `upto` whose entry names the package of `r`, or
/// -1 when there is none.
pub open spec fn last_entry_of(
    list: Seq<PackageReferenceView>,
    r: PackageReferenceView,
    upto: int,
) -> int
    decreases upto,
{
    if upto <= 0 || upto > list.len() {
        -1
    } else if list[upto - 1].same_loose(r) {
        upto - 1
    } else {
        last_entry_of(list, r, upto - 1)
    }
}

/// The dependencies of a manifest after `package` was asked for.
///
/// `manifest` holds the dependencies as they were before anything was asked
/// for, and `current` as they are now. A package that `manifest` does not
/// name is added at the end. One that it names gets the version of `package`
/// when the version that stands at its place comes before it.
pub open spec fn merge_one(
    manifest: Seq<PackageReferenceView>,
    current: Seq<PackageReferenceView>,
    package: PackageReferenceView,
) -> Seq<PackageReferenceView> {
    let at = last_entry_of(manifest, package, manifest.len() as int);
    if at < 0 {
        current.push(package)
    } else if at < current.len() && current[at].version.precedes(package.version) {
        current.update(at, package)
    } else {
        current
    }
}

/// The dependencies of a manifest after each of `packages` was asked for, one
/// after the other.
pub open spec fn merge_all(
    manifest: Seq<PackageReferenceView>,
    packages: Seq<PackageReferenceView>,
) -> Seq<PackageReferenceView>
    decreases packages.len(),
{
    if packages.len() == 0 {
        manifest
    } else {
        merge_one(manifest, merge_all(manifest, packages.drop_last()), packages.last())
    }
}

/// The first position that holds the reference `r`, or the length of the list
/// when there is none.
pub open spec fn strict_index(
    list: Seq<PackageReferenceView>,
    r: PackageReferenceView,
    from: int,
) -> int
    decreases list.len() - from,
{
    if from < 0 || from >= list.len() {
        list.len() as int
    } else if list[from] == r {
        from
    } else {
        strict_index(list, r, from + 1)
    }
}

/// The dependencies of a manifest after `package` was withdrawn: its first
/// entry with the same version is taken out.
pub open spec fn withdraw_one(
    current: Seq<PackageReferenceView>,
    package: PackageReferenceView,
) -> Seq<PackageReferenceView> {
    let at = strict_index(current, package, 0);
    if at < current.len() {
        current.remove(at)
    } else {
        current
    }
}

/// The dependencies of a manifest after each of `packages` was withdrawn.
pub open spec fn withdraw_all(
    current: Seq<PackageReferenceView>,
    packages: Seq<PackageReferenceView>,
) -> Seq<PackageReferenceView>
    decreases packages.len(),
{
    if packages.len() == 0 {
        current
    } else {
        withdraw_one(withdraw_all(current, packages.drop_last()), packages.last())
    }
}

/// The process number written in a text: a run of decimal digits whose
/// number fits in 32 bits.
pub open spec fn pid_spec(text: Seq<char>) -> Option<u32> {
    if is_decimal_u32(text) {
        Some(decimal_value(text) as u32)
    } else {
        None
    }
}

/// The process number that a PID file holds, when it holds one.
pub fn read_pid(contents: &str) -> (pid: Option<u32>)
    ensures
        pid == pid_spec(contents@),
{
    let chars = chars_of(contents);
    let pid = parse_decimal(&chars, 0, chars.len());
    proof {
        assert(chars@.subrange(0, chars@.len() as int) =~= chars@);
    }
    pid
}

/// What `stop` is aimed at: a process when the argument is a process number,
/// else the game that the argument names.
pub fn stop_target(argument: &str) -> (target: StopTarget)
    ensures
        match pid_spec(argument@) {
            Some(pid) => target matches StopTarget::Pid(p) && p == pid,
            None => target matches StopTarget::Game(id) && id@ == argument@,
        },
{
    match read_pid(argument) {
        Some(pid) => StopTarget::Pid(pid),
        None => StopTarget::Game(String::from_str(argument)),
    }
}

/// The PID files to delete when a project is opened: those whose process no
/// longer runs. `running` says, for each file in the order of `files`,
/// whether the process it names runs; a file for which it says nothing is
/// kept.
pub fn stale_pid_files(files: &Vec<String>, running: &Vec<bool>) -> (stale: Vec<String>)
    ensures
        stale@ == stale_spec(files@, running@, files@.len() as int),
{
    let mut stale: Vec<String> = Vec::new();
    let mut i: usize = 0;
    while i < files.len()
        invariant
            i <= files.len(),
            stale@ == stale_spec(files@, running@, i as int),
        decreases files.len() - i,
    {
        if i < running.len() && !running[i] {
            stale.push(files[i].clone());
        }
        i += 1;
    }
    stale
}

/// Of the first `upto` files, those whose process does not run.
pub open spec fn stale_spec(files: Seq<String>, running: Seq<bool>, upto: int) -> Seq<String>
    decreases upto,
{
    if upto <= 0 || upto > files.len() {
        Seq::empty()
    } else if upto - 1 < running.len() && !running[upto - 1] {
        stale_spec(files, running, upto - 1).push(files[upto - 1])
    } else {
        stale_spec(files, running, upto - 1)
    }
}

/// The last position whose entry names the package of `r`.
fn find_last(list: &Vec<PackageReference>, r: &PackageReference) -> (at: Option<usize>)
    ensures
        match at {
            Some(i) => i == last_entry_of(views(list@), r@, list@.len() as int) && i < list@.len(),
            None => last_entry_of(views(list@), r@, list@.len() as int) < 0,
        },
{
    let mut i: usize = list.len();
    while i > 0
        invariant
            i <= list.len(),
            last_entry_of(views(list@), r@, list@.len() as int) == last_entry_of(
                views(list@),
                r@,
                i as int,
            ),
        decreases i,
    {
        if list[i - 1].same_loose(r) {
            return Some(i - 1);
        }
        i -= 1;
    }
    None
}

/// The first position that holds the reference `r`.
fn find_strict(list: &Vec<PackageReference>, r: &PackageReference) -> (at: usize)
    ensures
        at == strict_index(views(list@), r@, 0),
        at <= list@.len(),
{
    let mut i: usize = 0;
    while i < list.len()
        invariant
            i <= list.len(),
            strict_index(views(list@), r@, 0) == strict_index(views(list@), r@, i as int),
        decreases list.len() - i,
    {
        if list[i].same_strict(r) {
            return i;
        }
        i += 1;
    }
    i
}

/// `list` turned round.
fn reversed(list: &Vec<PackageReference>) -> (r: Vec<PackageReference>)
    ensures
        views(r@) == views(list@).reverse(),
{
    let mut r: Vec<PackageReference> = Vec::new();
    let mut i: usize = list.len();
    while i > 0
        invariant
            i <= list.len(),
            r@.len() == list@.len() - i,
            forall|k: int| 0 <= k < r@.len() ==> (#[trigger] r@[k])@ == list@[list@.len() - 1 - k]@,
        decreases i,
    {
        i -= 1;
        r.push(list[i].duplicate());
    }
    assert(views(r@) =~= views(list@).reverse());
    r
}

impl Project {
    /// The places of the project in the directory `project_dir`: the
    /// manifest `Thunderstore.toml` and the lock file `Thunderstore.lock` in
    /// the directory itself, and below `.tcli` the state directory
    /// `project_state`, the staging directory `staging`, the registry of
    /// games `game_registry.json` and the state file `state.json`.
    pub fn open(project_dir: &str) -> (project: Project)
        ensures
            project.base_dir@ == project_dir@,
            project.state_dir@ == project_dir@ + "/.tcli/project_state"@,
            project.staging_dir@ == project_dir@ + "/.tcli/staging"@,
            project.manifest_path@ == project_dir@ + "/Thunderstore.toml"@,
            project.lockfile_path@ == project_dir@ + "/Thunderstore.lock"@,
            project.game_registry_path@ == project_dir@ + "/.tcli/game_registry.json"@,
            project.statefile_path@ == project_dir@ + "/.tcli/state.json"@,
    {
        Project {
            base_dir: String::from_str(project_dir),
            state_dir: String::from_str(project_dir).concat("/.tcli/project_state"),
            staging_dir: String::from_str(project_dir).concat("/.tcli/staging"),
            manifest_path: String::from_str(project_dir).concat("/Thunderstore.toml"),
            lockfile_path: String::from_str(project_dir).concat("/Thunderstore.lock"),
            game_registry_path: String::from_str(project_dir).concat("/.tcli/game_registry.json"),
            statefile_path: String::from_str(project_dir).concat("/.tcli/state.json"),
        }
    }

    /// The places of a new project in the directory `project_dir`, unless
    /// the project cannot be created there.
    ///
    /// `dir_is_file` says whether `project_dir` names a file, and
    /// `manifest_exists` whether a manifest lies in it already. A project is
    /// not created at the place of a file; and it is not created over a
    /// manifest that is there unless `overwrite` is set.
    pub fn create_new(project_dir: &str, overwrite: bool, dir_is_file: bool, manifest_exists: bool) -> (r:
        Result<Project, Error>)
        ensures
            match r {
                Ok(project) => {
                    &&& !dir_is_file
                    &&& overwrite || !manifest_exists
                    &&& project.base_dir@ == project_dir@
                    &&& project.state_dir@ == project_dir@ + "/.tcli/project_state"@
                    &&& project.staging_dir@ == project_dir@ + "/.tcli/staging"@
                    &&& project.manifest_path@ == project_dir@ + "/Thunderstore.toml"@
                    &&& project.lockfile_path@ == project_dir@ + "/Thunderstore.lock"@
                    &&& project.game_registry_path@ == project_dir@ + "/.tcli/game_registry.json"@
                    &&& project.statefile_path@ == project_dir@ + "/.tcli/state.json"@
                },
                Err(Error::ProjectDirIsFile(path)) => dir_is_file && path@ == project_dir@,
                Err(Error::ProjectAlreadyExists(path)) => !dir_is_file && !overwrite
                    && manifest_exists && path@ == project_dir@ + "/Thunderstore.toml"@,
                Err(_) => false,
            },
    {
        if dir_is_file {
            return Err(Error::ProjectDirIsFile(String::from_str(project_dir)));
        }
        let project = Project::open(project_dir);
        if !overwrite && manifest_exists {
            return Err(Error::ProjectAlreadyExists(project.manifest_path));
        }
        Ok(project)
    }

    /// The name of the archive that a project is built into:
    /// `<namespace>-<name>-<version>.zip`.
    pub fn archive_name(package: &PackageReference) -> (name: String)
        ensures
            name@ == package@.strict_ident() + ".zip"@,
    {
        let mut name = package.to_string();
        push_str(&mut name, ".zip");
        name
    }

    /// The file that records the process of a running game:
    /// `.tcli/<game_identifier>.pid` in the project.
    pub fn pid_file_path(&self, game_identifier: &str) -> (path: String)
        ensures
            path@ == self.base_dir@ + "/.tcli/"@ + game_identifier@ + ".pid"@,
    {
        let mut path = self.base_dir.clone();
        push_str(&mut path, "/.tcli/");
        push_str(&mut path, game_identifier);
        push_str(&mut path, ".pid");
        path
    }

    /// The dependencies of a manifest after `packages` were asked for.
    ///
    /// A package that the manifest does not name is added at the end. One
    /// that it names gets the version that is asked for when the version it
    /// has comes before it, and is left alone otherwise. Where the manifest
    /// names a package more than once, its last entry is the one that counts.
    pub fn add_packages(manifest_deps: Vec<PackageReference>, packages: &Vec<PackageReference>) -> (deps:
        Vec<PackageReference>)
        ensures
            views(deps@) == merge_all(views(manifest_deps@), views(packages@)),
    {
        let ghost manifest = views(manifest_deps@);
        let ghost asked = views(packages@);
        let mut deps: Vec<PackageReference> = Vec::new();
        let mut k: usize = 0;
        while k < manifest_deps.len()
            invariant
                k <= manifest_deps.len(),
                views(deps@) == views(manifest_deps@).take(k as int),
            decreases manifest_deps.len() - k,
        {
            let ghost before = views(deps@);
            deps.push(manifest_deps[k].duplicate());
            k += 1;
            assert(views(deps@) =~= before.push(manifest_deps@[k - 1]@));
            assert(views(manifest_deps@).take(k as int) =~= views(manifest_deps@).take(k - 1).push(
                manifest_deps@[k - 1]@,
            ));
        }
        assert(views(manifest_deps@).take(k as int) =~= manifest);
        let mut i: usize = 0;
        assert(asked.take(0) =~= Seq::<PackageReferenceView>::empty());
        while i < packages.len()
            invariant
                i <= packages.len(),
                manifest == views(manifest_deps@),
                asked == views(packages@),
                views(deps@) == merge_all(manifest, asked.take(i as int)),
            decreases packages.len() - i,
        {
            let package = &packages[i];
            let ghost before = views(deps@);
            proof {
                assert(asked.take(i + 1).drop_last() =~= asked.take(i as int));
                assert(asked.take(i + 1).last() == package@);
            }
            match find_last(&manifest_deps, package) {
                None => {
                    deps.push(package.duplicate());
                    assert(views(deps@) =~= before.push(package@));
                },
                Some(at) => {
                    if at < deps.len() && deps[at].version.is_less_than(&package.version) {
                        deps[at] = package.duplicate();
                        assert(views(deps@) =~= before.update(at as int, package@));
                    }
                },
            }
            i += 1;
        }
        assert(asked.take(i as int) =~= asked);
        deps
    }

    /// The dependencies of a manifest after `packages` were withdrawn: for
    /// each of them, its first entry with the same version is taken out. A
    /// package that the manifest does not hold in that version is passed
    /// over.
    pub fn remove_packages(manifest_deps: Vec<PackageReference>, packages: &Vec<PackageReference>) -> (deps:
        Vec<PackageReference>)
        ensures
            views(deps@) == withdraw_all(views(manifest_deps@), views(packages@)),
    {
        let ghost asked = views(packages@);
        let mut deps = manifest_deps;
        let mut i: usize = 0;
        assert(asked.take(0) =~= Seq::<PackageReferenceView>::empty());
        while i < packages.len()
            invariant
                i <= packages.len(),
                asked == views(packages@),
                views(deps@) == withdraw_all(views(manifest_deps@), asked.take(i as int)),
            decreases packages.len() - i,
        {
            let ghost before = views(deps@);
            proof {
                assert(asked.take(i + 1).drop_last() =~= asked.take(i as int));
                assert(asked.take(i + 1).last() == packages@[i as int]@);
            }
            let at = find_strict(&deps, &packages[i]);
            if at < deps.len() {
                let _ = deps.remove(at);
                assert(views(deps@) =~= before.remove(at as int));
            }
            i += 1;
        }
        assert(asked.take(i as int) =~= asked);
        deps
    }

    /// The plan that brings a project from the graph `old` of its lock file
    /// to the graph `new` that its manifest resolves to.
    ///
    /// The packages to remove are those that the delta removes, the last of
    /// them first; the packages to install are those that the delta adds,
    /// the last of them first. When the two graphs have the same digest
    /// there is nothing to do; so there is nothing to do when the manifest
    /// resolves once more to the graph that the lock file holds.
    pub fn plan_commit(old: &DependencyGraph, new: &DependencyGraph) -> (plan: CommitPlan)
        requires
            old.wf(),
            new.wf(),
        ensures
            views(plan.uninstall@) == delta_del(old.digest_spec(), new.digest_spec()).reverse(),
            views(plan.install@) == delta_add(old.digest_spec(), new.digest_spec()).reverse(),
            old.digest_spec() == new.digest_spec() ==> plan.uninstall@.len() == 0
                && plan.install@.len() == 0,
            old.nodes() == new.nodes() && old.edges() == new.edges() ==> plan.uninstall@.len() == 0
                && plan.install@.len() == 0,
    {
        proof {
            if old.nodes() == new.nodes() && old.edges() == new.edges() {
                old.lemma_digest_of_same_parts(new);
            }
        }
        let delta = old.graph_delta(new);
        let plan = CommitPlan { uninstall: reversed(&delta.del), install: reversed(&delta.add) };
        proof {
            assert(views(plan.uninstall@).len() == plan.uninstall@.len());
            assert(views(plan.install@).len() == plan.install@.len());
        }
        plan
    }
}

} // verus!
