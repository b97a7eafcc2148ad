//! The state of a project: for each installed package, the files that its
//! installer reported.

use crate::package::install::api::TrackedFile;
use crate::ts::package_reference::{PackageReference, PackageReferenceView};
use crate::util::file::{md5, md5_hex};
use vstd::prelude::*;

verus! {

/// A file that an installer put into the staging directory, with the digest
/// it had then and the places it was copied to since.
#[derive(Debug, PartialEq, Eq)]
pub struct StagedFile {
    pub action: TrackedFile,
    pub dest: Vec<String>,
    pub md5: String,
}

/// What is recorded for one installed package: the files in the staging
/// directory and the files in the state directory.
#[derive(Debug, PartialEq, Eq)]
pub struct StateEntry {
    pub staged: Vec<StagedFile>,
    pub linked: Vec<TrackedFile>,
}

/// A file that an installer reported, with what decides where it is
/// recorded: whether its path lies under the staging directory, whether it
/// lies under the state directory, and, for a file under the staging
/// directory, the contents of the file.
#[derive(Debug, PartialEq, Eq)]
pub struct ReportedFile {
    pub file: TrackedFile,
    pub in_staging: bool,
    pub in_state: bool,
    pub contents: Vec<u8>,
}

/// What was found of a staged file after its package was removed: whether
/// the staged file is still there, and, for each of its copies in the order
/// in which they were recorded, the contents of the file that is there now.
#[derive(Debug, PartialEq, Eq)]
pub struct StagedProbe {
    pub source_exists: bool,
    pub copies: Vec<Option<Vec<u8>>>,
}

/// The state of a project. No package has two entries.
pub struct StateFile {
    state: Vec<(PackageReference, StateEntry)>,
}

/// Whether `contents` are the contents of a file with the digest `md5`.
/// `None` stands for a path at which there is no file.
pub open spec fn has_digest(contents: Option<Seq<u8>>, md5: Seq<char>) -> bool {
    contents matches Some(bytes) && md5_hex(bytes) == md5
}

/// What is known of the place of a copy: nothing when the list of contents
/// does not reach that far, else the contents of the file there.
pub open spec fn contents_at(current: Seq<Option<Vec<u8>>>, i: int) -> Option<Seq<u8>> {
    if 0 <= i < current.len() {
        match current[i] {
            Some(bytes) => Some(bytes@),
            None => None,
        }
    } else {
        None
    }
}

/// The copies among the first `upto` that still have the digest `md5`.
pub open spec fn unchanged_copies(
    dest: Seq<String>,
    md5: Seq<char>,
    current: Seq<Option<Vec<u8>>>,
    upto: int,
) -> Seq<String>
    decreases upto,
{
    if upto <= 0 || upto > dest.len() {
        Seq::empty()
    } else if has_digest(contents_at(current, upto - 1), md5) {
        unchanged_copies(dest, md5, current, upto - 1).push(dest[upto - 1])
    } else {
        unchanged_copies(dest, md5, current, upto - 1)
    }
}

/// The files of `files` that lie in the staging directory, in their order.
pub open spec fn staged_part(files: Seq<ReportedFile>, upto: int) -> Seq<TrackedFile>
    decreases upto,
{
    if upto <= 0 || upto > files.len() {
        Seq::empty()
    } else if files[upto - 1].in_staging {
        staged_part(files, upto - 1).push(files[upto - 1].file)
    } else {
        staged_part(files, upto - 1)
    }
}

/// The files of `files` that lie in the state directory, in their order.
pub open spec fn linked_part(files: Seq<ReportedFile>, upto: int) -> Seq<TrackedFile>
    decreases upto,
{
    if upto <= 0 || upto > files.len() {
        Seq::empty()
    } else if files[upto - 1].in_state {
        linked_part(files, upto - 1).push(files[upto - 1].file)
    } else {
        linked_part(files, upto - 1)
    }
}

/// The contents of the files of `files` that lie in the staging directory,
/// in their order.
pub open spec fn staged_contents(files: Seq<ReportedFile>, upto: int) -> Seq<Seq<u8>>
    decreases upto,
{
    if upto <= 0 || upto > files.len() {
        Seq::empty()
    } else if files[upto - 1].in_staging {
        staged_contents(files, upto - 1).push(files[upto - 1].contents@)
    } else {
        staged_contents(files, upto - 1)
    }
}

/// `staged` records the files `actions` with the digests of `contents`, and
/// no copies.
pub open spec fn freshly_staged(
    staged: Seq<StagedFile>,
    actions: Seq<TrackedFile>,
    contents: Seq<Seq<u8>>,
) -> bool {
    &&& staged.len() == actions.len()
    &&& staged.len() == contents.len()
    &&& forall|k: int|
        0 <= k < staged.len() ==> {
            &&& (#[trigger] staged[k]).action == actions[k]
            &&& staged[k].dest@ == Seq::<String>::empty()
            &&& staged[k].md5@ == md5_hex(contents[k])
        }
}

/// The copies to delete of the first `upto` staged files of a package that
/// was removed. Of a staged file for which nothing was found, nothing is
/// deleted.
pub open spec fn copies_of_removed(
    staged: Seq<StagedFile>,
    probes: Seq<StagedProbe>,
    upto: int,
) -> Seq<String>
    decreases upto,
{
    if upto <= 0 || upto > staged.len() {
        Seq::empty()
    } else if upto - 1 < probes.len() && !probes[upto - 1].source_exists {
        copies_of_removed(staged, probes, upto - 1) + unchanged_copies(
            staged[upto - 1].dest@,
            staged[upto - 1].md5@,
            probes[upto - 1].copies@,
            staged[upto - 1].dest@.len() as int,
        )
    } else {
        copies_of_removed(staged, probes, upto - 1)
    }
}

/// The reports of the staged files, in their order.
pub open spec fn actions_of(staged: Seq<StagedFile>) -> Seq<TrackedFile> {
    staged.map_values(|file: StagedFile| file.action)
}

/// Sorts the files that an installer reported: those under the staging
/// directory, and those under the state directory. A file under neither is
/// in neither list; it breaks the protocol and is passed over.
pub fn split_reported(files: &Vec<ReportedFile>) -> (r: (Vec<TrackedFile>, Vec<TrackedFile>))
    ensures
        r.0@ == staged_part(files@, files@.len() as int),
        r.1@ == linked_part(files@, files@.len() as int),
{
    let mut staged: Vec<TrackedFile> = Vec::new();
    let mut linked: Vec<TrackedFile> = Vec::new();
    let mut i: usize = 0;
    while i < files.len()
        invariant
            i <= files.len(),
            staged@ == staged_part(files@, i as int),
            linked@ == linked_part(files@, i as int),
        decreases files.len() - i,
    {
        if files[i].in_staging {
            staged.push(files[i].file.duplicate());
        }
        if files[i].in_state {
            linked.push(files[i].file.duplicate());
        }
        i += 1;
    }
    (staged, linked)
}

/// The files of a report that lie in the staging directory, each recorded
/// with the digest of its contents and without copies.
pub fn stage_reported(files: &Vec<ReportedFile>) -> (staged: Vec<StagedFile>)
    ensures
        freshly_staged(
            staged@,
            staged_part(files@, files@.len() as int),
            staged_contents(files@, files@.len() as int),
        ),
{
    let mut staged: Vec<StagedFile> = Vec::new();
    let mut i: usize = 0;
    while i < files.len()
        invariant
            i <= files.len(),
            freshly_staged(staged@, staged_part(files@, i as int), staged_contents(files@, i as int)),
        decreases files.len() - i,
    {
        if files[i].in_staging {
            let ghost before = staged@;
            staged.push(StagedFile::new(files[i].file.duplicate(), files[i].contents.as_slice()));
            proof {
                assert forall|k: int| 0 <= k < staged@.len() implies {
                    &&& (#[trigger] staged@[k]).action == staged_part(files@, i + 1)[k]
                    &&& staged@[k].dest@ == Seq::<String>::empty()
                    &&& staged@[k].md5@ == md5_hex(staged_contents(files@, i + 1)[k])
                } by {
                    if k < before.len() {
                        assert(staged@[k] == before[k]);
                    }
                }
            }
        }
        i += 1;
    }
    staged
}

impl StagedFile {
    /// Records a file in the staging directory with the digest of its
    /// contents. It has been copied nowhere yet.
    pub fn new(action: TrackedFile, contents: &[u8]) -> (file: StagedFile)
        ensures
            file.action == action,
            file.dest@ == Seq::<String>::empty(),
            file.md5@ == md5_hex(contents@),
    {
        StagedFile { action, dest: Vec::new(), md5: md5(contents) }
    }

    /// Whether the file at another path is this file as it was staged: there
    /// is a file at the path, and the digest of its contents is the digest
    /// recorded here. `None` stands for a path at which there is no file.
    pub fn is_same_as(&self, other: Option<&[u8]>) -> (r: bool)
        ensures
            r == (other matches Some(bytes) && md5_hex(bytes@) == self.md5@),
    {
        match other {
            None => false,
            Some(bytes) => {
                let other_md5 = md5(bytes);
                self.md5 == other_md5
            },
        }
    }

    /// Prepares the launch of a game for this file: the staged file has to
    /// be copied to `dest` unless the file there is the same already. When
    /// it has to be copied, `dest` is recorded as one of its copies.
    pub fn stage_to(&mut self, dest: String, current: Option<&[u8]>) -> (copy: bool)
        ensures
            copy == !(current matches Some(bytes) && md5_hex(bytes@) == old(self).md5@),
            final(self).action == old(self).action,
            final(self).md5 == old(self).md5,
            final(self).dest@ == (if copy {
                old(self).dest@.push(dest)
            } else {
                old(self).dest@
            }),
    {
        if self.is_same_as(current) {
            false
        } else {
            self.dest.push(dest);
            true
        }
    }

    /// After the package was removed: the copies of this file that are to be
    /// deleted.
    ///
    /// When the staged file is still there nothing is deleted. Else a copy is
    /// deleted when it still has the digest that was recorded; a copy that is
    /// gone or was changed since is left alone. `current` holds, for each
    /// copy in the order of `dest`, the contents of the file that is there
    /// now.
    pub fn copies_to_delete(&self, source_exists: bool, current: &Vec<Option<Vec<u8>>>) -> (r:
        Vec<String>)
        ensures
            r@ == (if source_exists {
                Seq::<String>::empty()
            } else {
                unchanged_copies(self.dest@, self.md5@, current@, self.dest@.len() as int)
            }),
    {
        let mut list: Vec<String> = Vec::new();
        if source_exists {
            return list;
        }
        let mut i: usize = 0;
        while i < self.dest.len()
            invariant
                i <= self.dest.len(),
                list@ == unchanged_copies(self.dest@, self.md5@, current@, i as int),
            decreases self.dest.len() - i,
        {
            let same = if i < current.len() {
                match &current[i] {
                    Some(bytes) => self.is_same_as(Some(bytes.as_slice())),
                    None => false,
                }
            } else {
                false
            };
            if same {
                list.push(self.dest[i].clone());
            }
            i += 1;
        }
        list
    }
}

impl StateEntry {
    /// An entry without files.
    pub fn new() -> (entry: StateEntry)
        ensures
            entry.staged@ == Seq::<StagedFile>::empty(),
            entry.linked@ == Seq::<TrackedFile>::empty(),
    {
        StateEntry { staged: Vec::new(), linked: Vec::new() }
    }

    /// The files that are handed back to the installer when the package is
    /// removed: the reports of the staged files, then the linked files.
    pub fn tracked_files(&self) -> (files: Vec<TrackedFile>)
        ensures
            files@ == actions_of(self.staged@) + self.linked@,
    {
        let mut files: Vec<TrackedFile> = Vec::new();
        let mut i: usize = 0;
        while i < self.staged.len()
            invariant
                i <= self.staged.len(),
                files@ == actions_of(self.staged@).take(i as int),
            decreases self.staged.len() - i,
        {
            files.push(self.staged[i].action.duplicate());
            i += 1;
            assert(files@ =~= actions_of(self.staged@).take(i as int));
        }
        let mut j: usize = 0;
        assert(actions_of(self.staged@).take(i as int) =~= actions_of(self.staged@));
        while j < self.linked.len()
            invariant
                j <= self.linked.len(),
                files@ == actions_of(self.staged@) + self.linked@.take(j as int),
            decreases self.linked.len() - j,
        {
            files.push(self.linked[j].duplicate());
            j += 1;
            assert(files@ =~= actions_of(self.staged@) + self.linked@.take(j as int));
        }
        assert(self.linked@.take(j as int) =~= self.linked@);
        files
    }
}

/// The first position at or after `from` that holds the entry of `r`, or the
/// number of entries when there is none.
pub open spec fn entry_index(
    state: Seq<(PackageReference, StateEntry)>,
    r: PackageReferenceView,
    from: int,
) -> int
    decreases state.len() - from,
{
    if from < 0 || from >= state.len() {
        state.len() as int
    } else if state[from].0@ == r {
        from
    } else {
        entry_index(state, r, from + 1)
    }
}

/// A position that holds the entry of `r` with nothing before it doing so is
/// what `entry_index` returns.
pub proof fn lemma_entry_index_is(
    state: Seq<(PackageReference, StateEntry)>,
    r: PackageReferenceView,
    from: int,
    at: int,
)
    requires
        0 <= from <= at <= state.len(),
        at < state.len() ==> state[at].0@ == r,
        forall|i: int| from <= i < at ==> (#[trigger] state[i]).0@ != r,
    ensures
        entry_index(state, r, from) == at,
    decreases at - from,
{
    if from < at {
        lemma_entry_index_is(state, r, from + 1, at);
    }
}

/// What `entry_index` returns lies between `from` and the number of entries,
/// holds the entry of `r` when it is a position, and nothing before it does.
pub proof fn lemma_entry_index(
    state: Seq<(PackageReference, StateEntry)>,
    r: PackageReferenceView,
    from: int,
)
    requires
        0 <= from <= state.len(),
    ensures
        from <= entry_index(state, r, from) <= state.len(),
        entry_index(state, r, from) < state.len() ==> state[entry_index(state, r, from)].0@ == r,
        forall|i: int| from <= i < entry_index(state, r, from) ==> (#[trigger] state[i]).0@ != r,
    decreases state.len() - from,
{
    if from < state.len() && state[from].0@ != r {
        lemma_entry_index(state, r, from + 1);
    }
}

/// No package has two entries.
pub open spec fn distinct_entries(state: Seq<(PackageReference, StateEntry)>) -> bool {
    forall|i: int, j: int|
        0 <= i < j < state.len() ==> (#[trigger] state[i]).0@ != (#[trigger] state[j]).0@
}

impl StateFile {
    /// The entries, in the order in which their packages were first
    /// recorded.
    pub closed spec fn entries(&self) -> Seq<(PackageReference, StateEntry)> {
        self.state@
    }

    /// The invariant of the state: no package has two entries.
    pub closed spec fn wf(&self) -> bool {
        distinct_entries(self.state@)
    }

    /// A state without entries.
    pub fn new() -> (state: StateFile)
        ensures
            state.wf(),
            state.entries() == Seq::<(PackageReference, StateEntry)>::empty(),
    {
        StateFile { state: Vec::new() }
    }

    /// The number of entries.
    pub fn len(&self) -> (n: usize)
        ensures
            n == self.entries().len(),
    {
        self.state.len()
    }

    /// The package of the entry at position `i`.
    pub fn package_at(&self, i: usize) -> (package: &PackageReference)
        requires
            i < self.entries().len(),
        ensures
            *package == self.entries()[i as int].0,
    {
        &self.state[i].0
    }

    /// The entry at position `i`.
    pub fn entry_at(&self, i: usize) -> (entry: &StateEntry)
        requires
            i < self.entries().len(),
        ensures
            *entry == self.entries()[i as int].1,
    {
        &self.state[i].1
    }

    /// The position of the entry of `package`.
    pub fn position(&self, package: &PackageReference) -> (at: usize)
        ensures
            at == entry_index(self.entries(), package@, 0),
            at <= self.entries().len(),
    {
        let mut i: usize = 0;
        while i < self.state.len()
            invariant
                i <= self.state.len(),
                forall|j: int| 0 <= j < i ==> (#[trigger] self.state@[j]).0@ != package@,
            decreases self.state.len() - i,
        {
            if self.state[i].0.same_strict(package) {
                proof {
                    lemma_entry_index_is(self.state@, package@, 0, i as int);
                }
                return i;
            }
            i += 1;
        }
        proof {
            lemma_entry_index_is(self.state@, package@, 0, self.state@.len() as int);
        }
        i
    }

    /// The entry of `package`, when it has one.
    pub fn get(&self, package: &PackageReference) -> (entry: Option<&StateEntry>)
        ensures
            ({
                let at = entry_index(self.entries(), package@, 0);
                match entry {
                    Some(e) => at < self.entries().len() && *e == self.entries()[at].1,
                    None => at >= self.entries().len(),
                }
            }),
    {
        let at = self.position(package);
        if at < self.state.len() {
            Some(&self.state[at].1)
        } else {
            None
        }
    }

    /// The files to hand back to the installer when `package` is removed:
    /// what its entry records, or nothing when it has no entry.
    pub fn tracked_files(&self, package: &PackageReference) -> (files: Vec<TrackedFile>)
        ensures
            ({
                let at = entry_index(self.entries(), package@, 0);
                files@ == (if at < self.entries().len() {
                    actions_of(self.entries()[at].1.staged@) + self.entries()[at].1.linked@
                } else {
                    Seq::<TrackedFile>::empty()
                })
            }),
    {
        match self.get(package) {
            Some(entry) => entry.tracked_files(),
            None => Vec::new(),
        }
    }

    /// Records the files of an installed package: they are added behind the
    /// files that its entry holds; a package without an entry gets one.
    pub fn record(
        &mut self,
        package: &PackageReference,
        staged: Vec<StagedFile>,
        linked: Vec<TrackedFile>,
    )
        requires
            old(self).wf(),
        ensures
            final(self).wf(),
            ({
                let before = old(self).entries();
                let after = final(self).entries();
                let at = entry_index(before, package@, 0);
                if at < before.len() {
                    &&& after.len() == before.len()
                    &&& forall|i: int| 0 <= i < before.len() && i != at ==> after[i] == before[i]
                    &&& after[at].0 == before[at].0
                    &&& after[at].1.staged@ == before[at].1.staged@ + staged@
                    &&& after[at].1.linked@ == before[at].1.linked@ + linked@
                } else {
                    &&& after.len() == before.len() + 1
                    &&& forall|i: int| 0 <= i < before.len() ==> after[i] == before[i]
                    &&& after[at].0@ == package@
                    &&& after[at].1.staged@ == staged@
                    &&& after[at].1.linked@ == linked@
                }
            }),
    {
        let at = self.position(package);
        let ghost before = self.state@;
        proof {
            lemma_entry_index(before, package@, 0);
        }
        let mut staged = staged;
        let mut linked = linked;
        if at < self.state.len() {
            let (key, mut entry) = self.state.remove(at);
            entry.staged.append(&mut staged);
            entry.linked.append(&mut linked);
            self.state.insert(at, (key, entry));
            proof {
                assert forall|i: int, j: int| 0 <= i < j < self.state@.len() implies (
                #[trigger] self.state@[i]).0@ != (#[trigger] self.state@[j]).0@ by {
                    assert(self.state@[i].0 == before[i].0);
                    assert(self.state@[j].0 == before[j].0);
                }
            }
        } else {
            self.state.push((package.duplicate(), StateEntry { staged, linked }));
            proof {
                assert forall|i: int, j: int| 0 <= i < j < self.state@.len() implies (
                #[trigger] self.state@[i]).0@ != (#[trigger] self.state@[j]).0@ by {
                    if j < before.len() {
                        assert(self.state@[i] == before[i]);
                        assert(self.state@[j] == before[j]);
                    } else {
                        assert(self.state@[i] == before[i]);
                    }
                }
            }
        }
    }

    /// Takes the entry of `package` out of the state, when it has one. The
    /// other entries keep their order.
    pub fn remove(&mut self, package: &PackageReference) -> (entry: Option<StateEntry>)
        requires
            old(self).wf(),
        ensures
            final(self).wf(),
            ({
                let before = old(self).entries();
                let at = entry_index(before, package@, 0);
                match entry {
                    Some(e) => at < before.len() && e == before[at].1 && final(self).entries()
                        == before.remove(at),
                    None => at >= before.len() && final(self).entries() == before,
                }
            }),
            entry_index(final(self).entries(), package@, 0) >= final(self).entries().len(),
    {
        let at = self.position(package);
        let ghost before = self.state@;
        proof {
            lemma_entry_index(before, package@, 0);
        }
        if at < self.state.len() {
            let (_, entry) = self.state.remove(at);
            proof {
                assert forall|i: int, j: int| 0 <= i < j < self.state@.len() implies (
                #[trigger] self.state@[i]).0@ != (#[trigger] self.state@[j]).0@ by {
                    let a = if i < at { i } else { i + 1 };
                    let b = if j < at { j } else { j + 1 };
                    assert(self.state@[i] == before[a]);
                    assert(self.state@[j] == before[b]);
                }
                assert forall|i: int| 0 <= i < self.state@.len() implies (
                #[trigger] self.state@[i]).0@ != package@ by {
                    let a = if i < at { i } else { i + 1 };
                    assert(self.state@[i] == before[a]);
                    if a > at {
                        assert(before[at as int].0@ != before[a].0@);
                    }
                }
                lemma_entry_index_is(self.state@, package@, 0, self.state@.len() as int);
            }
            Some(entry)
        } else {
            None
        }
    }

    /// Records what an installer reported of the package it installed: the
    /// files under the staging directory, each with the digest of its
    /// contents, and the files under the state directory. They are added
    /// behind the files that the entry of the package holds; a package without
    /// an entry gets one. A file under neither directory is not recorded.
    pub fn record_install(&mut self, package: &PackageReference, files: &Vec<ReportedFile>)
        requires
            old(self).wf(),
        ensures
            final(self).wf(),
            ({
                let before = old(self).entries();
                let after = final(self).entries();
                let at = entry_index(before, package@, 0);
                let n = files@.len() as int;
                &&& at < after.len()
                &&& forall|i: int| 0 <= i < before.len() && i != at ==> after[i] == before[i]
                &&& after[at].0@ == package@
                &&& if at < before.len() {
                    &&& after.len() == before.len()
                    &&& after[at].1.staged@.len() >= before[at].1.staged@.len()
                    &&& after[at].1.staged@.take(before[at].1.staged@.len() as int)
                        == before[at].1.staged@
                    &&& freshly_staged(
                        after[at].1.staged@.skip(before[at].1.staged@.len() as int),
                        staged_part(files@, n),
                        staged_contents(files@, n),
                    )
                    &&& after[at].1.linked@ == before[at].1.linked@ + linked_part(files@, n)
                } else {
                    &&& after.len() == before.len() + 1
                    &&& freshly_staged(
                        after[at].1.staged@,
                        staged_part(files@, n),
                        staged_contents(files@, n),
                    )
                    &&& after[at].1.linked@ == linked_part(files@, n)
                }
            }),
    {
        let staged = stage_reported(files);
        let (_, linked) = split_reported(files);
        let ghost before = self.entries();
        let ghost at = entry_index(before, package@, 0);
        let ghost fresh = staged@;
        proof {
            lemma_entry_index(before, package@, 0);
        }
        self.record(package, staged, linked);
        proof {
            let after = self.entries();
            if at < before.len() {
                let old_len = before[at].1.staged@.len() as int;
                assert(after[at].1.staged@.take(old_len) =~= before[at].1.staged@);
                assert(after[at].1.staged@.skip(old_len) =~= fresh);
            }
        }
    }

    /// Cleans up after the installer removed `package`: takes the entry of
    /// the package out of the state and names the copies of its staged files
    /// that are to be deleted.
    ///
    /// `probes` says, for each staged file of the entry in turn, what was
    /// found of it. When a staged file is gone, each of its copies that still
    /// has the recorded digest is to be deleted; a copy that was changed is
    /// left alone, and so are the copies of a staged file that is still
    /// there. There is no answer, and nothing changes, when the package has
    /// no entry.
    pub fn uninstall(&mut self, package: &PackageReference, probes: &Vec<StagedProbe>) -> (r: Option<
        Vec<String>,
    >)
        requires
            old(self).wf(),
        ensures
            final(self).wf(),
            ({
                let before = old(self).entries();
                let at = entry_index(before, package@, 0);
                match r {
                    Some(delete) => {
                        &&& at < before.len()
                        &&& final(self).entries() == before.remove(at)
                        &&& delete@ == copies_of_removed(
                            before[at].1.staged@,
                            probes@,
                            before[at].1.staged@.len() as int,
                        )
                    },
                    None => at >= before.len() && final(self).entries() == before,
                }
            }),
            entry_index(final(self).entries(), package@, 0) >= final(self).entries().len(),
    {
        let entry = match self.remove(package) {
            Some(entry) => entry,
            None => {
                return None;
            },
        };
        let mut delete: Vec<String> = Vec::new();
        let mut i: usize = 0;
        while i < entry.staged.len()
            invariant
                i <= entry.staged.len(),
                delete@ == copies_of_removed(entry.staged@, probes@, i as int),
            decreases entry.staged.len() - i,
        {
            if i < probes.len() && !probes[i].source_exists {
                let mut copies = entry.staged[i].copies_to_delete(false, &probes[i].copies);
                delete.append(&mut copies);
            }
            i += 1;
        }
        Some(delete)
    }

    /// Prepares the launch of a game for the staged file `file` of the entry
    /// at position `entry`: the file has to be copied to `dest` unless the
    /// file there is the same already, and a copy that has to be made is
    /// recorded. `current` holds the contents of the file that is at `dest`
    /// now, or `None` when there is no file.
    pub fn stage_to(&mut self, entry: usize, file: usize, dest: String, current: Option<&[u8]>) -> (copy:
        bool)
        requires
            old(self).wf(),
            entry < old(self).entries().len(),
            file < old(self).entries()[entry as int].1.staged@.len(),
        ensures
            final(self).wf(),
            copy == !has_digest(
                match current {
                    Some(bytes) => Some(bytes@),
                    None => None,
                },
                old(self).entries()[entry as int].1.staged@[file as int].md5@,
            ),
            ({
                let before = old(self).entries();
                let after = final(self).entries();
                let file_before = before[entry as int].1.staged@[file as int];
                let file_after = after[entry as int].1.staged@[file as int];
                &&& after.len() == before.len()
                &&& forall|i: int| 0 <= i < before.len() && i != entry ==> after[i] == before[i]
                &&& after[entry as int].0 == before[entry as int].0
                &&& after[entry as int].1.linked == before[entry as int].1.linked
                &&& after[entry as int].1.staged@.len() == before[entry as int].1.staged@.len()
                &&& forall|k: int|
                    0 <= k < before[entry as int].1.staged@.len() && k != file
                        ==> after[entry as int].1.staged@[k] == before[entry as int].1.staged@[k]
                &&& file_after.action == file_before.action
                &&& file_after.md5 == file_before.md5
                &&& file_after.dest@ == (if copy {
                    file_before.dest@.push(dest)
                } else {
                    file_before.dest@
                })
            }),
    {
        let ghost before = self.state@;
        let (key, mut record) = self.state.remove(entry);
        let mut staged = record.staged.remove(file);
        let copy = staged.stage_to(dest, current);
        record.staged.insert(file, staged);
        self.state.insert(entry, (key, record));
        proof {
            assert forall|i: int, j: int| 0 <= i < j < self.state@.len() implies (
            #[trigger] self.state@[i]).0@ != (#[trigger] self.state@[j]).0@ by {
                assert(self.state@[i].0 == before[i].0);
                assert(self.state@[j].0 == before[j].0);
            }
        }
        copy
    }
}

} // verus!
