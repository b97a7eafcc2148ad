//! The local index of the catalog: the lines of the catalog one after the
//! other, and a table that says where the line of each package lies.

use crate::ts::experimental::index::{
    entry_spec, parse_update_time, update_time_at, EntryError, PackageIndexEntry,
    PackageIndexEntryView,
};
use crate::ts::package_reference::{
    is_field, PackageReference, PackageReferenceParseError, PackageReferenceView,
};
use crate::ts::version::{Version, VersionParseError};
use crate::util::json::{json_text_at, json_text_field};
use vstd::prelude::*;
use vstd::string::StringExecFns;

verus! {

/// Where the line of a package lies in the index: the bytes from `start` up
/// to, not including, `end`.
#[derive(Clone, Copy, Debug, PartialEq, Eq, Structural)]
pub struct LookupTableEntry {
    pub start: usize,
    pub end: usize,
}

/// What can go wrong when the index is written or read.
#[derive(Clone, Copy, Debug, PartialEq, Eq, Structural)]
pub enum IndexError {
    /// A line of the catalog is no JSON object with the string members
    /// `namespace`, `name` and `version_number`.
    MalformedLine,
    /// The member `version_number` of a line is no version.
    InvalidVersion(VersionParseError),
    /// Namespace and name of a line do not make a package reference.
    InvalidReference(PackageReferenceParseError),
    /// The index would be longer than the machine can address.
    TooLarge,
    /// The table has no line for the package.
    NotFound,
    /// The table points outside the index.
    BadRange,
    /// The line of the package is no record.
    Corrupt(EntryError),
}

/// The mathematical value of an index: the table, and the bytes of the lines.
pub struct PackageIndexView {
    pub table: Seq<(PackageReferenceView, LookupTableEntry)>,
    pub data: Seq<u8>,
}

/// The package that a line of the catalog describes.
///
/// The line must be a JSON object with the string members `namespace`,
/// `name` and `version_number`; the last must be a version, and the first
/// two must do as namespace and name of a reference.
pub open spec fn key_spec(line: Seq<u8>) -> Result<PackageReferenceView, IndexError> {
    match (
        json_text_at(line, "namespace"@),
        json_text_at(line, "name"@),
        json_text_at(line, "version_number"@),
    ) {
        (Some(namespace), Some(name), Some(number)) => match Version::parse_spec(number) {
            Err(e) => Err(IndexError::InvalidVersion(e)),
            Ok(version) => if namespace.len() == 0 || name.len() == 0 {
                Err(IndexError::InvalidReference(PackageReferenceParseError::EmptyField))
            } else if !is_field(namespace) || !is_field(name) {
                Err(IndexError::InvalidReference(PackageReferenceParseError::InvalidField))
            } else {
                Ok(PackageReferenceView { namespace, name, version })
            },
        },
        _ => Err(IndexError::MalformedLine),
    }
}

/// The first position at or after `from` whose key is `r`, or the length of
/// the table when there is none.
pub open spec fn key_index(
    table: Seq<(PackageReferenceView, LookupTableEntry)>,
    r: PackageReferenceView,
    from: int,
) -> int
    decreases table.len() - from,
{
    if from < 0 || from >= table.len() {
        table.len() as int
    } else if table[from].0 == r {
        from
    } else {
        key_index(table, r, from + 1)
    }
}

/// What `key_index` returns lies between `from` and the length of the table,
/// has the key `r` when it is a position, and nothing before it has.
pub proof fn lemma_key_index(
    table: Seq<(PackageReferenceView, LookupTableEntry)>,
    r: PackageReferenceView,
    from: int,
)
    requires
        0 <= from <= table.len(),
    ensures
        from <= key_index(table, r, from) <= table.len(),
        key_index(table, r, from) < table.len() ==> table[key_index(table, r, from)].0 == r,
        forall|i: int| from <= i < key_index(table, r, from) ==> (#[trigger] table[i]).0 != r,
    decreases table.len() - from,
{
    if from < table.len() && table[from].0 != r {
        lemma_key_index(table, r, from + 1);
    }
}

/// A position that has the key `r` with nothing before it having it is what
/// `key_index` returns.
pub proof fn lemma_key_index_is(
    table: Seq<(PackageReferenceView, LookupTableEntry)>,
    r: PackageReferenceView,
    from: int,
    at: int,
)
    requires
        0 <= from <= at <= table.len(),
        at < table.len() ==> table[at].0 == r,
        forall|i: int| from <= i < at ==> (#[trigger] table[i]).0 != r,
    ensures
        key_index(table, r, from) == at,
    decreases at - from,
{
    if from < at {
        lemma_key_index_is(table, r, from + 1, at);
    }
}

impl PackageIndexView {
    /// An index without lines.
    pub open spec fn empty() -> PackageIndexView {
        PackageIndexView { table: Seq::empty(), data: Seq::empty() }
    }

    /// The invariant of an index that was written line by line: no package
    /// has two lines in the table, and the table points, for each package, at
    /// a stretch of the index that is not empty, ends in a line feed and
    /// describes this package.
    pub open spec fn wf(self) -> bool {
        &&& forall|i: int, j: int|
            0 <= i < j < self.table.len() ==> (#[trigger] self.table[i]).0 != (
            #[trigger] self.table[j]).0
        &&& forall|i: int|
            0 <= i < self.table.len() ==> {
                let entry = (#[trigger] self.table[i]).1;
                &&& entry.start < entry.end <= self.data.len()
                &&& self.data[entry.end - 1] == 10u8
                &&& key_spec(self.data.subrange(entry.start as int, entry.end as int)) == Ok::<
                    PackageReferenceView,
                    IndexError,
                >(self.table[i].0)
            }
    }

    /// The index after `line` was written at its end.
    ///
    /// The line is written with a line feed behind it. The table then points
    /// at the new line for the package that the line describes, whether or
    /// not it had a line before.
    pub open spec fn append_spec(self, line: Seq<u8>) -> Result<PackageIndexView, IndexError> {
        let chunk = line.push(10u8);
        match key_spec(chunk) {
            Err(e) => Err(e),
            Ok(key) => if self.data.len() + chunk.len() > usize::MAX {
                Err(IndexError::TooLarge)
            } else {
                let entry = LookupTableEntry {
                    start: self.data.len() as usize,
                    end: (self.data.len() + chunk.len()) as usize,
                };
                let at = key_index(self.table, key, 0);
                Ok(
                    PackageIndexView {
                        table: if at < self.table.len() {
                            self.table.update(at, (key, entry))
                        } else {
                            self.table.push((key, entry))
                        },
                        data: self.data + chunk,
                    },
                )
            },
        }
    }

    /// The index after the lines were written one after the other, or the
    /// error of the first line that cannot be written.
    pub open spec fn sync_spec(lines: Seq<Seq<u8>>) -> Result<PackageIndexView, IndexError>
        decreases lines.len(),
    {
        if lines.len() == 0 {
            Ok(PackageIndexView::empty())
        } else {
            match PackageIndexView::sync_spec(lines.drop_last()) {
                Err(e) => Err(e),
                Ok(before) => before.append_spec(lines.last()),
            }
        }
    }

    /// The record of the package `r`: the stretch of the index that the
    /// table gives for `r`, read as a record.
    pub open spec fn get_package_spec(self, r: PackageReferenceView) -> Result<
        PackageIndexEntryView,
        IndexError,
    > {
        let at = key_index(self.table, r, 0);
        if at >= self.table.len() {
            Err(IndexError::NotFound)
        } else {
            let entry = self.table[at].1;
            if entry.start <= entry.end <= self.data.len() {
                match entry_spec(self.data.subrange(entry.start as int, entry.end as int)) {
                    Ok(record) => Ok(record),
                    Err(e) => Err(IndexError::Corrupt(e)),
                }
            } else {
                Err(IndexError::BadRange)
            }
        }
    }
}

impl PackageIndexView {
    /// Whether one of the first `upto` lines of the table is for a package
    /// with the loose identity `loose`.
    pub open spec fn names_package(self, loose: Seq<char>, upto: int) -> bool {
        exists|i: int| 0 <= i < upto && i < self.table.len() && (#[trigger] self.table[i]).0.loose_ident() == loose
    }

    /// The records of the packages with the loose identity `loose` among the
    /// first `upto` lines of the table, in the order of the table. A line
    /// whose stretch lies outside the index is passed over; the first line
    /// that is no record ends the reading with its error.
    pub open spec fn loose_records(self, loose: Seq<char>, upto: int) -> Result<
        Seq<PackageIndexEntryView>,
        EntryError,
    >
        decreases upto,
    {
        if upto <= 0 || upto > self.table.len() {
            Ok(Seq::empty())
        } else {
            match self.loose_records(loose, upto - 1) {
                Err(e) => Err(e),
                Ok(before) => {
                    let key = self.table[upto - 1].0;
                    let entry = self.table[upto - 1].1;
                    if key.loose_ident() == loose && entry.start <= entry.end <= self.data.len() {
                        match entry_spec(self.data.subrange(entry.start as int, entry.end as int)) {
                            Err(e) => Err(e),
                            Ok(record) => Ok(before.push(record)),
                        }
                    } else {
                        Ok(before)
                    }
                },
            }
        }
    }

    /// The records of every version of the package with the loose identity
    /// `loose`: none when the table has no line for the package or one of its
    /// lines is no record.
    pub open spec fn get_packages_spec(self, loose: Seq<char>) -> Option<
        Seq<PackageIndexEntryView>,
    > {
        if !self.names_package(loose, self.table.len() as int) {
            None
        } else {
            match self.loose_records(loose, self.table.len() as int) {
                Ok(records) => Some(records),
                Err(_) => None,
            }
        }
    }
}

/// The values of a list of records.
pub open spec fn records_of(list: Seq<PackageIndexEntry>) -> Seq<PackageIndexEntryView> {
    list.map_values(|record: PackageIndexEntry| record@)
}

/// When the records of the first lines cannot be read, those of the whole
/// table cannot either.
proof fn lemma_loose_records_fails(index: PackageIndexView, loose: Seq<char>, upto: int)
    requires
        0 <= upto <= index.table.len(),
        index.loose_records(loose, upto) is Err,
    ensures
        index.loose_records(loose, index.table.len() as int) is Err,
    decreases index.table.len() - upto,
{
    if upto < index.table.len() {
        lemma_loose_records_fails(index, loose, upto + 1);
    }
}

/// The index of the catalog, held in memory.
pub struct PackageIndex {
    table: Vec<(PackageReference, LookupTableEntry)>,
    data: Vec<u8>,
}

impl View for PackageIndex {
    type V = PackageIndexView;

    closed spec fn view(&self) -> PackageIndexView {
        PackageIndexView {
            table: self.table@.map_values(
                |t: (PackageReference, LookupTableEntry)| (t.0@, t.1),
            ),
            data: self.data@,
        }
    }
}

/// The package that a line of the catalog describes.
pub fn key_of_line(line: &[u8]) -> (r: Result<PackageReference, IndexError>)
    ensures
        r matches Ok(key) ==> key_spec(line@) == Ok::<PackageReferenceView, IndexError>(key@),
        r matches Err(e) ==> key_spec(line@) == Err::<PackageReferenceView, IndexError>(e),
{
    let namespace = json_text_field(line, "namespace");
    let name = json_text_field(line, "name");
    let number = json_text_field(line, "version_number");
    match (namespace, name, number) {
        (Some(namespace), Some(name), Some(number)) => {
            match Version::from_str(number.as_str()) {
                Err(e) => Err(IndexError::InvalidVersion(e)),
                Ok(version) => match PackageReference::new(
                    namespace.as_str(),
                    name.as_str(),
                    version,
                ) {
                    Ok(key) => Ok(key),
                    Err(e) => Err(IndexError::InvalidReference(e)),
                },
            }
        },
        _ => Err(IndexError::MalformedLine),
    }
}

impl PackageIndex {
    /// Whether the local index has to be written anew: it does when there is
    /// no local index, or when the local index is older than the catalog.
    ///
    /// `local_update_time` is the time that the header of the local index
    /// records, in seconds since the beginning of 1970, and `remote_date` the
    /// `Date` header with which the repository answers. There is no answer
    /// when that header names no time.
    pub fn requires_update(local_update_time: Option<i64>, remote_date: &str) -> (r: Option<bool>)
        ensures
            r == match update_time_at(remote_date@) {
                None => None,
                Some(remote) => Some(
                    match local_update_time {
                        None => true,
                        Some(local) => local < remote,
                    },
                ),
            },
    {
        match parse_update_time(remote_date) {
            None => None,
            Some(remote) => Some(
                match local_update_time {
                    None => true,
                    Some(local) => local < remote,
                },
            ),
        }
    }

    /// An index without lines.
    pub fn new() -> (index: PackageIndex)
        ensures
            index@ == PackageIndexView::empty(),
            index@.wf(),
    {
        let index = PackageIndex { table: Vec::new(), data: Vec::new() };
        proof {
            assert(index@.table =~= Seq::empty());
        }
        index
    }

    /// An index from the table and the bytes that were stored.
    pub fn open(table: Vec<(PackageReference, LookupTableEntry)>, data: Vec<u8>) -> (index:
        PackageIndex)
        ensures
            index@.data == data@,
            index@.table == table@.map_values(
                |t: (PackageReference, LookupTableEntry)| (t.0@, t.1),
            ),
    {
        PackageIndex { table, data }
    }

    /// The bytes of the lines.
    pub fn data(&self) -> (data: &Vec<u8>)
        ensures
            data@ == self@.data,
    {
        &self.data
    }

    /// The number of packages in the table.
    pub fn len(&self) -> (n: usize)
        ensures
            n == self@.table.len(),
    {
        self.table.len()
    }

    /// The package and the stretch of the table's line `i`.
    pub fn table_entry(&self, i: usize) -> (r: (PackageReference, LookupTableEntry))
        requires
            i < self@.table.len(),
        ensures
            (r.0@, r.1) == self@.table[i as int],
    {
        (self.table[i].0.duplicate(), self.table[i].1)
    }

    /// The position of the table's line for `reference`.
    fn position(&self, reference: &PackageReference) -> (at: usize)
        ensures
            at == key_index(self@.table, reference@, 0),
            at <= self@.table.len(),
    {
        let mut i: usize = 0;
        while i < self.table.len()
            invariant
                i <= self.table.len(),
                forall|j: int| 0 <= j < i ==> (#[trigger] self@.table[j]).0 != reference@,
            decreases self.table.len() - i,
        {
            if self.table[i].0.same_strict(reference) {
                proof {
                    lemma_key_index_is(self@.table, reference@, 0, i as int);
                }
                return i;
            }
            i += 1;
        }
        proof {
            lemma_key_index_is(self@.table, reference@, 0, self@.table.len() as int);
        }
        i
    }

    /// Where the line of `reference` lies, when the table has one.
    pub fn locate(&self, reference: &PackageReference) -> (r: Option<LookupTableEntry>)
        ensures
            r == (if key_index(self@.table, reference@, 0) < self@.table.len() {
                Some(self@.table[key_index(self@.table, reference@, 0)].1)
            } else {
                None
            }),
    {
        let at = self.position(reference);
        if at < self.table.len() {
            Some(self.table[at].1)
        } else {
            None
        }
    }

    /// Writes a line of the catalog at the end of the index, with a line feed
    /// behind it, and lets the table point at it for the package that the
    /// line describes. Returns where the line lies. When the line cannot be
    /// written the index stays as it is.
    pub fn append(&mut self, line: &[u8]) -> (r: Result<LookupTableEntry, IndexError>)
        ensures
            match old(self)@.append_spec(line@) {
                Ok(after) => final(self)@ == after && r == Ok::<LookupTableEntry, IndexError>(
                    LookupTableEntry {
                        start: old(self)@.data.len() as usize,
                        end: (old(self)@.data.len() + line@.len() + 1) as usize,
                    },
                ),
                Err(e) => final(self)@ == old(self)@ && r == Err::<LookupTableEntry, IndexError>(
                    e,
                ),
            },
            old(self)@.wf() ==> final(self)@.wf(),
    {
        let ghost before = self@;
        let mut chunk: Vec<u8> = Vec::new();
        let mut i: usize = 0;
        while i < line.len()
            invariant
                i <= line.len(),
                chunk@ == line@.subrange(0, i as int),
            decreases line.len() - i,
        {
            chunk.push(line[i]);
            i += 1;
            assert(chunk@ =~= line@.subrange(0, i as int));
        }
        chunk.push(10u8);
        assert(chunk@ =~= line@.push(10u8));
        let key = match key_of_line(chunk.as_slice()) {
            Ok(key) => key,
            Err(e) => {
                return Err(e);
            },
        };
        let start = self.data.len();
        if chunk.len() > usize::MAX - start {
            return Err(IndexError::TooLarge);
        }
        let end = start + chunk.len();
        let entry = LookupTableEntry { start, end };
        let mut j: usize = 0;
        while j < chunk.len()
            invariant
                j <= chunk.len(),
                self.table == old(self).table,
                self.data@ == before.data + chunk@.subrange(0, j as int),
            decreases chunk.len() - j,
        {
            self.data.push(chunk[j]);
            j += 1;
            assert(self.data@ =~= before.data + chunk@.subrange(0, j as int));
        }
        assert(chunk@.subrange(0, j as int) =~= chunk@);
        let at = self.position(&key);
        let ghost key_view = key@;
        if at < self.table.len() {
            self.table[at] = (key, entry);
            assert(self@.table =~= before.table.update(at as int, (key_view, entry)));
        } else {
            self.table.push((key, entry));
            assert(self@.table =~= before.table.push((key_view, entry)));
        }
        proof {
            if before.wf() {
                lemma_append_keeps_wf(before, line@);
            }
        }
        Ok(entry)
    }

    /// The stretch of the index that `entry` names, unless it lies outside.
    pub fn read_index_bytes(&self, entry: &LookupTableEntry) -> (r: Option<&[u8]>)
        ensures
            r is Some <==> entry.start <= entry.end <= self@.data.len(),
            r matches Some(bytes) ==> bytes@ == self@.data.subrange(
                entry.start as int,
                entry.end as int,
            ),
    {
        if entry.start <= entry.end && entry.end <= self.data.len() {
            Some(vstd::slice::slice_subrange(self.data.as_slice(), entry.start, entry.end))
        } else {
            None
        }
    }

    /// The record of the package `reference`.
    ///
    /// The record is read from the stretch of the index that the table gives
    /// for the package. A package without a line, a stretch outside the index
    /// and a line that is no record are told apart.
    pub fn get_package(&self, reference: &PackageReference) -> (r: Result<
        PackageIndexEntry,
        IndexError,
    >)
        ensures
            r matches Ok(record) ==> self@.get_package_spec(reference@) == Ok::<
                PackageIndexEntryView,
                IndexError,
            >(record@),
            r matches Err(e) ==> self@.get_package_spec(reference@) == Err::<
                PackageIndexEntryView,
                IndexError,
            >(e),
    {
        match self.locate(reference) {
            None => Err(IndexError::NotFound),
            Some(entry) => match self.read_index_bytes(&entry) {
                None => Err(IndexError::BadRange),
                Some(bytes) => match PackageIndexEntry::parse(bytes) {
                    Ok(record) => Ok(record),
                    Err(e) => Err(IndexError::Corrupt(e)),
                },
            },
        }
    }

    /// The records of every version of the package with the loose identity
    /// `loose_reference`, in the order of the table.
    ///
    /// There are none when the table has no line for the package, or when
    /// one of its lines is no record. A line whose stretch lies outside the
    /// index is passed over.
    pub fn get_packages(&self, loose_reference: &str) -> (r: Option<Vec<PackageIndexEntry>>)
        ensures
            r matches Some(list) ==> self@.get_packages_spec(loose_reference@) == Some(
                records_of(list@),
            ),
            r is None ==> self@.get_packages_spec(loose_reference@) is None,
    {
        let wanted = String::from_str(loose_reference);
        let mut list: Vec<PackageIndexEntry> = Vec::new();
        let mut found = false;
        let mut i: usize = 0;
        proof {
            assert(records_of(list@) =~= Seq::<PackageIndexEntryView>::empty());
        }
        while i < self.table.len()
            invariant
                i <= self.table.len(),
                wanted@ == loose_reference@,
                found == self@.names_package(loose_reference@, i as int),
                self@.loose_records(loose_reference@, i as int) == Ok::<
                    Seq<PackageIndexEntryView>,
                    EntryError,
                >(records_of(list@)),
            decreases self.table.len() - i,
        {
            let ghost before = records_of(list@);
            let ghost named = self@.names_package(loose_reference@, i as int);
            let loose = self.table[i].0.to_loose_ident_string();
            let entry = self.table[i].1;
            if loose == wanted {
                found = true;
                match self.read_index_bytes(&entry) {
                    None => {},
                    Some(bytes) => match PackageIndexEntry::parse(bytes) {
                        Ok(record) => {
                            let ghost record_view = record@;
                            list.push(record);
                            proof {
                                assert(records_of(list@) =~= before.push(record_view));
                            }
                        },
                        Err(_) => {
                            proof {
                                lemma_loose_records_fails(self@, loose_reference@, i + 1);
                            }
                            return None;
                        },
                    },
                }
            }
            proof {
                assert(self@.table[i as int].0.loose_ident() == loose@);
                if named {
                    let k = choose|k: int|
                        0 <= k < i && k < self@.table.len() && (
                        #[trigger] self@.table[k]).0.loose_ident() == loose_reference@;
                    assert(0 <= k < i + 1 && self@.table[k].0.loose_ident() == loose_reference@);
                }
                if self@.names_package(loose_reference@, i + 1) && !found {
                    let k = choose|k: int|
                        0 <= k < i + 1 && k < self@.table.len() && (
                        #[trigger] self@.table[k]).0.loose_ident() == loose_reference@;
                    assert(k < i);
                }
            }
            i += 1;
        }
        if found {
            Some(list)
        } else {
            None
        }
    }

    /// Writes the lines of the catalog one after the other into a new index.
    /// The first line that cannot be written ends the run with its error.
    pub fn sync(lines: &Vec<Vec<u8>>) -> (r: Result<PackageIndex, IndexError>)
        ensures
            r matches Ok(index) ==> PackageIndexView::sync_spec(lines_of(lines@)) == Ok::<
                PackageIndexView,
                IndexError,
            >(index@) && index@.wf(),
            r matches Err(e) ==> PackageIndexView::sync_spec(lines_of(lines@)) == Err::<
                PackageIndexView,
                IndexError,
            >(e),
    {
        let ghost all = lines_of(lines@);
        let mut index = PackageIndex::new();
        let mut i: usize = 0;
        proof {
            assert(all.take(0) =~= Seq::<Seq<u8>>::empty());
        }
        while i < lines.len()
            invariant
                i <= lines.len(),
                all == lines_of(lines@),
                index@.wf(),
                PackageIndexView::sync_spec(all.take(i as int)) == Ok::<
                    PackageIndexView,
                    IndexError,
                >(index@),
            decreases lines.len() - i,
        {
            proof {
                assert(all.take(i + 1).drop_last() =~= all.take(i as int));
                assert(all.take(i + 1).last() == lines@[i as int]@);
            }
            match index.append(lines[i].as_slice()) {
                Ok(_) => {},
                Err(e) => {
                    proof {
                        lemma_sync_fails(all, i as int);
                    }
                    return Err(e);
                },
            }
            i += 1;
        }
        proof {
            assert(all.take(i as int) =~= all);
        }
        Ok(index)
    }
}

/// The values of a list of lines.
pub open spec fn lines_of(lines: Seq<Vec<u8>>) -> Seq<Seq<u8>> {
    lines.map_values(|line: Vec<u8>| line@)
}

/// When a prefix of the lines cannot be written, the whole cannot either,
/// and the error is the same.
proof fn lemma_sync_fails(lines: Seq<Seq<u8>>, i: int)
    requires
        0 <= i < lines.len(),
        PackageIndexView::sync_spec(lines.take(i + 1)) is Err,
    ensures
        PackageIndexView::sync_spec(lines) == PackageIndexView::sync_spec(lines.take(i + 1)),
    decreases lines.len() - i,
{
    if i + 1 == lines.len() {
        assert(lines.take(i + 1) =~= lines);
    } else {
        assert(lines.take(i + 2).drop_last() =~= lines.take(i + 1));
        lemma_sync_fails(lines, i + 1);
    }
}

/// Writing a line keeps the invariant of the index.
pub proof fn lemma_append_keeps_wf(index: PackageIndexView, line: Seq<u8>)
    requires
        index.wf(),
        index.append_spec(line) is Ok,
    ensures
        index.append_spec(line)->Ok_0.wf(),
{
    let after = index.append_spec(line)->Ok_0;
    let chunk = line.push(10u8);
    let key = key_spec(chunk)->Ok_0;
    let at = key_index(index.table, key, 0);
    lemma_key_index(index.table, key, 0);
    let start = index.data.len() as int;
    assert(after.data.subrange(start, start + chunk.len()) =~= chunk);
    assert forall|i: int| 0 <= i < after.table.len() implies {
        let entry = (#[trigger] after.table[i]).1;
        &&& entry.start < entry.end <= after.data.len()
        &&& after.data[entry.end - 1] == 10u8
        &&& key_spec(after.data.subrange(entry.start as int, entry.end as int)) == Ok::<
            PackageReferenceView,
            IndexError,
        >(after.table[i].0)
    } by {
        if i < index.table.len() && i != at {
            let entry = index.table[i].1;
            assert(after.table[i] == index.table[i]);
            assert(after.data[entry.end - 1] == index.data[entry.end - 1]);
            assert(after.data.subrange(entry.start as int, entry.end as int)
                =~= index.data.subrange(entry.start as int, entry.end as int));
        }
    }
    assert forall|i: int, j: int| 0 <= i < j < after.table.len() implies (
    #[trigger] after.table[i]).0 != (#[trigger] after.table[j]).0 by {
        if i < index.table.len() && j < index.table.len() {
            assert(index.table[i].0 != index.table[j].0);
        }
    }
}

/// What the index gives back for a line that was written: after the lines
/// were written, the table points, for the package of line `i`, at a stretch
/// that holds the bytes of line `i` and its line feed, and the record of that
/// package is the record that those bytes stand for.
///
/// This holds of a line when no line behind it describes the same package:
/// the table points at the last line that was written for a package.
pub proof fn lemma_sync_round_trip(lines: Seq<Seq<u8>>, i: int)
    requires
        PackageIndexView::sync_spec(lines) is Ok,
        0 <= i < lines.len(),
        forall|j: int|
            i < j < lines.len() ==> key_spec((#[trigger] lines[j]).push(10u8)) != key_spec(
                lines[i].push(10u8),
            ),
    ensures
        key_spec(lines[i].push(10u8)) is Ok,
        ({
            let index = PackageIndexView::sync_spec(lines)->Ok_0;
            let key = key_spec(lines[i].push(10u8))->Ok_0;
            let at = key_index(index.table, key, 0);
            &&& at < index.table.len()
            &&& index.table[at].1.start <= index.table[at].1.end <= index.data.len()
            &&& index.data.subrange(index.table[at].1.start as int, index.table[at].1.end as int)
                == lines[i].push(10u8)
            &&& index.get_package_spec(key) == match entry_spec(lines[i].push(10u8)) {
                Ok(record) => Ok::<PackageIndexEntryView, IndexError>(record),
                Err(e) => Err::<PackageIndexEntryView, IndexError>(IndexError::Corrupt(e)),
            }
        }),
    decreases lines.len(),
{
    let shorter = lines.drop_last();
    let before = PackageIndexView::sync_spec(shorter)->Ok_0;
    let after = PackageIndexView::sync_spec(lines)->Ok_0;
    let last_chunk = lines.last().push(10u8);
    let last_key = key_spec(last_chunk)->Ok_0;
    let last_at = key_index(before.table, last_key, 0);
    lemma_key_index(before.table, last_key, 0);
    let start = before.data.len() as int;
    assert(after.data.subrange(start, start + last_chunk.len()) =~= last_chunk);
    if i == lines.len() - 1 {
        assert forall|p: int| 0 <= p < last_at implies (#[trigger] after.table[p]).0 != last_key by {
            assert(after.table[p] == before.table[p]);
        }
        lemma_key_index_is(after.table, last_key, 0, last_at);
    } else {
        assert forall|j: int| i < j < shorter.len() implies key_spec(
            (#[trigger] shorter[j]).push(10u8),
        ) != key_spec(shorter[i].push(10u8)) by {
            assert(shorter[j] == lines[j]);
        }
        assert(shorter[i] == lines[i]);
        lemma_sync_round_trip(shorter, i);
        let key = key_spec(lines[i].push(10u8))->Ok_0;
        let at = key_index(before.table, key, 0);
        lemma_key_index(before.table, key, 0);
        assert(lines[lines.len() - 1] == lines.last());
        assert(key != last_key);
        assert forall|p: int| 0 <= p < at implies (#[trigger] after.table[p]).0 != key by {
            if p != last_at {
                assert(after.table[p] == before.table[p]);
            }
        }
        assert(after.table[at] == before.table[at]);
        lemma_key_index_is(after.table, key, 0, at);
        let entry = before.table[at].1;
        assert(after.data.subrange(entry.start as int, entry.end as int) =~= before.data.subrange(
            entry.start as int,
            entry.end as int,
        ));
    }
}

} // verus!
