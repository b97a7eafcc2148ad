//! The records of the catalog: one JSON object per line.

use crate::ts::package_reference::{
    views, PackageReference, PackageReferenceParseError, PackageReferenceView,
};
use crate::ts::version::{Version, VersionParseError};
use crate::util::json::{
    json_number_at, json_number_field, json_text_at, json_text_field, json_texts_at,
    json_texts_field, texts_of,
};
use vstd::prelude::*;

verus! {

/// One record of the catalog: a package in one version, the size and the
/// format of its archive, and the packages it depends on.
#[derive(Debug, PartialEq, Eq)]
pub struct PackageIndexEntry {
    pub namespace: String,
    pub name: String,
    pub version: Version,
    pub file_format: Option<String>,
    pub file_size: u64,
    pub dependencies: Vec<PackageReference>,
}

/// The mathematical value of a record.
pub struct PackageIndexEntryView {
    pub namespace: Seq<char>,
    pub name: Seq<char>,
    pub version: Version,
    pub file_format: Option<Seq<char>>,
    pub file_size: u64,
    pub dependencies: Seq<PackageReferenceView>,
}

/// Why a line of the catalog is no record.
#[derive(Clone, Copy, Debug, PartialEq, Eq, Structural)]
pub enum EntryError {
    /// The line is no JSON object, or it lacks one of the members
    /// `namespace`, `name`, `version_number`, `file_size` and `dependencies`
    /// in the form that a record has.
    MissingField,
    /// The member `version_number` is no version.
    InvalidVersion(VersionParseError),
    /// A member of `dependencies` is no package reference; the error is that
    /// of the first such member.
    InvalidDependency(PackageReferenceParseError),
}

impl View for PackageIndexEntry {
    type V = PackageIndexEntryView;

    open spec fn view(&self) -> PackageIndexEntryView {
        PackageIndexEntryView {
            namespace: self.namespace@,
            name: self.name@,
            version: self.version,
            file_format: match self.file_format {
                Some(format) => Some(format@),
                None => None,
            },
            file_size: self.file_size,
            dependencies: views(self.dependencies@),
        }
    }
}

/// The references that a list of texts stands for, or the error of the first
/// text that is no reference.
pub open spec fn parse_references(texts: Seq<Seq<char>>) -> Result<
    Seq<PackageReferenceView>,
    PackageReferenceParseError,
>
    decreases texts.len(),
{
    if texts.len() == 0 {
        Ok(Seq::empty())
    } else {
        match parse_references(texts.drop_last()) {
            Err(e) => Err(e),
            Ok(before) => match PackageReferenceView::parse_spec(texts.last()) {
                Err(e) => Err(e),
                Ok(r) => Ok(before.push(r)),
            },
        }
    }
}

/// The record that a line of the catalog stands for.
///
/// The members `namespace` and `name` are taken as they are, `version_number`
/// is read as a version and each member of `dependencies` as a package
/// reference. The member `file_format` is the format when it is a string, and
/// no format otherwise.
pub open spec fn entry_spec(line: Seq<u8>) -> Result<PackageIndexEntryView, EntryError> {
    match (
        json_text_at(line, "namespace"@),
        json_text_at(line, "name"@),
        json_text_at(line, "version_number"@),
        json_number_at(line, "file_size"@),
        json_texts_at(line, "dependencies"@),
    ) {
        (Some(namespace), Some(name), Some(number), Some(file_size), Some(texts)) => {
            match Version::parse_spec(number) {
                Err(e) => Err(EntryError::InvalidVersion(e)),
                Ok(version) => match parse_references(texts) {
                    Err(e) => Err(EntryError::InvalidDependency(e)),
                    Ok(dependencies) => Ok(
                        PackageIndexEntryView {
                            namespace,
                            name,
                            version,
                            file_format: json_text_at(line, "file_format"@),
                            file_size,
                            dependencies,
                        },
                    ),
                },
            }
        },
        _ => Err(EntryError::MissingField),
    }
}

/// Reads each text as a package reference.
fn references_of(texts: &Vec<String>) -> (r: Result<
    Vec<PackageReference>,
    PackageReferenceParseError,
>)
    ensures
        r matches Ok(list) ==> parse_references(texts_of(texts@)) == Ok::<
            Seq<PackageReferenceView>,
            PackageReferenceParseError,
        >(views(list@)),
        r matches Err(e) ==> parse_references(texts_of(texts@)) == Err::<
            Seq<PackageReferenceView>,
            PackageReferenceParseError,
        >(e),
{
    let ghost all = texts_of(texts@);
    let mut list: Vec<PackageReference> = Vec::new();
    let mut i: usize = 0;
    proof {
        assert(views(list@) =~= Seq::<PackageReferenceView>::empty());
        assert(all.take(0) =~= Seq::<Seq<char>>::empty());
    }
    while i < texts.len()
        invariant
            i <= texts.len(),
            all == texts_of(texts@),
            parse_references(all.take(i as int)) == Ok::<
                Seq<PackageReferenceView>,
                PackageReferenceParseError,
            >(views(list@)),
        decreases texts.len() - i,
    {
        proof {
            assert(all.take(i + 1).drop_last() =~= all.take(i as int));
            assert(all.take(i + 1).last() == texts@[i as int]@);
        }
        match PackageReference::from_str(texts[i].as_str()) {
            Ok(reference) => {
                let ghost before = views(list@);
                list.push(reference);
                proof {
                    assert(views(list@) =~= before.push(reference@));
                }
            },
            Err(e) => {
                proof {
                    lemma_parse_references_fails(all, i as int);
                }
                return Err(e);
            },
        }
        i += 1;
    }
    proof {
        assert(all.take(i as int) =~= all);
    }
    Ok(list)
}

/// When the references of a prefix cannot be read, those of the whole list
/// cannot either, and the error is the same.
proof fn lemma_parse_references_fails(texts: Seq<Seq<char>>, i: int)
    requires
        0 <= i < texts.len(),
        parse_references(texts.take(i + 1)) is Err,
    ensures
        parse_references(texts) == parse_references(texts.take(i + 1)),
    decreases texts.len() - i,
{
    if i + 1 == texts.len() {
        assert(texts.take(i + 1) =~= texts);
    } else {
        assert(texts.take(i + 2).drop_last() =~= texts.take(i + 1));
        lemma_parse_references_fails(texts, i + 1);
    }
}

impl PackageIndexEntry {
    /// The reference of the package that this record describes.
    pub fn reference(&self) -> (r: PackageReference)
        ensures
            r@ == (PackageReferenceView {
                namespace: self@.namespace,
                name: self@.name,
                version: self@.version,
            }),
    {
        PackageReference {
            namespace: self.namespace.clone(),
            name: self.name.clone(),
            version: self.version,
        }
    }

    /// Reads a line of the catalog.
    pub fn parse(line: &[u8]) -> (r: Result<PackageIndexEntry, EntryError>)
        ensures
            r matches Ok(entry) ==> entry_spec(line@) == Ok::<PackageIndexEntryView, EntryError>(
                entry@,
            ),
            r matches Err(e) ==> entry_spec(line@) == Err::<PackageIndexEntryView, EntryError>(e),
    {
        let namespace = json_text_field(line, "namespace");
        let name = json_text_field(line, "name");
        let number = json_text_field(line, "version_number");
        let file_size = json_number_field(line, "file_size");
        let texts = json_texts_field(line, "dependencies");
        match (namespace, name, number, file_size, texts) {
            (Some(namespace), Some(name), Some(number), Some(file_size), Some(texts)) => {
                match Version::from_str(number.as_str()) {
                    Err(e) => Err(EntryError::InvalidVersion(e)),
                    Ok(version) => match references_of(&texts) {
                        Err(e) => Err(EntryError::InvalidDependency(e)),
                        Ok(dependencies) => {
                            let file_format = json_text_field(line, "file_format");
                            Ok(
                                PackageIndexEntry {
                                    namespace,
                                    name,
                                    version,
                                    file_format,
                                    file_size,
                                    dependencies,
                                },
                            )
                        },
                    },
                }
            },
            _ => Err(EntryError::MissingField),
        }
    }
}

/// The time that a `Date` header names, in seconds since the beginning of
/// 1970, as the `chrono` crate reads it in the form
/// `Fri, 15 Mar 2024 18:49:19 GMT`. A text of another form names no time.
pub uninterp spec fn update_time_at(date: Seq<char>) -> Option<i64>;

/// `NaiveDateTime::parse_from_str` of the `chrono` crate with the format
/// `%a, %d %b %Y %H:%M:%S %Z`, and the seconds of the time that was read,
/// taken as a time in UTC. Nothing is proved of it.
#[verifier::external_body]
pub(crate) fn parse_update_time(date: &str) -> (r: Option<i64>)
    ensures
        r == update_time_at(date@),
{
    match chrono::NaiveDateTime::parse_from_str(date, "%a, %d %b %Y %H:%M:%S %Z") {
        Ok(time) => Some(time.and_utc().timestamp()),
        Err(_) => None,
    }
}

} // verus!
