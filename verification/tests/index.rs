use tcli::package::index::{key_of_line, IndexError, LookupTableEntry, PackageIndex};
use tcli::ts::experimental::index::{EntryError, PackageIndexEntry};
use tcli::ts::package_reference::{PackageReference, PackageReferenceParseError};
use tcli::ts::version::{Version, VersionParseError};

fn pkg(text: &str) -> PackageReference {
    PackageReference::from_str(text).unwrap()
}

fn three_lines() -> Vec<Vec<u8>> {
    vec![
        b"{\"namespace\":\"alpha\",\"name\":\"One\",\"version_number\":\"1.0.0\",\"file_format\":\"zip\",\"file_size\":10,\"dependencies\":[]}".to_vec(),
        b"{\"namespace\":\"alpha\",\"name\":\"One\",\"version_number\":\"1.1.0\",\"file_size\":20,\"dependencies\":[\"beta-Two-0.3.0\"]}".to_vec(),
        b"{ \"name\": \"Two\", \"namespace\": \"beta\", \"version_number\": \"0.3.0\", \"file_format\": null, \"file_size\": 30, \"dependencies\": [], \"extra\": true }".to_vec(),
    ]
}

#[test]
fn index_round_trip_of_three_entries() {
    let lines = three_lines();
    let index = PackageIndex::sync(&lines).unwrap();
    assert_eq!(index.len(), 3);
    let keys = ["alpha-One-1.0.0", "alpha-One-1.1.0", "beta-Two-0.3.0"];
    let mut start = 0;
    for (line, key) in lines.iter().zip(keys.iter()) {
        let entry = index.locate(&pkg(key)).unwrap();
        assert_eq!(entry, LookupTableEntry { start, end: start + line.len() + 1 });
        let mut stored = line.clone();
        stored.push(b'\n');
        assert_eq!(index.read_index_bytes(&entry).unwrap(), &stored[..]);
        assert_eq!(index.get_package(&pkg(key)).ok(), PackageIndexEntry::parse(line).ok());
        assert!(index.get_package(&pkg(key)).is_ok());
        assert_eq!(index.get_package(&pkg(key)).unwrap().reference(), pkg(key));
        start += line.len() + 1;
    }
    assert_eq!(index.data().len(), start);
}

#[test]
fn record_holds_what_the_line_says() {
    let index = PackageIndex::sync(&three_lines()).unwrap();
    let one = index.get_package(&pkg("alpha-One-1.1.0")).unwrap();
    assert_eq!(
        one,
        PackageIndexEntry {
            namespace: "alpha".to_string(),
            name: "One".to_string(),
            version: Version::new(1, 1, 0),
            file_format: None,
            file_size: 20,
            dependencies: vec![pkg("beta-Two-0.3.0")],
        }
    );
    let first = index.get_package(&pkg("alpha-One-1.0.0")).unwrap();
    assert_eq!(first.file_format, Some("zip".to_string()));
    assert_eq!(first.file_size, 10);
    let two = index.get_package(&pkg("beta-Two-0.3.0")).unwrap();
    assert_eq!(two.file_format, None);
    assert!(two.dependencies.is_empty());
}

#[test]
fn package_without_a_line_is_not_found() {
    let index = PackageIndex::sync(&three_lines()).unwrap();
    assert_eq!(index.get_package(&pkg("alpha-One-2.0.0")), Err(IndexError::NotFound));
    assert_eq!(index.locate(&pkg("gamma-Three-1.0.0")), None);
    assert_eq!(PackageIndex::new().get_package(&pkg("alpha-One-1.0.0")), Err(IndexError::NotFound));
}

#[test]
fn later_line_replaces_the_line_of_the_same_package() {
    let mut index = PackageIndex::new();
    let a = b"{\"namespace\":\"n\",\"name\":\"p\",\"version_number\":\"1.0.0\",\"file_size\":1,\"dependencies\":[]}";
    let b = b"{\"namespace\":\"n\",\"name\":\"p\",\"version_number\":\"1.0.0\",\"file_size\":2,\"dependencies\":[]}";
    let first = index.append(a).unwrap();
    let second = index.append(b).unwrap();
    assert_eq!(first, LookupTableEntry { start: 0, end: a.len() + 1 });
    assert_eq!(second, LookupTableEntry { start: a.len() + 1, end: a.len() + b.len() + 2 });
    assert_eq!(index.len(), 1);
    assert_eq!(index.locate(&pkg("n-p-1.0.0")), Some(second));
    assert_eq!(index.get_package(&pkg("n-p-1.0.0")).unwrap().file_size, 2);
    assert_eq!(index.table_entry(0), (pkg("n-p-1.0.0"), second));
}

#[test]
fn line_that_cannot_be_written_leaves_the_index_alone() {
    let mut index = PackageIndex::sync(&three_lines()).unwrap();
    let before = index.data().clone();
    assert_eq!(index.append(b"not json"), Err(IndexError::MalformedLine));
    assert_eq!(index.append(b"{\"namespace\":\"a\",\"name\":\"b\"}"), Err(IndexError::MalformedLine));
    assert_eq!(
        index.append(b"{\"namespace\":\"a\",\"name\":\"b\",\"version_number\":7}"),
        Err(IndexError::MalformedLine)
    );
    assert_eq!(
        index.append(b"{\"namespace\":\"a\",\"name\":\"b\",\"version_number\":\"1.0\"}"),
        Err(IndexError::InvalidVersion(VersionParseError::MissingSection))
    );
    assert_eq!(
        index.append(b"{\"namespace\":\"a\",\"name\":\"b\",\"version_number\":\"1.x.0\"}"),
        Err(IndexError::InvalidVersion(VersionParseError::InvalidNumber))
    );
    assert_eq!(
        index.append(b"{\"namespace\":\"a-b\",\"name\":\"c\",\"version_number\":\"1.0.0\"}"),
        Err(IndexError::InvalidReference(PackageReferenceParseError::InvalidField))
    );
    assert_eq!(
        index.append(b"{\"namespace\":\"\",\"name\":\"c\",\"version_number\":\"1.0.0\"}"),
        Err(IndexError::InvalidReference(PackageReferenceParseError::EmptyField))
    );
    assert_eq!(index.data(), &before);
    assert_eq!(index.len(), 3);
}

#[test]
fn sync_stops_at_the_first_bad_line() {
    let mut lines = three_lines();
    lines.insert(1, b"[]".to_vec());
    lines.push(b"{\"namespace\":\"a\",\"name\":\"b\",\"version_number\":\"x\"}".to_vec());
    assert_eq!(PackageIndex::sync(&lines).err(), Some(IndexError::MalformedLine));
    assert_eq!(PackageIndex::sync(&vec![]).unwrap().len(), 0);
}

#[test]
fn key_of_line_reads_the_reference() {
    assert_eq!(
        key_of_line(b"{\"namespace\":\"bbepis\",\"name\":\"BepInExPack\",\"version_number\":\"5.4.2113\"}"),
        Ok(pkg("bbepis-BepInExPack-5.4.2113"))
    );
    assert_eq!(key_of_line(b""), Err(IndexError::MalformedLine));
}

#[test]
fn corrupt_record_is_reported_and_others_stay_readable() {
    let lines = vec![
        b"{\"namespace\":\"a\",\"name\":\"bad\",\"version_number\":\"1.0.0\",\"file_size\":1,\"dependencies\":[\"nonsense\"]}".to_vec(),
        b"{\"namespace\":\"a\",\"name\":\"bare\",\"version_number\":\"1.0.0\"}".to_vec(),
        b"{\"namespace\":\"a\",\"name\":\"good\",\"version_number\":\"1.0.0\",\"file_size\":1,\"dependencies\":[]}".to_vec(),
    ];
    let index = PackageIndex::sync(&lines).unwrap();
    assert_eq!(
        index.get_package(&pkg("a-bad-1.0.0")),
        Err(IndexError::Corrupt(EntryError::InvalidDependency(
            PackageReferenceParseError::MissingSection
        )))
    );
    assert_eq!(
        index.get_package(&pkg("a-bare-1.0.0")),
        Err(IndexError::Corrupt(EntryError::MissingField))
    );
    assert!(index.get_package(&pkg("a-good-1.0.0")).is_ok());
}

#[test]
fn record_with_a_bad_version_is_no_record() {
    assert_eq!(
        PackageIndexEntry::parse(
            b"{\"namespace\":\"a\",\"name\":\"b\",\"version_number\":\"1.0\",\"file_size\":1,\"dependencies\":[]}"
        ),
        Err(EntryError::InvalidVersion(VersionParseError::MissingSection))
    );
    assert_eq!(
        PackageIndexEntry::parse(
            b"{\"namespace\":\"a\",\"name\":\"b\",\"version_number\":\"1.0.0\",\"file_size\":-1,\"dependencies\":[]}"
        ),
        Err(EntryError::MissingField)
    );
    assert_eq!(
        PackageIndexEntry::parse(
            b"{\"namespace\":\"a\",\"name\":\"b\",\"version_number\":\"1.0.0\",\"file_size\":1,\"dependencies\":[1]}"
        ),
        Err(EntryError::MissingField)
    );
}

#[test]
fn table_that_points_outside_the_index_is_reported() {
    let data = b"{\"namespace\":\"a\",\"name\":\"b\",\"version_number\":\"1.0.0\",\"file_size\":1,\"dependencies\":[]}\n".to_vec();
    let n = data.len();
    let index = PackageIndex::open(
        vec![
            (pkg("a-b-1.0.0"), LookupTableEntry { start: 0, end: n }),
            (pkg("a-long-1.0.0"), LookupTableEntry { start: 0, end: n + 1 }),
            (pkg("a-back-1.0.0"), LookupTableEntry { start: 5, end: 4 }),
            (pkg("a-part-1.0.0"), LookupTableEntry { start: 0, end: 10 }),
        ],
        data,
    );
    assert!(index.get_package(&pkg("a-b-1.0.0")).is_ok());
    assert_eq!(index.get_package(&pkg("a-long-1.0.0")), Err(IndexError::BadRange));
    assert_eq!(index.get_package(&pkg("a-back-1.0.0")), Err(IndexError::BadRange));
    assert_eq!(
        index.get_package(&pkg("a-part-1.0.0")),
        Err(IndexError::Corrupt(EntryError::MissingField))
    );
    assert_eq!(index.read_index_bytes(&LookupTableEntry { start: 3, end: 3 }), Some(&b""[..]));
}

#[test]
fn loose_lookup_gives_every_version() {
    let index = PackageIndex::sync(&three_lines()).unwrap();
    let all = index.get_packages("alpha-One").unwrap();
    assert_eq!(all.len(), 2);
    assert_eq!(all[0].version, Version::new(1, 0, 0));
    assert_eq!(all[1].version, Version::new(1, 1, 0));
    assert_eq!(index.get_packages("beta-Two").unwrap().len(), 1);
    assert_eq!(index.get_packages("alpha-Two"), None);
    assert_eq!(index.get_packages("alpha-One-1.0.0"), None);
}

#[test]
fn loose_lookup_fails_on_a_corrupt_line() {
    let lines = vec![
        b"{\"namespace\":\"a\",\"name\":\"p\",\"version_number\":\"1.0.0\",\"file_size\":1,\"dependencies\":[]}".to_vec(),
        b"{\"namespace\":\"a\",\"name\":\"p\",\"version_number\":\"2.0.0\"}".to_vec(),
    ];
    let index = PackageIndex::sync(&lines).unwrap();
    assert_eq!(index.get_packages("a-p"), None);
    assert!(index.get_package(&pkg("a-p-1.0.0")).is_ok());
}

#[test]
fn update_is_required_when_the_local_index_is_older_or_missing() {
    let date = "Fri, 15 Mar 2024 18:49:19 GMT";
    let remote: i64 = 1710528559;
    assert_eq!(PackageIndex::requires_update(None, date), Some(true));
    assert_eq!(PackageIndex::requires_update(Some(remote - 1), date), Some(true));
    assert_eq!(PackageIndex::requires_update(Some(remote), date), Some(false));
    assert_eq!(PackageIndex::requires_update(Some(remote + 1), date), Some(false));
    assert_eq!(PackageIndex::requires_update(Some(0), "yesterday"), None);
    assert_eq!(PackageIndex::requires_update(None, ""), None);
}
