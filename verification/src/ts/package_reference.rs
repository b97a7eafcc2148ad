//! References to published packages: `namespace-name-version`.

use crate::ts::version::{lemma_version_text_round_trip, Version, VersionParseError};
use crate::util::text::{chars_of, find_char, find_from, lemma_find_char_is};
use vstd::prelude::*;
use vstd::string::StringExecFns;

verus! {

/// One published artifact: a namespace, a name and a version.
///
/// The *strict* identity of a reference is the whole triple; its *loose*
/// identity is the pair of namespace and name.
#[derive(Clone, Debug, PartialEq, Eq, Hash)]
pub struct PackageReference {
    pub namespace: String,
    pub name: String,
    pub version: Version,
}

/// The mathematical value of a package reference.
pub struct PackageReferenceView {
    pub namespace: Seq<char>,
    pub name: Seq<char>,
    pub version: Version,
}

/// Why a text is not a package reference.
#[derive(Clone, Copy, Debug, PartialEq, Eq, Structural)]
pub enum PackageReferenceParseError {
    /// The text does not hold two hyphens.
    MissingSection,
    /// The namespace or the name is empty.
    EmptyField,
    /// The namespace or the name holds a hyphen.
    InvalidField,
    /// What follows the second hyphen is not a version.
    InvalidVersion(VersionParseError),
}

/// A namespace or a name: not empty, and without a hyphen.
pub open spec fn is_field(s: Seq<char>) -> bool {
    s.len() > 0 && forall|i: int| 0 <= i < s.len() ==> #[trigger] s[i] != '-'
}

impl PackageReferenceView {
    /// Namespace and name are not empty and hold no hyphen.
    pub open spec fn wf(self) -> bool {
        is_field(self.namespace) && is_field(self.name)
    }

    /// The two references name the same package, whatever their versions.
    pub open spec fn same_loose(self, other: PackageReferenceView) -> bool {
        self.namespace == other.namespace && self.name == other.name
    }

    /// `namespace-name`.
    pub open spec fn loose_ident(self) -> Seq<char> {
        self.namespace.push('-') + self.name
    }

    /// `namespace-name-version`.
    pub open spec fn strict_ident(self) -> Seq<char> {
        self.namespace.push('-') + self.name.push('-') + self.version.text()
    }

    /// The reference that a text stands for.
    ///
    /// The text is cut at its first two hyphens: the namespace comes before
    /// the first, the name between the two, and the version after the second.
    pub open spec fn parse_spec(s: Seq<char>) -> Result<
        PackageReferenceView,
        PackageReferenceParseError,
    > {
        let d1 = find_char(s, '-', 0);
        let d2 = find_char(s, '-', d1 + 1);
        if d1 >= s.len() || d2 >= s.len() {
            Err(PackageReferenceParseError::MissingSection)
        } else if d1 == 0 || d2 == d1 + 1 {
            Err(PackageReferenceParseError::EmptyField)
        } else {
            match Version::parse_spec(s.subrange(d2 + 1, s.len() as int)) {
                Ok(version) => Ok(
                    PackageReferenceView {
                        namespace: s.subrange(0, d1),
                        name: s.subrange(d1 + 1, d2),
                        version,
                    },
                ),
                Err(e) => Err(PackageReferenceParseError::InvalidVersion(e)),
            }
        }
    }
}

impl View for PackageReference {
    type V = PackageReferenceView;

    open spec fn view(&self) -> PackageReferenceView {
        PackageReferenceView {
            namespace: self.namespace@,
            name: self.name@,
            version: self.version,
        }
    }
}

/// The values of a list of references.
pub open spec fn views(list: Seq<PackageReference>) -> Seq<PackageReferenceView> {
    list.map_values(|p: PackageReference| p@)
}

/// Whether `s` holds a hyphen.
fn has_hyphen(s: &str) -> (r: bool)
    ensures
        r == exists|i: int| 0 <= i < s@.len() && s@[i] == '-',
{
    let chars = chars_of(s);
    let at = find_from(&chars, '-', 0);
    proof {
        crate::util::text::lemma_find_char(chars@, '-', 0);
    }
    at < chars.len()
}

/// The characters `chars[start..end]` as a string.
fn string_of_range(chars: &Vec<char>, start: usize, end: usize) -> (s: String)
    requires
        start <= end <= chars.len(),
    ensures
        s@ == chars@.subrange(start as int, end as int),
{
    let mut s = String::new();
    let mut i: usize = start;
    while i < end
        invariant
            start <= i <= end <= chars.len(),
            s@ == chars@.subrange(start as int, i as int),
        decreases end - i,
    {
        s.push(chars[i]);
        i += 1;
        assert(s@ =~= chars@.subrange(start as int, i as int));
    }
    s
}

/// The characters `chars[start..]` as a vector.
fn tail_of(chars: &Vec<char>, start: usize) -> (v: Vec<char>)
    requires
        start <= chars.len(),
    ensures
        v@ == chars@.subrange(start as int, chars.len() as int),
{
    let mut v: Vec<char> = Vec::new();
    let mut i: usize = start;
    while i < chars.len()
        invariant
            start <= i <= chars.len(),
            v@ == chars@.subrange(start as int, i as int),
        decreases chars.len() - i,
    {
        v.push(chars[i]);
        i += 1;
        assert(v@ =~= chars@.subrange(start as int, i as int));
    }
    v
}

impl PackageReference {
    /// A reference from its three parts.
    ///
    /// The parts are accepted when namespace and name are not empty and hold
    /// no hyphen. An empty part is reported before a hyphen is.
    pub fn new(namespace: &str, name: &str, version: Version) -> (r: Result<
        PackageReference,
        PackageReferenceParseError,
    >)
        ensures
            r is Ok <==> is_field(namespace@) && is_field(name@),
            r matches Ok(p) ==> p@ == (PackageReferenceView {
                namespace: namespace@,
                name: name@,
                version,
            }),
            r matches Err(e) ==> e == (if namespace@.len() == 0 || name@.len() == 0 {
                PackageReferenceParseError::EmptyField
            } else {
                PackageReferenceParseError::InvalidField
            }),
    {
        if namespace.unicode_len() == 0 || name.unicode_len() == 0 {
            return Err(PackageReferenceParseError::EmptyField);
        }
        if has_hyphen(namespace) || has_hyphen(name) {
            return Err(PackageReferenceParseError::InvalidField);
        }
        Ok(
            PackageReference {
                namespace: String::from_str(namespace),
                name: String::from_str(name),
                version,
            },
        )
    }

    /// The reference written in `s`.
    pub fn from_str(s: &str) -> (r: Result<PackageReference, PackageReferenceParseError>)
        ensures
            r matches Ok(p) ==> PackageReferenceView::parse_spec(s@) == Ok::<
                PackageReferenceView,
                PackageReferenceParseError,
            >(p@) && p@.wf(),
            r matches Err(e) ==> PackageReferenceView::parse_spec(s@) == Err::<
                PackageReferenceView,
                PackageReferenceParseError,
            >(e),
    {
        let chars = chars_of(s);
        let n = chars.len();
        let d1 = find_from(&chars, '-', 0);
        if d1 >= n {
            return Err(PackageReferenceParseError::MissingSection);
        }
        let d2 = find_from(&chars, '-', d1 + 1);
        if d2 >= n {
            return Err(PackageReferenceParseError::MissingSection);
        }
        if d1 == 0 || d2 == d1 + 1 {
            return Err(PackageReferenceParseError::EmptyField);
        }
        let tail = tail_of(&chars, d2 + 1);
        match Version::parse_chars(&tail) {
            Ok(version) => {
                let namespace = string_of_range(&chars, 0, d1);
                let name = string_of_range(&chars, d1 + 1, d2);
                proof {
                    crate::util::text::lemma_find_char(chars@, '-', 0);
                    crate::util::text::lemma_find_char(chars@, '-', d1 + 1);
                }
                Ok(PackageReference { namespace, name, version })
            },
            Err(e) => Err(PackageReferenceParseError::InvalidVersion(e)),
        }
    }

    /// The reference of the package with the loose identity `loose`, in the
    /// version `version`.
    ///
    /// The text is cut at its first hyphen: the namespace comes before it and
    /// the name behind it. A text without a hyphen names no package; an empty
    /// part is reported before a hyphen in the name is.
    pub fn from_loose_ident(loose: &str, version: Version) -> (r: Result<
        PackageReference,
        PackageReferenceParseError,
    >)
        ensures
            ({
                let at = find_char(loose@, '-', 0);
                let namespace = loose@.subrange(0, at);
                let name = loose@.subrange(at + 1, loose@.len() as int);
                match r {
                    Ok(p) => at < loose@.len() && p@ == (PackageReferenceView {
                        namespace,
                        name,
                        version,
                    }) && p@.wf(),
                    Err(e) => e == (if at >= loose@.len() {
                        PackageReferenceParseError::MissingSection
                    } else if at == 0 || at + 1 == loose@.len() {
                        PackageReferenceParseError::EmptyField
                    } else {
                        PackageReferenceParseError::InvalidField
                    }) && (at >= loose@.len() || !is_field(namespace) || !is_field(name)),
                }
            }),
    {
        let chars = chars_of(loose);
        let n = chars.len();
        let at = find_from(&chars, '-', 0);
        if at >= n {
            return Err(PackageReferenceParseError::MissingSection);
        }
        if at == 0 || at + 1 == n {
            return Err(PackageReferenceParseError::EmptyField);
        }
        let next = find_from(&chars, '-', at + 1);
        proof {
            crate::util::text::lemma_find_char(chars@, '-', 0);
            crate::util::text::lemma_find_char(chars@, '-', at + 1);
        }
        if next < n {
            assert(chars@.subrange(at + 1, n as int)[next - at - 1] == '-');
            return Err(PackageReferenceParseError::InvalidField);
        }
        let namespace = string_of_range(&chars, 0, at);
        let name = string_of_range(&chars, at + 1, n);
        Ok(PackageReference { namespace, name, version })
    }

    /// A copy of this reference.
    pub fn duplicate(&self) -> (r: PackageReference)
        ensures
            r == *self,
    {
        PackageReference {
            namespace: self.namespace.clone(),
            name: self.name.clone(),
            version: self.version,
        }
    }

    /// Whether the two references name the same package, whatever their
    /// versions.
    pub fn same_loose(&self, other: &PackageReference) -> (r: bool)
        ensures
            r == self@.same_loose(other@),
    {
        self.namespace == other.namespace && self.name == other.name
    }

    /// Whether the two references name the same package in the same version.
    pub fn same_strict(&self, other: &PackageReference) -> (r: bool)
        ensures
            r == (self@ == other@),
    {
        self.same_loose(other) && self.version.is_equal_to(&other.version)
    }

    /// `namespace-name`: the identity of the package whatever its version.
    pub fn to_loose_ident_string(&self) -> (s: String)
        ensures
            s@ == self@.loose_ident(),
    {
        let mut s = self.namespace.clone();
        s.push('-');
        s.append(self.name.as_str());
        s
    }

    /// `namespace-name-version`: the identity of the package in this version.
    pub fn to_string(&self) -> (s: String)
        ensures
            s@ == self@.strict_ident(),
    {
        let mut s = self.namespace.clone();
        s.push('-');
        s.append(self.name.as_str());
        s.push('-');
        self.version.write_to(&mut s);
        assert(s@ =~= self@.strict_ident());
        s
    }
}

/// Reading the strict identity of a well-formed reference gives the
/// reference back.
pub proof fn lemma_strict_ident_round_trip(r: PackageReferenceView)
    requires
        r.wf(),
    ensures
        PackageReferenceView::parse_spec(r.strict_ident()) == Ok::<
            PackageReferenceView,
            PackageReferenceParseError,
        >(r),
{
    let s = r.strict_ident();
    let d1 = r.namespace.len() as int;
    let d2 = d1 + 1 + r.name.len();
    assert(s.subrange(0, d1) =~= r.namespace);
    assert(s.subrange(d1 + 1, d2) =~= r.name);
    assert(s.subrange(d2 + 1, s.len() as int) =~= r.version.text());
    assert forall|i: int| 0 <= i < d1 implies s[i] != '-' by {
        assert(s[i] == r.namespace[i]);
    }
    assert forall|i: int| d1 + 1 <= i < d2 implies s[i] != '-' by {
        assert(s[i] == r.name[i - d1 - 1]);
    }
    lemma_find_char_is(s, '-', 0, d1);
    lemma_find_char_is(s, '-', d1 + 1, d2);
    lemma_version_text_round_trip(r.version);
}

/// Well-formed references have the same strict identity only when they are
/// the same reference.
pub proof fn lemma_strict_ident_injective(a: PackageReferenceView, b: PackageReferenceView)
    requires
        a.wf(),
        b.wf(),
        a.strict_ident() == b.strict_ident(),
    ensures
        a == b,
{
    lemma_strict_ident_round_trip(a);
    lemma_strict_ident_round_trip(b);
}

/// Well-formed references have the same loose identity text exactly when
/// they have the same namespace and the same name.
pub proof fn lemma_loose_ident_injective(a: PackageReferenceView, b: PackageReferenceView)
    requires
        a.wf(),
        b.wf(),
    ensures
        a.loose_ident() == b.loose_ident() <==> a.same_loose(b),
{
    if a.loose_ident() == b.loose_ident() {
        let s = a.loose_ident();
        let da = a.namespace.len() as int;
        let db = b.namespace.len() as int;
        assert forall|i: int| 0 <= i < da implies s[i] != '-' by {
            assert(s[i] == a.namespace[i]);
        }
        assert forall|i: int| 0 <= i < db implies s[i] != '-' by {
            assert(b.loose_ident()[i] == b.namespace[i]);
        }
        assert(s[da] == '-');
        assert(b.loose_ident()[db] == '-');
        assert(da == db);
        assert(a.namespace =~= s.subrange(0, da));
        assert(b.namespace =~= s.subrange(0, da));
        assert(a.name =~= s.subrange(da + 1, s.len() as int));
        assert(b.name =~= s.subrange(da + 1, s.len() as int));
    }
}

} // verus!
