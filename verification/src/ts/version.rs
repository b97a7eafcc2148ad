//! Semantic versions.

use crate::util::text::{
    all_digits, chars_of, decimal, decimal_value, find_char, find_from, is_decimal_u32, is_digit,
    lemma_decimal_round_trip, lemma_find_char_is, parse_decimal, push_decimal,
};
use vstd::prelude::*;

verus! {

/// A version `major.minor.patch`. Versions are ordered by major, then minor,
/// then patch number.
#[derive(Clone, Copy, Debug, PartialEq, Eq, Structural, PartialOrd, Ord, Hash)]
pub struct Version {
    pub major: u32,
    pub minor: u32,
    pub patch: u32,
}

/// Why a text is not a version.
#[derive(Clone, Copy, Debug, PartialEq, Eq, Structural)]
pub enum VersionParseError {
    /// The text does not hold two dots.
    MissingSection,
    /// One of the three sections is empty, holds something else than decimal
    /// digits, or is a number that does not fit in 32 bits.
    InvalidNumber,
}

impl Version {
    /// The order of versions: by major, then minor, then patch number.
    pub open spec fn precedes(self, other: Version) -> bool {
        self.major < other.major || (self.major == other.major && (self.minor < other.minor || (
        self.minor == other.minor && self.patch < other.patch)))
    }

    /// The text of a version: its three numbers in decimal, separated by dots.
    pub open spec fn text(self) -> Seq<char> {
        decimal(self.major as nat).push('.') + decimal(self.minor as nat).push('.') + decimal(
            self.patch as nat,
        )
    }

    /// The version that a text stands for.
    ///
    /// The text is cut at its first two dots. Each of the three sections must
    /// be a non-empty run of decimal digits whose number fits in 32 bits;
    /// leading zeros are accepted.
    pub open spec fn parse_spec(s: Seq<char>) -> Result<Version, VersionParseError> {
        let d1 = find_char(s, '.', 0);
        let d2 = find_char(s, '.', d1 + 1);
        if d1 >= s.len() || d2 >= s.len() {
            Err(VersionParseError::MissingSection)
        } else {
            let major = s.subrange(0, d1);
            let minor = s.subrange(d1 + 1, d2);
            let patch = s.subrange(d2 + 1, s.len() as int);
            if is_decimal_u32(major) && is_decimal_u32(minor) && is_decimal_u32(patch) {
                Ok(
                    Version {
                        major: decimal_value(major) as u32,
                        minor: decimal_value(minor) as u32,
                        patch: decimal_value(patch) as u32,
                    },
                )
            } else {
                Err(VersionParseError::InvalidNumber)
            }
        }
    }

    pub fn new(major: u32, minor: u32, patch: u32) -> (v: Version)
        ensures
            v == (Version { major, minor, patch }),
    {
        Version { major, minor, patch }
    }

    /// Whether this version comes before `other`.
    pub fn is_less_than(&self, other: &Version) -> (r: bool)
        ensures
            r == self.precedes(*other),
    {
        self.major < other.major || (self.major == other.major && (self.minor < other.minor || (
        self.minor == other.minor && self.patch < other.patch)))
    }

    /// Whether this version comes after `other`.
    pub fn is_greater_than(&self, other: &Version) -> (r: bool)
        ensures
            r == other.precedes(*self),
    {
        other.is_less_than(self)
    }

    /// Whether the two versions are the same.
    pub fn is_equal_to(&self, other: &Version) -> (r: bool)
        ensures
            r == (*self == *other),
    {
        self.major == other.major && self.minor == other.minor && self.patch == other.patch
    }

    /// The version written in `chars`.
    pub fn parse_chars(chars: &Vec<char>) -> (r: Result<Version, VersionParseError>)
        ensures
            r == Version::parse_spec(chars@),
    {
        let n = chars.len();
        let d1 = find_from(chars, '.', 0);
        if d1 >= n {
            return Err(VersionParseError::MissingSection);
        }
        let d2 = find_from(chars, '.', d1 + 1);
        if d2 >= n {
            return Err(VersionParseError::MissingSection);
        }
        let major = parse_decimal(chars, 0, d1);
        let minor = parse_decimal(chars, d1 + 1, d2);
        let patch = parse_decimal(chars, d2 + 1, n);
        match (major, minor, patch) {
            (Some(major), Some(minor), Some(patch)) => Ok(Version { major, minor, patch }),
            _ => Err(VersionParseError::InvalidNumber),
        }
    }

    /// The version written in `s`.
    pub fn from_str(s: &str) -> (r: Result<Version, VersionParseError>)
        ensures
            r == Version::parse_spec(s@),
    {
        let chars = chars_of(s);
        Version::parse_chars(&chars)
    }

    /// Appends the text of this version.
    pub fn write_to(&self, out: &mut String)
        ensures
            final(out)@ == old(out)@ + self.text(),
    {
        push_decimal(out, self.major);
        out.push('.');
        push_decimal(out, self.minor);
        out.push('.');
        push_decimal(out, self.patch);
        proof {
            assert(final(out)@ =~= old(out)@ + self.text());
        }
    }

    /// The text of this version.
    pub fn to_string(&self) -> (s: String)
        ensures
            s@ == self.text(),
    {
        let mut s = String::new();
        self.write_to(&mut s);
        assert(Seq::<char>::empty() + self.text() =~= self.text());
        s
    }
}

/// No version comes before itself.
pub proof fn lemma_version_order_irreflexive(a: Version)
    ensures
        !a.precedes(a),
{
}

/// The order of versions is transitive.
pub proof fn lemma_version_order_transitive(a: Version, b: Version, c: Version)
    requires
        a.precedes(b),
        b.precedes(c),
    ensures
        a.precedes(c),
{
}

/// Of two versions, one comes before the other or they are the same.
pub proof fn lemma_version_order_total(a: Version, b: Version)
    ensures
        a.precedes(b) || b.precedes(a) || a == b,
        !(a.precedes(b) && b.precedes(a)),
{
}

/// A dot is no digit, so the first dot of a run of digits followed by a dot
/// is that dot.
proof fn lemma_find_dot_after_digits(s: Seq<char>, from: int, digits: Seq<char>)
    requires
        0 <= from,
        from + digits.len() <= s.len(),
        all_digits(digits),
        s.subrange(from, from + digits.len()) == digits,
        from + digits.len() < s.len() ==> s[from + digits.len()] == '.',
    ensures
        find_char(s, '.', from) == from + digits.len(),
{
    assert forall|i: int| from <= i < from + digits.len() implies s[i] != '.' by {
        assert(s[i] == digits[i - from]);
        assert(is_digit(digits[i - from]));
    }
    lemma_find_char_is(s, '.', from, from + digits.len());
}

/// Reading the text of a version gives the version back.
pub proof fn lemma_version_text_round_trip(v: Version)
    ensures
        Version::parse_spec(v.text()) == Ok::<Version, VersionParseError>(v),
{
    let a = decimal(v.major as nat);
    let b = decimal(v.minor as nat);
    let c = decimal(v.patch as nat);
    lemma_decimal_round_trip(v.major as nat);
    lemma_decimal_round_trip(v.minor as nat);
    lemma_decimal_round_trip(v.patch as nat);
    let s = v.text();
    let d1 = a.len() as int;
    let d2 = d1 + 1 + b.len();
    assert(s.len() == d2 + 1 + c.len());
    assert(s.subrange(0, d1) =~= a);
    assert(s[d1] == '.');
    assert(s.subrange(d1 + 1, d2) =~= b);
    assert(s[d2] == '.');
    assert(s.subrange(d2 + 1, s.len() as int) =~= c);
    lemma_find_dot_after_digits(s, 0, a);
    lemma_find_dot_after_digits(s, d1 + 1, b);
}

} // verus!
