//! API versions of the Cloud Native Buildpacks specification: parsing, comparison and
//! the compatibility rule, with the [`platform`] and [`buildpack`] rules built on them.
use crate::text::{
    chars_of, decimal, decimal_chars, extend_chars, parse_u64, parse_u64_chars, split, split_chars,
    string_of, strip_leading, strip_leading_chars, trim, trim_chars, views,
};
use std::str::FromStr;
use vstd::prelude::*;

/// Rules and validation logic for Buildpack API versions.
pub mod buildpack;
/// Rules and validation logic for Platform API versions.
pub mod platform;

verus! {

/// A SemVer-like Platform or Buildpack API version with a major and a minor number.
#[derive(Debug, Clone, Copy, PartialEq, Eq, Structural, PartialOrd, Ord)]
pub struct Version {
    /// The major version number.
    pub major: u64,
    /// The minor version number.
    pub minor: u64,
}

/// Strict lexicographic order on (major, minor), the order that `Ord` on `Version` gives.
pub open spec fn version_lt(a: Version, b: Version) -> bool {
    a.major < b.major || (a.major == b.major && a.minor < b.minor)
}

/// Message of a version string that does not have the shape `[v]MAJOR[.MINOR]`.
pub open spec fn unparsable_message(s: Seq<char>) -> Seq<char> {
    "Could not parse '"@ + s + "' as version"@
}

/// Message of a major component that is not a `u64`.
pub open spec fn major_message(p: Seq<char>) -> Seq<char> {
    "Parsing Major '"@ + p + "'"@
}

/// Message of a minor component that is not a `u64`.
pub open spec fn minor_message(p: Seq<char>) -> Seq<char> {
    "Parsing Minor '"@ + p + "'"@
}

/// The text that is left of a version string once its leading `v`s and the white space
/// around it are removed.
pub open spec fn version_body(s: Seq<char>) -> Seq<char> {
    trim(strip_leading(s, 'v'))
}

/// What parsing `s` as a version gives: the body must be `MAJOR`, `MAJOR.` or
/// `MAJOR.MINOR` with each number a `u64`; a missing or empty minor is 0.
pub open spec fn parse_version(s: Seq<char>) -> Result<Version, Seq<char>> {
    let parts = split(version_body(s), '.');
    if parts[0].len() == 0 || parts.len() > 2 {
        Err(unparsable_message(s))
    } else {
        match parse_u64(parts[0]) {
            None => Err(major_message(parts[0])),
            Some(major) => {
                if parts.len() > 1 && parts[1].len() > 0 {
                    match parse_u64(parts[1]) {
                        None => Err(minor_message(parts[1])),
                        Some(minor) => Ok(Version { major, minor }),
                    }
                } else {
                    Ok(Version { major, minor: 0 })
                }
            },
        }
    }
}

/// The text that `Display` writes for a version: `MAJOR.MINOR`.
pub open spec fn version_text(v: Version) -> Seq<char> {
    decimal(v.major as nat) + seq!['.'] + decimal(v.minor as nat)
}

fn concat3(a: &str, b: &Vec<char>, c: &str) -> (r: Vec<char>)
    ensures
        r@ == a@ + b@ + c@,
{
    let mut r = chars_of(a);
    extend_chars(&mut r, b);
    let t = chars_of(c);
    extend_chars(&mut r, &t);
    r
}

impl Version {
    /// Creates a version from its major and minor numbers.
    pub fn new(major: u64, minor: u64) -> (v: Self)
        ensures
            v.major == major,
            v.minor == minor,
    {
        Version { major, minor }
    }

    /// The compatibility rule of the specification: under major 0 two versions must be
    /// equal; from major 1 on, the majors must be equal and this minor at least the other.
    pub open spec fn spec_is_superset_of(self, other: Version) -> bool {
        if self.major == 0 {
            self == other
        } else {
            self.major == other.major && self.minor >= other.minor
        }
    }

    /// Whether this version is a superset of (backwards-compatible with) `other`.
    pub fn is_superset_of(&self, other: &Version) -> (r: bool)
        ensures
            r == self.spec_is_superset_of(*other),
    {
        if self.major == 0 {
            self.major == other.major && self.minor == other.minor
        } else {
            self.major == other.major && self.minor >= other.minor
        }
    }

    /// Whether this version is strictly less than the version that `other` parses to;
    /// `false` where `other` does not parse.
    pub fn less_than(&self, other: &str) -> (r: bool)
        ensures
            r == (parse_version(other@) matches Ok(o) && version_lt(*self, o)),
    {
        match Version::parse(other) {
            Ok(o) => self.major < o.major || (self.major == o.major && self.minor < o.minor),
            Err(_) => false,
        }
    }

    /// Whether this version is at least the version that `other` parses to;
    /// `false` where `other` does not parse.
    pub fn at_least(&self, other: &str) -> (r: bool)
        ensures
            r == (parse_version(other@) matches Ok(o) && !version_lt(*self, o)),
    {
        match Version::parse(other) {
            Ok(o) => !(self.major < o.major || (self.major == o.major && self.minor < o.minor)),
            Err(_) => false,
        }
    }

    /// Parses a version string, as `FromStr` does.
    pub fn parse(s: &str) -> (r: Result<Version, String>)
        ensures
            match r {
                Ok(v) => parse_version(s@) == Ok::<Version, Seq<char>>(v),
                Err(e) => parse_version(s@) == Err::<Version, Seq<char>>(e@),
            },
    {
        let all = chars_of(s);
        let stripped = strip_leading_chars(&all, 'v');
        let clean = trim_chars(&stripped);
        let parts = split_chars(&clean, '.');
        assert(views(parts@)[0] == parts@[0]@);
        if parts[0].len() == 0 || parts.len() > 2 {
            let m = concat3("Could not parse '", &all, "' as version");
            return Err(string_of(&m));
        }
        let major = match parse_u64_chars(&parts[0]) {
            Some(m) => m,
            None => {
                let m = concat3("Parsing Major '", &parts[0], "'");
                return Err(string_of(&m));
            },
        };
        if parts.len() > 1 && parts[1].len() > 0 {
            assert(views(parts@)[1] == parts@[1]@);
            match parse_u64_chars(&parts[1]) {
                Some(minor) => Ok(Version { major, minor }),
                None => {
                    let m = concat3("Parsing Minor '", &parts[1], "'");
                    Err(string_of(&m))
                },
            }
        } else {
            Ok(Version { major, minor: 0 })
        }
    }

    /// The text that `Display` writes for this version: `MAJOR.MINOR`.
    pub fn to_text(&self) -> (r: String)
        ensures
            r@ == version_text(*self),
    {
        let mut v = decimal_chars(self.major);
        v.push('.');
        let m = decimal_chars(self.minor);
        extend_chars(&mut v, &m);
        string_of(&v)
    }
}

impl FromStr for Version {
    type Err = String;

    fn from_str(s: &str) -> (r: Result<Self, Self::Err>)
        ensures
            match r {
                Ok(v) => parse_version(s@) == Ok::<Version, Seq<char>>(v),
                Err(e) => parse_version(s@) == Err::<Version, Seq<char>>(e@),
            },
    {
        Version::parse(s)
    }
}

/// Whether some version of `list` is a superset of `requested`.
pub open spec fn spec_any_superset(requested: Version, list: Seq<Version>) -> bool {
    exists|i: int| 0 <= i < list.len() && (#[trigger] list[i]).spec_is_superset_of(requested)
}

/// Whether `requested` is compatible with one of the API versions in `list`.
pub fn is_supported(requested: &Version, list: &[Version]) -> (r: bool)
    ensures
        r == spec_any_superset(*requested, list@),
{
    let mut i: usize = 0;
    while i < list.len()
        invariant
            i <= list@.len(),
            forall|j: int| 0 <= j < i ==> !(#[trigger] list@[j]).spec_is_superset_of(*requested),
        decreases list@.len() - i,
    {
        if list[i].is_superset_of(requested) {
            return true;
        }
        i = i + 1;
    }
    false
}

/// Whether `requested` is deprecated by one of the API versions in `list`
/// (the same compatibility test, applied to a list of deprecated versions).
pub fn is_deprecated(requested: &Version, list: &[Version]) -> (r: bool)
    ensures
        r == spec_any_superset(*requested, list@),
{
    is_supported(requested, list)
}

} // verus!
