//! Buildpack API validation: the versions this launcher supports and the check of the
//! version that a buildpack declares in the metadata.
use super::{is_supported, parse_version, spec_any_superset, Version};
use crate::text::{chars_of, extend_chars, string_of, trim, trim_chars};
use vstd::prelude::*;

verus! {

/// The Buildpack API versions supported by this launcher: 0.7 through 0.12.
pub open spec fn spec_supported_buildpack_apis() -> Seq<Version> {
    seq![
        Version { major: 0, minor: 7 },
        Version { major: 0, minor: 8 },
        Version { major: 0, minor: 9 },
        Version { major: 0, minor: 10 },
        Version { major: 0, minor: 11 },
        Version { major: 0, minor: 12 },
    ]
}

/// The supported but deprecated Buildpack API versions: none.
pub open spec fn spec_deprecated_buildpack_apis() -> Seq<Version> {
    Seq::<Version>::empty()
}

/// The list of Buildpack API versions supported by this launcher.
pub fn supported_buildpack_apis() -> (r: Vec<Version>)
    ensures
        r@ == spec_supported_buildpack_apis(),
{
    let mut r: Vec<Version> = Vec::new();
    let mut m: u64 = 7;
    while m <= 12
        invariant
            7 <= m <= 13,
            r@.len() == m - 7,
            forall|i: int| 0 <= i < r@.len() ==> #[trigger] r@[i] == (Version { major: 0, minor: (i + 7) as u64 }),
        decreases 13 - m,
    {
        r.push(Version::new(0, m));
        m = m + 1;
    }
    assert(r@ =~= spec_supported_buildpack_apis());
    r
}

/// The list of supported but deprecated Buildpack API versions.
pub fn deprecated_buildpack_apis() -> (r: Vec<Version>)
    ensures
        r@ == spec_deprecated_buildpack_apis(),
{
    Vec::new()
}

/// Errors of Buildpack API verification.
#[derive(Debug, PartialEq, Eq, Clone)]
pub enum BuildpackApiError {
    /// The Buildpack API version string could not be parsed.
    Parse {
        /// The identifier of the buildpack.
        bp_id: String,
        /// The version string (white space around it removed) that failed to parse.
        version: String,
        /// The description of the parse failure.
        error: String,
    },
    /// The Buildpack API version is not supported by this launcher.
    Incompatible {
        /// The identifier of the buildpack.
        bp_id: String,
        /// The incompatible version string.
        version: String,
    },
}

/// The text of the error, as `Display` writes it.
pub open spec fn buildpack_error_text(e: BuildpackApiError) -> Seq<char> {
    match e {
        BuildpackApiError::Parse { bp_id, version, error } =>
            "Parse buildpack API '"@ + version@ + "' for buildpack '"@ + bp_id@ + "': "@ + error@,
        BuildpackApiError::Incompatible { bp_id, version } =>
            "buildpack API version '"@ + version@ + "' is incompatible with the lifecycle for buildpack '"@
                + bp_id@ + "'"@,
    }
}

fn push_str(v: &mut Vec<char>, s: &str)
    ensures
        final(v)@ == old(v)@ + s@,
{
    let x = chars_of(s);
    extend_chars(v, &x);
}

impl BuildpackApiError {
    /// The text of the error, as `Display` writes it.
    pub fn message(&self) -> (r: String)
        ensures
            r@ == buildpack_error_text(*self),
    {
        let mut r: Vec<char> = Vec::new();
        match self {
            BuildpackApiError::Parse { bp_id, version, error } => {
                push_str(&mut r, "Parse buildpack API '");
                push_str(&mut r, version.as_str());
                push_str(&mut r, "' for buildpack '");
                push_str(&mut r, bp_id.as_str());
                push_str(&mut r, "': ");
                push_str(&mut r, error.as_str());
            },
            BuildpackApiError::Incompatible { bp_id, version } => {
                push_str(&mut r, "buildpack API version '");
                push_str(&mut r, version.as_str());
                push_str(&mut r, "' is incompatible with the lifecycle for buildpack '");
                push_str(&mut r, bp_id.as_str());
                push_str(&mut r, "'");
            },
        }
        string_of(&r)
    }
}

/// What verifying the version string that buildpack `bp_id` declares gives, once white
/// space around it is removed: `Parse` (with the parse failure's text) where it does not
/// parse, the version where a supported one is compatible with it, and `Incompatible`
/// otherwise. The errors carry the buildpack id and the trimmed text.
pub open spec fn buildpack_api_outcome(
    bp_id: Seq<char>,
    requested: Seq<char>,
    r: Result<Version, BuildpackApiError>,
) -> bool {
    let clean = trim(requested);
    match parse_version(clean) {
        Err(msg) => r matches Err(BuildpackApiError::Parse { bp_id: b, version: v, error: e }) && b@
            == bp_id && v@ == clean && e@ == msg,
        Ok(v) => if spec_any_superset(v, spec_supported_buildpack_apis()) {
            r == Ok::<Version, BuildpackApiError>(v)
        } else {
            r matches Err(BuildpackApiError::Incompatible { bp_id: b, version: t }) && b@ == bp_id
                && t@ == clean
        },
    }
}

/// Verifies whether the Buildpack API version string declared by buildpack `bp_id` is
/// supported.
pub fn verify_buildpack_api(bp_id: &str, requested_str: &str) -> (r: Result<Version, BuildpackApiError>)
    ensures
        buildpack_api_outcome(bp_id@, requested_str@, r),
{
    let all = chars_of(requested_str);
    let clean_chars = trim_chars(&all);
    let clean = string_of(&clean_chars);
    let requested = match Version::parse(clean.as_str()) {
        Ok(v) => v,
        Err(e) => {
            return Err(
                BuildpackApiError::Parse { bp_id: String::from_str(bp_id), version: clean, error: e },
            )
        },
    };
    let supported = supported_buildpack_apis();
    if is_supported(&requested, supported.as_slice()) {
        Ok(requested)
    } else {
        Err(BuildpackApiError::Incompatible { bp_id: String::from_str(bp_id), version: clean })
    }
}

} // verus!
