//! Platform API validation: the versions this launcher supports and the check of the
//! version that the platform requests.
use super::{is_supported, parse_version, spec_any_superset, Version};
use crate::text::{chars_of, extend_chars, string_of, trim, trim_chars};
use vstd::prelude::*;

verus! {

/// The Platform API versions supported by this launcher: 0.7 through 0.15.
pub open spec fn spec_supported_platform_apis() -> Seq<Version> {
    seq![
        Version { major: 0, minor: 7 },
        Version { major: 0, minor: 8 },
        Version { major: 0, minor: 9 },
        Version { major: 0, minor: 10 },
        Version { major: 0, minor: 11 },
        Version { major: 0, minor: 12 },
        Version { major: 0, minor: 13 },
        Version { major: 0, minor: 14 },
        Version { major: 0, minor: 15 },
    ]
}

/// The supported but deprecated Platform API versions: none.
pub open spec fn spec_deprecated_platform_apis() -> Seq<Version> {
    Seq::<Version>::empty()
}

/// The list of Platform API versions supported by this launcher.
pub fn supported_platform_apis() -> (r: Vec<Version>)
    ensures
        r@ == spec_supported_platform_apis(),
{
    let mut r: Vec<Version> = Vec::new();
    let mut m: u64 = 7;
    while m <= 15
        invariant
            7 <= m <= 16,
            r@.len() == m - 7,
            forall|i: int| 0 <= i < r@.len() ==> #[trigger] r@[i] == (Version { major: 0, minor: (i + 7) as u64 }),
        decreases 16 - m,
    {
        r.push(Version::new(0, m));
        m = m + 1;
    }
    assert(r@ =~= spec_supported_platform_apis());
    r
}

/// The list of supported but deprecated Platform API versions.
pub fn deprecated_platform_apis() -> (r: Vec<Version>)
    ensures
        r@ == spec_deprecated_platform_apis(),
{
    Vec::new()
}

/// Errors of Platform API verification.
#[derive(Debug, PartialEq, Eq)]
pub enum PlatformApiError {
    /// The requested Platform API version string was empty.
    Empty,
    /// The requested Platform API version string could not be parsed.
    Invalid(String),
    /// The parsed Platform API version is not supported by this launcher.
    Incompatible(String),
}

/// The text of the error, as `Display` writes it.
pub open spec fn platform_error_text(e: PlatformApiError) -> Seq<char> {
    match e {
        PlatformApiError::Empty =>
            "failed to get platform API version; please set 'CNB_PLATFORM_API' to specify the desired platform API version"@,
        PlatformApiError::Invalid(v) => "failed to parse platform API '"@ + v@ + "'"@,
        PlatformApiError::Incompatible(v) =>
            "failed to set platform API: platform API version '"@ + v@
                + "' is incompatible with the lifecycle"@,
    }
}

impl PlatformApiError {
    /// The text of the error, as `Display` writes it.
    pub fn message(&self) -> (r: String)
        ensures
            r@ == platform_error_text(*self),
    {
        match self {
            PlatformApiError::Empty => String::from_str(
                "failed to get platform API version; please set 'CNB_PLATFORM_API' to specify the desired platform API version",
            ),
            PlatformApiError::Invalid(v) => {
                let mut r = chars_of("failed to parse platform API '");
                let x = chars_of(v.as_str());
                extend_chars(&mut r, &x);
                let t = chars_of("'");
                extend_chars(&mut r, &t);
                string_of(&r)
            },
            PlatformApiError::Incompatible(v) => {
                let mut r = chars_of("failed to set platform API: platform API version '");
                let x = chars_of(v.as_str());
                extend_chars(&mut r, &x);
                let t = chars_of("' is incompatible with the lifecycle");
                extend_chars(&mut r, &t);
                string_of(&r)
            },
        }
    }
}

/// What verifying a requested Platform API version string gives, once white space
/// around it is removed: `Empty` for nothing, `Invalid` for text that does not parse,
/// the version where a supported one is compatible with it, and `Incompatible` otherwise.
/// The two error variants carry the trimmed text.
pub open spec fn platform_api_outcome(requested: Seq<char>, r: Result<Version, PlatformApiError>) -> bool {
    let clean = trim(requested);
    if clean.len() == 0 {
        r == Err::<Version, PlatformApiError>(PlatformApiError::Empty)
    } else {
        match parse_version(clean) {
            Err(_) => r matches Err(PlatformApiError::Invalid(t)) && t@ == clean,
            Ok(v) => if spec_any_superset(v, spec_supported_platform_apis()) {
                r == Ok::<Version, PlatformApiError>(v)
            } else {
                r matches Err(PlatformApiError::Incompatible(t)) && t@ == clean
            },
        }
    }
}

/// Verifies whether the requested Platform API version string is supported.
pub fn verify_platform_api(requested_str: &str) -> (r: Result<Version, PlatformApiError>)
    ensures
        platform_api_outcome(requested_str@, r),
{
    let all = chars_of(requested_str);
    let clean_chars = trim_chars(&all);
    let clean = string_of(&clean_chars);
    if clean_chars.len() == 0 {
        return Err(PlatformApiError::Empty);
    }
    let requested = match Version::parse(clean.as_str()) {
        Ok(v) => v,
        Err(_) => return Err(PlatformApiError::Invalid(clean)),
    };
    let supported = supported_platform_apis();
    if is_supported(&requested, supported.as_slice()) {
        Ok(requested)
    } else {
        Err(PlatformApiError::Incompatible(clean))
    }
}

} // verus!
