use cnb_launcher::api::buildpack::{deprecated_buildpack_apis, verify_buildpack_api, BuildpackApiError};
use cnb_launcher::api::platform::{verify_platform_api, PlatformApiError};
use cnb_launcher::api::{is_deprecated, is_supported, Version};
use cnb_launcher::cli::LaunchError;
use cnb_launcher::exit::ExitCode;
use cnb_launcher::launch::ProcessSelectionError;
use std::str::FromStr;

#[test]
fn test_version_parsing() {
    assert_eq!(Version::from_str("0.7").unwrap(), Version { major: 0, minor: 7 });
    assert_eq!(Version::from_str("v0.7").unwrap(), Version { major: 0, minor: 7 });
    assert_eq!(Version::from_str("1.12").unwrap(), Version { major: 1, minor: 12 });
    assert_eq!(Version::from_str("2").unwrap(), Version { major: 2, minor: 0 });
    assert!(Version::from_str("").is_err());
    assert!(Version::from_str("abc").is_err());
}

#[test]
fn test_version_display() {
    assert_eq!(Version { major: 0, minor: 15 }.to_text(), "0.15");
    assert_eq!(Version { major: 1, minor: 0 }.to_text(), "1.0");
}

#[test]
fn test_is_superset_of() {
    let v0_7 = Version { major: 0, minor: 7 };
    let v0_8 = Version { major: 0, minor: 8 };
    assert!(v0_7.is_superset_of(&v0_7));
    assert!(!v0_7.is_superset_of(&v0_8));

    let v1_5 = Version { major: 1, minor: 5 };
    let v1_2 = Version { major: 1, minor: 2 };
    let v1_8 = Version { major: 1, minor: 8 };
    let v2_0 = Version { major: 2, minor: 0 };
    assert!(v1_5.is_superset_of(&v1_2));
    assert!(v1_5.is_superset_of(&v1_5));
    assert!(!v1_5.is_superset_of(&v1_8));
    assert!(!v1_5.is_superset_of(&v2_0));
}

#[test]
fn test_less_than_and_at_least() {
    let v0_10 = Version { major: 0, minor: 10 };
    assert!(v0_10.less_than("0.11"));
    assert!(!v0_10.less_than("0.9"));
    assert!(v0_10.at_least("0.10"));
    assert!(v0_10.at_least("0.4"));
}

#[test]
fn version_parse_error_messages() {
    assert_eq!(Version::parse("abc"), Err("Parsing Major 'abc'".to_string()));
    assert_eq!(Version::parse("1.x"), Err("Parsing Minor 'x'".to_string()));
    assert_eq!(Version::parse(" "), Err("Could not parse ' ' as version".to_string()));
    assert_eq!(Version::parse(".5"), Err("Could not parse '.5' as version".to_string()));
    assert_eq!(Version::parse("1.2.3"), Err("Could not parse '1.2.3' as version".to_string()));
    assert_eq!(
        Version::parse("99999999999999999999"),
        Err("Parsing Major '99999999999999999999'".to_string())
    );
}

#[test]
fn version_parse_edge_forms() {
    assert_eq!(Version::parse("3."), Ok(Version { major: 3, minor: 0 }));
    assert_eq!(Version::parse("vv2.1 "), Ok(Version { major: 2, minor: 1 }));
    assert_eq!(Version::parse("+1.+2"), Ok(Version { major: 1, minor: 2 }));
    assert_eq!(
        Version::parse("18446744073709551615.0"),
        Ok(Version { major: u64::MAX, minor: 0 })
    );
    assert!(Version::parse("18446744073709551616").is_err());
    assert!(Version::parse(" v1.0").is_err());
}

#[test]
fn version_display_then_parse_gives_back_the_version() {
    for v in [
        Version::new(0, 0),
        Version::new(0, 15),
        Version::new(7, 123),
        Version::new(u64::MAX, u64::MAX),
    ] {
        assert_eq!(Version::parse(&v.to_text()), Ok(v));
    }
}

#[test]
fn less_than_and_at_least_are_false_on_unparsable_text() {
    let v = Version::new(0, 10);
    assert!(!v.less_than("x"));
    assert!(!v.at_least("x"));
    assert!(v.less_than("1"));
    assert!(!v.at_least("1"));
}

#[test]
fn supported_and_deprecated_lists() {
    let list = [Version::new(0, 7), Version::new(1, 3)];
    assert!(is_supported(&Version::new(0, 7), &list));
    assert!(!is_supported(&Version::new(0, 8), &list));
    assert!(is_supported(&Version::new(1, 2), &list));
    assert!(!is_supported(&Version::new(1, 4), &list));
    assert!(!is_deprecated(&Version::new(0, 7), &[]));
}

// ---------- Platform API ----------

#[test]
fn test_platform_api_verification() {
    assert!(verify_platform_api("0.15").is_ok());
    assert!(verify_platform_api("0.7").is_ok());
    assert_eq!(
        verify_platform_api("0.6"),
        Err(PlatformApiError::Incompatible("0.6".to_string()))
    );
    assert_eq!(
        verify_platform_api("bad-api"),
        Err(PlatformApiError::Invalid("bad-api".to_string()))
    );
    assert_eq!(verify_platform_api(""), Err(PlatformApiError::Empty));
}

#[test]
fn verify_platform_api_supported() {
    let v = verify_platform_api("0.15").unwrap();
    assert_eq!(v, Version { major: 0, minor: 15 });
}

#[test]
fn verify_platform_api_unsupported() {
    let err = verify_platform_api("99.9").unwrap_err();
    assert_eq!(err, PlatformApiError::Incompatible("99.9".to_string()));
    assert_eq!(
        err.message(),
        "failed to set platform API: platform API version '99.9' is incompatible with the lifecycle"
    );
}

#[test]
fn verify_platform_api_empty() {
    let err = verify_platform_api("").unwrap_err();
    assert_eq!(err, PlatformApiError::Empty);
    assert_eq!(
        err.message(),
        "failed to get platform API version; please set 'CNB_PLATFORM_API' to specify the desired platform API version"
    );
}

#[test]
fn verify_platform_api_whitespace() {
    let err = verify_platform_api("   ").unwrap_err();
    assert_eq!(err, PlatformApiError::Empty);
}

#[test]
fn verify_platform_api_unparseable() {
    let err = verify_platform_api("not-a-version").unwrap_err();
    assert_eq!(err, PlatformApiError::Invalid("not-a-version".to_string()));
    assert_eq!(err.message(), "failed to parse platform API 'not-a-version'");
}

#[test]
fn version_compare_matrix() {
    let v0_7 = Version { major: 0, minor: 7 };
    let v0_8 = Version { major: 0, minor: 8 };
    assert!(v0_7.is_superset_of(&v0_7));
    assert!(!v0_7.is_superset_of(&v0_8));

    let v1_5 = Version { major: 1, minor: 5 };
    let v1_2 = Version { major: 1, minor: 2 };
    let v1_8 = Version { major: 1, minor: 8 };
    let v2_0 = Version { major: 2, minor: 0 };
    assert!(v1_5.is_superset_of(&v1_2));
    assert!(v1_5.is_superset_of(&v1_5));
    assert!(!v1_5.is_superset_of(&v1_8));
    assert!(!v1_5.is_superset_of(&v2_0));

    let v0_10 = Version { major: 0, minor: 10 };
    assert!(v0_10.at_least("0.10"));
    assert!(v0_10.at_least("0.9"));
    assert!(!v0_10.at_least("0.11"));
    assert!(!v0_10.at_least("1.0"));

    let v0_9 = Version { major: 0, minor: 9 };
    assert!(v0_9.less_than("0.10"));
    assert!(!v0_9.less_than("0.9"));
    assert!(v0_9.less_than("1.0"));
}

fn platform_api_exit_code(err: &PlatformApiError) -> ExitCode {
    match err {
        PlatformApiError::Empty | PlatformApiError::Invalid(_) | PlatformApiError::Incompatible(_) => {
            ExitCode::PlatformApiIncompatible
        }
    }
}

#[test]
fn verify_platform_api_incompat_code_11() {
    let err = verify_platform_api("0.15.0").unwrap_err();
    assert_eq!(platform_api_exit_code(&err), ExitCode::PlatformApiIncompatible);
}

#[test]
fn verify_platform_api_invalid_code_11() {
    let err = verify_platform_api("1.2.3").unwrap_err();
    assert_eq!(err, PlatformApiError::Invalid("1.2.3".to_string()));
    assert_eq!(platform_api_exit_code(&err), ExitCode::PlatformApiIncompatible);
}

#[test]
fn verify_platform_api_empty_code_11() {
    let err = verify_platform_api("0.15.99").unwrap_err();
    assert_eq!(platform_api_exit_code(&err), ExitCode::PlatformApiIncompatible);
}

#[test]
fn verify_platform_api_msg_matches_go() {
    assert!(Version::from_str("1.2.3").is_err());
}

#[test]
fn verify_platform_api_trims_and_accepts_every_supported_version() {
    for minor in 7..=15 {
        let text = format!("  v0.{}\t", minor);
        assert_eq!(verify_platform_api(&text), Ok(Version::new(0, minor)));
    }
    assert_eq!(
        verify_platform_api(" 0.16 "),
        Err(PlatformApiError::Incompatible("0.16".to_string()))
    );
}

// ---------- Buildpack API ----------

#[test]
fn test_buildpack_api_verification() {
    assert!(verify_buildpack_api("my-bp", "0.12").is_ok());
    assert!(verify_buildpack_api("my-bp", "0.7").is_ok());
    assert!(verify_buildpack_api("my-bp", "0.6").is_err());
}

#[test]
fn verify_buildpack_api_supported() {
    let v = verify_buildpack_api("foo", "0.10").unwrap();
    assert_eq!(v, Version { major: 0, minor: 10 });
}

#[test]
fn verify_buildpack_api_unsupported() {
    let inner = verify_buildpack_api("foo", "0.5").unwrap_err();
    assert!(matches!(inner, BuildpackApiError::Incompatible { .. }));
    let err = LaunchError::SetBuildpackApi { bp_id: "foo".to_string(), error: inner };
    assert_eq!(err.code(), ExitCode::BuildpackApiIncompatible);
    assert_eq!(
        err.message(),
        "failed to set API for buildpack 'foo': buildpack API version '0.5' is incompatible with the lifecycle"
    );
}

#[test]
fn verify_buildpack_api_unparseable() {
    let inner = verify_buildpack_api("foo", "abc").unwrap_err();
    assert!(matches!(inner, BuildpackApiError::Parse { .. }));
    let err = LaunchError::SetBuildpackApi { bp_id: "foo".to_string(), error: inner };
    assert_eq!(err.code(), ExitCode::BuildpackApiIncompatible);
    assert_eq!(err.message(), "failed to parse buildpack API 'abc' for buildpack 'foo'");
}

#[test]
fn verify_buildpack_api_deprecated_allowed() {
    let v = verify_buildpack_api("foo", "0.12").unwrap();
    assert_eq!(v, Version { major: 0, minor: 12 });
    assert!(!is_deprecated(&v, &deprecated_buildpack_apis()));
}

#[test]
fn verify_buildpack_api_empty() {
    let err = verify_buildpack_api("foo", "").unwrap_err();
    assert!(matches!(err, BuildpackApiError::Parse { .. }));
}

#[test]
fn verify_buildpack_api_code_12() {
    assert_eq!(ExitCode::BuildpackApiIncompatible.as_i32(), 12);

    let incompat = BuildpackApiError::Incompatible {
        bp_id: "foo".to_string(),
        version: "0.5".to_string(),
    };

    let set_err = LaunchError::SetBuildpackApi { bp_id: "foo".to_string(), error: incompat.clone() };
    assert_eq!(set_err.code(), ExitCode::BuildpackApiIncompatible);

    let sel_err = LaunchError::ProcessSelection(Box::new(ProcessSelectionError::BuildpackApi(incompat)));
    assert_eq!(sel_err.code(), ExitCode::BuildpackApiIncompatible);
}

#[test]
fn buildpack_api_errors_carry_trimmed_text_and_messages() {
    assert_eq!(
        verify_buildpack_api("a/b", " 0.13 "),
        Err(BuildpackApiError::Incompatible { bp_id: "a/b".to_string(), version: "0.13".to_string() })
    );
    let e = verify_buildpack_api("a/b", "x.1").unwrap_err();
    assert_eq!(
        e,
        BuildpackApiError::Parse {
            bp_id: "a/b".to_string(),
            version: "x.1".to_string(),
            error: "Parsing Major 'x'".to_string()
        }
    );
    assert_eq!(e.message(), "Parse buildpack API 'x.1' for buildpack 'a/b': Parsing Major 'x'");
    assert_eq!(
        BuildpackApiError::Incompatible { bp_id: "b".to_string(), version: "0.5".to_string() }.message(),
        "buildpack API version '0.5' is incompatible with the lifecycle for buildpack 'b'"
    );
}
