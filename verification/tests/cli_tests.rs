use cnb_launcher::api::buildpack::BuildpackApiError;
use cnb_launcher::api::platform::PlatformApiError;
use cnb_launcher::api::Version;
use cnb_launcher::cli::{
    escape_id, format_error, format_warning, process_type_warnings, should_enable_color,
    verify_buildpacks, LaunchError,
};
use cnb_launcher::exit::ExitCode;
use cnb_launcher::launch::{ProcessSelectionError, RawBuildpack};

#[test]
fn test_format_error_output() {
    assert_eq!(format_error("my error", false), "ERROR: my error");
    assert_eq!(format_error("my error", true), "\x1b[31;1mERROR: \x1b[0mmy error");
}

#[test]
fn test_format_warning_output() {
    assert_eq!(format_warning("my warning", false), "Warning: my warning");
    assert_eq!(format_warning("my warning", true), "\x1b[33;1mWarning: \x1b[0mmy warning");
}

#[test]
fn test_should_enable_color_respects_env() {
    assert!(!should_enable_color(Some("true"), true));
    assert!(!should_enable_color(Some(" TRUE\n"), true));
    assert!(should_enable_color(Some("false"), true));
    assert!(should_enable_color(None, true));
    assert!(!should_enable_color(None, false));
}

#[test]
fn test_escape_id() {
    assert_eq!(escape_id("heroku/ruby"), "heroku_ruby");
    assert_eq!(escape_id("no-slash"), "no-slash");
    assert_eq!(escape_id("multiple/slashes/here"), "multiple_slashes_here");
}

#[test]
fn exit_code_numbers() {
    assert_eq!(ExitCode::Failed.as_i32(), 1);
    assert_eq!(ExitCode::PlatformApiIncompatible.as_i32(), 11);
    assert_eq!(ExitCode::BuildpackApiIncompatible.as_i32(), 12);
    assert_eq!(ExitCode::LaunchError.as_i32(), 82);
}

#[test]
fn launch_error_codes_and_messages() {
    let e = LaunchError::PlatformApi(PlatformApiError::Invalid("x".to_string()));
    assert_eq!(e.code(), ExitCode::PlatformApiIncompatible);
    assert_eq!(e.message(), "failed to parse platform API 'x'");

    let e = LaunchError::ProcessSelection(Box::new(ProcessSelectionError::NoCommandAndNoDefault));
    assert_eq!(e.code(), ExitCode::LaunchError);
    assert_eq!(
        e.message(),
        "failed to launch: determine start command: when there is no default process a command is required"
    );

    let e = LaunchError::MetadataNotFound { path: "/layers/config/metadata.toml".to_string() };
    assert_eq!(e.code(), ExitCode::LaunchError);
    assert_eq!(
        e.message(),
        "failed to read metadata: metadata file not found at '/layers/config/metadata.toml'"
    );
    let e = LaunchError::MetadataParse { error: "bad".to_string() };
    assert_eq!(e.message(), "failed to read metadata: parse failed: bad");
    let e = LaunchError::ListLayerDirs { context: "List layers".to_string(), error: "denied".to_string() };
    assert_eq!(e.message(), "failed to launch: List layers: denied");
    let e = LaunchError::DirectExec("not found".to_string());
    assert_eq!(e.message(), "failed to launch: direct exec: not found");
    let e = LaunchError::BashExec("boom".to_string());
    assert_eq!(e.message(), "failed to launch: bash exec: boom");
    let e = LaunchError::ChangeAppDir { path: "/w".to_string(), error: "gone".to_string() };
    assert_eq!(e.message(), "failed to launch: change to app directory: gone");
}

#[test]
fn verify_buildpacks_stops_at_first_rejected() {
    let bps = vec![
        RawBuildpack { id: "a".to_string(), api: "0.9".to_string() },
        RawBuildpack { id: "b".to_string(), api: "0.2".to_string() },
        RawBuildpack { id: "c".to_string(), api: "zzz".to_string() },
    ];
    match verify_buildpacks(&bps) {
        Err(LaunchError::SetBuildpackApi { bp_id, error }) => {
            assert_eq!(bp_id, "b");
            assert_eq!(
                error,
                BuildpackApiError::Incompatible { bp_id: "b".to_string(), version: "0.2".to_string() }
            );
        }
        other => panic!("unexpected {:?}", other),
    }
    assert!(verify_buildpacks(&bps[..1]).is_ok());
}

#[test]
fn process_type_warnings_only_under_launcher_name() {
    let v = Version::new(0, 15);
    assert_eq!(
        process_type_warnings("/cnb/lifecycle/launcher", Some("web"), &v),
        vec![
            "CNB_PROCESS_TYPE is not supported in Platform API 0.15".to_string(),
            "Run with ENTRYPOINT 'web' to invoke the 'web' process type".to_string(),
        ]
    );
    assert!(process_type_warnings("/cnb/process/web", Some("web"), &v).is_empty());
    assert!(process_type_warnings("launcher", Some("  "), &v).is_empty());
    assert!(process_type_warnings("launcher", None, &v).is_empty());
}

