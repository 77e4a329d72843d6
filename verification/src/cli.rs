//! The launcher's command-line behaviour: its errors and their exit codes and messages,
//! the formatting of what it reports, and the decisions of its start-up sequence.
use crate::api::buildpack::{
    buildpack_api_outcome, buildpack_error_text, verify_buildpack_api, BuildpackApiError,
};
use crate::api::platform::{platform_error_text, PlatformApiError};
use crate::api::{version_text, Version};
use crate::exit::ExitCode;
use crate::launch::{
    executable_name, process_name_of, selection_error_text, ProcessSelectionError, RawBuildpack,
};
use crate::text::{chars_of, push_str, str_eq, string_of, string_views, trim, trim_chars};
use vstd::prelude::*;

verus! {

/// Errors that end a launch. Failures of the operating system are carried as their
/// messages.
#[derive(Debug)]
pub enum LaunchError {
    /// The Platform API was rejected.
    PlatformApi(PlatformApiError),
    /// The API of a buildpack was rejected.
    SetBuildpackApi { bp_id: String, error: BuildpackApiError },
    /// The launch environment could not be assembled.
    LaunchEnv(String),
    /// An `exec.d` program failed.
    ExecD(String),
    /// Process selection failed.
    ProcessSelection(Box<ProcessSelectionError>),
    /// The application directory could not be entered.
    ChangeAppDir { path: String, error: String },
    /// The metadata file does not exist.
    MetadataNotFound { path: String },
    /// The metadata file could not be read.
    MetadataRead { path: String, error: String },
    /// The metadata file could not be parsed.
    MetadataParse { error: String },
    /// The layers of a buildpack could not be listed.
    ListLayerDirs { context: String, error: String },
    /// The files of a layer directory could not be listed.
    ListLayerFiles { context: String, error: String },
    /// The direct execution of the process failed.
    DirectExec(String),
    /// The execution of the process through Bash failed.
    BashExec(String),
}

/// The exit code of an error.
pub open spec fn error_exit_code(e: LaunchError) -> ExitCode {
    match e {
        LaunchError::PlatformApi(_) => ExitCode::PlatformApiIncompatible,
        LaunchError::SetBuildpackApi { .. } => ExitCode::BuildpackApiIncompatible,
        LaunchError::ProcessSelection(inner) => match *inner {
            ProcessSelectionError::BuildpackApi(_) => ExitCode::BuildpackApiIncompatible,
            _ => ExitCode::LaunchError,
        },
        _ => ExitCode::LaunchError,
    }
}

/// The message of an error. A rejected buildpack API reads
/// `failed to parse buildpack API '<version>' for buildpack '<id>'` or
/// `failed to set API for buildpack '<id>': buildpack API version '<version>' is incompatible
/// with the lifecycle`.
pub open spec fn error_text(e: LaunchError) -> Seq<char> {
    match e {
        LaunchError::PlatformApi(inner) => platform_error_text(inner),
        LaunchError::SetBuildpackApi { bp_id, error } => match error {
            BuildpackApiError::Parse { version, .. } =>
                "failed to parse buildpack API '"@ + version@ + "' for buildpack '"@ + bp_id@ + "'"@,
            BuildpackApiError::Incompatible { version, .. } =>
                "failed to set API for buildpack '"@ + bp_id@ + "': buildpack API version '"@
                    + version@ + "' is incompatible with the lifecycle"@,
        },
        LaunchError::LaunchEnv(m) => "failed to launch: "@ + m@,
        LaunchError::ExecD(m) => "failed to launch: "@ + m@,
        LaunchError::ProcessSelection(inner) => "failed to launch: "@ + selection_error_text(*inner),
        LaunchError::ChangeAppDir { error, .. } => "failed to launch: change to app directory: "@
            + error@,
        LaunchError::MetadataNotFound { path } =>
            "failed to read metadata: metadata file not found at '"@ + path@ + "'"@,
        LaunchError::MetadataRead { error, .. } => "failed to read metadata: "@ + error@,
        LaunchError::MetadataParse { error } => "failed to read metadata: parse failed: "@ + error@,
        LaunchError::ListLayerDirs { context, error } => "failed to launch: "@ + context@ + ": "@
            + error@,
        LaunchError::ListLayerFiles { context, error } => "failed to launch: "@ + context@ + ": "@
            + error@,
        LaunchError::DirectExec(m) => "failed to launch: direct exec: "@ + m@,
        LaunchError::BashExec(m) => "failed to launch: bash exec: "@ + m@,
    }
}

impl LaunchError {
    /// The exit code the launcher ends with for this error.
    pub fn code(&self) -> (r: ExitCode)
        ensures
            r == error_exit_code(*self),
    {
        match self {
            LaunchError::PlatformApi(_) => ExitCode::PlatformApiIncompatible,
            LaunchError::SetBuildpackApi { .. } => ExitCode::BuildpackApiIncompatible,
            LaunchError::ProcessSelection(inner) => match &**inner {
                ProcessSelectionError::BuildpackApi(_) => ExitCode::BuildpackApiIncompatible,
                _ => ExitCode::LaunchError,
            },
            _ => ExitCode::LaunchError,
        }
    }

    /// The message of this error, as `Display` writes it.
    pub fn message(&self) -> (r: String)
        ensures
            r@ == error_text(*self),
    {
        let mut v: Vec<char> = Vec::new();
        match self {
            LaunchError::PlatformApi(inner) => {
                return inner.message();
            },
            LaunchError::SetBuildpackApi { bp_id, error } => match error {
                BuildpackApiError::Parse { version, .. } => {
                    push_str(&mut v, "failed to parse buildpack API '");
                    push_str(&mut v, version.as_str());
                    push_str(&mut v, "' for buildpack '");
                    push_str(&mut v, bp_id.as_str());
                    push_str(&mut v, "'");
                },
                BuildpackApiError::Incompatible { version, .. } => {
                    push_str(&mut v, "failed to set API for buildpack '");
                    push_str(&mut v, bp_id.as_str());
                    push_str(&mut v, "': buildpack API version '");
                    push_str(&mut v, version.as_str());
                    push_str(&mut v, "' is incompatible with the lifecycle");
                },
            },
            LaunchError::LaunchEnv(m) => {
                push_str(&mut v, "failed to launch: ");
                push_str(&mut v, m.as_str());
            },
            LaunchError::ExecD(m) => {
                push_str(&mut v, "failed to launch: ");
                push_str(&mut v, m.as_str());
            },
            LaunchError::ProcessSelection(inner) => {
                push_str(&mut v, "failed to launch: ");
                let m = inner.message();
                push_str(&mut v, m.as_str());
            },
            LaunchError::ChangeAppDir { error, .. } => {
                push_str(&mut v, "failed to launch: change to app directory: ");
                push_str(&mut v, error.as_str());
            },
            LaunchError::MetadataNotFound { path } => {
                push_str(&mut v, "failed to read metadata: metadata file not found at '");
                push_str(&mut v, path.as_str());
                push_str(&mut v, "'");
            },
            LaunchError::MetadataRead { error, .. } => {
                push_str(&mut v, "failed to read metadata: ");
                push_str(&mut v, error.as_str());
            },
            LaunchError::MetadataParse { error } => {
                push_str(&mut v, "failed to read metadata: parse failed: ");
                push_str(&mut v, error.as_str());
            },
            LaunchError::ListLayerDirs { context, error } => {
                push_str(&mut v, "failed to launch: ");
                push_str(&mut v, context.as_str());
                push_str(&mut v, ": ");
                push_str(&mut v, error.as_str());
            },
            LaunchError::ListLayerFiles { context, error } => {
                push_str(&mut v, "failed to launch: ");
                push_str(&mut v, context.as_str());
                push_str(&mut v, ": ");
                push_str(&mut v, error.as_str());
            },
            LaunchError::DirectExec(m) => {
                push_str(&mut v, "failed to launch: direct exec: ");
                push_str(&mut v, m.as_str());
            },
            LaunchError::BashExec(m) => {
                push_str(&mut v, "failed to launch: bash exec: ");
                push_str(&mut v, m.as_str());
            },
        }
        string_of(&v)
    }
}

/// The first buildpack whose API is rejected, if any.
pub open spec fn first_rejected_buildpack(bps: Seq<RawBuildpack>) -> Option<int>
    decreases bps.len(),
{
    if bps.len() == 0 {
        None
    } else if crate::launch::accepted_buildpack_api(bps[0].api@) is None {
        Some(0)
    } else {
        match first_rejected_buildpack(bps.drop_first()) {
            Some(k) => Some(k + 1),
            None => None,
        }
    }
}

proof fn lemma_first_rejected_skip(bps: Seq<RawBuildpack>, i: int)
    requires
        0 <= i <= bps.len(),
        forall|j: int|
            0 <= j < i ==> crate::launch::accepted_buildpack_api((#[trigger] bps[j]).api@) is Some,
    ensures
        first_rejected_buildpack(bps) == (match first_rejected_buildpack(bps.skip(i)) {
            Some(k) => Some(k + i),
            None => None::<int>,
        }),
    decreases i,
{
    if i == 0 {
        assert(bps.skip(0) =~= bps);
        match first_rejected_buildpack(bps) {
            Some(k) => {},
            None => {},
        }
    } else {
        lemma_first_rejected_skip(bps.drop_first(), i - 1);
        assert(bps.drop_first().skip(i - 1) =~= bps.skip(i));
    }
}

proof fn lemma_outcome_accepted(bp_id: Seq<char>, api: Seq<char>, r: Result<Version, BuildpackApiError>)
    requires
        buildpack_api_outcome(bp_id, api, r),
    ensures
        r is Ok <==> crate::launch::accepted_buildpack_api(api) is Some,
{
}

/// Verifies the API of every buildpack of the metadata; the first rejected one ends the
/// launch with `SetBuildpackApi`.
pub fn verify_buildpacks(buildpacks: &[RawBuildpack]) -> (r: Result<(), LaunchError>)
    ensures
        match first_rejected_buildpack(buildpacks@) {
            None => r is Ok,
            Some(i) => r matches Err(LaunchError::SetBuildpackApi { bp_id, error }) && bp_id@
                == buildpacks@[i].id@ && buildpack_api_outcome(
                buildpacks@[i].id@,
                buildpacks@[i].api@,
                Err(error),
            ),
        },
{
    let mut i: usize = 0;
    while i < buildpacks.len()
        invariant
            i <= buildpacks@.len(),
            forall|j: int|
                0 <= j < i ==> crate::launch::accepted_buildpack_api(
                    (#[trigger] buildpacks@[j]).api@,
                ) is Some,
        decreases buildpacks@.len() - i,
    {
        let res = verify_buildpack_api(buildpacks[i].id.as_str(), buildpacks[i].api.as_str());
        proof {
            lemma_outcome_accepted(buildpacks@[i as int].id@, buildpacks@[i as int].api@, res);
        }
        match res {
            Ok(_) => {},
            Err(error) => {
                proof {
                    lemma_first_rejected_skip(buildpacks@, i as int);
                    assert(buildpacks@.skip(i as int)[0] == buildpacks@[i as int]);
                }
                return Err(LaunchError::SetBuildpackApi { bp_id: buildpacks[i].id.clone(), error });
            },
        }
        i = i + 1;
    }
    proof {
        lemma_first_rejected_skip(buildpacks@, i as int);
        assert(buildpacks@.skip(i as int).len() == 0);
    }
    Ok(())
}

/// An error line: `ERROR: <msg>`, the label bold red where color is enabled.
pub open spec fn error_line(msg: Seq<char>, enable_color: bool) -> Seq<char> {
    if enable_color {
        "\x1b[31;1mERROR: \x1b[0m"@ + msg
    } else {
        "ERROR: "@ + msg
    }
}

/// A warning line: `Warning: <msg>`, the label bold yellow where color is enabled.
pub open spec fn warning_line(msg: Seq<char>, enable_color: bool) -> Seq<char> {
    if enable_color {
        "\x1b[33;1mWarning: \x1b[0m"@ + msg
    } else {
        "Warning: "@ + msg
    }
}

/// Formats an error message for the terminal.
pub fn format_error(msg: &str, enable_color: bool) -> (r: String)
    ensures
        r@ == error_line(msg@, enable_color),
{
    let mut v: Vec<char> = Vec::new();
    if enable_color {
        push_str(&mut v, "\x1b[31;1mERROR: \x1b[0m");
    } else {
        push_str(&mut v, "ERROR: ");
    }
    push_str(&mut v, msg);
    string_of(&v)
}

/// Formats a warning message for the terminal.
pub fn format_warning(msg: &str, enable_color: bool) -> (r: String)
    ensures
        r@ == warning_line(msg@, enable_color),
{
    let mut v: Vec<char> = Vec::new();
    if enable_color {
        push_str(&mut v, "\x1b[33;1mWarning: \x1b[0m");
    } else {
        push_str(&mut v, "Warning: ");
    }
    push_str(&mut v, msg);
    string_of(&v)
}

/// The lowercase form of a string, as `str::to_lowercase` gives it.
pub uninterp spec fn lowercase(s: Seq<char>) -> Seq<char>;

/// Whether every character of a text is ASCII.
pub open spec fn all_ascii(s: Seq<char>) -> bool {
    forall|i: int| 0 <= i < s.len() ==> (#[trigger] s[i] as u32) < 128
}

/// An ASCII letter's lowercase form: `A`-`Z` become `a`-`z`, other characters stay.
pub open spec fn ascii_lower_char(c: char) -> char {
    if 'A' <= c && c <= 'Z' {
        ((c as u32) + 32) as char
    } else {
        c
    }
}

/// An ASCII text in lowercase.
pub open spec fn ascii_lowercase(s: Seq<char>) -> Seq<char> {
    s.map_values(|c: char| ascii_lower_char(c))
}

/// Calls `str::to_lowercase`. Claimed of it: the result is `lowercase` of the text, so it
/// depends on the text alone, and for ASCII text, whose Unicode lowercase mapping is that
/// of `to_ascii_lowercase` (`A`-`Z` to `a`-`z`, the rest unchanged), it is that mapping.
/// The Unicode case mapping of other text is not stated.
#[verifier::external_body]
fn to_lowercase(s: &str) -> (r: String)
    ensures
        r@ == lowercase(s@),
        all_ascii(s@) ==> r@ == ascii_lowercase(s@),
{
    s.to_lowercase()
}

/// A text in lowercase: the ASCII mapping for ASCII text, `str::to_lowercase` otherwise.
pub open spec fn text_lowercase(s: Seq<char>) -> Seq<char> {
    if all_ascii(s) {
        ascii_lowercase(s)
    } else {
        lowercase(s)
    }
}

/// Whether color is enabled: not where `CNB_NO_COLOR` is `true` (ignoring case and the
/// white space around it), and otherwise where standard error is a terminal.
pub open spec fn color_enabled(no_color: Option<Seq<char>>, stderr_is_terminal: bool) -> bool {
    if no_color matches Some(v) && text_lowercase(trim(v)) == "true"@ {
        false
    } else {
        stderr_is_terminal
    }
}

/// Decides whether output is colored, from the value of `CNB_NO_COLOR` (if set) and
/// whether standard error is a terminal.
pub fn should_enable_color(no_color: Option<&str>, stderr_is_terminal: bool) -> (r: bool)
    ensures
        r == color_enabled(
            match no_color {
                Some(v) => Some(v@),
                None => None,
            },
            stderr_is_terminal,
        ),
{
    if let Some(v) = no_color {
        let c = chars_of(v);
        let t = string_of(trim_chars(&c).as_slice());
        let l = to_lowercase(t.as_str());
        if str_eq(l.as_str(), "true") {
            return false;
        }
    }
    stderr_is_terminal
}

/// A buildpack id with each `/` replaced by `_`, as its layers directory is named.
pub open spec fn escaped_id(id: Seq<char>) -> Seq<char> {
    id.map_values(|c: char| if c == '/' { '_' } else { c })
}

/// The name of the layers directory of a buildpack.
pub fn escape_id(id: &str) -> (r: String)
    ensures
        r@ == escaped_id(id@),
{
    let c = chars_of(id);
    let mut v: Vec<char> = Vec::new();
    let mut i: usize = 0;
    while i < c.len()
        invariant
            i <= c@.len(),
            v@ == escaped_id(c@.take(i as int)),
        decreases c@.len() - i,
    {
        if c[i] == '/' {
            v.push('_');
        } else {
            v.push(c[i]);
        }
        assert(escaped_id(c@.take(i + 1)) =~= escaped_id(c@.take(i as int)).push(
            if c@[i as int] == '/' { '_' } else { c@[i as int] },
        ));
        i = i + 1;
    }
    assert(c@.take(c@.len() as int) =~= c@);
    string_of(&v)
}

/// The warnings for a process type requested through `CNB_PROCESS_TYPE`, which is
/// honoured by no supported Platform API: none unless the launcher runs under its own name
/// (the process name of `argv[0]`, see [`executable_name`]) and the variable is set to
/// something other than white space.
pub open spec fn process_type_warning_texts(
    argv0: Seq<char>,
    process_type: Option<Seq<char>>,
    platform_api: Version,
) -> Seq<Seq<char>> {
    let name = executable_name(argv0);
    match process_type {
        Some(p) => if name == "launcher"@ && trim(p).len() > 0 {
            seq![
                "CNB_PROCESS_TYPE is not supported in Platform API "@ + version_text(platform_api),
                "Run with ENTRYPOINT '"@ + p + "' to invoke the '"@ + p + "' process type"@,
            ]
        } else {
            Seq::<Seq<char>>::empty()
        },
        None => Seq::<Seq<char>>::empty(),
    }
}

/// The warnings to print about `CNB_PROCESS_TYPE`, given `argv[0]` and the variable's value.
pub fn process_type_warnings(argv0: &str, process_type: Option<&str>, platform_api: &Version) -> (r: Vec<String>)
    ensures
        string_views(r@) == process_type_warning_texts(
            argv0@,
            match process_type {
                Some(p) => Some(p@),
                None => None,
            },
            *platform_api,
        ),
{
    let name = process_name_of(argv0);
    let mut r: Vec<String> = Vec::new();
    if !str_eq(name.as_str(), "launcher") {
        return r;
    }
    if let Some(p) = process_type {
        let c = chars_of(p);
        if trim_chars(&c).len() > 0 {
            let mut a: Vec<char> = Vec::new();
            push_str(&mut a, "CNB_PROCESS_TYPE is not supported in Platform API ");
            let t = platform_api.to_text();
            push_str(&mut a, t.as_str());
            let mut b: Vec<char> = Vec::new();
            push_str(&mut b, "Run with ENTRYPOINT '");
            push_str(&mut b, p);
            push_str(&mut b, "' to invoke the '");
            push_str(&mut b, p);
            push_str(&mut b, "' process type");
            r.push(string_of(&a));
            r.push(string_of(&b));
            assert(string_views(r@) =~= process_type_warning_texts(argv0@, Some(p@), *platform_api));
        }
    }
    r
}

} // verus!
