//! Process selection: which process type to run (one contributed by a buildpack, or a
//! command given by the user) and how its command, arguments and working directory resolve.
use crate::api::buildpack::{
    buildpack_api_outcome, spec_supported_buildpack_apis, verify_buildpack_api, BuildpackApiError,
};
use crate::api::{parse_version, spec_any_superset, version_lt, Version};
use crate::text::{
    append_strings, chars_of, clone_strings_from, contains_str, push_str, split, split_chars,
    str_eq, string_of, string_views, to_string, trim, views,
};
use vstd::prelude::*;

verus! {

/// A command as the metadata gives it: one string or an array of tokens.
#[derive(Debug, Clone)]
pub enum RawCommand {
    /// A single command string (e.g. `"echo hello"`).
    Single(String),
    /// An array of tokens (e.g. `["echo", "hello"]`).
    Array(Vec<String>),
}

/// A buildpack as the metadata lists it.
#[derive(Debug, Clone)]
pub struct RawBuildpack {
    /// Unique identifier of the buildpack.
    pub id: String,
    /// Buildpack API version claimed by the buildpack.
    pub api: String,
}

/// A process definition as the metadata gives it.
#[derive(Debug, Clone)]
pub struct RawProcess {
    /// The process type identifier (e.g. `"web"`, `"worker"`).
    pub proc_type: String,
    /// The executable command or script.
    pub command: RawCommand,
    /// Optional default arguments.
    pub args: Option<Vec<String>>,
    /// Whether the process runs directly, without a shell.
    pub direct: bool,
    /// Whether this process is the default one.
    pub default: bool,
    /// The ID of the buildpack that contributed this process (empty when absent).
    pub buildpack_id: String,
    /// Custom working directory for the process.
    pub working_dir: Option<String>,
    /// Execution environments the process is restricted to (Platform API 0.15 and later).
    pub exec_env: Option<Vec<String>>,
}

/// The launch metadata: all processes and the buildpacks that built the application.
#[derive(Debug, Clone)]
pub struct RawMetadata {
    /// All processes contributed by buildpacks.
    pub processes: Vec<RawProcess>,
    /// The buildpacks used to build the application.
    pub buildpacks: Vec<RawBuildpack>,
}

/// Errors of process selection and resolution.
#[derive(Debug, PartialEq, Eq, Clone)]
pub enum ProcessSelectionError {
    /// No command was given and no process was selected.
    NoCommandAndNoDefault,
    /// The selected process type is not eligible for the execution environment.
    IneligibleProcess { name: String, exec_env: String },
    /// The default process type is not eligible for the execution environment.
    IneligibleDefault,
    /// The named process type is not eligible.
    IneligibleProcessSimple { name: String },
    /// The buildpack of the resolved process is missing from the metadata.
    BuildpackNotFound { bp_id: String, proc_type: String },
    /// The resolved process has no command entries.
    EmptyCommand { proc_type: String },
    /// The Buildpack API version of the process's buildpack was rejected.
    BuildpackApi(BuildpackApiError),
}

/// A fully resolved process.
#[derive(Debug, Clone, PartialEq, Eq)]
pub struct ResolvedProcess {
    /// The process type identifier (empty for a user-provided command).
    pub proc_type: String,
    /// The command to execute.
    pub command: String,
    /// The final argument list.
    pub args: Vec<String>,
    /// The working directory.
    pub working_directory: String,
    /// Whether the process runs directly (without a shell).
    pub direct: bool,
}

/// The mathematical content of a [`ResolvedProcess`].
pub struct ResolvedProcessView {
    pub proc_type: Seq<char>,
    pub command: Seq<char>,
    pub args: Seq<Seq<char>>,
    pub working_directory: Seq<char>,
    pub direct: bool,
}

impl View for ResolvedProcess {
    type V = ResolvedProcessView;

    open spec fn view(&self) -> ResolvedProcessView {
        ResolvedProcessView {
            proc_type: self.proc_type@,
            command: self.command@,
            args: string_views(self.args@),
            working_directory: self.working_directory@,
            direct: self.direct,
        }
    }
}

/// A process is ineligible when the platform is at 0.15 or later and the process lists
/// execution environments, none of them `*` nor the active one.
pub open spec fn ineligible(raw: RawProcess, platform_api: Version, exec_env: Seq<char>) -> bool {
    &&& !version_lt(platform_api, Version { major: 0, minor: 15 })
    &&& raw.exec_env matches Some(envs)
    &&& envs@.len() > 0
    &&& !string_views(envs@).contains("*"@)
    &&& !string_views(envs@).contains(exec_env)
}

/// The command entries of a raw command.
pub open spec fn command_entries(c: RawCommand) -> Seq<Seq<char>> {
    match c {
        RawCommand::Single(s) => seq![s@],
        RawCommand::Array(a) => string_views(a@),
    }
}

/// The default arguments of a raw process (none when absent).
pub open spec fn default_args(raw: RawProcess) -> Seq<Seq<char>> {
    match raw.args {
        Some(a) => string_views(a@),
        None => Seq::<Seq<char>>::empty(),
    }
}

/// The index of the first buildpack with the given id.
pub open spec fn find_buildpack(bps: Seq<RawBuildpack>, id: Seq<char>) -> Option<int>
    decreases bps.len(),
{
    if bps.len() == 0 {
        None
    } else if bps[0].id@ == id {
        Some(0)
    } else {
        match find_buildpack(bps.drop_first(), id) {
            Some(k) => Some(k + 1),
            None => None,
        }
    }
}

/// The version a buildpack's declared API verifies to, if it is accepted.
pub open spec fn accepted_buildpack_api(api: Seq<char>) -> Option<Version> {
    match parse_version(trim(api)) {
        Ok(v) => if spec_any_superset(v, spec_supported_buildpack_apis()) {
            Some(v)
        } else {
            None
        },
        Err(_) => None,
    }
}

/// The process names a listed buildpack whose API version is rejected.
pub open spec fn buildpack_rejected(raw: RawProcess, bps: Seq<RawBuildpack>) -> bool {
    &&& raw.buildpack_id@.len() > 0
    &&& find_buildpack(bps, raw.buildpack_id@) matches Some(i) && accepted_buildpack_api(
        bps[i].api@,
    ) is None
}

/// Whether user arguments are appended to (rather than replace) the default arguments of a
/// single-entry command: the process names a buildpack that is not listed, or one whose API
/// is older than 0.9.
pub open spec fn buildpack_before_0_9(raw: RawProcess, bps: Seq<RawBuildpack>) -> bool {
    &&& raw.buildpack_id@.len() > 0
    &&& match find_buildpack(bps, raw.buildpack_id@) {
        None => true,
        Some(i) => accepted_buildpack_api(bps[i].api@) matches Some(v) && version_lt(
            v,
            Version { major: 0, minor: 9 },
        ),
    }
}

/// The argument list of a resolved metadata process.
pub open spec fn resolved_args(
    entries: Seq<Seq<char>>,
    defaults: Seq<Seq<char>>,
    user_args: Seq<Seq<char>>,
    platform_api: Version,
    before_0_9: bool,
) -> Seq<Seq<char>> {
    if version_lt(platform_api, Version { major: 0, minor: 10 }) {
        entries.skip(1) + defaults + user_args
    } else if entries.len() > 1 {
        entries.skip(1) + if user_args.len() > 0 {
            user_args
        } else {
            defaults
        }
    } else if user_args.len() == 0 {
        defaults
    } else if before_0_9 {
        defaults + user_args
    } else {
        user_args
    }
}

/// The resolved form of an eligible metadata process whose buildpack is accepted and whose
/// command is not empty.
pub open spec fn resolved_view(
    raw: RawProcess,
    bps: Seq<RawBuildpack>,
    platform_api: Version,
    user_args: Seq<Seq<char>>,
) -> ResolvedProcessView {
    let entries = command_entries(raw.command);
    ResolvedProcessView {
        proc_type: raw.proc_type@,
        command: entries[0],
        args: resolved_args(
            entries,
            default_args(raw),
            user_args,
            platform_api,
            buildpack_before_0_9(raw, bps),
        ),
        working_directory: match raw.working_dir {
            Some(w) => w@,
            None => Seq::<char>::empty(),
        },
        direct: raw.direct,
    }
}

/// The outcome of resolving an eligible metadata process: the buildpack's rejection, an
/// empty command, or the resolved process.
pub open spec fn eligible_outcome(
    raw: RawProcess,
    bps: Seq<RawBuildpack>,
    platform_api: Version,
    user_args: Seq<Seq<char>>,
    r: Result<ResolvedProcessView, ProcessSelectionError>,
) -> bool {
    if buildpack_rejected(raw, bps) {
        let i = find_buildpack(bps, raw.buildpack_id@)->0;
        r matches Err(ProcessSelectionError::BuildpackApi(e)) && buildpack_api_outcome(
            bps[i].id@,
            bps[i].api@,
            Err(e),
        )
    } else if command_entries(raw.command).len() == 0 {
        r matches Err(ProcessSelectionError::EmptyCommand { proc_type }) && proc_type@
            == raw.proc_type@
    } else {
        r == Ok::<ResolvedProcessView, ProcessSelectionError>(
            resolved_view(raw, bps, platform_api, user_args),
        )
    }
}

/// The outcome of resolving a metadata process: `None` where it is ineligible.
pub open spec fn metadata_outcome(
    raw: RawProcess,
    bps: Seq<RawBuildpack>,
    platform_api: Version,
    exec_env: Seq<char>,
    user_args: Seq<Seq<char>>,
    r: Result<Option<ResolvedProcess>, ProcessSelectionError>,
) -> bool {
    if ineligible(raw, platform_api, exec_env) {
        r == Ok::<Option<ResolvedProcess>, ProcessSelectionError>(None)
    } else {
        match r {
            Ok(Some(p)) => eligible_outcome(raw, bps, platform_api, user_args, Ok(p@)),
            Ok(None) => false,
            Err(e) => eligible_outcome(raw, bps, platform_api, user_args, Err(e)),
        }
    }
}

/// The outcome of resolving a command given by the user: a leading `--` (followed by at
/// least a command) makes it direct.
pub open spec fn user_outcome(
    cmd: Seq<Seq<char>>,
    app_dir: Seq<char>,
    r: Result<ResolvedProcess, ProcessSelectionError>,
) -> bool {
    if cmd.len() == 0 {
        r == Err::<ResolvedProcess, ProcessSelectionError>(
            ProcessSelectionError::NoCommandAndNoDefault,
        )
    } else if cmd.len() > 1 && cmd[0] == "--"@ {
        r matches Ok(p) && p@ == (ResolvedProcessView {
            proc_type: Seq::<char>::empty(),
            command: cmd[1],
            args: cmd.skip(2),
            working_directory: app_dir,
            direct: true,
        })
    } else {
        r matches Ok(p) && p@ == (ResolvedProcessView {
            proc_type: Seq::<char>::empty(),
            command: cmd[0],
            args: cmd.skip(1),
            working_directory: app_dir,
            direct: false,
        })
    }
}

proof fn lemma_find_buildpack_skip(bps: Seq<RawBuildpack>, id: Seq<char>, i: int)
    requires
        0 <= i <= bps.len(),
        forall|j: int| 0 <= j < i ==> (#[trigger] bps[j]).id@ != id,
    ensures
        find_buildpack(bps, id) == (match find_buildpack(bps.skip(i), id) {
            Some(k) => Some(k + i),
            None => None::<int>,
        }),
    decreases i,
{
    if i == 0 {
        assert(bps.skip(0) =~= bps);
        match find_buildpack(bps, id) {
            Some(k) => {},
            None => {},
        }
    } else {
        lemma_find_buildpack_skip(bps.drop_first(), id, i - 1);
        assert(bps.drop_first().skip(i - 1) =~= bps.skip(i));
    }
}

/// The index of the first buildpack with the given id.
fn find_buildpack_index(bps: &[RawBuildpack], id: &str) -> (r: Option<usize>)
    ensures
        match r {
            Some(i) => find_buildpack(bps@, id@) == Some(i as int),
            None => find_buildpack(bps@, id@) is None,
        },
        r matches Some(i) ==> i < bps@.len() && bps@[i as int].id@ == id@,
{
    let mut i: usize = 0;
    while i < bps.len()
        invariant
            i <= bps@.len(),
            forall|j: int| 0 <= j < i ==> (#[trigger] bps@[j]).id@ != id@,
        decreases bps@.len() - i,
    {
        if str_eq(bps[i].id.as_str(), id) {
            proof {
                lemma_find_buildpack_skip(bps@, id@, i as int);
                assert(bps@.skip(i as int)[0] == bps@[i as int]);
            }
            return Some(i);
        }
        i = i + 1;
    }
    proof {
        lemma_find_buildpack_skip(bps@, id@, i as int);
        assert(bps@.skip(i as int).len() == 0);
    }
    None
}

impl ResolvedProcess {
    /// Resolves a command given by the user on the command line. A leading `--` marks a
    /// direct process; the working directory is the application directory.
    pub fn from_user(cmd: &[String], app_dir: &str) -> (r: Result<Self, ProcessSelectionError>)
        ensures
            user_outcome(string_views(cmd@), app_dir@, r),
    {
        if cmd.len() == 0 {
            return Err(ProcessSelectionError::NoCommandAndNoDefault);
        }
        let ghost cv = string_views(cmd@);
        assert(cv[0] == cmd@[0]@);
        if cmd.len() > 1 && str_eq(cmd[0].as_str(), "--") {
            assert(cv[1] == cmd@[1]@);
            let args = clone_strings_from(cmd, 2);
            assert(string_views(cmd@.skip(2)) =~= cv.skip(2));
            Ok(
                ResolvedProcess {
                    proc_type: String::new(),
                    command: cmd[1].clone(),
                    args,
                    working_directory: to_string(app_dir),
                    direct: true,
                },
            )
        } else {
            let args = clone_strings_from(cmd, 1);
            assert(string_views(cmd@.skip(1)) =~= cv.skip(1));
            Ok(
                ResolvedProcess {
                    proc_type: String::new(),
                    command: cmd[0].clone(),
                    args,
                    working_directory: to_string(app_dir),
                    direct: false,
                },
            )
        }
    }

    /// Resolves a process definition of the metadata under the active Platform API,
    /// execution environment and user arguments. `Ok(None)` where the process is not
    /// eligible for the execution environment.
    pub fn from_metadata(
        raw: &RawProcess,
        buildpacks: &[RawBuildpack],
        platform_api: &Version,
        exec_env: &str,
        user_args: &[String],
    ) -> (r: Result<Option<Self>, ProcessSelectionError>)
        ensures
            metadata_outcome(*raw, buildpacks@, *platform_api, exec_env@, string_views(user_args@), r),
    {
        // 1. Eligibility (Platform API 0.15 and later)
        if platform_api.major > 0 || platform_api.minor >= 15 {
            if let Some(envs) = &raw.exec_env {
                if envs.len() > 0 && !contains_str(envs, "*") && !contains_str(envs, exec_env) {
                    return Ok(None);
                }
            }
        }
        // 2. The process's buildpack and its API
        let before_0_9 = if raw.buildpack_id.as_str().is_empty() {
            false
        } else {
            match find_buildpack_index(buildpacks, raw.buildpack_id.as_str()) {
                None => true,
                Some(i) => match verify_buildpack_api(
                    buildpacks[i].id.as_str(),
                    buildpacks[i].api.as_str(),
                ) {
                    Ok(v) => v.major == 0 && v.minor < 9,
                    Err(e) => return Err(ProcessSelectionError::BuildpackApi(e)),
                },
            }
        };
        assert(before_0_9 == buildpack_before_0_9(*raw, buildpacks@));
        // 3. Command and arguments
        let mut entries: Vec<String> = Vec::new();
        match &raw.command {
            RawCommand::Single(c) => {
                entries.push(c.clone());
                assert(string_views(entries@) =~= seq![c@]);
            },
            RawCommand::Array(a) => {
                append_strings(&mut entries, a.as_slice(), 0);
                assert(a@.skip(0) =~= a@);
                assert(string_views(Seq::<String>::empty()) + string_views(a@) =~= string_views(a@));
            },
        }
        let ghost entries_v = command_entries(raw.command);
        assert(string_views(entries@) == entries_v);
        if entries.len() == 0 {
            return Err(ProcessSelectionError::EmptyCommand { proc_type: raw.proc_type.clone() });
        }
        assert(entries_v[0] == entries@[0]@);
        let command = entries[0].clone();
        let mut defaults: Vec<String> = Vec::new();
        if let Some(a) = &raw.args {
            append_strings(&mut defaults, a.as_slice(), 0);
            assert(a@.skip(0) =~= a@);
        }
        assert(string_views(defaults@) =~= default_args(*raw));
        let ghost user_v = string_views(user_args@);
        assert(user_args@.skip(0) =~= user_args@);
        assert(string_views(entries@.skip(1)) =~= entries_v.skip(1));
        let mut args: Vec<String> = Vec::new();
        assert(string_views(args@) =~= Seq::<Seq<char>>::empty());
        if platform_api.major == 0 && platform_api.minor < 10 {
            append_strings(&mut args, entries.as_slice(), 1);
            append_strings(&mut args, defaults.as_slice(), 0);
            append_strings(&mut args, user_args, 0);
            assert(defaults@.skip(0) =~= defaults@);
        } else if entries.len() > 1 {
            append_strings(&mut args, entries.as_slice(), 1);
            if user_args.len() > 0 {
                append_strings(&mut args, user_args, 0);
            } else {
                append_strings(&mut args, defaults.as_slice(), 0);
                assert(defaults@.skip(0) =~= defaults@);
            }
        } else if user_args.len() == 0 {
            append_strings(&mut args, defaults.as_slice(), 0);
            assert(defaults@.skip(0) =~= defaults@);
        } else if before_0_9 {
            append_strings(&mut args, defaults.as_slice(), 0);
            append_strings(&mut args, user_args, 0);
            assert(defaults@.skip(0) =~= defaults@);
        } else {
            append_strings(&mut args, user_args, 0);
        }
        assert(string_views(args@) =~= resolved_args(
            entries_v,
            default_args(*raw),
            user_v,
            *platform_api,
            before_0_9,
        ));
        let working_directory = match &raw.working_dir {
            Some(w) => w.clone(),
            None => String::new(),
        };
        let p = ResolvedProcess {
            proc_type: raw.proc_type.clone(),
            command,
            args,
            working_directory,
            direct: raw.direct,
        };
        assert(p@ == resolved_view(*raw, buildpacks@, *platform_api, user_v));
        Ok(Some(p))
    }
}


/// The last segment of a path split on `/` that is neither empty nor `.`.
pub open spec fn last_normal_segment(segs: Seq<Seq<char>>) -> Option<Seq<char>>
    decreases segs.len(),
{
    if segs.len() == 0 {
        None
    } else if segs.last().len() == 0 || segs.last() == "."@ {
        last_normal_segment(segs.drop_last())
    } else {
        Some(segs.last())
    }
}

/// The final component of a `/`-separated path, as `Path::file_name` gives it on Unix:
/// none where the path has no normal component or ends in `..`.
pub open spec fn path_file_name(p: Seq<char>) -> Option<Seq<char>> {
    match last_normal_segment(split(p, '/')) {
        Some(s) => if s == ".."@ {
            None
        } else {
            Some(s)
        },
        None => None,
    }
}

/// A path whose components every platform reads alike: it holds no `\` and no `:`, and
/// does not begin with `//`, so it has no Windows prefix and only `/` separates components.
pub open spec fn plain_path(p: Seq<char>) -> bool {
    &&& !p.contains('\\')
    &&& !p.contains(':')
    &&& !(p.len() >= 2 && p[0] == '/' && p[1] == '/')
}

/// The final component of a path, as `Path::file_name` gives it on the target platform.
pub uninterp spec fn os_file_name(p: Seq<char>) -> Option<Seq<char>>;

/// Calls `Path::file_name` on `Path::new(p)` and converts the name to a `String` (the text
/// is valid UTF-8, so nothing is lost). Claimed of it: the result is `os_file_name` of the
/// text, so it depends on the text alone; and for a [`plain_path`], whose components are
/// the `/`-separated pieces on every platform, it is [`path_file_name`].
#[verifier::external_body]
fn os_path_file_name(p: &str) -> (r: Option<String>)
    ensures
        match r {
            Some(s) => os_file_name(p@) == Some(s@),
            None => os_file_name(p@) is None,
        },
        plain_path(p@) ==> match r {
            Some(s) => path_file_name(p@) == Some(s@),
            None => path_file_name(p@) is None,
        },
{
    std::path::Path::new(p).file_name().map(|s| s.to_string_lossy().into_owned())
}

/// Whether a character separates path components on the target platform, as
/// `std::path::is_separator` says.
pub uninterp spec fn platform_separator(c: char) -> bool;

/// Calls `std::path::is_separator`. Claimed of it: the result is `platform_separator` of
/// the character, and `/` is a separator (as its documentation shows).
#[verifier::external_body]
fn path_is_separator(c: char) -> (r: bool)
    ensures
        r == platform_separator(c),
        c == '/' ==> r,
{
    std::path::is_separator(c)
}

/// The file name of a path: [`path_file_name`] for a [`plain_path`], and what
/// `Path::file_name` gives on the target platform otherwise.
pub open spec fn file_name_of(p: Seq<char>) -> Option<Seq<char>> {
    if plain_path(p) {
        path_file_name(p)
    } else {
        os_file_name(p)
    }
}

/// Whether the executables of the target platform end in `.exe`: where `\` separates
/// path components (Windows).
pub open spec fn exe_platform() -> bool {
    platform_separator('\\')
}

/// A name without its `.exe` suffix, on a platform whose executables have one.
pub open spec fn without_exe(name: Seq<char>) -> Seq<char> {
    if exe_platform() && name.len() >= 4 && name.skip(name.len() - 4) == ".exe"@ {
        name.take(name.len() - 4)
    } else {
        name
    }
}

/// The process name an executable path stands for: its file name (`launcher` where it has
/// none), without `.exe` on Windows.
pub open spec fn executable_name(argv0: Seq<char>) -> Seq<char> {
    without_exe(
        match file_name_of(argv0) {
            Some(n) => n,
            None => "launcher"@,
        },
    )
}

/// The process name an executable path stands for: its file name (`launcher` where it has
/// none), without `.exe` on Windows.
pub fn process_name_of(argv0: &str) -> (r: String)
    ensures
        r@ == executable_name(argv0@),
{
    let name = match os_path_file_name(argv0) {
        Some(n) => n,
        None => String::from_str("launcher"),
    };
    let c = chars_of(name.as_str());
    let ext = chars_of(".exe");
    if c.len() >= 4 && path_is_separator('\\') {
        let tail = crate::text::slice_chars(&c, c.len() - 4, c.len());
        if crate::text::chars_eq(&tail, &ext) {
            assert(c@.subrange(c@.len() - 4, c@.len() as int) =~= c@.skip(c@.len() - 4));
            let head = crate::text::slice_chars(&c, 0, c.len() - 4);
            assert(c@.subrange(0, c@.len() - 4) =~= c@.take(c@.len() - 4));
            return string_of(&head);
        }
        assert(c@.subrange(c@.len() - 4, c@.len() as int) =~= c@.skip(c@.len() - 4));
    }
    name
}

/// The name under which the launcher was invoked: the process name of `argv[0]`, or
/// `launcher` where there is no `argv[0]`.
pub open spec fn invoked_name(args: Seq<Seq<char>>) -> Seq<char> {
    executable_name(
        if args.len() > 0 {
            args[0]
        } else {
            "launcher"@
        },
    )
}

/// The arguments after `argv[0]`.
pub open spec fn arguments_after_argv0(args: Seq<Seq<char>>) -> Seq<Seq<char>> {
    if args.len() > 1 {
        args.skip(1)
    } else {
        Seq::<Seq<char>>::empty()
    }
}

/// The index of the first process of type `name` that is eligible.
pub open spec fn find_eligible(
    procs: Seq<RawProcess>,
    name: Seq<char>,
    platform_api: Version,
    exec_env: Seq<char>,
) -> Option<int>
    decreases procs.len(),
{
    if procs.len() == 0 {
        None
    } else if procs[0].proc_type@ == name && !ineligible(procs[0], platform_api, exec_env) {
        Some(0)
    } else {
        match find_eligible(procs.drop_first(), name, platform_api, exec_env) {
            Some(k) => Some(k + 1),
            None => None,
        }
    }
}

/// A resolved process whose working directory falls back to the application directory.
pub open spec fn with_app_dir(v: ResolvedProcessView, app_dir: Seq<char>) -> ResolvedProcessView {
    if v.working_directory.len() == 0 {
        ResolvedProcessView { working_directory: app_dir, ..v }
    } else {
        v
    }
}

/// Whether some process of the metadata has type `name`.
pub open spec fn has_process(procs: Seq<RawProcess>, name: Seq<char>) -> bool {
    exists|i: int| 0 <= i < procs.len() && (#[trigger] procs[i]).proc_type@ == name
}

/// The outcome of running the process type `name` with `user` as its arguments, where
/// processes of that type exist: the first eligible one is resolved, its working directory
/// falling back to the application directory; where none is eligible,
/// `IneligibleProcess`.
pub open spec fn named_outcome(
    metadata: RawMetadata,
    name: Seq<char>,
    user: Seq<Seq<char>>,
    platform_api: Version,
    exec_env: Seq<char>,
    app_dir: Seq<char>,
    r: Result<ResolvedProcess, ProcessSelectionError>,
) -> bool {
    let procs = metadata.processes@;
    let bps = metadata.buildpacks@;
    match find_eligible(procs, name, platform_api, exec_env) {
        Some(i) => match r {
            Ok(p) => {
                &&& eligible_outcome(
                    procs[i],
                    bps,
                    platform_api,
                    user,
                    Ok(resolved_view(procs[i], bps, platform_api, user)),
                )
                &&& p@ == with_app_dir(resolved_view(procs[i], bps, platform_api, user), app_dir)
            },
            Err(e) => eligible_outcome(procs[i], bps, platform_api, user, Err(e)),
        },
        None => r matches Err(ProcessSelectionError::IneligibleProcess { name: n, exec_env: x })
            && n@ == name && x@ == exec_env,
    }
}

/// The outcome of process selection:
/// 1. where processes have the invoked name as type (e.g. through a symlink), that process
///    type runs with the remaining arguments (see [`named_outcome`]);
/// 2. otherwise, with no further arguments, `NoCommandAndNoDefault`;
/// 3. otherwise, where processes have the first further argument as type, that process
///    type runs with the arguments after it;
/// 4. otherwise the further arguments are a user-provided command.
pub open spec fn select_outcome(
    args: Seq<Seq<char>>,
    metadata: RawMetadata,
    platform_api: Version,
    exec_env: Seq<char>,
    app_dir: Seq<char>,
    r: Result<ResolvedProcess, ProcessSelectionError>,
) -> bool {
    let name = invoked_name(args);
    let user = arguments_after_argv0(args);
    let procs = metadata.processes@;
    if has_process(procs, name) {
        named_outcome(metadata, name, user, platform_api, exec_env, app_dir, r)
    } else if user.len() == 0 {
        r == Err::<ResolvedProcess, ProcessSelectionError>(
            ProcessSelectionError::NoCommandAndNoDefault,
        )
    } else if has_process(procs, user[0]) {
        named_outcome(metadata, user[0], user.skip(1), platform_api, exec_env, app_dir, r)
    } else {
        user_outcome(user, app_dir, r)
    }
}

/// Routes the command line and the metadata to the process to run.
pub struct ProcessSelector<'a> {
    /// The command-line arguments of the launcher, `argv[0]` included.
    pub args: &'a [String],
    /// The processes and buildpacks of the metadata.
    pub metadata: &'a RawMetadata,
    /// The active Platform API version.
    pub platform_api: &'a Version,
    /// The execution environment (e.g. `"production"`, `"test"`).
    pub exec_env: &'a str,
    /// The application directory.
    pub app_dir: &'a str,
}

proof fn lemma_find_eligible_skip(
    procs: Seq<RawProcess>,
    name: Seq<char>,
    platform_api: Version,
    exec_env: Seq<char>,
    i: int,
)
    requires
        0 <= i <= procs.len(),
        forall|j: int|
            0 <= j < i ==> !((#[trigger] procs[j]).proc_type@ == name && !ineligible(
                procs[j],
                platform_api,
                exec_env,
            )),
    ensures
        find_eligible(procs, name, platform_api, exec_env) == (match find_eligible(
            procs.skip(i),
            name,
            platform_api,
            exec_env,
        ) {
            Some(k) => Some(k + i),
            None => None::<int>,
        }),
    decreases i,
{
    if i == 0 {
        assert(procs.skip(0) =~= procs);
        match find_eligible(procs, name, platform_api, exec_env) {
            Some(k) => {},
            None => {},
        }
    } else {
        lemma_find_eligible_skip(procs.drop_first(), name, platform_api, exec_env, i - 1);
        assert(procs.drop_first().skip(i - 1) =~= procs.skip(i));
    }
}

impl<'a> ProcessSelector<'a> {
    /// Runs the process type `name` with `user_args` as its arguments; `None` where no
    /// process has that type.
    fn select_named(&self, name: &String, user_args: &[String]) -> (r: Option<
        Result<ResolvedProcess, ProcessSelectionError>,
    >)
        ensures
            match r {
                None => !has_process(self.metadata.processes@, name@),
                Some(res) => has_process(self.metadata.processes@, name@) && named_outcome(
                    *self.metadata,
                    name@,
                    string_views(user_args@),
                    *self.platform_api,
                    self.exec_env@,
                    self.app_dir@,
                    res,
                ),
            },
    {
        let procs = &self.metadata.processes;
        let ghost pv = procs@;
        let mut named = false;
        let mut i: usize = 0;
        while i < procs.len()
            invariant
                i <= pv.len(),
                pv == self.metadata.processes@,
                procs@ == pv,
                forall|j: int|
                    0 <= j < i ==> !((#[trigger] pv[j]).proc_type@ == name@ && !ineligible(
                        pv[j],
                        *self.platform_api,
                        self.exec_env@,
                    )),
                named == (exists|j: int| 0 <= j < i && (#[trigger] pv[j]).proc_type@ == name@),
            decreases pv.len() - i,
        {
            if str_eq(procs[i].proc_type.as_str(), name.as_str()) {
                named = true;
                let res = ResolvedProcess::from_metadata(
                    &procs[i],
                    self.metadata.buildpacks.as_slice(),
                    self.platform_api,
                    self.exec_env,
                    user_args,
                );
                match res {
                    Ok(None) => {},
                    Ok(Some(p)) => {
                        proof {
                            lemma_find_eligible_skip(
                                pv,
                                name@,
                                *self.platform_api,
                                self.exec_env@,
                                i as int,
                            );
                            assert(pv.skip(i as int)[0] == pv[i as int]);
                        }
                        let mut p = p;
                        if p.working_directory.as_str().is_empty() {
                            p.working_directory = to_string(self.app_dir);
                        }
                        return Some(Ok(p));
                    },
                    Err(e) => {
                        proof {
                            lemma_find_eligible_skip(
                                pv,
                                name@,
                                *self.platform_api,
                                self.exec_env@,
                                i as int,
                            );
                            assert(pv.skip(i as int)[0] == pv[i as int]);
                        }
                        return Some(Err(e));
                    },
                }
            }
            i = i + 1;
        }
        proof {
            lemma_find_eligible_skip(pv, name@, *self.platform_api, self.exec_env@, i as int);
            assert(pv.skip(i as int).len() == 0);
        }
        if named {
            Some(
                Err(
                    ProcessSelectionError::IneligibleProcess {
                        name: name.clone(),
                        exec_env: to_string(self.exec_env),
                    },
                ),
            )
        } else {
            None
        }
    }

    /// Selects and resolves the process to execute (see [`select_outcome`]).
    pub fn select(self) -> (r: Result<ResolvedProcess, ProcessSelectionError>)
        ensures
            select_outcome(
                string_views(self.args@),
                *self.metadata,
                *self.platform_api,
                self.exec_env@,
                self.app_dir@,
                r,
            ),
    {
        let ghost args_v = string_views(self.args@);
        let argv0: String = if self.args.len() > 0 {
            assert(args_v[0] == self.args@[0]@);
            self.args[0].clone()
        } else {
            String::from_str("launcher")
        };
        let name = process_name_of(argv0.as_str());
        assert(name@ == invoked_name(args_v));
        let user_args: Vec<String> = if self.args.len() > 1 {
            clone_strings_from(self.args, 1)
        } else {
            Vec::new()
        };
        assert(string_views(user_args@) =~= arguments_after_argv0(args_v)) by {
            if self.args@.len() > 1 {
                assert(string_views(self.args@.skip(1)) =~= args_v.skip(1));
            }
        }
        if let Some(res) = self.select_named(&name, user_args.as_slice()) {
            return res;
        }
        if user_args.len() == 0 {
            return Err(ProcessSelectionError::NoCommandAndNoDefault);
        }
        let rest = clone_strings_from(user_args.as_slice(), 1);
        assert(string_views(user_args@.skip(1)) =~= string_views(user_args@).skip(1));
        assert(string_views(user_args@)[0] == user_args@[0]@);
        if let Some(res) = self.select_named(&user_args[0], rest.as_slice()) {
            return res;
        }
        ResolvedProcess::from_user(user_args.as_slice(), self.app_dir)
    }
}


impl ResolvedProcess {
    /// The directory a direct launch changes to: the working directory, or `.` where it is
    /// empty.
    pub fn launch_directory(&self) -> (r: String)
        ensures
            r@ == if self.working_directory@.len() == 0 {
                "."@
            } else {
                self.working_directory@
            },
    {
        if self.working_directory.as_str().is_empty() {
            String::from_str(".")
        } else {
            self.working_directory.clone()
        }
    }
}

/// The text of a selection error, as `Display` writes it.
pub open spec fn selection_error_text(e: ProcessSelectionError) -> Seq<char> {
    match e {
        ProcessSelectionError::NoCommandAndNoDefault =>
            "determine start command: when there is no default process a command is required"@,
        ProcessSelectionError::IneligibleProcess { name, exec_env } =>
            "process type '"@ + name@ + "' is not eligible for execution environment '"@ + exec_env@
                + "'"@,
        ProcessSelectionError::IneligibleDefault =>
            "Default process is not eligible for execution environment"@,
        ProcessSelectionError::IneligibleProcessSimple { name } =>
            "Process type '"@ + name@ + "' is not eligible"@,
        ProcessSelectionError::BuildpackNotFound { bp_id, proc_type } =>
            "Buildpack '"@ + bp_id@ + "' not found in metadata for process '"@ + proc_type@ + "'"@,
        ProcessSelectionError::EmptyCommand { proc_type } =>
            "Command entries list is empty for process '"@ + proc_type@ + "'"@,
        ProcessSelectionError::BuildpackApi(e) => crate::api::buildpack::buildpack_error_text(e),
    }
}

impl ProcessSelectionError {
    /// The text of the error, as `Display` writes it.
    pub fn message(&self) -> (r: String)
        ensures
            r@ == selection_error_text(*self),
    {
        let mut v: Vec<char> = Vec::new();
        match self {
            ProcessSelectionError::NoCommandAndNoDefault => {
                push_str(
                    &mut v,
                    "determine start command: when there is no default process a command is required",
                );
            },
            ProcessSelectionError::IneligibleProcess { name, exec_env } => {
                push_str(&mut v, "process type '");
                push_str(&mut v, name.as_str());
                push_str(&mut v, "' is not eligible for execution environment '");
                push_str(&mut v, exec_env.as_str());
                push_str(&mut v, "'");
            },
            ProcessSelectionError::IneligibleDefault => {
                push_str(&mut v, "Default process is not eligible for execution environment");
            },
            ProcessSelectionError::IneligibleProcessSimple { name } => {
                push_str(&mut v, "Process type '");
                push_str(&mut v, name.as_str());
                push_str(&mut v, "' is not eligible");
            },
            ProcessSelectionError::BuildpackNotFound { bp_id, proc_type } => {
                push_str(&mut v, "Buildpack '");
                push_str(&mut v, bp_id.as_str());
                push_str(&mut v, "' not found in metadata for process '");
                push_str(&mut v, proc_type.as_str());
                push_str(&mut v, "'");
            },
            ProcessSelectionError::EmptyCommand { proc_type } => {
                push_str(&mut v, "Command entries list is empty for process '");
                push_str(&mut v, proc_type.as_str());
                push_str(&mut v, "'");
            },
            ProcessSelectionError::BuildpackApi(e) => {
                return e.message();
            },
        }
        string_of(&v)
    }
}

} // verus!
