use cnb_launcher::env::{sort_names, LaunchEnv};
use cnb_launcher::exec_d::{decode_exec_d_output, ExecDError};

fn pairs(items: &[(&str, &str)]) -> Vec<(String, String)> {
    items.iter().map(|(a, b)| (a.to_string(), b.to_string())).collect()
}

fn env_of(items: &[(&str, &str)]) -> LaunchEnv {
    let mut env = LaunchEnv::empty();
    for (k, v) in items {
        env.set(k, v);
    }
    env
}

#[test]
fn test_new_launch_env_purging_and_sanitization() {
    let host = pairs(&[
        ("PATH", "/lifecycle:/process:/usr/bin"),
        ("CNB_APP_DIR", "/workspace"),
        ("FOO", "bar"),
    ]);
    let env = LaunchEnv::from_host(&host, &["/process".to_string(), "/lifecycle".to_string()]);
    assert_eq!(env.get("CNB_APP_DIR"), None);
    assert_eq!(env.get("FOO"), Some("bar".to_string()));
    assert_eq!(env.get("PATH"), Some("/usr/bin".to_string()));
}

#[test]
fn test_new_launch_env_purging_trailing_slashes() {
    let host = pairs(&[("PATH", "/lifecycle/:/process/:/usr/bin")]);
    let env = LaunchEnv::from_host(&host, &["/process".to_string(), "/lifecycle".to_string()]);
    assert_eq!(env.get("PATH"), Some("/usr/bin".to_string()));
}

#[test]
fn launch_env_drops_every_launcher_variable() {
    let host = pairs(&[
        ("CNB_LAYERS_DIR", "/layers"),
        ("CNB_APP_DIR", "/workspace"),
        ("CNB_PROCESS_TYPE", "web"),
        ("CNB_PLATFORM_API", "0.15"),
        ("CNB_DEPRECATION_MODE", "quiet"),
        ("CNB_EXEC_ENV", "test"),
    ]);
    let env = LaunchEnv::from_host(&host, &[]);
    assert_eq!(env.pairs(), pairs(&[("CNB_EXEC_ENV", "test")]));
    assert_eq!(env.get("PATH"), None);
}

#[test]
fn test_add_env_dir_override_and_default() {
    let mut env = env_of(&[("FOO", "original_foo"), ("BAR", "original_bar")]);
    env.apply_env_dir_modifications(&pairs(&[("FOO", "unsuffixed_val"), ("BAR.override", "override_val")]));
    assert_eq!(env.get("FOO").unwrap(), "unsuffixed_val");
    assert_eq!(env.get("BAR").unwrap(), "override_val");

    env.apply_env_dir_modifications(&pairs(&[("FOO.default", "default_val"), ("BAZ.default", "default_val")]));
    assert_eq!(env.get("FOO").unwrap(), "unsuffixed_val");
    assert_eq!(env.get("BAZ").unwrap(), "default_val");
}

#[test]
fn test_add_env_dir_append_and_prepend() {
    let mut env = env_of(&[("PATH", "/usr/bin"), ("VAR", "base")]);
    env.apply_env_dir_modifications(&pairs(&[
        ("PATH.prepend", "/layer/bin"),
        ("VAR.append", "appendage"),
        ("VAR.delim", "-"),
    ]));
    assert_eq!(env.get("PATH").unwrap(), "/layer/bin/usr/bin");
    assert_eq!(env.get("VAR").unwrap(), "base-appendage");
}

#[test]
fn test_apply_env_dir_override_sets_absent_var() {
    let mut env = LaunchEnv::empty();
    env.apply_env_dir_modifications(&pairs(&[("FOO.override", "value")]));
    assert_eq!(env.get("FOO").unwrap(), "value");
}

#[test]
fn test_apply_env_dir_append_without_delim_uses_empty_separator() {
    let mut env = env_of(&[("VAR", "base-value")]);
    env.apply_env_dir_modifications(&pairs(&[("VAR.append", "appended-value")]));
    assert_eq!(env.get("VAR").unwrap(), "base-valueappended-value");
}

#[test]
fn test_apply_env_dir_append_on_absent_var_omits_delimiter() {
    let mut env = LaunchEnv::empty();
    env.apply_env_dir_modifications(&pairs(&[("VAR.append", "value"), ("VAR.delim", ":")]));
    assert_eq!(env.get("VAR").unwrap(), "value");
}

#[test]
fn test_apply_env_dir_prepend_on_absent_var_omits_delimiter() {
    let mut env = LaunchEnv::empty();
    env.apply_env_dir_modifications(&pairs(&[("VAR.prepend", "value"), ("VAR.delim", ":")]));
    assert_eq!(env.get("VAR").unwrap(), "value");
}

#[test]
fn test_apply_env_dir_unknown_suffix_is_ignored() {
    let mut env = LaunchEnv::empty();
    env.apply_env_dir_modifications(&pairs(&[("FOO.invalid_suffix", "value")]));
    assert!(env.pairs().is_empty());
}

#[test]
fn test_apply_env_dir_splits_on_first_dot() {
    let mut env = LaunchEnv::empty();
    env.apply_env_dir_modifications(&pairs(&[("MY.VAR.override", "value")]));
    assert!(env.pairs().is_empty());
}

#[test]
fn test_apply_env_dir_lone_delim_is_a_noop() {
    let mut env = env_of(&[("VAR", "original")]);
    env.apply_env_dir_modifications(&pairs(&[("VAR.delim", ":")]));
    assert_eq!(env.get("VAR").unwrap(), "original");
}

#[test]
fn test_apply_env_dir_append_on_empty_var_omits_delimiter() {
    let mut env = env_of(&[("VAR", "")]);
    env.apply_env_dir_modifications(&pairs(&[("VAR.append", "value"), ("VAR.delim", ":")]));
    assert_eq!(env.get("VAR").unwrap(), "value");
}

#[test]
fn test_apply_env_dir_append_and_prepend_in_same_dir() {
    let mut env = env_of(&[("VAR", "base-value")]);
    env.apply_env_dir_modifications(&pairs(&[
        ("VAR.prepend", "prepended-value"),
        ("VAR.append", "appended-value"),
        ("VAR.delim", ":"),
    ]));
    assert_eq!(env.get("VAR").unwrap(), "prepended-value:base-value:appended-value");
}

#[test]
fn env_files_apply_in_name_order() {
    let mut env = LaunchEnv::empty();
    env.apply_env_dir_modifications(&pairs(&[("X.override", "late"), ("X", "early")]));
    assert_eq!(env.get("X").unwrap(), "late");
    let mut env = LaunchEnv::empty();
    env.apply_env_dir_modifications(&pairs(&[("X.default", "d"), ("X", "plain")]));
    assert_eq!(env.get("X").unwrap(), "plain");
}

#[test]
fn implicit_layer_paths_prepend_or_set() {
    let mut env = env_of(&[("PATH", "/usr/bin")]);
    env.add_implicit_layer_dir_paths(Some("/layers/bp/l/bin"), Some("/layers/bp/l/lib"));
    assert_eq!(env.get("PATH").unwrap(), "/layers/bp/l/bin:/usr/bin");
    assert_eq!(env.get("LD_LIBRARY_PATH").unwrap(), "/layers/bp/l/lib");
    env.add_implicit_layer_dir_paths(None, Some("/x/lib"));
    assert_eq!(env.get("LD_LIBRARY_PATH").unwrap(), "/x/lib:/layers/bp/l/lib");
    assert_eq!(env.get("PATH").unwrap(), "/layers/bp/l/bin:/usr/bin");
}

#[test]
fn layers_prepended_in_reverse_come_out_in_order() {
    let mut env = env_of(&[("PATH", "/usr/bin")]);
    for bin in ["/l/bp1/b/bin", "/l/bp1/a/bin", "/l/bp2/b/bin", "/l/bp2/a/bin"] {
        env.add_implicit_layer_dir_paths(Some(bin), None);
    }
    assert_eq!(
        env.get("PATH").unwrap(),
        "/l/bp2/a/bin:/l/bp2/b/bin:/l/bp1/a/bin:/l/bp1/b/bin:/usr/bin"
    );
    assert_eq!(env.get("LD_LIBRARY_PATH"), None);
}

#[test]
fn set_replaces_and_get_reads_back() {
    let mut env = env_of(&[("A", "1"), ("B", "2")]);
    env.set("A", "3");
    assert_eq!(env.get("A"), Some("3".to_string()));
    assert_eq!(env.get("B"), Some("2".to_string()));
    assert_eq!(env.pairs(), pairs(&[("A", "3"), ("B", "2")]));
}

#[test]
fn exec_d_output_decoding() {
    assert!(decode_exec_d_output("  \n".to_string()).unwrap().is_empty());
    let v = decode_exec_d_output("FOO = \"bar\"\nBAZ = \"qux\"\n".to_string()).unwrap();
    assert_eq!(v, pairs(&[("BAZ", "qux"), ("FOO", "bar")]));
    let e = decode_exec_d_output("this is not toml = =\n".to_string()).err().unwrap();
    assert_eq!(e.output, "this is not toml = =\n");
    let mut env = env_of(&[("FOO", "old"), ("KEEP", "1")]);
    env.set_all(&v);
    assert_eq!(env.get("FOO").unwrap(), "bar");
    assert_eq!(env.get("BAZ").unwrap(), "qux");
    assert_eq!(env.get("KEEP").unwrap(), "1");
}

#[test]
fn names_sort_by_code_point() {
    let names: Vec<String> = ["b.sh", "a.sh", "c.sh", "B", "a-b", "a"].iter().map(|s| s.to_string()).collect();
    assert_eq!(sort_names(&names), vec!["B", "a", "a-b", "a.sh", "b.sh", "c.sh"]);
}

#[test]
fn exec_d_output_blank_and_invalid() {
    assert!(decode_exec_d_output(String::new()).unwrap().is_empty());
    assert!(decode_exec_d_output("\t \r\n".to_string()).unwrap().is_empty());
    assert!(decode_exec_d_output("A = 1\n".to_string()).is_err());
    assert!(decode_exec_d_output("[table]\nA = \"x\"\n".to_string()).is_err());
    let e = decode_exec_d_output("= =".to_string()).err().unwrap();
    assert_eq!(e.output, "= =");
}

#[test]
fn exec_d_error_messages() {
    let failed = ExecDError::ExecutionFailed { path: "/l/exec.d/x".to_string(), status: "7".to_string() };
    assert_eq!(failed.message(), "failed to execute exec.d file at path '/l/exec.d/x': 7");
    let decode = ExecDError::Decode {
        path: "/l/exec.d/x".to_string(),
        error: "bad".to_string(),
        output: "= =".to_string(),
    };
    assert_eq!(decode.message(), "failed to decode output from exec.d file at path '/l/exec.d/x': bad");
    let spawn = ExecDError::Spawn { path: "/p".to_string(), error: "denied".to_string() };
    assert_eq!(spawn.message(), "Failed to spawn exec.d binary '/p': denied");
    assert_eq!(ExecDError::CreatePipe("no pipe".to_string()).message(), "no pipe");
}

#[test]
fn excluded_path_matches_with_trailing_separator() {
    let host = pairs(&[("PATH", "/lifecycle/:/usr/bin://process")]);
    let env = LaunchEnv::from_host(&host, &["/lifecycle".to_string(), "/process".to_string()]);
    assert_eq!(env.get("PATH").unwrap(), "/usr/bin");
}
