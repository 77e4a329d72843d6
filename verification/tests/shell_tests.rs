use cnb_launcher::launch::ResolvedProcess;
use cnb_launcher::shell::{bash_command_with_tokens, escape_msvc_arg, ShellProcess};
use std::collections::HashMap;

#[test]
fn test_bash_command_with_tokens() {
    assert_eq!(bash_command_with_tokens(1), "exec bash -c '\"$(eval echo \\\"$0\\\")\"' \"${@:1}\"");
    assert_eq!(
        bash_command_with_tokens(3),
        "exec bash -c '\"$(eval echo \\\"$0\\\")\" \"$(eval echo \\\"${1}\\\")\" \"$(eval echo \\\"${2}\\\")\"' \"${@:1}\""
    );
}

#[test]
fn test_escape_msvc_arg() {
    assert_eq!(escape_msvc_arg(""), "\"\"");
    assert_eq!(escape_msvc_arg("simple"), "simple");
    assert_eq!(escape_msvc_arg("space arg"), "\"space arg\"");
    assert_eq!(escape_msvc_arg("arg&with&specials"), "\"arg&with&specials\"");
    assert_eq!(escape_msvc_arg("a\\b"), "a\\b");
    assert_eq!(escape_msvc_arg("a\\ b"), "\"a\\ b\"");
    assert_eq!(escape_msvc_arg("a\\\\b"), "a\\\\b");
    assert_eq!(escape_msvc_arg("a\\\\ b"), "\"a\\\\ b\"");
    assert_eq!(escape_msvc_arg("a\"b"), "\"a\\\"b\"");
    assert_eq!(escape_msvc_arg("a\\\"b"), "\"a\\\\\\\"b\"");
    assert_eq!(escape_msvc_arg("a\\\\\"b"), "\"a\\\\\\\\\\\"b\"");
    assert_eq!(escape_msvc_arg("a\\"), "a\\");
    assert_eq!(escape_msvc_arg("a\\\\"), "a\\\\");
    assert_eq!(escape_msvc_arg("a \\"), "\"a \\\\\"");
}

#[test]
fn bash_command_with_tokens_n1() {
    assert_eq!(bash_command_with_tokens(1), "exec bash -c '\"$(eval echo \\\"$0\\\")\"' \"${@:1}\"");
}

#[test]
fn bash_command_with_tokens_n3() {
    assert_eq!(
        bash_command_with_tokens(3),
        "exec bash -c '\"$(eval echo \\\"$0\\\")\" \"$(eval echo \\\"${1}\\\")\" \"$(eval echo \\\"${2}\\\")\"' \"${@:1}\""
    );
}

#[test]
fn bash_command_with_tokens_n0() {
    assert_eq!(bash_command_with_tokens(0), "exec bash -c '\"$(eval echo \\\"$0\\\")\"' \"${@:1}\"");
}

#[test]
fn bash_command_with_tokens_many_digits() {
    let s = bash_command_with_tokens(12);
    assert!(s.contains("\"$(eval echo \\\"${10}\\\")\" \"$(eval echo \\\"${11}\\\")\"' \"${@:1}\""));
    assert!(!s.contains("${12}"));
}

#[test]
fn shell_process_struct_builds() {
    let mut env = HashMap::new();
    env.insert("A".to_string(), "1".to_string());
    let p = ShellProcess {
        script: true,
        command: "echo hi".to_string(),
        args: vec![],
        env,
        working_directory: "/app".to_string(),
        profiles: vec!["/p".to_string()],
        caller: "/cnb/lifecycle/launcher".to_string(),
    };
    assert!(p.script);
    assert_eq!(p.env.get("A"), Some(&"1".to_string()));
}

#[test]
fn bash_script_and_arguments() {
    let process = ResolvedProcess {
        proc_type: "web".to_string(),
        command: "node".to_string(),
        args: vec!["a.js".to_string(), "$PORT".to_string()],
        working_directory: "/workspace".to_string(),
        direct: false,
    };
    let p = ShellProcess::for_process(
        &process,
        "launcher".to_string(),
        vec!["/l/profile.d/a.sh".to_string(), "/workspace/.profile".to_string()],
        HashMap::new(),
    );
    assert!(!p.script);
    assert_eq!(
        p.bash_script(),
        "source \"/l/profile.d/a.sh\"\nsource \"/workspace/.profile\"\ncd \"/workspace\"\n".to_string()
            + &bash_command_with_tokens(3)
    );
    let argv = p.bash_arguments();
    assert_eq!(argv[0], "-c");
    assert_eq!(argv[1], p.bash_script());
    assert_eq!(&argv[2..], &["launcher", "node", "a.js", "$PORT"]);

    let script_process = ResolvedProcess { args: vec![], ..process };
    let s = ShellProcess::for_process(&script_process, "launcher".to_string(), vec![], HashMap::new());
    assert!(s.script);
    assert_eq!(s.bash_script(), "cd \"/workspace\"\nexec bash -c \"$@\"");
}

#[test]
fn cmd_command_line_quotes_and_chains() {
    let p = ShellProcess {
        script: false,
        command: "node".to_string(),
        args: vec!["a b".to_string(), "".to_string()],
        caller: "launcher".to_string(),
        profiles: vec!["C:\\p 1.bat".to_string()],
        env: HashMap::new(),
        working_directory: "C:\\app".to_string(),
    };
    assert_eq!(
        p.cmd_command_line(),
        "\"call \"C:\\p 1.bat\" && cd /d C:\\app && node \"a b\" \"\"\""
    );
}
