use cnb_launcher::api::Version;
use cnb_launcher::launch::{
    process_name_of,
    ProcessSelectionError, ProcessSelector, RawBuildpack, RawCommand, RawMetadata, RawProcess,
    ResolvedProcess,
};

#[test]
fn test_from_user_process_selection() {
    let cmd_direct = vec!["--".to_string(), "node".to_string(), "index.js".to_string()];
    let proc_direct = ResolvedProcess::from_user(&cmd_direct, "/workspace").unwrap();
    assert!(proc_direct.direct);
    assert_eq!(proc_direct.command, "node");
    assert_eq!(proc_direct.args, vec!["index.js".to_string()]);

    let cmd_indirect = vec!["node".to_string(), "index.js".to_string()];
    let proc_indirect = ResolvedProcess::from_user(&cmd_indirect, "/workspace").unwrap();
    assert!(!proc_indirect.direct);
    assert_eq!(proc_indirect.command, "node");
    assert_eq!(proc_indirect.args, vec!["index.js".to_string()]);
}

#[test]
fn test_resolve_process_gates() {
    let raw = RawProcess {
        proc_type: "web".to_string(),
        command: RawCommand::Array(vec!["node".to_string(), "server.js".to_string()]),
        args: Some(vec!["--port".to_string(), "8080".to_string()]),
        direct: true,
        default: true,
        buildpack_id: "my-bp".to_string(),
        working_dir: Some("/app".to_string()),
        exec_env: Some(vec!["production".to_string()]),
    };

    let buildpacks = vec![RawBuildpack {
        id: "my-bp".to_string(),
        api: "0.12".to_string(),
    }];

    let plat_15 = Version::new(0, 15);
    let res_eligible =
        ResolvedProcess::from_metadata(&raw, &buildpacks, &plat_15, "production", &[]);
    assert!(res_eligible.unwrap().is_some());

    let res_ineligible =
        ResolvedProcess::from_metadata(&raw, &buildpacks, &plat_15, "test", &[]);
    assert!(res_ineligible.unwrap().is_none());

    let plat_9 = Version::new(0, 9);
    let res_p9 = ResolvedProcess::from_metadata(&raw, &buildpacks, &plat_9, "production", &[])
        .unwrap()
        .unwrap();
    assert_eq!(res_p9.command, "node");
    assert_eq!(res_p9.args, vec!["server.js", "--port", "8080"]);

    let plat_10 = Version::new(0, 10);
    let res_p10 =
        ResolvedProcess::from_metadata(&raw, &buildpacks, &plat_10, "production", &[])
            .unwrap()
            .unwrap();
    assert_eq!(res_p10.command, "node");
    assert_eq!(res_p10.args, vec!["server.js", "--port", "8080"]);
}

#[test]
fn test_resolve_process_args_replacement() {
    let raw = RawProcess {
        proc_type: "web".to_string(),
        command: RawCommand::Single("node".to_string()),
        args: Some(vec!["server.js".to_string()]),
        direct: true,
        default: true,
        buildpack_id: "my-bp".to_string(),
        working_dir: None,
        exec_env: None,
    };

    let bps_old = vec![RawBuildpack {
        id: "my-bp".to_string(),
        api: "0.8".to_string(),
    }];
    let plat = Version::new(0, 10);
    let res_old = ResolvedProcess::from_metadata(
        &raw,
        &bps_old,
        &plat,
        "production",
        &["user-arg".to_string()],
    )
    .unwrap()
    .unwrap();
    assert_eq!(res_old.args, vec!["server.js", "user-arg"]);

    let bps_new = vec![RawBuildpack {
        id: "my-bp".to_string(),
        api: "0.9".to_string(),
    }];
    let res_new = ResolvedProcess::from_metadata(
        &raw,
        &bps_new,
        &plat,
        "production",
        &["user-arg".to_string()],
    )
    .unwrap()
    .unwrap();
    assert_eq!(res_new.args, vec!["user-arg"]);
}

#[test]
fn test_exec_env_matching() {
    let raw_no_env = RawProcess {
        proc_type: "web".to_string(),
        command: RawCommand::Single("node".to_string()),
        args: None,
        direct: true,
        default: true,
        buildpack_id: "my-bp".to_string(),
        working_dir: None,
        exec_env: None,
    };

    let raw_wildcard = RawProcess {
        proc_type: "web".to_string(),
        command: RawCommand::Single("node".to_string()),
        args: None,
        direct: true,
        default: true,
        buildpack_id: "my-bp".to_string(),
        working_dir: None,
        exec_env: Some(vec!["*".to_string()]),
    };

    let raw_prod = RawProcess {
        proc_type: "web".to_string(),
        command: RawCommand::Single("node".to_string()),
        args: None,
        direct: true,
        default: true,
        buildpack_id: "my-bp".to_string(),
        working_dir: None,
        exec_env: Some(vec!["production".to_string()]),
    };

    let buildpacks = vec![RawBuildpack {
        id: "my-bp".to_string(),
        api: "0.12".to_string(),
    }];

    let plat_15 = Version::new(0, 15);

    assert!(
        ResolvedProcess::from_metadata(&raw_no_env, &buildpacks, &plat_15, "test", &[])
            .unwrap()
            .is_some()
    );
    assert!(
        ResolvedProcess::from_metadata(&raw_no_env, &buildpacks, &plat_15, "", &[])
            .unwrap()
            .is_some()
    );

    assert!(
        ResolvedProcess::from_metadata(&raw_wildcard, &buildpacks, &plat_15, "test", &[])
            .unwrap()
            .is_some()
    );
    assert!(
        ResolvedProcess::from_metadata(&raw_wildcard, &buildpacks, &plat_15, "", &[])
            .unwrap()
            .is_some()
    );

    assert!(
        ResolvedProcess::from_metadata(&raw_prod, &buildpacks, &plat_15, "production", &[])
            .unwrap()
            .is_some()
    );
    assert!(
        ResolvedProcess::from_metadata(&raw_prod, &buildpacks, &plat_15, "test", &[])
            .unwrap()
            .is_none()
    );
    assert!(
        ResolvedProcess::from_metadata(&raw_prod, &buildpacks, &plat_15, "", &[])
            .unwrap()
            .is_none()
    );
}

#[test]
fn test_process_selector() {
    let raw_web = RawProcess {
        proc_type: "web".to_string(),
        command: RawCommand::Single("node".to_string()),
        args: Some(vec!["server.js".to_string()]),
        direct: true,
        default: true,
        buildpack_id: "my-bp".to_string(),
        working_dir: None,
        exec_env: None,
    };

    let raw_worker = RawProcess {
        proc_type: "worker".to_string(),
        command: RawCommand::Single("node".to_string()),
        args: Some(vec!["worker.js".to_string()]),
        direct: true,
        default: false,
        buildpack_id: "my-bp".to_string(),
        working_dir: None,
        exec_env: None,
    };

    let metadata = RawMetadata {
        processes: vec![raw_web, raw_worker],
        buildpacks: vec![RawBuildpack {
            id: "my-bp".to_string(),
            api: "0.12".to_string(),
        }],
    };

    let platform_api = Version::new(0, 15);

    let selector = ProcessSelector {
        args: &[
            "/usr/local/bin/worker".to_string(),
            "--flag".to_string(),
        ],
        metadata: &metadata,
        platform_api: &platform_api,
        exec_env: "test",
        app_dir: "/workspace",
    };
    let res = selector.select().unwrap();
    assert_eq!(res.proc_type, "worker");
    assert_eq!(res.args, vec!["--flag".to_string()]);
    assert_eq!(res.working_directory, "/workspace");

    let selector = ProcessSelector {
        args: &["launcher".to_string()],
        metadata: &metadata,
        platform_api: &platform_api,
        exec_env: "test",
        app_dir: "/workspace",
    };
    let err = selector.select().unwrap_err();
    assert!(matches!(err, ProcessSelectionError::NoCommandAndNoDefault));

    let selector = ProcessSelector {
        args: &[
            "launcher".to_string(),
            "python".to_string(),
            "script.py".to_string(),
        ],
        metadata: &metadata,
        platform_api: &platform_api,
        exec_env: "test",
        app_dir: "/workspace",
    };
    let res = selector.select().unwrap();
    assert_eq!(res.command, "python");
    assert_eq!(res.args, vec!["script.py".to_string()]);
    assert_eq!(res.working_directory, "/workspace");
}

fn sv(items: &[&str]) -> Vec<String> {
    items.iter().map(|s| s.to_string()).collect()
}

fn raw_proc(
    proc_type: &str,
    command: RawCommand,
    args: Option<Vec<String>>,
    buildpack_id: &str,
    exec_env: Option<Vec<String>>,
) -> RawProcess {
    RawProcess {
        proc_type: proc_type.to_string(),
        command,
        args,
        direct: false,
        default: false,
        buildpack_id: buildpack_id.to_string(),
        working_dir: None,
        exec_env,
    }
}

#[test]
fn from_user_direct_marker_splits() {
    let cmd = sv(&["--", "node", "index.js", "extra"]);
    let proc = ResolvedProcess::from_user(&cmd, "/workspace").unwrap();
    assert!(proc.direct);
    assert_eq!(proc.command, "node");
    assert_eq!(proc.args, sv(&["index.js", "extra"]));
    assert_eq!(proc.working_directory, "/workspace");
}

#[test]
fn from_user_shell_when_no_marker() {
    let cmd = sv(&["node", "index.js"]);
    let proc = ResolvedProcess::from_user(&cmd, "/workspace").unwrap();
    assert!(!proc.direct);
    assert_eq!(proc.command, "node");
    assert_eq!(proc.args, sv(&["index.js"]));
    assert_eq!(proc.working_directory, "/workspace");
}

#[test]
fn from_metadata_eligible_direct() {
    let raw = RawProcess {
        proc_type: "web".to_string(),
        command: RawCommand::Array(vec!["node".to_string(), "server.js".to_string()]),
        args: Some(sv(&["--port", "8080"])),
        direct: true,
        default: true,
        buildpack_id: "my-bp".to_string(),
        working_dir: Some("/app".to_string()),
        exec_env: Some(sv(&["production"])),
    };
    let bps = vec![RawBuildpack {
        id: "my-bp".to_string(),
        api: "0.12".to_string(),
    }];
    let resolved =
        ResolvedProcess::from_metadata(&raw, &bps, &Version::new(0, 15), "production", &[])
            .unwrap()
            .expect("process should be eligible");
    assert_eq!(resolved.proc_type, "web");
    assert_eq!(resolved.command, "node");
    assert!(resolved.direct);
    assert_eq!(resolved.args, sv(&["server.js", "--port", "8080"]));
    assert_eq!(resolved.working_directory, "/app");
}

#[test]
fn from_metadata_bp_lt09_appends_args() {
    let raw = raw_proc(
        "web",
        RawCommand::Single("node".to_string()),
        Some(sv(&["server.js"])),
        "my-bp",
        None,
    );
    let bps = vec![RawBuildpack {
        id: "my-bp".to_string(),
        api: "0.8".to_string(),
    }];
    let resolved = ResolvedProcess::from_metadata(
        &raw,
        &bps,
        &Version::new(0, 10),
        "production",
        &sv(&["user-arg"]),
    )
    .unwrap()
    .unwrap();
    assert_eq!(resolved.command, "node");
    assert_eq!(resolved.args, sv(&["server.js", "user-arg"]));
}

#[test]
fn from_metadata_bp_ge09_replaces_args() {
    let raw = raw_proc(
        "web",
        RawCommand::Single("node".to_string()),
        Some(sv(&["server.js"])),
        "my-bp",
        None,
    );
    let bps = vec![RawBuildpack {
        id: "my-bp".to_string(),
        api: "0.9".to_string(),
    }];
    let resolved = ResolvedProcess::from_metadata(
        &raw,
        &bps,
        &Version::new(0, 10),
        "production",
        &sv(&["user-arg"]),
    )
    .unwrap()
    .unwrap();
    assert_eq!(resolved.command, "node");
    assert_eq!(resolved.args, sv(&["user-arg"]));
}

#[test]
fn process_working_dir_defaults_appdir() {
    let raw = raw_proc(
        "web",
        RawCommand::Single("node".to_string()),
        None,
        "my-bp",
        None,
    );
    let metadata = RawMetadata {
        processes: vec![raw],
        buildpacks: vec![RawBuildpack {
            id: "my-bp".to_string(),
            api: "0.12".to_string(),
        }],
    };
    let platform_api = Version::new(0, 15);
    let selector = ProcessSelector {
        args: &sv(&["web"]),
        metadata: &metadata,
        platform_api: &platform_api,
        exec_env: "production",
        app_dir: "/workspace",
    };
    let resolved = selector.select().unwrap();
    assert_eq!(resolved.proc_type, "web");
    assert_eq!(resolved.working_directory, "/workspace");
}

#[test]
fn exec_env_specific_match() {
    let raw = raw_proc(
        "prod-only",
        RawCommand::Single("prod-command".to_string()),
        None,
        "my-bp",
        Some(sv(&["production"])),
    );
    let bps = vec![RawBuildpack {
        id: "my-bp".to_string(),
        api: "0.12".to_string(),
    }];
    let resolved =
        ResolvedProcess::from_metadata(&raw, &bps, &Version::new(0, 15), "production", &[])
            .unwrap();
    assert!(resolved.is_some());
    assert_eq!(resolved.unwrap().proc_type, "prod-only");

    let ineligible =
        ResolvedProcess::from_metadata(&raw, &bps, &Version::new(0, 15), "test", &[]).unwrap();
    assert!(ineligible.is_none());
}

#[test]
fn exec_env_no_env_is_wildcard() {
    let raw = raw_proc(
        "web",
        RawCommand::Single("node".to_string()),
        None,
        "my-bp",
        None,
    );
    let bps = vec![RawBuildpack {
        id: "my-bp".to_string(),
        api: "0.12".to_string(),
    }];
    let platform = Version::new(0, 15);
    assert!(
        ResolvedProcess::from_metadata(&raw, &bps, &platform, "test", &[])
            .unwrap()
            .is_some()
    );
    assert!(
        ResolvedProcess::from_metadata(&raw, &bps, &platform, "production", &[])
            .unwrap()
            .is_some()
    );
    assert!(
        ResolvedProcess::from_metadata(&raw, &bps, &platform, "", &[])
            .unwrap()
            .is_some()
    );
}

#[test]
fn single_arg_process_type_lookup() {
    let raw_web = raw_proc(
        "web",
        RawCommand::Single("node".to_string()),
        Some(sv(&["server.js"])),
        "my-bp",
        None,
    );
    let raw_worker = raw_proc(
        "worker",
        RawCommand::Single("node".to_string()),
        Some(sv(&["worker.js"])),
        "my-bp",
        None,
    );
    let metadata = RawMetadata {
        processes: vec![raw_web, raw_worker],
        buildpacks: vec![RawBuildpack {
            id: "my-bp".to_string(),
            api: "0.12".to_string(),
        }],
    };
    let platform_api = Version::new(0, 15);
    let selector = ProcessSelector {
        args: &sv(&["/usr/local/bin/worker", "--flag"]),
        metadata: &metadata,
        platform_api: &platform_api,
        exec_env: "test",
        app_dir: "/workspace",
    };
    let resolved = selector.select().unwrap();
    assert_eq!(resolved.proc_type, "worker");
    assert_eq!(resolved.args, sv(&["--flag"]));
    assert_eq!(resolved.working_directory, "/workspace");
}

#[test]
fn unknown_buildpack_id_treated_as_pre_09() {
    let raw = raw_proc(
        "lonely",
        RawCommand::Single("cmd".to_string()),
        Some(sv(&["a"])),
        "nonexistent",
        None,
    );
    let resolved =
        ResolvedProcess::from_metadata(&raw, &[], &Version::new(0, 15), "", &sv(&["u1"]))
            .unwrap()
            .unwrap();
    assert_eq!(resolved.args, sv(&["a", "u1"]));
}

#[test]
fn exec_env_duplicate_types_picks_first_eligible() {
    let prod = raw_proc(
        "duplicate",
        RawCommand::Single("prod-version".to_string()),
        None,
        "some-buildpack",
        Some(sv(&["production"])),
    );
    let test = raw_proc(
        "duplicate",
        RawCommand::Single("test-version".to_string()),
        None,
        "some-buildpack",
        Some(sv(&["test"])),
    );
    let metadata = RawMetadata {
        processes: vec![prod, test],
        buildpacks: vec![RawBuildpack {
            id: "some-buildpack".to_string(),
            api: "0.8".to_string(),
        }],
    };
    let platform_api = Version::new(0, 15);
    let selector = ProcessSelector {
        args: &sv(&["duplicate"]),
        metadata: &metadata,
        platform_api: &platform_api,
        exec_env: "test",
        app_dir: "/workspace",
    };
    let resolved = selector.select().unwrap();
    assert_eq!(resolved.command, "test-version");
}

#[test]
fn from_user_empty_command_is_an_error() {
    assert_eq!(
        ResolvedProcess::from_user(&[], "/workspace"),
        Err(ProcessSelectionError::NoCommandAndNoDefault)
    );
    let lone_marker = ResolvedProcess::from_user(&sv(&["--"]), "/app").unwrap();
    assert!(!lone_marker.direct);
    assert_eq!(lone_marker.command, "--");
    assert!(lone_marker.args.is_empty());
}

#[test]
fn from_metadata_rejected_buildpack_api_and_empty_command() {
    let raw = raw_proc("web", RawCommand::Single("node".to_string()), None, "old-bp", None);
    let bps = vec![RawBuildpack { id: "old-bp".to_string(), api: "0.3".to_string() }];
    let err = ResolvedProcess::from_metadata(&raw, &bps, &Version::new(0, 15), "", &[]).unwrap_err();
    assert!(matches!(err, ProcessSelectionError::BuildpackApi(_)));
    assert_eq!(
        err.message(),
        "buildpack API version '0.3' is incompatible with the lifecycle for buildpack 'old-bp'"
    );

    let empty = raw_proc("web", RawCommand::Array(vec![]), None, "", None);
    let err = ResolvedProcess::from_metadata(&empty, &[], &Version::new(0, 15), "", &[]).unwrap_err();
    assert_eq!(err, ProcessSelectionError::EmptyCommand { proc_type: "web".to_string() });
    assert_eq!(err.message(), "Command entries list is empty for process 'web'");
}

#[test]
fn from_metadata_platform_before_0_10_appends_everything() {
    let raw = raw_proc(
        "web",
        RawCommand::Array(sv(&["node", "a.js"])),
        Some(sv(&["--d"])),
        "",
        Some(sv(&["production"])),
    );
    let p = ResolvedProcess::from_metadata(&raw, &[], &Version::new(0, 9), "test", &sv(&["u"]))
        .unwrap()
        .unwrap();
    assert_eq!(p.command, "node");
    assert_eq!(p.args, sv(&["a.js", "--d", "u"]));
    assert_eq!(p.working_directory, "");
}

#[test]
fn from_metadata_without_buildpack_id_replaces_args() {
    let raw = raw_proc("web", RawCommand::Single("node".to_string()), Some(sv(&["d"])), "", None);
    let p = ResolvedProcess::from_metadata(&raw, &[], &Version::new(0, 12), "", &sv(&["u"]))
        .unwrap()
        .unwrap();
    assert_eq!(p.args, sv(&["u"]));
}

#[test]
fn selector_reports_ineligible_process() {
    let raw = raw_proc(
        "web",
        RawCommand::Single("node".to_string()),
        None,
        "",
        Some(sv(&["production"])),
    );
    let metadata = RawMetadata { processes: vec![raw], buildpacks: vec![] };
    let platform_api = Version::new(0, 15);
    let selector = ProcessSelector {
        args: &sv(&["/cnb/process/web"]),
        metadata: &metadata,
        platform_api: &platform_api,
        exec_env: "test",
        app_dir: "/workspace",
    };
    let err = selector.select().unwrap_err();
    assert_eq!(
        err,
        ProcessSelectionError::IneligibleProcess { name: "web".to_string(), exec_env: "test".to_string() }
    );
    assert_eq!(err.message(), "process type 'web' is not eligible for execution environment 'test'");
}

#[test]
fn selector_with_no_arguments_at_all() {
    let metadata = RawMetadata { processes: vec![], buildpacks: vec![] };
    let platform_api = Version::new(0, 15);
    let selector = ProcessSelector {
        args: &[],
        metadata: &metadata,
        platform_api: &platform_api,
        exec_env: "production",
        app_dir: "/workspace",
    };
    assert_eq!(selector.select(), Err(ProcessSelectionError::NoCommandAndNoDefault));
}

#[test]
fn selector_keeps_explicit_working_directory() {
    let mut raw = raw_proc("web", RawCommand::Single("node".to_string()), None, "", None);
    raw.working_dir = Some("/srv".to_string());
    let metadata = RawMetadata { processes: vec![raw], buildpacks: vec![] };
    let platform_api = Version::new(0, 15);
    let selector = ProcessSelector {
        args: &sv(&["web/"]),
        metadata: &metadata,
        platform_api: &platform_api,
        exec_env: "production",
        app_dir: "/workspace",
    };
    let p = selector.select().unwrap();
    assert_eq!(p.working_directory, "/srv");
    assert_eq!(p.launch_directory(), "/srv");
    assert_eq!(ResolvedProcess::from_user(&sv(&["x"]), "").unwrap().launch_directory(), ".");
}

#[test]
fn process_names_of_paths() {
    assert_eq!(process_name_of("/usr/local/bin/worker"), "worker");
    assert_eq!(process_name_of("worker/"), "worker");
    assert_eq!(process_name_of("a/./"), "a");
    assert_eq!(process_name_of("a/.."), "launcher");
    assert_eq!(process_name_of("/"), "launcher");
    assert_eq!(process_name_of("."), "launcher");
    assert_eq!(process_name_of(""), "launcher");
    // `.exe` is dropped only where executables carry it (Windows).
    let exe = process_name_of("/cnb/process/web.exe");
    assert!(exe == "web" || exe == "web.exe");
}

#[test]
fn first_argument_naming_a_process_type_selects_it() {
    let raw = raw_proc(
        "web",
        RawCommand::Array(sv(&["node", "server.js"])),
        Some(sv(&["--port", "8080"])),
        "",
        None,
    );
    let metadata = RawMetadata { processes: vec![raw], buildpacks: vec![] };
    let platform_api = Version::new(0, 15);
    let selector = ProcessSelector {
        args: &sv(&["launcher", "web", "--port", "9090"]),
        metadata: &metadata,
        platform_api: &platform_api,
        exec_env: "production",
        app_dir: "/workspace",
    };
    let p = selector.select().unwrap();
    assert_eq!(p.proc_type, "web");
    assert_eq!(p.command, "node");
    assert_eq!(p.args, sv(&["server.js", "--port", "9090"]));
    assert_eq!(p.working_directory, "/workspace");

    let selector = ProcessSelector {
        args: &sv(&["launcher", "web"]),
        metadata: &metadata,
        platform_api: &platform_api,
        exec_env: "production",
        app_dir: "/workspace",
    };
    let p = selector.select().unwrap();
    assert_eq!(p.proc_type, "web");
    assert_eq!(p.args, sv(&["server.js", "--port", "8080"]));
}

#[test]
fn first_argument_naming_an_ineligible_process_type() {
    let raw = raw_proc("web", RawCommand::Single("node".to_string()), None, "", Some(sv(&["production"])));
    let metadata = RawMetadata { processes: vec![raw], buildpacks: vec![] };
    let platform_api = Version::new(0, 15);
    let selector = ProcessSelector {
        args: &sv(&["launcher", "web"]),
        metadata: &metadata,
        platform_api: &platform_api,
        exec_env: "test",
        app_dir: "/workspace",
    };
    assert_eq!(
        selector.select(),
        Err(ProcessSelectionError::IneligibleProcess { name: "web".to_string(), exec_env: "test".to_string() })
    );
}
