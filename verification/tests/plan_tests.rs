use cnb_launcher::plan::{launch_plan, LaunchStep};

fn layers(items: &[(&str, &[&str])]) -> Vec<(String, Vec<String>)> {
    items
        .iter()
        .map(|(id, ls)| (id.to_string(), ls.iter().map(|l| l.to_string()).collect()))
        .collect()
}

fn root(p: &str) -> LaunchStep {
    LaunchStep::AddRootDir { layer: p.to_string() }
}

fn env_dir(p: &str) -> LaunchStep {
    LaunchStep::ApplyEnvDir { dir: p.to_string() }
}

fn exec_d(p: &str) -> LaunchStep {
    LaunchStep::RunExecD { dir: p.to_string() }
}

fn profiles(p: &str) -> LaunchStep {
    LaunchStep::CollectProfiles { dir: p.to_string() }
}

#[test]
fn launch_plan_orders_layers_and_phases() {
    let bps = layers(&[("org/one", &["b", "a"]), ("two", &["x"])]);
    let plan = launch_plan(&bps, "/layers", "web", false);
    assert_eq!(
        plan,
        vec![
            root("/layers/org_one/b"),
            root("/layers/org_one/a"),
            env_dir("/layers/org_one/a/env"),
            env_dir("/layers/org_one/a/env.launch"),
            env_dir("/layers/org_one/a/env.launch/web"),
            env_dir("/layers/org_one/b/env"),
            env_dir("/layers/org_one/b/env.launch"),
            env_dir("/layers/org_one/b/env.launch/web"),
            root("/layers/two/x"),
            env_dir("/layers/two/x/env"),
            env_dir("/layers/two/x/env.launch"),
            env_dir("/layers/two/x/env.launch/web"),
            exec_d("/layers/org_one/a/exec.d"),
            exec_d("/layers/org_one/a/exec.d/web"),
            exec_d("/layers/org_one/b/exec.d"),
            exec_d("/layers/org_one/b/exec.d/web"),
            exec_d("/layers/two/x/exec.d"),
            exec_d("/layers/two/x/exec.d/web"),
            profiles("/layers/org_one/a/profile.d"),
            profiles("/layers/org_one/a/profile.d/web"),
            profiles("/layers/org_one/b/profile.d"),
            profiles("/layers/org_one/b/profile.d/web"),
            profiles("/layers/two/x/profile.d"),
            profiles("/layers/two/x/profile.d/web"),
            LaunchStep::AddAppProfile,
            LaunchStep::LaunchShell,
        ]
    );
}

#[test]
fn direct_launch_plan_without_process_type() {
    let bps = layers(&[("bp", &["l"])]);
    let plan = launch_plan(&bps, "/layers", "", true);
    assert_eq!(
        plan,
        vec![
            root("/layers/bp/l"),
            env_dir("/layers/bp/l/env"),
            env_dir("/layers/bp/l/env.launch"),
            exec_d("/layers/bp/l/exec.d"),
            LaunchStep::LaunchDirect,
        ]
    );
    assert_eq!(launch_plan(&[], "/layers", "", true), vec![LaunchStep::LaunchDirect]);
}
