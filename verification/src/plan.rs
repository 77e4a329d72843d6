//! The launch sequence: in which order the layers of the buildpacks contribute to the
//! launch environment, run their `exec.d` programs and contribute profiles, and how the
//! process is finally started. The program performs the steps; the order is decided here.
use crate::cli::{escape_id, escaped_id};
use crate::env::{sort_names, sorted_names};
use crate::text::{chars_of, push_str, string_of, string_views};
use vstd::prelude::*;

verus! {

/// One step of the launch sequence. Directories are paths below the layers directory.
#[derive(Debug, Clone, PartialEq, Eq)]
pub enum LaunchStep {
    /// Prepend the layer's `bin` and `lib` directories to `PATH` and `LD_LIBRARY_PATH`.
    AddRootDir { layer: String },
    /// Apply the files of an env directory, if it exists.
    ApplyEnvDir { dir: String },
    /// Run the programs of an `exec.d` directory, if it exists, and set what they output.
    RunExecD { dir: String },
    /// Add the files of a `profile.d` directory, if it exists, to the profiles to source.
    CollectProfiles { dir: String },
    /// Add the application's own profile, if it exists, to the profiles to source.
    AddAppProfile,
    /// Start the process directly, without a shell.
    LaunchDirect,
    /// Start the process through the shell, sourcing the profiles.
    LaunchShell,
}

/// The mathematical content of a [`LaunchStep`].
pub enum StepView {
    AddRootDir(Seq<char>),
    ApplyEnvDir(Seq<char>),
    RunExecD(Seq<char>),
    CollectProfiles(Seq<char>),
    AddAppProfile,
    LaunchDirect,
    LaunchShell,
}

impl View for LaunchStep {
    type V = StepView;

    open spec fn view(&self) -> StepView {
        match self {
            LaunchStep::AddRootDir { layer } => StepView::AddRootDir(layer@),
            LaunchStep::ApplyEnvDir { dir } => StepView::ApplyEnvDir(dir@),
            LaunchStep::RunExecD { dir } => StepView::RunExecD(dir@),
            LaunchStep::CollectProfiles { dir } => StepView::CollectProfiles(dir@),
            LaunchStep::AddAppProfile => StepView::AddAppProfile,
            LaunchStep::LaunchDirect => StepView::LaunchDirect,
            LaunchStep::LaunchShell => StepView::LaunchShell,
        }
    }
}

/// The views of a sequence of steps.
pub open spec fn step_views(s: Seq<LaunchStep>) -> Seq<StepView> {
    s.map_values(|x: LaunchStep| x@)
}

/// The views of the buildpacks' (id, layer names) pairs.
pub open spec fn layer_views(s: Seq<(String, Vec<String>)>) -> Seq<(Seq<char>, Seq<Seq<char>>)> {
    s.map_values(|p: (String, Vec<String>)| (p.0@, string_views(p.1@)))
}

/// The path `a/b`.
pub open spec fn slash(a: Seq<char>, b: Seq<char>) -> Seq<char> {
    a + seq!['/'] + b
}

/// The directory of a buildpack's layers: `<layers_dir>/<escaped id>`.
pub open spec fn buildpack_dir(layers_dir: Seq<char>, id: Seq<char>) -> Seq<char> {
    slash(layers_dir, escaped_id(id))
}

/// The three kinds of per-layer directories.
#[derive(Clone, Copy)]
pub enum Phase {
    /// `env`, `env.launch` and `env.launch/<type>`.
    Env,
    /// `exec.d` and `exec.d/<type>`.
    ExecD,
    /// `profile.d` and `profile.d/<type>`.
    Profile,
}

/// The step for one directory of a phase.
pub open spec fn phase_step(phase: Phase, dir: Seq<char>) -> StepView {
    match phase {
        Phase::Env => StepView::ApplyEnvDir(dir),
        Phase::ExecD => StepView::RunExecD(dir),
        Phase::Profile => StepView::CollectProfiles(dir),
    }
}

/// The steps of `base` and, for a process with a type, of `base/<type>`.
pub open spec fn typed_steps(phase: Phase, base: Seq<char>, proc_type: Seq<char>) -> Seq<StepView> {
    if proc_type.len() == 0 {
        seq![phase_step(phase, base)]
    } else {
        seq![phase_step(phase, base), phase_step(phase, slash(base, proc_type))]
    }
}

/// The steps of one layer in a phase: its env directories (`env`, then `env.launch` and
/// its process-type subdirectory), its `exec.d` directories or its `profile.d` directories.
pub open spec fn layer_phase_steps(phase: Phase, layer: Seq<char>, proc_type: Seq<char>) -> Seq<StepView> {
    match phase {
        Phase::Env => seq![StepView::ApplyEnvDir(slash(layer, "env"@))] + typed_steps(
            phase,
            slash(layer, "env.launch"@),
            proc_type,
        ),
        Phase::ExecD => typed_steps(phase, slash(layer, "exec.d"@), proc_type),
        Phase::Profile => typed_steps(phase, slash(layer, "profile.d"@), proc_type),
    }
}

/// The steps of the layers `layers` of the buildpack directory `dir` in a phase, layers in
/// the given order.
pub open spec fn layers_steps(phase: Phase, dir: Seq<char>, layers: Seq<Seq<char>>, proc_type: Seq<char>) -> Seq<StepView>
    decreases layers.len(),
{
    if layers.len() == 0 {
        Seq::<StepView>::empty()
    } else {
        layers_steps(phase, dir, layers.drop_last(), proc_type) + layer_phase_steps(
            phase,
            slash(dir, layers.last()),
            proc_type,
        )
    }
}

/// The root-directory steps of the layers `layers` of `dir`, last layer first.
pub open spec fn root_steps(dir: Seq<char>, layers: Seq<Seq<char>>) -> Seq<StepView>
    decreases layers.len(),
{
    if layers.len() == 0 {
        Seq::<StepView>::empty()
    } else {
        seq![StepView::AddRootDir(slash(dir, layers.last()))] + root_steps(dir, layers.drop_last())
    }
}

/// The steps of one buildpack in a phase, its layers sorted by name: in the env phase its
/// root directories (in reverse order of name) and then its env directories.
pub open spec fn buildpack_steps(phase: Phase, dir: Seq<char>, layers: Seq<Seq<char>>, proc_type: Seq<char>) -> Seq<StepView> {
    let sorted = sorted_names(layers);
    match phase {
        Phase::Env => root_steps(dir, sorted) + layers_steps(phase, dir, sorted, proc_type),
        _ => layers_steps(phase, dir, sorted, proc_type),
    }
}

/// The steps of a phase over all buildpacks, in order.
pub open spec fn phase_steps(
    phase: Phase,
    layers_dir: Seq<char>,
    bps: Seq<(Seq<char>, Seq<Seq<char>>)>,
    proc_type: Seq<char>,
) -> Seq<StepView>
    decreases bps.len(),
{
    if bps.len() == 0 {
        Seq::<StepView>::empty()
    } else {
        phase_steps(phase, layers_dir, bps.drop_last(), proc_type) + buildpack_steps(
            phase,
            buildpack_dir(layers_dir, bps.last().0),
            bps.last().1,
            proc_type,
        )
    }
}

/// The launch sequence: the env phase over all buildpacks, then their `exec.d` programs,
/// then either a direct launch, or the buildpacks' profiles, the application's profile
/// and a launch through the shell.
pub open spec fn launch_plan_spec(
    layers_dir: Seq<char>,
    bps: Seq<(Seq<char>, Seq<Seq<char>>)>,
    proc_type: Seq<char>,
    direct: bool,
) -> Seq<StepView> {
    phase_steps(Phase::Env, layers_dir, bps, proc_type) + phase_steps(
        Phase::ExecD,
        layers_dir,
        bps,
        proc_type,
    ) + if direct {
        seq![StepView::LaunchDirect]
    } else {
        phase_steps(Phase::Profile, layers_dir, bps, proc_type) + seq![
            StepView::AddAppProfile,
            StepView::LaunchShell,
        ]
    }
}

/// The layer directories whose root directories a sequence of steps adds, in order.
pub open spec fn plan_root_dirs(s: Seq<StepView>) -> Seq<Seq<char>>
    decreases s.len(),
{
    if s.len() == 0 {
        Seq::<Seq<char>>::empty()
    } else {
        match s.last() {
            StepView::AddRootDir(d) => plan_root_dirs(s.drop_last()).push(d),
            _ => plan_root_dirs(s.drop_last()),
        }
    }
}

/// The directories of `layers` below `dir`, in the given order.
pub open spec fn layer_dirs(dir: Seq<char>, layers: Seq<Seq<char>>) -> Seq<Seq<char>> {
    layers.map_values(|l: Seq<char>| slash(dir, l))
}

/// The layer directories in search-path order: the buildpacks from last to first, each
/// one's layers in ascending order of name.
pub open spec fn search_path_order(layers_dir: Seq<char>, bps: Seq<(Seq<char>, Seq<Seq<char>>)>) -> Seq<Seq<char>>
    decreases bps.len(),
{
    if bps.len() == 0 {
        Seq::<Seq<char>>::empty()
    } else {
        layer_dirs(buildpack_dir(layers_dir, bps.last().0), sorted_names(bps.last().1))
            + search_path_order(layers_dir, bps.drop_last())
    }
}

fn slash_path(a: &str, b: &str) -> (r: String)
    ensures
        r@ == slash(a@, b@),
{
    let mut v = chars_of(a);
    v.push('/');
    push_str(&mut v, b);
    string_of(&v)
}

fn push_step(r: &mut Vec<LaunchStep>, s: LaunchStep)
    ensures
        step_views(final(r)@) == step_views(old(r)@).push(s@),
{
    r.push(s);
    assert(step_views(r@) =~= step_views(old(r)@).push(s@));
}

fn phase_launch_step(phase: Phase, dir: String) -> (r: LaunchStep)
    ensures
        r@ == phase_step(phase, dir@),
{
    match phase {
        Phase::Env => LaunchStep::ApplyEnvDir { dir },
        Phase::ExecD => LaunchStep::RunExecD { dir },
        Phase::Profile => LaunchStep::CollectProfiles { dir },
    }
}

fn push_typed(r: &mut Vec<LaunchStep>, phase: Phase, base: &str, proc_type: &str)
    ensures
        step_views(final(r)@) == step_views(old(r)@) + typed_steps(phase, base@, proc_type@),
{
    push_step(r, phase_launch_step(phase, crate::text::to_string(base)));
    if !proc_type.is_empty() {
        push_step(r, phase_launch_step(phase, slash_path(base, proc_type)));
        assert(step_views(r@) =~= step_views(old(r)@) + typed_steps(phase, base@, proc_type@));
    } else {
        assert(step_views(r@) =~= step_views(old(r)@) + typed_steps(phase, base@, proc_type@));
    }
}

fn push_layer(r: &mut Vec<LaunchStep>, phase: Phase, layer: &str, proc_type: &str)
    ensures
        step_views(final(r)@) == step_views(old(r)@) + layer_phase_steps(phase, layer@, proc_type@),
{
    match phase {
        Phase::Env => {
            push_step(r, LaunchStep::ApplyEnvDir { dir: slash_path(layer, "env") });
            let ghost mid = step_views(r@);
            let b = slash_path(layer, "env.launch");
            push_typed(r, phase, b.as_str(), proc_type);
            assert(step_views(r@) =~= step_views(old(r)@) + layer_phase_steps(
                phase,
                layer@,
                proc_type@,
            ));
        },
        Phase::ExecD => {
            let b = slash_path(layer, "exec.d");
            push_typed(r, phase, b.as_str(), proc_type);
        },
        Phase::Profile => {
            let b = slash_path(layer, "profile.d");
            push_typed(r, phase, b.as_str(), proc_type);
        },
    }
}

fn push_buildpack(r: &mut Vec<LaunchStep>, phase: Phase, dir: &str, layers: &[String], proc_type: &str)
    ensures
        step_views(final(r)@) == step_views(old(r)@) + buildpack_steps(
            phase,
            dir@,
            string_views(layers@),
            proc_type@,
        ),
{
    let sorted = sort_names(layers);
    let ghost sv = string_views(sorted@);
    let ghost start = step_views(r@);
    if let Phase::Env = phase {
        let mut roots: Vec<LaunchStep> = Vec::new();
        let mut i: usize = 0;
        while i < sorted.len()
            invariant
                i <= sorted@.len(),
                sv == string_views(sorted@),
                step_views(roots@) == root_steps(dir@, sv.take(i as int)),
            decreases sorted@.len() - i,
        {
            let l = slash_path(dir, sorted[i].as_str());
            let ghost before = roots@;
            roots.insert(0, LaunchStep::AddRootDir { layer: l });
            assert(sv.take(i + 1).drop_last() =~= sv.take(i as int));
            assert(sv.take(i + 1).last() == sorted@[i as int]@);
            assert(step_views(roots@) =~= seq![roots@[0]@] + step_views(before));
            i = i + 1;
        }
        assert(sv.take(sorted@.len() as int) =~= sv);
        let ghost rv = step_views(roots@);
        r.append(&mut roots);
        assert(step_views(r@) =~= start + rv);
    }
    let ghost mid = step_views(r@);
    let mut i: usize = 0;
    while i < sorted.len()
        invariant
            i <= sorted@.len(),
            sv == string_views(sorted@),
            step_views(r@) == mid + layers_steps(phase, dir@, sv.take(i as int), proc_type@),
        decreases sorted@.len() - i,
    {
        let l = slash_path(dir, sorted[i].as_str());
        push_layer(r, phase, l.as_str(), proc_type);
        assert(sv.take(i + 1).drop_last() =~= sv.take(i as int));
        assert(sv.take(i + 1).last() == sorted@[i as int]@);
        assert(step_views(r@) =~= mid + layers_steps(phase, dir@, sv.take(i + 1), proc_type@));
        i = i + 1;
    }
    assert(sv.take(sorted@.len() as int) =~= sv);
    assert(step_views(r@) =~= start + buildpack_steps(phase, dir@, string_views(layers@), proc_type@));
}

fn push_phase(
    r: &mut Vec<LaunchStep>,
    phase: Phase,
    buildpack_layers: &[(String, Vec<String>)],
    layers_dir: &str,
    proc_type: &str,
)
    ensures
        step_views(final(r)@) == step_views(old(r)@) + phase_steps(
            phase,
            layers_dir@,
            layer_views(buildpack_layers@),
            proc_type@,
        ),
{
    let ghost bv = layer_views(buildpack_layers@);
    let ghost start = step_views(r@);
    let mut i: usize = 0;
    while i < buildpack_layers.len()
        invariant
            i <= buildpack_layers@.len(),
            bv == layer_views(buildpack_layers@),
            step_views(r@) == start + phase_steps(phase, layers_dir@, bv.take(i as int), proc_type@),
        decreases buildpack_layers@.len() - i,
    {
        let id = escape_id(buildpack_layers[i].0.as_str());
        let dir = slash_path(layers_dir, id.as_str());
        push_buildpack(r, phase, dir.as_str(), buildpack_layers[i].1.as_slice(), proc_type);
        assert(bv.take(i + 1).drop_last() =~= bv.take(i as int));
        assert(bv.take(i + 1).last() == bv[i as int]);
        assert(step_views(r@) =~= start + phase_steps(phase, layers_dir@, bv.take(i + 1), proc_type@));
        i = i + 1;
    }
    assert(bv.take(buildpack_layers@.len() as int) =~= bv);
}

/// The launch sequence for the buildpacks that have a layers directory, each given as its
/// id and the names of its layer directories (in any order), in metadata order (see
/// [`launch_plan_spec`]).
pub fn launch_plan(
    buildpack_layers: &[(String, Vec<String>)],
    layers_dir: &str,
    proc_type: &str,
    direct: bool,
) -> (r: Vec<LaunchStep>)
    ensures
        step_views(r@) == launch_plan_spec(
            layers_dir@,
            layer_views(buildpack_layers@),
            proc_type@,
            direct,
        ),
{
    let mut r: Vec<LaunchStep> = Vec::new();
    assert(step_views(r@) =~= Seq::<StepView>::empty());
    push_phase(&mut r, Phase::Env, buildpack_layers, layers_dir, proc_type);
    push_phase(&mut r, Phase::ExecD, buildpack_layers, layers_dir, proc_type);
    if direct {
        push_step(&mut r, LaunchStep::LaunchDirect);
    } else {
        push_phase(&mut r, Phase::Profile, buildpack_layers, layers_dir, proc_type);
        push_step(&mut r, LaunchStep::AddAppProfile);
        push_step(&mut r, LaunchStep::LaunchShell);
    }
    assert(step_views(r@) =~= launch_plan_spec(
        layers_dir@,
        layer_views(buildpack_layers@),
        proc_type@,
        direct,
    ));
    r
}

} // verus!
