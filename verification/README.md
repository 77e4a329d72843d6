# cnb_launcher

A Cloud Native Buildpacks launcher whose launch-time logic is verified with Verus.

- `src/` is the verified library:
  - `api/`: API versions (parsing, comparison, the compatibility rule) and the Platform
    and Buildpack API checks;
  - `launch.rs`: process selection and resolution from the command line and the launch
    metadata;
  - `env.rs`, `exec_d.rs`: the launch environment (host sanitisation, layer search paths,
    env directory files, `exec.d` output);
  - `plan.rs`: the launch sequence (layer order, env directories, `exec.d`, profiles,
    direct or shell launch) that the program performs step by step;
  - `shell.rs`: the Bash script and arguments and the `cmd.exe` command line of an
    indirect launch;
  - `cli.rs`, `exit.rs`: the launcher's errors, exit codes, messages and start-up
    decisions;
  - `text.rs`: the string helpers the rest is written with;
  - `laws.rs`: properties that span several functions.
- `app/` is the program around it: reading the environment, the file system and the
  metadata file, running `exec.d` programs and executing the process.
- `tests/` runs the library on concrete values.
