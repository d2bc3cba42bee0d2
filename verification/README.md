# project_build

Project detection and local build orchestration for a desktop deploy tool,
written in Verus.

- `src/` is the verified library:
  - `text.rs`: character-level string operations (trim, search, split,
    lines, ordering) with their specifications;
  - `json.rs`: JSON values as plain data, their parsing (through
    serde_json) and the lookups made in `package.json`;
  - `project_detection.rs`: framework, package manager, build command and
    output directory of a project, from a probe of its directory;
  - `monorepo.rs`: workspace globs, glob matching and the selection of
    deployable packages;
  - `abort.rs`: the table of abort flags of running builds, one flag per
    registration, named by its task id until the build takes it out;
  - `execution.rs`: the build as a state machine (inspect paths, run the
    precheck, build, install-and-retry, resolve the artifact), command polling
    decisions and the command search path (paths are Unix paths, joined
    with `/`);
  - `version.rs`: the order of installed node versions, newest first by
    their numeric components.
- `app/` holds what touches the machine: Tauri commands, the file system,
  shell processes and process groups, and the process-wide abort table.
- `tests/` exercises the library on concrete inputs.
