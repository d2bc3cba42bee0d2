//! The decisions of a local build: which path to inspect, which command to
//! run, when to stop, and what the build reports.
//!
//! A build is a state machine. `start_local_build` makes the first state and
//! action; the caller performs each action (inspecting a path, running a shell
//! command, resolving the build artifact) and hands the outcome back to
//! `advance_local_build`, until the action is `Finish`.
use vstd::prelude::*;

use crate::abort::{
    abort_build as request_abort, flag_set, fresh_flag, has_free_flag, is_abort_requested,
    is_least_free, table_well_formed,
    register_abort_flag, registered, release_abort_flag, released, take_abort_flag, taken,
    AbortFlags, AbortTable,
};
use crate::text::{
    chars_of, contains, contains_exec, join, join_strings, string_from_chars, trim, trim_str,
};
use crate::version::{
    lemma_version_lt_asymmetric, lemma_version_lt_total, lemma_version_lt_transitive, version_lt,
    version_lt_exec,
};

verus! {

/// What a build is asked to do.
pub struct LocalBuildRequest {
    pub project_path: String,
    pub build_command: String,
    pub output_dir: String,
    pub precheck_command: String,
    pub run_precheck: bool,
    pub build_timeout: u64,
    pub task_id: String,
    pub package_path: String,
}

/// What a build reports.
pub struct LocalBuildResult {
    pub build_command: String,
    pub output_dir: String,
    pub output_path: String,
    pub artifact_verified: bool,
    pub artifact_resolved_by: String,
    pub artifact_candidates: Vec<String>,
    pub artifact_message: String,
    pub precheck_command: String,
    pub precheck_output: String,
    pub precheck_ran: bool,
    pub precheck_success: bool,
    pub build_output: String,
    pub success: bool,
    pub aborted: bool,
}

/// Where the build artifact was found, and how.
pub struct ArtifactResolution {
    pub output_dir: String,
    pub output_path: String,
    pub verified: bool,
    pub resolved_by: String,
    pub candidates: Vec<String>,
    pub message: String,
}

/// The exit status and the output of a shell command.
pub struct CommandOutput {
    pub status: i32,
    pub stderr: String,
    pub stdout: String,
}

/// What is found at a path.
pub enum PathKind {
    Missing,
    Directory,
    NotDirectory,
}

pub ghost struct ArtifactView {
    pub output_dir: Seq<char>,
    pub output_path: Seq<char>,
    pub verified: bool,
    pub resolved_by: Seq<char>,
    pub candidates: Seq<Seq<char>>,
    pub message: Seq<char>,
}

pub ghost struct ResultView {
    pub build_command: Seq<char>,
    pub output_dir: Seq<char>,
    pub output_path: Seq<char>,
    pub artifact_verified: bool,
    pub artifact_resolved_by: Seq<char>,
    pub artifact_candidates: Seq<Seq<char>>,
    pub artifact_message: Seq<char>,
    pub precheck_command: Seq<char>,
    pub precheck_output: Seq<char>,
    pub precheck_ran: bool,
    pub precheck_success: bool,
    pub build_output: Seq<char>,
    pub success: bool,
    pub aborted: bool,
}

pub open spec fn string_views(v: Seq<String>) -> Seq<Seq<char>> {
    v.map_values(|s: String| s@)
}

impl View for ArtifactResolution {
    type V = ArtifactView;

    open spec fn view(&self) -> ArtifactView {
        ArtifactView {
            output_dir: self.output_dir@,
            output_path: self.output_path@,
            verified: self.verified,
            resolved_by: self.resolved_by@,
            candidates: string_views(self.candidates@),
            message: self.message@,
        }
    }
}

impl View for LocalBuildResult {
    type V = ResultView;

    open spec fn view(&self) -> ResultView {
        ResultView {
            build_command: self.build_command@,
            output_dir: self.output_dir@,
            output_path: self.output_path@,
            artifact_verified: self.artifact_verified,
            artifact_resolved_by: self.artifact_resolved_by@,
            artifact_candidates: string_views(self.artifact_candidates@),
            artifact_message: self.artifact_message@,
            precheck_command: self.precheck_command@,
            precheck_output: self.precheck_output@,
            precheck_ran: self.precheck_ran,
            precheck_success: self.precheck_success,
            build_output: self.build_output@,
            success: self.success,
            aborted: self.aborted,
        }
    }
}

// ==================== paths and output ====================

/// `Path::join` on Unix: an absolute `rel` replaces `base`; otherwise `rel`
/// follows `base`, with a `/` between them unless `base` is empty or already
/// ends with one. The library's paths are Unix paths: the build's project,
/// package and output paths are joined with `/` on every platform, where
/// `Path::join` on Windows would use `\` and also treat `\` and drive
/// prefixes as separators and roots.
pub open spec fn join_path(base: Seq<char>, rel: Seq<char>) -> Seq<char> {
    if rel.len() > 0 && rel[0] == '/' {
        rel
    } else if base.len() == 0 || base.last() == '/' {
        base + rel
    } else {
        base + seq!['/'] + rel
    }
}

/// The path `rel` under `base`, as text.
pub fn join_path_exec(base: &str, rel: &str) -> (r: String)
    ensures
        r@ == join_path(base@, rel@),
{
    let b = chars_of(base);
    let rl = chars_of(rel);
    if rl.len() > 0 && rl[0] == '/' {
        return rel.to_owned();
    }
    if b.len() == 0 || b[b.len() - 1] == '/' {
        return base.to_owned().concat(rel);
    }
    let r = base.to_owned().concat("/").concat(rel);
    proof {
        reveal_strlit("/");
        assert("/"@ =~= seq!['/']);
    }
    r
}

/// The output of a command: its trimmed standard output and standard error,
/// with a line break between them when both have text.
pub open spec fn combined_output(stdout: Seq<char>, stderr: Seq<char>) -> Seq<char> {
    let o = trim(stdout);
    let e = trim(stderr);
    if o.len() == 0 {
        e
    } else if e.len() == 0 {
        o
    } else {
        o + seq!['\n'] + e
    }
}

/// The output of a command, both of its streams in one text.
pub fn combine_command_output(stdout: &str, stderr: &str) -> (r: String)
    ensures
        r@ == combined_output(stdout@, stderr@),
{
    let o = trim_str(stdout);
    let e = trim_str(stderr);
    if o.as_str().is_empty() {
        return e;
    }
    if e.as_str().is_empty() {
        return o;
    }
    let r = o.concat("\n").concat(e.as_str());
    proof {
        reveal_strlit("\n");
        assert("\n"@ =~= seq!['\n']);
    }
    r
}

// ==================== decimal numbers ====================

/// The decimal digits of `n`.
pub open spec fn decimal(n: nat) -> Seq<char>
    decreases n,
{
    if n < 10 {
        seq![digit_char(n)]
    } else {
        decimal(n / 10) + seq![digit_char(n % 10)]
    }
}

pub open spec fn digit_char(d: nat) -> char {
    if d == 0 {
        '0'
    } else if d == 1 {
        '1'
    } else if d == 2 {
        '2'
    } else if d == 3 {
        '3'
    } else if d == 4 {
        '4'
    } else if d == 5 {
        '5'
    } else if d == 6 {
        '6'
    } else if d == 7 {
        '7'
    } else if d == 8 {
        '8'
    } else {
        '9'
    }
}

fn digit(d: u64) -> (c: char)
    requires
        d < 10,
    ensures
        c == digit_char(d as nat),
{
    if d == 0 {
        '0'
    } else if d == 1 {
        '1'
    } else if d == 2 {
        '2'
    } else if d == 3 {
        '3'
    } else if d == 4 {
        '4'
    } else if d == 5 {
        '5'
    } else if d == 6 {
        '6'
    } else if d == 7 {
        '7'
    } else if d == 8 {
        '8'
    } else {
        '9'
    }
}

/// `n` in decimal, as `u64`'s `Display` writes it.
pub fn decimal_string(n: u64) -> (r: String)
    ensures
        r@ == decimal(n as nat),
    decreases n,
{
    if n < 10 {
        let c = vec![digit(n)];
        assert(c@ =~= seq![digit_char(n as nat)]);
        return string_from_chars(c.as_slice());
    }
    let high = decimal_string(n / 10);
    let c = vec![digit(n % 10)];
    let low = string_from_chars(c.as_slice());
    assert(low@ =~= seq![digit_char((n % 10) as nat)]);
    high.concat(low.as_str())
}

// ==================== shell commands ====================

/// How waiting for a running command came out.
pub enum WaitOutcome {
    /// The command exited, with its exit code when it has one.
    Exited { code: Option<i32> },
    /// The command still runs.
    Running,
    /// Waiting failed with this error.
    Failed { error: String },
}

/// What to do after polling a running command.
pub enum PollDecision {
    /// Kill the command's process group and report `status`.
    Abort { status: i32 },
    /// The command is done with this status.
    Done { status: i32 },
    /// Poll again.
    Continue,
    /// Kill the command's process group and fail with this message.
    Fail { message: String },
    /// Kill the command's process group, then fail with the timeout message.
    TimedOut,
}

/// The status a command exited with: its exit code, or -1 without one.
pub open spec fn exit_status(code: Option<i32>) -> i32 {
    match code {
        Some(c) => c,
        None => -1i32,
    }
}

/// The decision after one poll of a running command: an abort request comes
/// first and reports status 130; an exit without a code reports -1; the
/// timeout is checked only while the command runs.
pub fn poll_shell_command(aborted: bool, wait: WaitOutcome, past_deadline: bool) -> (r:
    PollDecision)
    ensures
        aborted ==> (r == (PollDecision::Abort { status: 130 })),
        !aborted ==> match wait {
            WaitOutcome::Exited { code } => (r == (PollDecision::Done { status: exit_status(code) })),
            WaitOutcome::Running => (if past_deadline {
                r is TimedOut
            } else {
                r is Continue
            }),
            WaitOutcome::Failed { error } => (r matches PollDecision::Fail { message } && message@
                == "等待命令完成失败: "@ + error@),
        },
{
    if aborted {
        return PollDecision::Abort { status: 130 };
    }
    match wait {
        WaitOutcome::Exited { code } => PollDecision::Done {
            status: match code {
                Some(c) => c,
                None => -1,
            },
        },
        WaitOutcome::Running => if past_deadline {
            PollDecision::TimedOut
        } else {
            PollDecision::Continue
        },
        WaitOutcome::Failed { error } => PollDecision::Fail {
            message: "等待命令完成失败: ".to_owned().concat(error.as_str()),
        },
    }
}

/// The message of a command that ran out of time.
pub fn timeout_message(timeout_secs: u64, stdout: &str, stderr: &str) -> (r: String)
    ensures
        r@ == "命令执行超时（"@ + decimal(timeout_secs as nat) + " 秒），已自动终止。部分输出:\n"@
            + combined_output(stdout@, stderr@),
{
    let partial_output = combine_command_output(stdout, stderr);
    "命令执行超时（".to_owned().concat(decimal_string(timeout_secs).as_str()).concat(
        " 秒），已自动终止。部分输出:\n",
    ).concat(partial_output.as_str())
}

/// The message of a command that could not be started.
pub fn spawn_failure_message(error: &str) -> (r: String)
    ensures
        r@ == "执行命令失败: "@ + error@,
{
    "执行命令失败: ".to_owned().concat(error)
}

/// The result of an aborted build.
pub open spec fn aborted_view(
    build_command: Seq<char>,
    output_dir: Seq<char>,
    project_path: Seq<char>,
    precheck_command: Seq<char>,
    precheck_output: Seq<char>,
    precheck_ran: bool,
    precheck_success: bool,
    build_output: Seq<char>,
) -> ResultView {
    ResultView {
        build_command,
        output_dir,
        output_path: join_path(project_path, output_dir),
        artifact_verified: false,
        artifact_resolved_by: "aborted"@,
        artifact_candidates: Seq::empty(),
        artifact_message: "打包任务已中止"@,
        precheck_command,
        precheck_output,
        precheck_ran,
        precheck_success,
        build_output,
        success: false,
        aborted: true,
    }
}

/// The result of a build that was aborted.
pub fn aborted_result(
    build_command: String,
    output_dir: String,
    project_path: &str,
    precheck_command: String,
    precheck_output: String,
    precheck_ran: bool,
    precheck_success: bool,
    build_output: String,
) -> (r: LocalBuildResult)
    ensures
        r@ == aborted_view(
            build_command@,
            output_dir@,
            project_path@,
            precheck_command@,
            precheck_output@,
            precheck_ran,
            precheck_success,
            build_output@,
        ),
{
    let output_path = join_path_exec(project_path, output_dir.as_str());
    let r = LocalBuildResult {
        build_command,
        output_dir,
        output_path,
        artifact_verified: false,
        artifact_resolved_by: "aborted".to_owned(),
        artifact_candidates: Vec::new(),
        artifact_message: "打包任务已中止".to_owned(),
        precheck_command,
        precheck_output,
        precheck_ran,
        precheck_success,
        build_output,
        success: false,
        aborted: true,
    };
    assert(string_views(r.artifact_candidates@) =~= Seq::<Seq<char>>::empty());
    r
}

/// The artifact of a build whose output was not resolved.
pub open spec fn unresolved_view(project_path: Seq<char>, output_dir: Seq<char>, message: Seq<char>) -> ArtifactView {
    ArtifactView {
        output_dir,
        output_path: join_path(project_path, output_dir),
        verified: false,
        resolved_by: "configured"@,
        candidates: Seq::empty(),
        message,
    }
}

/// The artifact of a build whose output directory was not resolved: the
/// configured directory, unverified.
pub fn unresolved_artifact(project_path: &str, output_dir: &str, message: &str) -> (r:
    ArtifactResolution)
    ensures
        r@ == unresolved_view(project_path@, output_dir@, message@),
{
    let r = ArtifactResolution {
        output_dir: output_dir.to_owned(),
        output_path: join_path_exec(project_path, output_dir),
        verified: false,
        resolved_by: "configured".to_owned(),
        candidates: Vec::new(),
        message: message.to_owned(),
    };
    assert(string_views(r.candidates@) =~= Seq::<Seq<char>>::empty());
    r
}

// ==================== the build state machine ====================

/// Where a build stands.
pub enum BuildStage {
    /// Waiting to learn what is at the project path.
    CheckingRoot,
    /// Waiting to learn what is at the package path under the project.
    CheckingPackage,
    /// The precheck command runs.
    Prechecking,
    /// The build command runs.
    Building,
    /// The dependencies are being installed with build scripts allowed.
    Installing,
    /// The build command runs again after the install.
    Retrying,
    /// The build artifact is being resolved.
    ResolvingArtifact,
    /// The build has its result.
    Finished,
}

/// The state of a build.
pub struct LocalBuild {
    pub stage: BuildStage,
    /// The project path as requested.
    pub project_root: String,
    /// The package path, trimmed.
    pub package_path: String,
    /// The directory the commands run in.
    pub project_path: String,
    pub build_command: String,
    pub output_dir: String,
    pub precheck_command: String,
    pub task_id: String,
    pub run_precheck: bool,
    /// The time limit of the precheck and build commands.
    pub timeout_secs: u64,
    pub precheck_ran: bool,
    pub precheck_success: bool,
    pub precheck_output: String,
    pub build_output: String,
    pub build_status: i32,
    /// The abort flag the build registered, which its commands poll.
    pub abort_flag: Option<u64>,
}

pub ghost struct BuildView {
    pub stage: BuildStage,
    pub project_root: Seq<char>,
    pub package_path: Seq<char>,
    pub project_path: Seq<char>,
    pub build_command: Seq<char>,
    pub output_dir: Seq<char>,
    pub precheck_command: Seq<char>,
    pub task_id: Seq<char>,
    pub run_precheck: bool,
    pub timeout_secs: u64,
    pub precheck_ran: bool,
    pub precheck_success: bool,
    pub precheck_output: Seq<char>,
    pub build_output: Seq<char>,
    pub build_status: i32,
    pub abort_flag: Option<u64>,
}

impl View for LocalBuild {
    type V = BuildView;

    open spec fn view(&self) -> BuildView {
        BuildView {
            stage: self.stage,
            project_root: self.project_root@,
            package_path: self.package_path@,
            project_path: self.project_path@,
            build_command: self.build_command@,
            output_dir: self.output_dir@,
            precheck_command: self.precheck_command@,
            task_id: self.task_id@,
            run_precheck: self.run_precheck,
            timeout_secs: self.timeout_secs,
            precheck_ran: self.precheck_ran,
            precheck_success: self.precheck_success,
            precheck_output: self.precheck_output@,
            build_output: self.build_output@,
            build_status: self.build_status,
            abort_flag: self.abort_flag,
        }
    }
}

/// What the caller of a build is to do next.
pub enum BuildAction {
    /// Find out what is at `path`.
    InspectPath { path: String },
    /// Run `command` in the build's project directory, for at most
    /// `timeout_secs` seconds, stopping it when the task's abort flag is set.
    RunCommand { command: String, timeout_secs: u64 },
    /// Resolve the artifact of the successful build.
    ResolveArtifact { project_path: String, output_dir: String },
    /// The build is over, with this result.
    Finish { result: Result<LocalBuildResult, String> },
}

pub ghost enum ActionView {
    InspectPath(Seq<char>),
    RunCommand(Seq<char>, u64),
    ResolveArtifact(Seq<char>, Seq<char>),
    Finish(Result<ResultView, Seq<char>>),
}

impl View for BuildAction {
    type V = ActionView;

    open spec fn view(&self) -> ActionView {
        match self {
            BuildAction::InspectPath { path } => ActionView::InspectPath(path@),
            BuildAction::RunCommand { command, timeout_secs } => ActionView::RunCommand(
                command@,
                *timeout_secs,
            ),
            BuildAction::ResolveArtifact { project_path, output_dir } =>
                ActionView::ResolveArtifact(project_path@, output_dir@),
            BuildAction::Finish { result } => ActionView::Finish(
                match result {
                    Ok(r) => Ok(r@),
                    Err(e) => Err(e@),
                },
            ),
        }
    }
}

/// The outcome of an action, handed back to the build.
pub enum BuildEvent {
    PathInspected { kind: PathKind },
    CommandExited { output: CommandOutput },
    CommandFailed { error: String },
    ArtifactResolved { artifact: ArtifactResolution },
}

/// A build state, the action it asks for and the abort flags after a step.
pub ghost struct Step {
    pub build: BuildView,
    pub action: ActionView,
    pub flags: AbortTable,
}

/// The command that installs dependencies with build scripts allowed.
pub open spec fn install_command() -> Seq<char> {
    "pnpm install --config.ignore-scripts=false"@
}

/// The time limit of the install command.
pub open spec fn install_timeout_secs() -> u64 {
    120
}

/// The time limit of the precheck and build commands: the requested one, or
/// ten minutes when none is.
pub open spec fn effective_timeout(build_timeout: u64) -> u64 {
    if build_timeout > 0 {
        build_timeout
    } else {
        600
    }
}

/// The state of a build that has just been requested.
pub open spec fn initial_view(request: LocalBuildRequest) -> BuildView {
    BuildView {
        stage: BuildStage::CheckingRoot,
        project_root: request.project_path@,
        package_path: trim(request.package_path@),
        project_path: request.project_path@,
        build_command: trim(request.build_command@),
        output_dir: trim(request.output_dir@),
        precheck_command: trim(request.precheck_command@),
        task_id: trim(request.task_id@),
        run_precheck: request.run_precheck,
        timeout_secs: effective_timeout(request.build_timeout),
        precheck_ran: false,
        precheck_success: true,
        precheck_output: Seq::empty(),
        build_output: Seq::empty(),
        build_status: 0,
        abort_flag: None,
    }
}

/// Whether the build has a task id, under which its abort flag is registered.
pub open spec fn has_task(b: BuildView) -> bool {
    b.task_id.len() > 0
}

/// The table after the build ends: its task id is taken out, and its own
/// flag released.
pub open spec fn release(flags: AbortTable, b: BuildView) -> AbortTable {
    let t = if has_task(b) {
        taken(flags, b.task_id)
    } else {
        flags
    };
    match b.abort_flag {
        Some(g) => released(t, g),
        None => t,
    }
}

/// Whether an abort was requested for the build: its own flag is set.
pub open spec fn is_aborted(flags: AbortTable, b: BuildView) -> bool {
    match b.abort_flag {
        Some(g) => flag_set(flags, g),
        None => false,
    }
}

/// The result of a build whose precheck failed.
pub open spec fn precheck_failed_view(b: BuildView) -> ResultView {
    ResultView {
        build_command: b.build_command,
        output_dir: b.output_dir,
        output_path: join_path(b.project_path, b.output_dir),
        artifact_verified: false,
        artifact_resolved_by: "precheck-failed"@,
        artifact_candidates: Seq::empty(),
        artifact_message: "前置校验失败，未执行打包产物解析"@,
        precheck_command: b.precheck_command,
        precheck_output: b.precheck_output,
        precheck_ran: b.precheck_ran,
        precheck_success: false,
        build_output: Seq::empty(),
        success: false,
        aborted: false,
    }
}

/// The result of a build that ran to its end, with its artifact.
pub open spec fn final_view(b: BuildView, a: ArtifactView, success: bool) -> ResultView {
    ResultView {
        build_command: b.build_command,
        output_dir: a.output_dir,
        output_path: a.output_path,
        artifact_verified: a.verified,
        artifact_resolved_by: a.resolved_by,
        artifact_candidates: a.candidates,
        artifact_message: a.message,
        precheck_command: b.precheck_command,
        precheck_output: b.precheck_output,
        precheck_ran: b.precheck_ran,
        precheck_success: b.precheck_success,
        build_output: b.build_output,
        success,
        aborted: false,
    }
}

/// The result of the build when it is aborted with this build output.
pub open spec fn abort_view(b: BuildView, build_output: Seq<char>) -> ResultView {
    aborted_view(
        b.build_command,
        b.output_dir,
        b.project_path,
        b.precheck_command,
        b.precheck_output,
        b.precheck_ran,
        b.precheck_success,
        build_output,
    )
}

/// The build ends with `result`.
pub open spec fn finish(b: BuildView, result: Result<ResultView, Seq<char>>, flags: AbortTable) -> Step {
    Step {
        build: BuildView { stage: BuildStage::Finished, ..b },
        action: ActionView::Finish(result),
        flags,
    }
}

/// The build once its directory is known: a build with a task id registers
/// a new abort flag under it, then the precheck or the build command runs; an
/// empty build command ends it.
pub open spec fn begin(b0: BuildView, flags: AbortTable) -> Step {
    let f = if has_task(b0) {
        registered(flags, b0.task_id, fresh_flag(flags))
    } else {
        flags
    };
    let b = if has_task(b0) {
        BuildView { abort_flag: Some(fresh_flag(flags)), ..b0 }
    } else {
        b0
    };
    if b.build_command.len() == 0 {
        finish(b, Err("打包命令不能为空"@), release(f, b))
    } else if b.run_precheck && b.precheck_command.len() > 0 {
        Step {
            build: BuildView { stage: BuildStage::Prechecking, precheck_ran: true, ..b },
            action: ActionView::RunCommand(b.precheck_command, b.timeout_secs),
            flags: f,
        }
    } else {
        Step {
            build: BuildView { stage: BuildStage::Building, precheck_ran: false, ..b },
            action: ActionView::RunCommand(b.build_command, b.timeout_secs),
            flags: f,
        }
    }
}

/// The build once its final build output and status are known.
pub open spec fn conclude(b: BuildView, flags: AbortTable) -> Step {
    if is_aborted(flags, b) {
        finish(b, Ok(abort_view(b, b.build_output)), release(flags, b))
    } else if b.build_status == 0 {
        Step {
            build: BuildView { stage: BuildStage::ResolvingArtifact, ..b },
            action: ActionView::ResolveArtifact(b.project_path, b.output_dir),
            flags: release(flags, b),
        }
    } else {
        finish(
            b,
            Ok(
                final_view(
                    b,
                    unresolved_view(b.project_path, b.output_dir, "打包失败，未执行产物目录解析"@),
                    false,
                ),
            ),
            release(flags, b),
        )
    }
}

/// The text put before the build output when the install did not help.
pub open spec fn install_failed_note() -> Seq<char> {
    "[自动修复失败，请手动执行: pnpm approve-builds]\n"@
}

/// Whether the stage waits for this kind of event.
pub open spec fn expects(stage: BuildStage, event: BuildEvent) -> bool {
    match stage {
        BuildStage::CheckingRoot | BuildStage::CheckingPackage => event is PathInspected,
        BuildStage::Prechecking | BuildStage::Building | BuildStage::Installing
        | BuildStage::Retrying => event is CommandExited || event is CommandFailed,
        BuildStage::ResolvingArtifact => event is ArtifactResolved,
        BuildStage::Finished => false,
    }
}

/// The step a build takes on an event.
pub open spec fn next_step(b: BuildView, flags: AbortTable, event: BuildEvent) -> Step {
    match (b.stage, event) {
        (BuildStage::CheckingRoot, BuildEvent::PathInspected { kind }) => match kind {
            PathKind::Missing => finish(b, Err("项目目录不存在，无法执行打包"@), flags),
            PathKind::NotDirectory => finish(b, Err("项目路径不是目录，无法执行打包"@), flags),
            PathKind::Directory => if b.package_path.len() == 0 {
                begin(BuildView { project_path: b.project_root, ..b }, flags)
            } else {
                let joined = join_path(b.project_root, b.package_path);
                Step {
                    build: BuildView {
                        stage: BuildStage::CheckingPackage,
                        project_path: joined,
                        ..b
                    },
                    action: ActionView::InspectPath(joined),
                    flags,
                }
            },
        },
        (BuildStage::CheckingPackage, BuildEvent::PathInspected { kind }) => match kind {
            PathKind::Missing => finish(
                b,
                Err(
                    "子包目录不存在: "@ + b.package_path + "（完整路径: "@ + b.project_path
                        + "）"@,
                ),
                flags,
            ),
            PathKind::NotDirectory => finish(b, Err("子包路径不是目录: "@ + b.package_path), flags),
            PathKind::Directory => begin(b, flags),
        },
        (BuildStage::Prechecking, BuildEvent::CommandExited { output }) => {
            let b2 = BuildView {
                precheck_success: output.status == 0,
                precheck_output: combined_output(output.stdout@, output.stderr@),
                ..b
            };
            if is_aborted(flags, b2) {
                finish(b2, Ok(abort_view(b2, Seq::empty())), release(flags, b2))
            } else if output.status != 0 {
                finish(b2, Ok(precheck_failed_view(b2)), release(flags, b2))
            } else {
                Step {
                    build: BuildView { stage: BuildStage::Building, ..b2 },
                    action: ActionView::RunCommand(b2.build_command, b2.timeout_secs),
                    flags,
                }
            }
        },
        (BuildStage::Building, BuildEvent::CommandExited { output }) => {
            let out = combined_output(output.stdout@, output.stderr@);
            let b2 = BuildView { build_output: out, build_status: output.status, ..b };
            if is_aborted(flags, b2) {
                finish(b2, Ok(abort_view(b2, out)), release(flags, b2))
            } else if output.status != 0 && contains(out, "ERR_PNPM_IGNORED_BUILDS"@) {
                Step {
                    build: BuildView { stage: BuildStage::Installing, ..b2 },
                    action: ActionView::RunCommand(install_command(), install_timeout_secs()),
                    flags,
                }
            } else {
                conclude(b2, flags)
            }
        },
        (BuildStage::Installing, BuildEvent::CommandExited { output }) => if output.status == 0 {
            Step {
                build: BuildView { stage: BuildStage::Retrying, ..b },
                action: ActionView::RunCommand(b.build_command, b.timeout_secs),
                flags,
            }
        } else {
            conclude(BuildView { build_output: install_failed_note() + b.build_output, ..b }, flags)
        },
        (BuildStage::Installing, BuildEvent::CommandFailed { error }) => conclude(
            BuildView { build_output: install_failed_note() + b.build_output, ..b },
            flags,
        ),
        (BuildStage::Retrying, BuildEvent::CommandExited { output }) => conclude(
            BuildView {
                build_output: combined_output(output.stdout@, output.stderr@),
                build_status: output.status,
                ..b
            },
            flags,
        ),
        (BuildStage::ResolvingArtifact, BuildEvent::ArtifactResolved { artifact }) => finish(
            b,
            Ok(final_view(b, artifact@, true)),
            flags,
        ),
        (_, BuildEvent::CommandFailed { error }) => finish(b, Err(error@), release(flags, b)),
        _ => finish(b, Err(Seq::empty()), flags),
    }
}

/// A new build for `request`: first the project path is inspected.
pub fn start_local_build(request: LocalBuildRequest) -> (r: (LocalBuild, BuildAction))
    ensures
        r.0@ == initial_view(request),
        r.1@ == ActionView::InspectPath(request.project_path@),
{
    let path = request.project_path.clone();
    let build = LocalBuild {
        stage: BuildStage::CheckingRoot,
        project_root: request.project_path.clone(),
        package_path: trim_str(request.package_path.as_str()),
        project_path: request.project_path,
        build_command: trim_str(request.build_command.as_str()),
        output_dir: trim_str(request.output_dir.as_str()),
        precheck_command: trim_str(request.precheck_command.as_str()),
        task_id: trim_str(request.task_id.as_str()),
        run_precheck: request.run_precheck,
        timeout_secs: if request.build_timeout > 0 {
            request.build_timeout
        } else {
            600
        },
        precheck_ran: false,
        precheck_success: true,
        precheck_output: String::new(),
        build_output: String::new(),
        build_status: 0,
        abort_flag: None,
    };
    (build, BuildAction::InspectPath { path })
}

/// Whether the build waits for this kind of event.
pub fn accepts(build: &LocalBuild, event: &BuildEvent) -> (r: bool)
    ensures
        r == expects(build.stage, *event),
{
    match build.stage {
        BuildStage::CheckingRoot | BuildStage::CheckingPackage => match event {
            BuildEvent::PathInspected { .. } => true,
            _ => false,
        },
        BuildStage::Prechecking | BuildStage::Building | BuildStage::Installing
        | BuildStage::Retrying => match event {
            BuildEvent::CommandExited { .. } | BuildEvent::CommandFailed { .. } => true,
            _ => false,
        },
        BuildStage::ResolvingArtifact => match event {
            BuildEvent::ArtifactResolved { .. } => true,
            _ => false,
        },
        BuildStage::Finished => false,
    }
}

fn has_task_exec(b: &LocalBuild) -> (r: bool)
    ensures
        r == has_task(b@),
{
    !b.task_id.as_str().is_empty()
}

/// Takes the build's task id out of the table and releases its flag.
fn release_exec(b: &LocalBuild, flags: &mut AbortFlags)
    ensures
        final(flags)@ == release(old(flags)@, b@),
{
    if has_task_exec(b) {
        let _ = take_abort_flag(flags, b.task_id.as_str());
    }
    match b.abort_flag {
        Some(g) => release_abort_flag(flags, g),
        None => {},
    }
}

fn is_aborted_exec(b: &LocalBuild, flags: &AbortFlags) -> (r: bool)
    ensures
        r == is_aborted(flags@, b@),
{
    match b.abort_flag {
        Some(g) => is_abort_requested(flags, g),
        None => false,
    }
}

/// Ends the build with `result`.
fn finish_exec(b: LocalBuild, result: Result<LocalBuildResult, String>) -> (r: (
    LocalBuild,
    BuildAction,
))
    ensures
        r.0@ == (BuildView { stage: BuildStage::Finished, ..b@ }),
        r.1@ == ActionView::Finish(
            match result {
                Ok(x) => Ok(x@),
                Err(e) => Err(e@),
            },
        ),
{
    (LocalBuild { stage: BuildStage::Finished, ..b }, BuildAction::Finish { result })
}

fn abort_result(b: &LocalBuild, build_output: String) -> (r: LocalBuildResult)
    ensures
        r@ == abort_view(b@, build_output@),
{
    aborted_result(
        b.build_command.clone(),
        b.output_dir.clone(),
        b.project_path.as_str(),
        b.precheck_command.clone(),
        b.precheck_output.clone(),
        b.precheck_ran,
        b.precheck_success,
        build_output,
    )
}

fn precheck_failed_result(b: &LocalBuild) -> (r: LocalBuildResult)
    ensures
        r@ == precheck_failed_view(b@),
{
    let r = LocalBuildResult {
        build_command: b.build_command.clone(),
        output_dir: b.output_dir.clone(),
        output_path: join_path_exec(b.project_path.as_str(), b.output_dir.as_str()),
        artifact_verified: false,
        artifact_resolved_by: "precheck-failed".to_owned(),
        artifact_candidates: Vec::new(),
        artifact_message: "前置校验失败，未执行打包产物解析".to_owned(),
        precheck_command: b.precheck_command.clone(),
        precheck_output: b.precheck_output.clone(),
        precheck_ran: b.precheck_ran,
        precheck_success: false,
        build_output: String::new(),
        success: false,
        aborted: false,
    };
    assert(string_views(r.artifact_candidates@) =~= Seq::<Seq<char>>::empty());
    r
}

fn final_result(b: &LocalBuild, artifact: ArtifactResolution, success: bool) -> (r:
    LocalBuildResult)
    ensures
        r@ == final_view(b@, artifact@, success),
{
    LocalBuildResult {
        build_command: b.build_command.clone(),
        output_dir: artifact.output_dir,
        output_path: artifact.output_path,
        artifact_verified: artifact.verified,
        artifact_resolved_by: artifact.resolved_by,
        artifact_candidates: artifact.candidates,
        artifact_message: artifact.message,
        precheck_command: b.precheck_command.clone(),
        precheck_output: b.precheck_output.clone(),
        precheck_ran: b.precheck_ran,
        precheck_success: b.precheck_success,
        build_output: b.build_output.clone(),
        success,
        aborted: false,
    }
}

fn begin_exec(b: LocalBuild, flags: &mut AbortFlags) -> (r: (LocalBuild, BuildAction))
    ensures
        (Step { build: r.0@, action: r.1@, flags: final(flags)@ }) == begin(b@, old(flags)@),
{
    let b = if has_task_exec(&b) {
        let g = register_abort_flag(flags, b.task_id.as_str());
        LocalBuild { abort_flag: Some(g), ..b }
    } else {
        b
    };
    if b.build_command.as_str().is_empty() {
        release_exec(&b, flags);
        return finish_exec(b, Err("打包命令不能为空".to_owned()));
    }
    if b.run_precheck && !b.precheck_command.as_str().is_empty() {
        let command = b.precheck_command.clone();
        let timeout_secs = b.timeout_secs;
        (
            LocalBuild { stage: BuildStage::Prechecking, precheck_ran: true, ..b },
            BuildAction::RunCommand { command, timeout_secs },
        )
    } else {
        let command = b.build_command.clone();
        let timeout_secs = b.timeout_secs;
        (
            LocalBuild { stage: BuildStage::Building, precheck_ran: false, ..b },
            BuildAction::RunCommand { command, timeout_secs },
        )
    }
}

fn conclude_exec(b: LocalBuild, flags: &mut AbortFlags) -> (r: (LocalBuild, BuildAction))
    ensures
        (Step { build: r.0@, action: r.1@, flags: final(flags)@ }) == conclude(b@, old(flags)@),
{
    if is_aborted_exec(&b, flags) {
        release_exec(&b, flags);
        let result = abort_result(&b, b.build_output.clone());
        return finish_exec(b, Ok(result));
    }
    release_exec(&b, flags);
    if b.build_status == 0 {
        let project_path = b.project_path.clone();
        let output_dir = b.output_dir.clone();
        (
            LocalBuild { stage: BuildStage::ResolvingArtifact, ..b },
            BuildAction::ResolveArtifact { project_path, output_dir },
        )
    } else {
        let artifact = unresolved_artifact(
            b.project_path.as_str(),
            b.output_dir.as_str(),
            "打包失败，未执行产物目录解析",
        );
        let result = final_result(&b, artifact, false);
        finish_exec(b, Ok(result))
    }
}

/// Moves the build on by the outcome of its last action.
pub fn advance_local_build(build: LocalBuild, flags: &mut AbortFlags, event: BuildEvent) -> (r: (
    LocalBuild,
    BuildAction,
))
    requires
        expects(build.stage, event),
    ensures
        (Step { build: r.0@, action: r.1@, flags: final(flags)@ }) == next_step(
            build@,
            old(flags)@,
            event,
        ),
{
    let ghost b0 = build@;
    let ghost e0 = event;
    match build.stage {
        BuildStage::CheckingRoot => match event {
            BuildEvent::PathInspected { kind } => match kind {
                PathKind::Missing => finish_exec(build, Err("项目目录不存在，无法执行打包".to_owned())),
                PathKind::NotDirectory => finish_exec(
                    build,
                    Err("项目路径不是目录，无法执行打包".to_owned()),
                ),
                PathKind::Directory => {
                    if build.package_path.as_str().is_empty() {
                        let root = build.project_root.clone();
                        begin_exec(LocalBuild { project_path: root, ..build }, flags)
                    } else {
                        let joined = join_path_exec(
                            build.project_root.as_str(),
                            build.package_path.as_str(),
                        );
                        let path = joined.clone();
                        (
                            LocalBuild {
                                stage: BuildStage::CheckingPackage,
                                project_path: joined,
                                ..build
                            },
                            BuildAction::InspectPath { path },
                        )
                    }
                },
            },
            _ => {
                assert(false);
                finish_exec(build, Err(String::new()))
            },
        },
        BuildStage::CheckingPackage => match event {
            BuildEvent::PathInspected { kind } => match kind {
                PathKind::Missing => {
                    let message = "子包目录不存在: ".to_owned().concat(
                        build.package_path.as_str(),
                    ).concat("（完整路径: ").concat(build.project_path.as_str()).concat("）");
                    finish_exec(build, Err(message))
                },
                PathKind::NotDirectory => {
                    let message = "子包路径不是目录: ".to_owned().concat(
                        build.package_path.as_str(),
                    );
                    finish_exec(build, Err(message))
                },
                PathKind::Directory => begin_exec(build, flags),
            },
            _ => {
                assert(false);
                finish_exec(build, Err(String::new()))
            },
        },
        BuildStage::Prechecking => match event {
            BuildEvent::CommandExited { output } => {
                let precheck_output = combine_command_output(
                    output.stdout.as_str(),
                    output.stderr.as_str(),
                );
                let b2 = LocalBuild {
                    precheck_success: output.status == 0,
                    precheck_output,
                    ..build
                };
                if is_aborted_exec(&b2, flags) {
                    release_exec(&b2, flags);
                    let result = abort_result(&b2, String::new());
                    finish_exec(b2, Ok(result))
                } else if output.status != 0 {
                    release_exec(&b2, flags);
                    let result = precheck_failed_result(&b2);
                    finish_exec(b2, Ok(result))
                } else {
                    let command = b2.build_command.clone();
                    let timeout_secs = b2.timeout_secs;
                    (
                        LocalBuild { stage: BuildStage::Building, ..b2 },
                        BuildAction::RunCommand { command, timeout_secs },
                    )
                }
            },
            BuildEvent::CommandFailed { error } => {
                release_exec(&build, flags);
                finish_exec(build, Err(error))
            },
            _ => {
                assert(false);
                finish_exec(build, Err(String::new()))
            },
        },
        BuildStage::Building => match event {
            BuildEvent::CommandExited { output } => {
                let out = combine_command_output(output.stdout.as_str(), output.stderr.as_str());
                let marker = chars_of("ERR_PNPM_IGNORED_BUILDS");
                let out_chars = chars_of(out.as_str());
                let b2 = LocalBuild { build_output: out, build_status: output.status, ..build };
                if is_aborted_exec(&b2, flags) {
                    release_exec(&b2, flags);
                    let result = abort_result(&b2, b2.build_output.clone());
                    finish_exec(b2, Ok(result))
                } else if output.status != 0 && contains_exec(
                    out_chars.as_slice(),
                    marker.as_slice(),
                ) {
                    (
                        LocalBuild { stage: BuildStage::Installing, ..b2 },
                        BuildAction::RunCommand {
                            command: "pnpm install --config.ignore-scripts=false".to_owned(),
                            timeout_secs: 120,
                        },
                    )
                } else {
                    conclude_exec(b2, flags)
                }
            },
            BuildEvent::CommandFailed { error } => {
                release_exec(&build, flags);
                finish_exec(build, Err(error))
            },
            _ => {
                assert(false);
                finish_exec(build, Err(String::new()))
            },
        },
        BuildStage::Installing => match event {
            BuildEvent::CommandExited { output } => {
                if output.status == 0 {
                    let command = build.build_command.clone();
                    let timeout_secs = build.timeout_secs;
                    (
                        LocalBuild { stage: BuildStage::Retrying, ..build },
                        BuildAction::RunCommand { command, timeout_secs },
                    )
                } else {
                    let noted = "[自动修复失败，请手动执行: pnpm approve-builds]\n".to_owned().concat(
                        build.build_output.as_str(),
                    );
                    conclude_exec(LocalBuild { build_output: noted, ..build }, flags)
                }
            },
            BuildEvent::CommandFailed { .. } => {
                let noted = "[自动修复失败，请手动执行: pnpm approve-builds]\n".to_owned().concat(
                    build.build_output.as_str(),
                );
                conclude_exec(LocalBuild { build_output: noted, ..build }, flags)
            },
            _ => {
                assert(false);
                finish_exec(build, Err(String::new()))
            },
        },
        BuildStage::Retrying => match event {
            BuildEvent::CommandExited { output } => {
                let out = combine_command_output(output.stdout.as_str(), output.stderr.as_str());
                conclude_exec(
                    LocalBuild { build_output: out, build_status: output.status, ..build },
                    flags,
                )
            },
            BuildEvent::CommandFailed { error } => {
                release_exec(&build, flags);
                finish_exec(build, Err(error))
            },
            _ => {
                assert(false);
                finish_exec(build, Err(String::new()))
            },
        },
        BuildStage::ResolvingArtifact => match event {
            BuildEvent::ArtifactResolved { artifact } => {
                let result = final_result(&build, artifact, true);
                finish_exec(build, Ok(result))
            },
            _ => {
                assert(false);
                finish_exec(build, Err(String::new()))
            },
        },
        BuildStage::Finished => {
            assert(false);
            finish_exec(build, Err(String::new()))
        },
    }
}

// ==================== abort requests ====================

/// Answers a request to abort the build of `task_id`: an id that is empty
/// after trimming is refused; otherwise whether a running build had its flag
/// set.
pub fn abort_build(flags: &mut AbortFlags, task_id: String) -> (r: Result<bool, String>)
    ensures
        trim(task_id@).len() == 0 ==> (r matches Err(e) && e@ == "task_id 不能为空"@),
        trim(task_id@).len() == 0 ==> final(flags)@ == old(flags)@,
        trim(task_id@).len() > 0 ==> r == Ok::<bool, String>(old(flags)@.ids.contains_key(task_id@))
            && final(flags)@ == crate::abort::aborted(old(flags)@, task_id@),
{
    let trimmed = trim_str(task_id.as_str());
    if trimmed.as_str().is_empty() {
        return Err("task_id 不能为空".to_owned());
    }
    Ok(request_abort(flags, task_id.as_str()))
}

// ==================== search path ====================

/// Version names, newest first: no version is older than one after it.
pub open spec fn sorted_descending(s: Seq<Seq<char>>) -> bool {
    forall|i: int, j: int| 0 <= i < j < s.len() ==> !version_lt(s[i], s[j])
}

/// The directory of the node programs of the nvm-installed version `name`.
pub open spec fn nvm_bin(home: Seq<char>, name: Seq<char>) -> Seq<char> {
    home + "/.nvm/versions/node/"@ + name + "/bin"@
}

/// The bin directories of nvm-installed versions, in the order of `names`.
pub open spec fn nvm_bins(home: Seq<char>, names: Seq<Seq<char>>) -> Seq<Seq<char>> {
    names.map_values(|n: Seq<char>| nvm_bin(home, n))
}

/// The directories put after the inherited search path: package manager and
/// toolchain locations, and the home directory's version managers, with the
/// nvm bin directories `nvm_bins` in the order given.
pub open spec fn extended_path_entries(
    home: Seq<char>,
    current_path: Seq<char>,
    nvm_bins: Seq<Seq<char>>,
) -> Seq<Seq<char>> {
    seq![
        current_path,
        "/opt/homebrew/bin"@,
        "/opt/homebrew/sbin"@,
        "/usr/local/bin"@,
        "/usr/local/sbin"@,
    ] + if home.len() == 0 {
        Seq::empty()
    } else {
        seq![
            home + "/.volta/bin"@,
            home + "/.local/share/pnpm"@,
            home + "/.fnm/aliases/default/bin"@,
            home + "/.local/share/fnm/aliases/default/bin"@,
            home + "/.cargo/bin"@,
        ] + nvm_bins + seq![home + "/.asdf/shims"@, home + "/.local/share/mise/shims"@]
    }
}

/// The version names `v`, newest first.
pub fn sort_descending(v: Vec<String>) -> (r: Vec<String>)
    ensures
        string_views(r@).to_multiset() == string_views(v@).to_multiset(),
        sorted_descending(string_views(r@)),
{
    let mut r: Vec<String> = Vec::new();
    let mut i: usize = 0;
    broadcast use vstd::seq_lib::group_to_multiset_ensures;
    while i < v.len()
        invariant
            i <= v@.len(),
            string_views(r@).to_multiset() == string_views(v@.take(i as int)).to_multiset(),
            sorted_descending(string_views(r@)),
        decreases v@.len() - i,
    {
        let x = v[i].clone();
        let mut p: usize = 0;
        while p < r.len() && !version_lt_exec(r[p].as_str(), x.as_str())
            invariant
                p <= r@.len(),
                forall|j: int| 0 <= j < p ==> !version_lt(r@[j]@, x@),
            decreases r@.len() - p,
        {
            p += 1;
        }
        let ghost old_r = string_views(r@);
        r.insert(p, x);
        proof {
            let w = string_views(r@);
            assert(w =~= old_r.insert(p as int, x@));
            assert forall|a: int, b: int| 0 <= a < b < w.len() implies !version_lt(w[a], w[b]) by {
                if a < p && b == p {
                } else if a < p && b > p {
                    assert(w[b] == old_r[b - 1]);
                } else if a == p && b > p {
                    let z = old_r[b - 1];
                    let q = old_r[p as int];
                    assert(version_lt(q, x@));
                    if z == q {
                        lemma_version_lt_asymmetric(z, x@);
                    } else {
                        assert(!version_lt(q, z));
                        lemma_version_lt_total(q, z);
                        lemma_version_lt_transitive(z, q, x@);
                        lemma_version_lt_asymmetric(z, x@);
                    }
                } else if a > p {
                    assert(w[a] == old_r[a - 1]);
                    assert(w[b] == old_r[b - 1]);
                }
            }
            assert(w.remove(p as int) =~= old_r);
            assert(w[p as int] == x@);
            w.to_multiset_ensures();
            old_r.to_multiset_ensures();
            assert(w.remove(p as int).to_multiset() == w.to_multiset().remove(w[p as int]));
            assert(w.contains(x@));
            assert(w.to_multiset().count(x@) > 0);
            assert(w.to_multiset() =~= old_r.to_multiset().insert(x@));
            assert(string_views(v@.take(i + 1)) =~= string_views(v@.take(i as int)).push(x@));
            string_views(v@.take(i as int)).to_multiset_ensures();
            assert(string_views(v@.take(i + 1)).to_multiset() =~= string_views(
                v@.take(i as int),
            ).to_multiset().insert(x@));
        }
        i += 1;
    }
    assert(v@.take(i as int) =~= v@);
    r
}

/// Newest-first order leaves no choice: two orderings of the same version
/// names, each newest first, are the same sequence, so the search path is
/// determined by the versions installed.
pub proof fn law_descending_order_is_unique(a: Seq<Seq<char>>, b: Seq<Seq<char>>)
    requires
        a.to_multiset() == b.to_multiset(),
        sorted_descending(a),
        sorted_descending(b),
    ensures
        a == b,
    decreases a.len(),
{
    a.to_multiset_ensures();
    b.to_multiset_ensures();
    if a.len() == 0 {
        assert(b.len() == 0);
        assert(a =~= b);
    } else {
        assert(b.len() == a.len());
        assert(a.contains(a[0]));
        assert(b.to_multiset().count(a[0]) > 0);
        assert(b.contains(a[0]));
        assert(b.contains(b[0]));
        assert(a.to_multiset().count(b[0]) > 0);
        assert(a.contains(b[0]));
        let j = choose|j: int| 0 <= j < b.len() && b[j] == a[0];
        let i = choose|i: int| 0 <= i < a.len() && a[i] == b[0];
        if a[0] != b[0] {
            assert(i != 0 && j != 0);
            assert(!version_lt(a[0], a[i]));
            assert(!version_lt(b[0], b[j]));
            lemma_version_lt_total(a[0], b[0]);
        }
        assert(a.remove(0) =~= a.drop_first());
        assert(b.remove(0) =~= b.drop_first());
        assert(a.remove(0).to_multiset() == a.to_multiset().remove(a[0]));
        assert(b.remove(0).to_multiset() == b.to_multiset().remove(b[0]));
        assert forall|x: int, y: int| 0 <= x < y < a.drop_first().len() implies !version_lt(
            a.drop_first()[x],
            a.drop_first()[y],
        ) by {
            assert(a.drop_first()[x] == a[x + 1]);
            assert(a.drop_first()[y] == a[y + 1]);
        }
        assert forall|x: int, y: int| 0 <= x < y < b.drop_first().len() implies !version_lt(
            b.drop_first()[x],
            b.drop_first()[y],
        ) by {
            assert(b.drop_first()[x] == b[x + 1]);
            assert(b.drop_first()[y] == b[y + 1]);
        }
        law_descending_order_is_unique(a.drop_first(), b.drop_first());
        assert forall|k: int| 0 <= k < a.len() implies a[k] == b[k] by {
            if k > 0 {
                assert(a[k] == a.drop_first()[k - 1]);
                assert(b[k] == b.drop_first()[k - 1]);
            }
        }
        assert(a =~= b);
    }
}

/// The search path for build commands: the inherited one, then common
/// install locations of node and its package managers, with the bin
/// directories of the nvm-installed versions `nvm_versions` newest first.
pub fn build_extended_unix_path(home: &str, current_path: &str, nvm_versions: Vec<String>) -> (r:
    String)
    ensures
        exists|sorted: Seq<Seq<char>>|
            #![trigger sorted_descending(sorted)]
            {
                &&& sorted.to_multiset() == string_views(nvm_versions@).to_multiset()
                &&& sorted_descending(sorted)
                &&& r@ == join(
                    extended_path_entries(home@, current_path@, nvm_bins(home@, sorted)),
                    ":"@,
                )
            },
{
    let versions = sort_descending(nvm_versions);
    let ghost sorted = string_views(versions@);
    let mut paths: Vec<String> = vec![
        current_path.to_owned(),
        "/opt/homebrew/bin".to_owned(),
        "/opt/homebrew/sbin".to_owned(),
        "/usr/local/bin".to_owned(),
        "/usr/local/sbin".to_owned(),
    ];
    if !home.is_empty() {
        paths.push(home.to_owned().concat("/.volta/bin"));
        paths.push(home.to_owned().concat("/.local/share/pnpm"));
        paths.push(home.to_owned().concat("/.fnm/aliases/default/bin"));
        paths.push(home.to_owned().concat("/.local/share/fnm/aliases/default/bin"));
        paths.push(home.to_owned().concat("/.cargo/bin"));
        let ghost before = paths@;
        let mut i: usize = 0;
        while i < versions.len()
            invariant
                i <= versions@.len(),
                sorted == string_views(versions@),
                paths@.len() == before.len() + i,
                string_views(paths@) =~= string_views(before) + nvm_bins(
                    home@,
                    sorted.take(i as int),
                ),
            decreases versions@.len() - i,
        {
            let bin = home.to_owned().concat("/.nvm/versions/node/").concat(
                versions[i].as_str(),
            ).concat("/bin");
            let ghost prev = paths@;
            paths.push(bin);
            proof {
                assert(sorted.take(i + 1) =~= sorted.take(i as int).push(sorted[i as int]));
                assert(string_views(paths@) =~= string_views(prev).push(bin@));
            }
            i += 1;
        }
        assert(sorted.take(i as int) =~= sorted);
        let ghost mid = paths@;
        assert(string_views(mid) =~= string_views(before) + nvm_bins(home@, sorted));
        paths.push(home.to_owned().concat("/.asdf/shims"));
        paths.push(home.to_owned().concat("/.local/share/mise/shims"));
        assert(string_views(paths@) =~= string_views(mid) + seq![
            home@ + "/.asdf/shims"@,
            home@ + "/.local/share/mise/shims"@,
        ]);
        assert(string_views(before) =~= seq![
            current_path@,
            "/opt/homebrew/bin"@,
            "/opt/homebrew/sbin"@,
            "/usr/local/bin"@,
            "/usr/local/sbin"@,
        ] + seq![
            home@ + "/.volta/bin"@,
            home@ + "/.local/share/pnpm"@,
            home@ + "/.fnm/aliases/default/bin"@,
            home@ + "/.local/share/fnm/aliases/default/bin"@,
            home@ + "/.cargo/bin"@,
        ]);
    }
    assert(string_views(paths@) =~= extended_path_entries(
        home@,
        current_path@,
        nvm_bins(home@, sorted),
    ));
    join_strings(paths.as_slice(), ":")
}

// ==================== laws of the build ====================

/// The stages in which a command of the build may run.
pub open spec fn is_running(stage: BuildStage) -> bool {
    stage is Prechecking || stage is Building || stage is Installing || stage is Retrying
}

/// While a command of the build may run, the build holds a live abort flag,
/// and its task id names that flag.
pub open spec fn flag_registered_while_running(b: BuildView, flags: AbortTable) -> bool {
    is_running(b.stage) && has_task(b) ==> (b.abort_flag matches Some(g) && flags.flags.contains_key(
        g,
    ) && flags.ids.contains_key(b.task_id) && flags.ids[b.task_id] == g)
}

/// The action fits the stage the build is left in: paths are inspected while
/// checking, commands run while running, the artifact is resolved after a
/// successful build, and the result comes with the end.
pub open spec fn action_fits_stage(step: Step) -> bool {
    &&& step.action is InspectPath <==> (step.build.stage is CheckingRoot
        || step.build.stage is CheckingPackage)
    &&& step.action is RunCommand <==> is_running(step.build.stage)
    &&& step.action is ResolveArtifact <==> step.build.stage is ResolvingArtifact
    &&& step.action is Finish <==> step.build.stage is Finished
}

/// Every step leaves the build waiting for the event that its action
/// produces, so a driver that performs each action can always go on.
pub proof fn law_action_fits_stage(b: BuildView, flags: AbortTable, event: BuildEvent)
    requires
        expects(b.stage, event),
    ensures
        action_fits_stage(next_step(b, flags, event)),
{
}

/// A new build first inspects its project path.
pub proof fn law_start_inspects_project(request: LocalBuildRequest)
    ensures
        initial_view(request).stage is CheckingRoot,
        initial_view(request).project_root == request.project_path@,
{
}

/// Once the project directory is known, a build with a task id registers a
/// new flag, shared with no live flag, not set, and named by its task id.
pub proof fn law_begin_registers_flag(b: BuildView, flags: AbortTable, event: BuildEvent)
    requires
        expects(b.stage, event),
        b.stage is CheckingRoot || b.stage is CheckingPackage,
        next_step(b, flags, event).action is RunCommand,
        has_task(b),
        has_free_flag(flags),
    ensures
        next_step(b, flags, event).build.abort_flag matches Some(g) && !flags.flags.contains_key(g)
            && next_step(b, flags, event).flags.ids.contains_key(b.task_id) && next_step(
            b,
            flags,
            event,
        ).flags.ids[b.task_id] == g && !flag_set(next_step(b, flags, event).flags, g),
{
}

/// While the build's commands run, its task id keeps naming its own live
/// flag: across its own steps, abort requests for any id, registrations of
/// other ids under new flags, other ids taken out and other flags released.
pub proof fn law_flag_registered_while_running(
    b: BuildView,
    flags: AbortTable,
    event: BuildEvent,
    other: Seq<char>,
    g2: u64,
    h: u64,
)
    requires
        expects(b.stage, event),
        flag_registered_while_running(b, flags),
    ensures
        flag_registered_while_running(next_step(b, flags, event).build, next_step(b, flags, event).flags),
        flag_registered_while_running(b, crate::abort::aborted(flags, other)),
        other != b.task_id && !flags.flags.contains_key(g2) ==> flag_registered_while_running(
            b,
            registered(flags, other, g2),
        ),
        other != b.task_id ==> flag_registered_while_running(b, taken(flags, other)),
        b.abort_flag != Some(h) ==> flag_registered_while_running(b, released(flags, h)),
{
}

/// A build whose commands have started, once it stops running commands,
/// whatever the outcome, has taken its task id out and released its flag.
pub proof fn law_flag_taken_when_done(b: BuildView, flags: AbortTable, event: BuildEvent)
    requires
        expects(b.stage, event),
        is_running(b.stage),
        has_task(b),
        !is_running(next_step(b, flags, event).build.stage),
    ensures
        !next_step(b, flags, event).flags.ids.contains_key(b.task_id),
        b.abort_flag matches Some(g) ==> (!next_step(b, flags, event).flags.flags.contains_key(g)),
{
}

/// An abort request seen after a command ends the build with an aborted
/// result: not successful, its artifact unresolved.
pub proof fn law_abort_ends_build(b: BuildView, flags: AbortTable, output: CommandOutput)
    requires
        b.stage is Prechecking || b.stage is Building || b.stage is Retrying,
        is_aborted(flags, b),
    ensures
        next_step(b, flags, BuildEvent::CommandExited { output }).action matches ActionView::Finish(
            Ok(r),
        ) && r.aborted && !r.success && !r.artifact_verified && r.artifact_resolved_by
            == "aborted"@,
{
}

/// An aborted result is never a success.
pub proof fn law_aborted_is_not_success(b: BuildView, flags: AbortTable, event: BuildEvent)
    requires
        expects(b.stage, event),
        next_step(b, flags, event).action matches ActionView::Finish(Ok(r)) && r.aborted,
    ensures
        next_step(b, flags, event).action matches ActionView::Finish(Ok(r)) && !r.success
            && r.artifact_resolved_by == "aborted"@,
{
}

/// A failed precheck ends the build before the build command runs.
pub proof fn law_failed_precheck_stops(b: BuildView, flags: AbortTable, output: CommandOutput)
    requires
        b.stage is Prechecking,
        output.status != 0,
        !is_aborted(flags, b),
    ensures
        next_step(b, flags, BuildEvent::CommandExited { output }).action matches ActionView::Finish(
            Ok(r),
        ) && !r.success && !r.precheck_success && r.build_output.len() == 0
            && r.artifact_resolved_by == "precheck-failed"@,
{
}

/// A successful result comes only from a build whose last build command
/// exited with status 0, once its artifact is resolved.
pub proof fn law_success_needs_zero_status(b: BuildView, flags: AbortTable, event: BuildEvent)
    requires
        expects(b.stage, event),
    ensures
        next_step(b, flags, event).build.stage is ResolvingArtifact ==> next_step(
            b,
            flags,
            event,
        ).build.build_status == 0,
        next_step(b, flags, event).action matches ActionView::Finish(Ok(r)) ==> (r.success
            ==> b.stage is ResolvingArtifact && !r.aborted),
{
}

/// A build command that fails because pnpm ignored build scripts is retried
/// after installing with build scripts allowed.
pub proof fn law_ignored_builds_retried(b: BuildView, flags: AbortTable, output: CommandOutput)
    requires
        b.stage is Building,
        output.status != 0,
        contains(combined_output(output.stdout@, output.stderr@), "ERR_PNPM_IGNORED_BUILDS"@),
        !is_aborted(flags, b),
    ensures
        next_step(b, flags, BuildEvent::CommandExited { output }).action == ActionView::RunCommand(
            install_command(),
            install_timeout_secs(),
        ),
        next_step(b, flags, BuildEvent::CommandExited { output }).build.stage is Installing,
{
}

/// After a successful build command the artifact is looked for in the
/// directory the build commands ran in, with the build's output directory.
pub proof fn law_artifact_in_build_directory(
    b: BuildView,
    flags: AbortTable,
    output: CommandOutput,
)
    requires
        b.stage is Building || b.stage is Retrying,
        output.status == 0,
        !is_aborted(flags, b),
    ensures
        next_step(b, flags, BuildEvent::CommandExited { output }).action
            == ActionView::ResolveArtifact(b.project_path, b.output_dir),
        next_step(b, flags, BuildEvent::CommandExited { output }).build.stage is ResolvingArtifact,
{
}

/// A build of a monorepo package runs in the package directory and its
/// artifact is looked for there: from a new request without a precheck, once
/// the paths prove to be directories, the build command runs in the project
/// path joined with the trimmed package path (the project path itself when
/// there is none), and when it succeeds the artifact is resolved in that
/// same directory with the trimmed output directory.
pub proof fn law_package_build_artifact_dir(
    request: LocalBuildRequest,
    flags: AbortTable,
    output: CommandOutput,
)
    requires
        trim(request.build_command@).len() > 0,
        !request.run_precheck,
        output.status == 0,
    ensures
        ({
            let b0 = initial_view(request);
            let pkg = trim(request.package_path@);
            let dir = if pkg.len() == 0 {
                request.project_path@
            } else {
                join_path(request.project_path@, pkg)
            };
            let s1 = next_step(b0, flags, BuildEvent::PathInspected { kind: PathKind::Directory });
            let s2 = if pkg.len() == 0 {
                s1
            } else {
                next_step(s1.build, s1.flags, BuildEvent::PathInspected { kind: PathKind::Directory })
            };
            let s3 = next_step(s2.build, s2.flags, BuildEvent::CommandExited { output });
            &&& s2.action == ActionView::RunCommand(
                trim(request.build_command@),
                effective_timeout(request.build_timeout),
            )
            &&& s2.build.project_path == dir
            &&& s3.action == ActionView::ResolveArtifact(dir, trim(request.output_dir@))
        }),
{
}

// ==================== a whole run ====================

/// What happens to a build during its run: the outcome of its last action,
/// or an abort request that arrives meanwhile.
pub ghost enum RunEvent {
    Outcome(BuildEvent),
    AbortRequest(Seq<char>),
}

/// The build and the table after the events of a run, in order.
pub open spec fn run(b: BuildView, t: AbortTable, evs: Seq<RunEvent>) -> (BuildView, AbortTable)
    decreases evs.len(),
{
    if evs.len() == 0 {
        (b, t)
    } else {
        let prev = run(b, t, evs.drop_last());
        match evs.last() {
            RunEvent::Outcome(e) => {
                let s = next_step(prev.0, prev.1, e);
                (s.build, s.flags)
            },
            RunEvent::AbortRequest(id) => (prev.0, crate::abort::aborted(prev.1, id)),
        }
    }
}

/// Each outcome in the run is one that the build waits for at that point.
pub open spec fn valid_run(b: BuildView, t: AbortTable, evs: Seq<RunEvent>) -> bool {
    forall|k: int|
        0 <= k < evs.len() ==> match #[trigger] evs[k] {
            RunEvent::Outcome(e) => expects(run(b, t, evs.take(k)).0.stage, e),
            RunEvent::AbortRequest(_) => true,
        }
}

/// How the table stands against the table `t0` at the start of the run. A
/// build with no flag has not touched the task ids and left every flag live
/// (a build with a task id then has not begun its commands, or never will).
/// A build with its flag `g`, which was no live flag at the start: while its
/// commands run, its task id names `g` and `g` is live besides the flags of
/// the start; afterwards its task id is out of the table and `g` released.
pub open spec fn table_during_run(b: BuildView, t: AbortTable, t0: AbortTable) -> bool {
    &&& !has_task(b) ==> b.abort_flag is None
    &&& match b.abort_flag {
        None => {
            &&& t.ids == t0.ids
            &&& t.flags.dom() == t0.flags.dom()
            &&& has_task(b) ==> !is_running(b.stage) && !(b.stage is ResolvingArtifact)
        },
        Some(g) => {
            &&& !t0.flags.contains_key(g)
            &&& if is_running(b.stage) {
                &&& t.ids == t0.ids.insert(b.task_id, g)
                &&& t.flags.dom() == t0.flags.dom().insert(g)
            } else {
                &&& t.ids == t0.ids.remove(b.task_id)
                &&& t.flags.dom() == t0.flags.dom()
                &&& b.stage is ResolvingArtifact || b.stage is Finished
            }
        },
    }
}

proof fn lemma_step_keeps_table(b: BuildView, t: AbortTable, t0: AbortTable, e: BuildEvent)
    requires
        table_during_run(b, t, t0),
        expects(b.stage, e),
        table_well_formed(t0),
    ensures
        table_during_run(next_step(b, t, e).build, next_step(b, t, e).flags, t0),
        next_step(b, t, e).build.task_id == b.task_id,
{
    if b.abort_flag is None && has_task(b) && (b.stage is CheckingRoot || b.stage is CheckingPackage) {
        let w = choose|g: u64| is_least_free(t0.flags, g);
        assert(is_least_free(t.flags, w));
        let g = fresh_flag(t);
        assert(is_least_free(t.flags, g));
        assert(t0.ids.insert(b.task_id, g).remove(b.task_id) =~= t0.ids.remove(b.task_id));
        assert(t0.flags.dom().insert(g).remove(g) =~= t0.flags.dom());
        assert forall|k: Seq<char>| t0.ids.contains_key(k) implies t0.ids[k] != g by {
            assert(t0.flags.contains_key(t0.ids[k]));
        }
        assert(released(taken(registered(t, b.task_id, g), b.task_id), g).ids =~= t0.ids.remove(
            b.task_id,
        ));
    }
    if let Some(g) = b.abort_flag {
        assert(t0.ids.insert(b.task_id, g).remove(b.task_id) =~= t0.ids.remove(b.task_id));
        assert(t0.flags.dom().insert(g).remove(g) =~= t0.flags.dom());
        if is_running(b.stage) {
            assert forall|k: Seq<char>| t0.ids.contains_key(k) implies t0.ids[k] != g by {
                assert(t0.flags.contains_key(t0.ids[k]));
            }
            assert(released(taken(t, b.task_id), g).ids =~= t0.ids.remove(b.task_id));
        }
    }
}

proof fn lemma_run_keeps_table(b0: BuildView, t0: AbortTable, evs: Seq<RunEvent>)
    requires
        valid_run(b0, t0, evs),
        table_during_run(b0, t0, t0),
        table_well_formed(t0),
    ensures
        table_during_run(run(b0, t0, evs).0, run(b0, t0, evs).1, t0),
        run(b0, t0, evs).0.task_id == b0.task_id,
    decreases evs.len(),
{
    if evs.len() > 0 {
        let init = evs.drop_last();
        assert forall|k: int| 0 <= k < init.len() implies match #[trigger] init[k] {
            RunEvent::Outcome(e) => expects(run(b0, t0, init.take(k)).0.stage, e),
            RunEvent::AbortRequest(_) => true,
        } by {
            assert(init[k] == evs[k]);
            assert(init.take(k) =~= evs.take(k));
        }
        lemma_run_keeps_table(b0, t0, init);
        let prev = run(b0, t0, init);
        let last = evs.len() - 1;
        assert(evs.take(last) =~= init);
        assert(evs[last] == evs.last());
        match evs.last() {
            RunEvent::Outcome(e) => {
                lemma_step_keeps_table(prev.0, prev.1, t0, e);
            },
            RunEvent::AbortRequest(id) => {
                let t = prev.1;
                if t.ids.contains_key(id) && t.flags.contains_key(t.ids[id]) {
                    assert(t.flags.insert(t.ids[id], true).dom() =~= t.flags.dom());
                }
            },
        }
    }
}

/// Over a whole run of a build, with abort requests arriving meanwhile and no
/// other build registering or taking ids: a build without a task id never
/// touches the task ids; a build with one registers a flag that was no live
/// flag, its task id names that flag while its commands run, and once they
/// have stopped, whatever the outcome, the task id is out of the table and
/// the flag released, every other flag live as at the start.
pub proof fn law_whole_run(request: LocalBuildRequest, t0: AbortTable, evs: Seq<RunEvent>)
    requires
        valid_run(initial_view(request), t0, evs),
        table_well_formed(t0),
    ensures
        ({
            let (b, t) = run(initial_view(request), t0, evs);
            &&& b.task_id == trim(request.task_id@)
            &&& !has_task(b) ==> t.ids == t0.ids
            &&& has_task(b) && is_running(b.stage) ==> (b.abort_flag matches Some(g)
                && !t0.flags.contains_key(g) && t.ids == t0.ids.insert(b.task_id, g)
                && t.flags.contains_key(g))
            &&& (b.stage is Finished || b.stage is ResolvingArtifact) ==> (t.flags.dom()
                == t0.flags.dom() && match b.abort_flag {
                Some(g) => t.ids == t0.ids.remove(b.task_id) && !t.flags.contains_key(g),
                None => t.ids == t0.ids,
            })
        }),
{
    let b0 = initial_view(request);
    lemma_run_keeps_table(b0, t0, evs);
    let (b, t) = run(b0, t0, evs);
    if let Some(g) = b.abort_flag {
        assert(t.flags.dom().contains(g) == t.flags.contains_key(g));
    }
}

} // verus!
