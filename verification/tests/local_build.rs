use project_build::abort::{
    abort_build, is_abort_requested, register_abort_flag, release_abort_flag, take_abort_flag,
    AbortFlags,
};
use project_build::version::{version_key_exec, version_lt_exec};
use project_build::execution::{
    abort_build as abort_command, accepts, advance_local_build, aborted_result,
    build_extended_unix_path, combine_command_output, decimal_string, join_path_exec,
    poll_shell_command, sort_descending, spawn_failure_message, start_local_build,
    timeout_message, unresolved_artifact, ArtifactResolution, BuildAction, BuildEvent, BuildStage,
    CommandOutput, LocalBuild, LocalBuildRequest, LocalBuildResult, PathKind, PollDecision,
    WaitOutcome,
};

fn request(task_id: &str) -> LocalBuildRequest {
    LocalBuildRequest {
        project_path: "/work/site".to_string(),
        build_command: " pnpm build ".to_string(),
        output_dir: " dist ".to_string(),
        precheck_command: "pnpm lint".to_string(),
        run_precheck: true,
        build_timeout: 0,
        task_id: task_id.to_string(),
        package_path: String::new(),
    }
}

fn exited(status: i32, stdout: &str, stderr: &str) -> BuildEvent {
    BuildEvent::CommandExited {
        output: CommandOutput { status, stdout: stdout.to_string(), stderr: stderr.to_string() },
    }
}

fn step(build: LocalBuild, flags: &mut AbortFlags, event: BuildEvent) -> (LocalBuild, BuildAction) {
    assert!(accepts(&build, &event));
    advance_local_build(build, flags, event)
}

fn finished(action: BuildAction) -> Result<LocalBuildResult, String> {
    match action {
        BuildAction::Finish { result } => result,
        _ => panic!("expected the build to finish"),
    }
}

fn command_of(action: &BuildAction) -> (String, u64) {
    match action {
        BuildAction::RunCommand { command, timeout_secs } => (command.clone(), *timeout_secs),
        _ => panic!("expected a command"),
    }
}

#[test]
fn abort_flag_lifecycle() {
    let mut flags = AbortFlags::new();
    assert!(!abort_build(&mut flags, "t1"));
    let f1 = register_abort_flag(&mut flags, "t1");
    let f2 = register_abort_flag(&mut flags, "t2");
    assert_ne!(f1, f2);
    assert!(!is_abort_requested(&flags, f1));
    assert!(abort_build(&mut flags, "t1"));
    assert!(is_abort_requested(&flags, f1));
    assert!(!is_abort_requested(&flags, f2));
    assert!(abort_build(&mut flags, "t1"));
    assert_eq!(take_abort_flag(&mut flags, "t1"), Some(f1));
    assert_eq!(take_abort_flag(&mut flags, "t1"), None);
    assert!(!abort_build(&mut flags, "t1"));
    // the build still sees its own flag until it releases it
    assert!(is_abort_requested(&flags, f1));
    release_abort_flag(&mut flags, f1);
    assert!(!is_abort_requested(&flags, f1));
    assert_eq!(take_abort_flag(&mut flags, "t2"), Some(f2));
}

#[test]
fn registering_again_keeps_the_earlier_flag() {
    let mut flags = AbortFlags::new();
    let first = register_abort_flag(&mut flags, "job");
    assert!(abort_build(&mut flags, "job"));
    let second = register_abort_flag(&mut flags, "job");
    assert_ne!(first, second);
    // the earlier build still sees its pending abort, the new one starts unset
    assert!(is_abort_requested(&flags, first));
    assert!(!is_abort_requested(&flags, second));
    // a later abort reaches only the latest registration
    release_abort_flag(&mut flags, first);
    let third = register_abort_flag(&mut flags, "other");
    assert!(abort_build(&mut flags, "job"));
    assert!(is_abort_requested(&flags, second));
    assert!(!is_abort_requested(&flags, third));
    assert_eq!(take_abort_flag(&mut flags, "job"), Some(second));
}

#[test]
fn free_flag_numbers_are_reused_from_the_least() {
    let mut flags = AbortFlags::new();
    assert_eq!(register_abort_flag(&mut flags, "a"), 0);
    assert_eq!(register_abort_flag(&mut flags, "b"), 1);
    assert_eq!(register_abort_flag(&mut flags, "c"), 2);
    release_abort_flag(&mut flags, 1);
    assert_eq!(register_abort_flag(&mut flags, "d"), 1);
    assert_eq!(register_abort_flag(&mut flags, "e"), 3);
}

#[test]
fn abort_command_refuses_blank_ids() {
    let mut flags = AbortFlags::new();
    assert_eq!(abort_command(&mut flags, "  ".to_string()), Err("task_id 不能为空".to_string()));
    assert_eq!(abort_command(&mut flags, "x".to_string()), Ok(false));
    let f = register_abort_flag(&mut flags, "x");
    assert_eq!(abort_command(&mut flags, "x".to_string()), Ok(true));
    assert!(is_abort_requested(&flags, f));
}

#[test]
fn missing_project_directory() {
    let mut flags = AbortFlags::new();
    let (b, a) = start_local_build(request("t"));
    match &a {
        BuildAction::InspectPath { path } => assert_eq!(path, "/work/site"),
        _ => panic!("expected an inspection"),
    }
    let (b2, a) = step(b, &mut flags, BuildEvent::PathInspected { kind: PathKind::Missing });
    assert!(matches!(b2.stage, BuildStage::Finished));
    assert_eq!(finished(a).err(), Some("项目目录不存在，无法执行打包".to_string()));
    let (b, _) = start_local_build(request("t"));
    let (_, a) = step(b, &mut flags, BuildEvent::PathInspected { kind: PathKind::NotDirectory });
    assert_eq!(finished(a).err(), Some("项目路径不是目录，无法执行打包".to_string()));
    assert!(!abort_build(&mut flags, "t"));
}

#[test]
fn package_directory_checks() {
    let mut flags = AbortFlags::new();
    let mut req = request("t");
    req.package_path = " apps/web ".to_string();
    let (b, _) = start_local_build(req);
    let (b, a) = step(b, &mut flags, BuildEvent::PathInspected { kind: PathKind::Directory });
    match &a {
        BuildAction::InspectPath { path } => assert_eq!(path, "/work/site/apps/web"),
        _ => panic!("expected an inspection"),
    }
    let (_, a) = step(b, &mut flags, BuildEvent::PathInspected { kind: PathKind::Missing });
    assert_eq!(
        finished(a).err(),
        Some("子包目录不存在: apps/web（完整路径: /work/site/apps/web）".to_string())
    );
    let mut req = request("t");
    req.package_path = "apps/web".to_string();
    let (b, _) = start_local_build(req);
    let (b, _) = step(b, &mut flags, BuildEvent::PathInspected { kind: PathKind::Directory });
    let (_, a) = step(b, &mut flags, BuildEvent::PathInspected { kind: PathKind::NotDirectory });
    assert_eq!(finished(a).err(), Some("子包路径不是目录: apps/web".to_string()));
}

#[test]
fn empty_build_command_is_refused() {
    let mut flags = AbortFlags::new();
    let mut req = request("t");
    req.build_command = "   ".to_string();
    let (b, _) = start_local_build(req);
    let (_, a) = step(b, &mut flags, BuildEvent::PathInspected { kind: PathKind::Directory });
    assert_eq!(finished(a).err(), Some("打包命令不能为空".to_string()));
    assert_eq!(take_abort_flag(&mut flags, "t"), None);
}

#[test]
fn successful_build_with_precheck() {
    let mut flags = AbortFlags::new();
    let (b, _) = start_local_build(request("t"));
    let (b, a) = step(b, &mut flags, BuildEvent::PathInspected { kind: PathKind::Directory });
    assert_eq!(command_of(&a), ("pnpm lint".to_string(), 600));
    // the flag is registered while the commands run
    let own = b.abort_flag.expect("the build holds a flag");
    assert!(!is_abort_requested(&flags, own));
    let (b, a) = step(b, &mut flags, exited(0, "lint ok\n", ""));
    assert_eq!(command_of(&a), ("pnpm build".to_string(), 600));
    let (b, a) = step(b, &mut flags, exited(0, "built\n", "warning\n"));
    match &a {
        BuildAction::ResolveArtifact { project_path, output_dir } => {
            assert_eq!(project_path, "/work/site");
            assert_eq!(output_dir, "dist");
        }
        _ => panic!("expected artifact resolution"),
    }
    assert_eq!(take_abort_flag(&mut flags, "t"), None);
    assert!(!is_abort_requested(&flags, own));
    let artifact = ArtifactResolution {
        output_dir: "dist".to_string(),
        output_path: "/work/site/dist".to_string(),
        verified: true,
        resolved_by: "configured".to_string(),
        candidates: vec!["dist".to_string()],
        message: "ok".to_string(),
    };
    let (_, a) = step(b, &mut flags, BuildEvent::ArtifactResolved { artifact });
    let r = finished(a).unwrap();
    assert!(r.success && !r.aborted && r.artifact_verified);
    assert_eq!(r.build_command, "pnpm build");
    assert_eq!(r.precheck_output, "lint ok");
    assert_eq!(r.build_output, "built\nwarning");
    assert!(r.precheck_ran && r.precheck_success);
    assert_eq!(r.artifact_candidates, vec!["dist".to_string()]);
}

#[test]
fn failed_precheck_skips_the_build() {
    let mut flags = AbortFlags::new();
    let (b, _) = start_local_build(request("t"));
    let (b, _) = step(b, &mut flags, BuildEvent::PathInspected { kind: PathKind::Directory });
    let (_, a) = step(b, &mut flags, exited(1, "", "lint error"));
    let r = finished(a).unwrap();
    assert!(!r.success && !r.precheck_success && r.precheck_ran);
    assert_eq!(r.artifact_resolved_by, "precheck-failed");
    assert_eq!(r.artifact_message, "前置校验失败，未执行打包产物解析");
    assert_eq!(r.output_path, "/work/site/dist");
    assert_eq!(r.precheck_output, "lint error");
    assert_eq!(r.build_output, "");
    assert_eq!(take_abort_flag(&mut flags, "t"), None);
}

#[test]
fn abort_during_build() {
    let mut flags = AbortFlags::new();
    let mut req = request("t");
    req.run_precheck = false;
    req.build_timeout = 30;
    let (b, _) = start_local_build(req);
    let (b, a) = step(b, &mut flags, BuildEvent::PathInspected { kind: PathKind::Directory });
    assert_eq!(command_of(&a), ("pnpm build".to_string(), 30));
    assert!(abort_build(&mut flags, "t"));
    let (_, a) = step(b, &mut flags, exited(130, "partial", ""));
    let r = finished(a).unwrap();
    assert!(r.aborted && !r.success && !r.artifact_verified);
    assert_eq!(r.artifact_resolved_by, "aborted");
    assert_eq!(r.artifact_message, "打包任务已中止");
    assert_eq!(r.build_output, "partial");
    assert!(!r.precheck_ran);
    assert!(!abort_build(&mut flags, "t"));
}

#[test]
fn build_without_task_id_is_never_aborted() {
    let mut flags = AbortFlags::new();
    let mut req = request("  ");
    req.run_precheck = false;
    let (b, _) = start_local_build(req);
    let (b, _) = step(b, &mut flags, BuildEvent::PathInspected { kind: PathKind::Directory });
    let (_, a) = step(b, &mut flags, exited(2, "", "boom"));
    let r = finished(a).unwrap();
    assert!(!r.success && !r.aborted);
    assert_eq!(r.artifact_resolved_by, "configured");
    assert_eq!(r.artifact_message, "打包失败，未执行产物目录解析");
    assert_eq!(r.build_output, "boom");
}

#[test]
fn ignored_builds_are_retried_after_install() {
    let mut flags = AbortFlags::new();
    let mut req = request("t");
    req.run_precheck = false;
    let (b, _) = start_local_build(req);
    let (b, _) = step(b, &mut flags, BuildEvent::PathInspected { kind: PathKind::Directory });
    let (b, a) = step(b, &mut flags, exited(1, "", "ERR_PNPM_IGNORED_BUILDS esbuild"));
    assert_eq!(command_of(&a), ("pnpm install --config.ignore-scripts=false".to_string(), 120));
    let (b, a) = step(b, &mut flags, exited(0, "installed", ""));
    assert_eq!(command_of(&a), ("pnpm build".to_string(), 600));
    let (_, a) = step(b, &mut flags, exited(1, "retry failed", ""));
    let r = finished(a).unwrap();
    assert!(!r.success);
    assert_eq!(r.build_output, "retry failed");
}

#[test]
fn failed_install_keeps_the_first_output() {
    let mut flags = AbortFlags::new();
    let mut req = request("");
    req.run_precheck = false;
    let (b, _) = start_local_build(req);
    let (b, _) = step(b, &mut flags, BuildEvent::PathInspected { kind: PathKind::Directory });
    let (b, _) = step(b, &mut flags, exited(1, "ERR_PNPM_IGNORED_BUILDS", ""));
    let (_, a) = step(b, &mut flags, BuildEvent::CommandFailed { error: "timeout".to_string() });
    let r = finished(a).unwrap();
    assert!(!r.success);
    assert_eq!(
        r.build_output,
        "[自动修复失败，请手动执行: pnpm approve-builds]\nERR_PNPM_IGNORED_BUILDS"
    );
}

#[test]
fn command_failure_ends_the_build() {
    let mut flags = AbortFlags::new();
    let (b, _) = start_local_build(request("t"));
    let (b, _) = step(b, &mut flags, BuildEvent::PathInspected { kind: PathKind::Directory });
    let (b2, a) = step(b, &mut flags, BuildEvent::CommandFailed { error: "执行命令失败: no shell".to_string() });
    assert!(matches!(b2.stage, BuildStage::Finished));
    assert_eq!(finished(a).err(), Some("执行命令失败: no shell".to_string()));
    assert_eq!(take_abort_flag(&mut flags, "t"), None);
    assert!(!accepts(&b2, &exited(0, "", "")));
}

#[test]
fn command_output_combination() {
    assert_eq!(combine_command_output("  out \n", "\n err "), "out\nerr");
    assert_eq!(combine_command_output("", " err "), "err");
    assert_eq!(combine_command_output(" out", "  "), "out");
    assert_eq!(combine_command_output("", ""), "");
}

#[test]
fn result_builders() {
    let r = aborted_result(
        "b".to_string(),
        "out".to_string(),
        "/p/",
        "c".to_string(),
        "o".to_string(),
        true,
        true,
        "log".to_string(),
    );
    assert_eq!(r.output_path, "/p/out");
    assert!(r.aborted && !r.success);
    let a = unresolved_artifact("/p", "/abs", "m");
    assert_eq!(a.output_path, "/abs");
    assert_eq!(a.resolved_by, "configured");
    assert!(!a.verified);
    assert_eq!(join_path_exec("", "dist"), "dist");
    assert_eq!(join_path_exec("/p", ""), "/p/");
}

#[test]
fn polling_decisions() {
    assert!(matches!(
        poll_shell_command(true, WaitOutcome::Exited { code: Some(0) }, true),
        PollDecision::Abort { status: 130 }
    ));
    assert!(matches!(
        poll_shell_command(false, WaitOutcome::Exited { code: Some(3) }, true),
        PollDecision::Done { status: 3 }
    ));
    assert!(matches!(
        poll_shell_command(false, WaitOutcome::Exited { code: None }, false),
        PollDecision::Done { status: -1 }
    ));
    assert!(matches!(poll_shell_command(false, WaitOutcome::Running, false), PollDecision::Continue));
    assert!(matches!(poll_shell_command(false, WaitOutcome::Running, true), PollDecision::TimedOut));
    match poll_shell_command(false, WaitOutcome::Failed { error: "io".to_string() }, false) {
        PollDecision::Fail { message } => assert_eq!(message, "等待命令完成失败: io"),
        _ => panic!("expected a failure"),
    }
}

#[test]
fn messages_and_numbers() {
    assert_eq!(decimal_string(0), "0");
    assert_eq!(decimal_string(600), "600");
    assert_eq!(decimal_string(u64::MAX), u64::MAX.to_string());
    assert_eq!(
        timeout_message(120, "a", "b"),
        "命令执行超时（120 秒），已自动终止。部分输出:\na\nb"
    );
    assert_eq!(spawn_failure_message("denied"), "执行命令失败: denied");
}

#[test]
fn extended_search_path() {
    let versions = vec![
        "v18.0.0".to_string(),
        "v9.11.2".to_string(),
        "v20.1.0".to_string(),
        "v16.2.0".to_string(),
    ];
    let path = build_extended_unix_path("/h", "/usr/bin:/bin", versions);
    let parts: Vec<&str> = path.split(':').collect();
    assert_eq!(
        parts,
        vec![
            "/usr/bin",
            "/bin",
            "/opt/homebrew/bin",
            "/opt/homebrew/sbin",
            "/usr/local/bin",
            "/usr/local/sbin",
            "/h/.volta/bin",
            "/h/.local/share/pnpm",
            "/h/.fnm/aliases/default/bin",
            "/h/.local/share/fnm/aliases/default/bin",
            "/h/.cargo/bin",
            "/h/.nvm/versions/node/v20.1.0/bin",
            "/h/.nvm/versions/node/v18.0.0/bin",
            "/h/.nvm/versions/node/v16.2.0/bin",
            "/h/.nvm/versions/node/v9.11.2/bin",
            "/h/.asdf/shims",
            "/h/.local/share/mise/shims",
        ]
    );
    assert_eq!(
        build_extended_unix_path("", "", vec!["x".to_string()]),
        ":/opt/homebrew/bin:/opt/homebrew/sbin:/usr/local/bin:/usr/local/sbin"
    );
    assert_eq!(
        sort_descending(vec!["b".to_string(), "ab".to_string(), "c".to_string(), "b".to_string()]),
        vec!["c".to_string(), "b".to_string(), "b".to_string(), "ab".to_string()]
    );
}

#[test]
fn node_versions_newest_first() {
    let names = |v: &[&str]| v.iter().map(|s| s.to_string()).collect::<Vec<String>>();
    assert_eq!(
        sort_descending(names(&["v9.11.2", "v20.1.0", "v20.0.5", "v10.0.0", "v20.1.0"])),
        names(&["v20.1.0", "v20.1.0", "v20.0.5", "v10.0.0", "v9.11.2"])
    );
    assert_eq!(version_key_exec("v20.1.0"), vec![20, 1, 0]);
    assert_eq!(version_key_exec("18.3"), vec![18, 3]);
    assert_eq!(version_key_exec("v1.x.2rc"), vec![1, 0, 2]);
    assert_eq!(version_key_exec("v99999999999999999999"), vec![u64::MAX]);
    assert!(version_lt_exec("v9.11.2", "v20.1.0"));
    assert!(!version_lt_exec("v20.1.0", "v9.11.2"));
    assert!(version_lt_exec("v20.1", "v20.1.0"));
    assert!(version_lt_exec("20.1.0", "v20.1.0"));
    assert!(!version_lt_exec("v20.1.0", "v20.1.0"));
}
