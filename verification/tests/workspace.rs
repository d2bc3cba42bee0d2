use project_build::json::JsonValue;
use project_build::monorepo::{
    collect_workspace_globs, glob_match_helper, is_deployable_package,
    monorepo_package_from_manifest, monorepo_package_from_text, parse_pnpm_workspace_yaml,
    plan_workspace_glob, select_matching_dirs, select_monorepo_packages, simple_glob_match,
    GlobPlan,
};
use project_build::project_detection::{MonorepoPackage, ProjectDir, ProjectFile};

fn strings(v: &[&str]) -> Vec<String> {
    v.iter().map(|s| s.to_string()).collect()
}

fn object(members: Vec<(&str, JsonValue)>) -> JsonValue {
    JsonValue::Object(members.into_iter().map(|(k, v)| (k.to_string(), v)).collect())
}

fn str_array(items: &[&str]) -> JsonValue {
    JsonValue::Array(items.iter().map(|s| JsonValue::Str(s.to_string())).collect())
}

fn package(path: &str, name: &str) -> MonorepoPackage {
    MonorepoPackage {
        name: name.to_string(),
        relative_path: path.to_string(),
        project_type: "vite-vue".to_string(),
        build_command: "pnpm build".to_string(),
        output_dir: "dist".to_string(),
    }
}

#[test]
fn pnpm_workspace_yaml_packages() {
    let yaml = "# workspace\npackages:\n  - 'apps/*'\n  - \"packages/*\"\n  # - ignored\n  -   tools/cli  \n\ncatalog:\n  - not-a-glob\n";
    assert_eq!(parse_pnpm_workspace_yaml(yaml), strings(&["apps/*", "packages/*", "tools/cli"]));
    let crlf = "packages:\r\n\t- web\r\n  - ''\r\n";
    assert_eq!(parse_pnpm_workspace_yaml(crlf), strings(&["web"]));
    assert_eq!(parse_pnpm_workspace_yaml(""), Vec::<String>::new());
    assert_eq!(parse_pnpm_workspace_yaml("  - apps/*\n"), Vec::<String>::new());
}

#[test]
fn workspace_globs_from_yaml_and_package_json() {
    let pj = object(vec![("workspaces", str_array(&["apps/*", "libs/ui"]))]);
    assert_eq!(
        collect_workspace_globs(Some("packages:\n  - site\n"), &pj),
        strings(&["site", "apps/*", "libs/ui"])
    );
    let pj = object(vec![(
        "workspaces",
        object(vec![("packages", str_array(&["web/*"])), ("nohoist", str_array(&["x"]))]),
    )]);
    assert_eq!(collect_workspace_globs(None, &pj), strings(&["web/*"]));
    let pj = object(vec![("workspaces", JsonValue::Array(vec![JsonValue::Null, JsonValue::Str("a".to_string())]))]);
    assert_eq!(collect_workspace_globs(None, &pj), strings(&["a"]));
    assert_eq!(collect_workspace_globs(None, &JsonValue::Null), Vec::<String>::new());
}

#[test]
fn glob_plans() {
    match plan_workspace_glob(" ./apps/my-app ") {
        GlobPlan::Direct { path } => assert_eq!(path, "apps/my-app"),
        _ => panic!("expected a direct path"),
    }
    match plan_workspace_glob("apps/*") {
        GlobPlan::Scan { prefix, pattern, suffix } => {
            assert_eq!(prefix, strings(&["apps"]));
            assert_eq!(pattern, "*");
            assert_eq!(suffix, None);
        }
        _ => panic!("expected a scan"),
    }
    match plan_workspace_glob("./a/b/web-?/app/src") {
        GlobPlan::Scan { prefix, pattern, suffix } => {
            assert_eq!(prefix, strings(&["a", "b"]));
            assert_eq!(pattern, "web-?");
            assert_eq!(suffix, Some("app/src".to_string()));
        }
        _ => panic!("expected a scan"),
    }
    match plan_workspace_glob("*") {
        GlobPlan::Scan { prefix, pattern, suffix } => {
            assert!(prefix.is_empty());
            assert_eq!(pattern, "*");
            assert_eq!(suffix, None);
        }
        _ => panic!("expected a scan"),
    }
}

#[test]
fn simple_globs() {
    assert!(simple_glob_match("*", ""));
    assert!(simple_glob_match("*", "anything"));
    assert!(simple_glob_match("web-*", "web-admin"));
    assert!(!simple_glob_match("web-*", "admin"));
    assert!(simple_glob_match("a?c", "abc"));
    assert!(!simple_glob_match("a?c", "ac"));
    assert!(simple_glob_match("*-app-*", "my-app-v2"));
    assert!(!simple_glob_match("*.js", "main.ts"));
    assert!(simple_glob_match("exact", "exact"));
    assert!(!simple_glob_match("exact", "exactly"));
    // '?' matches one character, however many bytes it takes
    assert!(simple_glob_match("?", "é"));
    assert!(!simple_glob_match("??", "é"));
    // '*' does not match across '/'
    assert!(!simple_glob_match("*", "a/b"));
    assert!(simple_glob_match("a?b", "a/b"));
    assert!(!simple_glob_match("a*", "a/"));
    let p: Vec<char> = "x*y".chars().collect();
    let t: Vec<char> = "zzy".chars().collect();
    assert!(glob_match_helper(&p, 1, &t, 0));
}

#[test]
fn deployable_packages() {
    let with_index = ProjectDir {
        entries: vec![ProjectFile { name: "index.html".to_string(), is_file: true, content: None }],
    };
    let bare = ProjectDir { entries: vec![] };
    assert!(is_deployable_package(&with_index, "unknown"));
    assert!(is_deployable_package(&bare, "vite-react"));
    assert!(!is_deployable_package(&bare, "unknown"));
}

#[test]
fn package_from_manifest() {
    let pj = object(vec![
        ("name", JsonValue::Str("@acme/admin".to_string())),
        (
            "scripts",
            object(vec![
                ("build:staging", JsonValue::Str("vite build".to_string())),
                ("build:prod", JsonValue::Str("vite build --mode production".to_string())),
                ("lint", JsonValue::Bool(true)),
            ]),
        ),
        ("dependencies", object(vec![("vue", JsonValue::Str("^3".to_string()))])),
    ]);
    let d = ProjectDir {
        entries: vec![ProjectFile {
            name: "vite.config.ts".to_string(),
            is_file: true,
            content: Some("build: { outDir: '../../dist/admin' }".to_string()),
        }],
    };
    let p = monorepo_package_from_manifest(&pj, Some("admin"), Some("apps\\admin"), &d, "pnpm");
    assert_eq!(p.name, "@acme/admin");
    assert_eq!(p.relative_path, "apps/admin");
    assert_eq!(p.project_type, "vite-vue");
    assert_eq!(p.build_command, "pnpm build:prod");
    assert_eq!(p.output_dir, "../../dist/admin");

    let unnamed = object(vec![("name", JsonValue::Number("1".to_string()))]);
    let p = monorepo_package_from_manifest(&unnamed, Some("web"), None, &ProjectDir { entries: vec![] }, "npm");
    assert_eq!(p.name, "web");
    assert_eq!(p.relative_path, "");
    assert_eq!(p.project_type, "unknown");
    assert_eq!(p.build_command, "");
    assert_eq!(p.output_dir, "dist");
    let p = monorepo_package_from_manifest(&JsonValue::Null, None, Some("x"), &ProjectDir { entries: vec![] }, "npm");
    assert_eq!(p.name, "unknown");
}

#[test]
fn selection_dedups_filters_and_sorts() {
    let candidates = vec![
        (package("packages/ui", "ui"), false),
        (package("apps/web", "web"), true),
        (package("apps/admin", "admin"), true),
        (package("apps/web", "web-again"), true),
        (package("apps/docs", "docs"), false),
        (package("packages/ui", "ui-app"), true),
    ];
    let selected = select_monorepo_packages(&candidates);
    let paths: Vec<&str> = selected.iter().map(|p| p.relative_path.as_str()).collect();
    assert_eq!(paths, vec!["apps/admin", "apps/web", "packages/ui"]);
    let names: Vec<&str> = selected.iter().map(|p| p.name.as_str()).collect();
    assert_eq!(names, vec!["admin", "web", "ui-app"]);
    assert!(select_monorepo_packages(&vec![]).is_empty());
}

#[test]
fn glob_helper_indices_past_the_end() {
    let text = ['a', 'b'];
    // past the end of the text only a last `*` matches
    assert!(glob_match_helper(&['*'], 0, &text, 5));
    assert!(glob_match_helper(&['x', '*'], 1, &text, 3));
    assert!(!glob_match_helper(&['*', 'x'], 0, &text, 3));
    assert!(!glob_match_helper(&['?'], 0, &text, 3));
    assert!(!glob_match_helper(&[], 0, &text, 3));
    // past the end of the pattern only the end of the text matches
    assert!(glob_match_helper(&['a'], 4, &text, 2));
    assert!(!glob_match_helper(&['a'], 4, &text, 1));
}

#[test]
fn package_from_package_json_text() {
    let probe = ProjectDir {
        entries: vec![ProjectFile {
            name: "vite.config.ts".to_string(),
            is_file: true,
            content: Some("export default { build: { outDir: 'out' } }".to_string()),
        }],
    };
    let text = r#"{"name":"web","scripts":{"dev":"vite","build":"vite build","n":1},"dependencies":{"vue":"^3.4"}}"#;
    let p = monorepo_package_from_text(text, Some("web-dir"), Some("apps\\web"), &probe, "pnpm").unwrap();
    assert_eq!(p.name, "web");
    assert_eq!(p.relative_path, "apps/web");
    assert_eq!(p.project_type, "vite-vue");
    assert_eq!(p.build_command, "pnpm build");
    assert_eq!(p.output_dir, "out");

    let empty = ProjectDir { entries: vec![] };
    let q = monorepo_package_from_text(r#"{"scripts":{"build:prod":"x"}}"#, Some("admin"), Some("apps/admin"), &empty, "yarn")
        .unwrap();
    assert_eq!(q.name, "admin");
    assert_eq!(q.project_type, "unknown");
    assert_eq!(q.build_command, "yarn build:prod");
    assert_eq!(q.output_dir, "dist");

    assert!(monorepo_package_from_text("{ not json", Some("x"), Some("x"), &empty, "npm").is_none());
    assert!(monorepo_package_from_text("", Some("x"), Some("x"), &empty, "npm").is_none());
}

#[test]
fn duplicate_script_names_count_once() {
    let empty = ProjectDir { entries: vec![] };
    let manifest = object(vec![(
        "scripts",
        object(vec![
            ("build:cdn", JsonValue::Str("a".to_string())),
            ("build:cdn", JsonValue::Str("b".to_string())),
            ("generate", JsonValue::Str("c".to_string())),
        ]),
    )]);
    let p = monorepo_package_from_manifest(&manifest, Some("site"), Some("site"), &empty, "npm");
    assert_eq!(p.build_command, "npm run generate");
    assert_eq!(p.project_type, "static-generator");
}

#[test]
fn matching_directories_of_a_listing() {
    let listing = vec![
        ("web".to_string(), true),
        ("web.txt".to_string(), false),
        ("admin".to_string(), true),
        ("docs".to_string(), true),
    ];
    assert_eq!(select_matching_dirs("*", &listing), strings(&["web", "admin", "docs"]));
    assert_eq!(select_matching_dirs("we?", &listing), strings(&["web"]));
    assert_eq!(select_matching_dirs("web*", &listing), strings(&["web"]));
    assert!(select_matching_dirs("x*", &listing).is_empty());
}
