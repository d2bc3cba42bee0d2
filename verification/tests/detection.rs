use project_build::json::JsonValue;
use project_build::project_detection::{
    build_script_rank, choose_build_script, detect_build_command, detect_config_output_dir,
    detect_output_dir, detect_package_manager, detect_project, detect_project_type,
    extract_dependency_names, is_non_deploy_build_script, normalize_config_output_value,
    package_script_command, probed_names, read_output_dir_from_config, vite_config_path,
    ProjectDir, ProjectFile, Scripts,
};

fn file(name: &str, content: Option<&str>) -> ProjectFile {
    ProjectFile { name: name.to_string(), is_file: true, content: content.map(|c| c.to_string()) }
}

fn dir(entries: Vec<ProjectFile>) -> ProjectDir {
    ProjectDir { entries }
}

fn scripts(names: &[&str]) -> Scripts {
    let mut s = Scripts::new();
    for n in names {
        s.insert(n.to_string(), format!("run {n}"));
    }
    s
}

fn strings(v: &[&str]) -> Vec<String> {
    v.iter().map(|s| s.to_string()).collect()
}

fn object(members: Vec<(&str, JsonValue)>) -> JsonValue {
    JsonValue::Object(members.into_iter().map(|(k, v)| (k.to_string(), v)).collect())
}

fn deps(names: &[&str]) -> JsonValue {
    object(names.iter().map(|n| (*n, JsonValue::Str("^1.0.0".to_string()))).collect())
}

#[test]
fn package_manager_follows_lock_files() {
    assert_eq!(detect_package_manager(&dir(vec![])), "unknown");
    assert_eq!(detect_package_manager(&dir(vec![file("package-lock.json", None)])), "npm");
    assert_eq!(
        detect_package_manager(&dir(vec![file("yarn.lock", None), file("package-lock.json", None)])),
        "yarn"
    );
    assert_eq!(
        detect_package_manager(&dir(vec![file("yarn.lock", None), file("pnpm-lock.yaml", None)])),
        "pnpm"
    );
    // a directory named like a lock file also counts: it exists
    let lock_dir = ProjectFile { name: "pnpm-lock.yaml".to_string(), is_file: false, content: None };
    assert_eq!(detect_package_manager(&dir(vec![lock_dir])), "pnpm");
}

#[test]
fn vite_config_is_a_file_by_extension_order() {
    assert_eq!(vite_config_path(&dir(vec![])), None);
    let d = dir(vec![file("vite.config.mjs", None), file("vite.config.js", None)]);
    assert_eq!(vite_config_path(&d), Some("vite.config.js".to_string()));
    let not_file = ProjectFile { name: "vite.config.ts".to_string(), is_file: false, content: None };
    let d = dir(vec![not_file, file("vite.config.cjs", None)]);
    assert_eq!(vite_config_path(&d), Some("vite.config.cjs".to_string()));
}

#[test]
fn project_type_precedence() {
    let empty = dir(vec![]);
    let vite = dir(vec![file("vite.config.ts", Some(""))]);
    assert_eq!(detect_project_type(&empty, &strings(&["next", "react"]), &Scripts::new()), "next");
    assert_eq!(detect_project_type(&empty, &strings(&["nuxi"]), &Scripts::new()), "nuxt");
    assert_eq!(detect_project_type(&empty, &strings(&["nuxt", "astro"]), &Scripts::new()), "nuxt");
    assert_eq!(detect_project_type(&empty, &strings(&["astro", "vue"]), &Scripts::new()), "astro");
    assert_eq!(detect_project_type(&empty, &strings(&["@sveltejs/kit"]), &Scripts::new()), "sveltekit");
    assert_eq!(detect_project_type(&vite, &strings(&["vue", "react"]), &Scripts::new()), "vite-vue");
    assert_eq!(detect_project_type(&vite, &strings(&["react"]), &Scripts::new()), "vite-react");
    assert_eq!(detect_project_type(&empty, &strings(&["vue"]), &Scripts::new()), "unknown");
    assert_eq!(detect_project_type(&empty, &strings(&["@vue/cli-service", "vue"]), &Scripts::new()), "vue-cli");
    assert_eq!(detect_project_type(&empty, &strings(&["react-scripts", "react"]), &Scripts::new()), "react");
    assert_eq!(detect_project_type(&empty, &[], &scripts(&["generate"])), "static-generator");
    assert_eq!(detect_project_type(&empty, &[], &scripts(&["build"])), "unknown");
}

#[test]
fn output_dir_from_configuration_text() {
    assert_eq!(
        read_output_dir_from_config("export default { build: { outDir: 'dist-web' } }", "outDir"),
        Some("dist-web".to_string())
    );
    assert_eq!(
        read_output_dir_from_config("build: { outDir: \"  ./public/site\\out \" }", "outDir"),
        Some("site/out".to_string())
    );
    assert_eq!(read_output_dir_from_config("outDir: `${root}/dist`", "outDir"), None);
    assert_eq!(read_output_dir_from_config("outDir: '/abs/dist'", "outDir"), None);
    assert_eq!(read_output_dir_from_config("outDir: resolve(__dirname)", "outDir"), None);
    assert_eq!(read_output_dir_from_config("outDir: 'unterminated", "outDir"), None);
    assert_eq!(read_output_dir_from_config("no key here", "outDir"), None);
    // the first occurrence of the key counts, and the first quote after it
    assert_eq!(
        read_output_dir_from_config("// outDir\nconst x = 'first'; outDir: 'second'", "outDir"),
        Some("first".to_string())
    );
}

#[test]
fn output_value_normalization() {
    assert_eq!(normalize_config_output_value(" ./dist "), Some("dist".to_string()));
    assert_eq!(normalize_config_output_value("././dist"), Some("dist".to_string()));
    assert_eq!(normalize_config_output_value("public/public/app"), Some("app".to_string()));
    assert_eq!(normalize_config_output_value("build\\web"), Some("build/web".to_string()));
    assert_eq!(normalize_config_output_value("./"), None);
    assert_eq!(normalize_config_output_value("/var/www"), None);
    assert_eq!(normalize_config_output_value("${out}"), None);
    assert_eq!(normalize_config_output_value("\u{3000}dist\u{a0}"), Some("dist".to_string()));
}

#[test]
fn output_dir_falls_back_to_framework_default() {
    let empty = dir(vec![]);
    assert_eq!(detect_output_dir(&empty, "react"), "build");
    assert_eq!(detect_output_dir(&empty, "next"), ".next");
    assert_eq!(detect_output_dir(&empty, "nuxt"), ".output/public");
    assert_eq!(detect_output_dir(&empty, "sveltekit"), "build");
    assert_eq!(detect_output_dir(&empty, "vite-vue"), "dist");
    let vue = dir(vec![file("vue.config.js", Some("module.exports = { outputDir: 'www' }"))]);
    assert_eq!(detect_output_dir(&vue, "react"), "www");
    assert_eq!(detect_config_output_dir(&vue), Some("www".to_string()));
}

#[test]
fn config_files_are_read_in_order() {
    // a vite config without outDir falls through to the next configuration
    let d = dir(vec![
        file("vite.config.ts", Some("export default {}")),
        file("webpack.config.js", Some("output: { path: 'bundle' }")),
        file("webpack.config.ts", Some("output: { path: 'other' }")),
    ]);
    assert_eq!(detect_config_output_dir(&d), Some("bundle".to_string()));
    let d = dir(vec![
        file("vite.config.ts", Some("build: { outDir: 'v' }")),
        file("vue.config.js", Some("outputDir: 'w'")),
    ]);
    assert_eq!(detect_config_output_dir(&d), Some("v".to_string()));
    let unreadable = dir(vec![file("webpack.config.ts", None)]);
    assert_eq!(detect_config_output_dir(&unreadable), None);
    let ts_only = dir(vec![file("webpack.config.ts", Some("path: \"out\""))]);
    assert_eq!(detect_config_output_dir(&ts_only), Some("out".to_string()));
}

#[test]
fn build_script_ranks() {
    assert_eq!(build_script_rank("build:prod"), 0);
    assert_eq!(build_script_rank("BUILD:PRODUCTION"), 0);
    assert_eq!(build_script_rank("build:Release"), 1);
    assert_eq!(build_script_rank("build:staging"), 2);
    assert_eq!(build_script_rank("build:preview"), 3);
    assert_eq!(build_script_rank("build:cdn"), 10);
}

#[test]
fn non_deploy_scripts() {
    assert!(is_non_deploy_build_script("build:dev"));
    assert!(is_non_deploy_build_script("build:Types"));
    assert!(is_non_deploy_build_script("build:LIB"));
    assert!(is_non_deploy_build_script("build:storybook"));
    assert!(is_non_deploy_build_script("build:watch"));
    assert!(!is_non_deploy_build_script("build:prod"));
    assert!(!is_non_deploy_build_script("build:staging"));
}

#[test]
fn build_script_choice() {
    assert_eq!(choose_build_script(&scripts(&["dev", "build", "build:prod"])), Some("build:prod".to_string()));
    assert_eq!(choose_build_script(&scripts(&["export", "generate"])), Some("generate".to_string()));
    assert_eq!(choose_build_script(&scripts(&["build:preview", "build"])), Some("build:preview".to_string()));
    assert_eq!(
        choose_build_script(&scripts(&["build:cdn", "build:staging", "build:dev", "build:h5-prod"])),
        Some("build:h5-prod".to_string())
    );
    assert_eq!(choose_build_script(&scripts(&["build:x", "build:y"])), Some("build:x".to_string()));
    assert_eq!(choose_build_script(&scripts(&["build:test", "start"])), None);
    assert_eq!(choose_build_script(&scripts(&["Build:prod"])), None);
}

#[test]
fn package_commands() {
    assert_eq!(package_script_command("pnpm", "build"), "pnpm build");
    assert_eq!(package_script_command("pnpm", "build:prod"), "pnpm build:prod");
    assert_eq!(package_script_command("yarn", "generate"), "yarn generate");
    assert_eq!(package_script_command("npm", "build"), "npm run build");
    assert_eq!(package_script_command("unknown", "export"), "npm run export");
    assert_eq!(detect_build_command(&scripts(&["build"]), "yarn"), "yarn build");
    assert_eq!(detect_build_command(&scripts(&["start"]), "pnpm"), "");
}

#[test]
fn dependency_names_in_order() {
    let pj = object(vec![
        ("name", JsonValue::Str("app".to_string())),
        ("devDependencies", deps(&["vite", "typescript"])),
        ("dependencies", deps(&["vue"])),
    ]);
    assert_eq!(extract_dependency_names(&pj), strings(&["vue", "vite", "typescript"]));
    let odd = object(vec![("dependencies", JsonValue::Array(vec![]))]);
    assert_eq!(extract_dependency_names(&odd), Vec::<String>::new());
    assert_eq!(extract_dependency_names(&JsonValue::Null), Vec::<String>::new());
}

#[test]
fn whole_project_detection() {
    let d = dir(vec![
        file("pnpm-lock.yaml", None),
        file("vite.config.ts", Some("export default defineConfig({ build: { outDir: 'web' } })")),
    ]);
    let pj = object(vec![("dependencies", deps(&["react", "react-dom"]))]);
    let r = detect_project(&d, &pj, &scripts(&["dev", "build"]));
    assert_eq!(r.project_type, "vite-react");
    assert_eq!(r.package_manager, "pnpm");
    assert_eq!(r.build_command, "pnpm build");
    assert_eq!(r.output_dir, "web");
}

#[test]
fn probed_names_cover_detection() {
    let (markers, configs) = probed_names();
    assert!(markers.contains(&"pnpm-lock.yaml".to_string()));
    assert!(markers.contains(&"index.html".to_string()));
    assert_eq!(configs.len(), 9);
    assert!(configs.contains(&"webpack.config.ts".to_string()));
}

#[test]
fn scripts_keep_one_entry_per_name() {
    let mut s = Scripts::new();
    s.insert("build:cdn".to_string(), "a".to_string());
    s.insert("generate".to_string(), "b".to_string());
    s.insert("build:cdn".to_string(), "c".to_string());
    assert_eq!(detect_build_command(&s, "npm"), "npm run generate");
    let pairs = vec![
        ("build:cdn".to_string(), "a".to_string()),
        ("build:cdn".to_string(), "b".to_string()),
    ];
    let collected = Scripts::collect_from(&pairs);
    assert_eq!(choose_build_script(&collected), Some("build:cdn".to_string()));
    assert_eq!(detect_project_type(&ProjectDir { entries: vec![] }, &[], &collected), "unknown");
}
