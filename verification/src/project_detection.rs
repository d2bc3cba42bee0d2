//! Detection of a front-end project's type, package manager, build command and
//! output directory, from what its directory and `package.json` hold.
use vstd::prelude::*;

use crate::json::{
    get, json_get, object_key_list, object_keys, text_pairs, texts, JsonValue,
};
use crate::text::{
    chars_of, contains, contains_exec, find, find_exec, lowercase_of,
    matches_at, replace_char, replace_char_exec, starts_with, starts_with_exec, str_eq,
    string_from_chars, strip_prefixes, strip_prefixes_exec, sub_chars, to_lowercase, trim,
    trim_chars,
};

verus! {

/// What detection found for a project.
pub struct ProjectDetection {
    pub project_type: String,
    pub package_manager: String,
    pub build_command: String,
    pub output_dir: String,
}

/// A deployable package of a monorepo.
pub struct MonorepoPackage {
    pub name: String,
    pub relative_path: String,
    pub project_type: String,
    pub build_command: String,
    pub output_dir: String,
}

/// A path directly under a project directory, as probed on disk: whether it
/// is a regular file, and its text when it was read.
pub struct ProjectFile {
    pub name: String,
    pub is_file: bool,
    pub content: Option<String>,
}

/// The probed paths of a project directory; a name that no entry carries
/// does not exist.
pub struct ProjectDir {
    pub entries: Vec<ProjectFile>,
}

/// The first entry named `name`.
pub open spec fn entry_named(entries: Seq<ProjectFile>, name: Seq<char>) -> Option<ProjectFile>
    decreases entries.len(),
{
    if entries.len() == 0 {
        None
    } else if entries[0].name@ == name {
        Some(entries[0])
    } else {
        entry_named(entries.drop_first(), name)
    }
}

pub open spec fn path_exists(dir: ProjectDir, name: Seq<char>) -> bool {
    entry_named(dir.entries@, name) is Some
}

pub open spec fn path_is_file(dir: ProjectDir, name: Seq<char>) -> bool {
    match entry_named(dir.entries@, name) {
        Some(e) => e.is_file,
        None => false,
    }
}

/// The text of the file `name`, when it could be read.
pub open spec fn file_text(dir: ProjectDir, name: Seq<char>) -> Option<Seq<char>> {
    match entry_named(dir.entries@, name) {
        Some(e) => match e.content {
            Some(c) => Some(c@),
            None => None,
        },
        None => None,
    }
}

proof fn lemma_entry_named_skip(entries: Seq<ProjectFile>, name: Seq<char>, i: int)
    requires
        0 <= i <= entries.len(),
        forall|j: int| 0 <= j < i ==> (#[trigger] entries[j]).name@ != name,
    ensures
        entry_named(entries, name) == entry_named(entries.skip(i), name),
    decreases i,
{
    if i > 0 {
        assert(entries.drop_first().skip(i - 1) =~= entries.skip(i));
        lemma_entry_named_skip(entries.drop_first(), name, i - 1);
    } else {
        assert(entries.skip(0) =~= entries);
    }
}

/// The first entry of `dir` named `name`.
pub fn find_entry<'a>(dir: &'a ProjectDir, name: &str) -> (r: Option<&'a ProjectFile>)
    ensures
        match r {
            Some(e) => entry_named(dir.entries@, name@) == Some(*e),
            None => entry_named(dir.entries@, name@) is None,
        },
{
    let mut i: usize = 0;
    while i < dir.entries.len()
        invariant
            i <= dir.entries@.len(),
            forall|j: int| 0 <= j < i ==> (#[trigger] dir.entries@[j]).name@ != name@,
        decreases dir.entries@.len() - i,
    {
        if str_eq(dir.entries[i].name.as_str(), name) {
            proof {
                lemma_entry_named_skip(dir.entries@, name@, i as int);
                assert(dir.entries@.skip(i as int)[0] == dir.entries@[i as int]);
            }
            return Some(&dir.entries[i]);
        }
        i += 1;
    }
    proof {
        lemma_entry_named_skip(dir.entries@, name@, i as int);
    }
    None
}

pub fn exists_in(dir: &ProjectDir, name: &str) -> (r: bool)
    ensures
        r == path_exists(*dir, name@),
{
    find_entry(dir, name).is_some()
}

pub fn is_file_in(dir: &ProjectDir, name: &str) -> (r: bool)
    ensures
        r == path_is_file(*dir, name@),
{
    match find_entry(dir, name) {
        Some(e) => e.is_file,
        None => false,
    }
}

/// The names whose existence detection looks at.
pub open spec fn marker_names() -> Seq<Seq<char>> {
    seq!["pnpm-lock.yaml"@, "yarn.lock"@, "package-lock.json"@, "index.html"@]
}

/// The configuration files whose text detection reads.
pub open spec fn config_names() -> Seq<Seq<char>> {
    seq![
        "vite.config.ts"@,
        "vite.config.js"@,
        "vite.config.mts"@,
        "vite.config.mjs"@,
        "vite.config.cts"@,
        "vite.config.cjs"@,
        "vue.config.js"@,
        "webpack.config.js"@,
        "webpack.config.ts"@,
    ]
}

/// The paths a `ProjectDir` must describe for detection: marker files, whose
/// existence counts, and configuration files, whose text counts.
pub fn probed_names() -> (r: (Vec<String>, Vec<String>))
    ensures
        texts(r.0@) == marker_names(),
        texts(r.1@) == config_names(),
{
    let markers = vec![
        "pnpm-lock.yaml".to_owned(),
        "yarn.lock".to_owned(),
        "package-lock.json".to_owned(),
        "index.html".to_owned(),
    ];
    let configs = vec![
        "vite.config.ts".to_owned(),
        "vite.config.js".to_owned(),
        "vite.config.mts".to_owned(),
        "vite.config.mjs".to_owned(),
        "vite.config.cts".to_owned(),
        "vite.config.cjs".to_owned(),
        "vue.config.js".to_owned(),
        "webpack.config.js".to_owned(),
        "webpack.config.ts".to_owned(),
    ];
    assert(texts(markers@) =~= marker_names());
    assert(texts(configs@) =~= config_names());
    (markers, configs)
}

// ==================== package manager ====================

pub open spec fn package_manager_of(dir: ProjectDir) -> Seq<char> {
    if path_exists(dir, "pnpm-lock.yaml"@) {
        "pnpm"@
    } else if path_exists(dir, "yarn.lock"@) {
        "yarn"@
    } else if path_exists(dir, "package-lock.json"@) {
        "npm"@
    } else {
        "unknown"@
    }
}

/// The package manager that the lock file in the project shows.
pub fn detect_package_manager(project_path: &ProjectDir) -> (r: String)
    ensures
        r@ == package_manager_of(*project_path),
{
    if exists_in(project_path, "pnpm-lock.yaml") {
        return "pnpm".to_owned();
    }
    if exists_in(project_path, "yarn.lock") {
        return "yarn".to_owned();
    }
    if exists_in(project_path, "package-lock.json") {
        return "npm".to_owned();
    }
    "unknown".to_owned()
}

// ==================== configuration files ====================

/// The vite configuration file of the project, by the order of extensions.
pub open spec fn vite_config_name(dir: ProjectDir) -> Option<Seq<char>> {
    if path_is_file(dir, "vite.config.ts"@) {
        Some("vite.config.ts"@)
    } else if path_is_file(dir, "vite.config.js"@) {
        Some("vite.config.js"@)
    } else if path_is_file(dir, "vite.config.mts"@) {
        Some("vite.config.mts"@)
    } else if path_is_file(dir, "vite.config.mjs"@) {
        Some("vite.config.mjs"@)
    } else if path_is_file(dir, "vite.config.cts"@) {
        Some("vite.config.cts"@)
    } else if path_is_file(dir, "vite.config.cjs"@) {
        Some("vite.config.cjs"@)
    } else {
        None
    }
}

/// The name of the project's vite configuration file.
pub fn vite_config_path(project_path: &ProjectDir) -> (r: Option<String>)
    ensures
        match r {
            Some(n) => vite_config_name(*project_path) == Some(n@),
            None => vite_config_name(*project_path) is None,
        },
{
    if is_file_in(project_path, "vite.config.ts") {
        return Some("vite.config.ts".to_owned());
    }
    if is_file_in(project_path, "vite.config.js") {
        return Some("vite.config.js".to_owned());
    }
    if is_file_in(project_path, "vite.config.mts") {
        return Some("vite.config.mts".to_owned());
    }
    if is_file_in(project_path, "vite.config.mjs") {
        return Some("vite.config.mjs".to_owned());
    }
    if is_file_in(project_path, "vite.config.cts") {
        return Some("vite.config.cts".to_owned());
    }
    if is_file_in(project_path, "vite.config.cjs") {
        return Some("vite.config.cjs".to_owned());
    }
    None
}

pub open spec fn is_quote(c: char) -> bool {
    c == '"' || c == '\'' || c == '`'
}

/// The index of the first quote character in `s`.
pub open spec fn first_quote(s: Seq<char>) -> Option<int> {
    if exists|i: int| 0 <= i < s.len() && is_quote(s[i]) {
        Some(
            choose|i: int|
                0 <= i < s.len() && is_quote(s[i]) && forall|j: int| 0 <= j < i ==> !is_quote(s[j]),
        )
    } else {
        None
    }
}

/// An output directory as a configuration states it, cleaned: trimmed, without
/// leading `./` and `public/`, with `/` for `\`; nothing when it is empty,
/// interpolated (`${`) or absolute.
pub open spec fn normalized_output_value(raw: Seq<char>) -> Option<Seq<char>> {
    let v = replace_char(
        trim(strip_prefixes(strip_prefixes(trim(raw), "./"@), "public/"@)),
        '\\',
        '/',
    );
    if v.len() == 0 || contains(v, "${"@) || starts_with(v, "/"@) {
        None
    } else {
        Some(v)
    }
}

/// The quoted text at the start of `after`'s first quotation, trimmed.
pub open spec fn quoted_value(after: Seq<char>) -> Option<Seq<char>> {
    match first_quote(after) {
        None => None,
        Some(vs) => {
            let body = after.skip(vs + 1);
            match find(body, seq![after[vs]]) {
                None => None,
                Some(ve) => Some(trim(body.take(ve))),
            }
        },
    }
}

/// The quoted text that first follows the first occurrence of `key`, trimmed.
pub open spec fn config_value(content: Seq<char>, key: Seq<char>) -> Option<Seq<char>> {
    match find(content, key) {
        None => None,
        Some(kp) => quoted_value(content.skip(kp + key.len())),
    }
}

/// The output directory that a configuration text gives under `key`.
pub open spec fn config_output_value(content: Seq<char>, key: Seq<char>) -> Option<Seq<char>> {
    match config_value(content, key) {
        Some(raw) => normalized_output_value(raw),
        None => None,
    }
}

/// The output directory that the readable file `name` gives under `key`.
pub open spec fn output_from(dir: ProjectDir, name: Seq<char>, key: Seq<char>) -> Option<
    Seq<char>,
> {
    match file_text(dir, name) {
        Some(c) => config_output_value(c, key),
        None => None,
    }
}

/// The output directory from the first configuration that gives one: vite's
/// `outDir`, then `outputDir` of vue.config.js, then `path` of the webpack
/// configurations.
pub open spec fn config_output_dir_of(dir: ProjectDir) -> Option<Seq<char>> {
    let vite = match vite_config_name(dir) {
        Some(n) => output_from(dir, n, "outDir"@),
        None => None,
    };
    if vite is Some {
        vite
    } else if output_from(dir, "vue.config.js"@, "outputDir"@) is Some {
        output_from(dir, "vue.config.js"@, "outputDir"@)
    } else if output_from(dir, "webpack.config.js"@, "path"@) is Some {
        output_from(dir, "webpack.config.js"@, "path"@)
    } else {
        output_from(dir, "webpack.config.ts"@, "path"@)
    }
}

/// Cleans an output directory read from a configuration.
pub fn normalize_config_output_value(raw_value: &str) -> (r: Option<String>)
    ensures
        match r {
            Some(v) => normalized_output_value(raw_value@) == Some(v@),
            None => normalized_output_value(raw_value@) is None,
        },
{
    let raw = chars_of(raw_value);
    let t1 = trim_chars(raw.as_slice());
    let dot = chars_of("./");
    let t2 = strip_prefixes_exec(t1.as_slice(), dot.as_slice());
    let public = chars_of("public/");
    let t3 = strip_prefixes_exec(t2.as_slice(), public.as_slice());
    let t4 = trim_chars(t3.as_slice());
    let v = replace_char_exec(t4.as_slice(), '\\', '/');
    let interp = chars_of("${");
    let slash = chars_of("/");
    if v.len() == 0 || contains_exec(v.as_slice(), interp.as_slice()) || starts_with_exec(
        v.as_slice(),
        slash.as_slice(),
    ) {
        return None;
    }
    Some(string_from_chars(v.as_slice()))
}

/// The index of the first quote character in `s`.
pub fn first_quote_exec(s: &[char]) -> (r: Option<usize>)
    ensures
        match r {
            Some(i) => {
                &&& first_quote(s@) == Some(i as int)
                &&& i < s@.len()
                &&& is_quote(s@[i as int])
            },
            None => first_quote(s@) is None,
        },
{
    let mut i: usize = 0;
    while i < s.len()
        invariant
            i <= s@.len(),
            forall|j: int| 0 <= j < i ==> !is_quote(s@[j]),
        decreases s@.len() - i,
    {
        let c = s[i];
        if c == '"' || c == '\'' || c == '`' {
            let ghost w = choose|k: int|
                0 <= k < s@.len() && is_quote(s@[k]) && forall|j: int|
                    0 <= j < k ==> !is_quote(s@[j]);
            assert(is_quote(s@[i as int]));
            assert(w == i) by {
                if w < i {
                    assert(!is_quote(s@[w]));
                } else if w > i {
                    assert(!is_quote(s@[i as int]));
                }
            }
            return Some(i);
        }
        i += 1;
    }
    None
}

/// The trimmed text of the first quotation in `after`.
fn quoted_value_exec(after: &[char]) -> (r: Option<Vec<char>>)
    ensures
        match r {
            Some(v) => quoted_value(after@) == Some(v@),
            None => quoted_value(after@) is None,
        },
{
    let value_start = match first_quote_exec(after) {
        Some(v) => v,
        None => return None,
    };
    let quote = vec![after[value_start]];
    let body = sub_chars(after, value_start + 1, after.len());
    assert(body@ =~= after@.skip(value_start + 1));
    assert(quote@ =~= seq![after@[value_start as int]]);
    let value_end = match find_exec(body.as_slice(), quote.as_slice()) {
        Some(e) => e,
        None => return None,
    };
    let raw = sub_chars(body.as_slice(), 0, value_end);
    assert(raw@ =~= body@.take(value_end as int));
    Some(trim_chars(raw.as_slice()))
}

/// The output directory that a configuration text gives under `key`.
pub fn read_output_dir_from_config(content: &str, key: &str) -> (r: Option<String>)
    ensures
        match r {
            Some(v) => config_output_value(content@, key@) == Some(v@),
            None => config_output_value(content@, key@) is None,
        },
{
    let c = chars_of(content);
    let k = chars_of(key);
    let key_position = match find_exec(c.as_slice(), k.as_slice()) {
        Some(p) => p,
        None => return None,
    };
    assert(matches_at(c@, k@, key_position as int));
    let n = c.len();
    let after = sub_chars(c.as_slice(), key_position + k.len(), n);
    assert(after@ =~= c@.skip(key_position + k@.len()));
    let raw_value = match quoted_value_exec(after.as_slice()) {
        Some(v) => v,
        None => return None,
    };
    let raw_text = string_from_chars(raw_value.as_slice());
    normalize_config_output_value(raw_text.as_str())
}

/// The output directory that the readable file `name` gives under `key`.
fn output_dir_from_file(project_path: &ProjectDir, name: &str, key: &str) -> (r: Option<String>)
    ensures
        match r {
            Some(v) => output_from(*project_path, name@, key@) == Some(v@),
            None => output_from(*project_path, name@, key@) is None,
        },
{
    match find_entry(project_path, name) {
        Some(e) => match &e.content {
            Some(c) => read_output_dir_from_config(c.as_str(), key),
            None => None,
        },
        None => None,
    }
}

/// The output directory that the project's build configuration names.
pub fn detect_config_output_dir(project_path: &ProjectDir) -> (r: Option<String>)
    ensures
        match r {
            Some(v) => config_output_dir_of(*project_path) == Some(v@),
            None => config_output_dir_of(*project_path) is None,
        },
{
    match vite_config_path(project_path) {
        Some(name) => {
            let found = output_dir_from_file(project_path, name.as_str(), "outDir");
            if found.is_some() {
                return found;
            }
        },
        None => {},
    }
    let vue = output_dir_from_file(project_path, "vue.config.js", "outputDir");
    if vue.is_some() {
        return vue;
    }
    let webpack = output_dir_from_file(project_path, "webpack.config.js", "path");
    if webpack.is_some() {
        return webpack;
    }
    output_dir_from_file(project_path, "webpack.config.ts", "path")
}


// ==================== output directory ====================

/// The output directory a framework builds into by default.
pub open spec fn default_output_dir(project_type: Seq<char>) -> Seq<char> {
    if project_type == "react"@ {
        "build"@
    } else if project_type == "next"@ {
        ".next"@
    } else if project_type == "nuxt"@ {
        ".output/public"@
    } else if project_type == "sveltekit"@ {
        "build"@
    } else {
        "dist"@
    }
}

pub open spec fn output_dir_of(dir: ProjectDir, project_type: Seq<char>) -> Seq<char> {
    match config_output_dir_of(dir) {
        Some(d) => d,
        None => default_output_dir(project_type),
    }
}

/// The output directory: the one the configuration names, else the
/// framework's default.
pub fn detect_output_dir(project_path: &ProjectDir, project_type: &str) -> (r: String)
    ensures
        r@ == output_dir_of(*project_path, project_type@),
{
    if let Some(output_dir) = detect_config_output_dir(project_path) {
        return output_dir;
    }
    if str_eq(project_type, "react") {
        "build".to_owned()
    } else if str_eq(project_type, "next") {
        ".next".to_owned()
    } else if str_eq(project_type, "nuxt") {
        ".output/public".to_owned()
    } else if str_eq(project_type, "sveltekit") {
        "build".to_owned()
    } else {
        "dist".to_owned()
    }
}

// ==================== project type ====================

/// The names of scripts, in order.
pub open spec fn script_names(scripts: Seq<(String, String)>) -> Seq<Seq<char>> {
    scripts.map_values(|p: (String, String)| p.0@)
}

/// No name occurs twice.
pub open spec fn distinct_names(names: Seq<Seq<char>>) -> bool {
    forall|i: int, j: int| 0 <= i < j < names.len() ==> names[i] != names[j]
}

/// The scripts of a `package.json`: commands by name, no name twice.
pub struct Scripts {
    entries: Vec<(String, String)>,
}

impl Scripts {
    /// No name occurs twice.
    #[verifier::type_invariant]
    spec fn distinct(self) -> bool {
        distinct_names(script_names(self.entries@))
    }
}

impl View for Scripts {
    /// The (name, command) pairs, in the order the names were first added.
    type V = Seq<(Seq<char>, Seq<char>)>;

    closed spec fn view(&self) -> Seq<(Seq<char>, Seq<char>)> {
        text_pairs(self.entries@)
    }
}

/// The names of (name, command) pairs, in order.
pub open spec fn names_of(scripts: Seq<(Seq<char>, Seq<char>)>) -> Seq<Seq<char>> {
    scripts.map_values(|p: (Seq<char>, Seq<char>)| p.0)
}

/// The scripts after `name` is set to `command`: a name already there keeps
/// its place and takes the new command, a new name comes last.
pub open spec fn with_script(
    scripts: Seq<(Seq<char>, Seq<char>)>,
    name: Seq<char>,
    command: Seq<char>,
) -> Seq<(Seq<char>, Seq<char>)> {
    if names_of(scripts).contains(name) {
        scripts.update(
            choose|i: int| 0 <= i < scripts.len() && scripts[i].0 == name,
            (name, command),
        )
    } else {
        scripts.push((name, command))
    }
}

/// The scripts that the pairs give when each is set in turn, as collecting
/// them into a map does: a later command for a name replaces an earlier one.
pub open spec fn collected(pairs: Seq<(Seq<char>, Seq<char>)>) -> Seq<(Seq<char>, Seq<char>)>
    decreases pairs.len(),
{
    if pairs.len() == 0 {
        Seq::empty()
    } else {
        with_script(collected(pairs.drop_last()), pairs.last().0, pairs.last().1)
    }
}

/// The position of the script named `name`.
fn script_position(entries: &[(String, String)], name: &str) -> (r: Option<usize>)
    ensures
        match r {
            Some(i) => i < entries@.len() && entries@[i as int].0@ == name@,
            None => forall|j: int| 0 <= j < entries@.len() ==> entries@[j].0@ != name@,
        },
{
    let mut i: usize = 0;
    while i < entries.len()
        invariant
            i <= entries@.len(),
            forall|j: int| 0 <= j < i ==> entries@[j].0@ != name@,
        decreases entries@.len() - i,
    {
        if str_eq(entries[i].0.as_str(), name) {
            return Some(i);
        }
        i += 1;
    }
    None
}

impl Scripts {
    /// No scripts.
    pub fn new() -> (r: Scripts)
        ensures
            r@ == Seq::<(Seq<char>, Seq<char>)>::empty(),
    {
        let r = Scripts { entries: Vec::new() };
        assert(r@ =~= Seq::<(Seq<char>, Seq<char>)>::empty());
        r
    }

    /// The names, in order, are those of the view.
    proof fn lemma_names(&self)
        ensures
            script_names(self.entries@) == names_of(self@),
    {
        assert(script_names(self.entries@) =~= names_of(self@));
    }

    /// Sets the script `name` to `command`.
    pub fn insert(&mut self, name: String, command: String)
        ensures
            final(self)@ == with_script(old(self)@, name@, command@),
    {
        proof {
            use_type_invariant(&*self);
            self.lemma_names();
        }
        let ghost before = *self;
        let ghost old_entries = self.entries@;
        let pos = script_position(self.entries.as_slice(), name.as_str());
        let mut t = Scripts::new();
        std::mem::swap(&mut t, self);
        let mut entries = t.entries;
        assert(entries@ == old_entries);
        let ghost item = (name@, command@);
        match pos {
            Some(i) => {
                proof {
                    assert(old_entries[i as int].0@ == name@);
                    assert(names_of(before@)[i as int] == name@);
                    let c = choose|c: int|
                        0 <= c < before@.len() && before@[c].0 == name@;
                    assert(before@[i as int].0 == name@);
                    assert(names_of(before@)[c] == name@);
                    assert(c == i);
                }
                entries.set(i, (name, command));
                proof {
                    assert(text_pairs(entries@) =~= before@.update(i as int, item));
                    assert forall|a: int, b: int|
                        0 <= a < b < script_names(entries@).len() implies script_names(
                        entries@,
                    )[a] != script_names(entries@)[b] by {
                        assert(script_names(entries@)[a] == script_names(old_entries)[a]);
                        assert(script_names(entries@)[b] == script_names(old_entries)[b]);
                    }
                }
            },
            None => {
                proof {
                    assert forall|j: int| 0 <= j < names_of(before@).len() implies names_of(
                        before@,
                    )[j] != name@ by {
                        assert(names_of(before@)[j] == old_entries[j].0@);
                    }
                }
                entries.push((name, command));
                proof {
                    assert(text_pairs(entries@) =~= before@.push(item));
                    assert forall|a: int, b: int|
                        0 <= a < b < script_names(entries@).len() implies script_names(
                        entries@,
                    )[a] != script_names(entries@)[b] by {
                        assert(script_names(entries@)[a] == script_names(old_entries)[a]);
                        if b < old_entries.len() {
                            assert(script_names(entries@)[b] == script_names(old_entries)[b]);
                        }
                    }
                }
            },
        }
        *self = Scripts { entries };
    }

    /// The scripts that `pairs` give when collected by name, a later command
    /// replacing an earlier one.
    pub fn collect_from(pairs: &[(String, String)]) -> (r: Scripts)
        ensures
            r@ == collected(text_pairs(pairs@)),
    {
        let mut r = Scripts::new();
        let mut i: usize = 0;
        while i < pairs.len()
            invariant
                i <= pairs@.len(),
                r@ == collected(text_pairs(pairs@).take(i as int)),
            decreases pairs@.len() - i,
        {
            proof {
                let tp = text_pairs(pairs@);
                assert(tp.take(i + 1).drop_last() =~= tp.take(i as int));
                assert(tp.take(i + 1).last() == tp[i as int]);
            }
            r.insert(pairs[i].0.clone(), pairs[i].1.clone());
            i += 1;
        }
        assert(text_pairs(pairs@).take(i as int) =~= text_pairs(pairs@));
        r
    }
}

/// The framework that the dependencies, the vite configuration and the
/// scripts show, by a fixed order of precedence.
pub open spec fn project_type_of(
    dir: ProjectDir,
    dependencies: Seq<Seq<char>>,
    scripts: Seq<Seq<char>>,
) -> Seq<char> {
    let has_vite_config = vite_config_name(dir) is Some;
    if dependencies.contains("next"@) {
        "next"@
    } else if dependencies.contains("nuxt"@) || dependencies.contains("nuxi"@) {
        "nuxt"@
    } else if dependencies.contains("astro"@) {
        "astro"@
    } else if dependencies.contains("@sveltejs/kit"@) {
        "sveltekit"@
    } else if has_vite_config && dependencies.contains("vue"@) {
        "vite-vue"@
    } else if has_vite_config && dependencies.contains("react"@) {
        "vite-react"@
    } else if dependencies.contains("@vue/cli-service"@) {
        "vue-cli"@
    } else if dependencies.contains("react-scripts"@) {
        "react"@
    } else if scripts.contains("generate"@) {
        "static-generator"@
    } else {
        "unknown"@
    }
}

/// Whether `name` is one of `list`.
pub fn contains_text(list: &[String], name: &str) -> (r: bool)
    ensures
        r == texts(list@).contains(name@),
{
    let mut i: usize = 0;
    while i < list.len()
        invariant
            i <= list@.len(),
            forall|j: int| 0 <= j < i ==> list@[j]@ != name@,
        decreases list@.len() - i,
    {
        if str_eq(list[i].as_str(), name) {
            assert(texts(list@)[i as int] == name@);
            return true;
        }
        i += 1;
    }
    assert forall|j: int| 0 <= j < texts(list@).len() implies texts(list@)[j] != name@ by {
        assert(texts(list@)[j] == list@[j]@);
    }
    false
}

/// Whether a script named `name` is defined.
pub fn has_script(scripts: &[(String, String)], name: &str) -> (r: bool)
    ensures
        r == script_names(scripts@).contains(name@),
{
    let mut i: usize = 0;
    while i < scripts.len()
        invariant
            i <= scripts@.len(),
            forall|j: int| 0 <= j < i ==> scripts@[j].0@ != name@,
        decreases scripts@.len() - i,
    {
        if str_eq(scripts[i].0.as_str(), name) {
            assert(script_names(scripts@)[i as int] == name@);
            return true;
        }
        i += 1;
    }
    assert forall|j: int| 0 <= j < script_names(scripts@).len() implies script_names(scripts@)[j]
        != name@ by {
        assert(script_names(scripts@)[j] == scripts@[j].0@);
    }
    false
}

/// The framework of the project.
pub fn detect_project_type(
    project_path: &ProjectDir,
    dependencies: &[String],
    scripts: &Scripts,
) -> (r: String)
    ensures
        r@ == project_type_of(*project_path, texts(dependencies@), names_of(scripts@)),
{
    proof {
        scripts.lemma_names();
    }
    let has_vite_config = vite_config_path(project_path).is_some();
    let has_vue = contains_text(dependencies, "vue");
    let has_react = contains_text(dependencies, "react");
    let has_vue_cli = contains_text(dependencies, "@vue/cli-service");
    let has_react_scripts = contains_text(dependencies, "react-scripts");
    let has_next = contains_text(dependencies, "next");
    let has_nuxt = contains_text(dependencies, "nuxt") || contains_text(dependencies, "nuxi");
    let has_astro = contains_text(dependencies, "astro");
    let has_sveltekit = contains_text(dependencies, "@sveltejs/kit");

    if has_next {
        return "next".to_owned();
    }
    if has_nuxt {
        return "nuxt".to_owned();
    }
    if has_astro {
        return "astro".to_owned();
    }
    if has_sveltekit {
        return "sveltekit".to_owned();
    }
    if has_vite_config && has_vue {
        return "vite-vue".to_owned();
    }
    if has_vite_config && has_react {
        return "vite-react".to_owned();
    }
    if has_vue_cli {
        return "vue-cli".to_owned();
    }
    if has_react_scripts {
        return "react".to_owned();
    }
    if has_script(scripts.entries.as_slice(), "generate") {
        return "static-generator".to_owned();
    }
    "unknown".to_owned()
}

// ==================== build command ====================

/// The rank of a `build:` script by its lowercased name: lower ranks are
/// closer to a production build.
pub open spec fn rank_of_lower(lower: Seq<char>) -> nat {
    if contains(lower, "prod"@) || contains(lower, "production"@) {
        0
    } else if contains(lower, "release"@) {
        1
    } else if contains(lower, "stage"@) || contains(lower, "staging"@) {
        2
    } else if contains(lower, "preview"@) {
        3
    } else {
        10
    }
}

/// A lowercased script name that names a development, test or library build.
pub open spec fn non_deploy_lower(lower: Seq<char>) -> bool {
    ||| contains(lower, "dev"@)
    ||| contains(lower, "test"@)
    ||| contains(lower, "watch"@)
    ||| contains(lower, "type"@)
    ||| contains(lower, "types"@)
    ||| contains(lower, "lib"@)
    ||| contains(lower, "storybook"@)
}

/// Whether `text` occurs in `lower`.
fn occurs(lower: &[char], text: &str) -> (r: bool)
    ensures
        r == contains(lower@, text@),
{
    let t = chars_of(text);
    contains_exec(lower, t.as_slice())
}

/// The rank of a `build:` script.
pub fn build_script_rank(script_name: &str) -> (r: usize)
    ensures
        r == rank_of_lower(lowercase_of(script_name@)),
{
    let lower_text = to_lowercase(script_name);
    let lower = chars_of(lower_text.as_str());
    if occurs(lower.as_slice(), "prod") || occurs(lower.as_slice(), "production") {
        return 0;
    }
    if occurs(lower.as_slice(), "release") {
        return 1;
    }
    if occurs(lower.as_slice(), "stage") || occurs(lower.as_slice(), "staging") {
        return 2;
    }
    if occurs(lower.as_slice(), "preview") {
        return 3;
    }
    10
}

/// Whether a `build:` script builds for development, tests or a library.
pub fn is_non_deploy_build_script(script_name: &str) -> (r: bool)
    ensures
        r == non_deploy_lower(lowercase_of(script_name@)),
{
    let lower_text = to_lowercase(script_name);
    let lower = chars_of(lower_text.as_str());
    occurs(lower.as_slice(), "dev") || occurs(lower.as_slice(), "test") || occurs(
        lower.as_slice(),
        "watch",
    ) || occurs(lower.as_slice(), "type") || occurs(lower.as_slice(), "types") || occurs(
        lower.as_slice(),
        "lib",
    ) || occurs(lower.as_slice(), "storybook")
}

/// The first of the preferred script names that is defined.
pub open spec fn preferred_script(names: Seq<Seq<char>>) -> Option<Seq<char>> {
    if names.contains("build:prod"@) {
        Some("build:prod"@)
    } else if names.contains("build:production"@) {
        Some("build:production"@)
    } else if names.contains("build:release"@) {
        Some("build:release"@)
    } else if names.contains("build:preview"@) {
        Some("build:preview"@)
    } else if names.contains("build"@) {
        Some("build"@)
    } else if names.contains("generate"@) {
        Some("generate"@)
    } else if names.contains("export"@) {
        Some("export"@)
    } else {
        None
    }
}

/// A `build:` script that is not for development, tests or a library.
pub open spec fn is_deploy_variant(name: Seq<char>) -> bool {
    starts_with(name, "build:"@) && !non_deploy_lower(lowercase_of(name))
}

/// Among `names`, the first deploy variant of least rank.
pub open spec fn best_variant(names: Seq<Seq<char>>) -> Option<Seq<char>>
    decreases names.len(),
{
    if names.len() == 0 {
        None
    } else {
        let prev = best_variant(names.drop_last());
        let k = names.last();
        if !is_deploy_variant(k) {
            prev
        } else {
            match prev {
                None => Some(k),
                Some(b) => if rank_of_lower(lowercase_of(k)) < rank_of_lower(lowercase_of(b)) {
                    Some(k)
                } else {
                    Some(b)
                },
            }
        }
    }
}

/// The script that builds the project for deployment: a preferred name, else
/// the best deploy variant.
pub open spec fn chosen_build_script(names: Seq<Seq<char>>) -> Option<Seq<char>> {
    match preferred_script(names) {
        Some(n) => Some(n),
        None => best_variant(names),
    }
}

/// The script that builds the project for deployment. Among deploy variants
/// of equal rank the one defined first is taken.
pub fn choose_build_script(scripts: &Scripts) -> (r: Option<String>)
    ensures
        match r {
            Some(n) => chosen_build_script(names_of(scripts@)) == Some(n@),
            None => chosen_build_script(names_of(scripts@)) is None,
        },
{
    proof {
        scripts.lemma_names();
    }
    choose_among(scripts.entries.as_slice())
}

/// The script among `scripts` that builds the project for deployment.
fn choose_among(scripts: &[(String, String)]) -> (r: Option<String>)
    ensures
        match r {
            Some(n) => chosen_build_script(script_names(scripts@)) == Some(n@),
            None => chosen_build_script(script_names(scripts@)) is None,
        },
{
    if has_script(scripts, "build:prod") {
        return Some("build:prod".to_owned());
    }
    if has_script(scripts, "build:production") {
        return Some("build:production".to_owned());
    }
    if has_script(scripts, "build:release") {
        return Some("build:release".to_owned());
    }
    if has_script(scripts, "build:preview") {
        return Some("build:preview".to_owned());
    }
    if has_script(scripts, "build") {
        return Some("build".to_owned());
    }
    if has_script(scripts, "generate") {
        return Some("generate".to_owned());
    }
    if has_script(scripts, "export") {
        return Some("export".to_owned());
    }
    let ghost names = script_names(scripts@);
    let prefix = chars_of("build:");
    let mut best: Option<(usize, usize)> = None;
    let mut i: usize = 0;
    while i < scripts.len()
        invariant
            i <= scripts@.len(),
            names == script_names(scripts@),
            prefix@ == "build:"@,
            match best {
                Some((j, rk)) => {
                    &&& j < i
                    &&& best_variant(names.take(i as int)) == Some(names[j as int])
                    &&& rk == rank_of_lower(lowercase_of(names[j as int]))
                },
                None => best_variant(names.take(i as int)) is None,
            },
        decreases scripts@.len() - i,
    {
        proof {
            assert(names.take(i + 1).drop_last() =~= names.take(i as int));
            assert(names.take(i + 1).last() == names[i as int]);
            assert(names[i as int] == scripts@[i as int].0@);
        }
        let name = scripts[i].0.as_str();
        let name_chars = chars_of(name);
        if starts_with_exec(name_chars.as_slice(), prefix.as_slice()) && !is_non_deploy_build_script(
            name,
        ) {
            let rk = build_script_rank(name);
            match best {
                None => {
                    best = Some((i, rk));
                },
                Some((_, brk)) => {
                    if rk < brk {
                        best = Some((i, rk));
                    }
                },
            }
        }
        i += 1;
    }
    assert(names.take(i as int) =~= names);
    match best {
        Some((j, _)) => Some(scripts[j].0.clone()),
        None => None,
    }
}

/// The command that runs `script_name` with the package manager.
pub open spec fn package_command_of(package_manager: Seq<char>, script_name: Seq<char>) -> Seq<
    char,
> {
    if package_manager == "pnpm"@ {
        "pnpm "@ + script_name
    } else if package_manager == "yarn"@ {
        "yarn "@ + script_name
    } else {
        "npm run "@ + script_name
    }
}

/// The command that runs `script_name` with the package manager.
pub fn package_script_command(package_manager: &str, script_name: &str) -> (r: String)
    ensures
        r@ == package_command_of(package_manager@, script_name@),
{
    if str_eq(package_manager, "pnpm") {
        "pnpm ".to_owned().concat(script_name)
    } else if str_eq(package_manager, "yarn") {
        "yarn ".to_owned().concat(script_name)
    } else {
        "npm run ".to_owned().concat(script_name)
    }
}

/// The build command of a project with these scripts; empty when no script
/// builds it.
pub open spec fn build_command_of(scripts: Seq<Seq<char>>, package_manager: Seq<char>) -> Seq<char> {
    match chosen_build_script(scripts) {
        Some(n) => package_command_of(package_manager, n),
        None => Seq::empty(),
    }
}

/// The command that builds the project for deployment; empty when no script
/// does.
pub fn detect_build_command(scripts: &Scripts, package_manager: &str) -> (r: String)
    ensures
        r@ == build_command_of(names_of(scripts@), package_manager@),
{
    if let Some(script_name) = choose_build_script(scripts) {
        return package_script_command(package_manager, script_name.as_str());
    }
    String::new()
}

// ==================== whole project ====================

/// The names of the dependencies and then of the dev dependencies.
pub open spec fn dependency_names_of(package_json: JsonValue) -> Seq<Seq<char>> {
    object_keys(get(package_json, "dependencies"@)) + object_keys(
        get(package_json, "devDependencies"@),
    )
}

/// The names under `dependencies` and then under `devDependencies`.
pub fn extract_dependency_names(package_json: &JsonValue) -> (r: Vec<String>)
    ensures
        texts(r@) == dependency_names_of(*package_json),
{
    let mut names = object_key_list(json_get(package_json, "dependencies"));
    let mut dev = object_key_list(json_get(package_json, "devDependencies"));
    let ghost a = names@;
    let ghost b = dev@;
    names.append(&mut dev);
    assert(names@ == a + b);
    assert(texts(names@) =~= texts(a) + texts(b));
    names
}

/// Everything detection finds for a project.
pub fn detect_project(
    project_path: &ProjectDir,
    package_json: &JsonValue,
    scripts: &Scripts,
) -> (r: ProjectDetection)
    ensures
        r.project_type@ == project_type_of(
            *project_path,
            dependency_names_of(*package_json),
            names_of(scripts@),
        ),
        r.package_manager@ == package_manager_of(*project_path),
        r.build_command@ == build_command_of(names_of(scripts@), r.package_manager@),
        r.output_dir@ == output_dir_of(*project_path, r.project_type@),
{
    let dependencies = extract_dependency_names(package_json);
    let project_type = detect_project_type(project_path, dependencies.as_slice(), scripts);
    let package_manager = detect_package_manager(project_path);
    let build_command = detect_build_command(scripts, package_manager.as_str());
    let output_dir = detect_output_dir(project_path, project_type.as_str());
    ProjectDetection { project_type, package_manager, build_command, output_dir }
}

// ==================== laws of detection ====================

proof fn lemma_best_variant(names: Seq<Seq<char>>)
    ensures
        best_variant(names) matches Some(n) ==> names.contains(n) && is_deploy_variant(n)
            && forall|m: Seq<char>|
            names.contains(m) && is_deploy_variant(m) ==> rank_of_lower(lowercase_of(n))
                <= rank_of_lower(lowercase_of(m)),
        best_variant(names) is None ==> forall|m: Seq<char>|
            names.contains(m) ==> !is_deploy_variant(m),
    decreases names.len(),
{
    if names.len() > 0 {
        let init = names.drop_last();
        lemma_best_variant(init);
        assert forall|m: Seq<char>| names.contains(m) implies init.contains(m) || m
            == names.last() by {
            let i = choose|i: int| 0 <= i < names.len() && names[i] == m;
            if i < names.len() - 1 {
                assert(init[i] == m);
            }
        }
        if let Some(b) = best_variant(init) {
            let j = choose|j: int| 0 <= j < init.len() && init[j] == b;
            assert(names[j] == b);
        }
        assert(names[names.len() - 1] == names.last());
    }
}

/// The build command runs a script that the project defines.
pub proof fn law_build_script_is_defined(names: Seq<Seq<char>>)
    ensures
        chosen_build_script(names) matches Some(n) ==> names.contains(n),
{
    lemma_best_variant(names);
}

/// A preferred script (`build:prod`, `build:production`, `build:release`,
/// `build:preview`, `build`, `generate`, `export`, in this order) is chosen
/// over every other script.
pub proof fn law_preferred_script_wins(names: Seq<Seq<char>>)
    ensures
        preferred_script(names) is Some ==> chosen_build_script(names) == preferred_script(names),
        names.contains("build"@) ==> chosen_build_script(names) is Some,
{
}

/// Without a preferred script, the chosen script is a deploy variant of
/// `build:` whose rank is least among the defined deploy variants; without
/// any, none is chosen.
pub proof fn law_best_variant_chosen(names: Seq<Seq<char>>, m: Seq<char>)
    requires
        preferred_script(names) is None,
        names.contains(m),
        is_deploy_variant(m),
    ensures
        chosen_build_script(names) matches Some(n) && is_deploy_variant(n) && rank_of_lower(
            lowercase_of(n),
        ) <= rank_of_lower(lowercase_of(m)),
{
    lemma_best_variant(names);
}

/// The build command is empty exactly when no script builds the project.
pub proof fn law_empty_command_iff_no_script(names: Seq<Seq<char>>, package_manager: Seq<char>)
    ensures
        (build_command_of(names, package_manager).len() == 0) == (chosen_build_script(names) is None),
{
    if let Some(n) = chosen_build_script(names) {
        reveal_strlit("pnpm ");
        reveal_strlit("yarn ");
        reveal_strlit("npm run ");
    }
}

/// An output directory taken from a configuration is a non-empty relative
/// path with `/` separators and no interpolation.
pub proof fn law_config_output_is_relative(raw: Seq<char>)
    ensures
        normalized_output_value(raw) matches Some(v) ==> v.len() > 0 && !starts_with(v, "/"@)
            && !contains(v, "${"@) && !v.contains('\\'),
{
    if let Some(v) = normalized_output_value(raw) {
        let w = trim(strip_prefixes(strip_prefixes(trim(raw), "./"@), "public/"@));
        assert forall|i: int| 0 <= i < v.len() implies v[i] != '\\' by {
            assert(v[i] == (if w[i] == '\\' { '/' } else { w[i] }));
        }
    }
}

/// The configuration's output directory, when it gives one, overrides the
/// framework's default.
pub proof fn law_config_overrides_default(dir: ProjectDir, project_type: Seq<char>)
    ensures
        config_output_dir_of(dir) matches Some(d) ==> output_dir_of(dir, project_type) == d,
        config_output_dir_of(dir) is None ==> output_dir_of(dir, project_type) == default_output_dir(
            project_type,
        ),
{
}

/// The vite configuration files, in the order they are looked for.
pub open spec fn vite_config_names() -> Seq<Seq<char>> {
    seq![
        "vite.config.ts"@,
        "vite.config.js"@,
        "vite.config.mts"@,
        "vite.config.mjs"@,
        "vite.config.cts"@,
        "vite.config.cjs"@,
    ]
}

/// A project has a vite configuration exactly when one of `vite.config.ts`,
/// `.js`, `.mts`, `.mjs`, `.cts`, `.cjs` is a regular file in it; the first
/// of them in this order that is one is taken.
pub proof fn law_vite_config_is_first_present(dir: ProjectDir, i: int)
    requires
        0 <= i < 6,
    ensures
        path_is_file(dir, vite_config_names()[i]) && (forall|j: int|
            0 <= j < i ==> !path_is_file(dir, #[trigger] vite_config_names()[j]))
            ==> vite_config_name(dir) == Some(vite_config_names()[i]),
        (vite_config_name(dir) is Some) == (exists|j: int|
            0 <= j < 6 && path_is_file(dir, #[trigger] vite_config_names()[j])),
{
    let names = vite_config_names();
    if path_is_file(dir, names[i]) && (forall|j: int|
        0 <= j < i ==> !path_is_file(dir, #[trigger] names[j])) {
        assert(i >= 1 ==> !path_is_file(dir, names[0]));
        assert(i >= 2 ==> !path_is_file(dir, names[1]));
        assert(i >= 3 ==> !path_is_file(dir, names[2]));
        assert(i >= 4 ==> !path_is_file(dir, names[3]));
        assert(i >= 5 ==> !path_is_file(dir, names[4]));
    }
    if vite_config_name(dir) is Some {
        if path_is_file(dir, names[0]) {
        } else if path_is_file(dir, names[1]) {
        } else if path_is_file(dir, names[2]) {
        } else if path_is_file(dir, names[3]) {
        } else if path_is_file(dir, names[4]) {
        } else {
            assert(path_is_file(dir, names[5]));
        }
    }
}

/// A vite project with vue is `vite-vue` whichever of the vite configuration
/// files it has, unless a framework that takes precedence is a dependency.
pub proof fn law_vite_vue_project(
    dir: ProjectDir,
    dependencies: Seq<Seq<char>>,
    scripts: Seq<Seq<char>>,
    i: int,
)
    requires
        0 <= i < 6,
        path_is_file(dir, vite_config_names()[i]),
        dependencies.contains("vue"@),
        !dependencies.contains("next"@),
        !dependencies.contains("nuxt"@),
        !dependencies.contains("nuxi"@),
        !dependencies.contains("astro"@),
        !dependencies.contains("@sveltejs/kit"@),
    ensures
        project_type_of(dir, dependencies, scripts) == "vite-vue"@,
{
    law_vite_config_is_first_present(dir, i);
}

/// The preferred scripts, in the order they are preferred.
pub open spec fn preferred_names() -> Seq<Seq<char>> {
    seq![
        "build:prod"@,
        "build:production"@,
        "build:release"@,
        "build:preview"@,
        "build"@,
        "generate"@,
        "export"@,
    ]
}

/// Of the preferred scripts `build:prod`, `build:production`,
/// `build:release`, `build:preview`, `build`, `generate`, `export`, the first
/// defined in this order is chosen, and the build command runs it; `build`
/// thus wins over `generate` and `export`.
pub proof fn law_preferred_order(names: Seq<Seq<char>>, package_manager: Seq<char>, i: int)
    requires
        0 <= i < 7,
        names.contains(preferred_names()[i]),
        forall|j: int| 0 <= j < i ==> !names.contains(#[trigger] preferred_names()[j]),
    ensures
        chosen_build_script(names) == Some(preferred_names()[i]),
        package_manager == "npm"@ ==> build_command_of(names, package_manager) == "npm run "@
            + preferred_names()[i],
        package_manager == "pnpm"@ ==> build_command_of(names, package_manager) == "pnpm "@
            + preferred_names()[i],
        package_manager == "yarn"@ ==> build_command_of(names, package_manager) == "yarn "@
            + preferred_names()[i],
{
    let p = preferred_names();
    assert(i >= 1 ==> !names.contains(p[0]));
    assert(i >= 2 ==> !names.contains(p[1]));
    assert(i >= 3 ==> !names.contains(p[2]));
    assert(i >= 4 ==> !names.contains(p[3]));
    assert(i >= 5 ==> !names.contains(p[4]));
    assert(i >= 6 ==> !names.contains(p[5]));
    reveal_strlit("npm");
    reveal_strlit("pnpm");
    reveal_strlit("yarn");
    assert("npm"@ != "pnpm"@ && "npm"@ != "yarn"@) by {
        assert("npm"@.len() != "pnpm"@.len() && "npm"@.len() != "yarn"@.len());
    }
    assert("yarn"@ != "pnpm"@) by {
        assert("yarn"@[0] != "pnpm"@[0]);
    }
}

/// Without an output directory from the configuration, a project builds into
/// `build` exactly when it is a react or sveltekit project, into `.next` for
/// next, `.output/public` for nuxt, and into `dist` for every other type
/// (vite-react, vite-vue, astro, vue-cli, static-generator, unknown).
pub proof fn law_default_output_dirs(dir: ProjectDir, project_type: Seq<char>)
    requires
        config_output_dir_of(dir) is None,
    ensures
        (output_dir_of(dir, project_type) == "build"@) == (project_type == "react"@
            || project_type == "sveltekit"@),
        project_type == "next"@ ==> output_dir_of(dir, project_type) == ".next"@,
        project_type == "nuxt"@ ==> output_dir_of(dir, project_type) == ".output/public"@,
        project_type != "react"@ && project_type != "sveltekit"@ && project_type != "next"@
            && project_type != "nuxt"@ ==> output_dir_of(dir, project_type) == "dist"@,
{
    reveal_strlit("build");
    reveal_strlit(".next");
    reveal_strlit(".output/public");
    reveal_strlit("dist");
    reveal_strlit("react");
    reveal_strlit("sveltekit");
    reveal_strlit("next");
    reveal_strlit("nuxt");
    assert("build"@ != ".next"@ && "build"@ != ".output/public"@ && "build"@ != "dist"@) by {
        assert("build"@[0] != ".next"@[0] && "build"@[0] != ".output/public"@[0]);
        assert("build"@.len() != "dist"@.len());
    }
    assert("next"@ != "react"@ && "next"@ != "sveltekit"@) by {
        assert("next"@.len() != "react"@.len() && "next"@.len() != "sveltekit"@.len());
    }
    assert("nuxt"@ != "react"@ && "nuxt"@ != "sveltekit"@ && "nuxt"@ != "next"@) by {
        assert("nuxt"@.len() != "react"@.len() && "nuxt"@.len() != "sveltekit"@.len());
        assert("nuxt"@[1] != "next"@[1]);
    }
}

} // verus!
