//! Monorepo detection: the workspace globs of a repository, how a glob maps
//! onto directories, and which packages are deployable front-end apps.
use vstd::prelude::*;

use crate::json::{
    array_strings, get, json_get, parse_json, parsed_json, string_items, string_member_list,
    string_members, texts, text_pairs, JsonValue,
};
use crate::project_detection::{
    build_command_of, dependency_names_of, detect_build_command, detect_output_dir,
    collected, detect_project_type, extract_dependency_names, is_file_in, names_of,
    output_dir_of, path_is_file, project_type_of, MonorepoPackage, ProjectDir, Scripts,
};
use crate::text::{
    char_views, chars_of, join, join_strings, lines,
    lines_exec, replace_char, replace_char_exec, split_on, split_on_exec, starts_with,
    starts_with_exec, str_eq, string_from_chars, strip_prefixes, strip_prefixes_exec, sub_chars,
    text_lt, text_lt_exec, trim, trim_chars,
};

verus! {

// ==================== pnpm-workspace.yaml ====================

pub open spec fn is_yaml_quote(c: char) -> bool {
    c == '\'' || c == '"'
}

/// `s` without leading quote characters.
pub open spec fn strip_quotes_start(s: Seq<char>) -> Seq<char>
    decreases s.len(),
{
    if s.len() > 0 && is_yaml_quote(s[0]) {
        strip_quotes_start(s.drop_first())
    } else {
        s
    }
}

/// `s` without trailing quote characters.
pub open spec fn strip_quotes_end(s: Seq<char>) -> Seq<char>
    decreases s.len(),
{
    if s.len() > 0 && is_yaml_quote(s.last()) {
        strip_quotes_end(s.drop_last())
    } else {
        s
    }
}

/// `s` without quote characters at either end.
pub open spec fn strip_quotes(s: Seq<char>) -> Seq<char> {
    strip_quotes_end(strip_quotes_start(s))
}

proof fn lemma_strip_quotes_start_skip(s: Seq<char>, i: int)
    requires
        0 <= i <= s.len(),
        forall|j: int| 0 <= j < i ==> is_yaml_quote(#[trigger] s[j]),
    ensures
        strip_quotes_start(s) == strip_quotes_start(s.skip(i)),
    decreases i,
{
    if i > 0 {
        assert(s.drop_first().skip(i - 1) =~= s.skip(i));
        lemma_strip_quotes_start_skip(s.drop_first(), i - 1);
    } else {
        assert(s.skip(0) =~= s);
    }
}

proof fn lemma_strip_quotes_end_take(s: Seq<char>, k: int)
    requires
        0 <= k <= s.len(),
        forall|j: int| k <= j < s.len() ==> is_yaml_quote(#[trigger] s[j]),
    ensures
        strip_quotes_end(s) == strip_quotes_end(s.take(k)),
    decreases s.len() - k,
{
    if k < s.len() {
        assert(s.drop_last().take(k) =~= s.take(k));
        lemma_strip_quotes_end_take(s.drop_last(), k);
    } else {
        assert(s.take(k) =~= s);
    }
}

/// `v` without quote characters at either end.
fn strip_quotes_exec(v: &[char]) -> (r: Vec<char>)
    ensures
        r@ == strip_quotes(v@),
{
    let n = v.len();
    let mut a: usize = 0;
    while a < n && (v[a] == '\'' || v[a] == '"')
        invariant
            a <= n == v@.len(),
            forall|j: int| 0 <= j < a ==> is_yaml_quote(#[trigger] v@[j]),
        decreases n - a,
    {
        a += 1;
    }
    proof {
        lemma_strip_quotes_start_skip(v@, a as int);
    }
    let ghost t = v@.skip(a as int);
    let mut b: usize = n;
    while b > a && (v[b - 1] == '\'' || v[b - 1] == '"')
        invariant
            a <= b <= n == v@.len(),
            forall|j: int| b <= j < n ==> is_yaml_quote(#[trigger] v@[j]),
        decreases b - a,
    {
        b -= 1;
    }
    proof {
        assert forall|j: int| b - a <= j < t.len() implies is_yaml_quote(#[trigger] t[j]) by {
            assert(t[j] == v@[j + a]);
        }
        lemma_strip_quotes_end_take(t, b - a);
        assert(t.take(b - a) =~= v@.subrange(a as int, b as int));
    }
    sub_chars(v, a, b)
}

/// The reading of `pnpm-workspace.yaml` after one more line: whether it is in
/// the `packages:` list, and the globs found so far. A non-empty, non-comment
/// line that does not start with a space or tab opens a top-level key; inside
/// `packages:`, a `- ` item gives a glob, stripped of white space and quotes.
pub open spec fn yaml_step(state: (bool, Seq<Seq<char>>), line: Seq<char>) -> (
    bool,
    Seq<Seq<char>>,
) {
    let t = trim(line);
    if t.len() == 0 || starts_with(t, "#"@) {
        state
    } else if !starts_with(line, " "@) && !starts_with(line, "\t"@) {
        (t == "packages:"@, state.1)
    } else if state.0 && starts_with(t, "- "@) {
        let pattern = strip_quotes(trim(t.skip(2)));
        if pattern.len() > 0 {
            (state.0, state.1.push(pattern))
        } else {
            state
        }
    } else {
        state
    }
}

/// The reading of a sequence of lines.
pub open spec fn yaml_fold(ls: Seq<Seq<char>>) -> (bool, Seq<Seq<char>>)
    decreases ls.len(),
{
    if ls.len() == 0 {
        (false, Seq::empty())
    } else {
        yaml_step(yaml_fold(ls.drop_last()), ls.last())
    }
}

/// The globs listed under `packages:` in a `pnpm-workspace.yaml` text.
pub open spec fn yaml_workspace_globs(content: Seq<char>) -> Seq<Seq<char>> {
    yaml_fold(lines(content)).1
}

/// The globs listed under `packages:` in a `pnpm-workspace.yaml` text.
pub fn parse_pnpm_workspace_yaml(content: &str) -> (r: Vec<String>)
    ensures
        texts(r@) == yaml_workspace_globs(content@),
{
    let c = chars_of(content);
    let ls = lines_exec(c.as_slice());
    let ghost lv = char_views(ls@);
    let hash = chars_of("#");
    let space = chars_of(" ");
    let tab = chars_of("\t");
    let packages = chars_of("packages:");
    let dash = chars_of("- ");
    let mut globs: Vec<String> = Vec::new();
    let mut in_packages = false;
    let mut i: usize = 0;
    while i < ls.len()
        invariant
            i <= ls@.len(),
            lv == char_views(ls@),
            lv == lines(content@),
            hash@ == "#"@,
            space@ == " "@,
            tab@ == "\t"@,
            packages@ == "packages:"@,
            dash@ == "- "@,
            (in_packages, texts(globs@)) == yaml_fold(lv.take(i as int)),
        decreases ls@.len() - i,
    {
        proof {
            assert(lv.take(i + 1).drop_last() =~= lv.take(i as int));
            assert(lv.take(i + 1).last() == ls@[i as int]@);
        }
        let line = ls[i].as_slice();
        let trimmed = trim_chars(line);
        if trimmed.len() == 0 || starts_with_exec(trimmed.as_slice(), hash.as_slice()) {
        } else if !starts_with_exec(line, space.as_slice()) && !starts_with_exec(
            line,
            tab.as_slice(),
        ) {
            in_packages = crate::text::chars_eq(trimmed.as_slice(), packages.as_slice());
        } else if in_packages && starts_with_exec(trimmed.as_slice(), dash.as_slice()) {
            proof {
                reveal_strlit("- ");
            }
            let rest = sub_chars(trimmed.as_slice(), 2, trimmed.len());
            assert(rest@ =~= trimmed@.skip(2));
            let inner = trim_chars(rest.as_slice());
            let pattern = strip_quotes_exec(inner.as_slice());
            if pattern.len() > 0 {
                let ghost prev = texts(globs@);
                globs.push(string_from_chars(pattern.as_slice()));
                assert(texts(globs@) =~= prev.push(pattern@));
            }
        }
        i += 1;
    }
    assert(lv.take(i as int) =~= lv);
    globs
}

// ==================== workspace globs ====================

/// The globs that `package.json` lists under `workspaces`: an array of
/// globs, or an object whose `packages` is one.
pub open spec fn json_workspace_globs(package_json: JsonValue) -> Seq<Seq<char>> {
    match get(package_json, "workspaces"@) {
        Some(JsonValue::Array(items)) => string_items(items@),
        Some(JsonValue::Object(members)) => match get(
            JsonValue::Object(members),
            "packages"@,
        ) {
            Some(JsonValue::Array(items)) => string_items(items@),
            _ => Seq::empty(),
        },
        _ => Seq::empty(),
    }
}

/// The workspace globs of a repository: those of its `pnpm-workspace.yaml`,
/// when it was read, then those of its `package.json`.
pub open spec fn workspace_globs_of(workspace_yaml: Option<Seq<char>>, package_json: JsonValue) -> Seq<
    Seq<char>,
> {
    let from_yaml = match workspace_yaml {
        Some(c) => yaml_workspace_globs(c),
        None => Seq::empty(),
    };
    from_yaml + json_workspace_globs(package_json)
}

/// The workspace globs of a repository, from the text of its
/// `pnpm-workspace.yaml` when there is one and from its `package.json`.
pub fn collect_workspace_globs(workspace_yaml: Option<&str>, package_json: &JsonValue) -> (r: Vec<
    String,
>)
    ensures
        texts(r@) == workspace_globs_of(
            match workspace_yaml {
                Some(c) => Some(c@),
                None => None,
            },
            *package_json,
        ),
{
    let mut globs: Vec<String> = match workspace_yaml {
        Some(content) => parse_pnpm_workspace_yaml(content),
        None => Vec::new(),
    };
    let ghost first = texts(globs@);
    let mut more: Vec<String> = match json_get(package_json, "workspaces") {
        Some(workspaces) => match workspaces {
            JsonValue::Array(_) => array_strings(workspaces),
            JsonValue::Object(_) => match json_get(workspaces, "packages") {
                Some(packages) => array_strings(packages),
                None => Vec::new(),
            },
            _ => Vec::new(),
        },
        None => Vec::new(),
    };
    assert(texts(more@) == json_workspace_globs(*package_json));
    let ghost second = more@;
    globs.append(&mut more);
    assert(texts(globs@) =~= first + texts(second));
    globs
}

/// How a workspace glob is expanded: a plain path, or the subdirectories of
/// `prefix` whose name matches `pattern`, each extended by `suffix` when the
/// glob goes on.
pub enum GlobPlan {
    Direct { path: String },
    Scan { prefix: Vec<String>, pattern: String, suffix: Option<String> },
}

pub ghost enum GlobPlanView {
    Direct(Seq<char>),
    Scan(Seq<Seq<char>>, Seq<char>, Option<Seq<char>>),
}

impl View for GlobPlan {
    type V = GlobPlanView;

    open spec fn view(&self) -> GlobPlanView {
        match self {
            GlobPlan::Direct { path } => GlobPlanView::Direct(path@),
            GlobPlan::Scan { prefix, pattern, suffix } => GlobPlanView::Scan(
                texts(prefix@),
                pattern@,
                match suffix {
                    Some(s) => Some(s@),
                    None => None,
                },
            ),
        }
    }
}

pub open spec fn is_wildcard_part(part: Seq<char>) -> bool {
    part.contains('*') || part.contains('?')
}

/// The index of the first part with a wildcard; the number of parts when
/// none has one.
pub open spec fn first_wildcard(parts: Seq<Seq<char>>) -> int
    decreases parts.len(),
{
    if parts.len() == 0 {
        0
    } else if is_wildcard_part(parts[0]) {
        0
    } else {
        1 + first_wildcard(parts.drop_first())
    }
}

proof fn lemma_first_wildcard_is(parts: Seq<Seq<char>>, k: int)
    requires
        0 <= k <= parts.len(),
        forall|j: int| 0 <= j < k ==> !is_wildcard_part(#[trigger] parts[j]),
        k < parts.len() ==> is_wildcard_part(parts[k]),
    ensures
        first_wildcard(parts) == k,
    decreases parts.len(),
{
    if parts.len() > 0 && k > 0 {
        assert forall|j: int| 0 <= j < k - 1 implies !is_wildcard_part(
            #[trigger] parts.drop_first()[j],
        ) by {
            assert(parts.drop_first()[j] == parts[j + 1]);
        }
        lemma_first_wildcard_is(parts.drop_first(), k - 1);
    }
}

/// A workspace glob without surrounding white space and leading `./`.
pub open spec fn clean_glob(glob: Seq<char>) -> Seq<char> {
    strip_prefixes(trim(glob), "./"@)
}

/// How a workspace glob is expanded: split at `/`, the parts before the first
/// wildcard part name the directory to scan and the parts after it the path
/// below each match.
pub open spec fn glob_plan_of(glob: Seq<char>) -> GlobPlanView {
    let g = clean_glob(glob);
    let parts = split_on(g, '/');
    let w = first_wildcard(parts);
    if w >= parts.len() {
        GlobPlanView::Direct(g)
    } else {
        GlobPlanView::Scan(
            parts.take(w),
            parts[w],
            if w + 1 < parts.len() {
                Some(join(parts.skip(w + 1), "/"@))
            } else {
                None
            },
        )
    }
}

/// Whether `part` holds a wildcard.
fn is_wildcard_exec(part: &[char]) -> (r: bool)
    ensures
        r == is_wildcard_part(part@),
{
    crate::text::has_char(part, '*') || crate::text::has_char(part, '?')
}

/// The strings of `parts[from..to]`.
fn strings_of(parts: &Vec<Vec<char>>, from: usize, to: usize) -> (r: Vec<String>)
    requires
        from <= to <= parts@.len(),
    ensures
        texts(r@) == char_views(parts@).subrange(from as int, to as int),
{
    let mut r: Vec<String> = Vec::new();
    let mut i = from;
    while i < to
        invariant
            from <= i <= to <= parts@.len(),
            r@.len() == i - from,
            texts(r@) == char_views(parts@).subrange(from as int, i as int),
        decreases to - i,
    {
        let ghost prev = r@;
        let item = string_from_chars(parts[i].as_slice());
        r.push(item);
        proof {
            let a = texts(r@);
            let b = char_views(parts@).subrange(from as int, i + 1);
            assert forall|j: int| 0 <= j < a.len() implies a[j] == b[j] by {
                if j < i - from {
                    assert(texts(prev)[j] == char_views(parts@).subrange(from as int, i as int)[j]);
                } else {
                    assert(a[j] == item@);
                    assert(b[j] == parts@[i as int]@);
                }
            }
            assert(a =~= b);
        }
        i += 1;
    }
    r
}

/// How a workspace glob is expanded into package directories.
pub fn plan_workspace_glob(glob: &str) -> (r: GlobPlan)
    ensures
        r@ == glob_plan_of(glob@),
{
    let raw = chars_of(glob);
    let trimmed = trim_chars(raw.as_slice());
    let dot = chars_of("./");
    let g = strip_prefixes_exec(trimmed.as_slice(), dot.as_slice());
    let parts = split_on_exec(g.as_slice(), '/');
    let ghost pv = char_views(parts@);
    let mut w: usize = 0;
    while w < parts.len() && !is_wildcard_exec(parts[w].as_slice())
        invariant
            w <= parts@.len(),
            pv == char_views(parts@),
            forall|j: int| 0 <= j < w ==> !is_wildcard_part(#[trigger] pv[j]),
        decreases parts@.len() - w,
    {
        w += 1;
    }
    proof {
        lemma_first_wildcard_is(pv, w as int);
    }
    if w >= parts.len() {
        return GlobPlan::Direct { path: string_from_chars(g.as_slice()) };
    }
    let prefix = strings_of(&parts, 0, w);
    assert(char_views(parts@).subrange(0, w as int) =~= pv.take(w as int));
    let pattern = string_from_chars(parts[w].as_slice());
    let n = parts.len();
    if w + 1 < n {
        let rest = strings_of(&parts, w + 1, n);
        assert(char_views(parts@).subrange(w + 1, n as int) =~= pv.skip(w + 1));
        let suffix = join_strings(rest.as_slice(), "/");
        GlobPlan::Scan { prefix, pattern, suffix: Some(suffix) }
    } else {
        GlobPlan::Scan { prefix, pattern, suffix: None }
    }
}

// ==================== glob matching ====================

/// Whether `t[ti..]` matches `p[pi..]`: `*` matches any run of characters
/// other than `/`, `?` any one character, every other character itself.
pub open spec fn glob_at(p: Seq<char>, pi: nat, t: Seq<char>, ti: nat) -> bool
    decreases p.len() - pi, t.len() - ti,
{
    if pi >= p.len() {
        ti == t.len()
    } else if p[pi as int] == '*' {
        glob_at(p, pi + 1, t, ti) || (ti < t.len() && t[ti as int] != '/' && glob_at(
            p,
            pi,
            t,
            ti + 1,
        ))
    } else if p[pi as int] == '?' {
        ti < t.len() && glob_at(p, pi + 1, t, ti + 1)
    } else {
        ti < t.len() && t[ti as int] == p[pi as int] && glob_at(p, pi + 1, t, ti + 1)
    }
}

/// Whether the whole `text` matches the whole `pattern`.
pub open spec fn glob_matches(pattern: Seq<char>, text: Seq<char>) -> bool {
    glob_at(pattern, 0, text, 0)
}

/// No `/` in `t[from..to]`.
pub open spec fn no_slash(t: Seq<char>, from: nat, to: nat) -> bool {
    forall|k: int| from <= k < to ==> t[k] != '/'
}

/// A `*` matches when the rest of the pattern matches from some later
/// character, with no `/` skipped.
proof fn lemma_star(p: Seq<char>, pi: nat, t: Seq<char>, ti: nat)
    requires
        pi < p.len(),
        p[pi as int] == '*',
        ti <= t.len(),
    ensures
        glob_at(p, pi, t, ti) == exists|i: nat|
            ti <= i <= t.len() && no_slash(t, ti, i) && #[trigger] glob_at(p, pi + 1, t, i),
    decreases t.len() - ti,
{
    let rhs = exists|i: nat|
        ti <= i <= t.len() && no_slash(t, ti, i) && #[trigger] glob_at(p, pi + 1, t, i);
    if glob_at(p, pi + 1, t, ti) {
        assert(ti <= ti <= t.len() && no_slash(t, ti, ti) && glob_at(p, pi + 1, t, ti));
    }
    if ti < t.len() {
        lemma_star(p, pi, t, ti + 1);
        if glob_at(p, pi, t, ti) && !glob_at(p, pi + 1, t, ti) {
            assert(t[ti as int] != '/' && glob_at(p, pi, t, ti + 1));
            let i = choose|i: nat|
                ti + 1 <= i <= t.len() && no_slash(t, ti + 1, i) && #[trigger] glob_at(
                    p,
                    pi + 1,
                    t,
                    i,
                );
            assert(no_slash(t, ti, i));
            assert(ti <= i <= t.len() && glob_at(p, pi + 1, t, i));
        }
        if rhs {
            let i = choose|i: nat|
                ti <= i <= t.len() && no_slash(t, ti, i) && #[trigger] glob_at(p, pi + 1, t, i);
            if i > ti {
                assert(t[ti as int] != '/');
                assert(no_slash(t, ti + 1, i));
                assert(ti + 1 <= i <= t.len() && glob_at(p, pi + 1, t, i));
                assert(glob_at(p, pi, t, ti + 1));
            }
        }
    } else {
        if rhs {
            let i = choose|i: nat|
                ti <= i <= t.len() && no_slash(t, ti, i) && #[trigger] glob_at(p, pi + 1, t, i);
            assert(i == ti);
        }
    }
}

/// Whether the text past the end of `text` matches `pattern[pidx..]`: only
/// a last `*` in the pattern does.
pub open spec fn glob_past_end(p: Seq<char>, pi: nat) -> bool {
    pi + 1 == p.len() && p[pi as int] == '*'
}

/// Whether `text[tidx..]` matches `pattern[pidx..]`. A `pidx` past the end
/// of the pattern matches only at the end of the text; a `tidx` past the end
/// of the text is matched only by a last `*`.
pub fn glob_match_helper(pattern: &[char], pidx: usize, text: &[char], tidx: usize) -> (r: bool)
    ensures
        tidx <= text@.len() ==> r == glob_at(pattern@, pidx as nat, text@, tidx as nat),
        tidx > text@.len() ==> r == glob_past_end(pattern@, pidx as nat),
    decreases pattern@.len() - pidx,
{
    let plen = pattern.len();
    let tlen = text.len();
    if tidx > tlen {
        return pidx < plen && pidx + 1 == plen && pattern[pidx] == '*';
    }
    if pidx > plen {
        return tidx == tlen;
    }
    let mut pi = pidx;
    let mut ti = tidx;
    while pi < plen
        invariant
            plen == pattern@.len(),
            tlen == text@.len(),
            pidx <= pi <= plen,
            tidx <= tlen,
            ti <= tlen,
            glob_at(pattern@, pidx as nat, text@, tidx as nat) == glob_at(
                pattern@,
                pi as nat,
                text@,
                ti as nat,
            ),
        decreases plen - pi,
    {
        let c = pattern[pi];
        if c == '*' {
            proof {
                lemma_star(pattern@, pi as nat, text@, ti as nat);
            }
            let mut i = ti;
            loop
                invariant
                    plen == pattern@.len(),
                    tlen == text@.len(),
                    pidx <= pi < plen,
                    tidx <= tlen,
                    ti <= i <= tlen,
                    pattern@[pi as int] == '*',
                    no_slash(text@, ti as nat, i as nat),
                    glob_at(pattern@, pidx as nat, text@, tidx as nat) == glob_at(
                        pattern@,
                        pi as nat,
                        text@,
                        ti as nat,
                    ),
                    glob_at(pattern@, pi as nat, text@, ti as nat) == exists|k: nat|
                        ti <= k <= text@.len() && no_slash(text@, ti as nat, k)
                            && #[trigger] glob_at(pattern@, (pi + 1) as nat, text@, k),
                    forall|k: nat| ti <= k < i ==> !#[trigger] glob_at(
                        pattern@,
                        (pi + 1) as nat,
                        text@,
                        k,
                    ),
                decreases tlen - i,
            {
                if glob_match_helper(pattern, pi + 1, text, i) {
                    assert(ti <= i <= text@.len() && no_slash(text@, ti as nat, i as nat)
                        && glob_at(pattern@, (pi + 1) as nat, text@, i as nat));
                    return true;
                }
                if i == tlen || text[i] == '/' {
                    assert forall|k: nat|
                        ti <= k <= text@.len() && no_slash(text@, ti as nat, k) implies !#[trigger] glob_at(
                        pattern@,
                        (pi + 1) as nat,
                        text@,
                        k,
                    ) by {
                        if k > i {
                            assert(text@[i as int] == '/');
                        }
                    }
                    return false;
                }
                i += 1;
            }
        } else if c == '?' {
            if ti >= tlen {
                return false;
            }
            pi += 1;
            ti += 1;
        } else {
            if ti >= tlen || text[ti] != c {
                return false;
            }
            pi += 1;
            ti += 1;
        }
    }
    ti == tlen
}

/// Whether the name `text` matches the glob `pattern`: `*` matches any run
/// of characters other than `/`, `?` any one character.
pub fn simple_glob_match(pattern: &str, text: &str) -> (r: bool)
    ensures
        r == glob_matches(pattern@, text@),
{
    let p = chars_of(pattern);
    let t = chars_of(text);
    glob_match_helper(p.as_slice(), 0, t.as_slice(), 0)
}

/// The names of the listed entries that are directories and whose name
/// matches `pattern`, in the order of the listing. An entry is a name and
/// whether it is a directory.
pub open spec fn matching_dirs(pattern: Seq<char>, entries: Seq<(String, bool)>) -> Seq<Seq<char>>
    decreases entries.len(),
{
    if entries.len() == 0 {
        Seq::empty()
    } else {
        let e = entries.last();
        matching_dirs(pattern, entries.drop_last()) + if e.1 && glob_matches(pattern, e.0@) {
            seq![e.0@]
        } else {
            Seq::empty()
        }
    }
}

/// The directories of a listing that a wildcard part of a workspace glob
/// selects.
pub fn select_matching_dirs(pattern: &str, entries: &[(String, bool)]) -> (r: Vec<String>)
    ensures
        texts(r@) == matching_dirs(pattern@, entries@),
{
    let mut r: Vec<String> = Vec::new();
    let mut i: usize = 0;
    while i < entries.len()
        invariant
            i <= entries@.len(),
            texts(r@) == matching_dirs(pattern@, entries@.take(i as int)),
        decreases entries@.len() - i,
    {
        proof {
            assert(entries@.take(i + 1).drop_last() =~= entries@.take(i as int));
            assert(entries@.take(i + 1).last() == entries@[i as int]);
        }
        if entries[i].1 && simple_glob_match(pattern, entries[i].0.as_str()) {
            r.push(entries[i].0.clone());
        }
        i += 1;
        assert(texts(r@) =~= matching_dirs(pattern@, entries@.take(i as int)));
    }
    assert(entries@.take(i as int) =~= entries@);
    r
}

// ==================== packages ====================

/// A package is deployable when it has an `index.html` or a detected
/// framework.
pub open spec fn deployable(package_dir: ProjectDir, project_type: Seq<char>) -> bool {
    path_is_file(package_dir, "index.html"@) || project_type != "unknown"@
}

/// Whether the package is a deployable front-end app.
pub fn is_deployable_package(package_dir: &ProjectDir, project_type: &str) -> (r: bool)
    ensures
        r == deployable(*package_dir, project_type@),
{
    if is_file_in(package_dir, "index.html") {
        return true;
    }
    !str_eq(project_type, "unknown")
}

/// The name a package goes by: the `name` of its `package.json` when that
/// is a string, else the name of its directory, else `unknown`.
pub open spec fn package_name_of(package_json: JsonValue, dir_name: Option<Seq<char>>) -> Seq<
    char,
> {
    match get(package_json, "name"@) {
        Some(JsonValue::Str(s)) => s@,
        _ => match dir_name {
            Some(d) => d,
            None => "unknown"@,
        },
    }
}

/// The scripts of a `package.json` whose command is a string.
pub open spec fn package_scripts_of(package_json: JsonValue) -> Seq<(Seq<char>, Seq<char>)> {
    match get(package_json, "scripts"@) {
        Some(JsonValue::Object(members)) => string_members(members@),
        _ => Seq::empty(),
    }
}

/// The monorepo package in the directory `relative_path` with this
/// `package.json`, detected with the repository's package manager.
pub open spec fn package_spec(
    r: MonorepoPackage,
    package_json: JsonValue,
    dir_name: Option<Seq<char>>,
    relative_path: Option<Seq<char>>,
    package_dir: ProjectDir,
    package_manager: Seq<char>,
) -> bool {
    let scripts = names_of(collected(package_scripts_of(package_json)));
    &&& r.name@ == package_name_of(package_json, dir_name)
    &&& r.relative_path@ == replace_char(
        match relative_path {
            Some(p) => p,
            None => Seq::empty(),
        },
        '\\',
        '/',
    )
    &&& r.project_type@ == project_type_of(package_dir, dependency_names_of(package_json), scripts)
    &&& r.build_command@ == build_command_of(scripts, package_manager)
    &&& r.output_dir@ == output_dir_of(package_dir, r.project_type@)
}

/// The monorepo package described by a `package.json`, in the directory
/// named `dir_name` at `relative_path` below the repository root.
pub fn monorepo_package_from_manifest(
    package_json: &JsonValue,
    dir_name: Option<&str>,
    relative_path: Option<&str>,
    package_dir: &ProjectDir,
    package_manager: &str,
) -> (r: MonorepoPackage)
    ensures
        package_spec(
            r,
            *package_json,
            match dir_name {
                Some(d) => Some(d@),
                None => None,
            },
            match relative_path {
                Some(p) => Some(p@),
                None => None,
            },
            *package_dir,
            package_manager@,
        ),
{
    let name = match json_get(package_json, "name") {
        Some(JsonValue::Str(s)) => s.clone(),
        _ => match dir_name {
            Some(d) => d.to_owned(),
            None => "unknown".to_owned(),
        },
    };
    let members = match json_get(package_json, "scripts") {
        Some(v) => match v {
            JsonValue::Object(_) => string_member_list(Some(v)),
            _ => Vec::new(),
        },
        None => Vec::new(),
    };
    assert(text_pairs(members@) == package_scripts_of(*package_json));
    let scripts = Scripts::collect_from(members.as_slice());
    let dependencies = extract_dependency_names(package_json);
    let project_type = detect_project_type(package_dir, dependencies.as_slice(), &scripts);
    let build_command = detect_build_command(&scripts, package_manager);
    let output_dir = detect_output_dir(package_dir, project_type.as_str());
    let raw_path = match relative_path {
        Some(p) => chars_of(p),
        None => Vec::new(),
    };
    let relative = replace_char_exec(raw_path.as_slice(), '\\', '/');
    MonorepoPackage {
        name,
        relative_path: string_from_chars(relative.as_slice()),
        project_type,
        build_command,
        output_dir,
    }
}

/// The monorepo package whose `package.json` has the text `content`, in the
/// directory named `dir_name` at `relative_path` below the repository root;
/// `None` when the text is not a JSON document.
pub fn monorepo_package_from_text(
    content: &str,
    dir_name: Option<&str>,
    relative_path: Option<&str>,
    package_dir: &ProjectDir,
    package_manager: &str,
) -> (r: Option<MonorepoPackage>)
    ensures
        match parsed_json(content@) {
            None => r is None,
            Some(j) => r matches Some(p) && package_spec(
                p,
                j,
                match dir_name {
                    Some(d) => Some(d@),
                    None => None,
                },
                match relative_path {
                    Some(q) => Some(q@),
                    None => None,
                },
                *package_dir,
                package_manager@,
            ),
        },
{
    match parse_json(content) {
        Some(j) => Some(
            monorepo_package_from_manifest(&j, dir_name, relative_path, package_dir, package_manager),
        ),
        None => None,
    }
}

/// A copy of a package.
fn copy_package(p: &MonorepoPackage) -> (r: MonorepoPackage)
    ensures
        r == *p,
{
    MonorepoPackage {
        name: p.name.clone(),
        relative_path: p.relative_path.clone(),
        project_type: p.project_type.clone(),
        build_command: p.build_command.clone(),
        output_dir: p.output_dir.clone(),
    }
}

/// `r` is the first deployable candidate with its path.
pub open spec fn first_with_path(candidates: Seq<(MonorepoPackage, bool)>, r: MonorepoPackage) -> bool {
    exists|k: int|
        0 <= k < candidates.len() && candidates[k].1 && candidates[k].0 == r && forall|j: int|
            0 <= j < k && candidates[j].1 ==> candidates[j].0.relative_path@ != r.relative_path@
}

/// The packages are in strictly ascending order of path.
pub open spec fn sorted_by_path(packages: Seq<MonorepoPackage>) -> bool {
    forall|i: int, j: int|
        0 <= i < j < packages.len() ==> text_lt(packages[i].relative_path@, packages[j].relative_path@)
}

/// Every deployable candidate's path is among the packages.
pub open spec fn covers_paths(packages: Seq<MonorepoPackage>, candidates: Seq<(MonorepoPackage, bool)>) -> bool {
    forall|k: int|
        0 <= k < candidates.len() && candidates[k].1 ==> exists|i: int|
            0 <= i < packages.len() && packages[i].relative_path@
                == candidates[k].0.relative_path@
}

proof fn lemma_first_extends(candidates: Seq<(MonorepoPackage, bool)>, k: int, r: Seq<MonorepoPackage>)
    requires
        0 <= k < candidates.len(),
        forall|i: int| 0 <= i < r.len() ==> first_with_path(candidates.take(k), #[trigger] r[i]),
    ensures
        forall|i: int| 0 <= i < r.len() ==> first_with_path(candidates.take(k + 1), #[trigger] r[i]),
{
    let ck = candidates.take(k);
    let ck1 = candidates.take(k + 1);
    assert forall|i: int| 0 <= i < r.len() implies first_with_path(ck1, #[trigger] r[i]) by {
        assert(first_with_path(ck, r[i]));
        let w = choose|w: int|
            0 <= w < ck.len() && ck[w].1 && ck[w].0 == r[i] && forall|j: int|
                0 <= j < w && ck[j].1 ==> ck[j].0.relative_path@ != r[i].relative_path@;
        assert(ck1[w] == ck[w]);
        assert forall|j: int| 0 <= j < w && ck1[j].1 implies ck1[j].0.relative_path@
            != r[i].relative_path@ by {
            assert(ck1[j] == ck[j]);
        }
    }
}

proof fn lemma_covers_extends(candidates: Seq<(MonorepoPackage, bool)>, k: int, r: Seq<MonorepoPackage>)
    requires
        0 <= k < candidates.len(),
        covers_paths(r, candidates.take(k)),
        candidates[k].1 ==> exists|i: int|
            0 <= i < r.len() && r[i].relative_path@ == candidates[k].0.relative_path@,
    ensures
        covers_paths(r, candidates.take(k + 1)),
{
    let ck = candidates.take(k);
    let ck1 = candidates.take(k + 1);
    assert forall|j: int| 0 <= j < ck1.len() && ck1[j].1 implies exists|i: int|
        0 <= i < r.len() && r[i].relative_path@ == ck1[j].0.relative_path@ by {
        if j < k {
            assert(ck1[j] == ck[j]);
        }
    }
}

proof fn lemma_after_insert(
    candidates: Seq<(MonorepoPackage, bool)>,
    k: int,
    old_r: Seq<MonorepoPackage>,
    p: int,
)
    requires
        0 <= k < candidates.len(),
        candidates[k].1,
        0 <= p <= old_r.len(),
        forall|i: int| 0 <= i < old_r.len() ==> first_with_path(candidates.take(k + 1), #[trigger] old_r[i]),
        covers_paths(old_r, candidates.take(k)),
        forall|j: int| 0 <= j < old_r.len() ==> old_r[j].relative_path@ != candidates[k].0.relative_path@,
    ensures
        forall|i: int| 0 <= i < old_r.len() + 1 ==> first_with_path(
            candidates.take(k + 1),
            #[trigger] old_r.insert(p, candidates[k].0)[i],
        ),
        covers_paths(old_r.insert(p, candidates[k].0), candidates.take(k + 1)),
{
    let x = candidates[k].0;
    let nr = old_r.insert(p, x);
    let ck = candidates.take(k);
    let ck1 = candidates.take(k + 1);
    assert forall|i: int| 0 <= i < nr.len() implies first_with_path(ck1, #[trigger] nr[i]) by {
        if i < p {
            assert(nr[i] == old_r[i]);
        } else if i > p {
            assert(nr[i] == old_r[i - 1]);
        } else {
            assert(ck1[k] == candidates[k]);
            assert forall|j: int| 0 <= j < k && ck1[j].1 implies ck1[j].0.relative_path@
                != x.relative_path@ by {
                assert(ck1[j] == ck[j]);
                let w = choose|w: int|
                    0 <= w < old_r.len() && old_r[w].relative_path@ == ck[j].0.relative_path@;
            }
        }
    }
    assert forall|j: int| 0 <= j < ck1.len() && ck1[j].1 implies exists|i: int|
        0 <= i < nr.len() && nr[i].relative_path@ == ck1[j].0.relative_path@ by {
        if j < k {
            assert(ck1[j] == ck[j]);
            let w = choose|w: int|
                0 <= w < old_r.len() && old_r[w].relative_path@ == ck[j].0.relative_path@;
            if w < p {
                assert(nr[w] == old_r[w]);
            } else {
                assert(nr[w + 1] == old_r[w]);
            }
        } else {
            assert(nr[p] == x);
        }
    }
}

/// Inserts `pkg` in path order unless a package with its path is there.
fn insert_by_path(r: &mut Vec<MonorepoPackage>, pkg: MonorepoPackage) -> (res: (bool, usize))
    requires
        sorted_by_path(old(r)@),
    ensures
        sorted_by_path(final(r)@),
        res.0 == forall|j: int| 0 <= j < old(r)@.len() ==> old(r)@[j].relative_path@ != pkg.relative_path@,
        res.0 ==> res.1 <= old(r)@.len() && final(r)@ == old(r)@.insert(res.1 as int, pkg),
        !res.0 ==> final(r)@ == old(r)@,
{
    let path = chars_of(pkg.relative_path.as_str());
    let mut p: usize = 0;
    while p < r.len() && text_lt_exec(chars_of(r[p].relative_path.as_str()).as_slice(), path.as_slice())
        invariant
            p <= r@.len(),
            path@ == pkg.relative_path@,
            forall|j: int| 0 <= j < p ==> text_lt(r@[j].relative_path@, path@),
        decreases r@.len() - p,
    {
        p += 1;
    }
    let ghost old_r = r@;
    if p < r.len() && str_eq(r[p].relative_path.as_str(), pkg.relative_path.as_str()) {
        return (false, p);
    }
    proof {
        assert forall|j: int| 0 <= j < old_r.len() implies old_r[j].relative_path@ != path@ by {
            if j < p {
                crate::text::lemma_text_lt_irreflexive(path@);
            } else {
                let q = old_r[p as int].relative_path@;
                crate::text::lemma_text_lt_total(q, path@);
                if j > p {
                    assert(text_lt(q, old_r[j].relative_path@));
                    if old_r[j].relative_path@ == path@ {
                        crate::text::lemma_text_lt_asymmetric(q, path@);
                    }
                }
            }
        }
    }
    r.insert(p, pkg);
    proof {
        assert(r@ =~= old_r.insert(p as int, pkg));
        assert forall|a: int, b: int| 0 <= a < b < r@.len() implies text_lt(
            r@[a].relative_path@,
            r@[b].relative_path@,
        ) by {
            if b < p {
                assert(r@[a] == old_r[a]);
                assert(r@[b] == old_r[b]);
            } else if a < p && b == p {
            } else if a < p && b > p {
                assert(r@[b] == old_r[b - 1]);
            } else if a == p && b > p {
                let q = old_r[p as int].relative_path@;
                crate::text::lemma_text_lt_total(q, path@);
                if b - 1 > p {
                    crate::text::lemma_text_lt_transitive(path@, q, old_r[b - 1].relative_path@);
                }
            } else {
                assert(r@[a] == old_r[a - 1]);
                assert(r@[b] == old_r[b - 1]);
            }
        }
    }
    (true, p)
}

/// The deployable candidates, one per path (the first found), in order of
/// path.
pub fn select_monorepo_packages(candidates: &Vec<(MonorepoPackage, bool)>) -> (r: Vec<
    MonorepoPackage,
>)
    ensures
        sorted_by_path(r@),
        forall|i: int| 0 <= i < r@.len() ==> first_with_path(candidates@, #[trigger] r@[i]),
        covers_paths(r@, candidates@),
{
    let mut r: Vec<MonorepoPackage> = Vec::new();
    let mut k: usize = 0;
    while k < candidates.len()
        invariant
            k <= candidates@.len(),
            sorted_by_path(r@),
            forall|i: int| 0 <= i < r@.len() ==> first_with_path(candidates@.take(k as int), #[trigger] r@[i]),
            covers_paths(r@, candidates@.take(k as int)),
        decreases candidates@.len() - k,
    {
        proof {
            lemma_first_extends(candidates@, k as int, r@);
        }
        let ghost old_r = r@;
        if candidates[k].1 {
            let pkg = copy_package(&candidates[k].0);
            let (inserted, p) = insert_by_path(&mut r, pkg);
            proof {
                if inserted {
                    lemma_after_insert(candidates@, k as int, old_r, p as int);
                } else {
                    let w = choose|j: int| 0 <= j < old_r.len() && !(old_r[j].relative_path@ != pkg.relative_path@);
                    assert(0 <= w < r@.len() && r@[w].relative_path@ == candidates@[k as int].0.relative_path@);
                    lemma_covers_extends(candidates@, k as int, r@);
                }
            }
        } else {
            proof {
                lemma_covers_extends(candidates@, k as int, r@);
            }
        }
        k += 1;
    }
    assert(candidates@.take(k as int) =~= candidates@);
    r
}

// ==================== laws of glob matching ====================

proof fn lemma_star_rest(p: Seq<char>, t: Seq<char>, ti: nat)
    requires
        p == seq!['*'],
        ti <= t.len(),
        !t.contains('/'),
    ensures
        glob_at(p, 0, t, ti),
    decreases t.len() - ti,
{
    assert(p.len() == 1 && p[0] == '*');
    if ti < t.len() {
        lemma_star_rest(p, t, ti + 1);
        assert(t[ti as int] != '/');
    } else {
        assert(glob_at(p, 1, t, ti));
    }
}

/// A lone `*` matches every name without a `/`, and no name with one.
pub proof fn law_lone_star_matches_names(text: Seq<char>)
    ensures
        glob_matches(seq!['*'], text) == !text.contains('/'),
{
    let p = seq!['*'];
    if !text.contains('/') {
        lemma_star_rest(p, text, 0);
    } else {
        lemma_star(p, 0, text, 0);
        if glob_matches(p, text) {
            let i = choose|i: nat|
                0 <= i <= text.len() && no_slash(text, 0, i) && #[trigger] glob_at(p, 1, text, i);
            assert(i == text.len());
            let k = choose|k: int| 0 <= k < text.len() && text[k] == '/';
            assert(text[k] != '/');
        }
    }
}

/// A package is deployable exactly when `index.html` is a regular file in it
/// or a framework was detected in it: a package whose type is `unknown` is
/// deployable only with an `index.html`, and a package of every type that
/// detection gives for a framework (next, nuxt, astro, sveltekit, vite-vue,
/// vite-react, vue-cli, react, static-generator) is deployable.
pub proof fn law_deployable_packages(
    package_dir: ProjectDir,
    project_type: Seq<char>,
    dependencies: Seq<Seq<char>>,
    scripts: Seq<Seq<char>>,
)
    ensures
        deployable(package_dir, project_type) == (path_is_file(package_dir, "index.html"@)
            || project_type != "unknown"@),
        deployable(package_dir, "unknown"@) == path_is_file(package_dir, "index.html"@),
        project_type_of(package_dir, dependencies, scripts) != "unknown"@ ==> deployable(
            package_dir,
            project_type_of(package_dir, dependencies, scripts),
        ),
        deployable(package_dir, "next"@),
        deployable(package_dir, "nuxt"@),
        deployable(package_dir, "astro"@),
        deployable(package_dir, "sveltekit"@),
        deployable(package_dir, "vite-vue"@),
        deployable(package_dir, "vite-react"@),
        deployable(package_dir, "vue-cli"@),
        deployable(package_dir, "react"@),
        deployable(package_dir, "static-generator"@),
{
    reveal_strlit("unknown");
    reveal_strlit("next");
    reveal_strlit("nuxt");
    reveal_strlit("astro");
    reveal_strlit("sveltekit");
    reveal_strlit("vite-vue");
    reveal_strlit("vite-react");
    reveal_strlit("vue-cli");
    reveal_strlit("react");
    reveal_strlit("static-generator");
    assert("next"@ != "unknown"@ && "nuxt"@ != "unknown"@ && "astro"@ != "unknown"@) by {
        assert("next"@.len() != "unknown"@.len() && "nuxt"@.len() != "unknown"@.len());
        assert("astro"@.len() != "unknown"@.len());
    }
    assert("sveltekit"@ != "unknown"@ && "vite-vue"@ != "unknown"@) by {
        assert("sveltekit"@.len() != "unknown"@.len() && "vite-vue"@.len() != "unknown"@.len());
    }
    assert("vite-react"@ != "unknown"@ && "vue-cli"@ != "unknown"@) by {
        assert("vite-react"@.len() != "unknown"@.len() && "vue-cli"@[0] != "unknown"@[0]);
    }
    assert("react"@ != "unknown"@ && "static-generator"@ != "unknown"@) by {
        assert("react"@.len() != "unknown"@.len());
        assert("static-generator"@.len() != "unknown"@.len());
    }
}

} // verus!
