use project_build::json::{array_strings, json_get, object_key_list, string_member_list, JsonValue};
use project_build::text::{
    chars_of, contains_exec, find_exec, join_strings, lines_exec, split_on_exec, str_eq,
    strip_prefixes_exec, text_lt_exec, trim_str,
};
use project_build::project_detection::build_script_rank;

fn chars(s: &str) -> Vec<char> {
    s.chars().collect()
}

fn texts(v: Vec<Vec<char>>) -> Vec<String> {
    v.into_iter().map(|c| c.into_iter().collect()).collect()
}

#[test]
fn trimming_and_searching() {
    assert_eq!(trim_str(" \t a b \r\n"), "a b");
    assert_eq!(trim_str("\u{2003}x\u{85}"), "x");
    assert_eq!(trim_str("   "), "");
    assert_eq!(find_exec(&chars("abcabc"), &chars("ca")), Some(2));
    assert_eq!(find_exec(&chars("abc"), &chars("")), Some(0));
    assert_eq!(find_exec(&chars("abc"), &chars("d")), None);
    assert!(contains_exec(&chars("prod-build"), &chars("build")));
    assert_eq!(strip_prefixes_exec(&chars("./././a"), &chars("./")), chars("a"));
    assert_eq!(strip_prefixes_exec(&chars("abc"), &chars("")), chars("abc"));
    assert!(str_eq("é", "é"));
    assert!(!str_eq("a", "ab"));
    assert_eq!(chars_of("héllo"), chars("héllo"));
    assert_eq!(trim_str(" héllo "), "héllo");
}

#[test]
fn ranks_lowercase_the_name() {
    assert_eq!(build_script_rank("Build:PROD"), 0);
    assert_eq!(build_script_rank("BUILD:ÀRELEASE"), 1);
}

#[test]
fn splitting_and_lines() {
    assert_eq!(texts(split_on_exec(&chars("a/b//c"), '/')), vec!["a", "b", "", "c"]);
    assert_eq!(texts(split_on_exec(&chars(""), '/')), vec![""]);
    assert_eq!(texts(split_on_exec(&chars("a/"), '/')), vec!["a", ""]);
    let text = "one\r\ntwo\n\nthree\r";
    assert_eq!(texts(lines_exec(&chars(text))), text.lines().map(|l| l.to_string()).collect::<Vec<_>>());
    assert_eq!(texts(lines_exec(&chars("a\n"))), vec!["a"]);
    assert!(lines_exec(&chars("")).is_empty());
    assert_eq!(join_strings(&["a".to_string(), "b".to_string()], "::"), "a::b");
    assert_eq!(join_strings(&[], ":"), "");
}

#[test]
fn text_order_follows_string_order() {
    for (a, b) in [("a", "b"), ("ab", "a"), ("", "a"), ("a", "a"), ("é", "z"), ("Z", "a")] {
        assert_eq!(text_lt_exec(&chars(a), &chars(b)), a < b);
    }
}

#[test]
fn json_lookups() {
    let v = JsonValue::Object(vec![
        ("a".to_string(), JsonValue::Str("1".to_string())),
        ("list".to_string(), JsonValue::Array(vec![JsonValue::Str("x".to_string()), JsonValue::Bool(false)])),
        ("a".to_string(), JsonValue::Str("2".to_string())),
    ]);
    match json_get(&v, "a") {
        Some(JsonValue::Str(s)) => assert_eq!(s, "1"),
        _ => panic!("expected a string"),
    }
    assert!(json_get(&v, "b").is_none());
    assert!(json_get(&JsonValue::Null, "a").is_none());
    assert_eq!(object_key_list(Some(&v)), vec!["a".to_string(), "list".to_string(), "a".to_string()]);
    assert_eq!(array_strings(json_get(&v, "list").unwrap()), vec!["x".to_string()]);
    assert_eq!(
        string_member_list(Some(&v)),
        vec![("a".to_string(), "1".to_string()), ("a".to_string(), "2".to_string())]
    );
}
