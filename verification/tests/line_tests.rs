use shell_config::config_file::EnvVariable;
use shell_config::line::{declaration_from, parse_export, render, segment_value, EXPORT_PATTERN};
use shell_config::text::{contains, join, split, to_chars};

fn strings(parts: &[&str]) -> Vec<String> {
    parts.iter().map(|s| s.to_string()).collect()
}

fn parsed(line: &str) -> Option<(String, Vec<String>)> {
    parse_export(line).map(|env| (env.key, env.value))
}

#[test]
fn path_line_round_trips() {
    let env = parse_export("export PATH=\"/usr/bin:/bin\"").unwrap();
    assert_eq!(env.key, "PATH");
    assert_eq!(env.value, strings(&["/usr/bin", "/bin"]));
    assert_eq!(render(&env), "export PATH=\"/usr/bin:/bin\"");
}

#[test]
fn url_value_is_kept_whole() {
    let env = parse_export("export API_URL=\"https://example.com:8080/path\"").unwrap();
    assert_eq!(env.key, "API_URL");
    assert_eq!(env.value, strings(&["https://example.com:8080/path"]));
    assert_eq!(render(&env), "export API_URL=\"https://example.com:8080/path\"");
}

#[test]
fn http_value_is_kept_whole() {
    assert_eq!(segment_value("http://a:1"), strings(&["http://a:1"]));
    assert_eq!(segment_value("x:http://a:1"), strings(&["x:http://a:1"]));
    assert_eq!(segment_value("http:/a:1"), strings(&["http", "/a", "1"]));
}

#[test]
fn quotes_are_optional_and_need_not_match() {
    assert_eq!(parsed("export FOO=bar"), Some(("FOO".to_string(), strings(&["bar"]))));
    assert_eq!(parsed("export FOO='bar"), Some(("FOO".to_string(), strings(&["bar"]))));
    assert_eq!(parsed("export FOO='bar\""), Some(("FOO".to_string(), strings(&["bar"]))));
    assert_eq!(parsed("export FOO=bar'"), Some(("FOO".to_string(), strings(&["bar"]))));
    assert_eq!(parsed("export FOO=\"a\"b\""), Some(("FOO".to_string(), strings(&["a\"b"]))));
}

#[test]
fn only_one_quote_is_taken_from_each_end() {
    assert_eq!(parsed("export FOO=\"\"bar\"\""), Some(("FOO".to_string(), strings(&["\"bar\""]))));
    assert_eq!(parsed("export FOO=\"\""), Some(("FOO".to_string(), strings(&[""]))));
    assert_eq!(parsed("export FOO=\""), Some(("FOO".to_string(), strings(&[""]))));
}

#[test]
fn surrounding_white_space_is_trimmed() {
    assert_eq!(parsed("  \texport   FOO=bar  "), Some(("FOO".to_string(), strings(&["bar"]))));
    assert_eq!(parsed("export\tFOO=a b"), Some(("FOO".to_string(), strings(&["a b"]))));
}

#[test]
fn empty_value_is_one_empty_segment() {
    assert_eq!(parsed("export FOO="), Some(("FOO".to_string(), strings(&[""]))));
}

#[test]
fn empty_segments_are_kept() {
    assert_eq!(parsed("export P=a::b:"), Some(("P".to_string(), strings(&["a", "", "b", ""]))));
    assert_eq!(parsed("export P=:"), Some(("P".to_string(), strings(&["", ""]))));
}

#[test]
fn lines_that_are_no_declaration() {
    assert_eq!(parsed("# comment"), None);
    assert_eq!(parsed(""), None);
    assert_eq!(parsed("exportFOO=bar"), None);
    assert_eq!(parsed("export =bar"), None);
    assert_eq!(parsed("export FOO1=bar"), None);
    assert_eq!(parsed("export FOO-BAR=1"), None);
    assert_eq!(parsed("export FOO"), None);
    assert_eq!(parsed("FOO=bar"), None);
    assert_eq!(parsed("alias export FOO=bar"), None);
    assert_eq!(parsed("export FOO =bar"), None);
}

#[test]
fn key_runs_to_the_first_equals_sign() {
    assert_eq!(parsed("export a_B=c=d"), Some(("a_B".to_string(), strings(&["c=d"]))));
}

#[test]
fn declaration_from_reads_groups_one_and_two() {
    let groups = vec![
        Some("export K=a:b".to_string()),
        Some("K".to_string()),
        Some("a:b".to_string()),
    ];
    let env = declaration_from(&groups).unwrap();
    assert_eq!(env.key, "K");
    assert_eq!(env.value, strings(&["a", "b"]));
}

#[test]
fn declaration_from_needs_both_groups() {
    assert!(declaration_from(&vec![]).is_none());
    assert!(declaration_from(&vec![Some("x".to_string()), Some("K".to_string())]).is_none());
    assert!(declaration_from(&vec![Some("x".to_string()), None, Some("v".to_string())]).is_none());
    assert!(declaration_from(&vec![Some("x".to_string()), Some("K".to_string()), None]).is_none());
}

#[test]
fn render_joins_with_colons_between_double_quotes() {
    let env = EnvVariable { key: "K".to_string(), value: strings(&["a", "", "b"]) };
    assert_eq!(render(&env), "export K=\"a::b\"");
    let none = EnvVariable { key: "K".to_string(), value: vec![] };
    assert_eq!(render(&none), "export K=\"\"");
    let one = EnvVariable { key: "K".to_string(), value: strings(&["baz"]) };
    assert_eq!(render(&one), "export K=\"baz\"");
}

#[test]
fn rendering_the_segments_gives_the_value_back() {
    for raw in ["", ":", "a:b:c", "::", "https://x:1", "plain", "a:http://b"] {
        let env = EnvVariable { key: "K".to_string(), value: segment_value(raw) };
        assert_eq!(render(&env), format!("export K=\"{}\"", raw));
    }
}

#[test]
fn the_pattern_is_the_one_of_a_declaration() {
    assert_eq!(EXPORT_PATTERN, "^export\\s+([a-zA-Z_]+)=['\"]?(.*?)['\"]?$");
}

#[test]
fn split_and_join_are_inverse() {
    assert_eq!(split("a:b", ':'), strings(&["a", "b"]));
    assert_eq!(split("", ':'), strings(&[""]));
    assert_eq!(split(":a:", ':'), strings(&["", "a", ""]));
    assert_eq!(split("é:ü", ':'), strings(&["é", "ü"]));
    assert_eq!(join(&strings(&["a", "b", ""]), ":"), "a:b:");
    assert_eq!(join(&strings(&[]), ":"), "");
    assert_eq!(join(&strings(&["x"]), ", "), "x");
    assert_eq!(join(&strings(&["x", "y"]), ", "), "x, y");
    for s in ["", "a", "a:b", "::", ":a::b:"] {
        assert_eq!(join(&split(s, ':'), ":"), s);
    }
}

#[test]
fn contains_finds_a_substring() {
    assert!(contains("no connection here", "connection"));
    assert!(contains("connection", "connection"));
    assert!(contains("abc", ""));
    assert!(contains("", ""));
    assert!(!contains("connectio", "connection"));
    assert!(!contains("", "a"));
    assert!(contains("aab", "ab"));
    assert_eq!(to_chars("héllo"), vec!['h', 'é', 'l', 'l', 'o']);
}
