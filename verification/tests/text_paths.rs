use afs::paths::{component_count, components_exec, join_exec, path_eq_exec, path_starts_with_exec, relative_path};
use afs::text::{decimal_string, lines_exec, parse_u64_exec, split_exec, string_of, trim_exec};

fn chars(s: &str) -> Vec<char> {
    s.chars().collect()
}

fn text(v: &[char]) -> String {
    v.iter().collect()
}

#[test]
fn path_components_follow_std() {
    let c: Vec<String> = components_exec(&chars("/a//b/./c/")).iter().map(|v| text(v)).collect();
    assert_eq!(c, vec!["/", "a", "b", "c"]);
    let r: Vec<String> = components_exec(&chars("./x/../y")).iter().map(|v| text(v)).collect();
    assert_eq!(r, vec![".", "x", "..", "y"]);
    assert_eq!(component_count(""), 0);
    assert!(path_eq_exec("/a/b/", "/a//b"));
    assert!(path_starts_with_exec("/a/b/c", "/a/b"));
    assert!(!path_starts_with_exec("/a/bc", "/a/b"));
    assert_eq!(join_exec("/a", "b"), "/a/b");
    assert_eq!(join_exec("/a/", "b"), "/a/b");
    assert_eq!(join_exec("/a", "/b"), "/b");
    assert_eq!(join_exec("", "b"), "b");
    assert_eq!(relative_path("/a", "/a/b/c").unwrap(), "b/c");
    assert_eq!(relative_path("/a", "/a").unwrap(), "");
    assert!(relative_path("/a", "/b").is_none());
}

#[test]
fn text_helpers_follow_std() {
    let l: Vec<String> = lines_exec(&chars("a\r\nb\n\nc\r")).iter().map(|v| text(v)).collect();
    assert_eq!(l, vec!["a", "b", "", "c\r"]);
    let s: Vec<String> = split_exec(&chars("a;;b;"), &[';']).iter().map(|v| text(v)).collect();
    assert_eq!(s, vec!["a", "", "b", ""]);
    assert_eq!(text(&trim_exec(&chars("\u{3000} x y\t\n"))), "x y");
    assert_eq!(decimal_string(0), "0");
    assert_eq!(decimal_string(1234567890123), "1234567890123");
    assert_eq!(parse_u64_exec(&chars("+42")), Some(42));
    assert_eq!(parse_u64_exec(&chars("18446744073709551615")), Some(u64::MAX));
    assert_eq!(parse_u64_exec(&chars("18446744073709551616")), None);
    assert_eq!(parse_u64_exec(&chars("")), None);
    assert_eq!(parse_u64_exec(&chars("4x")), None);
    assert_eq!(string_of(&chars("héllo")), "héllo");
}
