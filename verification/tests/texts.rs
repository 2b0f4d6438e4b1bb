use agent_manager::digits::{parse_unsigned, to_decimal};
use agent_manager::json::{parse_json, Json};
use agent_manager::letters::{to_ascii_lower, to_ascii_upper};
use agent_manager::order::not_after;
use agent_manager::params::Params;
use agent_manager::path::{
    components, extension, file_name, file_stem, join_path, same_path,
};
use agent_manager::split::{join, lines, shorten, split_once, words};
use agent_manager::text::{
    contains, replace, replace_once, strip_prefix, strip_suffix, trim, trim_prefixes,
    trim_suffixes,
};

#[test]
fn texts_are_trimmed_and_searched() {
    assert_eq!(trim("\u{2003} a b\t\n"), "a b");
    assert_eq!(trim(trim("  x ")), trim("  x "));
    assert!(contains("streaming", "ream"));
    assert!(!contains("abc", "abd"));
    assert_eq!(strip_prefix("abc", "ab"), Some("c"));
    assert_eq!(strip_suffix("abc", "x"), None);
    assert_eq!(trim_prefixes("aab", "a"), "b");
    assert_eq!(trim_suffixes("x.git.git", ".git"), "x");
    assert_eq!(replace("aXbX", "X", "--"), "a--b--");
    assert_eq!(replace_once("aXbX", "X", "--"), "a--bX");
}

#[test]
fn texts_are_split_and_joined() {
    assert_eq!(lines("a\r\nb\n"), vec!["a", "b"]);
    assert_eq!(words("  a  b "), vec!["a", "b"]);
    assert_eq!(
        split_once("k=v=w", "="),
        Some(("k".to_string(), "v=w".to_string()))
    );
    assert_eq!(join(&vec!["a".to_string(), "b".to_string()], ", "), "a, b");
    assert_eq!(shorten("abcdef", 10), "abcdef");
    assert_eq!(shorten("abcdef", 4).chars().count(), 4);
}

#[test]
fn numbers_are_written_and_read() {
    assert_eq!(to_decimal(0), "0");
    assert_eq!(to_decimal(u64::MAX), "18446744073709551615");
    assert_eq!(parse_unsigned("65535", 65535), Some(65535));
    assert_eq!(parse_unsigned("65536", 65535), None);
    assert_eq!(parse_unsigned("", 9), None);
    assert_eq!(to_ascii_upper("aÜb"), "AÜB");
    assert_eq!(to_ascii_lower("AÜB"), "aÜb");
    assert!(not_after("a", "b") && !not_after("b", "a"));
}

#[test]
fn json_is_read_and_written() {
    let v = parse_json(r#"{"a":[1,"x",null],"b":true,"n":-2.5}"#).unwrap();
    assert_eq!(v.get_array("a").unwrap().len(), 3);
    assert_eq!(v.get_bool("b"), Some(true));
    assert_eq!(v.get_u64("n"), None);
    assert_eq!(v.get_array("a").unwrap()[1].as_str(), Some("x"));
    assert!(parse_json("{").is_err());
    let out = Json::Object(vec![(
        "k\"".to_string(),
        Json::Array(vec![Json::Str("a\n".to_string()), Json::Null]),
    )]);
    assert_eq!(out.render(), r#"{"k\"":["a\n",null]}"#);
}

#[test]
fn paths_are_taken_apart() {
    assert_eq!(components("/a//b/./c"), vec!["a", "b", "c"]);
    assert!(same_path("/a/b/", "/a//b"));
    assert!(!same_path("a/b", "/a/b"));
    assert_eq!(file_name("/a/b.tar.gz").as_deref(), Some("b.tar.gz"));
    assert_eq!(file_stem("/a/b.tar.gz").as_deref(), Some("b.tar"));
    assert_eq!(extension("/a/b.tar.gz").as_deref(), Some("gz"));
    assert_eq!(extension("/a/.hidden"), None);
    assert_eq!(file_name("/a/.."), None);
    assert_eq!(join_path("/a", "b"), "/a/b");
}

#[test]
fn parameters_are_a_map() {
    let mut p = Params::new();
    p.insert("a".to_string(), "1".to_string());
    p.insert("a".to_string(), "2".to_string());
    assert_eq!(p.value("a").as_deref(), Some("2"));
    let mut q = Params::new();
    q.insert("b".to_string(), "3".to_string());
    p.extend(&q);
    p.remove("a");
    assert_eq!(p.value("a"), None);
    assert_eq!(p.value("b").as_deref(), Some("3"));
}
