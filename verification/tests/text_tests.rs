use biblio::text::{
    ends_with, file_name, i32_to_string, path_join, split_colon_limited, str_contains, str_eq,
    str_le, trim,
};

#[test]
fn test_str_eq() {
    assert!(str_eq("abc", "abc"));
    assert!(!str_eq("abc", "abd"));
    assert!(!str_eq("abc", "abcd"));
    assert!(str_eq("", ""));
}

#[test]
fn test_str_contains() {
    assert!(str_contains("The Hitchhiker's Guide", "hiker"));
    assert!(str_contains("anything", ""));
    assert!(!str_contains("short", "much longer needle"));
    assert!(!str_contains("abcdef", "ace"));
    assert!(!str_contains("abc", "ABC"));
}

#[test]
fn test_ends_with() {
    assert!(ends_with("Some Title (42)", "(42)"));
    assert!(!ends_with("Some Title (421)", "(42)"));
    assert!(ends_with("abc", ""));
    assert!(!ends_with("c", "abc"));
}

#[test]
fn test_str_le() {
    assert!(str_le("abc", "abd"));
    assert!(str_le("ab", "abc"));
    assert!(!str_le("b", "ab"));
    assert!(str_le("same", "same"));
}

#[test]
fn test_i32_to_string() {
    assert_eq!(i32_to_string(0), "0");
    assert_eq!(i32_to_string(7), "7");
    assert_eq!(i32_to_string(42), "42");
    assert_eq!(i32_to_string(10000), "10000");
    assert_eq!(i32_to_string(-13), "-13");
    assert_eq!(i32_to_string(i32::MIN), "-2147483648");
    assert_eq!(i32_to_string(i32::MAX), "2147483647");
}

#[test]
fn test_file_name() {
    assert_eq!(file_name("/data/libs/Main Library"), "Main Library");
    assert_eq!(file_name("/data/libs/Main Library/"), "Main Library");
    assert_eq!(file_name("plain"), "plain");
    assert_eq!(file_name("/"), "");
}

#[test]
fn test_path_join() {
    assert_eq!(path_join("/data", "metadata.db"), "/data/metadata.db");
    assert_eq!(path_join("/data/", "metadata.db"), "/data/metadata.db");
    assert_eq!(path_join("", "x"), "/x");
}

#[test]
fn test_trim() {
    assert_eq!(trim("  hello \t\r\n"), "hello");
    assert_eq!(trim("nospace"), "nospace");
    assert_eq!(trim("   "), "");
}

#[test]
fn test_split_colon_limited() {
    let parts = split_colon_limited("a:b:c", 5);
    assert_eq!(parts, vec!["a".to_string(), "b".to_string(), "c".to_string()]);
    let parts = split_colon_limited("a:b:c:d:e:f", 5);
    assert_eq!(
        parts,
        vec![
            "a".to_string(),
            "b".to_string(),
            "c".to_string(),
            "d".to_string(),
            "e:f".to_string()
        ]
    );
    let parts = split_colon_limited("nocolon", 5);
    assert_eq!(parts, vec!["nocolon".to_string()]);
    let parts = split_colon_limited("x:y", 1);
    assert_eq!(parts, vec!["x:y".to_string()]);
}
