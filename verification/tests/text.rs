use open_cad::text::{
    contains_char, extension_of, file_name_of, join_path, starts_with_dot, str_eq, str_lex_le,
    suffix_after,
};

#[test]
fn file_names_follow_the_last_separator() {
    assert_eq!(file_name_of("/a/b/c.txt"), "c.txt");
    assert_eq!(file_name_of("plain"), "plain");
    assert_eq!(file_name_of("/a/b/"), "");
}

#[test]
fn extensions_follow_the_last_dot_of_the_name() {
    assert_eq!(extension_of("/a/b/c.txt"), "txt");
    assert_eq!(extension_of("/a/b/archive.tar.gz"), "gz");
    assert_eq!(extension_of("/a/b/noext"), "");
    assert_eq!(extension_of("/a.b/noext"), "");
    // A leading dot marks a hidden name, not an extension.
    assert_eq!(extension_of("/a/b/.dxf"), "");
    assert_eq!(extension_of(".hidden"), "");
    assert_eq!(extension_of("/a/.tar.gz"), "gz");
}

#[test]
fn joining_inserts_one_separator() {
    assert_eq!(join_path("/proj", "src"), "/proj/src");
    assert_eq!(join_path("", "x"), "/x");
}

#[test]
fn hidden_names_start_with_a_dot() {
    assert!(starts_with_dot(".git"));
    assert!(!starts_with_dot("git"));
    assert!(!starts_with_dot(""));
}

#[test]
fn lexicographic_order_compares_by_scalar_value() {
    assert!(str_lex_le("abc", "abd"));
    assert!(!str_lex_le("abd", "abc"));
    assert!(str_lex_le("ab", "abc"));
    assert!(str_lex_le("", "a"));
    assert!(str_lex_le("same", "same"));
    // Uppercase letters come before lowercase ones in raw order.
    assert!(str_lex_le("B", "a"));
}

#[test]
fn string_equality_compares_characters() {
    assert!(str_eq("abc", "abc"));
    assert!(!str_eq("abc", "abd"));
    assert!(!str_eq("abc", "ab"));
}

#[test]
fn suffixes_and_membership() {
    assert_eq!(suffix_after("a.b.c", '.'), "c");
    assert_eq!(suffix_after("nodot", '.'), "nodot");
    assert_eq!(suffix_after("end.", '.'), "");
    assert!(contains_char("a.b", '.'));
    assert!(!contains_char("ab", '.'));
}
