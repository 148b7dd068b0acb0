use media_scraper::classify::extension_of_name;
use media_scraper::text::{split_after_last, split_before, str_eq, str_has_prefix, trim_str};

#[test]
fn trim_removes_surrounding_whitespace() {
    assert_eq!(trim_str("  a b \t\n"), "a b");
    assert_eq!(trim_str("ab"), "ab");
    assert_eq!(trim_str("   "), "");
    assert_eq!(trim_str(""), "");
    assert_eq!(trim_str("\u{a0}x\u{3000}"), "x");
}

#[test]
fn split_before_takes_prefix_before_first_hit() {
    assert_eq!(split_before("a?b?c", '?'), "a");
    assert_eq!(split_before("abc", '?'), "abc");
    assert_eq!(split_before("?abc", '?'), "");
    assert_eq!(split_before("", '?'), "");
}

#[test]
fn split_after_last_takes_suffix_after_last_hit() {
    assert_eq!(split_after_last("a/b/c", '/'), "c");
    assert_eq!(split_after_last("abc", '/'), "abc");
    assert_eq!(split_after_last("ab/", '/'), "");
    assert_eq!(split_after_last("", '/'), "");
}

#[test]
fn extension_is_empty_without_a_dot() {
    assert_eq!(extension_of_name("clip.wav"), "wav");
    assert_eq!(extension_of_name("archive.tar.gz"), "gz");
    assert_eq!(extension_of_name("clip"), "");
    assert_eq!(extension_of_name(""), "");
    assert_eq!(extension_of_name("dot."), "");
}

#[test]
fn prefix_test() {
    assert!(str_has_prefix("https://x", "http"));
    assert!(str_has_prefix("//x", "//"));
    assert!(!str_has_prefix("/x", "//"));
    assert!(str_has_prefix("abc", ""));
    assert!(!str_has_prefix("ab", "abc"));
}

#[test]
fn char_wise_equality() {
    assert!(str_eq("abc", "abc"));
    assert!(!str_eq("abc", "abd"));
    assert!(!str_eq("abc", "ab"));
    assert!(str_eq("", ""));
}
