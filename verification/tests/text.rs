use jw_news_reader::normalize_text;
use jw_news_reader::text::{blank, char_is_whitespace, chars_of, contains_str, ends_with, eq_str};
use jw_news_reader::text::{find_in, starts_with, trimmed};
use jw_news_reader::words::{join_parts, normalized, split_char, split_lines, split_words};

fn chars(s: &str) -> Vec<char> {
    s.chars().collect()
}

fn text(v: &[char]) -> String {
    v.iter().collect()
}

fn texts(v: &[Vec<char>]) -> Vec<String> {
    v.iter().map(|x| text(x)).collect()
}

#[test]
fn normalize_text_collapses_whitespace_runs() {
    assert_eq!(normalize_text("  Hello \n\t World  ".to_string()), "Hello World");
    assert_eq!(normalize_text(String::new()), "");
    assert_eq!(normalize_text(" \n\r\t ".to_string()), "");
    assert_eq!(normalize_text("one".to_string()), "one");
    assert_eq!(normalize_text("a  b   c".to_string()), "a b c");
}

#[test]
fn normalize_text_knows_unicode_whitespace() {
    assert_eq!(normalize_text("a\u{a0}b".to_string()), "a b");
    assert_eq!(normalize_text("\u{3000}x\u{2003}y\u{2028}".to_string()), "x y");
    assert_eq!(normalize_text("a\u{85}b\u{1680}c\u{202f}d\u{205f}e".to_string()), "a b c d e");
    // A zero-width space is no whitespace.
    assert_eq!(normalize_text("a\u{200b}b".to_string()), "a\u{200b}b");
}

#[test]
fn whitespace_test_agrees_with_the_standard_library() {
    let mut code: u32 = 0;
    while code <= 0x10ffff {
        if let Some(c) = char::from_u32(code) {
            assert_eq!(char_is_whitespace(c), c.is_whitespace(), "U+{:04X}", code);
        }
        code += 1;
    }
}

#[test]
fn trimmed_cuts_both_ends_only() {
    assert_eq!(text(&trimmed(&chars("  a b  "))), "a b");
    assert_eq!(text(&trimmed(&chars("\n\ta\u{a0}"))), "a");
    assert_eq!(text(&trimmed(&chars("   "))), "");
    assert_eq!(text(&trimmed(&chars(""))), "");
    assert_eq!(text(&trimmed(&chars("x"))), "x");
}

#[test]
fn blank_means_only_whitespace() {
    assert!(blank(&chars("")));
    assert!(blank(&chars(" \n\t\u{3000}")));
    assert!(!blank(&chars(" . ")));
}

#[test]
fn words_are_runs_between_whitespace() {
    assert_eq!(texts(&split_words(&chars("  a bc\n d "))), vec!["a", "bc", "d"]);
    assert!(split_words(&chars(" \n ")).is_empty());
    assert_eq!(texts(&split_words(&chars("one"))), vec!["one"]);
    assert_eq!(text(&normalized(&chars(" a \n b "))), "a b");
}

#[test]
fn split_keeps_empty_pieces() {
    assert_eq!(texts(&split_char(&chars("a,b,,c"), ',')), vec!["a", "b", "", "c"]);
    assert_eq!(texts(&split_char(&chars(""), ',')), vec![""]);
    assert_eq!(texts(&split_char(&chars(","), ',')), vec!["", ""]);
    assert_eq!(texts(&split_char(&chars("abc"), ',')), vec!["abc"]);
}

#[test]
fn join_puts_the_separator_between_parts() {
    let parts = vec![chars("a"), chars(""), chars("bc")];
    assert_eq!(text(&join_parts(&parts, &chars(", "))), "a, , bc");
    assert_eq!(text(&join_parts(&Vec::new(), &chars(", "))), "");
    assert_eq!(text(&join_parts(&vec![chars("x")], &chars(", "))), "x");
}

#[test]
fn lines_follow_the_standard_library() {
    let samples = [
        "",
        "a",
        "a\n",
        "a\nb",
        "a\n\nb\n",
        "\n",
        "\n\n",
        "a\r\nb",
        "a\r\n",
        "a\r",
        "a\r\r\nb",
        "\r\n\r\n",
        "a\rb\nc",
        "x\n\r",
    ];
    for s in samples {
        let expected: Vec<String> = s.lines().map(|l| l.to_string()).collect();
        assert_eq!(texts(&split_lines(&chars(s))), expected, "{:?}", s);
    }
}

#[test]
fn searching_finds_what_is_there() {
    assert!(contains_str(&chars("the watchtower"), "watch"));
    assert!(contains_str(&chars("abc"), ""));
    assert!(contains_str(&chars("abc"), "abc"));
    assert!(contains_str(&chars("aab"), "ab"));
    assert!(!contains_str(&chars("abc"), "abcd"));
    assert!(!contains_str(&chars(""), "a"));
    assert!(find_in(&chars("pp. 3"), &chars("pp.")));
    assert!(starts_with(&chars("Image: x"), &chars("Image:")));
    assert!(!starts_with(&chars("image: x"), &chars("Image:")));
    assert!(!starts_with(&chars("Im"), &chars("Image:")));
    assert!(ends_with(&chars("www.jw.org"), &chars(".jw.org")));
    assert!(!ends_with(&chars("jw.org"), &chars(".jw.org")));
    assert!(eq_str(&chars("h1"), "h1"));
    assert!(!eq_str(&chars("h1"), "h2"));
    assert!(!eq_str(&chars("h1"), "h"));
    assert_eq!(text(&chars_of("héllo")), "héllo");
}
