use jw_news_reader::markdown::tidy_markdown;
use jw_news_reader::srcset::score_descriptor;
use jw_news_reader::text::{contains_str, ends_with, starts_with, to_lowercase, to_uppercase, trimmed};
use jw_news_reader::words::{normalized, split_char, split_lines, split_words};

fn chars(s: &str) -> Vec<char> {
    s.chars().collect()
}

fn text(v: &[char]) -> String {
    v.iter().collect()
}

fn texts(v: &[Vec<char>]) -> Vec<String> {
    v.iter().map(|x| text(x)).collect()
}

/// All texts of at most `max` characters over `alphabet`.
fn all_texts(alphabet: &[char], max: usize) -> Vec<String> {
    let mut out = vec![String::new()];
    let mut last = vec![String::new()];
    for _ in 0..max {
        let mut next = Vec::new();
        for s in &last {
            for c in alphabet {
                let mut t = s.clone();
                t.push(*c);
                next.push(t);
            }
        }
        out.extend(next.iter().cloned());
        last = next;
    }
    out
}

#[test]
fn trimming_agrees_with_the_standard_library() {
    for s in all_texts(&['a', ' ', '\n', '\u{a0}', '\u{200b}'], 5) {
        assert_eq!(text(&trimmed(&chars(&s))), s.trim(), "{:?}", s);
    }
}

#[test]
fn words_agree_with_the_standard_library() {
    for s in all_texts(&['a', 'b', ' ', '\n', '\u{3000}'], 5) {
        let expected: Vec<String> = s.split_whitespace().map(|w| w.to_string()).collect();
        assert_eq!(texts(&split_words(&chars(&s))), expected, "{:?}", s);
        assert_eq!(text(&normalized(&chars(&s))), expected.join(" "), "{:?}", s);
    }
}

#[test]
fn lines_agree_with_the_standard_library() {
    for s in all_texts(&['a', ' ', '\n', '\r'], 6) {
        let expected: Vec<String> = s.lines().map(|l| l.to_string()).collect();
        assert_eq!(texts(&split_lines(&chars(&s))), expected, "{:?}", s);
    }
}

#[test]
fn splitting_and_searching_agree_with_the_standard_library() {
    for s in all_texts(&['a', 'b', ','], 5) {
        let expected: Vec<String> = s.split(',').map(|p| p.to_string()).collect();
        assert_eq!(texts(&split_char(&chars(&s), ',')), expected, "{:?}", s);
        for needle in ["", "a", "ab", "a,b", ",,", "bab"] {
            assert_eq!(contains_str(&chars(&s), needle), s.contains(needle), "{:?} {:?}", s, needle);
            assert_eq!(starts_with(&chars(&s), &chars(needle)), s.starts_with(needle), "{:?} {:?}", s, needle);
            assert_eq!(ends_with(&chars(&s), &chars(needle)), s.ends_with(needle), "{:?} {:?}", s, needle);
        }
    }
}

#[test]
fn tidying_agrees_with_the_pattern_for_blank_line_runs() {
    let runs = regex::Regex::new(r"\n{3,}").unwrap();
    for s in all_texts(&['a', ' ', '\n'], 8) {
        let expected = runs.replace_all(&s, "\n\n").trim().to_string();
        assert_eq!(text(&tidy_markdown(&chars(&s))), expected, "{:?}", s);
    }
}

#[test]
fn case_mapping_is_that_of_the_standard_library() {
    for s in ["", "Play", "ÀÉÎ straße", "ΣΑΣ", "İstanbul", "ǅ", "ﬁn", "Awake!"] {
        assert_eq!(text(&to_lowercase(&chars(s))), s.to_lowercase(), "{:?}", s);
        assert_eq!(text(&to_uppercase(&chars(s))), s.to_uppercase(), "{:?}", s);
    }
    assert_eq!(text(&to_lowercase(&chars("ΣΑΣ"))), "σας");
    assert_eq!(text(&to_uppercase(&chars("straße"))), "STRASSE");
}

#[test]
fn scores_order_as_the_numbers_do() {
    let numbers = [
        "0", "0.0", "00", "-0", "0e5", "1", "1.0", "1e0", "1.5", "1.50", "15e-1", "2", "10", "1e1", "9",
        "0.5", ".5", "5e-1", "0.25", "3.", "+3", "-1", "-0.5", "-2", "-2e0", "100", "1e2", "1E2", "99.999",
        "100.001", "1234567.125", "0.001", "1e-3", "0.0001", "1e3", ".5e1", "5", "12.5e1", "125", "-1e2",
        "-100", "1e300", "1e-300", "2.5e-3", "inf", "-inf", "Infinity", "+infinity", "-INF",
    ];
    for a in numbers {
        for b in numbers {
            let x: f64 = a.parse().unwrap();
            let y: f64 = b.parse().unwrap();
            let sa = score_descriptor(&chars(&format!("{}w", a)));
            let sb = score_descriptor(&chars(&format!("{}x", b)));
            assert_eq!(sa.less_than(&sb), x < y, "{} {}", a, b);
            assert_eq!(sb.less_than(&sa), y < x, "{} {}", a, b);
        }
    }
}
