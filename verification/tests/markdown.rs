use jw_news_reader::markdown::tidy_markdown;
use jw_news_reader::{ensure_markdown_title, insert_fallback_image, ImageInfo};

fn chars(s: &str) -> Vec<char> {
    s.chars().collect()
}

fn text(v: &[char]) -> String {
    v.iter().collect()
}

fn image(alt: Option<&str>) -> ImageInfo {
    ImageInfo { url: "https://x/i.png".to_string(), alt: alt.map(|a| a.to_string()), caption: None }
}

#[test]
fn bare_title_line_becomes_heading() {
    assert_eq!(
        ensure_markdown_title("Hello World\n\nBody text", "Hello World"),
        "# Hello World\n\nBody text"
    );
}

#[test]
fn heading_that_matches_is_left_alone() {
    assert_eq!(
        ensure_markdown_title("# Hello World\n\nBody", "Hello World"),
        "# Hello World\n\nBody"
    );
}

#[test]
fn other_first_line_is_left_alone() {
    assert_eq!(
        ensure_markdown_title("Intro\n\nHello World", "Hello World"),
        "Intro\n\nHello World"
    );
    assert_eq!(ensure_markdown_title("## Hello World", "Hello World"), "## Hello World");
    assert_eq!(ensure_markdown_title("", "T"), "");
    assert_eq!(ensure_markdown_title("\n \n", "T"), "\n \n");
}

#[test]
fn title_line_is_found_behind_blank_lines_and_padding() {
    assert_eq!(
        ensure_markdown_title("\n\n  Hello World  \nrest\n", "Hello World"),
        "\n\n# Hello World\nrest\n"
    );
    assert_eq!(ensure_markdown_title(" \r\n\tHello World", "Hello World"), " \r\n# Hello World");
}

#[test]
fn title_rewrite_leaves_the_rest_unchanged() {
    assert_eq!(
        ensure_markdown_title("Hello World\r\nBody", "Hello World"),
        "# Hello World\r\nBody"
    );
    assert_eq!(ensure_markdown_title("T\n\r\n\r\nB", "T"), "# T\n\r\n\r\nB");
    assert_eq!(ensure_markdown_title("T\nA\r\nB\n\n", "T"), "# T\nA\r\nB\n\n");
    assert_eq!(ensure_markdown_title("T \r\r\nB", "T"), "# T\r\nB");
    assert_eq!(ensure_markdown_title("X\r\nT\r\nB", "T"), "X\r\nT\r\nB");
}

#[test]
fn last_line_without_line_feed_is_replaced_whole() {
    assert_eq!(ensure_markdown_title("Hello World\r", "Hello World"), "# Hello World");
    assert_eq!(ensure_markdown_title("\n Hello World \t", "Hello World"), "\n# Hello World");
}

#[test]
fn fallback_image_replaces_blank_text() {
    assert_eq!(insert_fallback_image("", &image(Some("A"))), "![A](https://x/i.png)");
    assert_eq!(insert_fallback_image("  \n ", &image(Some("A"))), "![A](https://x/i.png)");
    assert_eq!(insert_fallback_image("", &image(None)), "![](https://x/i.png)");
}

#[test]
fn fallback_image_goes_behind_the_heading() {
    assert_eq!(
        insert_fallback_image("# T\n\nBody", &image(Some("A"))),
        "# T\n\n![A](https://x/i.png)\n\nBody"
    );
    assert_eq!(insert_fallback_image("# T", &image(Some("A"))), "# T\n\n![A](https://x/i.png)");
    assert_eq!(
        insert_fallback_image("\n# T\n\n\nBody\n", &image(Some("A"))),
        "\n# T\n\n![A](https://x/i.png)\n\nBody"
    );
}

#[test]
fn fallback_image_cuts_the_text_behind_the_heading_line() {
    assert_eq!(
        insert_fallback_image("# T\nA\n\r\n\r\nB", &image(Some("A"))),
        "# T\n\n![A](https://x/i.png)\n\nA\n\r\n\r\nB"
    );
    assert_eq!(
        insert_fallback_image("\r\n# T\r\nBody\r\n", &image(None)),
        "\r\n# T\n\n![](https://x/i.png)\n\nBody"
    );
    assert_eq!(
        insert_fallback_image("# T\r\n \r\n", &image(None)),
        "# T\n\n![](https://x/i.png)"
    );
}

#[test]
fn fallback_image_goes_before_text_without_heading() {
    assert_eq!(
        insert_fallback_image("Body\n\nMore", &image(Some("A"))),
        "![A](https://x/i.png)\n\nBody\n\nMore"
    );
    assert_eq!(
        insert_fallback_image("#T\nBody", &image(None)),
        "![](https://x/i.png)\n\n#T\nBody"
    );
}

#[test]
fn tidy_collapses_blank_line_runs_and_trims() {
    assert_eq!(text(&tidy_markdown(&chars("\n\na\n\n\n\nb\n\n\nc\n\n"))), "a\n\nb\n\nc");
    assert_eq!(text(&tidy_markdown(&chars("a\nb\n\nc"))), "a\nb\n\nc");
    assert_eq!(text(&tidy_markdown(&chars("\n\n\n\n"))), "");
    assert_eq!(text(&tidy_markdown(&chars("a\n \n\n\nb"))), "a\n \n\nb");
    assert_eq!(text(&tidy_markdown(&chars("  a  "))), "a");
}
