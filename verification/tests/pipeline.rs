use jw_news_reader::extract::{extract_from_document, extract_from_html};
use jw_news_reader::html::parse_document;

const BASE: &str = "https://www.jw.org/en/news/";

#[test]
fn minimal_document_falls_back_to_body_and_title() {
    let html = "<html><head><title>T</title></head><body><p>Hello</p></body></html>";
    let r = extract_from_html(html, BASE);
    assert_eq!(r.title.as_deref(), Some("T"));
    // The first line is neither the title nor its heading, so no heading is put in.
    assert_eq!(r.markdown, "Hello");
    assert!(r.images.is_empty());
    assert_eq!(r.source_url, BASE);
}

#[test]
fn body_text_equal_to_title_becomes_heading() {
    let html = "<html><head><title>T</title></head><body><p>T</p><p>Hello</p></body></html>";
    let r = extract_from_html(html, BASE);
    assert_eq!(r.title.as_deref(), Some("T"));
    assert_eq!(r.markdown, "# T\n\nHello");
}

#[test]
fn article_is_rendered_tag_by_tag() {
    let html = concat_all(&[
        "<html><head><title>Site Title</title></head><body><nav>Menu</nav><article>",
        "<h1>Hello World</h1>",
        "<p>First <strong>bold</strong> and <em>em</em> text.</p>",
        "<ul><li>One</li><li> </li><li>Two</li></ul>",
        "<ol><li>A</li><li></li><li>B</li></ol>",
        "<a href=\"/x\">Link</a>",
        "<blockquote>Quote line</blockquote>",
        "<pre>code  here</pre>",
        "<p><code>inline</code></p>",
        "<hr>",
        "<img src=\"/img/a.jpg\" alt=\" Alt \">",
        "</article></body></html>",
    ]);
    let r = extract_from_html(&html, BASE);
    let expected = concat_all(&[
        "# Hello World\n\n",
        "First **bold** and *em* text.\n\n",
        "- One\n- Two\n\n",
        "1. A\n2. B\n\n",
        "[Link](https://www.jw.org/x)",
        "> Quote line\n\n",
        "```\ncode  here\n```\n\n",
        "`inline`\n\n",
        "---\n\n",
        "![Alt](https://www.jw.org/img/a.jpg)",
    ]);
    assert_eq!(r.markdown, expected);
    assert_eq!(r.title.as_deref(), Some("Hello World"));
    assert_eq!(r.images.len(), 1);
    assert_eq!(r.images[0].url, "https://www.jw.org/img/a.jpg");
    assert_eq!(r.images[0].alt.as_deref(), Some("Alt"));
    assert_eq!(r.images[0].caption, None);
}

#[test]
fn markdown_has_no_blank_line_runs_and_no_padding() {
    let html = "<article>\n\n\n<p>a</p>\n\n\n\n<br><br><br><br><p>b</p><hr><hr>\n\n</article>";
    let r = extract_from_html(html, BASE);
    assert!(!r.markdown.contains("\n\n\n"));
    assert_eq!(r.markdown, r.markdown.trim());
    assert_eq!(r.markdown, "a\n\nb\n\n---\n\n---");
}

#[test]
fn og_image_is_used_when_the_walk_finds_no_image() {
    let html = concat_all(&[
        "<html><head><meta property=\"og:image\" content=\" /img/og.png \"></head>",
        "<body><article><h1>Title</h1><p>Text</p></article></body></html>",
    ]);
    let r = extract_from_html(&html, BASE);
    assert_eq!(r.images.len(), 1);
    assert_eq!(r.images[0].url, "https://www.jw.org/img/og.png");
    assert_eq!(r.images[0].alt.as_deref(), Some("Title"));
    assert_eq!(r.images[0].caption, None);
    assert_eq!(r.markdown, "# Title\n\n![Title](https://www.jw.org/img/og.png)\n\nText");
}

#[test]
fn fallback_image_is_not_used_when_the_walk_finds_one() {
    let html = concat_all(&[
        "<html><head><meta property=\"og:image\" content=\"/img/og.png\"></head>",
        "<body><article><p>Text</p><img src=\"in.png\"></article></body></html>",
    ]);
    let r = extract_from_html(&html, BASE);
    assert_eq!(r.images.len(), 1);
    assert_eq!(r.images[0].url, "https://www.jw.org/en/news/in.png");
    assert_eq!(r.images[0].alt, None);
    assert_eq!(r.markdown, "Text\n\n![](https://www.jw.org/en/news/in.png)");
}

#[test]
fn same_input_gives_same_output() {
    let html = concat_all(&[
        "<html><head><title>T</title><meta name=\"twitter:image\" content=\"t.png\"></head>",
        "<body><main><h1>Head</h1><p>One <a href=\"two\">two</a></p></main></body></html>",
    ]);
    let a = extract_from_html(&html, BASE);
    let b = extract_from_html(&html, BASE);
    assert_eq!(a.markdown, b.markdown);
    assert_eq!(a.title, b.title);
    assert_eq!(a.source_url, b.source_url);
    assert_eq!(a.images.len(), b.images.len());
    assert_eq!(a.images[0].url, b.images[0].url);
    assert_eq!(a.images[0].alt, b.images[0].alt);
    assert_eq!(a.images[0].caption, b.images[0].caption);
    assert_eq!(a.markdown, "# Head\n\n![Head](https://www.jw.org/en/news/t.png)\n\nOne [two](https://www.jw.org/en/news/two)");
}

#[test]
fn address_that_does_not_parse_gets_the_default_base() {
    let html = "<article><a href=\"/a\">x</a><img src=\"b.png\"></article>";
    let r = extract_from_html(html, "not a url");
    assert_eq!(r.source_url, "not a url");
    assert_eq!(r.markdown, "[x](https://jw.org/a)![](https://jw.org/b.png)");
    assert_eq!(r.images[0].url, "https://jw.org/b.png");
}

#[test]
fn empty_input_gives_empty_result() {
    let r = extract_from_html("", BASE);
    assert_eq!(r.markdown, "");
    assert_eq!(r.title, None);
    assert!(r.images.is_empty());
}

#[test]
fn title_falls_back_from_heading_to_title_element() {
    let html = "<html><head><title> Page </title></head><body><article><p>x</p></article></body></html>";
    let r = extract_from_html(html, BASE);
    assert_eq!(r.title.as_deref(), Some("Page"));
    let html = "<html><head><title>Page</title></head><body><article><h1> Big \n Head </h1></article></body></html>";
    let r = extract_from_html(html, BASE);
    assert_eq!(r.title.as_deref(), Some("Big Head"));
    assert_eq!(r.markdown, "# Big Head");
}

#[test]
fn document_and_markup_give_the_same_result() {
    let html = "<html><head><title>T</title></head><body><article><h2>Sub</h2><p>Body</p></article></body></html>";
    let doc = parse_document(html);
    let a = extract_from_document(&doc, html, BASE);
    let b = extract_from_html(html, BASE);
    assert_eq!(a.markdown, b.markdown);
    assert_eq!(a.markdown, "## Sub\n\nBody");
    assert_eq!(a.title.as_deref(), Some("T"));
}

#[test]
fn rewritten_heading_leaves_carriage_returns_where_they_are() {
    let html = "<html><head><title>T</title></head><body>T<br>&#13;<br>&#13;<br>x</body></html>";
    let r = extract_from_html(html, BASE);
    assert_eq!(r.title.as_deref(), Some("T"));
    assert_eq!(r.markdown, "# T\n\r\n\r\nx");
    assert!(!r.markdown.contains("\n\n\n"));
    let html = "<html><head><title>Other</title></head><body>T<br>&#13;<br>&#13;<br>x</body></html>";
    let r = extract_from_html(html, BASE);
    assert_eq!(r.markdown, "T\n\r\n\r\nx");
}

#[test]
fn fallback_image_behind_heading_leaves_carriage_returns_where_they_are() {
    let html = "<html><head><meta property=\"og:image\" content=\"/i.png\"></head><body><article><h1>T</h1>A<br>&#13;<br>&#13;<br>x</article></body></html>";
    let r = extract_from_html(html, BASE);
    assert_eq!(r.markdown, "# T\n\n![T](https://www.jw.org/i.png)\n\nA\n\r\n\r\nx");
    assert!(!r.markdown.contains("\n\n\n"));
}

#[test]
fn blank_line_run_in_a_fallback_reference_is_collapsed() {
    let html = "<html><head><title>A\n\n\nB</title><meta property=\"og:image\" content=\"/i.png\"></head><body><p>x</p></body></html>";
    let r = extract_from_html(html, BASE);
    assert_eq!(r.title.as_deref(), Some("A\n\n\nB"));
    assert_eq!(r.images[0].alt.as_deref(), Some("A\n\n\nB"));
    assert_eq!(r.markdown, "![A\n\nB](https://www.jw.org/i.png)\n\nx");
    assert!(!r.markdown.contains("\n\n\n"));
    let html = "<meta property=\"og:image\" content=\"http://[a\n\n\n\nb\"><article><h1>T</h1><p>x</p></article>";
    let r = extract_from_html(html, BASE);
    assert_eq!(r.images[0].url, "http://[a\n\n\n\nb");
    assert_eq!(r.markdown, "# T\n\n![T](http://[a\n\nb)\n\nx");
}

fn concat_all(parts: &[&str]) -> String {
    let mut s = String::new();
    for p in parts {
        s.push_str(p);
    }
    s
}
