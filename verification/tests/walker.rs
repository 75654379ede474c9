use jw_news_reader::extract::extract_from_html;
use jw_news_reader::html::parse_document;
use jw_news_reader::rules::{control_word, issue_marks, language_name, magazine_name, play_role};
use jw_news_reader::rules::{judge_issue, judge_metadata, judge_player};
use jw_news_reader::rules::{skipped, RulePatterns, WalkCtx};
use jw_news_reader::walker::{decimal_of, handle_figure, walk_children, walk_element};
use jw_news_reader::ImageInfo;

const BASE: &str = "https://www.jw.org/en/news/";

fn chars(s: &str) -> Vec<char> {
    s.chars().collect()
}

fn text(v: &[char]) -> String {
    v.iter().collect()
}

/// Renders the first element named `tag` of the parsed markup.
fn render(html: &str, tag: &str, inside: bool, title: Option<&str>) -> (String, Vec<ImageInfo>) {
    let doc = parse_document(html);
    let i = doc.select_first(tag).unwrap();
    let title_chars = title.map(chars);
    let patterns = RulePatterns::new();
    let ctx = WalkCtx { in_article_or_main: inside, title: title_chars.as_ref(), patterns: &patterns };
    let mut images = Vec::new();
    let out = walk_element(&doc, i, &chars(BASE), &mut images, &ctx);
    (text(&out), images)
}

fn body(html: &str) -> String {
    render(html, "body", true, None).0
}

fn body_titled(html: &str, title: &str) -> String {
    render(html, "body", true, Some(title)).0
}

fn is_skipped(html: &str, tag: &str, title: Option<&str>) -> bool {
    let doc = parse_document(html);
    let i = doc.select_first(tag).unwrap();
    let title_chars = title.map(chars);
    let patterns = RulePatterns::new();
    let ctx = WalkCtx { in_article_or_main: true, title: title_chars.as_ref(), patterns: &patterns };
    skipped(&doc, i, &ctx)
}

#[test]
fn promo_block_is_dropped_unless_it_holds_the_title() {
    let filler = "x".repeat(76);
    let promo = format!("<div class=\"related-articles promo\">read {}</div>", filler);
    let html = format!("<article><h1>Hello</h1>{}<p>Body</p></article>", promo);
    let r = extract_from_html(&html, BASE);
    assert_eq!(r.title.as_deref(), Some("Hello"));
    assert_eq!(r.markdown, "# Hello\n\nBody");
    let html = "<article><h1>Hello</h1><div class=\"related-articles promo\"><span>Hello</span> and more text</div><p>Body</p></article>";
    let r = extract_from_html(html, BASE);
    assert_eq!(r.markdown, "# Hello\n\nHello and more textBody");
}

#[test]
fn hard_skip_and_chrome_tags_render_nothing() {
    for tag in ["script", "style", "noscript", "form", "button", "audio", "video", "nav", "footer", "aside"] {
        let html = format!("<p>a</p><{0}>gone</{0}><p>b</p>", tag);
        assert_eq!(body(&html), "a\n\nb\n\n", "{}", tag);
    }
    assert_eq!(body("<p>a</p><svg><text>gone</text></svg><p>b</p>"), "a\n\nb\n\n");
    assert_eq!(body("<video><source src=\"a.mp4\"><track src=\"t.vtt\"></video>x"), "x");
}

#[test]
fn header_is_kept_only_inside_an_article() {
    let html = "<body><header><p>Top</p></header><p>Rest</p></body>";
    assert_eq!(render(html, "body", false, None).0, "Rest\n\n");
    assert_eq!(render(html, "body", true, None).0, "Top\n\nRest\n\n");
    let html = "<body><main><header><p>Top</p></header></main></body>";
    assert_eq!(render(html, "body", false, None).0, "Top\n\n");
    let html = "<body><article><div><header><p>Top</p></header></div></article><header>Out</header></body>";
    assert_eq!(render(html, "body", false, None).0, "Top\n\n");
}

#[test]
fn labelled_controls_are_dropped() {
    assert_eq!(body("<div aria-label=\"Play Video\">x</div>y"), "y");
    assert_eq!(body("<span title=\"AUDIO download\">x</span>y"), "y");
    assert_eq!(body("<span title=\"Display options\">x</span>y"), "y");
    assert_eq!(body("<span title=\"Share\" aria-label=\"Share\">x</span>y"), "xy");
    assert!(is_skipped("<p aria-label=\"replay\">x</p>", "p", None));
    assert!(!is_skipped("<p aria-label=\"pla y\">x</p>", "p", None));
}

#[test]
fn play_buttons_are_dropped() {
    assert_eq!(body("<span role=\"button\"> Play </span>y"), "y");
    assert_eq!(body("<span role=\"LINK\">PLAY</span>y"), "y");
    assert_eq!(body("<span role=\"button\">Play now</span>y"), "Play nowy");
    assert_eq!(body("<span role=\"tab\">Play</span>y"), "Playy");
}

#[test]
fn player_blocks_are_dropped_when_short_and_without_image() {
    assert_eq!(body("<div class=\"jwplayer\">short</div>y"), "y");
    assert_eq!(body("<div id=\"VideoBox\">exactly twenty chars</div>y"), "y");
    assert_eq!(body("<div class=\"media\">this has twenty-one c</div>y"), "this has twenty-one cy");
    assert_eq!(
        body("<div class=\"video-wrap\"><img src=\"a.png\"></div>y"),
        "![](https://www.jw.org/en/news/a.png)\n\ny"
    );
    assert!(!is_skipped("<div class=\"vjs\"><picture></picture></div>", "div", None));
    assert!(is_skipped("<span class=\"display\"></span>", "span", None));
    assert!(!is_skipped("<span class=\"text\">x</span>", "span", None));
}

#[test]
fn metadata_blocks_are_dropped() {
    assert!(is_skipped("<div class=\"share-bar\">Share this</div>", "div", None));
    assert!(is_skipped("<div id=\"Footer\">x</div>", "div", None));
    assert!(is_skipped("<ul class=\"languages\"><li>x</li></ul>", "ul", None));
    assert!(is_skipped("<p>The Watchtower—Study Edition</p>", "p", None));
    assert!(is_skipped("<p>Awake! magazine</p>", "p", None));
    assert!(is_skipped("<p>wp23 No. 5</p>", "p", None));
    assert!(is_skipped("<p>See WP16 pp. 3-4</p>", "p", None));
    assert!(is_skipped("<p>wp16 pp 3</p>", "p", None));
    assert!(is_skipped("<h2>English: Hello there</h2>", "h2", Some("Hello")));
    assert!(is_skipped("<section>ENGLISH HELLO</section>", "section", Some("Hello")));
}

#[test]
fn blocks_that_are_no_metadata_are_kept() {
    assert!(!is_skipped("<span class=\"share\">x</span>", "span", None));
    assert!(!is_skipped("<h1 class=\"share\">x</h1>", "h1", None));
    assert!(!is_skipped("<p>wp23 something</p>", "p", None));
    assert!(!is_skipped("<p>swp23 No. 5</p>", "p", None));
    assert!(!is_skipped("<p>wp234 No. 5</p>", "p", None));
    assert!(!is_skipped("<p>English Hello</p>", "p", None));
    assert!(!is_skipped("<p>English text</p>", "p", Some("Hello")));
    assert!(!is_skipped("<p>awake</p>", "p", None));
    let long = format!("<div class=\"share\">{}</div>", "y".repeat(251));
    assert!(!is_skipped(&long, "div", None));
    let edge = format!("<div class=\"share\">{}</div>", "y".repeat(250));
    assert!(is_skipped(&edge, "div", None));
    assert!(!is_skipped("<div class=\"promo\"><b> Hello </b></div>", "div", Some("Hello")));
    assert!(is_skipped("<div class=\"promo\"><b>Hello!</b></div>", "div", Some("Hello")));
}

#[test]
fn headings_render_with_their_level() {
    assert_eq!(body("<h1> A  b </h1>"), "# A b\n\n");
    assert_eq!(body("<h2>x</h2><h3>y</h3>"), "## x\n\n### y\n\n");
    assert_eq!(body("<h4>x</h4><h5>y</h5><h6>z</h6>"), "#### x\n\n##### y\n\n###### z\n\n");
    assert_eq!(body("<h2> </h2>x"), "x");
    assert_eq!(body("<h2><img src=\"a.png\">t</h2>"), "## t\n\n");
    assert!(render("<h2><img src=\"a.png\">t</h2>", "body", true, None).1.is_empty());
}

#[test]
fn figure_renders_image_and_caption() {
    let html = "<figure><img src=\"f.png\" alt=\"Fig\"><figcaption> A  caption </figcaption></figure>";
    let (out, images) = render(html, "figure", true, None);
    assert_eq!(out, "![Fig](https://www.jw.org/en/news/f.png)\n\n*A caption*\n\n");
    assert_eq!(images.len(), 1);
    assert_eq!(images[0].url, "https://www.jw.org/en/news/f.png");
    assert_eq!(images[0].alt.as_deref(), Some("Fig"));
    assert_eq!(images[0].caption.as_deref(), Some("A caption"));
    let (out, images) = render("<figure><span><img src=\"f.png\"></span><figcaption> </figcaption></figure>", "figure", true, None);
    assert_eq!(out, "![](https://www.jw.org/en/news/f.png)\n\n");
    assert_eq!(images[0].caption, None);
    let (out, images) = render("<figure><figcaption>c</figcaption></figure>", "figure", true, None);
    assert_eq!(out, "");
    assert!(images.is_empty());
    let (out, images) = render("<figure><img><img src=\"b.png\"></figure>", "figure", true, None);
    assert_eq!(out, "");
    assert!(images.is_empty());
    let doc = parse_document("<figure><img src=\"/g.png\"></figure>");
    let mut images = Vec::new();
    let out = handle_figure(&doc, doc.select_first("figure").unwrap(), &chars(BASE), &mut images);
    assert_eq!(text(&out), "![](https://www.jw.org/g.png)\n\n");
    assert_eq!(images.len(), 1);
}

#[test]
fn picture_renders_its_first_image() {
    let (out, images) = render("<picture><source srcset=\"x.webp\"><img src=\"p.png\" alt=\"P\"><img src=\"q.png\"></picture>", "picture", true, None);
    assert_eq!(out, "![P](https://www.jw.org/en/news/p.png)\n\n");
    assert_eq!(images.len(), 1);
    assert_eq!(body("<picture><source srcset=\"x.webp\"></picture>"), "");
}

#[test]
fn links_render_with_resolved_target() {
    assert_eq!(body("<a href=\"../x?y=1#z\"> Link <b>text</b> </a>"), "[Link **text**](https://www.jw.org/en/x?y=1#z)");
    assert_eq!(body("<a>plain</a>"), "plain");
    assert_eq!(body("<a href=\"/x\"> </a>"), "");
    assert_eq!(body("<a href=\"http://[bad\">t</a>"), "[t](http://[bad)");
    assert_eq!(body("<a href=\"mailto:a@b.c\">m</a>"), "[m](mailto:a@b.c)");
    let (out, images) = render("<a href=\"/x\"><img src=\"i.png\"></a>", "a", true, None);
    assert_eq!(out, "[![](https://www.jw.org/en/news/i.png)](https://www.jw.org/x)");
    assert_eq!(images.len(), 1);
}

#[test]
fn lists_render_their_items() {
    assert_eq!(body("<ul><li>One</li><li> </li><li>Two</li></ul>"), "- One\n- Two\n\n");
    assert_eq!(body("<ol><li>A</li><li></li><li>B</li><li>C</li></ol>"), "1. A\n2. B\n3. C\n\n");
    assert_eq!(body("<ul></ul>x"), "x");
    assert_eq!(body("<ul><li> </li></ul>x"), "x");
    assert_eq!(body("<ul>loose<li>One</li><p>para</p></ul>"), "- One\n\n");
    assert_eq!(body("<ul><li>One<ul><li>Sub</li></ul></li></ul>"), "- One- Sub\n\n");
    assert_eq!(body("<div><li>Item</li></div>"), "- Item\n");
    let items: String = (0..12).map(|_| "<li>i</li>").collect();
    assert_eq!(
        body(&format!("<ol>{}</ol>", items)),
        "1. i\n2. i\n3. i\n4. i\n5. i\n6. i\n7. i\n8. i\n9. i\n10. i\n11. i\n12. i\n\n"
    );
}

#[test]
fn list_items_are_not_filtered_as_metadata() {
    assert_eq!(body("<ul><li class=\"share\">Kept</li></ul>"), "- Kept\n\n");
    assert_eq!(body("<div><li class=\"share\">Gone</li></div>x"), "x");
}

#[test]
fn emphasis_and_literals_render_inline() {
    assert_eq!(body("<strong> s </strong><b>b</b><em>e</em><i> i</i>"), "**s****b***e**i*");
    assert_eq!(body("<strong> </strong><em></em>x"), "x");
    assert_eq!(body("<code> a  b </code>"), "` a  b `");
    assert_eq!(body("<pre>  line 1\n  line 2</pre>"), "```\n  line 1\n  line 2\n```\n\n");
    assert_eq!(body("a<br>b<hr>c"), "a\nb\n---\n\nc");
}

#[test]
fn blockquote_marks_every_line() {
    assert_eq!(body("<blockquote>Quote line</blockquote>"), "> Quote line\n\n");
    assert_eq!(body("<blockquote><p>a</p><p>b</p></blockquote>"), "> a\n> \n> b\n> \n\n");
    assert_eq!(body("<blockquote></blockquote>"), "\n\n");
}

#[test]
fn paragraphs_are_trimmed_and_set_apart() {
    assert_eq!(body("<p>  a  </p><p></p><p> </p><p>b</p>"), "a\n\nb\n\n");
    assert_eq!(body("<div><span>a</span> <span>b</span></div>"), "a b");
    assert_eq!(body("<!-- c -->a<!-- d -->"), "a");
}

#[test]
fn images_are_recorded_in_document_order() {
    let html = "<p><img src=\"1.png\"></p><figure><img src=\"2.png\"><figcaption>c</figcaption></figure><ul><li> <img src=\"3.png\" alt=\"three\"> </li></ul><pre><img src=\"no.png\"></pre><a><img src=\"4.png\"></a>";
    let (_, images) = render(html, "body", true, None);
    let urls: Vec<&str> = images.iter().map(|i| i.url.as_str()).collect();
    assert_eq!(
        urls,
        vec![
            "https://www.jw.org/en/news/1.png",
            "https://www.jw.org/en/news/2.png",
            "https://www.jw.org/en/news/3.png",
            "https://www.jw.org/en/news/4.png"
        ]
    );
    assert_eq!(images[2].alt.as_deref(), Some("three"));
}

#[test]
fn walk_appends_to_the_images_that_are_there() {
    let doc = parse_document("<p><img src=\"a.png\"></p>");
    let mut images = vec![ImageInfo { url: "first".to_string(), alt: None, caption: None }];
    let patterns = RulePatterns::new();
    let ctx = WalkCtx { in_article_or_main: true, title: None, patterns: &patterns };
    let i = doc.select_first("p").unwrap();
    let end = doc.subtree_end(i);
    let out = walk_children(&doc, i + 1, end, &chars(BASE), &mut images, &ctx);
    assert_eq!(text(&out), "![](https://www.jw.org/en/news/a.png)\n\n");
    assert_eq!(images.len(), 2);
    assert_eq!(images[0].url, "first");
    assert_eq!(images[1].url, "https://www.jw.org/en/news/a.png");
}

#[test]
fn title_protects_its_block_from_the_metadata_rule() {
    assert_eq!(body_titled("<div class=\"context\">Hello</div>x", "Hello"), "Hellox");
    assert_eq!(body_titled("<div class=\"context\">Hello</div>x", "Other"), "x");
    assert_eq!(body_titled("<p>English | Hello</p>x", "Hello"), "x");
}

#[test]
fn numbers_are_written_in_decimal() {
    assert_eq!(text(&decimal_of(0)), "0");
    assert_eq!(text(&decimal_of(7)), "7");
    assert_eq!(text(&decimal_of(10)), "10");
    assert_eq!(text(&decimal_of(1234567890)), "1234567890");
    assert_eq!(text(&decimal_of(usize::MAX)), usize::MAX.to_string());
}

#[test]
fn rule_words_are_looked_for_in_prepared_text() {
    assert!(control_word(&chars("press play")));
    assert!(control_word(&chars("audio")));
    assert!(control_word(&chars("a video")));
    assert!(!control_word(&chars("PLAY")));
    assert!(!control_word(&chars("")));
    assert!(play_role(&chars("button"), &chars("play")));
    assert!(play_role(&chars("link"), &chars("play")));
    assert!(!play_role(&chars("tab"), &chars("play")));
    assert!(!play_role(&chars("button"), &chars("play ")));
    assert!(magazine_name(&chars("THE WATCHTOWER 2020")));
    assert!(magazine_name(&chars("AWAKE!")));
    assert!(!magazine_name(&chars("AWAKE")));
    assert!(!magazine_name(&chars("The Watchtower")));
    assert!(issue_marks(&chars("No. 3")));
    assert!(issue_marks(&chars("pp. 3")));
    assert!(issue_marks(&chars("pp 3")));
    assert!(!issue_marks(&chars("pp3 No 3")));
    assert!(language_name(&chars("english hello"), &chars("hello")));
    assert!(language_name(&chars("english"), &chars("")));
    assert!(!language_name(&chars("hello"), &chars("hello")));
    assert!(!language_name(&chars("english"), &chars("hello")));
}

#[test]
fn contents_of_a_template_are_not_entered() {
    assert_eq!(body("<h2>Title<template>x</template></h2>"), "## Title\n\n");
    assert_eq!(body("<div>a<template><p>x</p></template>b</div>"), "ab");
    assert_eq!(body("<pre>a<template>x</template>b</pre>"), "```\nab\n```\n\n");
    let (out, images) = render("<figure><template><img src=\"a.png\"></template></figure>", "figure", true, None);
    assert_eq!(out, "");
    assert!(images.is_empty());
    let (out, images) = render("<picture><template><img src=\"a.png\"></template><img src=\"b.png\"></picture>", "picture", true, None);
    assert_eq!(out, "![](https://www.jw.org/en/news/b.png)\n\n");
    assert_eq!(images.len(), 1);
    assert!(is_skipped("<div class=\"promo\"><template><b>Hello</b></template>x</div>", "div", Some("Hello")));
    assert!(!is_skipped("<div class=\"promo\"><b>Hello</b><template>y</template>x</div>", "div", Some("Hello")));
    assert!(is_skipped("<div class=\"vjs\"><template><img src=\"a.png\"></template></div>", "div", None));
}

#[test]
fn player_verdict_needs_name_no_image_and_little_text() {
    assert!(judge_player(true, false, false, 0));
    assert!(judge_player(true, false, false, 20));
    assert!(!judge_player(true, false, false, 21));
    assert!(!judge_player(false, false, false, 0));
    assert!(!judge_player(true, true, false, 0));
    assert!(!judge_player(true, false, true, 0));
}

#[test]
fn issue_verdict_needs_code_and_marks() {
    assert!(judge_issue(true, true));
    assert!(!judge_issue(true, false));
    assert!(!judge_issue(false, true));
    assert!(!judge_issue(false, false));
}

#[test]
fn metadata_verdict_follows_its_conditions() {
    // A name like metadata counts only where identifier and classes are not blank.
    assert!(judge_metadata(true, 80, false, false, true, false, false, false));
    assert!(!judge_metadata(true, 80, false, true, true, false, false, false));
    // Each of the other signs is enough by itself.
    assert!(judge_metadata(true, 80, false, true, false, true, false, false));
    assert!(judge_metadata(true, 80, false, true, false, false, true, false));
    assert!(judge_metadata(true, 80, false, true, false, false, false, true));
    assert!(!judge_metadata(true, 80, false, false, false, false, false, false));
    // The bounds: block level, at most 250 characters, not the title.
    assert!(judge_metadata(true, 250, false, false, true, true, true, true));
    assert!(!judge_metadata(true, 251, false, false, true, true, true, true));
    assert!(!judge_metadata(false, 80, false, false, true, true, true, true));
    assert!(!judge_metadata(true, 80, true, false, true, true, true, true));
}
