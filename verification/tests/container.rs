use jw_news_reader::container::{choose_content_div, find_container, title_of_document};
use jw_news_reader::dom::{Attr, Document, DomEvent, DomNode, ElementData, NodeValue};
use jw_news_reader::extract::{extract_from_document, extract_from_html, resolve_base};
use jw_news_reader::html::parse_document;

const BASE: &str = "https://www.jw.org/en/news/";

fn text(v: &[char]) -> String {
    v.iter().collect()
}

fn tag_of(doc: &Document, i: usize) -> String {
    match &doc.nodes[i].value {
        NodeValue::Element(e) => e.name.clone(),
        _ => panic!("no element"),
    }
}

fn container_tag(html: &str) -> Option<String> {
    let doc = parse_document(html);
    find_container(&doc).0.map(|i| tag_of(&doc, i))
}

fn element(name: &str, attrs: &[(&str, &str)]) -> NodeValue {
    NodeValue::Element(ElementData {
        name: name.to_string(),
        classes: Vec::new(),
        attrs: attrs
            .iter()
            .map(|(k, v)| Attr { ns: String::new(), name: k.to_string(), value: v.to_string() })
            .collect(),
    })
}

#[test]
fn article_has_precedence() {
    let filler = "x".repeat(300);
    let html = format!(
        "<body><main><p>m</p></main><div id=\"content\">{}</div><article><p>a</p></article><article><p>b</p></article></body>",
        filler
    );
    let doc = parse_document(&html);
    let (container, fallback_title) = find_container(&doc);
    let c = container.unwrap();
    assert_eq!(tag_of(&doc, c), "article");
    assert_eq!(doc.select_first("article"), Some(c));
    assert_eq!(fallback_title, None);
    assert_eq!(extract_from_html(&html, BASE).markdown, "a");
}

#[test]
fn main_comes_before_content_divs() {
    let filler = "x".repeat(300);
    let html = format!("<title>T</title><body><div class=\"article-body\">{}</div><main><p>m</p></main></body>", filler);
    assert_eq!(container_tag(&html).as_deref(), Some("main"));
    assert_eq!(find_container(&parse_document(&html)).1, None);
    assert_eq!(extract_from_html(&html, BASE).markdown, "m");
}

#[test]
fn content_div_with_most_text_is_chosen() {
    let html = format!(
        "<title>T</title><body><div class=\"content\">{}</div><div id=\"ArticleBody\"><p>{}</p></div><div class=\"pub\">{}</div><div class=\"other\">{}</div></body>",
        "a".repeat(250),
        "b".repeat(300),
        "c".repeat(300),
        "d".repeat(900)
    );
    let doc = parse_document(&html);
    let (container, fallback_title) = find_container(&doc);
    assert_eq!(fallback_title, None);
    let r = extract_from_html(&html, BASE);
    assert_eq!(r.markdown, "b".repeat(300));
    assert_eq!(tag_of(&doc, container.unwrap()), "div");
}

#[test]
fn content_div_needs_two_hundred_characters() {
    let html = format!("<title> T </title><body><div class=\"content\">{}</div><p>rest</p></body>", "a".repeat(199));
    let doc = parse_document(&html);
    let (container, fallback_title) = find_container(&doc);
    assert_eq!(tag_of(&doc, container.unwrap()), "body");
    assert_eq!(fallback_title.map(|t| text(&t)).as_deref(), Some("T"));
    let html = format!("<title>T</title><body><div class=\"content\">{}</div><p>rest</p></body>", "a".repeat(200));
    let doc = parse_document(&html);
    let (container, fallback_title) = find_container(&doc);
    assert_eq!(tag_of(&doc, container.unwrap()), "div");
    assert_eq!(fallback_title, None);
    assert_eq!(extract_from_html(&html, BASE).markdown, "a".repeat(200));
}

#[test]
fn text_length_counts_characters() {
    let html = format!("<body><div class=\"content\">{}</div><p>rest</p></body>", "é".repeat(199));
    assert_eq!(container_tag(&html).as_deref(), Some("body"));
    let html = format!("<body><div class=\"content\">{}</div><p>rest</p></body>", "é".repeat(200));
    assert_eq!(container_tag(&html).as_deref(), Some("div"));
}

#[test]
fn body_is_the_last_resort() {
    assert_eq!(container_tag("<p>x</p>").as_deref(), Some("body"));
    assert_eq!(container_tag("").as_deref(), Some("body"));
    let doc = parse_document("<title> </title><p>x</p>");
    assert_eq!(find_container(&doc).1, None);
    assert_eq!(title_of_document(&doc), None);
    let doc = parse_document("<title> A\n B </title><p>x</p>");
    assert_eq!(title_of_document(&doc).map(|t| text(&t)).as_deref(), Some("A\n B"));
}

#[test]
fn document_without_nodes_has_no_container() {
    let doc = Document::from_events(Vec::new());
    assert_eq!(doc.len(), 0);
    let (container, fallback_title) = find_container(&doc);
    assert_eq!(container, None);
    assert_eq!(fallback_title, None);
    let r = extract_from_document(&doc, "", BASE);
    assert_eq!(r.markdown, "");
    assert_eq!(r.title, None);
    assert!(r.images.is_empty());
    assert_eq!(r.source_url, BASE);
}

#[test]
fn document_is_built_from_a_walk() {
    let events = vec![
        DomEvent::Open(NodeValue::Other),
        DomEvent::Open(element("article", &[("id", "a")])),
        DomEvent::Open(element("h1", &[])),
        DomEvent::Open(NodeValue::Text("Title".to_string())),
        DomEvent::Close,
        DomEvent::Close,
        DomEvent::Open(element("p", &[])),
        DomEvent::Open(NodeValue::Text("Body".to_string())),
        DomEvent::Close,
        DomEvent::Close,
        DomEvent::Close,
        DomEvent::Open(element("aside", &[])),
        DomEvent::Close,
        DomEvent::Close,
        DomEvent::Close,
        DomEvent::Close,
        DomEvent::Open(NodeValue::Text("late".to_string())),
    ];
    let doc = Document::from_events(events);
    let depths: Vec<usize> = doc.nodes.iter().map(|n| n.depth).collect();
    assert_eq!(depths, vec![0, 1, 2, 3, 2, 3, 1, 0]);
    assert_eq!(doc.subtree_end(0), 7);
    assert_eq!(doc.subtree_end(1), 6);
    assert_eq!(doc.subtree_end(2), 4);
    assert_eq!(doc.subtree_end(3), 4);
    assert_eq!(doc.subtree_end(6), 7);
    assert_eq!(doc.subtree_end(7), 8);
    assert_eq!(text(&doc.collect_text(1)), "TitleBody");
    assert_eq!(text(&doc.collect_text(0)), "TitleBody");
    assert_eq!(text(&doc.collect_text(3)), "");
    assert_eq!(doc.find_first_tag(0, "p"), Some(4));
    assert_eq!(doc.find_first_tag(1, "article"), None);
    assert_eq!(doc.find_first_tag(4, "h1"), None);
    assert!(doc.has_descendant_of_tag(1, "h1"));
    assert!(!doc.has_descendant_of_tag(2, "p"));
    assert!(doc.has_tag(6, "aside"));
    assert!(!doc.has_tag(7, "aside"));
    assert!(!doc.has_tag(99, "aside"));
    assert!(doc.element_has_exact_text(1, &"Body".chars().collect()));
    assert!(doc.element_has_exact_text(1, &"TitleBody".chars().collect()));
    assert!(!doc.element_has_exact_text(2, &"Body".chars().collect()));
    let r = extract_from_document(&doc, "", BASE);
    assert_eq!(r.title.as_deref(), Some("Title"));
    assert_eq!(r.markdown, "# Title\n\nBody");
}

#[test]
fn hand_built_document_is_walked() {
    let doc = Document {
        nodes: vec![
            DomNode { depth: 0, value: element("main", &[]) },
            DomNode { depth: 1, value: element("a", &[("href", "/t")]) },
            DomNode { depth: 2, value: NodeValue::Text("go".to_string()) },
            DomNode { depth: 1, value: NodeValue::Other },
            DomNode { depth: 1, value: element("img", &[("src", "i.png"), ("alt", " A ")]) },
        ],
    };
    let r = extract_from_document(&doc, "", BASE);
    assert_eq!(r.markdown, "[go](https://www.jw.org/t)![A](https://www.jw.org/en/news/i.png)");
    assert_eq!(r.images.len(), 1);
    assert_eq!(r.title, None);
}

#[test]
fn parsed_markup_keeps_names_classes_and_attributes() {
    let doc = parse_document("<!DOCTYPE html><p id=\"x\" class=\"b  a b\" data-k=\"v\">Hi<!-- c --></p>");
    let p = doc.select_first("p").unwrap();
    let e = doc.element(p).unwrap();
    assert_eq!(e.name, "p");
    assert_eq!(e.classes, vec!["a".to_string(), "b".to_string()]);
    assert_eq!(e.attr("id").map(|v| text(&v)).as_deref(), Some("x"));
    assert_eq!(e.attr("data-k").map(|v| text(&v)).as_deref(), Some("v"));
    assert_eq!(e.attr("class").map(|v| text(&v)).as_deref(), Some("b  a b"));
    assert_eq!(e.attr("missing"), None);
    assert_eq!(text(&e.class_id()), "x a b");
    assert_eq!(text(&doc.collect_text(p)), "Hi");
    assert!(matches!(doc.nodes[0].value, NodeValue::Other));
    assert_eq!(doc.nodes[0].depth, 0);
    assert_eq!(doc.nodes[p].depth, 3);
    assert!(matches!(&doc.nodes[p + 1].value, NodeValue::Text(t) if t == "Hi"));
    assert!(matches!(doc.nodes[p + 2].value, NodeValue::Other));
    assert_eq!(doc.subtree_end(p), p + 3);
    let doc = parse_document("<svg><a xlink:href=\"#x\" href=\"#y\"></a></svg>");
    let a = doc.select_first("a").unwrap();
    assert_eq!(doc.element(a).unwrap().attr("href").map(|v| text(&v)).as_deref(), Some("#y"));
}

#[test]
fn base_is_the_parsed_address_or_the_default() {
    assert_eq!(text(&resolve_base("https://www.jw.org/en/../a b")), "https://www.jw.org/a%20b");
    assert_eq!(text(&resolve_base("HTTPS://JW.ORG")), "https://jw.org/");
    assert_eq!(text(&resolve_base("no address")), "https://jw.org/");
    assert_eq!(text(&resolve_base("")), "https://jw.org/");
}

#[test]
fn selectors_find_what_lies_in_a_template() {
    let html = "<html><head><template><meta property=\"og:image\" content=\"/t.png\"></template></head><body><article><template><h1>Hidden</h1></template><p>x</p></article></body></html>";
    let doc = parse_document(html);
    let article = doc.select_first("article").unwrap();
    let h1 = doc.select_first("h1").unwrap();
    assert_eq!(doc.select_first_below(article, "h1"), Some(h1));
    assert_eq!(doc.find_first_tag(article, "h1"), None);
    assert_eq!(text(&doc.collect_text(article)), "x");
    assert_eq!(text(&doc.collect_text(h1)), "Hidden");
    let template = doc.select_first("template").unwrap();
    assert!(matches!(doc.nodes[template + 1].value, NodeValue::Other));
    assert_eq!(doc.nodes[template + 1].depth, doc.nodes[template].depth + 1);
    let r = extract_from_html(html, BASE);
    assert_eq!(r.title.as_deref(), Some("Hidden"));
    assert_eq!(r.markdown, "![Hidden](https://www.jw.org/t.png)\n\nx");
}

#[test]
fn text_below_a_node_that_is_no_element_is_left_out() {
    let doc = Document {
        nodes: vec![
            DomNode { depth: 0, value: element("div", &[]) },
            DomNode { depth: 1, value: NodeValue::Text("a".to_string()) },
            DomNode { depth: 1, value: NodeValue::Other },
            DomNode { depth: 2, value: NodeValue::Text("hidden".to_string()) },
            DomNode { depth: 2, value: element("img", &[]) },
            DomNode { depth: 1, value: element("span", &[]) },
            DomNode { depth: 2, value: NodeValue::Text("b".to_string()) },
            DomNode { depth: 2, value: element("img", &[]) },
        ],
    };
    assert_eq!(text(&doc.collect_text(0)), "ab");
    assert_eq!(doc.find_first_tag(0, "img"), Some(7));
    assert_eq!(doc.select_first_below(0, "img"), Some(4));
    assert_eq!(doc.step_behind(0), 1);
    assert_eq!(doc.step_behind(2), 5);
    assert!(doc.element_has_exact_text(0, &"b".chars().collect()));
    assert!(doc.element_has_exact_text(0, &"ab".chars().collect()));
    assert!(!doc.element_has_exact_text(0, &"hidden".chars().collect()));
}

#[test]
fn content_div_is_chosen_by_amount_of_text() {
    assert_eq!(choose_content_div(&vec![(3, 250), (5, 300), (9, 300), (12, 10)]), Some(5));
    assert_eq!(choose_content_div(&vec![(3, 200)]), Some(3));
    assert_eq!(choose_content_div(&vec![(3, 199), (4, 0)]), None);
    assert_eq!(choose_content_div(&vec![(7, 500), (2, 500)]), Some(7));
    assert_eq!(choose_content_div(&vec![(1, 0)]), None);
    assert_eq!(choose_content_div(&Vec::new()), None);
}
