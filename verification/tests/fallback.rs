use jw_news_reader::extract::extract_from_html;
use jw_news_reader::fallback::{extract_fallback_image, extract_image_link, extract_jsonld_image};
use jw_news_reader::fallback::extract_meta_image;
use jw_news_reader::html::parse_document;
use jw_news_reader::json::{jsonld_image_value, parse_json, JsonValue};

const BASE: &str = "https://www.jw.org/en/news/";

fn chars(s: &str) -> Vec<char> {
    s.chars().collect()
}

fn text(v: &[char]) -> String {
    v.iter().collect()
}

fn meta(html: &str) -> Option<String> {
    extract_meta_image(&parse_document(html)).map(|u| text(&u))
}

fn jsonld(json: &str) -> Option<String> {
    let html = format!("<script type=\"application/ld+json\">{}</script>", json);
    extract_jsonld_image(&parse_document(&html)).map(|u| text(&u))
}

#[test]
fn meta_tags_are_tried_in_order() {
    let all = "<meta itemprop=\"image\" content=\"5\"><meta name=\"twitter:image:src\" content=\"4\">\
               <meta name=\"twitter:image\" content=\"3\"><meta property=\"og:image:secure_url\" content=\"2\">\
               <meta property=\"og:image\" content=\"1\">";
    assert_eq!(meta(all).as_deref(), Some("1"));
    assert_eq!(meta(&all.replace("property=\"og:image\"", "property=\"x\"")).as_deref(), Some("2"));
    assert_eq!(meta(&all.replace("property=", "data-p=")).as_deref(), Some("3"));
    assert_eq!(
        meta(&all.replace("property=", "data-p=").replace("name=\"twitter:image\"", "name=\"t\"")).as_deref(),
        Some("4")
    );
    assert_eq!(meta(&all.replace("property=", "data-p=").replace("name=", "data-n=")).as_deref(), Some("5"));
    assert_eq!(meta("<meta name=\"description\" content=\"x\">"), None);
}

#[test]
fn only_the_first_meta_tag_of_a_kind_counts() {
    let html = "<meta property=\"og:image\" content=\"  \"><meta property=\"og:image\" content=\"late\">\
                <meta name=\"twitter:image\" content=\" tw \">";
    assert_eq!(meta(html).as_deref(), Some("tw"));
    let html = "<meta property=\"og:image\"><meta property=\"og:image\" content=\"late\">";
    assert_eq!(meta(html), None);
    assert_eq!(meta("<meta property=\"OG:IMAGE\" content=\"x\">"), None);
}

#[test]
fn structured_data_names_an_image_in_several_shapes() {
    assert_eq!(jsonld("{\"@context\":\"x\",\"image\":\"https://x/ld.png\"}").as_deref(), Some("https://x/ld.png"));
    assert_eq!(jsonld("{\"image\":[{\"url\":\"u1\"},\"u2\"]}").as_deref(), Some("u1"));
    assert_eq!(jsonld("{\"image\":[1,{\"id\":2},\"u2\",{\"url\":\"u3\"}]}").as_deref(), Some("u2"));
    assert_eq!(jsonld("{\"image\":{\"url\":\"u\"}}").as_deref(), Some("u"));
    assert_eq!(jsonld("{\"thumbnailUrl\":\"t\"}").as_deref(), Some("t"));
    assert_eq!(jsonld("{\"thumbnailUrl\":\"t\",\"image\":\"i\"}").as_deref(), Some("i"));
    assert_eq!(jsonld("{\"image\":{\"url\":5},\"thumbnailUrl\":\"t\"}").as_deref(), Some("t"));
    assert_eq!(jsonld("{\"a\":{\"image\":\"deep\"}}").as_deref(), Some("deep"));
    assert_eq!(jsonld("{\"image\":5,\"b\":{\"c\":[{\"image\":\"deep\"}]}}").as_deref(), Some("deep"));
    assert_eq!(jsonld("[{\"x\":1},{\"image\":\"i\"}]").as_deref(), Some("i"));
    assert_eq!(jsonld("{\"image\":[]}"), None);
    assert_eq!(jsonld("{\"Image\":\"x\"}"), None);
    assert_eq!(jsonld("\"image\""), None);
    assert_eq!(jsonld("{\"image\":"), None);
}

#[test]
fn structured_data_members_are_searched_in_key_order() {
    assert_eq!(jsonld("{\"z\":{\"image\":\"zi\"},\"a\":{\"image\":\"ai\"}}").as_deref(), Some("ai"));
    assert_eq!(jsonld("{\"image\":{\"image\":\"inner\"},\"a\":{\"image\":\"ai\"}}").as_deref(), Some("ai"));
}

#[test]
fn script_blocks_are_tried_in_document_order() {
    let html = "<script type=\"application/ld+json\">not json</script>\
                <script type=\"text/javascript\">{\"image\":\"js\"}</script>\
                <script type=\"application/ld+json\">{\"name\":\"n\"}</script>\
                <script type=\"application/ld+json\">{\"image\":\"third\"}</script>\
                <script type=\"application/ld+json\">{\"image\":\"fourth\"}</script>";
    assert_eq!(extract_jsonld_image(&parse_document(html)).map(|u| text(&u)).as_deref(), Some("third"));
}

#[test]
fn script_type_is_compared_without_regard_to_case() {
    let html = "<script type=\"Application/LD+JSON\">{\"image\":\"i\"}</script>";
    assert_eq!(extract_jsonld_image(&parse_document(html)).map(|u| text(&u)).as_deref(), Some("i"));
    let html = "<script type=\"application/ld+json \">{\"image\":\"i\"}</script>";
    assert_eq!(extract_jsonld_image(&parse_document(html)), None);
    let html = "<script>{\"image\":\"i\"}</script>";
    assert_eq!(extract_jsonld_image(&parse_document(html)), None);
}

#[test]
fn json_values_are_searched_as_built() {
    let value = JsonValue::Object(vec![
        ("name".to_string(), JsonValue::Text("n".to_string())),
        ("image".to_string(), JsonValue::Array(vec![
            JsonValue::Null,
            JsonValue::Bool(true),
            JsonValue::Number("1".to_string()),
            JsonValue::Object(vec![("url".to_string(), JsonValue::Text("found".to_string()))]),
        ])),
    ]);
    assert_eq!(jsonld_image_value(&value).map(|u| text(&u)).as_deref(), Some("found"));
    assert_eq!(jsonld_image_value(&JsonValue::Text("image".to_string())), None);
    assert_eq!(jsonld_image_value(&JsonValue::Array(Vec::new())), None);
}

#[test]
fn json_text_is_parsed_into_values() {
    match parse_json(&chars("{\"b\":[1.5,true,null,\"s\"],\"a\":{}}")) {
        Some(JsonValue::Object(members)) => {
            assert_eq!(members.len(), 2);
            assert_eq!(members[0].0, "a");
            assert!(matches!(&members[0].1, JsonValue::Object(m) if m.is_empty()));
            assert_eq!(members[1].0, "b");
            match &members[1].1 {
                JsonValue::Array(items) => {
                    assert_eq!(items.len(), 4);
                    assert!(matches!(&items[0], JsonValue::Number(n) if n == "1.5"));
                    assert!(matches!(&items[1], JsonValue::Bool(true)));
                    assert!(matches!(&items[2], JsonValue::Null));
                    assert!(matches!(&items[3], JsonValue::Text(s) if s == "s"));
                }
                _ => panic!("no array"),
            }
        }
        _ => panic!("no object"),
    }
    assert!(parse_json(&chars("{")).is_none());
    assert!(parse_json(&chars("")).is_none());
}

#[test]
fn image_link_gives_url_and_alternative_text() {
    let doc = parse_document("<a href=\"/x\">Other</a><a>Image: none</a><a href=\"/p.png\"> Image:  A \n photo </a><a href=\"/q.png\">Image: B</a>");
    let image = extract_image_link(&doc, &chars(BASE)).unwrap();
    assert_eq!(image.url, "https://www.jw.org/p.png");
    assert_eq!(image.alt.as_deref(), Some("A photo"));
    assert_eq!(image.caption, None);
    let doc = parse_document("<a href=\"p.png\">Image:</a>");
    let image = extract_image_link(&doc, &chars(BASE)).unwrap();
    assert_eq!(image.url, "https://www.jw.org/en/news/p.png");
    assert_eq!(image.alt, None);
    let doc = parse_document("<a href=\"http://[bad\">Image: x</a><a href=\"/q.png\">Image: B</a>");
    assert!(extract_image_link(&doc, &chars(BASE)).is_none());
    let doc = parse_document("<a href=\"/q.png\">image: lower</a>");
    assert!(extract_image_link(&doc, &chars(BASE)).is_none());
}

#[test]
fn raw_markup_is_scanned_for_known_hosts() {
    let html = "<div data-a=\"https://cms-imgp.jw-cdn.org/img/p/1/a_s.jpg\" data-b='https://cms-imgp.jw-cdn.org/img/p/1/a_l.jpg'>\
                <!-- https://cms-imgp.jw-cdn.org/img/p/1/b_l.jpg https://CMS-IMGP.JW-CDN.ORG/img/p/1/a_m.jpg --></div>\
                <span data-c=\"https://assetsnffrgf-a.akamaihd.net/assets/m/x_xl.jpg\"></span>";
    let doc = parse_document(html);
    let image = extract_fallback_image(&chars(html), &doc, &chars(BASE)).unwrap();
    assert_eq!(image.url, "https://cms-imgp.jw-cdn.org/img/p/1/b_l.jpg");
    assert_eq!(image.alt, None);
    let html = "<span data-c=\"http://assetsnffrgf-a.akamaihd.net/assets/m/x_xs.jpg\"></span>\
                <span data-c=\"https://assetsnffrgf-a.akamaihd.net/assets/m/y.jpg\"></span>";
    let doc = parse_document(html);
    let image = extract_fallback_image(&chars(html), &doc, &chars(BASE)).unwrap();
    assert_eq!(image.url, "http://assetsnffrgf-a.akamaihd.net/assets/m/x_xs.jpg");
    let html = "<p>https://example.org/img/p/a.jpg</p>";
    assert!(extract_fallback_image(&chars(html), &parse_document(html), &chars(BASE)).is_none());
}

#[test]
fn fallback_sources_have_an_order() {
    let meta = "<meta property=\"og:image\" content=\"/og.png\">";
    let ld = "<script type=\"application/ld+json\">{\"image\":\"ld.png\"}</script>";
    let link = "<a href=\"/link.png\">Image: Linked</a>";
    let cdn = "<i data-x=\"https://cms-imgp.jw-cdn.org/img/p/c.jpg\"></i>";
    let url = |parts: &[&str]| {
        let html: String = parts.concat();
        let doc = parse_document(&html);
        extract_fallback_image(&chars(&html), &doc, &chars(BASE)).map(|i| (i.url, i.alt))
    };
    assert_eq!(url(&[cdn, link, ld, meta]), Some(("https://www.jw.org/og.png".to_string(), None)));
    assert_eq!(url(&[cdn, link, ld]), Some(("https://www.jw.org/en/news/ld.png".to_string(), None)));
    assert_eq!(
        url(&[cdn, link]),
        Some(("https://www.jw.org/link.png".to_string(), Some("Linked".to_string())))
    );
    assert_eq!(url(&[cdn]), Some(("https://cms-imgp.jw-cdn.org/img/p/c.jpg".to_string(), None)));
    assert_eq!(url(&[]), None);
}

#[test]
fn fallback_url_that_does_not_resolve_is_kept_as_it_stands() {
    let html = "<meta property=\"og:image\" content=\"http://[bad\"><article><p>x</p></article>";
    let r = extract_from_html(html, BASE);
    assert_eq!(r.images.len(), 1);
    assert_eq!(r.images[0].url, "http://[bad");
    assert_eq!(r.images[0].alt, None);
    assert_eq!(r.markdown, "![](http://[bad)\n\nx");
}

#[test]
fn linked_fallback_image_keeps_its_own_alternative_text() {
    let html = "<html><head><title>T</title></head><body><article><h1>Head</h1><p>x</p></article>\
                <a href=\"/l.png\">Image: Own text</a></body></html>";
    let r = extract_from_html(html, BASE);
    assert_eq!(r.images.len(), 1);
    assert_eq!(r.images[0].alt.as_deref(), Some("Own text"));
    assert_eq!(r.markdown, "# Head\n\n![Own text](https://www.jw.org/l.png)\n\nx");
}
