//! The fallback image: one image for the whole document, looked for in meta
//! tags, in structured data, in an image link, and in the raw markup.

use vstd::prelude::*;
use crate::dom::{is_tag, Document, DomNodeView};
use crate::image::{best_image_url, pick_best_image_url};
use crate::json::{image_in, jsonld_image_value, parse_json, parsed_json};
use crate::links::{join_url, url_join};
use crate::models::{ImageInfo, ImageView};
use crate::pattern::{all_matches, Pattern};
use crate::query::{attr_of, text_of};
use crate::text::{chars_eq, chars_of, copy_range, eq_ignoring_ascii_case, has_prefix};
use crate::text::{same_ignoring_ascii_case, starts_with, string_of, trim};
use crate::text::{trimmed, view_opt};
use crate::words::{normalize, normalized};

verus! {

/// Finds image URLs of the content delivery network by their path.
pub const CMS_IMAGE_PATTERN: &'static str =
    r#"(?i)https?://cms-imgp\.jw-cdn\.org/img/p/[^\s"'<>]+"#;

/// Finds image URLs of the asset host.
pub const AKAMAI_IMAGE_PATTERN: &'static str =
    r#"(?i)https?://assetsnffrgf-a\.akamaihd\.net/assets/[^\s"'<>]+"#;

/// Node `i` is a `meta` element whose attribute `attr` is `value`.
pub open spec fn is_meta(doc: Seq<DomNodeView>, i: int, attr: Seq<char>, value: Seq<char>) -> bool {
    is_tag(doc, i, "meta"@) && attr_of(doc[i].value->Element_0, attr) == Some(value)
}

/// The first `meta` element from index `from` on whose attribute `attr` is
/// `value`.
pub open spec fn first_meta(doc: Seq<DomNodeView>, attr: Seq<char>, value: Seq<char>, from: int) -> Option<
    int,
>
    decreases doc.len() - from,
{
    if from < 0 || from >= doc.len() {
        None
    } else if is_meta(doc, from, attr, value) {
        Some(from)
    } else {
        first_meta(doc, attr, value, from + 1)
    }
}

/// The trimmed `content` of the first `meta` element whose attribute
/// `attr` is `value`, unless it is empty.
pub open spec fn meta_content(doc: Seq<DomNodeView>, attr: Seq<char>, value: Seq<char>) -> Option<
    Seq<char>,
> {
    match first_meta(doc, attr, value, 0) {
        Some(m) => match attr_of(doc[m].value->Element_0, "content"@) {
            Some(c) => if trim(c).len() > 0 {
                Some(trim(c))
            } else {
                None
            },
            None => None,
        },
        None => None,
    }
}

/// The first of two optional texts that is there.
pub open spec fn first_some(a: Option<Seq<char>>, b: Option<Seq<char>>) -> Option<Seq<char>> {
    if a is Some {
        a
    } else {
        b
    }
}

/// The image that the meta tags name: the first of `og:image`,
/// `og:image:secure_url`, `twitter:image`, `twitter:image:src` and `image`
/// that has content.
pub open spec fn meta_image(doc: Seq<DomNodeView>) -> Option<Seq<char>> {
    first_some(
        meta_content(doc, "property"@, "og:image"@),
        first_some(
            meta_content(doc, "property"@, "og:image:secure_url"@),
            first_some(
                meta_content(doc, "name"@, "twitter:image"@),
                first_some(
                    meta_content(doc, "name"@, "twitter:image:src"@),
                    meta_content(doc, "itemprop"@, "image"@),
                ),
            ),
        ),
    )
}

/// Node `i` is a script block of structured data: a `script` element whose
/// type is `application/ld+json`, in small or capital letters.
pub open spec fn is_jsonld_script(doc: Seq<DomNodeView>, i: int) -> bool {
    is_tag(doc, i, "script"@) && attr_of(doc[i].value->Element_0, "type"@) is Some
        && eq_ignoring_ascii_case(
        attr_of(doc[i].value->Element_0, "type"@)->0,
        "application/ld+json"@,
    )
}

/// The image that the structured data of script block `i` names.
pub open spec fn script_image(doc: Seq<DomNodeView>, i: int) -> Option<Seq<char>> {
    match parsed_json(text_of(doc, i)) {
        Some(value) => image_in(value),
        None => None,
    }
}

/// The image of the first script block of structured data, from index
/// `from` on, that names one.
pub open spec fn jsonld_image(doc: Seq<DomNodeView>, from: int) -> Option<Seq<char>>
    decreases doc.len() - from,
{
    if from < 0 || from >= doc.len() {
        None
    } else if is_jsonld_script(doc, from) && script_image(doc, from) is Some {
        script_image(doc, from)
    } else {
        jsonld_image(doc, from + 1)
    }
}

/// Node `i` is a link to an image: an anchor with an `href` whose
/// normalized text begins with "Image:".
pub open spec fn is_image_link(doc: Seq<DomNodeView>, i: int) -> bool {
    &&& is_tag(doc, i, "a"@)
    &&& has_prefix(normalize(text_of(doc, i)), "Image:"@)
    &&& attr_of(doc[i].value->Element_0, "href"@) is Some
}

/// The image of the first image link from index `from` on: its resolved
/// `href`, with the rest of the link's text as alternative text. `None` if
/// there is no image link or the `href` of the first does not resolve.
pub open spec fn linked_image(doc: Seq<DomNodeView>, base: Seq<char>, from: int) -> Option<
    ImageView,
>
    decreases doc.len() - from,
{
    if from < 0 || from >= doc.len() {
        None
    } else if is_image_link(doc, from) {
        let text = normalize(text_of(doc, from));
        let rest = trim(text.skip("Image:"@.len() as int));
        match url_join(base, attr_of(doc[from].value->Element_0, "href"@)->0) {
            Some(url) => Some(
                ImageView {
                    url,
                    alt: if rest.len() > 0 {
                        Some(rest)
                    } else {
                        None
                    },
                    caption: None,
                },
            ),
            None => None,
        }
    } else {
        linked_image(doc, base, from + 1)
    }
}

/// The image found in the raw markup: the best URL of the content
/// delivery network, else the best URL of the asset host.
pub open spec fn markup_image(html: Seq<char>) -> Option<Seq<char>> {
    first_some(
        best_image_url(all_matches(CMS_IMAGE_PATTERN@, html)),
        best_image_url(all_matches(AKAMAI_IMAGE_PATTERN@, html)),
    )
}

/// An image of which only the URL is known.
pub open spec fn bare_image(url: Seq<char>) -> ImageView {
    ImageView { url, alt: None, caption: None }
}

/// `url` resolved against `base`, or as it stands if it does not resolve.
pub open spec fn resolved_or_verbatim(base: Seq<char>, url: Seq<char>) -> Seq<char> {
    match url_join(base, url) {
        Some(u) => u,
        None => url,
    }
}

/// The fallback image of a document: from the meta tags, else from the
/// structured data, else from an image link, else from the raw markup.
pub open spec fn fallback_image(html: Seq<char>, doc: Seq<DomNodeView>, base: Seq<char>) -> Option<
    ImageView,
> {
    if meta_image(doc) is Some {
        Some(bare_image(resolved_or_verbatim(base, meta_image(doc)->0)))
    } else if jsonld_image(doc, 0) is Some {
        Some(bare_image(resolved_or_verbatim(base, jsonld_image(doc, 0)->0)))
    } else if linked_image(doc, base, 0) is Some {
        linked_image(doc, base, 0)
    } else {
        match markup_image(html) {
            Some(url) => Some(bare_image(url)),
            None => None,
        }
    }
}

/// The trimmed `content` of the first `meta` element whose attribute
/// `attr` is `value`.
fn content_of_meta(doc: &Document, attr: &str, value: &str) -> (r: Option<Vec<char>>)
    ensures
        view_opt(r) == meta_content(doc@, attr@, value@),
{
    let wanted = chars_of(value);
    let mut j: usize = 0;
    while j < doc.len()
        invariant
            wanted@ == value@,
            first_meta(doc@, attr@, value@, 0) == first_meta(doc@, attr@, value@, j as int),
        decreases doc@.len() - j,
    {
        if doc.has_tag(j, "meta") {
            let e = doc.element(j).unwrap();
            let found = match e.attr(attr) {
                Some(v) => chars_eq(&v, &wanted),
                None => false,
            };
            if found {
                return match e.attr("content") {
                    Some(c) => {
                        let t = trimmed(&c);
                        if t.len() > 0 {
                            Some(t)
                        } else {
                            None
                        }
                    },
                    None => None,
                };
            }
        }
        j += 1;
    }
    None
}

/// What was found, or else the content of the next kind of meta tag.
fn or_meta(found: Option<Vec<char>>, doc: &Document, attr: &str, value: &str) -> (r: Option<
    Vec<char>,
>)
    ensures
        view_opt(r) == first_some(view_opt(found), meta_content(doc@, attr@, value@)),
{
    if found.is_some() {
        found
    } else {
        content_of_meta(doc, attr, value)
    }
}

/// The image that the meta tags name.
pub fn extract_meta_image(doc: &Document) -> (r: Option<Vec<char>>)
    ensures
        view_opt(r) == meta_image(doc@),
{
    let mut found = content_of_meta(doc, "property", "og:image");
    found = or_meta(found, doc, "property", "og:image:secure_url");
    found = or_meta(found, doc, "name", "twitter:image");
    found = or_meta(found, doc, "name", "twitter:image:src");
    found = or_meta(found, doc, "itemprop", "image");
    found
}

/// The image that the structured data of the document names.
pub fn extract_jsonld_image(doc: &Document) -> (r: Option<Vec<char>>)
    ensures
        view_opt(r) == jsonld_image(doc@, 0),
{
    let kind = chars_of("application/ld+json");
    let mut j: usize = 0;
    while j < doc.len()
        invariant
            kind@ == "application/ld+json"@,
            jsonld_image(doc@, 0) == jsonld_image(doc@, j as int),
        decreases doc@.len() - j,
    {
        if doc.has_tag(j, "script") {
            let e = doc.element(j).unwrap();
            let is_data = match e.attr("type") {
                Some(t) => same_ignoring_ascii_case(&t, &kind),
                None => false,
            };
            if is_data {
                let found = match parse_json(&doc.collect_text(j)) {
                    Some(value) => jsonld_image_value(&value),
                    None => None,
                };
                if found.is_some() {
                    return found;
                }
            }
        }
        j += 1;
    }
    None
}

/// The image of the document's first image link.
pub fn extract_image_link(doc: &Document, base: &Vec<char>) -> (r: Option<ImageInfo>)
    ensures
        match r {
            Some(image) => linked_image(doc@, base@, 0) == Some(image@),
            None => linked_image(doc@, base@, 0) is None,
        },
{
    let mark = chars_of("Image:");
    let mut j: usize = 0;
    while j < doc.len()
        invariant
            mark@ == "Image:"@,
            linked_image(doc@, base@, 0) == linked_image(doc@, base@, j as int),
        decreases doc@.len() - j,
    {
        if doc.has_tag(j, "a") {
            let e = doc.element(j).unwrap();
            let text = normalized(&doc.collect_text(j));
            if starts_with(&text, &mark) {
                match e.attr("href") {
                    Some(href) => {
                        return match join_url(base, &href) {
                            Some(url) => {
                                let rest = trimmed(&copy_range(&text, mark.len(), text.len()));
                                assert(text@.subrange(mark.len() as int, text.len() as int)
                                    == text@.skip("Image:"@.len() as int));
                                Some(
                                    ImageInfo {
                                        url: string_of(&url),
                                        alt: if rest.len() > 0 {
                                            Some(string_of(&rest))
                                        } else {
                                            None
                                        },
                                        caption: None,
                                    },
                                )
                            },
                            None => None,
                        };
                    },
                    None => {},
                }
            }
        }
        j += 1;
    }
    None
}

/// An image of which only the URL is known.
fn bare(url: &Vec<char>) -> (r: ImageInfo)
    ensures
        r@ == bare_image(url@),
{
    ImageInfo { url: string_of(url), alt: None, caption: None }
}

/// `url` resolved against `base`, or as it stands.
fn resolve_or_keep(base: &Vec<char>, url: Vec<char>) -> (r: Vec<char>)
    ensures
        r@ == resolved_or_verbatim(base@, url@),
{
    match join_url(base, &url) {
        Some(u) => u,
        None => url,
    }
}

/// Looks for the fallback image of a document.
pub fn extract_fallback_image(html: &Vec<char>, doc: &Document, base: &Vec<char>) -> (r: Option<
    ImageInfo,
>)
    ensures
        match r {
            Some(image) => fallback_image(html@, doc@, base@) == Some(image@),
            None => fallback_image(html@, doc@, base@) is None,
        },
{
    match extract_meta_image(doc) {
        Some(url) => {
            return Some(bare(&resolve_or_keep(base, url)));
        },
        None => {},
    }
    match extract_jsonld_image(doc) {
        Some(url) => {
            return Some(bare(&resolve_or_keep(base, url)));
        },
        None => {},
    }
    let linked = extract_image_link(doc, base);
    if linked.is_some() {
        return linked;
    }
    let cms = Pattern::compile(CMS_IMAGE_PATTERN).find_all(html);
    match pick_best_image_url(&cms) {
        Some(url) => {
            return Some(bare(&url));
        },
        None => {},
    }
    let akamai = Pattern::compile(AKAMAI_IMAGE_PATTERN).find_all(html);
    match pick_best_image_url(&akamai) {
        Some(url) => Some(bare(&url)),
        None => None,
    }
}

} // verus!
