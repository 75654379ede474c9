//! The extraction pipeline: from a document and its address to the
//! article's text, title and images.

use vstd::prelude::*;
use crate::container::{container_of, document_title, find_container, title_of_document};
use crate::dom::{Document, DomNodeView};
use crate::fallback::{extract_fallback_image, fallback_image};
use crate::html::{parse_document, parsed_document};
use crate::image::or_else;
use crate::links::{parse_url, url_parse};
use crate::markdown::{place_fallback_image, retitle, tidy, tidy_markdown, with_fallback_image};
use crate::markdown::with_title;
use crate::models::{image_views, ImageInfo, ImageView};
use crate::query::{first_selected_below, text_of};
use crate::rules::{RulePatterns, WalkCtx, WalkCtxView};
use crate::text::{chars_of, string_of, view_opt, view_opt_string};
use crate::walker::{render_element, walk_element, Rendered};
use crate::words::{normalize, normalized};

verus! {

/// The base that stands in for an address that does not parse.
pub const DEFAULT_BASE: &'static str = "https://jw.org";

/// What an extraction yields.
pub struct ExtractResult {
    pub markdown: String,
    pub title: Option<String>,
    pub source_url: String,
    pub images: Vec<ImageInfo>,
}

/// The mathematical value of a result.
pub ghost struct ExtractView {
    pub markdown: Seq<char>,
    pub title: Option<Seq<char>>,
    pub source_url: Seq<char>,
    pub images: Seq<ImageView>,
}

impl View for ExtractResult {
    type V = ExtractView;

    open spec fn view(&self) -> ExtractView {
        ExtractView {
            markdown: self.markdown@,
            title: view_opt_string(self.title),
            source_url: self.source_url@,
            images: image_views(self.images@),
        }
    }
}

/// The base against which links and images are resolved: the address as
/// the URL parser writes it, or the default base if the address does not
/// parse.
pub open spec fn base_of(base_url: Seq<char>) -> Seq<char> {
    match url_parse(base_url) {
        Some(parts) => parts.href,
        None => match url_parse(DEFAULT_BASE@) {
            Some(parts) => parts.href,
            None => DEFAULT_BASE@,
        },
    }
}

/// The title in the container: the normalized text of the first `h1`
/// anywhere below it, unless that is empty.
pub open spec fn heading_title(doc: Seq<DomNodeView>, container: Option<int>) -> Option<Seq<char>> {
    match container {
        Some(c) => match first_selected_below(doc, c, "h1"@) {
            Some(h) => if normalize(text_of(doc, h)).len() > 0 {
                Some(normalize(text_of(doc, h)))
            } else {
                None
            },
            None => None,
        },
        None => None,
    }
}

/// The title for a container: from the first `h1` in the container, else
/// from the document's `title` element, else the fallback title.
pub open spec fn title_for(
    doc: Seq<DomNodeView>,
    container: Option<int>,
    fallback_title: Option<Seq<char>>,
) -> Option<Seq<char>> {
    or_else(heading_title(doc, container), or_else(document_title(doc), fallback_title))
}

/// The title of the article: the title for the container of the document.
pub open spec fn resolved_title(doc: Seq<DomNodeView>) -> Option<Seq<char>> {
    title_for(doc, container_of(doc).0, container_of(doc).1)
}

/// The rendering of the container, walked as the inside of an article and
/// with the resolved title; nothing if there is no container.
pub open spec fn walked_container(doc: Seq<DomNodeView>, base: Seq<char>) -> Rendered {
    match container_of(doc).0 {
        Some(c) => render_element(
            doc,
            c,
            base,
            WalkCtxView { in_article_or_main: true, title: resolved_title(doc) },
        ),
        None => Rendered::nothing(),
    }
}

/// The rendered text, tidied and with its leading heading made to match
/// the title.
pub open spec fn titled_markdown(doc: Seq<DomNodeView>, base: Seq<char>) -> Seq<char> {
    let text = tidy(walked_container(doc, base).text);
    match resolved_title(doc) {
        Some(t) => with_title(text, t),
        None => text,
    }
}

/// The fallback image as it is used: with the title as alternative text if
/// it has none of its own.
pub open spec fn used_fallback(image: ImageView, title: Option<Seq<char>>) -> ImageView {
    if image.alt is None {
        ImageView { url: image.url, alt: title, caption: image.caption }
    } else {
        image
    }
}

/// The result of the pipeline for a document `doc`, its markup `html` and
/// its address `base_url`. Where the fallback image is put into the text,
/// the text is tidied once more behind it, so that a reference that itself
/// holds a run of line feeds brings none into the text; a text with any
/// other reference stays as it is.
pub open spec fn extraction(doc: Seq<DomNodeView>, html: Seq<char>, base_url: Seq<char>) -> ExtractView {
    let base = base_of(base_url);
    let title = resolved_title(doc);
    let walk = walked_container(doc, base);
    let markdown = titled_markdown(doc, base);
    if walk.images.len() == 0 && fallback_image(html, doc, base) is Some {
        let image = used_fallback(fallback_image(html, doc, base)->0, title);
        ExtractView {
            markdown: tidy(with_fallback_image(markdown, image)),
            title,
            source_url: base_url,
            images: seq![image],
        }
    } else {
        ExtractView { markdown, title, source_url: base_url, images: walk.images }
    }
}

/// The base against which links and images are resolved.
pub fn resolve_base(base_url: &str) -> (r: Vec<char>)
    ensures
        r@ == base_of(base_url@),
{
    match parse_url(base_url) {
        Some(parts) => chars_of(parts.href.as_str()),
        None => match parse_url(DEFAULT_BASE) {
            Some(parts) => chars_of(parts.href.as_str()),
            None => chars_of(DEFAULT_BASE),
        },
    }
}

/// The title for a container.
pub fn resolve_title(doc: &Document, container: Option<usize>, fallback_title: Option<Vec<char>>) -> (r:
    Option<Vec<char>>)
    requires
        container matches Some(c) ==> c < doc@.len(),
    ensures
        view_opt(r) == title_for(
            doc@,
            match container {
                Some(c) => Some(c as int),
                None => None,
            },
            view_opt(fallback_title),
        ),
{
    let from_heading = match container {
        Some(c) => match doc.select_first_below(c, "h1") {
            Some(h) => {
                let text = normalized(&doc.collect_text(h));
                if text.len() > 0 {
                    Some(text)
                } else {
                    None
                }
            },
            None => None,
        },
        None => None,
    };
    if from_heading.is_some() {
        return from_heading;
    }
    let from_document = title_of_document(doc);
    if from_document.is_some() {
        return from_document;
    }
    fallback_title
}

/// Runs the pipeline on a parsed document.
pub fn extract_from_document(doc: &Document, html: &str, base_url: &str) -> (r: ExtractResult)
    ensures
        r@ == extraction(doc@, html@, base_url@),
{
    let base = resolve_base(base_url);
    let fallback = extract_fallback_image(&chars_of(html), doc, &base);
    let (container, fallback_title) = find_container(doc);
    let title = resolve_title(doc, container, fallback_title);
    let mut images: Vec<ImageInfo> = Vec::new();
    assert(image_views(images@) == Seq::<ImageView>::empty());
    let walked = match container {
        Some(c) => {
            let patterns = RulePatterns::new();
            let ctx = WalkCtx {
                in_article_or_main: true,
                title: title.as_ref(),
                patterns: &patterns,
            };
            let text = walk_element(doc, c, &base, &mut images, &ctx);
            assert(Seq::<ImageView>::empty() + walked_container(doc@, base@).images
                == walked_container(doc@, base@).images);
            text
        },
        None => Vec::new(),
    };
    let tidied = tidy_markdown(&walked);
    let markdown = match &title {
        Some(t) => retitle(tidied, t),
        None => tidied,
    };
    let title_text = match &title {
        Some(t) => Some(string_of(t)),
        None => None,
    };
    if images.len() == 0 {
        match fallback {
            Some(found) => {
                let image = if found.alt.is_none() {
                    ImageInfo {
                        url: found.url,
                        alt: match &title {
                            Some(t) => Some(string_of(t)),
                            None => None,
                        },
                        caption: found.caption,
                    }
                } else {
                    found
                };
                let text = tidy_markdown(&place_fallback_image(markdown, &image));
                let mut only: Vec<ImageInfo> = Vec::new();
                let ghost view = image@;
                only.push(image);
                assert(image_views(only@) == seq![view]);
                return ExtractResult {
                    markdown: string_of(&text),
                    title: title_text,
                    source_url: string_of(&chars_of(base_url)),
                    images: only,
                };
            },
            None => {},
        }
    }
    ExtractResult {
        markdown: string_of(&markdown),
        title: title_text,
        source_url: string_of(&chars_of(base_url)),
        images,
    }
}

/// Parses `html` and extracts the article from it; `base_url` is the
/// address that the markup came from.
pub fn extract_from_html(html: &str, base_url: &str) -> (r: ExtractResult)
    ensures
        r@ == extraction(parsed_document(html@), html@, base_url@),
{
    let doc = parse_document(html);
    extract_from_document(&doc, html, base_url)
}

} // verus!
