//! What holds of every extraction.

use vstd::prelude::*;
use crate::dom::DomNodeView;
use crate::extract::{base_of, extraction, resolved_title, titled_markdown, used_fallback};
use crate::extract::walked_container;
use crate::fallback::{fallback_image, first_meta, is_meta, meta_content, meta_image};
use crate::fallback::resolved_or_verbatim;
use crate::html::parsed_document;
use crate::markdown::{first_text_line, image_reference, lemma_first_text_line, lemma_line_at};
use crate::markdown::{lemma_tidy, lemma_tidy_of_neat, lemma_with_fallback_image_no_blank_run};
use crate::markdown::{lemma_with_fallback_image_trimmed, lemma_with_title_no_blank_run};
use crate::markdown::{lemma_with_title_trimmed, line_at, line_len, no_blank_run, tidy};
use crate::markdown::{with_fallback_image, with_title};
use crate::query::attr_of;
use crate::rules::{child_context, WalkCtxView};
use crate::text::{is_trimmed, trim};
use crate::walker::or_empty;

verus! {

/// The extraction puts the fallback image in: the walk met no image, and
/// the document has a fallback image.
pub open spec fn uses_fallback(doc: Seq<DomNodeView>, html: Seq<char>, base_url: Seq<char>) -> bool {
    walked_container(doc, base_of(base_url)).images.len() == 0 && fallback_image(
        html,
        doc,
        base_of(base_url),
    ) is Some
}

/// The reference to the fallback image as the extraction writes it.
pub open spec fn fallback_reference(doc: Seq<DomNodeView>, html: Seq<char>, base_url: Seq<char>) -> Seq<
    char,
> {
    let image = used_fallback(
        fallback_image(html, doc, base_of(base_url))->0,
        resolved_title(doc),
    );
    image_reference(or_empty(image.alt), image.url)
}

/// The text of an extraction neither begins nor ends with whitespace.
pub proof fn lemma_markdown_is_trimmed(doc: Seq<DomNodeView>, html: Seq<char>, base_url: Seq<char>)
    ensures
        is_trimmed(extraction(doc, html, base_url).markdown),
{
    let base = base_of(base_url);
    let text = tidy(walked_container(doc, base).text);
    lemma_tidy(walked_container(doc, base).text);
    match resolved_title(doc) {
        Some(t) => {
            lemma_with_title_trimmed(text, t);
        },
        None => {},
    }
    if uses_fallback(doc, html, base_url) {
        let image = used_fallback(fallback_image(html, doc, base)->0, resolved_title(doc));
        lemma_tidy(with_fallback_image(titled_markdown(doc, base), image));
    }
}

/// The text of an extraction holds no run of three line feeds.
pub proof fn lemma_markdown_has_no_blank_run(
    doc: Seq<DomNodeView>,
    html: Seq<char>,
    base_url: Seq<char>,
)
    ensures
        no_blank_run(extraction(doc, html, base_url).markdown),
{
    let base = base_of(base_url);
    let text = tidy(walked_container(doc, base).text);
    lemma_tidy(walked_container(doc, base).text);
    match resolved_title(doc) {
        Some(t) => {
            lemma_with_title_no_blank_run(text, t);
        },
        None => {},
    }
    if uses_fallback(doc, html, base_url) {
        let image = used_fallback(fallback_image(html, doc, base)->0, resolved_title(doc));
        lemma_tidy(with_fallback_image(titled_markdown(doc, base), image));
    }
}

/// Where a fallback image is put in whose reference holds no run of three
/// line feeds, the text of the extraction is the titled text with the
/// image put in, and nothing else is changed.
pub proof fn lemma_fallback_markdown(doc: Seq<DomNodeView>, html: Seq<char>, base_url: Seq<char>)
    requires
        uses_fallback(doc, html, base_url),
        no_blank_run(fallback_reference(doc, html, base_url)),
    ensures
        extraction(doc, html, base_url).markdown == with_fallback_image(
            titled_markdown(doc, base_of(base_url)),
            used_fallback(
                fallback_image(html, doc, base_of(base_url))->0,
                resolved_title(doc),
            ),
        ),
{
    let base = base_of(base_url);
    let text = tidy(walked_container(doc, base).text);
    lemma_tidy(walked_container(doc, base).text);
    match resolved_title(doc) {
        Some(t) => {
            lemma_with_title_no_blank_run(text, t);
            lemma_with_title_trimmed(text, t);
        },
        None => {},
    }
    let markdown = titled_markdown(doc, base);
    let image = used_fallback(fallback_image(html, doc, base)->0, resolved_title(doc));
    lemma_with_fallback_image_no_blank_run(markdown, image);
    lemma_with_fallback_image_trimmed(markdown, image);
    lemma_tidy_of_neat(with_fallback_image(markdown, image));
}

/// Making the heading match the title changes nothing but the first line
/// that is not blank: what stands before that line and what stands behind
/// it, line endings included, is in the result as it was.
pub proof fn lemma_title_leaves_the_rest(markdown: Seq<char>, title: Seq<char>)
    ensures
        ({
            let a = first_text_line(markdown, 0);
            let cut = a + line_len(markdown, a);
            let r = with_title(markdown, title);
            if a < markdown.len() && trim(line_at(markdown, a)) == title {
                &&& 0 <= a <= cut <= markdown.len()
                &&& r.len() == a + 2 + title.len() + (markdown.len() - cut)
                &&& r.take(a) == markdown.take(a)
                &&& r.subrange(a, a + 2 + title.len()) == "# "@ + title
                &&& r.skip(a + 2 + title.len()) == markdown.skip(cut)
            } else {
                r == markdown
            }
        }),
{
    let a = first_text_line(markdown, 0);
    lemma_first_text_line(markdown, 0);
    if a < markdown.len() {
        lemma_line_at(markdown, a);
        reveal_strlit("# ");
    }
}

/// The first `meta` element with a given attribute value is what
/// `first_meta` finds.
pub proof fn lemma_first_meta(doc: Seq<DomNodeView>, attr: Seq<char>, value: Seq<char>, from: int, m: int)
    requires
        0 <= from <= m < doc.len(),
        is_meta(doc, m, attr, value),
        forall|k: int| from <= k < m ==> !is_meta(doc, k, attr, value),
    ensures
        first_meta(doc, attr, value, from) == Some(m),
    decreases m - from,
{
    if from < m {
        lemma_first_meta(doc, attr, value, from + 1, m);
    }
}

/// If the walk meets no image and the document's first `meta` element with
/// the property `og:image` has content that is not blank, the extraction
/// has exactly one image, and its URL is that content, trimmed and resolved
/// against the base (or as it stands where it does not resolve).
pub proof fn lemma_og_image_is_the_fallback(
    doc: Seq<DomNodeView>,
    html: Seq<char>,
    base_url: Seq<char>,
    m: int,
)
    requires
        walked_container(doc, base_of(base_url)).images.len() == 0,
        0 <= m < doc.len(),
        is_meta(doc, m, "property"@, "og:image"@),
        forall|k: int| 0 <= k < m ==> !is_meta(doc, k, "property"@, "og:image"@),
        attr_of(doc[m].value->Element_0, "content"@) is Some,
        trim(attr_of(doc[m].value->Element_0, "content"@)->0).len() > 0,
    ensures
        extraction(doc, html, base_url).images.len() == 1,
        extraction(doc, html, base_url).images[0].url == resolved_or_verbatim(
            base_of(base_url),
            trim(attr_of(doc[m].value->Element_0, "content"@)->0),
        ),
{
    lemma_first_meta(doc, "property"@, "og:image"@, 0, m);
    assert(meta_content(doc, "property"@, "og:image"@) == Some(
        trim(attr_of(doc[m].value->Element_0, "content"@)->0),
    ));
    assert(meta_image(doc) == meta_content(doc, "property"@, "og:image"@));
}

/// The images of an extraction are the images that the walk met, in the
/// order in which it met them; if it met none, they are the one fallback
/// image of the document, or none if the document has no fallback image.
pub proof fn lemma_images_of_extraction(doc: Seq<DomNodeView>, html: Seq<char>, base_url: Seq<char>)
    ensures
        ({
            let walk = walked_container(doc, base_of(base_url));
            let images = extraction(doc, html, base_url).images;
            if walk.images.len() > 0 {
                images == walk.images
            } else if fallback_image(html, doc, base_of(base_url)) is Some {
                images.len() == 1 && images[0].url == fallback_image(
                    html,
                    doc,
                    base_of(base_url),
                )->0.url
            } else {
                images.len() == 0
            }
        }),
{
}

/// Once a branch is inside an article, everything below it is: the context
/// of the children never leaves an article that the context of the parent
/// is in, and the title stays the same.
pub proof fn lemma_context_is_sticky(ctx: WalkCtxView, name: Seq<char>)
    ensures
        ctx.in_article_or_main ==> child_context(ctx, name).in_article_or_main,
        name == "article"@ || name == "main"@ ==> child_context(ctx, name).in_article_or_main,
        child_context(ctx, name).title == ctx.title,
{
}

/// Extraction is a function of the markup and the address: equal inputs
/// give equal results.
pub proof fn lemma_extraction_is_repeatable(
    html_a: Seq<char>,
    base_a: Seq<char>,
    html_b: Seq<char>,
    base_b: Seq<char>,
)
    requires
        html_a == html_b,
        base_a == base_b,
    ensures
        extraction(parsed_document(html_a), html_a, base_a) == extraction(
            parsed_document(html_b),
            html_b,
            base_b,
        ),
{
}

} // verus!
