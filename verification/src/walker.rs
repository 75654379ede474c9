//! The content walk: renders an element and everything below it as
//! markdown-like text and records the images it meets.

use vstd::prelude::*;
use crate::dom::{is_element, is_tag, subtree_end, Document, DomNodeView};
use crate::dom::{ElementData, ElementView, NodeValue, NodeView};
use crate::image::{resolve_img_src, resolved_source};
use crate::links::{join_url, url_join};
use crate::markdown::{image_markup, image_reference};
use crate::models::{image_views, lemma_image_views_push, ImageInfo, ImageView};
use crate::query::{attr_of, first_descendant, text_of};
use crate::rules::{child_context, is_skipped, skipped, WalkCtx, WalkCtxView};
use crate::text::{chars_of, eq_str, push_all, push_str, string_of, trim, trimmed, view_opt};
use crate::words::{join, join_parts, lines, normalize, normalized, split_lines, texts};

verus! {

/// What a walk yields: the rendered text, and the images met on the way, in
/// document order.
pub ghost struct Rendered {
    pub text: Seq<char>,
    pub images: Seq<ImageView>,
}

impl Rendered {
    /// No text and no image.
    pub open spec fn nothing() -> Rendered {
        Rendered { text: Seq::empty(), images: Seq::empty() }
    }

    /// Text without images.
    pub open spec fn only_text(text: Seq<char>) -> Rendered {
        Rendered { text, images: Seq::empty() }
    }

    /// `self` followed by `next`.
    pub open spec fn followed_by(self, next: Rendered) -> Rendered {
        Rendered { text: self.text + next.text, images: self.images + next.images }
    }

    /// The same images around another text.
    pub open spec fn with_text(self, text: Seq<char>) -> Rendered {
        Rendered { text, images: self.images }
    }
}

/// The level of a heading tag, 1 to 6; 0 for any other tag.
pub open spec fn heading_level(name: Seq<char>) -> nat {
    if name == "h1"@ {
        1
    } else if name == "h2"@ {
        2
    } else if name == "h3"@ {
        3
    } else if name == "h4"@ {
        4
    } else if name == "h5"@ {
        5
    } else if name == "h6"@ {
        6
    } else {
        0
    }
}

/// `n` number signs.
pub open spec fn hashes(n: nat) -> Seq<char> {
    Seq::new(n, |i: int| '#')
}

/// The decimal digit for `d`.
pub open spec fn digit_char(d: nat) -> char {
    if d == 0 {
        '0'
    } else if d == 1 {
        '1'
    } else if d == 2 {
        '2'
    } else if d == 3 {
        '3'
    } else if d == 4 {
        '4'
    } else if d == 5 {
        '5'
    } else if d == 6 {
        '6'
    } else if d == 7 {
        '7'
    } else if d == 8 {
        '8'
    } else {
        '9'
    }
}

/// `n` in decimal digits.
pub open spec fn decimal(n: nat) -> Seq<char>
    decreases n,
{
    if n < 10 {
        seq![digit_char(n)]
    } else {
        decimal(n / 10).push(digit_char(n % 10))
    }
}

/// The alternative text of an image element: its attribute `alt`, trimmed,
/// unless that is empty.
pub open spec fn alt_of(e: ElementView) -> Option<Seq<char>> {
    match attr_of(e, "alt"@) {
        Some(a) => if trim(a).len() > 0 {
            Some(trim(a))
        } else {
            None
        },
        None => None,
    }
}

/// The text, or the empty text if there is none.
pub open spec fn or_empty(o: Option<Seq<char>>) -> Seq<char> {
    match o {
        Some(s) => s,
        None => Seq::empty(),
    }
}

/// An image element: if its source resolves, the image is recorded and a
/// reference to it rendered, with a blank line behind.
pub open spec fn render_image(e: ElementView, base: Seq<char>) -> Rendered {
    match resolved_source(e, base) {
        Some(src) => Rendered {
            text: image_reference(or_empty(alt_of(e)), src) + "\n\n"@,
            images: seq![ImageView { url: src, alt: alt_of(e), caption: None }],
        },
        None => Rendered::nothing(),
    }
}

/// The caption of a figure: the normalized text of its first `figcaption`,
/// unless that is empty.
pub open spec fn caption_of(doc: Seq<DomNodeView>, i: int) -> Option<Seq<char>> {
    match first_descendant(doc, i, "figcaption"@) {
        Some(f) => if normalize(text_of(doc, f)).len() > 0 {
            Some(normalize(text_of(doc, f)))
        } else {
            None
        },
        None => None,
    }
}

/// A figure: the first image below it, recorded with the figure's caption,
/// and rendered as a reference followed by the caption in emphasis.
pub open spec fn render_figure(doc: Seq<DomNodeView>, i: int, base: Seq<char>) -> Rendered {
    match first_descendant(doc, i, "img"@) {
        Some(j) => {
            let e = doc[j].value->Element_0;
            match resolved_source(e, base) {
                Some(src) => Rendered {
                    text: image_reference(or_empty(alt_of(e)), src) + "\n\n"@ + (match caption_of(
                        doc,
                        i,
                    ) {
                        Some(c) => "*"@ + c + "*\n\n"@,
                        None => Seq::empty(),
                    }),
                    images: seq![ImageView { url: src, alt: alt_of(e), caption: caption_of(doc, i) }],
                },
                None => Rendered::nothing(),
            }
        },
        None => Rendered::nothing(),
    }
}

/// A picture: the first image below it, rendered as an image element is.
pub open spec fn render_picture(doc: Seq<DomNodeView>, i: int, base: Seq<char>) -> Rendered {
    match first_descendant(doc, i, "img"@) {
        Some(j) => render_image(doc[j].value->Element_0, base),
        None => Rendered::nothing(),
    }
}

/// The target of a link: its `href` resolved against the base, or as it
/// stands if it does not resolve.
pub open spec fn link_target(e: ElementView, base: Seq<char>) -> Option<Seq<char>> {
    match attr_of(e, "href"@) {
        Some(h) => Some(
            match url_join(base, h) {
                Some(u) => u,
                None => h,
            },
        ),
        None => None,
    }
}

/// The text with every line behind a quote marker.
pub open spec fn quoted(text: Seq<char>) -> Seq<char> {
    join(lines(text).map_values(|l: Seq<char>| "> "@ + l), seq!['\n'])
}

/// The trimmed text between `open` and `close`; nothing if the trimmed
/// text is empty.
pub open spec fn wrapped(open: Seq<char>, text: Seq<char>, close: Seq<char>) -> Seq<char> {
    if trim(text).len() == 0 {
        Seq::empty()
    } else {
        open + trim(text) + close
    }
}

/// The rendering of element `i` and all below it.
pub open spec fn render_element(
    doc: Seq<DomNodeView>,
    i: int,
    base: Seq<char>,
    ctx: WalkCtxView,
) -> Rendered
    decreases doc.len() - i, 1nat,
{
    if !is_element(doc, i) || is_skipped(doc, i, ctx) {
        Rendered::nothing()
    } else {
        let e = doc[i].value->Element_0;
        let name = e.name;
        let inner = child_context(ctx, name);
        let end = subtree_end(doc, i);
        if heading_level(name) > 0 {
            let text = normalize(text_of(doc, i));
            if text.len() == 0 {
                Rendered::nothing()
            } else {
                Rendered::only_text(hashes(heading_level(name)) + " "@ + text + "\n\n"@)
            }
        } else if name == "figure"@ {
            render_figure(doc, i, base)
        } else if name == "img"@ {
            render_image(e, base)
        } else if name == "picture"@ {
            render_picture(doc, i, base)
        } else if name == "a"@ {
            let kids = render_children(doc, i + 1, end, base, inner);
            match link_target(e, base) {
                Some(target) => kids.with_text(wrapped("["@, kids.text, "]("@ + target + ")"@)),
                None => kids.with_text(trim(kids.text)),
            }
        } else if name == "p"@ {
            let kids = render_children(doc, i + 1, end, base, inner);
            kids.with_text(wrapped(Seq::empty(), kids.text, "\n\n"@))
        } else if name == "br"@ {
            Rendered::only_text("\n"@)
        } else if name == "hr"@ {
            Rendered::only_text("\n---\n\n"@)
        } else if name == "ul"@ || name == "ol"@ {
            let items = render_items(doc, i + 1, end, base, inner, name == "ol"@, 1);
            if items.text.len() > 0 {
                items.with_text(items.text + "\n"@)
            } else {
                items
            }
        } else if name == "li"@ {
            let kids = render_children(doc, i + 1, end, base, inner);
            kids.with_text(wrapped("- "@, kids.text, "\n"@))
        } else if name == "strong"@ || name == "b"@ {
            let kids = render_children(doc, i + 1, end, base, inner);
            kids.with_text(wrapped("**"@, kids.text, "**"@))
        } else if name == "em"@ || name == "i"@ {
            let kids = render_children(doc, i + 1, end, base, inner);
            kids.with_text(wrapped("*"@, kids.text, "*"@))
        } else if name == "blockquote"@ {
            let kids = render_children(doc, i + 1, end, base, inner);
            kids.with_text(quoted(kids.text) + "\n\n"@)
        } else if name == "pre"@ {
            Rendered::only_text("```\n"@ + text_of(doc, i) + "\n```\n\n"@)
        } else if name == "code"@ {
            Rendered::only_text("`"@ + text_of(doc, i) + "`"@)
        } else {
            render_children(doc, i + 1, end, base, inner)
        }
    }
}

/// The rendering of one child: a text node is its text, an element its
/// rendering, any other node nothing.
pub open spec fn render_node(
    doc: Seq<DomNodeView>,
    c: int,
    base: Seq<char>,
    ctx: WalkCtxView,
) -> Rendered
    decreases doc.len() - c, 2nat,
{
    if c < 0 || c >= doc.len() {
        Rendered::nothing()
    } else {
        match doc[c].value {
            NodeView::Text(t) => Rendered::only_text(t),
            NodeView::Element(_) => render_element(doc, c, base, ctx),
            NodeView::Other => Rendered::nothing(),
        }
    }
}

/// The renderings, one behind the other, of the sibling at `from` and the
/// siblings that follow it before `to`.
pub open spec fn render_children(
    doc: Seq<DomNodeView>,
    from: int,
    to: int,
    base: Seq<char>,
    ctx: WalkCtxView,
) -> Rendered
    decreases doc.len() - from, 3nat,
{
    if from < 0 || from >= to || from >= doc.len() {
        Rendered::nothing()
    } else {
        let next = subtree_end(doc, from);
        if next <= from || next > doc.len() {
            render_node(doc, from, base, ctx)
        } else {
            render_node(doc, from, base, ctx).followed_by(render_children(doc, next, to, base, ctx))
        }
    }
}

/// One item of a list: the trimmed rendering of what is below it, behind
/// its number or a bullet; an item without text renders nothing.
pub open spec fn item_line(text: Seq<char>, ordered: bool, number: nat) -> Seq<char> {
    if trim(text).len() == 0 {
        Seq::empty()
    } else if ordered {
        decimal(number) + ". "@ + trim(text) + "\n"@
    } else {
        "- "@ + trim(text) + "\n"@
    }
}

/// The items of a list among the siblings from `from` before `to`: only
/// `li` elements count, and only an item with text takes a number.
pub open spec fn render_items(
    doc: Seq<DomNodeView>,
    from: int,
    to: int,
    base: Seq<char>,
    ctx: WalkCtxView,
    ordered: bool,
    number: nat,
) -> Rendered
    decreases doc.len() - from, 4nat,
{
    if from < 0 || from >= to || from >= doc.len() {
        Rendered::nothing()
    } else {
        let next = subtree_end(doc, from);
        if next <= from || next > doc.len() {
            Rendered::nothing()
        } else if is_tag(doc, from, "li"@) {
            let kids = render_children(doc, from + 1, next, base, ctx);
            let line = item_line(kids.text, ordered, number);
            kids.with_text(line).followed_by(
                render_items(
                    doc,
                    next,
                    to,
                    base,
                    ctx,
                    ordered,
                    if ordered && trim(kids.text).len() > 0 {
                        number + 1
                    } else {
                        number
                    },
                ),
            )
        } else {
            render_items(doc, next, to, base, ctx, ordered, number)
        }
    }
}

/// The walk has rendered `r`: `text` is its text, and its images stand
/// behind those that were there before.
pub open spec fn walked(
    before: Seq<ImageInfo>,
    after: Seq<ImageInfo>,
    text: Seq<char>,
    r: Rendered,
) -> bool {
    text == r.text && image_views(after) == image_views(before) + r.images
}

/// The decimal digit for `d`.
fn digit_of(d: usize) -> (c: char)
    requires
        d < 10,
    ensures
        c == digit_char(d as nat),
{
    if d == 0 {
        '0'
    } else if d == 1 {
        '1'
    } else if d == 2 {
        '2'
    } else if d == 3 {
        '3'
    } else if d == 4 {
        '4'
    } else if d == 5 {
        '5'
    } else if d == 6 {
        '6'
    } else if d == 7 {
        '7'
    } else if d == 8 {
        '8'
    } else {
        '9'
    }
}

/// `n` in decimal digits.
pub fn decimal_of(n: usize) -> (r: Vec<char>)
    ensures
        r@ == decimal(n as nat),
    decreases n,
{
    if n < 10 {
        let mut r: Vec<char> = Vec::new();
        r.push(digit_of(n));
        r
    } else {
        let mut r = decimal_of(n / 10);
        r.push(digit_of(n % 10));
        r
    }
}

/// The level of a heading tag; 0 for any other tag.
fn heading_level_of(name: &Vec<char>) -> (r: usize)
    ensures
        r == heading_level(name@),
        r <= 6,
{
    if eq_str(name, "h1") {
        1
    } else if eq_str(name, "h2") {
        2
    } else if eq_str(name, "h3") {
        3
    } else if eq_str(name, "h4") {
        4
    } else if eq_str(name, "h5") {
        5
    } else if eq_str(name, "h6") {
        6
    } else {
        0
    }
}

/// A heading of the given level.
fn heading_line(level: usize, text: &Vec<char>) -> (r: Vec<char>)
    ensures
        r@ == hashes(level as nat) + " "@ + text@ + "\n\n"@,
{
    let mut r: Vec<char> = Vec::new();
    let mut k: usize = 0;
    while k < level
        invariant
            k <= level,
            r@ == hashes(k as nat),
        decreases level - k,
    {
        r.push('#');
        assert(r@ == hashes((k + 1) as nat));
        k += 1;
    }
    push_str(&mut r, " ");
    push_all(&mut r, text);
    push_str(&mut r, "\n\n");
    r
}

/// The trimmed text between `open` and `close`; nothing if it is empty.
fn wrap(open: &str, text: &Vec<char>, close: &Vec<char>) -> (r: Vec<char>)
    ensures
        r@ == wrapped(open@, text@, close@),
{
    let t = trimmed(text);
    let mut r: Vec<char> = Vec::new();
    if t.len() == 0 {
        return r;
    }
    push_str(&mut r, open);
    push_all(&mut r, &t);
    push_all(&mut r, close);
    assert(Seq::<char>::empty() + open@ == open@);
    r
}

/// The alternative text of an image element.
fn image_alt(e: &ElementData) -> (r: Option<Vec<char>>)
    ensures
        view_opt(r) == alt_of(e@),
{
    match e.attr("alt") {
        Some(a) => {
            let t = trimmed(&a);
            if t.len() > 0 {
                Some(t)
            } else {
                None
            }
        },
        None => None,
    }
}

/// The optional text as an optional string.
fn to_string_opt(o: &Option<Vec<char>>) -> (r: Option<String>)
    ensures
        crate::text::view_opt_string(r) == view_opt(*o),
{
    match o {
        Some(v) => Some(string_of(v)),
        None => None,
    }
}

/// Records an image and renders the reference to it.
fn emit_image(
    images: &mut Vec<ImageInfo>,
    src: &Vec<char>,
    alt: &Option<Vec<char>>,
    caption: &Option<Vec<char>>,
) -> (r: Vec<char>)
    ensures
        r@ == image_reference(or_empty(view_opt(*alt)), src@) + "\n\n"@,
        image_views(final(images)@) == image_views(old(images)@).push(
            ImageView { url: src@, alt: view_opt(*alt), caption: view_opt(*caption) },
        ),
{
    let info = ImageInfo {
        url: string_of(src),
        alt: to_string_opt(alt),
        caption: to_string_opt(caption),
    };
    proof {
        lemma_image_views_push(images@, info);
    }
    images.push(info);
    let empty: Vec<char> = Vec::new();
    let mut r = match alt {
        Some(a) => image_markup(a, src),
        None => image_markup(&empty, src),
    };
    push_str(&mut r, "\n\n");
    r
}

/// Renders an image element.
fn render_img(e: &ElementData, base: &Vec<char>, images: &mut Vec<ImageInfo>) -> (r: Vec<char>)
    ensures
        walked(old(images)@, final(images)@, r@, render_image(e@, base@)),
{
    match resolve_img_src(e, base) {
        Some(src) => {
            let alt = image_alt(e);
            let r = emit_image(images, &src, &alt, &None);
            assert(image_views(old(images)@).push(
                ImageView { url: src@, alt: view_opt(alt), caption: None },
            ) == image_views(old(images)@) + seq![
                ImageView { url: src@, alt: view_opt(alt), caption: None },
            ]);
            r
        },
        None => {
            assert(image_views(images@) + Seq::<ImageView>::empty() == image_views(images@));
            Vec::new()
        },
    }
}

/// Renders a figure: its first image with the figure's caption.
pub fn handle_figure(doc: &Document, i: usize, base: &Vec<char>, images: &mut Vec<ImageInfo>) -> (r:
    Vec<char>)
    requires
        i < doc@.len(),
    ensures
        walked(old(images)@, final(images)@, r@, render_figure(doc@, i as int, base@)),
{
    assert(image_views(images@) + Seq::<ImageView>::empty() == image_views(images@));
    let j = match doc.find_first_tag(i, "img") {
        Some(j) => j,
        None => {
            return Vec::new();
        },
    };
    let e = doc.element(j).unwrap();
    let src = match resolve_img_src(e, base) {
        Some(s) => s,
        None => {
            return Vec::new();
        },
    };
    let alt = image_alt(e);
    let caption = match doc.find_first_tag(i, "figcaption") {
        Some(f) => {
            let c = normalized(&doc.collect_text(f));
            if c.len() > 0 {
                Some(c)
            } else {
                None
            }
        },
        None => None,
    };
    let mut r = emit_image(images, &src, &alt, &caption);
    let ghost view = ImageView { url: src@, alt: view_opt(alt), caption: view_opt(caption) };
    assert(image_views(old(images)@).push(view) == image_views(old(images)@) + seq![view]);
    match &caption {
        Some(c) => {
            push_str(&mut r, "*");
            push_all(&mut r, c);
            push_str(&mut r, "*\n\n");
            assert(r@ == image_reference(or_empty(view_opt(alt)), src@) + "\n\n"@ + ("*"@ + c@
                + "*\n\n"@));
        },
        None => {
            assert(r@ + Seq::<char>::empty() == r@);
        },
    }
    r
}

/// The text with every line behind a quote marker.
fn quote_lines(text: &Vec<char>) -> (r: Vec<char>)
    ensures
        r@ == quoted(text@),
{
    let ls = split_lines(text);
    let mut out: Vec<Vec<char>> = Vec::new();
    let mut k: usize = 0;
    while k < ls.len()
        invariant
            k <= ls.len(),
            out.len() == k,
            forall|j: int| 0 <= j < k ==> #[trigger] out@[j]@ == "> "@ + ls@[j]@,
        decreases ls.len() - k,
    {
        let mut line: Vec<char> = Vec::new();
        push_str(&mut line, "> ");
        push_all(&mut line, &ls[k]);
        assert(Seq::<char>::empty() + "> "@ == "> "@);
        out.push(line);
        k += 1;
    }
    assert(texts(out@) =~= lines(text@).map_values(|l: Seq<char>| "> "@ + l)) by {
        assert forall|j: int| 0 <= j < out.len() implies texts(out@)[j] == "> "@ + lines(
            text@,
        )[j] by {
            assert(texts(ls@)[j] == ls@[j]@);
        }
    }
    let mut sep: Vec<char> = Vec::new();
    sep.push('\n');
    join_parts(&out, &sep)
}

/// Renders element `i` and all below it, and records the images it meets.
pub fn walk_element(
    doc: &Document,
    i: usize,
    base: &Vec<char>,
    images: &mut Vec<ImageInfo>,
    ctx: &WalkCtx,
) -> (r: Vec<char>)
    requires
        is_element(doc@, i as int),
        ctx.wf(),
    ensures
        walked(old(images)@, final(images)@, r@, render_element(doc@, i as int, base@, ctx@)),
    decreases doc@.len() - i, 1nat,
{
    assert(image_views(images@) + Seq::<ImageView>::empty() == image_views(images@));
    if skipped(doc, i, ctx) {
        return Vec::new();
    }
    let e = doc.element(i).unwrap();
    let name = chars_of(e.name.as_str());
    let inner = WalkCtx {
        in_article_or_main: ctx.in_article_or_main || eq_str(&name, "article") || eq_str(
            &name,
            "main",
        ),
        title: ctx.title,
        patterns: ctx.patterns,
    };
    assert(inner@ == child_context(ctx@, name@));
    let end = doc.subtree_end(i);
    let level = heading_level_of(&name);
    if level > 0 {
        let text = normalized(&doc.collect_text(i));
        if text.len() == 0 {
            return Vec::new();
        }
        return heading_line(level, &text);
    }
    if eq_str(&name, "figure") {
        return handle_figure(doc, i, base, images);
    }
    if eq_str(&name, "img") {
        return render_img(e, base, images);
    }
    if eq_str(&name, "picture") {
        return match doc.find_first_tag(i, "img") {
            Some(j) => {
                let img = doc.element(j).unwrap();
                render_img(img, base, images)
            },
            None => Vec::new(),
        };
    }
    if eq_str(&name, "a") {
        let href = e.attr("href");
        let content = walk_children(doc, i + 1, end, base, images, &inner);
        return match href {
            Some(h) => {
                let target = match join_url(base, &h) {
                    Some(u) => u,
                    None => h,
                };
                let mut close: Vec<char> = Vec::new();
                push_str(&mut close, "](");
                push_all(&mut close, &target);
                push_str(&mut close, ")");
                assert(close@ == "]("@ + target@ + ")"@) by {
                    assert(Seq::<char>::empty() + "]("@ == "]("@);
                }
                wrap("[", &content, &close)
            },
            None => trimmed(&content),
        };
    }
    if eq_str(&name, "p") {
        let content = walk_children(doc, i + 1, end, base, images, &inner);
        let r = wrap("", &content, &chars_of("\n\n"));
        proof {
            reveal_strlit("");
            assert(""@ == Seq::<char>::empty());
        }
        return r;
    }
    if eq_str(&name, "br") {
        return chars_of("\n");
    }
    if eq_str(&name, "hr") {
        return chars_of("\n---\n\n");
    }
    let ordered = eq_str(&name, "ol");
    if eq_str(&name, "ul") || ordered {
        return handle_list(doc, i, base, images, &inner, ordered);
    }
    if eq_str(&name, "li") {
        let content = walk_children(doc, i + 1, end, base, images, &inner);
        return wrap("- ", &content, &chars_of("\n"));
    }
    if eq_str(&name, "strong") || eq_str(&name, "b") {
        let content = walk_children(doc, i + 1, end, base, images, &inner);
        return wrap("**", &content, &chars_of("**"));
    }
    if eq_str(&name, "em") || eq_str(&name, "i") {
        let content = walk_children(doc, i + 1, end, base, images, &inner);
        return wrap("*", &content, &chars_of("*"));
    }
    if eq_str(&name, "blockquote") {
        let content = walk_children(doc, i + 1, end, base, images, &inner);
        let mut r = quote_lines(&content);
        push_str(&mut r, "\n\n");
        return r;
    }
    if eq_str(&name, "pre") {
        let mut r = chars_of("```\n");
        push_all(&mut r, &doc.collect_text(i));
        push_str(&mut r, "\n```\n\n");
        return r;
    }
    if eq_str(&name, "code") {
        let mut r = chars_of("`");
        push_all(&mut r, &doc.collect_text(i));
        push_str(&mut r, "`");
        return r;
    }
    walk_children(doc, i + 1, end, base, images, &inner)
}

/// Renders the sibling at `from` and the siblings that follow it before
/// `to`, one behind the other.
pub fn walk_children(
    doc: &Document,
    from: usize,
    to: usize,
    base: &Vec<char>,
    images: &mut Vec<ImageInfo>,
    ctx: &WalkCtx,
) -> (r: Vec<char>)
    requires
        ctx.wf(),
    ensures
        walked(
            old(images)@,
            final(images)@,
            r@,
            render_children(doc@, from as int, to as int, base@, ctx@),
        ),
    decreases doc@.len() - from, 3nat,
{
    let ghost total = render_children(doc@, from as int, to as int, base@, ctx@);
    let mut out: Vec<char> = Vec::new();
    let mut c: usize = from;
    assert(image_views(images@) + total.images == image_views(images@) + total.images);
    assert(out@ + total.text == total.text);
    while c < to && c < doc.len()
        invariant
            from <= c,
            ctx.wf(),
            total == render_children(doc@, from as int, to as int, base@, ctx@),
            total.text == out@ + render_children(doc@, c as int, to as int, base@, ctx@).text,
            image_views(old(images)@) + total.images == image_views(images@) + render_children(
                doc@,
                c as int,
                to as int,
                base@,
                ctx@,
            ).images,
        decreases doc@.len() - c,
    {
        let next = doc.subtree_end(c);
        let ghost here = render_node(doc@, c as int, base@, ctx@);
        let ghost rest = render_children(doc@, next as int, to as int, base@, ctx@);
        let ghost before = images@;
        let ghost out_before = out@;
        assert(render_children(doc@, c as int, to as int, base@, ctx@) == here.followed_by(rest));
        assert(doc@[c as int] == doc.nodes@[c as int]@);
        match &doc.nodes[c].value {
            NodeValue::Text(t) => {
                push_str(&mut out, t.as_str());
                assert(image_views(before) + here.images == image_views(before));
            },
            NodeValue::Element(_) => {
                let piece = walk_element(doc, c, base, images, ctx);
                push_all(&mut out, &piece);
            },
            NodeValue::Other => {
                assert(image_views(before) + here.images == image_views(before));
                assert(out@ + here.text == out@);
            },
        }
        assert(out@ == out_before + here.text);
        assert(image_views(images@) == image_views(before) + here.images);
        assert(out_before + (here.text + rest.text) == out_before + here.text + rest.text);
        assert(image_views(before) + (here.images + rest.images) == image_views(before)
            + here.images + rest.images);
        c = next;
    }
    assert(out@ + Seq::<char>::empty() == out@);
    assert(image_views(images@) + Seq::<ImageView>::empty() == image_views(images@));
    out
}

/// Renders the items of the list at element `i`.
pub fn handle_list(
    doc: &Document,
    i: usize,
    base: &Vec<char>,
    images: &mut Vec<ImageInfo>,
    ctx: &WalkCtx,
    ordered: bool,
) -> (r: Vec<char>)
    requires
        i < doc@.len(),
        ctx.wf(),
    ensures
        ({
            let items = render_items(
                doc@,
                i + 1,
                subtree_end(doc@, i as int),
                base@,
                ctx@,
                ordered,
                1,
            );
            walked(
                old(images)@,
                final(images)@,
                r@,
                if items.text.len() > 0 {
                    items.with_text(items.text + "\n"@)
                } else {
                    items
                },
            )
        }),
    decreases doc@.len() - i, 0nat,
{
    let end = doc.subtree_end(i);
    let ghost total = render_items(doc@, i + 1, end as int, base@, ctx@, ordered, 1);
    let mut out: Vec<char> = Vec::new();
    let mut number: usize = 1;
    let mut c: usize = i + 1;
    assert(out@ + total.text == total.text);
    while c < end && c < doc.len()
        invariant
            i < c,
            number <= c,
            ctx.wf(),
            end == subtree_end(doc@, i as int),
            total == render_items(doc@, i + 1, end as int, base@, ctx@, ordered, 1),
            total.text == out@ + render_items(
                doc@,
                c as int,
                end as int,
                base@,
                ctx@,
                ordered,
                number as nat,
            ).text,
            image_views(old(images)@) + total.images == image_views(images@) + render_items(
                doc@,
                c as int,
                end as int,
                base@,
                ctx@,
                ordered,
                number as nat,
            ).images,
        decreases doc@.len() - c,
    {
        let next = doc.subtree_end(c);
        let ghost before = images@;
        let ghost out_before = out@;
        let ghost number_before = number as nat;
        if doc.has_tag(c, "li") {
            let content = walk_children(doc, c + 1, next, base, images, ctx);
            let t = trimmed(&content);
            let ghost kids = render_children(doc@, c + 1, next as int, base@, ctx@);
            let ghost line = item_line(kids.text, ordered, number_before);
            if t.len() > 0 {
                if ordered {
                    push_all(&mut out, &decimal_of(number));
                    push_str(&mut out, ". ");
                    push_all(&mut out, &t);
                    push_str(&mut out, "\n");
                    number = number + 1;
                } else {
                    push_str(&mut out, "- ");
                    push_all(&mut out, &t);
                    push_str(&mut out, "\n");
                }
                assert(out@ == out_before + line);
            } else {
                assert(out@ + line == out@);
            }
            proof {
                let rest = render_items(
                    doc@,
                    next as int,
                    end as int,
                    base@,
                    ctx@,
                    ordered,
                    number as nat,
                );
                assert(render_items(
                    doc@,
                    c as int,
                    end as int,
                    base@,
                    ctx@,
                    ordered,
                    number_before,
                ) == kids.with_text(line).followed_by(rest));
                assert(out_before + (line + rest.text) == out_before + line + rest.text);
                assert(image_views(before) + (kids.images + rest.images) == image_views(before)
                    + kids.images + rest.images);
            }
        }
        c = next;
    }
    assert(out@ + Seq::<char>::empty() == out@);
    assert(image_views(images@) + Seq::<ImageView>::empty() == image_views(images@));
    if out.len() > 0 {
        out.push('\n');
        proof {
            reveal_strlit("\n");
            assert("\n"@ == seq!['\n']);
        }
    }
    out
}

} // verus!
