//! Choosing the element that holds the article.

use vstd::prelude::*;
use crate::dom::{is_tag, Document, DomNodeView};
use crate::pattern::{pattern_matches, Pattern};
use crate::query::{class_id_of, first_in_document, lemma_first_tag_between, text_of};
use crate::text::{trim, trimmed, view_opt};

verus! {

/// Finds the class names and identifiers of elements that hold content.
pub const KEYWORD_PATTERN: &'static str = r"(?i)(article|content|pub|body)";

/// The least amount of text, in characters, for which a `div` is taken as
/// the article.
pub const MIN_TEXT_LEN: usize = 200;

/// Node `i` is a `div` that is named like content.
pub open spec fn is_content_div(doc: Seq<DomNodeView>, i: int) -> bool {
    is_tag(doc, i, "div"@) && pattern_matches(
        KEYWORD_PATTERN@,
        class_id_of(doc[i].value->Element_0),
    )
}

/// The amount of text below a chosen node; 0 if none is chosen.
pub open spec fn chosen_len(doc: Seq<DomNodeView>, chosen: Option<int>) -> nat {
    match chosen {
        Some(j) => text_of(doc, j).len(),
        None => 0,
    }
}

/// Among the content `div`s before index `to` that hold any text, the
/// first of those with the most text.
pub open spec fn best_div_before(doc: Seq<DomNodeView>, to: int) -> Option<int>
    decreases to,
{
    if to <= 0 {
        None
    } else {
        let prev = best_div_before(doc, to - 1);
        if is_content_div(doc, to - 1) && text_of(doc, to - 1).len() > chosen_len(doc, prev) {
            Some(to - 1)
        } else {
            prev
        }
    }
}

/// Among `div`s given by their place and the amount of their text, the
/// first of those with the most text, if any of them holds text at all.
pub open spec fn longest_div(divs: Seq<(int, nat)>) -> Option<(int, nat)>
    decreases divs.len(),
{
    if divs.len() == 0 {
        None
    } else {
        let prev = longest_div(divs.drop_last());
        let most = match prev {
            Some(d) => d.1,
            None => 0,
        };
        if divs.last().1 > most {
            Some(divs.last())
        } else {
            prev
        }
    }
}

/// The place of the `div` that is chosen among content `div`s given by
/// their place and the amount of their text: the first of those with the
/// most text, if that is at least 200 characters.
pub open spec fn chosen_div(divs: Seq<(int, nat)>) -> Option<int> {
    match longest_div(divs) {
        Some(d) => if d.1 >= MIN_TEXT_LEN {
            Some(d.0)
        } else {
            None
        },
        None => None,
    }
}

/// Places and amounts of text as numbers.
pub open spec fn div_views(divs: Seq<(usize, usize)>) -> Seq<(int, nat)> {
    Seq::new(divs.len(), |i: int| (divs[i].0 as int, divs[i].1 as nat))
}

/// The content `div` with the most text, if that is at least 200
/// characters.
pub open spec fn content_div(doc: Seq<DomNodeView>) -> Option<int> {
    let best = best_div_before(doc, doc.len() as int);
    if chosen_len(doc, best) >= MIN_TEXT_LEN {
        best
    } else {
        None
    }
}

/// The trimmed text of the document's first `title` element, unless that
/// is empty.
pub open spec fn document_title(doc: Seq<DomNodeView>) -> Option<Seq<char>> {
    match first_in_document(doc, "title"@) {
        Some(t) => if trim(text_of(doc, t)).len() > 0 {
            Some(trim(text_of(doc, t)))
        } else {
            None
        },
        None => None,
    }
}

/// The container of the article and the fallback title: the first
/// `article`, else the first `main`, else the content `div` with the most
/// text, else the `body` together with the document's title.
pub open spec fn container_of(doc: Seq<DomNodeView>) -> (Option<int>, Option<Seq<char>>) {
    if first_in_document(doc, "article"@) is Some {
        (first_in_document(doc, "article"@), None)
    } else if first_in_document(doc, "main"@) is Some {
        (first_in_document(doc, "main"@), None)
    } else if content_div(doc) is Some {
        (content_div(doc), None)
    } else {
        (first_in_document(doc, "body"@), document_title(doc))
    }
}

/// What is chosen among the content `div`s is one of them, none of them
/// holds more text, and none before it holds as much.
pub proof fn lemma_best_div(doc: Seq<DomNodeView>, to: int)
    requires
        0 <= to <= doc.len(),
    ensures
        match best_div_before(doc, to) {
            Some(b) => 0 <= b < to && is_content_div(doc, b) && text_of(doc, b).len() > 0,
            None => true,
        },
        forall|j: int|
            0 <= j < to && #[trigger] is_content_div(doc, j) ==> text_of(doc, j).len()
                <= chosen_len(doc, best_div_before(doc, to)),
        forall|j: int|
            0 <= j < to && #[trigger] is_content_div(doc, j) && best_div_before(doc, to) is Some
                && j < best_div_before(doc, to)->0 ==> text_of(doc, j).len() < chosen_len(
                doc,
                best_div_before(doc, to),
            ),
    decreases to,
{
    if to > 0 {
        lemma_best_div(doc, to - 1);
    }
}

/// The container of a document that holds an `article` element is the
/// first such element, whatever else the document holds, and no fallback
/// title comes with it.
pub proof fn lemma_article_has_precedence(doc: Seq<DomNodeView>, i: int)
    requires
        is_tag(doc, i, "article"@),
    ensures
        container_of(doc).0 is Some,
        is_tag(doc, container_of(doc).0->0, "article"@),
        container_of(doc).0->0 <= i,
        forall|k: int| 0 <= k < container_of(doc).0->0 ==> !is_tag(doc, k, "article"@),
        container_of(doc).1 is None,
{
    lemma_first_tag_between(doc, "article"@, 0, doc.len() as int);
}

/// The container, if there is one, is an element of the document.
pub proof fn lemma_container_is_element(doc: Seq<DomNodeView>)
    ensures
        container_of(doc).0 matches Some(c) ==> crate::dom::is_element(doc, c),
{
    lemma_first_tag_between(doc, "article"@, 0, doc.len() as int);
    lemma_first_tag_between(doc, "main"@, 0, doc.len() as int);
    lemma_first_tag_between(doc, "body"@, 0, doc.len() as int);
    lemma_best_div(doc, doc.len() as int);
}

/// The trimmed text of the document's first `title` element.
pub fn title_of_document(doc: &Document) -> (r: Option<Vec<char>>)
    ensures
        view_opt(r) == document_title(doc@),
{
    match doc.select_first("title") {
        Some(t) => {
            let text = trimmed(&doc.collect_text(t));
            if text.len() > 0 {
                Some(text)
            } else {
                None
            }
        },
        None => None,
    }
}

/// Chooses among content `div`s, given by their place and the amount of
/// their text: the first of those with the most text, if that is at least
/// 200 characters.
pub fn choose_content_div(divs: &Vec<(usize, usize)>) -> (r: Option<usize>)
    ensures
        match r {
            Some(place) => chosen_div(div_views(divs@)) == Some(place as int),
            None => chosen_div(div_views(divs@)) is None,
        },
{
    let ghost all = div_views(divs@);
    let mut best: Option<usize> = None;
    let mut most: usize = 0;
    let mut k: usize = 0;
    assert(all.take(0) == Seq::<(int, nat)>::empty());
    while k < divs.len()
        invariant
            k <= divs.len(),
            all == div_views(divs@),
            match best {
                Some(place) => longest_div(all.take(k as int)) == Some((place as int, most as nat)),
                None => longest_div(all.take(k as int)) is None && most == 0,
            },
        decreases divs.len() - k,
    {
        proof {
            let next = all.take(k + 1);
            assert(next.drop_last() == all.take(k as int));
            assert(next.last() == (divs@[k as int].0 as int, divs@[k as int].1 as nat));
        }
        if divs[k].1 > most {
            most = divs[k].1;
            best = Some(divs[k].0);
        }
        k += 1;
    }
    assert(all.take(divs.len() as int) == all);
    if most >= MIN_TEXT_LEN {
        best
    } else {
        None
    }
}

/// Chooses the element to treat as the article, and the title to fall back
/// on.
pub fn find_container(doc: &Document) -> (r: (Option<usize>, Option<Vec<char>>))
    ensures
        match r.0 {
            Some(c) => container_of(doc@).0 == Some(c as int) && crate::dom::is_element(
                doc@,
                c as int,
            ),
            None => container_of(doc@).0 is None,
        },
        view_opt(r.1) == container_of(doc@).1,
{
    proof {
        lemma_container_is_element(doc@);
    }
    let article = doc.select_first("article");
    if article.is_some() {
        return (article, None);
    }
    let main = doc.select_first("main");
    if main.is_some() {
        return (main, None);
    }
    let keyword = Pattern::compile(KEYWORD_PATTERN);
    let mut divs: Vec<(usize, usize)> = Vec::new();
    let mut j: usize = 0;
    let n = doc.len();
    assert(div_views(divs@) == Seq::<(int, nat)>::empty());
    while j < n
        invariant
            j <= n,
            n == doc@.len(),
            keyword@ == KEYWORD_PATTERN@,
            match longest_div(div_views(divs@)) {
                Some(d) => best_div_before(doc@, j as int) == Some(d.0) && d.1 == text_of(
                    doc@,
                    d.0,
                ).len(),
                None => best_div_before(doc@, j as int) is None,
            },
        decreases n - j,
    {
        if doc.has_tag(j, "div") {
            let e = doc.element(j).unwrap();
            if keyword.is_match(&e.class_id()) {
                let len = doc.collect_text(j).len();
                let ghost before = div_views(divs@);
                divs.push((j, len));
                proof {
                    assert(div_views(divs@) == before.push((j as int, len as nat)));
                    assert(div_views(divs@).drop_last() == before);
                }
            }
        }
        j += 1;
    }
    let chosen = choose_content_div(&divs);
    if chosen.is_some() {
        return (chosen, None);
    }
    let title = title_of_document(doc);
    (doc.select_first("body"), title)
}

} // verus!
