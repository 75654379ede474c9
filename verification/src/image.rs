//! The source of an image element, and the choice among image URLs found
//! in raw markup.

use vstd::prelude::*;
use crate::dom::{ElementData, ElementView};
use crate::links::{join_url, url_join};
use crate::pattern::{regex_first_capture, Pattern};
use crate::query::attr_of;
use crate::srcset::{best_candidate, best_candidate_url};
use crate::text::{eq_str, lowercase, to_lowercase, view_opt};
use crate::words::texts;

verus! {

/// Finds the size token at the end of an image's file name.
pub const IMAGE_SIZE_PATTERN: &'static str = r"(?i)_(xs|s|m|l|xl)(?:\b|\.|_)";

/// The first of two optional values that is there.
pub open spec fn or_else<T>(a: Option<T>, b: Option<T>) -> Option<T> {
    if a is Some {
        a
    } else {
        b
    }
}

/// The value of the first size-specific data attribute that is present.
pub open spec fn sized_source_of(e: ElementView) -> Option<Seq<char>> {
    or_else(
        attr_of(e, "data-original"@),
        or_else(
            attr_of(e, "data-largest"@),
            or_else(
                attr_of(e, "data-large"@),
                or_else(
                    attr_of(e, "data-medium"@),
                    or_else(attr_of(e, "data-small"@), attr_of(e, "data-smallest"@)),
                ),
            ),
        ),
    )
}

/// The best candidate of the attribute `srcset`; of `data-srcset` if there
/// is no `srcset`.
pub open spec fn srcset_source_of(e: ElementView) -> Option<Seq<char>> {
    match or_else(attr_of(e, "srcset"@), attr_of(e, "data-srcset"@)) {
        Some(list) => best_candidate_url(list),
        None => None,
    }
}

/// The source that an image element names, before it is resolved:
/// `data-src`, else `src`, else a size-specific data attribute, else the
/// best candidate of a candidate list.
pub open spec fn source_of(e: ElementView) -> Option<Seq<char>> {
    or_else(
        attr_of(e, "data-src"@),
        or_else(attr_of(e, "src"@), or_else(sized_source_of(e), srcset_source_of(e))),
    )
}

/// The absolute URL of an image element's source; `None` if the element
/// names no source or the source does not resolve against `base`.
pub open spec fn resolved_source(e: ElementView, base: Seq<char>) -> Option<Seq<char>> {
    match source_of(e) {
        Some(src) => url_join(base, src),
        None => None,
    }
}

/// The score of a size token in lower case: `xs`, `s`, `m`, `l`, `xl` score
/// 1 to 5, anything else 0.
pub open spec fn token_score(token: Seq<char>) -> int {
    if token == "xs"@ {
        1
    } else if token == "s"@ {
        2
    } else if token == "m"@ {
        3
    } else if token == "l"@ {
        4
    } else if token == "xl"@ {
        5
    } else {
        0
    }
}

/// The score of an image URL by the size token at the end of its file
/// name; a URL without a token scores 0.
pub open spec fn size_score(url: Seq<char>) -> int {
    match regex_first_capture(IMAGE_SIZE_PATTERN@, url, 1) {
        Some(token) => token_score(lowercase(token)),
        None => 0,
    }
}

/// The last index at which `scores` is greatest; 0 for no scores.
pub open spec fn last_max(scores: Seq<int>) -> int
    decreases scores.len(),
{
    if scores.len() <= 1 {
        0
    } else {
        let m = last_max(scores.drop_last());
        if scores.last() >= scores[m] {
            scores.len() - 1
        } else {
            m
        }
    }
}

/// Index `m` holds the greatest of the scores, and every later score is
/// smaller.
pub open spec fn is_last_max(scores: Seq<int>, m: int) -> bool {
    &&& 0 <= m < scores.len()
    &&& forall|j: int| 0 <= j < scores.len() ==> #[trigger] scores[j] <= scores[m]
    &&& forall|j: int| m < j < scores.len() ==> #[trigger] scores[j] < scores[m]
}

/// `last_max` is an index of the greatest score, and every later score is
/// smaller.
pub proof fn lemma_last_max(scores: Seq<int>)
    requires
        scores.len() > 0,
    ensures
        is_last_max(scores, last_max(scores)),
    decreases scores.len(),
{
    if scores.len() > 1 {
        let init = scores.drop_last();
        lemma_last_max(init);
        let m = last_max(init);
        let r = last_max(scores);
        assert(init[m] == scores[m]);
        assert forall|j: int| 0 <= j < scores.len() implies #[trigger] scores[j] <= scores[r] by {
            if j < init.len() {
                assert(init[j] == scores[j]);
            }
        }
        assert forall|j: int| r < j < scores.len() implies #[trigger] scores[j] < scores[r] by {
            if j < init.len() {
                assert(init[j] == scores[j]);
            }
        }
    }
}

/// The index of the best of the scores: the highest, the later one among
/// equals.
pub fn pick_last_max(scores: &Vec<i128>) -> (m: usize)
    requires
        scores.len() > 0,
    ensures
        m == last_max(scores@.map_values(|x: i128| x as int)),
        m < scores.len(),
{
    let ghost all = scores@.map_values(|x: i128| x as int);
    let mut m: usize = 0;
    let mut j: usize = 1;
    assert(last_max(all.take(1)) == 0);
    while j < scores.len()
        invariant
            1 <= j <= scores.len(),
            m < j,
            all == scores@.map_values(|x: i128| x as int),
            m == last_max(all.take(j as int)),
        decreases scores.len() - j,
    {
        proof {
            let next = all.take(j + 1);
            assert(next.drop_last() == all.take(j as int));
            assert(next.last() == scores@[j as int]);
            assert(next[m as int] == scores@[m as int]);
        }
        if scores[j] >= scores[m] {
            m = j;
        }
        j += 1;
    }
    assert(all.take(scores.len() as int) == all);
    m
}

/// The size score of each URL.
pub open spec fn size_scores(urls: Seq<Seq<char>>) -> Seq<int> {
    Seq::new(urls.len(), |i: int| size_score(urls[i]))
}

/// The best of the URLs: the one with the highest size score, the later
/// one among equals.
pub open spec fn best_image_url(urls: Seq<Seq<char>>) -> Option<Seq<char>> {
    if urls.len() == 0 {
        None
    } else {
        Some(urls[last_max(size_scores(urls))])
    }
}

/// What was found, or else the value of the attribute `name`.
fn first_of(a: Option<Vec<char>>, e: &ElementData, name: &str) -> (r: Option<Vec<char>>)
    ensures
        view_opt(r) == or_else(view_opt(a), attr_of(e@, name@)),
{
    if a.is_some() {
        a
    } else {
        e.attr(name)
    }
}

/// Resolves the best source of an image element to an absolute URL.
pub fn resolve_img_src(e: &ElementData, base: &Vec<char>) -> (r: Option<Vec<char>>)
    ensures
        view_opt(r) == resolved_source(e@, base@),
{
    let direct = first_of(e.attr("data-src"), e, "src");
    let src = if direct.is_some() {
        direct
    } else {
        let mut sized = e.attr("data-original");
        sized = first_of(sized, e, "data-largest");
        sized = first_of(sized, e, "data-large");
        sized = first_of(sized, e, "data-medium");
        sized = first_of(sized, e, "data-small");
        sized = first_of(sized, e, "data-smallest");
        if sized.is_some() {
            sized
        } else {
            match first_of(e.attr("srcset"), e, "data-srcset") {
                Some(list) => best_candidate(&list),
                None => None,
            }
        }
    };
    match src {
        Some(s) => join_url(base, &s),
        None => None,
    }
}

/// Scores an image URL by its size token.
pub fn score_image_url(url: &Vec<char>) -> (r: i32)
    ensures
        r == size_score(url@),
{
    score_with(&Pattern::compile(IMAGE_SIZE_PATTERN), url)
}

/// Scores an image URL by its size token, with the pattern for size tokens
/// at hand.
fn score_with(size: &Pattern, url: &Vec<char>) -> (r: i32)
    requires
        size@ == IMAGE_SIZE_PATTERN@,
    ensures
        r == size_score(url@),
{
    match size.first_capture(url, 1) {
        Some(token) => score_size_token(&to_lowercase(&token)),
        None => 0,
    }
}

/// Scores a size token in lower case.
pub fn score_size_token(token: &Vec<char>) -> (r: i32)
    ensures
        r == token_score(token@),
{
    if eq_str(token, "xs") {
        1
    } else if eq_str(token, "s") {
        2
    } else if eq_str(token, "m") {
        3
    } else if eq_str(token, "l") {
        4
    } else if eq_str(token, "xl") {
        5
    } else {
        0
    }
}

/// Picks the best of the URLs by size score.
pub fn pick_best_image_url(urls: &Vec<Vec<char>>) -> (r: Option<Vec<char>>)
    ensures
        view_opt(r) == best_image_url(texts(urls@)),
{
    if urls.len() == 0 {
        return None;
    }
    let size = Pattern::compile(IMAGE_SIZE_PATTERN);
    let mut scores: Vec<i128> = Vec::new();
    let mut i: usize = 0;
    while i < urls.len()
        invariant
            i <= urls.len(),
            scores.len() == i,
            size@ == IMAGE_SIZE_PATTERN@,
            forall|k: int| 0 <= k < i ==> #[trigger] scores@[k] == size_score(urls@[k]@),
        decreases urls.len() - i,
    {
        let s = score_with(&size, &urls[i]);
        scores.push(s as i128);
        i += 1;
    }
    let m = pick_last_max(&scores);
    assert(size_scores(texts(urls@)) =~= scores@.map_values(|x: i128| x as int));
    Some(crate::text::copy_range(&urls[m], 0, urls[m].len()))
}

} // verus!
