//! Finishing the rendered text: blank-line runs, the leading heading, and
//! the place of a fallback image.

use vstd::prelude::*;
use crate::models::{ImageInfo, ImageView};
use crate::text::{blank, chars_eq, chars_of, copy_range, has_prefix, is_blank, is_trimmed};
use crate::text::is_whitespace;
use crate::text::{lemma_trim_window, push_all, push_str, starts_with, string_of, trim, trimmed};

verus! {

/// `s` without every line feed that follows two line feeds: a run of three
/// or more becomes a run of two.
pub open spec fn collapse_newlines(s: Seq<char>) -> Seq<char>
    decreases s.len(),
{
    if s.len() == 0 {
        Seq::empty()
    } else {
        let init = s.drop_last();
        if s.last() == '\n' && init.len() >= 2 && init[init.len() - 1] == '\n' && init[init.len()
            - 2] == '\n' {
            collapse_newlines(init)
        } else {
            collapse_newlines(init).push(s.last())
        }
    }
}

/// No three line feeds stand in a row in `s`.
pub open spec fn no_blank_run(s: Seq<char>) -> bool {
    forall|i: int|
        0 <= i && i + 2 < s.len() ==> !(#[trigger] s[i] == '\n' && s[i + 1] == '\n' && s[i + 2]
            == '\n')
}

/// The rendered text as it is handed on: blank-line runs collapsed, then
/// trimmed.
pub open spec fn tidy(s: Seq<char>) -> Seq<char> {
    trim(collapse_newlines(s))
}

/// The number of line feeds at the end of `s`.
pub open spec fn trailing_newlines(s: Seq<char>) -> nat
    decreases s.len(),
{
    if s.len() > 0 && s.last() == '\n' {
        trailing_newlines(s.drop_last()) + 1
    } else {
        0
    }
}

/// The markup of an image reference.
pub open spec fn image_reference(alt: Seq<char>, url: Seq<char>) -> Seq<char> {
    "!["@ + alt + "]("@ + url + ")"@
}

/// The index of the first line feed at or behind `from`, or the length of
/// the text if there is none.
pub open spec fn line_end(s: Seq<char>, from: int) -> int
    decreases s.len() - from,
{
    if from < 0 || from >= s.len() {
        s.len() as int
    } else if s[from] == '\n' {
        from
    } else {
        line_end(s, from + 1)
    }
}

/// The length of the line that begins at `from`. The line ends before its
/// line feed, and before a carriage return that stands right before that
/// line feed; a last line without a line feed ends with the text.
pub open spec fn line_len(s: Seq<char>, from: int) -> int {
    let e = line_end(s, from);
    if e < s.len() && from < e && s[e - 1] == '\r' {
        e - 1 - from
    } else {
        e - from
    }
}

/// The line that begins at `from`, without its line ending.
pub open spec fn line_at(s: Seq<char>, from: int) -> Seq<char> {
    s.subrange(from, from + line_len(s, from))
}

/// Where the first line that is not blank begins, among the lines from the
/// one that begins at `from`; the length of the text if all are blank.
pub open spec fn first_text_line(s: Seq<char>, from: int) -> int
    decreases s.len() - from,
{
    if from < 0 || from >= s.len() {
        s.len() as int
    } else if !is_blank(line_at(s, from)) {
        from
    } else if line_end(s, from) < from || line_end(s, from) >= s.len() {
        s.len() as int
    } else {
        first_text_line(s, line_end(s, from) + 1)
    }
}

/// The text with its leading heading made to match the title: if the first
/// line that is not blank is the bare title, that line becomes a level-1
/// heading of the title. Nothing but that line changes: what stands before
/// it and what stands behind it, line endings included, stays as it is.
/// Any other text stays as it is altogether.
pub open spec fn with_title(markdown: Seq<char>, title: Seq<char>) -> Seq<char> {
    let a = first_text_line(markdown, 0);
    if a < markdown.len() && trim(line_at(markdown, a)) == title {
        markdown.take(a) + ("# "@ + title) + markdown.skip(a + line_len(markdown, a))
    } else {
        markdown
    }
}

/// The text with a fallback image put in. If the first line that is not
/// blank is a heading, the text is cut behind that line: the image
/// reference follows the part up to the cut, and the part behind the cut,
/// trimmed, follows the reference if anything is left of it. Otherwise the
/// reference stands before the whole text. A blank text becomes the image
/// reference alone.
pub open spec fn with_fallback_image(markdown: Seq<char>, image: ImageView) -> Seq<char> {
    let reference = image_reference(
        match image.alt {
            Some(alt) => alt,
            None => Seq::empty(),
        },
        image.url,
    );
    let a = first_text_line(markdown, 0);
    let cut = a + line_len(markdown, a);
    if is_blank(markdown) {
        reference
    } else if a < markdown.len() && has_prefix(line_at(markdown, a), "# "@) {
        let head = markdown.take(cut);
        let tail = trim(markdown.skip(cut));
        if tail.len() > 0 {
            head + "\n\n"@ + reference + "\n\n"@ + tail
        } else {
            head + "\n\n"@ + reference
        }
    } else {
        reference + "\n\n"@ + markdown
    }
}

/// The line feeds at the end of a text are that many, they stand at its
/// end, and no line feed stands right before them.
pub proof fn lemma_trailing_newlines(s: Seq<char>)
    ensures
        trailing_newlines(s) <= s.len(),
        forall|i: int| s.len() - trailing_newlines(s) <= i < s.len() ==> s[i] == '\n',
        trailing_newlines(s) < s.len() ==> s[s.len() - trailing_newlines(s) - 1] != '\n',
    decreases s.len(),
{
    if s.len() > 0 && s.last() == '\n' {
        let init = s.drop_last();
        lemma_trailing_newlines(init);
        assert forall|i: int| s.len() - trailing_newlines(s) <= i < s.len() implies s[i]
            == '\n' by {
            if i < init.len() {
                assert(init[i] == s[i]);
            }
        }
        if trailing_newlines(s) < s.len() {
            assert(init[init.len() - trailing_newlines(init) - 1] == s[s.len()
                - trailing_newlines(s) - 1]);
        }
    }
}

/// Collapsing leaves no run of three line feeds, and at the end of the text
/// as many line feeds as before, up to two.
pub proof fn lemma_collapse_newlines(s: Seq<char>)
    ensures
        no_blank_run(collapse_newlines(s)),
        trailing_newlines(collapse_newlines(s)) == if trailing_newlines(s) < 2 {
            trailing_newlines(s)
        } else {
            2
        },
    decreases s.len(),
{
    if s.len() > 0 {
        let init = s.drop_last();
        let c = s.last();
        let t = collapse_newlines(init);
        lemma_collapse_newlines(init);
        lemma_trailing_newlines(init);
        lemma_trailing_newlines(t);
        if c == '\n' && init.len() >= 2 && init[init.len() - 1] == '\n' && init[init.len() - 2]
            == '\n' {
            assert(init.drop_last().last() == init[init.len() - 2]);
            assert(trailing_newlines(init) >= 2) by {
                reveal_with_fuel(trailing_newlines, 3);
            }
        } else {
            let r = t.push(c);
            assert(r.drop_last() == t);
            assert(r.last() == c);
            if c == '\n' {
                if trailing_newlines(init) >= 2 {
                    assert(init[init.len() - 1] == '\n');
                    assert(init[init.len() - 2] == '\n');
                }
            }
            assert forall|i: int| 0 <= i && i + 2 < r.len() implies !(#[trigger] r[i] == '\n'
                && r[i + 1] == '\n' && r[i + 2] == '\n') by {
                if i + 2 < t.len() {
                    assert(t[i] == r[i]);
                } else if c == '\n' && r[i] == '\n' && r[i + 1] == '\n' {
                    assert(t[t.len() - 1] == '\n');
                    assert(t[t.len() - 2] == '\n');
                    assert(t.drop_last().last() == t[t.len() - 2]);
                    assert(trailing_newlines(t) >= 2) by {
                        reveal_with_fuel(trailing_newlines, 3);
                    }
                }
            }
        }
    }
}

/// A window cut out of a text without blank-line runs has none either.
pub proof fn lemma_no_blank_run_subrange(s: Seq<char>, a: int, b: int)
    requires
        no_blank_run(s),
        0 <= a <= b <= s.len(),
    ensures
        no_blank_run(s.subrange(a, b)),
{
    let t = s.subrange(a, b);
    assert forall|i: int| 0 <= i && i + 2 < t.len() implies !(#[trigger] t[i] == '\n' && t[i + 1]
        == '\n' && t[i + 2] == '\n') by {
        assert(s[a + i] == t[i]);
    }
}

/// The tidied text holds no run of three line feeds and neither begins nor
/// ends with whitespace.
pub proof fn lemma_tidy(s: Seq<char>)
    ensures
        no_blank_run(tidy(s)),
        is_trimmed(tidy(s)),
{
    let c = collapse_newlines(s);
    lemma_collapse_newlines(s);
    let w = lemma_trim_window(c);
    lemma_no_blank_run_subrange(c, w.0, w.1);
}

/// Collapsing changes nothing of a text without a run of three line feeds.
pub proof fn lemma_collapse_of_neat(s: Seq<char>)
    requires
        no_blank_run(s),
    ensures
        collapse_newlines(s) == s,
    decreases s.len(),
{
    if s.len() > 0 {
        let init = s.drop_last();
        assert forall|i: int| 0 <= i && i + 2 < init.len() implies !(#[trigger] init[i] == '\n'
            && init[i + 1] == '\n' && init[i + 2] == '\n') by {
            assert(init[i] == s[i] && init[i + 1] == s[i + 1] && init[i + 2] == s[i + 2]);
        }
        lemma_collapse_of_neat(init);
        if init.len() >= 2 {
            assert(init[init.len() - 1] == s[s.len() - 2]);
            assert(init[init.len() - 2] == s[s.len() - 3]);
            assert(s.last() == s[s.len() - 1]);
            assert(!(s[s.len() - 3] == '\n' && s[s.len() - 2] == '\n' && s[s.len() - 1]
                == '\n'));
        }
        assert(init.push(s.last()) == s);
    }
}

/// Tidying changes nothing of a text that holds no run of three line feeds
/// and neither begins nor ends with whitespace.
pub proof fn lemma_tidy_of_neat(s: Seq<char>)
    requires
        no_blank_run(s),
        is_trimmed(s),
    ensures
        tidy(s) == s,
{
    lemma_collapse_of_neat(s);
}

/// `s` holds no line feed.
pub open spec fn no_line_feed(s: Seq<char>) -> bool {
    forall|i: int| 0 <= i < s.len() ==> #[trigger] s[i] != '\n'
}

/// A text is neat if it holds no run of three line feeds and neither
/// begins nor ends with whitespace.
pub open spec fn is_neat(s: Seq<char>) -> bool {
    no_blank_run(s) && is_trimmed(s)
}

/// Two texts without blank-line runs, set apart by a blank line, make a
/// text without blank-line runs, if the first does not end and the second
/// does not begin with a line feed.
pub proof fn lemma_paragraphs(a: Seq<char>, b: Seq<char>)
    requires
        no_blank_run(a),
        no_blank_run(b),
        a.len() > 0,
        a.last() != '\n',
        b.len() > 0,
        b[0] != '\n',
    ensures
        no_blank_run(a + "\n\n"@ + b),
        (a + "\n\n"@ + b).len() == a.len() + 2 + b.len(),
        (a + "\n\n"@ + b)[0] == a[0],
        (a + "\n\n"@ + b).last() == b.last(),
{
    reveal_strlit("\n\n");
    let r = a + "\n\n"@ + b;
    assert forall|i: int| 0 <= i && i + 2 < r.len() implies !(#[trigger] r[i] == '\n' && r[i + 1]
        == '\n' && r[i + 2] == '\n') by {
        if i + 2 < a.len() {
            assert(r[i] == a[i] && r[i + 1] == a[i + 1] && r[i + 2] == a[i + 2]);
        } else if i >= a.len() + 2 {
            let k = i - a.len() - 2;
            assert(r[i] == b[k] && r[i + 1] == b[k + 1] && r[i + 2] == b[k + 2]);
        } else if i + 2 >= a.len() + 2 {
            assert(r[(a.len() + 2) as int] == b[0]);
            if i == a.len() - 1 {
                assert(r[i] == a[a.len() - 1]);
            }
        } else {
            assert(r[a.len() - 1] == a[a.len() - 1]);
        }
    }
}

/// A line ends at or behind its start and within the text, no line feed
/// stands in it, and a line feed stands at its end unless the text ends
/// there.
pub proof fn lemma_line_end(s: Seq<char>, from: int)
    requires
        0 <= from <= s.len(),
    ensures
        from <= line_end(s, from) <= s.len(),
        forall|j: int| from <= j < line_end(s, from) ==> #[trigger] s[j] != '\n',
        line_end(s, from) < s.len() ==> s[line_end(s, from)] == '\n',
    decreases s.len() - from,
{
    if from < s.len() && s[from] != '\n' {
        lemma_line_end(s, from + 1);
    }
}

/// A line lies within the text and holds no line feed.
pub proof fn lemma_line_at(s: Seq<char>, from: int)
    requires
        0 <= from <= s.len(),
    ensures
        0 <= line_len(s, from),
        from + line_len(s, from) <= line_end(s, from) <= s.len(),
        line_at(s, from).len() == line_len(s, from),
        no_line_feed(line_at(s, from)),
{
    lemma_line_end(s, from);
    let line = line_at(s, from);
    assert forall|i: int| 0 <= i < line.len() implies #[trigger] line[i] != '\n' by {
        assert(line[i] == s[from + i]);
    }
}

/// The first line that is not blank begins within the text or the text ends
/// without one; if there is one, it is not blank.
pub proof fn lemma_first_text_line(s: Seq<char>, from: int)
    requires
        0 <= from <= s.len(),
    ensures
        from <= first_text_line(s, from) <= s.len(),
        first_text_line(s, from) < s.len() ==> !is_blank(line_at(s, first_text_line(s, from))),
    decreases s.len() - from,
{
    if from < s.len() && is_blank(line_at(s, from)) {
        lemma_line_end(s, from);
        if line_end(s, from) < s.len() {
            lemma_first_text_line(s, line_end(s, from) + 1);
        }
    }
}

/// The heading for a line that is not blank and holds no line feed: it
/// holds no line feed, begins with a number sign and ends with a character
/// that is no whitespace.
pub proof fn lemma_heading_of_line(line: Seq<char>)
    requires
        !is_blank(line),
        no_line_feed(line),
    ensures
        ("# "@ + trim(line)).len() >= 3,
        no_line_feed("# "@ + trim(line)),
        ("# "@ + trim(line))[0] == '#',
        !is_whitespace(("# "@ + trim(line)).last()),
{
    let title = trim(line);
    let heading = "# "@ + title;
    reveal_strlit("# ");
    let w = lemma_trim_window(line);
    crate::text::lemma_trim_empty_iff_blank(line);
    assert(title.len() > 0);
    assert(heading.len() == 2 + title.len());
    assert(heading[0] == '#');
    assert(heading[1] == ' ');
    assert(heading.last() == title.last());
    assert forall|i: int| 0 <= i < heading.len() implies #[trigger] heading[i] != '\n' by {
        if i >= 2 {
            assert(heading[i] == title[i - 2]);
            assert(title[i - 2] == line[w.0 + i - 2]);
        }
    }
}

/// A text into which a piece without line feeds is set, in place of a
/// stretch of the text, holds no run of three line feeds if the text held
/// none and the piece is not empty.
pub proof fn lemma_piece_set_in(md: Seq<char>, a: int, cut: int, piece: Seq<char>)
    requires
        no_blank_run(md),
        0 <= a <= cut <= md.len(),
        piece.len() > 0,
        no_line_feed(piece),
    ensures
        no_blank_run(md.take(a) + piece + md.skip(cut)),
{
    let r = md.take(a) + piece + md.skip(cut);
    assert forall|i: int| 0 <= i && i + 2 < r.len() implies !(#[trigger] r[i] == '\n' && r[i + 1]
        == '\n' && r[i + 2] == '\n') by {
        if i + 2 < a {
            assert(r[i] == md[i] && r[i + 1] == md[i + 1] && r[i + 2] == md[i + 2]);
        } else if i >= a + piece.len() {
            let j = i - a - piece.len() + cut;
            assert(r[i] == md[j] && r[i + 1] == md[j + 1] && r[i + 2] == md[j + 2]);
        } else if i >= a {
            assert(r[i] == piece[i - a]);
        } else if i + 1 >= a {
            assert(r[i + 1] == piece[i + 1 - a]);
        } else {
            assert(r[i + 2] == piece[i + 2 - a]);
        }
    }
}

/// Making the heading match the title brings no run of three line feeds
/// into a text that held none.
pub proof fn lemma_with_title_no_blank_run(md: Seq<char>, title: Seq<char>)
    requires
        no_blank_run(md),
    ensures
        no_blank_run(with_title(md, title)),
{
    let a = first_text_line(md, 0);
    lemma_first_text_line(md, 0);
    if a < md.len() && trim(line_at(md, a)) == title {
        lemma_line_at(md, a);
        lemma_heading_of_line(line_at(md, a));
        lemma_piece_set_in(md, a, a + line_len(md, a), "# "@ + title);
    }
}

/// Making the heading match the title keeps a trimmed text trimmed.
pub proof fn lemma_with_title_trimmed(md: Seq<char>, title: Seq<char>)
    requires
        is_trimmed(md),
    ensures
        is_trimmed(with_title(md, title)),
{
    let a = first_text_line(md, 0);
    lemma_first_text_line(md, 0);
    if a < md.len() && trim(line_at(md, a)) == title {
        lemma_line_at(md, a);
        lemma_heading_of_line(line_at(md, a));
        let heading = "# "@ + title;
        let cut = a + line_len(md, a);
        let r = md.take(a) + heading + md.skip(cut);
        assert(!is_whitespace('#'));
        if a > 0 {
            assert(r[0] == md[0]);
        } else {
            assert(r[0] == heading[0]);
        }
        if cut < md.len() {
            assert(r.last() == md.last());
        } else {
            assert(r.last() == heading.last());
        }
    }
}

/// An image reference begins with an exclamation mark and ends with a
/// closing bracket.
pub proof fn lemma_image_reference_ends(alt: Seq<char>, url: Seq<char>)
    ensures
        image_reference(alt, url).len() >= 5,
        image_reference(alt, url)[0] == '!',
        image_reference(alt, url).last() == ')',
{
    reveal_strlit("![");
    reveal_strlit("](");
    reveal_strlit(")");
}

/// The parts of a text that is cut behind its heading line: the part up to
/// the cut is not empty and does not end with a line feed, and both parts
/// are stretches of the text.
pub proof fn lemma_cut_behind_heading(md: Seq<char>) -> (w: (int, int))
    requires
        first_text_line(md, 0) < md.len(),
        has_prefix(line_at(md, first_text_line(md, 0)), "# "@),
    ensures
        ({
            let cut = first_text_line(md, 0) + line_len(md, first_text_line(md, 0));
            &&& 0 < cut <= md.len()
            &&& md.take(cut).last() != '\n'
            &&& md.take(cut)[0] == md[0]
            &&& cut <= w.0 <= w.1 <= md.len()
            &&& trim(md.skip(cut)) == md.subrange(w.0, w.1)
        }),
{
    let a = first_text_line(md, 0);
    lemma_first_text_line(md, 0);
    lemma_line_at(md, a);
    reveal_strlit("# ");
    let line = line_at(md, a);
    let cut = a + line_len(md, a);
    assert(line.len() >= 2);
    assert(md.take(cut).last() == line.last());
    assert(line.last() == line[line.len() - 1]);
    let rest = md.skip(cut);
    let v = lemma_trim_window(rest);
    assert(rest.subrange(v.0, v.1) == md.subrange(cut + v.0, cut + v.1));
    (cut + v.0, cut + v.1)
}

/// Putting in a fallback image keeps a trimmed text trimmed.
pub proof fn lemma_with_fallback_image_trimmed(md: Seq<char>, image: ImageView)
    requires
        is_trimmed(md),
    ensures
        is_trimmed(with_fallback_image(md, image)),
{
    let alt = match image.alt {
        Some(alt) => alt,
        None => Seq::empty(),
    };
    let reference = image_reference(alt, image.url);
    lemma_image_reference_ends(alt, image.url);
    reveal_strlit("\n\n");
    assert(!is_whitespace('!'));
    assert(!is_whitespace(')'));
    let a = first_text_line(md, 0);
    let r = with_fallback_image(md, image);
    if is_blank(md) {
    } else {
        assert(md.len() > 0);
        if a < md.len() && has_prefix(line_at(md, a), "# "@) {
            let w = lemma_cut_behind_heading(md);
            let cut = a + line_len(md, a);
            let head = md.take(cut);
            let tail = trim(md.skip(cut));
            let first = head + "\n\n"@ + reference;
            assert(first[0] == head[0]);
            assert(first.last() == reference.last());
            if tail.len() > 0 {
                let v = lemma_trim_window(md.skip(cut));
                assert(r == first + "\n\n"@ + tail);
                assert(r[0] == first[0]);
                assert(r.last() == tail.last());
            } else {
                assert(r == first);
            }
        } else {
            assert(r == reference + "\n\n"@ + md);
            assert(r[0] == reference[0]);
            assert(r.last() == md.last());
        }
    }
}

/// Putting in a fallback image whose reference holds no run of three line
/// feeds brings none into a neat text.
pub proof fn lemma_with_fallback_image_no_blank_run(md: Seq<char>, image: ImageView)
    requires
        is_neat(md),
        no_blank_run(
            image_reference(
                match image.alt {
                    Some(alt) => alt,
                    None => Seq::empty(),
                },
                image.url,
            ),
        ),
    ensures
        no_blank_run(with_fallback_image(md, image)),
{
    let alt = match image.alt {
        Some(alt) => alt,
        None => Seq::empty(),
    };
    let reference = image_reference(alt, image.url);
    lemma_image_reference_ends(alt, image.url);
    assert(is_whitespace('\n'));
    let a = first_text_line(md, 0);
    let r = with_fallback_image(md, image);
    if is_blank(md) {
    } else {
        assert(md.len() > 0);
        if a < md.len() && has_prefix(line_at(md, a), "# "@) {
            let w = lemma_cut_behind_heading(md);
            let cut = a + line_len(md, a);
            let head = md.take(cut);
            let tail = trim(md.skip(cut));
            assert(head == md.subrange(0, cut));
            lemma_no_blank_run_subrange(md, 0, cut);
            lemma_paragraphs(head, reference);
            let first = head + "\n\n"@ + reference;
            if tail.len() > 0 {
                let v = lemma_trim_window(md.skip(cut));
                lemma_no_blank_run_subrange(md, w.0, w.1);
                lemma_paragraphs(first, tail);
                assert(r == first + "\n\n"@ + tail);
            } else {
                assert(r == first);
            }
        } else {
            lemma_paragraphs(reference, md);
            assert(r == reference + "\n\n"@ + md);
        }
    }
}

/// Collapses every run of three or more line feeds to two and trims the
/// text.
pub fn tidy_markdown(s: &Vec<char>) -> (r: Vec<char>)
    ensures
        r@ == tidy(s@),
        no_blank_run(r@),
        is_trimmed(r@),
{
    let mut out: Vec<char> = Vec::new();
    let mut i: usize = 0;
    assert(s@.take(0) == Seq::<char>::empty());
    while i < s.len()
        invariant
            i <= s.len(),
            out@ == collapse_newlines(s@.take(i as int)),
        decreases s.len() - i,
    {
        let c = s[i];
        proof {
            let next = s@.take(i + 1);
            let init = s@.take(i as int);
            assert(next.drop_last() == init);
            assert(next.last() == c);
            if i >= 2 {
                assert(init[init.len() - 1] == s@[i - 1]);
                assert(init[init.len() - 2] == s@[i - 2]);
            }
        }
        if !(c == '\n' && i >= 2 && s[i - 1] == '\n' && s[i - 2] == '\n') {
            out.push(c);
        }
        i += 1;
    }
    assert(s@.take(s.len() as int) == s@);
    proof {
        lemma_tidy(s@);
    }
    trimmed(&out)
}

/// The index of the first line feed at or behind `from`.
fn line_end_at(s: &Vec<char>, from: usize) -> (e: usize)
    requires
        from <= s.len(),
    ensures
        e == line_end(s@, from as int),
        from <= e <= s.len(),
{
    let mut e: usize = from;
    while e < s.len() && s[e] != '\n'
        invariant
            from <= e <= s.len(),
            line_end(s@, from as int) == line_end(s@, e as int),
        decreases s.len() - e,
    {
        e += 1;
    }
    e
}

/// The length of the line that begins at `from`.
fn line_len_at(s: &Vec<char>, from: usize) -> (n: usize)
    requires
        from <= s.len(),
    ensures
        n == line_len(s@, from as int),
        from + n <= s.len(),
{
    let e = line_end_at(s, from);
    if e < s.len() && from < e && s[e - 1] == '\r' {
        e - 1 - from
    } else {
        e - from
    }
}

/// Where the first line that is not blank begins.
fn find_text_line(s: &Vec<char>) -> (a: usize)
    ensures
        a == first_text_line(s@, 0),
        a <= s.len(),
{
    let mut from: usize = 0;
    while from < s.len()
        invariant
            from <= s.len(),
            first_text_line(s@, 0) == first_text_line(s@, from as int),
        decreases s.len() - from,
    {
        let n = line_len_at(s, from);
        let line = copy_range(s, from, from + n);
        if !blank(&line) {
            return from;
        }
        let e = line_end_at(s, from);
        if e >= s.len() {
            return s.len();
        }
        from = e + 1;
    }
    from
}

/// The markup of an image reference.
pub fn image_markup(alt: &Vec<char>, url: &Vec<char>) -> (r: Vec<char>)
    ensures
        r@ == image_reference(alt@, url@),
{
    let mut r: Vec<char> = Vec::new();
    push_str(&mut r, "![");
    push_all(&mut r, alt);
    push_str(&mut r, "](");
    push_all(&mut r, url);
    push_str(&mut r, ")");
    assert(r@ == Seq::<char>::empty() + "!["@ + alt@ + "]("@ + url@ + ")"@);
    assert(Seq::<char>::empty() + "!["@ == "!["@);
    r
}

/// Makes the leading heading of a text match the title.
pub fn retitle(text: Vec<char>, title: &Vec<char>) -> (r: Vec<char>)
    ensures
        r@ == with_title(text@, title@),
{
    let a = find_text_line(&text);
    if a < text.len() {
        let n = line_len_at(&text, a);
        let line = copy_range(&text, a, a + n);
        if chars_eq(&trimmed(&line), title) {
            let mut r = copy_range(&text, 0, a);
            push_str(&mut r, "# ");
            push_all(&mut r, title);
            push_all(&mut r, &copy_range(&text, a + n, text.len()));
            assert(text@.subrange(0, a as int) == text@.take(a as int));
            assert(text@.subrange(a + n, text.len() as int) == text@.skip(a + n));
            assert(r@ == text@.take(a as int) + ("# "@ + title@) + text@.skip(a + n));
            return r;
        }
    }
    text
}

/// Puts a fallback image into a text.
pub fn place_fallback_image(text: Vec<char>, image: &ImageInfo) -> (r: Vec<char>)
    ensures
        r@ == with_fallback_image(text@, image@),
{
    let alt = match &image.alt {
        Some(a) => chars_of(a.as_str()),
        None => Vec::new(),
    };
    let url = chars_of(image.url.as_str());
    let reference = image_markup(&alt, &url);
    if blank(&text) {
        return reference;
    }
    let a = find_text_line(&text);
    let mut r: Vec<char> = Vec::new();
    if a < text.len() {
        let n = line_len_at(&text, a);
        let line = copy_range(&text, a, a + n);
        if starts_with(&line, &chars_of("# ")) {
            let head = copy_range(&text, 0, a + n);
            let tail = trimmed(&copy_range(&text, a + n, text.len()));
            assert(text@.subrange(0, a + n) == text@.take(a + n));
            assert(text@.subrange(a + n, text.len() as int) == text@.skip(a + n));
            push_all(&mut r, &head);
            push_str(&mut r, "\n\n");
            push_all(&mut r, &reference);
            if tail.len() > 0 {
                push_str(&mut r, "\n\n");
                push_all(&mut r, &tail);
            }
            assert(Seq::<char>::empty() + head@ == head@);
            return r;
        }
    }
    push_all(&mut r, &reference);
    push_str(&mut r, "\n\n");
    push_all(&mut r, &text);
    assert(Seq::<char>::empty() + reference@ == reference@);
    r
}

/// Makes the leading heading match the title: if the first line that is
/// not blank is the bare title, that line becomes a level-1 heading of the
/// title and nothing else changes; any other text is handed back as it is.
pub fn ensure_markdown_title(markdown: &str, title: &str) -> (r: String)
    ensures
        r@ == with_title(markdown@, title@),
{
    string_of(&retitle(chars_of(markdown), &chars_of(title)))
}

/// Puts a fallback image into the text: behind the leading heading if
/// there is one, with the text cut behind the heading line; before all
/// content otherwise. A blank text becomes the image reference alone.
pub fn insert_fallback_image(markdown: &str, image: &ImageInfo) -> (r: String)
    ensures
        r@ == with_fallback_image(markdown@, image@),
{
    string_of(&place_fallback_image(chars_of(markdown), image))
}

} // verus!
