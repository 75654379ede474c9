//! Splitting text into words, pieces and lines, and joining it again.

use vstd::prelude::*;
use crate::text::{char_is_whitespace, copy_range, is_whitespace, push_all};

verus! {

/// The maximal runs of non-whitespace characters of `s`, in order.
pub open spec fn words(s: Seq<char>) -> Seq<Seq<char>>
    decreases s.len(),
{
    if s.len() == 0 {
        Seq::empty()
    } else {
        let init = s.drop_last();
        let w = words(init);
        if is_whitespace(s.last()) {
            w
        } else if init.len() > 0 && !is_whitespace(init.last()) && w.len() > 0 {
            w.drop_last().push(w.last().push(s.last()))
        } else {
            w.push(seq![s.last()])
        }
    }
}

/// The pieces of `s` between occurrences of `d`; there is always one piece
/// more than there are occurrences.
pub open spec fn split_on(s: Seq<char>, d: char) -> Seq<Seq<char>>
    decreases s.len(),
{
    if s.len() == 0 {
        seq![Seq::empty()]
    } else {
        let p = split_on(s.drop_last(), d);
        if s.last() == d {
            p.push(Seq::empty())
        } else {
            p.drop_last().push(p.last().push(s.last()))
        }
    }
}

/// The parts, with `sep` between each two neighbours.
pub open spec fn join(parts: Seq<Seq<char>>, sep: Seq<char>) -> Seq<char>
    decreases parts.len(),
{
    if parts.len() == 0 {
        Seq::empty()
    } else if parts.len() == 1 {
        parts[0]
    } else {
        join(parts.drop_last(), sep) + sep + parts.last()
    }
}

/// The words of `s` with one space between each two: whitespace runs are
/// collapsed and the ends trimmed.
pub open spec fn normalize(s: Seq<char>) -> Seq<char> {
    join(words(s), seq![' '])
}

/// `l` without one carriage return at its end.
pub open spec fn strip_cr(l: Seq<char>) -> Seq<char> {
    if l.len() > 0 && l.last() == '\r' {
        l.drop_last()
    } else {
        l
    }
}

/// The lines of `s`. A line ends at a line feed; a carriage return just
/// before that line feed belongs to the line ending. A last line without a
/// line feed counts as a line unless it is empty.
pub open spec fn lines(s: Seq<char>) -> Seq<Seq<char>> {
    let p = split_on(s, '\n');
    let n = if p.last().len() == 0 {
        p.len() - 1
    } else {
        p.len() as int
    };
    Seq::new(
        n as nat,
        |i: int|
            if i < p.len() - 1 {
                strip_cr(p[i])
            } else {
                p[i]
            },
    )
}

/// The texts that a vector of character vectors holds.
pub open spec fn texts(v: Seq<Vec<char>>) -> Seq<Seq<char>> {
    Seq::new(v.len(), |i: int| v[i]@)
}

/// The texts of a vector with one element more are the texts of the
/// vector and the text of that element.
pub proof fn lemma_texts_push(v: Seq<Vec<char>>, x: Vec<char>)
    ensures
        texts(v.push(x)) == texts(v).push(x@),
{
    assert(texts(v.push(x)) =~= texts(v).push(x@));
}

/// A split has at least one piece.
pub proof fn lemma_split_on_nonempty(s: Seq<char>, d: char)
    ensures
        split_on(s, d).len() >= 1,
    decreases s.len(),
{
    if s.len() > 0 {
        lemma_split_on_nonempty(s.drop_last(), d);
    }
}

/// Splits `s` at whitespace into its words.
pub fn split_words(s: &Vec<char>) -> (r: Vec<Vec<char>>)
    ensures
        texts(r@) == words(s@),
{
    let mut out: Vec<Vec<char>> = Vec::new();
    let mut cur: Vec<char> = Vec::new();
    let mut i: usize = 0;
    assert(s@.take(0) == Seq::<char>::empty());
    assert(texts(out@) == Seq::<Seq<char>>::empty());
    while i < s.len()
        invariant
            i <= s.len(),
            cur@.len() > 0 <==> (i > 0 && !is_whitespace(s@[i - 1])),
            words(s@.take(i as int)) == if cur@.len() > 0 {
                texts(out@).push(cur@)
            } else {
                texts(out@)
            },
        decreases s.len() - i,
    {
        let c = s[i];
        let ghost prev = s@.take(i as int);
        let ghost next = s@.take(i + 1);
        let ghost old_out = texts(out@);
        let ghost old_cur = cur@;
        assert(next.drop_last() == prev);
        assert(next.last() == c);
        if char_is_whitespace(c) {
            if cur.len() > 0 {
                proof {
                    lemma_texts_push(out@, cur);
                }
                out.push(cur);
                cur = Vec::new();
                assert(texts(out@) == old_out.push(old_cur));
            }
        } else {
            proof {
                if old_cur.len() > 0 {
                    assert(prev.last() == s@[i - 1]);
                    assert(old_out.push(old_cur).drop_last() == old_out);
                }
            }
            cur.push(c);
            proof {
                if old_cur.len() == 0 {
                    assert(cur@ == seq![c]);
                }
            }
        }
        i += 1;
    }
    assert(s@.take(s.len() as int) == s@);
    if cur.len() > 0 {
        let ghost old_out = texts(out@);
        let ghost old_cur = cur@;
        proof {
            lemma_texts_push(out@, cur);
        }
        out.push(cur);
        assert(texts(out@) == old_out.push(old_cur));
    }
    out
}

/// Splits `s` at every occurrence of `d`.
pub fn split_char(s: &Vec<char>, d: char) -> (r: Vec<Vec<char>>)
    ensures
        texts(r@) == split_on(s@, d),
{
    let mut out: Vec<Vec<char>> = Vec::new();
    let mut cur: Vec<char> = Vec::new();
    let mut i: usize = 0;
    assert(s@.take(0) == Seq::<char>::empty());
    assert(texts(out@) == Seq::<Seq<char>>::empty());
    assert(texts(out@).push(cur@) == seq![Seq::<char>::empty()]);
    while i < s.len()
        invariant
            i <= s.len(),
            split_on(s@.take(i as int), d) == texts(out@).push(cur@),
        decreases s.len() - i,
    {
        let c = s[i];
        let ghost prev = s@.take(i as int);
        let ghost next = s@.take(i + 1);
        let ghost old_out = texts(out@);
        let ghost old_cur = cur@;
        assert(next.drop_last() == prev);
        assert(next.last() == c);
        assert(old_out.push(old_cur).drop_last() == old_out);
        if c == d {
            proof {
                lemma_texts_push(out@, cur);
            }
            out.push(cur);
            cur = Vec::new();
            assert(texts(out@) == old_out.push(old_cur));
        } else {
            cur.push(c);
        }
        i += 1;
    }
    assert(s@.take(s.len() as int) == s@);
    let ghost old_out = texts(out@);
    let ghost old_cur = cur@;
    proof {
        lemma_texts_push(out@, cur);
    }
    out.push(cur);
    assert(texts(out@) == old_out.push(old_cur));
    out
}

/// Joins the parts `from..to` with `sep` between neighbours.
pub fn join_range(parts: &Vec<Vec<char>>, from: usize, to: usize, sep: &Vec<char>) -> (r: Vec<char>)
    requires
        from <= to <= parts.len(),
    ensures
        r@ == join(texts(parts@).subrange(from as int, to as int), sep@),
{
    let mut r: Vec<char> = Vec::new();
    let mut i: usize = from;
    let ghost all = texts(parts@);
    assert(all.subrange(from as int, from as int) == Seq::<Seq<char>>::empty());
    while i < to
        invariant
            from <= i <= to <= parts.len(),
            all == texts(parts@),
            r@ == join(all.subrange(from as int, i as int), sep@),
        decreases to - i,
    {
        proof {
            let next = all.subrange(from as int, i + 1);
            assert(next.drop_last() == all.subrange(from as int, i as int));
            assert(next.last() == parts@[i as int]@);
            if i == from {
                assert(next[0] == parts@[i as int]@);
                assert(Seq::<char>::empty() + parts@[i as int]@ == parts@[i as int]@);
            }
        }
        if i > from {
            push_all(&mut r, sep);
        }
        push_all(&mut r, &parts[i]);
        i += 1;
    }
    r
}

/// Joins the parts with `sep` between neighbours.
pub fn join_parts(parts: &Vec<Vec<char>>, sep: &Vec<char>) -> (r: Vec<char>)
    ensures
        r@ == join(texts(parts@), sep@),
{
    assert(texts(parts@).subrange(0, parts.len() as int) == texts(parts@));
    join_range(parts, 0, parts.len(), sep)
}

/// Collapses every whitespace run of the text to one space and trims the
/// ends.
pub fn normalize_text(text: String) -> (r: String)
    ensures
        r@ == normalize(text@),
{
    crate::text::string_of(&normalized(&crate::text::chars_of(text.as_str())))
}

/// Collapses every whitespace run of `s` to one space and trims the ends.
pub fn normalized(s: &Vec<char>) -> (r: Vec<char>)
    ensures
        r@ == normalize(s@),
{
    let w = split_words(s);
    let mut sep: Vec<char> = Vec::new();
    sep.push(' ');
    assert(sep@ == seq![' ']);
    join_parts(&w, &sep)
}

/// The lines of `s`, without their line endings.
pub fn split_lines(s: &Vec<char>) -> (r: Vec<Vec<char>>)
    ensures
        texts(r@) == lines(s@),
{
    let mut p = split_char(s, '\n');
    let ghost pieces = texts(p@);
    proof {
        lemma_split_on_nonempty(s@, '\n');
    }
    let total = p.len();
    let n: usize = if p[total - 1].len() == 0 {
        total - 1
    } else {
        total
    };
    let mut out: Vec<Vec<char>> = Vec::new();
    let mut i: usize = 0;
    while i < n
        invariant
            i <= n <= total,
            total == p.len(),
            total >= 1,
            n >= total - 1,
            pieces == texts(p@),
            out.len() == i,
            forall|k: int|
                0 <= k < i ==> #[trigger] texts(out@)[k] == if k < total - 1 {
                    strip_cr(pieces[k])
                } else {
                    pieces[k]
                },
        decreases n - i,
    {
        let ghost old_out = texts(out@);
        let piece = &p[i];
        assert(piece@ == pieces[i as int]);
        let line = if i < total - 1 && piece.len() > 0 && piece[piece.len() - 1] == '\r' {
            let l = copy_range(piece, 0, piece.len() - 1);
            assert(l@ == piece@.drop_last());
            l
        } else {
            let l = copy_range(piece, 0, piece.len());
            assert(l@ == piece@);
            l
        };
        let ghost line_view = line@;
        proof {
            lemma_texts_push(out@, line);
        }
        out.push(line);
        assert(texts(out@) == old_out.push(line_view));
        i += 1;
    }
    assert(texts(out@) =~= lines(s@));
    out
}

} // verus!
