//! Responsive-image candidate lists: scoring the candidates and picking
//! the best.
//!
//! A score is the number that a descriptor writes: an optional sign,
//! digits, optionally a point and more digits, and optionally an exponent
//! (`e` or `E`, an optional sign, digits). `inf` and `infinity`, in small
//! or capital letters, write a score above every number, and with a minus
//! sign one below every number. Scores are held as digits and a decimal
//! exponent and compared exactly, however many digits they have:
//! `lemma_number_scores_order` shows that the order of scores is the order
//! of the numbers.
//!
//! Left out, because no exact number holds it: `nan` scores 0 like any
//! text that is no number; no score is rounded, so two numbers that differ
//! in any digit differ as scores; and no number is so great or so small
//! that it counts as infinite or as zero. An exponent counts up to 10^30
//! in size, far beyond where a floating-point number has become infinite
//! or zero.

use vstd::prelude::*;
use crate::text::{chars_of, copy_range, eq_ignoring_ascii_case, same_ignoring_ascii_case};
use crate::text::{string_of, view_opt, view_opt_string};
use crate::words::{split_char, split_on, split_words, texts, words};

verus! {

/// `c` is a decimal digit of ASCII.
pub open spec fn is_digit(c: char) -> bool {
    '0' <= c <= '9'
}

/// `s` holds nothing but decimal digits.
pub open spec fn all_digits(s: Seq<char>) -> bool {
    forall|i: int| 0 <= i < s.len() ==> is_digit(#[trigger] s[i])
}

/// The number that the digit `c` stands for.
pub open spec fn digit_value(c: char) -> nat {
    (c as u32 - '0' as u32) as nat
}

/// The number that a run of decimal digits writes.
pub open spec fn digits_value(s: Seq<char>) -> nat
    decreases s.len(),
{
    if s.len() == 0 {
        0
    } else {
        digits_value(s.drop_last()) * 10 + digit_value(s.last())
    }
}

/// The greatest size of an exponent; a greater one counts as this.
pub open spec fn exponent_limit() -> nat {
    1_000_000_000_000_000_000_000_000_000_000
}

/// The index of the first `c` in `s`, or the length of `s`.
pub open spec fn index_of(s: Seq<char>, c: char) -> int
    decreases s.len(),
{
    if s.len() == 0 {
        0
    } else if s[0] == c {
        0
    } else {
        1 + index_of(s.drop_first(), c)
    }
}

/// The index of the first `c` is `i` if no `c` stands before `i` and one
/// stands at `i`, or `i` is the length of the text.
pub proof fn lemma_index_of(s: Seq<char>, c: char, i: int)
    requires
        0 <= i <= s.len(),
        forall|k: int| 0 <= k < i ==> s[k] != c,
        i < s.len() ==> s[i] == c,
    ensures
        index_of(s, c) == i,
    decreases i,
{
    if i > 0 {
        let t = s.drop_first();
        assert forall|k: int| 0 <= k < i - 1 implies t[k] != c by {
            assert(t[k] == s[k + 1]);
        }
        lemma_index_of(t, c, i - 1);
    }
}

/// The index of the first `e` or `E` in `s`, or the length of `s`.
pub open spec fn exponent_mark(s: Seq<char>) -> int
    decreases s.len(),
{
    if s.len() == 0 {
        0
    } else if s[0] == 'e' || s[0] == 'E' {
        0
    } else {
        1 + exponent_mark(s.drop_first())
    }
}

/// `s` without the zeros at its start.
pub open spec fn strip_zeros(s: Seq<char>) -> Seq<char>
    decreases s.len(),
{
    if s.len() > 0 && s[0] == '0' {
        strip_zeros(s.drop_first())
    } else {
        s
    }
}

/// A score: a number held as digits and a decimal exponent, or an
/// infinity.
///
/// `class` is 1 for a number above zero, -1 for one below, 0 for zero, 2
/// for the infinity above all numbers and -2 for the one below. A number
/// that is not zero is `0.d1 d2 d3 ...` times ten to the power `point`,
/// where `d1 d2 d3 ...` are the `digits` and `d1` is not 0.
pub ghost struct ScoreView {
    pub class: int,
    pub point: int,
    pub digits: Seq<char>,
}

/// The score zero, which is also the score of what is no number.
pub open spec fn zero_score() -> ScoreView {
    ScoreView { class: 0, point: 0, digits: Seq::empty() }
}

/// The score above all numbers.
pub open spec fn infinite_score() -> ScoreView {
    ScoreView { class: 2, point: 0, digits: Seq::empty() }
}

/// The score with the opposite sign.
pub open spec fn negated(v: ScoreView) -> ScoreView {
    ScoreView { class: -v.class, point: v.point, digits: v.digits }
}

/// The exponent that the text behind the exponent mark writes: an optional
/// sign and at least one digit; a size above 10^30 counts as 10^30. `None`
/// if the text is no exponent.
pub open spec fn exponent_of(x: Seq<char>) -> Option<int> {
    let signed = x.len() > 0 && (x[0] == '-' || x[0] == '+');
    let digits = if signed {
        x.drop_first()
    } else {
        x
    };
    if digits.len() > 0 && all_digits(digits) {
        let size = if digits_value(digits) < exponent_limit() {
            digits_value(digits)
        } else {
            exponent_limit()
        };
        Some(
            if x[0] == '-' {
                -(size as int)
            } else {
                size as int
            },
        )
    } else {
        None
    }
}

/// The score that a number without sign writes: digits, optionally a point
/// and more digits, with a digit somewhere, and optionally an exponent.
/// Its digits are those before and behind the point without the zeros at
/// the start; the point moves by the exponent. `None` if `s` is no such
/// number.
pub open spec fn magnitude_of(s: Seq<char>) -> Option<ScoreView> {
    let mark = exponent_mark(s);
    let mantissa = s.take(mark);
    let exponent = if mark < s.len() {
        exponent_of(s.skip(mark + 1))
    } else {
        Some(0int)
    };
    let dot = index_of(mantissa, '.');
    let whole = mantissa.take(dot);
    let fraction = if dot < mantissa.len() {
        mantissa.skip(dot + 1)
    } else {
        Seq::empty()
    };
    if all_digits(whole) && all_digits(fraction) && whole.len() + fraction.len() > 0 && exponent is Some {
        let digits = strip_zeros(whole + fraction);
        if digits.len() == 0 {
            Some(zero_score())
        } else {
            Some(
                ScoreView {
                    class: 1,
                    point: digits.len() + exponent->0 - fraction.len(),
                    digits,
                },
            )
        }
    } else {
        None
    }
}

/// The score that a text without sign writes: an infinity, a number, or
/// zero if it is neither.
pub open spec fn unsigned_score(s: Seq<char>) -> ScoreView {
    if eq_ignoring_ascii_case(s, "inf"@) || eq_ignoring_ascii_case(s, "infinity"@) {
        infinite_score()
    } else {
        match magnitude_of(s) {
            Some(m) => m,
            None => zero_score(),
        }
    }
}

/// The score that a text with an optional sign writes.
pub open spec fn number_score(s: Seq<char>) -> ScoreView {
    if s.len() > 0 && s[0] == '-' {
        negated(unsigned_score(s.drop_first()))
    } else if s.len() > 0 && s[0] == '+' {
        unsigned_score(s.drop_first())
    } else {
        unsigned_score(s)
    }
}

/// The score of a candidate's descriptor: what stands before a final `w`
/// or `x`, read as a number; zero for any other descriptor.
pub open spec fn descriptor_score(d: Seq<char>) -> ScoreView {
    if d.len() > 0 && (d.last() == 'w' || d.last() == 'x') {
        number_score(d.drop_last())
    } else {
        zero_score()
    }
}

/// The digit at place `i`; behind the last digit stand zeros.
pub open spec fn digit_at(d: Seq<char>, i: int) -> u32 {
    if 0 <= i < d.len() {
        d[i] as u32
    } else {
        '0' as u32
    }
}

/// From place `i` on, the digits `x` write less than the digits `y`: at
/// the first place where they differ, `x` has the smaller digit.
pub open spec fn digits_less(x: Seq<char>, y: Seq<char>, i: int) -> bool
    decreases x.len() + y.len() - i,
{
    if i < 0 || (i >= x.len() && i >= y.len()) {
        false
    } else if digit_at(x, i) < digit_at(y, i) {
        true
    } else if digit_at(x, i) > digit_at(y, i) {
        false
    } else {
        digits_less(x, y, i + 1)
    }
}

/// Of two numbers above zero, `a` is the smaller: its point stands further
/// left, or the points stand alike and its digits write less.
pub open spec fn magnitude_less(a: ScoreView, b: ScoreView) -> bool {
    a.point < b.point || (a.point == b.point && digits_less(a.digits, b.digits, 0))
}

/// Score `a` is less than score `b`.
pub open spec fn score_less(a: ScoreView, b: ScoreView) -> bool {
    if a.class != b.class {
        a.class < b.class
    } else if a.class == 1 {
        magnitude_less(a, b)
    } else if a.class == -1 {
        magnitude_less(b, a)
    } else {
        false
    }
}

/// A candidate of a list: a URL and the score of its descriptor.
pub ghost struct Candidate {
    pub url: Seq<char>,
    pub score: ScoreView,
}

/// The candidate that one comma-separated part of a list holds: its first
/// word is the URL, its second the descriptor. A blank part holds none.
pub open spec fn candidate_of(part: Seq<char>) -> Option<Candidate> {
    let w = words(part);
    if w.len() == 0 {
        None
    } else {
        Some(
            Candidate {
                url: w[0],
                score: if w.len() > 1 {
                    descriptor_score(w[1])
                } else {
                    zero_score()
                },
            },
        )
    }
}

/// The candidates that the parts hold, in order.
pub open spec fn candidates_of(parts: Seq<Seq<char>>) -> Seq<Candidate>
    decreases parts.len(),
{
    if parts.len() == 0 {
        Seq::empty()
    } else {
        match candidate_of(parts.last()) {
            Some(c) => candidates_of(parts.drop_last()).push(c),
            None => candidates_of(parts.drop_last()),
        }
    }
}

/// The candidates of a candidate list.
pub open spec fn srcset_candidates(srcset: Seq<char>) -> Seq<Candidate> {
    candidates_of(split_on(srcset, ','))
}


/// The score of each candidate.
pub open spec fn candidate_scores(c: Seq<Candidate>) -> Seq<ScoreView> {
    Seq::new(c.len(), |i: int| c[i].score)
}

/// The last index at which `scores` is greatest; 0 for no scores.
pub open spec fn last_best(scores: Seq<ScoreView>) -> int
    decreases scores.len(),
{
    if scores.len() <= 1 {
        0
    } else {
        let m = last_best(scores.drop_last());
        if score_less(scores.last(), scores[m]) {
            m
        } else {
            scores.len() - 1
        }
    }
}

/// The URL of the best candidate of a list: the one with the highest
/// score, the later one among equals. `None` for a list without
/// candidates.
pub open spec fn best_candidate_url(srcset: Seq<char>) -> Option<Seq<char>> {
    let c = srcset_candidates(srcset);
    if c.len() == 0 {
        None
    } else {
        Some(c[last_best(candidate_scores(c))].url)
    }
}

/// No score is greater than the one at index `m`, and every later score is
/// less.
pub open spec fn is_last_best(scores: Seq<ScoreView>, m: int) -> bool {
    &&& 0 <= m < scores.len()
    &&& forall|j: int| 0 <= j < scores.len() ==> !score_less(scores[m], #[trigger] scores[j])
    &&& forall|j: int| m < j < scores.len() ==> score_less(#[trigger] scores[j], scores[m])
}

/// Of two runs of digits, not each writes less than the other.
pub proof fn lemma_digits_less_one_way(x: Seq<char>, y: Seq<char>, i: int)
    ensures
        !(digits_less(x, y, i) && digits_less(y, x, i)),
    decreases x.len() + y.len() - i,
{
    if i >= 0 && (i < x.len() || i < y.len()) && digit_at(x, i) == digit_at(y, i) {
        lemma_digits_less_one_way(x, y, i + 1);
    }
}

/// If `x` does not write less than `y` and `y` not less than `z`, then `x`
/// does not write less than `z`.
pub proof fn lemma_digits_not_less_chain(x: Seq<char>, y: Seq<char>, z: Seq<char>, i: int)
    requires
        0 <= i,
        !digits_less(x, y, i),
        !digits_less(y, z, i),
    ensures
        !digits_less(x, z, i),
    decreases x.len() + y.len() + z.len() - i,
{
    if i < x.len() || i < y.len() || i < z.len() {
        if digit_at(x, i) == digit_at(y, i) && digit_at(y, i) == digit_at(z, i) {
            lemma_digits_not_less_chain(x, y, z, i + 1);
        }
    }
}

/// Of two scores, not each is less than the other.
pub proof fn lemma_score_less_one_way(a: ScoreView, b: ScoreView)
    ensures
        !(score_less(a, b) && score_less(b, a)),
{
    lemma_digits_less_one_way(a.digits, b.digits, 0);
}

/// If `a` is not less than `b` and `b` not less than `c`, then `a` is not
/// less than `c`.
pub proof fn lemma_score_not_less_chain(a: ScoreView, b: ScoreView, c: ScoreView)
    requires
        !score_less(a, b),
        !score_less(b, c),
    ensures
        !score_less(a, c),
{
    if a.class == b.class && b.class == c.class {
        if a.class == 1 {
            if a.point == b.point && b.point == c.point {
                lemma_digits_not_less_chain(a.digits, b.digits, c.digits, 0);
            }
        } else if a.class == -1 {
            if a.point == b.point && b.point == c.point {
                lemma_digits_not_less_chain(c.digits, b.digits, a.digits, 0);
            }
        }
    }
}

/// `last_best` is an index of a score that none exceeds, and every later
/// score is less.
pub proof fn lemma_last_best(scores: Seq<ScoreView>)
    requires
        scores.len() > 0,
    ensures
        is_last_best(scores, last_best(scores)),
    decreases scores.len(),
{
    if scores.len() > 1 {
        let init = scores.drop_last();
        lemma_last_best(init);
        let m = last_best(init);
        let r = last_best(scores);
        let last = scores.last();
        assert(init[m] == scores[m]);
        assert forall|j: int| 0 <= j < scores.len() implies !score_less(
            scores[r],
            #[trigger] scores[j],
        ) by {
            if j < init.len() {
                assert(init[j] == scores[j]);
                assert(!score_less(init[m], init[j]));
                if r != m {
                    lemma_score_not_less_chain(last, scores[m], scores[j]);
                }
            } else {
                assert(scores[j] == last);
                if r == m {
                    lemma_score_less_one_way(last, scores[m]);
                } else {
                    lemma_score_less_one_way(last, last);
                }
            }
        }
        assert forall|j: int| r < j < scores.len() implies score_less(
            #[trigger] scores[j],
            scores[r],
        ) by {
            if j < init.len() {
                assert(init[j] == scores[j]);
            }
        }
    } else {
        lemma_score_less_one_way(scores[0], scores[0]);
    }
}

/// Ten to the power `n`.
pub open spec fn pow10(n: nat) -> nat
    decreases n,
{
    if n == 0 {
        1
    } else {
        10 * pow10((n - 1) as nat)
    }
}

/// A greater power of ten is a greater number.
pub proof fn lemma_pow10_grows(m: nat, n: nat)
    requires
        m <= n,
    ensures
        1 <= pow10(m) <= pow10(n),
    decreases n,
{
    if n > 0 {
        if m < n {
            lemma_pow10_grows(m, (n - 1) as nat);
        } else {
            lemma_pow10_grows((m - 1) as nat, (n - 1) as nat);
        }
    }
}

/// A number of `n` digits is less than ten to the power `n`.
pub proof fn lemma_value_bound(s: Seq<char>)
    requires
        all_digits(s),
    ensures
        digits_value(s) < pow10(s.len()),
    decreases s.len(),
{
    if s.len() > 0 {
        let init = s.drop_last();
        assert forall|i: int| 0 <= i < init.len() implies is_digit(#[trigger] init[i]) by {
            assert(init[i] == s[i]);
        }
        lemma_value_bound(init);
        assert(is_digit(s[s.len() - 1]));
        assert(digit_value(s.last()) <= 9);
        assert(pow10(s.len()) == 10 * pow10(init.len()));
    }
}

/// The number that digits write is the first digit times its power of ten,
/// and the number that the other digits write.
pub proof fn lemma_value_leading(s: Seq<char>)
    requires
        s.len() > 0,
    ensures
        digits_value(s) == digit_value(s[0]) * pow10((s.len() - 1) as nat) + digits_value(
            s.drop_first(),
        ),
    decreases s.len(),
{
    if s.len() == 1 {
        assert(s.drop_last() == Seq::<char>::empty());
        assert(s.drop_first() == Seq::<char>::empty());
        assert(digits_value(s.drop_last()) == 0);
        assert(s.last() == s[0]);
        assert(pow10(0) == 1);
        assert(digits_value(s) == digit_value(s[0]));
        assert(digit_value(s[0]) * 1 == digit_value(s[0]));
    } else {
        let init = s.drop_last();
        let tail = s.drop_first();
        lemma_value_leading(init);
        assert(init[0] == s[0]);
        assert(tail.drop_last() == init.drop_first());
        assert(tail.last() == s.last());
        let p = pow10((s.len() - 2) as nat);
        assert(pow10((s.len() - 1) as nat) == 10 * p);
        let d = digit_value(s[0]);
        let v = digits_value(init.drop_first());
        let c = digit_value(s.last());
        assert(digits_value(init) == d * p + v);
        assert(digits_value(s) == digits_value(init) * 10 + c);
        assert(digits_value(tail) == v * 10 + c);
        assert((d * p + v) * 10 == d * (10 * p) + v * 10) by (nonlinear_arith);
    }
}

/// Of two runs of digits of the same length, the one that writes less from
/// place `i` on is the one whose digits from `i` on write the smaller
/// number.
pub proof fn lemma_digits_less_is_numeric(x: Seq<char>, y: Seq<char>, i: int)
    requires
        all_digits(x),
        all_digits(y),
        x.len() == y.len(),
        0 <= i <= x.len(),
    ensures
        digits_less(x, y, i) <==> digits_value(x.skip(i)) < digits_value(y.skip(i)),
    decreases x.len() - i,
{
    let a = x.skip(i);
    let b = y.skip(i);
    if i < x.len() {
        lemma_digits_less_is_numeric(x, y, i + 1);
        lemma_value_leading(a);
        lemma_value_leading(b);
        assert(a.drop_first() == x.skip(i + 1));
        assert(b.drop_first() == y.skip(i + 1));
        assert(a[0] == x[i] && b[0] == y[i]);
        assert(is_digit(x[i]) && is_digit(y[i]));
        assert forall|k: int| 0 <= k < x.skip(i + 1).len() implies is_digit(
            #[trigger] x.skip(i + 1)[k],
        ) by {
            assert(x.skip(i + 1)[k] == x[i + 1 + k]);
        }
        assert forall|k: int| 0 <= k < y.skip(i + 1).len() implies is_digit(
            #[trigger] y.skip(i + 1)[k],
        ) by {
            assert(y.skip(i + 1)[k] == y[i + 1 + k]);
        }
        lemma_value_bound(x.skip(i + 1));
        lemma_value_bound(y.skip(i + 1));
        let p = pow10((a.len() - 1) as nat);
        let dx = digit_value(x[i]);
        let dy = digit_value(y[i]);
        let vx = digits_value(x.skip(i + 1));
        let vy = digits_value(y.skip(i + 1));
        assert(x.skip(i + 1).len() == a.len() - 1);
        assert(y.skip(i + 1).len() == a.len() - 1);
        assert(digit_at(x, i) < digit_at(y, i) <==> dx < dy);
        assert(digit_at(x, i) > digit_at(y, i) <==> dx > dy);
        if dx < dy {
            assert(dx * p + vx < dy * p + vy) by (nonlinear_arith)
                requires
                    dx < dy,
                    vx < p,
                    0 <= vy,
            ;
        } else if dx > dy {
            assert(dy * p + vy < dx * p + vx) by (nonlinear_arith)
                requires
                    dy < dx,
                    vy < p,
                    0 <= vx,
            ;
        }
    } else {
        assert(a == Seq::<char>::empty());
        assert(b == Seq::<char>::empty());
    }
}

/// Stripping the zeros at the start changes nothing of the number that
/// digits write; what is left is digits and does not begin with a zero.
pub proof fn lemma_strip_zeros_value(s: Seq<char>)
    requires
        all_digits(s),
    ensures
        all_digits(strip_zeros(s)),
        digits_value(strip_zeros(s)) == digits_value(s),
        strip_zeros(s).len() <= s.len(),
        strip_zeros(s).len() > 0 ==> strip_zeros(s)[0] != '0',
    decreases s.len(),
{
    if s.len() > 0 && s[0] == '0' {
        let t = s.drop_first();
        assert forall|k: int| 0 <= k < t.len() implies is_digit(#[trigger] t[k]) by {
            assert(t[k] == s[k + 1]);
        }
        lemma_strip_zeros_value(t);
        lemma_value_leading(s);
        assert(digit_value('0') == 0);
        assert(0 * pow10((s.len() - 1) as nat) == 0);
    }
}

/// `k` zeros.
pub open spec fn zeros(k: nat) -> Seq<char> {
    Seq::new(k, |i: int| '0')
}

/// Zeros behind digits multiply the number that the digits write by a
/// power of ten.
pub proof fn lemma_value_with_zeros(d: Seq<char>, k: nat)
    ensures
        digits_value(d + zeros(k)) == digits_value(d) * pow10(k),
    decreases k,
{
    if k == 0 {
        assert(d + zeros(0) == d);
        assert(digits_value(d) * 1 == digits_value(d));
    } else {
        let less = d + zeros((k - 1) as nat);
        lemma_value_with_zeros(d, (k - 1) as nat);
        assert((d + zeros(k)).drop_last() == less);
        assert((d + zeros(k)).last() == '0');
        assert(digit_value('0') == 0);
        let v = digits_value(d);
        let p = pow10((k - 1) as nat);
        assert((v * p) * 10 == v * (10 * p)) by (nonlinear_arith);
    }
}

/// Zeros behind the digits change nothing of which digits write less.
pub proof fn lemma_digits_less_with_zeros(x: Seq<char>, y: Seq<char>, kx: nat, ky: nat, i: int)
    requires
        0 <= i,
    ensures
        digits_less(x + zeros(kx), y + zeros(ky), i) == digits_less(x, y, i),
    decreases x.len() + kx + y.len() + ky - i,
{
    let px = x + zeros(kx);
    let py = y + zeros(ky);
    if i < px.len() || i < py.len() {
        lemma_digits_less_with_zeros(x, y, kx, ky, i + 1);
        assert(digit_at(px, i) == digit_at(x, i)) by {
            if i < px.len() {
                if i < x.len() {
                    assert(px[i] == x[i]);
                } else {
                    assert(px[i] == '0');
                }
            }
        }
        assert(digit_at(py, i) == digit_at(y, i)) by {
            if i < py.len() {
                if i < y.len() {
                    assert(py[i] == y[i]);
                } else {
                    assert(py[i] == '0');
                }
            }
        }
        if i >= x.len() && i >= y.len() {
            assert(!digits_less(x, y, i + 1));
        }
    }
}

/// A score is a number above zero in its plain form: digits that do not
/// begin with a zero.
pub open spec fn is_number_score(v: ScoreView) -> bool {
    v.class == 1 && v.digits.len() > 0 && all_digits(v.digits) && v.digits[0] != '0'
}

/// The decimal place of the last digit of a score: the power of ten that
/// the last digit counts.
pub open spec fn last_place(v: ScoreView) -> int {
    v.point - v.digits.len()
}

/// A number score counted in units of ten to the power `place`, for a
/// place that is not above that of its last digit.
pub open spec fn units_at(v: ScoreView, place: int) -> nat {
    digits_value(v.digits) * pow10((last_place(v) - place) as nat)
}

/// The order of number scores is the order of the numbers: counted in the
/// same units, the lesser score is the smaller number.
pub proof fn lemma_number_scores_order(a: ScoreView, b: ScoreView, place: int)
    requires
        is_number_score(a),
        is_number_score(b),
        place <= last_place(a),
        place <= last_place(b),
    ensures
        magnitude_less(a, b) <==> units_at(a, place) < units_at(b, place),
{
    let ka = (last_place(a) - place) as nat;
    let kb = (last_place(b) - place) as nat;
    let x = a.digits + zeros(ka);
    let y = b.digits + zeros(kb);
    lemma_value_with_zeros(a.digits, ka);
    lemma_value_with_zeros(b.digits, kb);
    assert(x.len() == a.point - place);
    assert(y.len() == b.point - place);
    assert forall|i: int| 0 <= i < x.len() implies is_digit(#[trigger] x[i]) by {
        if i < a.digits.len() {
            assert(x[i] == a.digits[i]);
        } else {
            assert(x[i] == '0');
        }
    }
    assert forall|i: int| 0 <= i < y.len() implies is_digit(#[trigger] y[i]) by {
        if i < b.digits.len() {
            assert(y[i] == b.digits[i]);
        } else {
            assert(y[i] == '0');
        }
    }
    lemma_value_bound(x);
    lemma_value_bound(y);
    lemma_value_leading(x);
    lemma_value_leading(y);
    assert(x[0] == a.digits[0] && y[0] == b.digits[0]);
    assert(is_digit(x[0]) && is_digit(y[0]));
    let px = pow10((x.len() - 1) as nat);
    let py = pow10((y.len() - 1) as nat);
    assert(digit_value(x[0]) * px >= px) by (nonlinear_arith)
        requires
            digit_value(x[0]) >= 1,
    ;
    assert(digit_value(y[0]) * py >= py) by (nonlinear_arith)
        requires
            digit_value(y[0]) >= 1,
    ;
    if a.point < b.point {
        lemma_pow10_grows(x.len(), (y.len() - 1) as nat);
    } else if b.point < a.point {
        lemma_pow10_grows(y.len(), (x.len() - 1) as nat);
    } else {
        lemma_digits_less_is_numeric(x, y, 0);
        lemma_digits_less_with_zeros(a.digits, b.digits, ka, kb, 0);
        assert(x.skip(0) == x);
        assert(y.skip(0) == y);
    }
}

/// What a number without sign is read as is zero or a number score in its
/// plain form. Its digits write the number that the digits before and
/// behind the point write together, and its last digit stands at the place
/// that the exponent less the length of the fraction gives.
pub proof fn lemma_magnitude_is_plain(s: Seq<char>)
    ensures
        magnitude_of(s) matches Some(m) ==> m == zero_score() || is_number_score(m),
        ({
            let mark = exponent_mark(s);
            let mantissa = s.take(mark);
            let dot = index_of(mantissa, '.');
            let whole = mantissa.take(dot);
            let fraction = if dot < mantissa.len() {
                mantissa.skip(dot + 1)
            } else {
                Seq::empty()
            };
            let exponent = if mark < s.len() {
                exponent_of(s.skip(mark + 1))
            } else {
                Some(0int)
            };
            magnitude_of(s) matches Some(m) ==> {
                &&& digits_value(m.digits) == digits_value(whole + fraction)
                &&& m != zero_score() ==> last_place(m) == exponent->0 - fraction.len()
            }
        }),
{
    let mark = exponent_mark(s);
    let mantissa = s.take(mark);
    let dot = index_of(mantissa, '.');
    let whole = mantissa.take(dot);
    let fraction = if dot < mantissa.len() {
        mantissa.skip(dot + 1)
    } else {
        Seq::empty()
    };
    if all_digits(whole) && all_digits(fraction) {
        let all = whole + fraction;
        assert forall|i: int| 0 <= i < all.len() implies is_digit(#[trigger] all[i]) by {
            if i < whole.len() {
                assert(all[i] == whole[i]);
            } else {
                assert(all[i] == fraction[i - whole.len()]);
            }
        }
        lemma_strip_zeros_value(all);
    }
}

/// For descriptors written as whole numbers, the order of the scores is
/// the order of the numbers.
pub proof fn lemma_whole_numbers_order(a: Seq<char>, b: Seq<char>)
    requires
        a.len() > 0,
        b.len() > 0,
        all_digits(a),
        all_digits(b),
    ensures
        score_less(unsigned_score(a), unsigned_score(b)) <==> digits_value(a) < digits_value(b),
{
    lemma_whole_number_score(a);
    lemma_whole_number_score(b);
    let x = strip_zeros(a);
    let y = strip_zeros(b);
    lemma_strip_zeros_value(a);
    lemma_strip_zeros_value(b);
    lemma_value_bound(x);
    lemma_value_bound(y);
    if x.len() > 0 {
        lemma_value_leading(x);
        assert(is_digit(x[0]));
        assert(digit_value(x[0]) >= 1);
        let p = pow10((x.len() - 1) as nat);
        assert(digit_value(x[0]) * p >= p) by (nonlinear_arith)
            requires
                digit_value(x[0]) >= 1,
        ;
    }
    if y.len() > 0 {
        lemma_value_leading(y);
        assert(is_digit(y[0]));
        assert(digit_value(y[0]) >= 1);
        let p = pow10((y.len() - 1) as nat);
        assert(digit_value(y[0]) * p >= p) by (nonlinear_arith)
            requires
                digit_value(y[0]) >= 1,
        ;
    }
    if x.len() > 0 && y.len() > 0 {
        if x.len() < y.len() {
            lemma_pow10_grows(x.len(), (y.len() - 1) as nat);
        } else if y.len() < x.len() {
            lemma_pow10_grows(y.len(), (x.len() - 1) as nat);
        } else {
            lemma_digits_less_is_numeric(x, y, 0);
            lemma_digits_less_is_numeric(y, x, 0);
            assert(x.skip(0) == x);
            assert(y.skip(0) == y);
        }
    } else {
        lemma_pow10_grows(0, 0);
    }
}

/// The score of a whole number: its digits without the zeros at the start,
/// with the point behind the last of them; zero if nothing is left.
pub proof fn lemma_whole_number_score(a: Seq<char>)
    requires
        a.len() > 0,
        all_digits(a),
    ensures
        unsigned_score(a) == if strip_zeros(a).len() == 0 {
            zero_score()
        } else {
            ScoreView { class: 1, point: strip_zeros(a).len() as int, digits: strip_zeros(a) }
        },
{
    reveal_strlit("inf");
    reveal_strlit("infinity");
    assert(is_digit(a[0]));
    assert(!eq_ignoring_ascii_case(a, "inf"@)) by {
        if a.len() == 3 {
            assert(crate::text::ascii_folded(a[0]) != crate::text::ascii_folded("inf"@[0]));
        }
    }
    assert(!eq_ignoring_ascii_case(a, "infinity"@)) by {
        if a.len() == 8 {
            assert(crate::text::ascii_folded(a[0]) != crate::text::ascii_folded("infinity"@[0]));
        }
    }
    assert forall|k: int| 0 <= k < a.len() implies a[k] != 'e' && a[k] != 'E' && a[k] != '.' by {
        assert(is_digit(a[k]));
    }
    lemma_exponent_mark(a, a.len() as int);
    let mantissa = a.take(a.len() as int);
    assert(mantissa == a);
    lemma_index_of(a, '.', a.len() as int);
    assert(a.take(a.len() as int) + Seq::<char>::empty() == a);
}

/// The index of the first `e` or `E` is `i` if none stands before `i` and
/// one stands at `i`, or `i` is the length of the text.
pub proof fn lemma_exponent_mark(s: Seq<char>, i: int)
    requires
        0 <= i <= s.len(),
        forall|k: int| 0 <= k < i ==> s[k] != 'e' && s[k] != 'E',
        i < s.len() ==> s[i] == 'e' || s[i] == 'E',
    ensures
        exponent_mark(s) == i,
    decreases i,
{
    if i > 0 {
        let t = s.drop_first();
        assert forall|k: int| 0 <= k < i - 1 implies t[k] != 'e' && t[k] != 'E' by {
            assert(t[k] == s[k + 1]);
        }
        lemma_exponent_mark(t, i - 1);
    }
}

/// Zeros at the start that are dropped first change nothing of what
/// stripping the zeros leaves.
pub proof fn lemma_strip_zeros(s: Seq<char>, z: int)
    requires
        0 <= z <= s.len(),
        forall|k: int| 0 <= k < z ==> s[k] == '0',
        z < s.len() ==> s[z] != '0',
    ensures
        strip_zeros(s) == s.skip(z),
    decreases z,
{
    if z > 0 {
        let t = s.drop_first();
        assert forall|k: int| 0 <= k < z - 1 implies t[k] == '0' by {
            assert(t[k] == s[k + 1]);
        }
        lemma_strip_zeros(t, z - 1);
        assert(t.skip(z - 1) == s.skip(z));
    } else {
        assert(s.skip(0) == s);
    }
}

/// A score, held as digits and a decimal exponent.
pub struct Score {
    class: i8,
    point: i128,
    digits: Vec<char>,
}

impl View for Score {
    type V = ScoreView;

    closed spec fn view(&self) -> ScoreView {
        ScoreView { class: self.class as int, point: self.point as int, digits: self.digits@ }
    }
}

/// The views of a run of scores.
pub open spec fn score_views(scores: Seq<Score>) -> Seq<ScoreView> {
    Seq::new(scores.len(), |i: int| scores[i]@)
}

impl Score {
    /// The score zero.
    pub fn zero() -> (r: Score)
        ensures
            r@ == zero_score(),
    {
        Score { class: 0, point: 0, digits: Vec::new() }
    }

    /// Whether the score is less than `other`.
    pub fn less_than(&self, other: &Score) -> (r: bool)
        ensures
            r == score_less(self@, other@),
    {
        if self.class != other.class {
            self.class < other.class
        } else if self.class == 1 {
            self.point < other.point || (self.point == other.point && digits_before(
                &self.digits,
                &other.digits,
            ))
        } else if self.class == -1 {
            other.point < self.point || (other.point == self.point && digits_before(
                &other.digits,
                &self.digits,
            ))
        } else {
            false
        }
    }
}

/// Whether the digits `x` write less than the digits `y`.
fn digits_before(x: &Vec<char>, y: &Vec<char>) -> (r: bool)
    ensures
        r == digits_less(x@, y@, 0),
{
    let mut i: usize = 0;
    while i < x.len() || i < y.len()
        invariant
            digits_less(x@, y@, 0) == digits_less(x@, y@, i as int),
        decreases x.len() + y.len() - i,
    {
        let a: u32 = if i < x.len() {
            x[i] as u32
        } else {
            '0' as u32
        };
        let b: u32 = if i < y.len() {
            y[i] as u32
        } else {
            '0' as u32
        };
        if a < b {
            return true;
        }
        if a > b {
            return false;
        }
        i += 1;
    }
    false
}

/// The exponent that the text behind the exponent mark writes.
#[verifier::loop_isolation(false)]
fn parse_exponent(x: &Vec<char>) -> (r: Option<i128>)
    ensures
        match r {
            Some(e) => exponent_of(x@) == Some(e as int),
            None => exponent_of(x@) is None,
        },
        r matches Some(e) ==> -exponent_limit() <= e <= exponent_limit(),
{
    let limit: i128 = 1_000_000_000_000_000_000_000_000_000_000;
    let signed = x.len() > 0 && (x[0] == '-' || x[0] == '+');
    let start: usize = if signed {
        1
    } else {
        0
    };
    let ghost digits = if signed {
        x@.drop_first()
    } else {
        x@
    };
    assert(digits == x@.skip(start as int));
    if x.len() == start {
        return None;
    }
    let mut acc: i128 = 0;
    let mut i: usize = start;
    assert(digits.take(0) == Seq::<char>::empty());
    while i < x.len()
        invariant
            start <= i <= x.len(),
            limit == exponent_limit(),
            digits == x@.skip(start as int),
            all_digits(digits.take(i - start)),
            0 <= acc,
            acc == if digits_value(digits.take(i - start)) < exponent_limit() {
                digits_value(digits.take(i - start))
            } else {
                exponent_limit()
            },
        decreases x.len() - i,
    {
        let c = x[i];
        assert(digits[i - start] == c);
        if !(c >= '0' && c <= '9') {
            return None;
        }
        let d: i128 = (c as u32 - '0' as u32) as i128;
        proof {
            let next = digits.take(i - start + 1);
            assert(next.drop_last() == digits.take(i - start));
            assert(next.last() == c);
            assert(d == digit_value(c));
        }
        let grown: i128 = acc * 10 + d;
        acc = if grown < limit {
            grown
        } else {
            limit
        };
        i += 1;
    }
    assert(digits.take(digits.len() as int) == digits);
    if x[0] == '-' {
        Some(-acc)
    } else {
        Some(acc)
    }
}

/// The score that a number without sign writes.
#[verifier::loop_isolation(false)]
fn parse_magnitude(s: &Vec<char>) -> (r: Option<Score>)
    ensures
        match r {
            Some(m) => magnitude_of(s@) == Some(m@),
            None => magnitude_of(s@) is None,
        },
{
    let n = s.len();
    let mut mark: usize = 0;
    while mark < n && s[mark] != 'e' && s[mark] != 'E'
        invariant
            mark <= n,
            forall|k: int| 0 <= k < mark ==> s@[k] != 'e' && s@[k] != 'E',
        decreases n - mark,
    {
        mark += 1;
    }
    proof {
        lemma_exponent_mark(s@, mark as int);
    }
    let ghost mantissa = s@.take(mark as int);
    let exponent: Option<i128> = if mark < n {
        let x = copy_range(s, mark + 1, n);
        assert(x@ == s@.skip(mark + 1));
        parse_exponent(&x)
    } else {
        Some(0)
    };
    let mut dot: usize = 0;
    while dot < mark && s[dot] != '.'
        invariant
            dot <= mark,
            forall|k: int| 0 <= k < dot ==> mantissa[k] != '.',
        decreases mark - dot,
    {
        assert(mantissa[dot as int] == s@[dot as int]);
        dot += 1;
    }
    proof {
        if dot < mark {
            assert(mantissa[dot as int] == s@[dot as int]);
        }
        lemma_index_of(mantissa, '.', dot as int);
    }
    let ghost whole = mantissa.take(dot as int);
    let ghost fraction = if dot < mark {
        mantissa.skip(dot + 1)
    } else {
        Seq::<char>::empty()
    };
    let mut all: Vec<char> = Vec::new();
    let mut i: usize = 0;
    assert(whole.take(0) == Seq::<char>::empty());
    while i < dot
        invariant
            i <= dot,
            all_digits(whole.take(i as int)),
            all@ == whole.take(i as int),
        decreases dot - i,
    {
        let c = s[i];
        assert(whole[i as int] == c);
        if !(c >= '0' && c <= '9') {
            return None;
        }
        all.push(c);
        assert(whole.take(i + 1) == whole.take(i as int).push(c));
        i += 1;
    }
    assert(whole.take(dot as int) == whole);
    let start: usize = if dot < mark {
        dot + 1
    } else {
        mark
    };
    let mut k: usize = start;
    assert(fraction.take(0) == Seq::<char>::empty());
    assert(all@ + Seq::<char>::empty() == all@);
    while k < mark
        invariant
            start <= k <= mark,
            fraction.len() == mark - start,
            all_digits(fraction.take(k - start)),
            all@ == whole + fraction.take(k - start),
        decreases mark - k,
    {
        let c = s[k];
        assert(fraction[k - start] == c);
        if !(c >= '0' && c <= '9') {
            return None;
        }
        all.push(c);
        assert(fraction.take(k - start + 1) == fraction.take(k - start).push(c));
        assert((whole + fraction.take(k - start)).push(c) == whole + fraction.take(k - start).push(
            c,
        ));
        k += 1;
    }
    assert(fraction.take(fraction.len() as int) == fraction);
    if all.len() == 0 {
        return None;
    }
    let e: i128 = match exponent {
        Some(e) => e,
        None => {
            return None;
        },
    };
    let mut z: usize = 0;
    while z < all.len() && all[z] == '0'
        invariant
            z <= all.len(),
            forall|j: int| 0 <= j < z ==> all@[j] == '0',
        decreases all.len() - z,
    {
        z += 1;
    }
    proof {
        lemma_strip_zeros(all@, z as int);
    }
    let digits = copy_range(&all, z, all.len());
    assert(digits@ == all@.skip(z as int));
    if digits.len() == 0 {
        return Some(Score::zero());
    }
    let places: usize = mark - start;
    let point: i128 = digits.len() as i128 + e - places as i128;
    Some(Score { class: 1, point, digits })
}

/// The score that a text without sign writes.
fn parse_unsigned(s: &Vec<char>) -> (r: Score)
    ensures
        r@ == unsigned_score(s@),
{
    if same_ignoring_ascii_case(s, &chars_of("inf")) || same_ignoring_ascii_case(
        s,
        &chars_of("infinity"),
    ) {
        return Score { class: 2, point: 0, digits: Vec::new() };
    }
    match parse_magnitude(s) {
        Some(m) => m,
        None => Score::zero(),
    }
}

/// The score that a text with an optional sign writes.
fn parse_number(s: &Vec<char>) -> (r: Score)
    ensures
        r@ == number_score(s@),
{
    if s.len() > 0 && (s[0] == '-' || s[0] == '+') {
        let negative = s[0] == '-';
        let body = copy_range(s, 1, s.len());
        assert(body@ == s@.drop_first());
        let m = parse_unsigned(&body);
        if negative {
            Score { class: -m.class, point: m.point, digits: m.digits }
        } else {
            m
        }
    } else {
        parse_unsigned(s)
    }
}

/// The score of a candidate's descriptor: what stands before a final `w`
/// or `x`, read as a number with optional sign, fraction and exponent, or
/// as an infinity; zero for any other descriptor.
pub fn score_descriptor(d: &Vec<char>) -> (r: Score)
    ensures
        r@ == descriptor_score(d@),
{
    let n = d.len();
    if n > 0 && (d[n - 1] == 'w' || d[n - 1] == 'x') {
        let number = copy_range(d, 0, n - 1);
        assert(number@ == d@.drop_last());
        parse_number(&number)
    } else {
        Score::zero()
    }
}

/// The index of the best of the scores: the highest, the later one among
/// equals.
pub fn pick_last_best(scores: &Vec<Score>) -> (m: usize)
    requires
        scores.len() > 0,
    ensures
        m == last_best(score_views(scores@)),
        m < scores.len(),
{
    let ghost all = score_views(scores@);
    let mut m: usize = 0;
    let mut j: usize = 1;
    assert(last_best(all.take(1)) == 0);
    while j < scores.len()
        invariant
            1 <= j <= scores.len(),
            m < j,
            all == score_views(scores@),
            m == last_best(all.take(j as int)),
        decreases scores.len() - j,
    {
        proof {
            let next = all.take(j + 1);
            assert(next.drop_last() == all.take(j as int));
            assert(next.last() == scores@[j as int]@);
            assert(next[m as int] == scores@[m as int]@);
        }
        if !scores[j].less_than(&scores[m]) {
            m = j;
        }
        j += 1;
    }
    assert(all.take(scores.len() as int) == all);
    m
}

/// Picks the URL of the best candidate of a candidate list.
pub fn best_candidate(text: &Vec<char>) -> (r: Option<Vec<char>>)
    ensures
        view_opt(r) == best_candidate_url(text@),
{
    let parts = split_char(text, ',');
    let ghost all = texts(parts@);
    let mut urls: Vec<Vec<char>> = Vec::new();
    let mut scores: Vec<Score> = Vec::new();
    let mut i: usize = 0;
    assert(all.take(0) == Seq::<Seq<char>>::empty());
    while i < parts.len()
        invariant
            i <= parts.len(),
            all == texts(parts@),
            urls.len() == scores.len(),
            urls.len() == candidates_of(all.take(i as int)).len(),
            forall|k: int|
                0 <= k < urls.len() ==> (#[trigger] candidates_of(all.take(i as int))[k]).url
                    == urls@[k]@,
            forall|k: int|
                0 <= k < urls.len() ==> (#[trigger] candidates_of(
                    all.take(i as int),
                )[k]).score == scores@[k]@,
        decreases parts.len() - i,
    {
        proof {
            let next = all.take(i + 1);
            assert(next.drop_last() == all.take(i as int));
            assert(next.last() == parts@[i as int]@);
        }
        let mut w = split_words(&parts[i]);
        if w.len() > 0 {
            let score = if w.len() > 1 {
                assert(texts(w@)[1] == w@[1]@);
                score_descriptor(&w[1])
            } else {
                Score::zero()
            };
            assert(texts(w@)[0] == w@[0]@);
            let url = w.swap_remove(0);
            urls.push(url);
            scores.push(score);
        }
        i += 1;
    }
    assert(all.take(parts.len() as int) == all);
    if urls.len() == 0 {
        return None;
    }
    let m = pick_last_best(&scores);
    proof {
        let c = srcset_candidates(text@);
        assert(candidate_scores(c) =~= score_views(scores@));
    }
    Some(urls.swap_remove(m))
}

/// Picks the URL of the best candidate of a candidate list: the one with
/// the highest score, the later one among equals. A score is the number
/// before a final `w` or `x`, with optional sign, fraction and exponent,
/// compared exactly; `inf` and `infinity` stand above every number.
pub fn best_src_from_srcset(srcset: &str) -> (r: Option<String>)
    ensures
        view_opt_string(r) == best_candidate_url(srcset@),
{
    let text = chars_of(srcset);
    match best_candidate(&text) {
        Some(url) => Some(string_of(&url)),
        None => None,
    }
}

} // verus!
