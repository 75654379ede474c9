//! Regular expressions, matched by the `regex` crate.
//!
//! What a pattern matches is not restated here: each function's result is
//! named by a specification function of pattern and text, and the rules
//! that use a pattern speak of that name.

use vstd::prelude::*;
use regex::Regex;
use crate::text::{chars_of, chars_of_opt, string_of, string_views, view_opt, view_opt_string};
use crate::words::texts;

verus! {

/// `regex::Regex`, held inside a `Pattern`.
#[verifier::external_type_specification]
#[verifier::external_body]
pub struct ExRegex(regex::Regex);

/// Whether the pattern matches somewhere in the text; `None` if the pattern
/// does not compile.
pub uninterp spec fn regex_is_match(pattern: Seq<char>, text: Seq<char>) -> Option<bool>;

/// The successive non-overlapping matches of the pattern in the text, from
/// left to right; `None` if the pattern does not compile.
pub uninterp spec fn regex_find_all(pattern: Seq<char>, text: Seq<char>) -> Option<
    Seq<Seq<char>>,
>;

/// What capture group `group` holds in the leftmost match of the pattern in
/// the text; `None` if the pattern does not compile, if it matches nowhere
/// or if the group took no part in the match.
pub uninterp spec fn regex_first_capture(pattern: Seq<char>, text: Seq<char>, group: int) -> Option<
    Seq<char>,
>;

/// The pattern matches somewhere in the text.
pub open spec fn pattern_matches(pattern: Seq<char>, text: Seq<char>) -> bool {
    regex_is_match(pattern, text) == Some(true)
}

/// The matches of the pattern in the text; none if the pattern does not
/// compile.
pub open spec fn all_matches(pattern: Seq<char>, text: Seq<char>) -> Seq<Seq<char>> {
    match regex_find_all(pattern, text) {
        Some(found) => found,
        None => Seq::empty(),
    }
}

/// A pattern made ready for matching. It is made by `compile` alone, so
/// the compiled form always belongs to the text of the pattern.
pub struct Pattern {
    source: String,
    compiled: Option<Regex>,
}

impl View for Pattern {
    type V = Seq<char>;

    /// The text of the pattern.
    closed spec fn view(&self) -> Seq<char> {
        self.source@
    }
}

impl Pattern {
    /// Compiles `pattern` with `regex::Regex::new` and keeps the result
    /// beside the text of the pattern; a pattern that does not compile is
    /// kept without a compiled form.
    #[verifier::external_body]
    pub(crate) fn compile(pattern: &str) -> (p: Pattern)
        ensures
            p@ == pattern@,
    {
        Pattern { source: pattern.to_string(), compiled: Regex::new(pattern).ok() }
    }

    /// `regex::Regex::is_match` on the compiled pattern: whether it matches
    /// anywhere in `text`. A function of pattern and text alone.
    #[verifier::external_body]
    fn run_is_match(&self, text: &str) -> (r: Option<bool>)
        ensures
            r == regex_is_match(self@, text@),
    {
        self.compiled.as_ref().map(|re| re.is_match(text))
    }

    /// `regex::Regex::find_iter` on the compiled pattern: its successive
    /// matches in `text`, each as the text it covers.
    #[verifier::external_body]
    fn run_find_iter(&self, text: &str) -> (r: Option<Vec<String>>)
        ensures
            match r {
                Some(found) => regex_find_all(self@, text@) == Some(string_views(found@)),
                None => regex_find_all(self@, text@) is None,
            },
    {
        self.compiled.as_ref().map(|re| re.find_iter(text).map(|m| m.as_str().to_string()).collect())
    }

    /// `regex::Regex::captures` on the compiled pattern: the text of
    /// capture group `group` in the leftmost match in `text`.
    #[verifier::external_body]
    fn run_captures(&self, text: &str, group: usize) -> (r: Option<String>)
        ensures
            view_opt_string(r) == regex_first_capture(self@, text@, group as int),
    {
        let re = self.compiled.as_ref()?;
        re.captures(text).and_then(|c| c.get(group)).map(|m| m.as_str().to_string())
    }

    /// Whether the pattern matches somewhere in `text`.
    pub fn is_match(&self, text: &Vec<char>) -> (r: bool)
        ensures
            r == pattern_matches(self@, text@),
    {
        match self.run_is_match(string_of(text).as_str()) {
            Some(b) => b,
            None => false,
        }
    }

    /// The matches of the pattern in `text`, from left to right.
    pub fn find_all(&self, text: &Vec<char>) -> (r: Vec<Vec<char>>)
        ensures
            texts(r@) == all_matches(self@, text@),
    {
        let mut out: Vec<Vec<char>> = Vec::new();
        match self.run_find_iter(string_of(text).as_str()) {
            Some(found) => {
                let mut i: usize = 0;
                while i < found.len()
                    invariant
                        i <= found.len(),
                        out.len() == i,
                        forall|k: int| 0 <= k < i ==> #[trigger] out@[k]@ == found@[k]@,
                    decreases found.len() - i,
                {
                    out.push(chars_of(found[i].as_str()));
                    i += 1;
                }
                assert(texts(out@) =~= string_views(found@));
            },
            None => {
                assert(texts(out@) =~= Seq::<Seq<char>>::empty());
            },
        }
        out
    }

    /// What capture group `group` holds in the leftmost match of the
    /// pattern in `text`.
    pub fn first_capture(&self, text: &Vec<char>, group: usize) -> (r: Option<Vec<char>>)
        ensures
            view_opt(r) == regex_first_capture(self@, text@, group as int),
    {
        chars_of_opt(&self.run_captures(string_of(text).as_str(), group))
    }
}

} // verus!
