//! URLs, parsed and resolved by the `url` crate.

use vstd::prelude::*;
use url::Url;
use crate::text::{chars_of_opt, string_of, view_opt, view_opt_string};

verus! {

/// What the library reads of a parsed URL.
pub struct UrlParts {
    /// The URL as the parser writes it out again.
    pub href: String,
    pub scheme: String,
    pub host: Option<String>,
}

/// The mathematical value of the parts of a URL.
pub ghost struct UrlPartsView {
    pub href: Seq<char>,
    pub scheme: Seq<char>,
    pub host: Option<Seq<char>>,
}

impl View for UrlParts {
    type V = UrlPartsView;

    open spec fn view(&self) -> UrlPartsView {
        UrlPartsView { href: self.href@, scheme: self.scheme@, host: view_opt_string(self.host) }
    }
}

/// The URL that `text` parses to as an absolute URL; `None` if it does not.
pub uninterp spec fn url_parse(text: Seq<char>) -> Option<UrlPartsView>;

/// The URL that `reference` resolves to against the absolute URL `base`;
/// `None` if `base` does not parse or `reference` does not resolve.
pub uninterp spec fn url_join(base: Seq<char>, reference: Seq<char>) -> Option<Seq<char>>;

/// Parses `text` with `url::Url::parse` and copies from the parsed URL its
/// serialization, its scheme and its host. The parser reads nothing but
/// its argument.
#[verifier::external_body]
pub(crate) fn parse_url(text: &str) -> (r: Option<UrlParts>)
    ensures
        match r {
            Some(parts) => url_parse(text@) == Some(parts@),
            None => url_parse(text@) is None,
        },
{
    match Url::parse(text) {
        Ok(u) => Some(UrlParts {
            href: u.as_str().to_string(),
            scheme: u.scheme().to_string(),
            host: u.host_str().map(|h| h.to_string()),
        }),
        Err(_) => None,
    }
}

/// Parses `base` with `url::Url::parse` and resolves `reference` against it
/// with `Url::join`; the result is the serialization of the resolved URL.
#[verifier::external_body]
fn run_join(base: &str, reference: &str) -> (r: Option<String>)
    ensures
        view_opt_string(r) == url_join(base@, reference@),
{
    match Url::parse(base) {
        Ok(u) => u.join(reference).ok().map(|j| j.as_str().to_string()),
        Err(_) => None,
    }
}

/// Resolves `reference` against the absolute URL `base`.
pub fn join_url(base: &Vec<char>, reference: &Vec<char>) -> (r: Option<Vec<char>>)
    ensures
        view_opt(r) == url_join(base@, reference@),
{
    chars_of_opt(&run_join(string_of(base).as_str(), string_of(reference).as_str()))
}

} // verus!
