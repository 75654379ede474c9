//! The decisions of the service around the pipeline: which addresses are
//! allowed, which responses are taken for HTML, and how a failure is
//! reported.

use vstd::prelude::*;
use crate::extract::ExtractResult;
use crate::links::{parse_url, url_parse};
use crate::models::ExtractResponse;
use crate::text::{chars_of, contains, contains_str, ends_with, eq_str, has_suffix, lowercase};
use crate::text::{push_str, string_of, to_lowercase};

verus! {

/// Why an article could not be fetched.
#[derive(Debug)]
pub enum ExtractionError {
    /// The address is not one that the service fetches.
    InvalidUrl(String),
    /// The address did not answer with HTML.
    NotHtml,
    /// The address answered with an error.
    Upstream,
    /// The request itself failed.
    Request(String),
}

/// The mathematical value of an error.
pub ghost enum ExtractionErrorView {
    InvalidUrl(Seq<char>),
    NotHtml,
    Upstream,
    Request(Seq<char>),
}

impl View for ExtractionError {
    type V = ExtractionErrorView;

    open spec fn view(&self) -> ExtractionErrorView {
        match self {
            ExtractionError::InvalidUrl(m) => ExtractionErrorView::InvalidUrl(m@),
            ExtractionError::NotHtml => ExtractionErrorView::NotHtml,
            ExtractionError::Upstream => ExtractionErrorView::Upstream,
            ExtractionError::Request(m) => ExtractionErrorView::Request(m@),
        }
    }
}

/// The message of an error.
pub open spec fn message_of(e: ExtractionErrorView) -> Seq<char> {
    match e {
        ExtractionErrorView::InvalidUrl(m) => m,
        ExtractionErrorView::NotHtml => "URL did not return HTML"@,
        ExtractionErrorView::Upstream => "Upstream returned an error"@,
        ExtractionErrorView::Request(m) => m,
    }
}

/// The HTTP status and the detail with which an error is reported.
pub open spec fn report_of(e: ExtractionErrorView) -> (int, Seq<char>) {
    match e {
        ExtractionErrorView::InvalidUrl(m) => (400, m),
        ExtractionErrorView::NotHtml => (422, "URL did not return HTML"@),
        ExtractionErrorView::Upstream => (502, "Upstream returned an error"@),
        ExtractionErrorView::Request(m) => (502, "Upstream request failed: "@ + m),
    }
}

/// A host in lower case that belongs to the one domain that the service
/// fetches from: the domain itself or a name below it.
pub open spec fn is_domain_host(lowered: Seq<char>) -> bool {
    lowered == "jw.org"@ || has_suffix(lowered, ".jw.org"@)
}

/// Why a parsed address with the given scheme and host, the host in lower
/// case, is refused; `None` if it is allowed.
pub open spec fn refusal_of_parts(scheme: Seq<char>, lowered_host: Seq<char>) -> Option<Seq<char>> {
    if scheme != "https"@ {
        Some("Only https URLs are allowed"@)
    } else if is_domain_host(lowered_host) {
        None
    } else {
        Some("Only jw.org URLs are allowed"@)
    }
}

/// Why an address is refused; `None` for an address that is allowed: one
/// that parses, has the scheme `https` and a host of the domain.
pub open spec fn refusal_of(url: Seq<char>) -> Option<Seq<char>> {
    match url_parse(url) {
        None => Some("Invalid URL"@),
        Some(parts) => refusal_of_parts(
            parts.scheme,
            lowercase(
                match parts.host {
                    Some(h) => h,
                    None => Seq::empty(),
                },
            ),
        ),
    }
}

/// A content type in lower case that names HTML.
pub open spec fn names_html(lowered: Seq<char>) -> bool {
    contains(lowered, "text/html"@)
}

/// Why a response is refused; `None` for a successful response whose
/// content type names HTML.
pub open spec fn response_refusal(success: bool, content_type: Seq<char>) -> Option<
    ExtractionErrorView,
> {
    if !success {
        Some(ExtractionErrorView::Upstream)
    } else if !names_html(lowercase(content_type)) {
        Some(ExtractionErrorView::NotHtml)
    } else {
        None
    }
}

/// The error for a request that failed, by what went wrong.
pub open spec fn request_failure(timeout: bool, connect: bool, detail: Seq<char>) -> ExtractionErrorView {
    ExtractionErrorView::Request(
        (if timeout {
            "TimeoutError: "@
        } else if connect {
            "ConnectError: "@
        } else {
            "RequestError: "@
        }) + detail,
    )
}

/// The refusal of an address, with its reason.
fn invalid(message: &str) -> (r: Result<(), ExtractionError>)
    ensures
        r matches Err(e) && e@ == ExtractionErrorView::InvalidUrl(message@),
{
    Err(ExtractionError::InvalidUrl(String::from_str(message)))
}

/// Whether a host in lower case belongs to the domain.
pub fn domain_host(lowered: &Vec<char>) -> (r: bool)
    ensures
        r == is_domain_host(lowered@),
{
    eq_str(lowered, "jw.org") || ends_with(lowered, &chars_of(".jw.org"))
}

/// Checks scheme and host of a parsed address, the host in lower case.
pub fn check_parts(scheme: &str, lowered_host: &Vec<char>) -> (r: Result<(), ExtractionError>)
    ensures
        match r {
            Ok(_) => refusal_of_parts(scheme@, lowered_host@) is None,
            Err(e) => refusal_of_parts(scheme@, lowered_host@) matches Some(m) && e@
                == ExtractionErrorView::InvalidUrl(m),
        },
{
    if !eq_str(&chars_of(scheme), "https") {
        return invalid("Only https URLs are allowed");
    }
    if domain_host(lowered_host) {
        return Ok(());
    }
    invalid("Only jw.org URLs are allowed")
}

/// Whether a content type in lower case names HTML.
pub fn html_content_type(lowered: &Vec<char>) -> (r: bool)
    ensures
        r == names_html(lowered@),
{
    contains_str(lowered, "text/html")
}

/// Checks that an address is one that the service fetches.
pub fn validate_url(url: &str) -> (r: Result<(), ExtractionError>)
    ensures
        match r {
            Ok(_) => refusal_of(url@) is None,
            Err(e) => refusal_of(url@) matches Some(m) && e@ == ExtractionErrorView::InvalidUrl(m),
        },
{
    let parts = match parse_url(url) {
        Some(p) => p,
        None => {
            return invalid("Invalid URL");
        },
    };
    let host = match &parts.host {
        Some(h) => to_lowercase(&chars_of(h.as_str())),
        None => to_lowercase(&Vec::new()),
    };
    check_parts(parts.scheme.as_str(), &host)
}

/// Checks that a response can be handed to the pipeline.
pub fn check_response(success: bool, content_type: &str) -> (r: Result<(), ExtractionError>)
    ensures
        match r {
            Ok(_) => response_refusal(success, content_type@) is None,
            Err(e) => response_refusal(success, content_type@) == Some(e@),
        },
{
    if !success {
        return Err(ExtractionError::Upstream);
    }
    if !html_content_type(&to_lowercase(&chars_of(content_type))) {
        return Err(ExtractionError::NotHtml);
    }
    Ok(())
}

/// The error for a request that failed.
pub fn request_error(timeout: bool, connect: bool, detail: &str) -> (e: ExtractionError)
    ensures
        e@ == request_failure(timeout, connect, detail@),
{
    let mut m: Vec<char> = Vec::new();
    if timeout {
        push_str(&mut m, "TimeoutError: ");
    } else if connect {
        push_str(&mut m, "ConnectError: ");
    } else {
        push_str(&mut m, "RequestError: ");
    }
    push_str(&mut m, detail);
    assert(Seq::<char>::empty() + "TimeoutError: "@ == "TimeoutError: "@);
    assert(Seq::<char>::empty() + "ConnectError: "@ == "ConnectError: "@);
    assert(Seq::<char>::empty() + "RequestError: "@ == "RequestError: "@);
    ExtractionError::Request(string_of(&m))
}

impl ExtractionError {
    /// The message of the error.
    pub fn message(&self) -> (r: String)
        ensures
            r@ == message_of(self@),
    {
        match self {
            ExtractionError::InvalidUrl(m) => m.clone(),
            ExtractionError::NotHtml => String::from_str("URL did not return HTML"),
            ExtractionError::Upstream => String::from_str("Upstream returned an error"),
            ExtractionError::Request(m) => m.clone(),
        }
    }

    /// The HTTP status and the detail with which the error is reported.
    pub fn report(&self) -> (r: (u16, String))
        ensures
            (r.0 as int, r.1@) == report_of(self@),
    {
        match self {
            ExtractionError::InvalidUrl(m) => (400, m.clone()),
            ExtractionError::NotHtml => (422, String::from_str("URL did not return HTML")),
            ExtractionError::Upstream => (502, String::from_str("Upstream returned an error")),
            ExtractionError::Request(m) => {
                let mut d: Vec<char> = Vec::new();
                push_str(&mut d, "Upstream request failed: ");
                push_str(&mut d, m.as_str());
                assert(Seq::<char>::empty() + "Upstream request failed: "@
                    == "Upstream request failed: "@);
                (502, string_of(&d))
            },
        }
    }
}

/// The response body for a result.
pub fn response_of(result: ExtractResult) -> (r: ExtractResponse)
    ensures
        r.markdown == result.markdown,
        r.title == result.title,
        r.source_url == result.source_url,
        r.images == result.images,
{
    ExtractResponse {
        markdown: result.markdown,
        title: result.title,
        source_url: result.source_url,
        images: result.images,
    }
}

} // verus!
