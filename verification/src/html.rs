//! Parsing HTML text into the document model.

use vstd::prelude::*;
use ego_tree::iter::Edge;
use scraper::{Html, Node};
use vstd::utf8::encode_utf8;
use crate::dom::{Attr, Document, DomEvent, DomEventView, DomNodeView, ElementData, NodeValue};
use crate::dom::{event_views, nodes_of_events};

verus! {

/// The walk in document order through the tree that the HTML parser builds
/// from `html`: every node is entered and left again, children between the
/// two.
pub uninterp spec fn parsed_events(html: Seq<char>) -> Seq<DomEventView>;

/// The most markup, in bytes of UTF-8, that is handed to the parser. The
/// parser holds text in buffers of at most 2^32 bytes, and a character of
/// markup becomes at most three bytes of text.
pub const MAX_MARKUP_BYTES: usize = 0x4000_0000;

/// The length of `html` in bytes of UTF-8, as a string reports it.
pub open spec fn markup_bytes(html: Seq<char>) -> usize {
    encode_utf8(html).len() as usize
}

/// The document that the HTML parser builds from `html`; markup of more
/// than 2^30 bytes is not parsed and gives a document without nodes.
pub open spec fn parsed_document(html: Seq<char>) -> Seq<DomNodeView> {
    if markup_bytes(html) <= MAX_MARKUP_BYTES {
        nodes_of_events(parsed_events(html), 0)
    } else {
        Seq::empty()
    }
}

/// Parses `html` with `scraper::Html::parse_document` and walks the tree
/// from its root with `ego_tree`'s `traverse`. Each step of that walk is
/// handed on as one event; a node that is entered is copied as its local
/// name, class names and attributes (an element), its text (a text node),
/// or nothing (any other node). Parsing does not fail, and the same text
/// gives the same tree. Markup beyond the size of the parser's buffers is
/// left out, since the parser stops the program on it.
#[verifier::external_body]
fn parse_events(html: &str) -> (events: Vec<DomEvent>)
    requires
        markup_bytes(html@) <= MAX_MARKUP_BYTES,
    ensures
        event_views(events@) == parsed_events(html@),
{
    let doc = Html::parse_document(html);
    doc.tree.root().traverse().map(|edge| match edge {
        Edge::Open(n) => DomEvent::Open(match n.value() {
            Node::Element(e) => NodeValue::Element(ElementData {
                name: e.name().to_string(),
                classes: e.classes().map(String::from).collect(),
                attrs: e.attrs.iter().map(|(k, v)| Attr { ns: k.ns.to_string(), name: k.local.to_string(), value: v.to_string() }).collect(),
            }),
            Node::Text(t) => NodeValue::Text(t.text.to_string()),
            _ => NodeValue::Other,
        }),
        Edge::Close(_) => DomEvent::Close,
    }).collect()
}

/// Parses `html` into a document.
pub fn parse_document(html: &str) -> (doc: Document)
    ensures
        doc@ == parsed_document(html@),
{
    assert(html.len() == markup_bytes(html@));
    if html.len() <= MAX_MARKUP_BYTES {
        Document::from_events(parse_events(html))
    } else {
        let doc = Document { nodes: Vec::new() };
        assert(doc@ =~= Seq::<DomNodeView>::empty());
        doc
    }
}

} // verus!
