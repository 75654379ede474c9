//! The document model: the nodes of a parsed document in document order,
//! each with its depth in the tree.
//!
//! A node's subtree is the run of nodes that follow it and lie deeper than
//! it, so an index into the node list serves as a handle to an element, and
//! "first in document order" is "smallest index".

use vstd::prelude::*;

verus! {

/// One attribute of an element.
pub struct Attr {
    /// Namespace of the attribute; empty for the attributes of HTML.
    pub ns: String,
    /// Local name.
    pub name: String,
    pub value: String,
}

/// The mathematical value of an attribute.
pub ghost struct AttrView {
    pub ns: Seq<char>,
    pub name: Seq<char>,
    pub value: Seq<char>,
}

impl View for Attr {
    type V = AttrView;

    open spec fn view(&self) -> AttrView {
        AttrView { ns: self.ns@, name: self.name@, value: self.value@ }
    }
}

/// What the library reads of an element: its local name, its class names
/// and its attributes.
pub struct ElementData {
    pub name: String,
    pub classes: Vec<String>,
    pub attrs: Vec<Attr>,
}

/// The mathematical value of an element.
pub ghost struct ElementView {
    pub name: Seq<char>,
    pub classes: Seq<Seq<char>>,
    pub attrs: Seq<AttrView>,
}

impl View for ElementData {
    type V = ElementView;

    open spec fn view(&self) -> ElementView {
        ElementView {
            name: self.name@,
            classes: Seq::new(self.classes@.len(), |i: int| self.classes@[i]@),
            attrs: Seq::new(self.attrs@.len(), |i: int| self.attrs@[i]@),
        }
    }
}

/// The content of a node.
pub enum NodeValue {
    Element(ElementData),
    Text(String),
    /// A comment, a doctype, a processing instruction, the document root,
    /// or the fragment node that holds the contents of a `template` element.
    Other,
}

/// The mathematical value of a node's content.
pub ghost enum NodeView {
    Element(ElementView),
    Text(Seq<char>),
    Other,
}

impl View for NodeValue {
    type V = NodeView;

    open spec fn view(&self) -> NodeView {
        match self {
            NodeValue::Element(e) => NodeView::Element(e@),
            NodeValue::Text(t) => NodeView::Text(t@),
            NodeValue::Other => NodeView::Other,
        }
    }
}

/// A step of a walk through a tree in document order: a node is entered,
/// or the node entered last and not yet left is left.
pub enum DomEvent {
    Open(NodeValue),
    Close,
}

/// The mathematical value of a step of a walk.
pub ghost enum DomEventView {
    Open(NodeView),
    Close,
}

impl View for DomEvent {
    type V = DomEventView;

    open spec fn view(&self) -> DomEventView {
        match self {
            DomEvent::Open(v) => DomEventView::Open(v@),
            DomEvent::Close => DomEventView::Close,
        }
    }
}

/// A node with the number of its ancestors.
pub struct DomNode {
    pub depth: usize,
    pub value: NodeValue,
}

/// The mathematical value of a node.
pub ghost struct DomNodeView {
    pub depth: nat,
    pub value: NodeView,
}

impl View for DomNode {
    type V = DomNodeView;

    open spec fn view(&self) -> DomNodeView {
        DomNodeView { depth: self.depth as nat, value: self.value@ }
    }
}

/// A document: its nodes in document order.
pub struct Document {
    pub nodes: Vec<DomNode>,
}

impl View for Document {
    type V = Seq<DomNodeView>;

    open spec fn view(&self) -> Seq<DomNodeView> {
        node_views(self.nodes@)
    }
}

/// The views of a run of nodes.
pub open spec fn node_views(nodes: Seq<DomNode>) -> Seq<DomNodeView> {
    Seq::new(nodes.len(), |i: int| nodes[i]@)
}

/// The views of a run of events.
pub open spec fn event_views(events: Seq<DomEvent>) -> Seq<DomEventView> {
    Seq::new(events.len(), |i: int| events[i]@)
}

/// The nodes that a run of events enters, each at the depth at which it is
/// entered; `depth` is the depth before the first event. A `Close` at
/// depth 0 leaves nothing.
pub open spec fn nodes_of_events(events: Seq<DomEventView>, depth: nat) -> Seq<DomNodeView>
    decreases events.len(),
{
    if events.len() == 0 {
        Seq::empty()
    } else {
        match events[0] {
            DomEventView::Open(value) => seq![DomNodeView { depth, value }] + nodes_of_events(
                events.drop_first(),
                depth + 1,
            ),
            DomEventView::Close => nodes_of_events(
                events.drop_first(),
                if depth > 0 {
                    (depth - 1) as nat
                } else {
                    0
                },
            ),
        }
    }
}

/// The first index from `j` on whose node is not deeper than `depth`, or
/// the number of nodes if there is none.
pub open spec fn scan_end(doc: Seq<DomNodeView>, depth: nat, j: int) -> int
    decreases doc.len() - j,
{
    if j < 0 || j >= doc.len() {
        doc.len() as int
    } else if doc[j].depth <= depth {
        j
    } else {
        scan_end(doc, depth, j + 1)
    }
}

/// The index just behind the subtree of node `i`.
pub open spec fn subtree_end(doc: Seq<DomNodeView>, i: int) -> int {
    scan_end(doc, doc[i].depth, i + 1)
}

/// Node `i` is an element.
pub open spec fn is_element(doc: Seq<DomNodeView>, i: int) -> bool {
    0 <= i < doc.len() && doc[i].value is Element
}

/// Node `i` is an element with the local name `tag`.
pub open spec fn is_tag(doc: Seq<DomNodeView>, i: int, tag: Seq<char>) -> bool {
    is_element(doc, i) && doc[i].value->Element_0.name == tag
}

/// A scan ends at or behind its start, passes only deeper nodes, and stops
/// at a node that is not deeper.
pub proof fn lemma_scan_end(doc: Seq<DomNodeView>, depth: nat, j: int)
    requires
        0 <= j <= doc.len(),
    ensures
        j <= scan_end(doc, depth, j) <= doc.len(),
        forall|k: int| j <= k < scan_end(doc, depth, j) ==> (#[trigger] doc[k]).depth > depth,
        scan_end(doc, depth, j) < doc.len() ==> doc[scan_end(doc, depth, j)].depth <= depth,
    decreases doc.len() - j,
{
    if j < doc.len() && doc[j].depth > depth {
        lemma_scan_end(doc, depth, j + 1);
    }
}

/// The subtree of a node is a run of deeper nodes right behind it, and it
/// ends at the first node that is not deeper.
pub proof fn lemma_subtree_end(doc: Seq<DomNodeView>, i: int)
    requires
        0 <= i < doc.len(),
    ensures
        i < subtree_end(doc, i) <= doc.len(),
        forall|k: int| i < k < subtree_end(doc, i) ==> (#[trigger] doc[k]).depth > doc[i].depth,
        subtree_end(doc, i) < doc.len() ==> doc[subtree_end(doc, i)].depth <= doc[i].depth,
{
    lemma_scan_end(doc, doc[i].depth, i + 1);
}

/// A scan that has passed only deeper nodes ends where a scan from its start
/// ends.
pub proof fn lemma_scan_end_from(doc: Seq<DomNodeView>, depth: nat, j: int, k: int)
    requires
        0 <= j <= k <= doc.len(),
        forall|m: int| j <= m < k ==> (#[trigger] doc[m]).depth > depth,
    ensures
        scan_end(doc, depth, j) == scan_end(doc, depth, k),
    decreases k - j,
{
    if j < k {
        lemma_scan_end_from(doc, depth, j + 1, k);
    }
}

impl Document {
    /// Number of nodes.
    pub fn len(&self) -> (n: usize)
        ensures
            n == self@.len(),
    {
        self.nodes.len()
    }

    /// The document that a walk in document order describes.
    pub fn from_events(events: Vec<DomEvent>) -> (doc: Document)
        ensures
            doc@ == nodes_of_events(event_views(events@), 0),
    {
        let ghost all = event_views(events@);
        let mut nodes: Vec<DomNode> = Vec::new();
        let mut depth: usize = 0;
        assert(all.skip(0) == all);
        assert(node_views(nodes@) + nodes_of_events(all, 0) == nodes_of_events(all, 0));
        for event in it: events
            invariant
                all == event_views(it.seq()),
                depth <= nodes.len(),
                nodes_of_events(all, 0) == node_views(nodes@) + nodes_of_events(
                    all.skip(it.index() as int),
                    depth as nat,
                ),
        {
            let ghost i = it.index() as int;
            let ghost built = node_views(nodes@);
            assert(all.skip(i)[0] == all[i]);
            assert(all.skip(i).drop_first() == all.skip(i + 1));
            match event {
                DomEvent::Open(value) => {
                    let node = DomNode { depth, value };
                    let ghost view = node@;
                    nodes.push(node);
                    let count = nodes.len();
                    assert(depth < count);
                    depth = depth + 1;
                    proof {
                        assert(node_views(nodes@) == built.push(view));
                        let rest = nodes_of_events(all.skip(i + 1), depth as nat);
                        assert(built + (seq![view] + rest) == built.push(view) + rest);
                    }
                },
                DomEvent::Close => {
                    if depth > 0 {
                        depth = depth - 1;
                    }
                },
            }
        }
        assert(all.skip(all.len() as int) == Seq::<DomEventView>::empty());
        assert(node_views(nodes@) + Seq::<DomNodeView>::empty() == node_views(nodes@));
        Document { nodes }
    }

    /// The index just behind the subtree of node `i`.
    pub fn subtree_end(&self, i: usize) -> (e: usize)
        requires
            i < self@.len(),
        ensures
            e == subtree_end(self@, i as int),
            i < e <= self@.len(),
    {
        let n = self.nodes.len();
        assert(self@.len() == n);
        let depth = self.nodes[i].depth;
        let mut j: usize = i + 1;
        proof {
            lemma_subtree_end(self@, i as int);
        }
        while j < self.nodes.len() && self.nodes[j].depth > depth
            invariant
                i < j <= self.nodes.len(),
                i < self@.len(),
                depth == self@[i as int].depth,
                forall|m: int| i < m < j ==> (#[trigger] self@[m]).depth > depth,
            decreases self.nodes.len() - j,
        {
            j += 1;
        }
        proof {
            lemma_scan_end_from(self@, depth as nat, i + 1, j as int);
        }
        j
    }
}

} // verus!
