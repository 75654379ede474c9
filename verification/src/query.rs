//! Reading a document: attributes, text, and the search for elements.

use vstd::prelude::*;
use crate::dom::{AttrView, Document, DomNodeView, ElementData, ElementView, NodeValue, NodeView};
use crate::dom::{is_element, is_tag, subtree_end};
use crate::text::{chars_of, push_str, trim, trimmed, view_opt};
use crate::words::{join, normalize, normalized};

verus! {

/// The value of the first attribute from index `from` on that has no
/// namespace and the local name `name`.
pub open spec fn attr_from(attrs: Seq<AttrView>, name: Seq<char>, from: int) -> Option<Seq<char>>
    decreases attrs.len() - from,
{
    if from < 0 || from >= attrs.len() {
        None
    } else if attrs[from].ns.len() == 0 && attrs[from].name == name {
        Some(attrs[from].value)
    } else {
        attr_from(attrs, name, from + 1)
    }
}

/// The value of the attribute `name` of an element.
pub open spec fn attr_of(e: ElementView, name: Seq<char>) -> Option<Seq<char>> {
    attr_from(e.attrs, name, 0)
}

/// The value of the first attribute from index `from` on whose local name
/// is `id`, whatever its namespace.
pub open spec fn id_from(attrs: Seq<AttrView>, from: int) -> Option<Seq<char>>
    decreases attrs.len() - from,
{
    if from < 0 || from >= attrs.len() {
        None
    } else if attrs[from].name == "id"@ {
        Some(attrs[from].value)
    } else {
        id_from(attrs, from + 1)
    }
}

/// The identifier and the class names of an element in one text: the
/// identifier (empty if there is none), a space, and the class names with a
/// space between each two.
pub open spec fn class_id_of(e: ElementView) -> Seq<char> {
    (match id_from(e.attrs, 0) {
        Some(id) => id,
        None => Seq::empty(),
    }) + seq![' '] + join(e.classes, seq![' '])
}

/// The text of a node that is a text node; nothing for any other node.
pub open spec fn node_text(node: DomNodeView) -> Seq<char> {
    match node.value {
        NodeView::Text(t) => t,
        _ => Seq::empty(),
    }
}

/// Where a walk through what lies below an element goes on behind node
/// `j`: into the node if it is an element, past its subtree if it is not.
/// So the walk enters nothing below a node that is no element, such as the
/// fragment that holds the contents of a `template`.
pub open spec fn step_behind(doc: Seq<DomNodeView>, j: int) -> int {
    if doc[j].value is Element {
        j + 1
    } else {
        subtree_end(doc, j)
    }
}

/// The texts of the text nodes that the walk from `from` meets before
/// `to`, in document order.
pub open spec fn texts_between(doc: Seq<DomNodeView>, from: int, to: int) -> Seq<char>
    decreases doc.len() - from,
{
    if from < 0 || from >= to || from >= doc.len() {
        Seq::empty()
    } else {
        let next = step_behind(doc, from);
        if next <= from || next > doc.len() {
            node_text(doc[from])
        } else {
            node_text(doc[from]) + texts_between(doc, next, to)
        }
    }
}

/// All text below node `i`, in document order: the text nodes that are
/// children of the node or of elements below it.
pub open spec fn text_of(doc: Seq<DomNodeView>, i: int) -> Seq<char> {
    texts_between(doc, i + 1, subtree_end(doc, i))
}

/// The first index in `from..to` of an element named `tag`, whatever it
/// lies below.
pub open spec fn first_tag_between(doc: Seq<DomNodeView>, tag: Seq<char>, from: int, to: int) -> Option<
    int,
>
    decreases to - from,
{
    if from >= to {
        None
    } else if is_tag(doc, from, tag) {
        Some(from)
    } else {
        first_tag_between(doc, tag, from + 1, to)
    }
}

/// The first element named `tag` that the walk from `from` meets before
/// `to`.
pub open spec fn first_tag_below(doc: Seq<DomNodeView>, tag: Seq<char>, from: int, to: int) -> Option<
    int,
>
    decreases doc.len() - from,
{
    if from < 0 || from >= to || from >= doc.len() {
        None
    } else if is_tag(doc, from, tag) {
        Some(from)
    } else {
        let next = step_behind(doc, from);
        if next <= from || next > doc.len() {
            None
        } else {
            first_tag_below(doc, tag, next, to)
        }
    }
}

/// The first element named `tag` below node `i`, in document order, among
/// the children of the node and of elements below it.
pub open spec fn first_descendant(doc: Seq<DomNodeView>, i: int, tag: Seq<char>) -> Option<int> {
    first_tag_below(doc, tag, i + 1, subtree_end(doc, i))
}

/// The first element named `tag` anywhere below node `i`, as a selector
/// finds it: the contents of a `template` count.
pub open spec fn first_selected_below(doc: Seq<DomNodeView>, i: int, tag: Seq<char>) -> Option<
    int,
> {
    first_tag_between(doc, tag, i + 1, subtree_end(doc, i))
}

/// The first element named `tag` in the document.
pub open spec fn first_in_document(doc: Seq<DomNodeView>, tag: Seq<char>) -> Option<int> {
    first_tag_between(doc, tag, 0, doc.len() as int)
}

/// An element that the walk from `from` meets before `to` has exactly the
/// text `target`, once whitespace is normalized.
pub open spec fn exact_text_between(doc: Seq<DomNodeView>, target: Seq<char>, from: int, to: int) -> bool
    decreases doc.len() - from,
{
    if from < 0 || from >= to || from >= doc.len() {
        false
    } else if is_element(doc, from) && trim(normalize(text_of(doc, from))) == target {
        true
    } else {
        let next = step_behind(doc, from);
        if next <= from || next > doc.len() {
            false
        } else {
            exact_text_between(doc, target, next, to)
        }
    }
}

/// Node `i` or an element below it, reached through elements alone, has
/// exactly the text `target`, once whitespace is normalized.
pub open spec fn has_exact_text(doc: Seq<DomNodeView>, i: int, target: Seq<char>) -> bool {
    exact_text_between(doc, target, i, subtree_end(doc, i))
}

/// What `first_tag_between` finds is the first element of that name in the
/// range, and it finds one if there is one.
pub proof fn lemma_first_tag_between(doc: Seq<DomNodeView>, tag: Seq<char>, from: int, to: int)
    requires
        0 <= from,
        to <= doc.len(),
    ensures
        match first_tag_between(doc, tag, from, to) {
            Some(j) => from <= j < to && is_tag(doc, j, tag) && forall|k: int|
                from <= k < j ==> !is_tag(doc, k, tag),
            None => forall|k: int| from <= k < to ==> !is_tag(doc, k, tag),
        },
    decreases to - from,
{
    if from < to && !is_tag(doc, from, tag) {
        lemma_first_tag_between(doc, tag, from + 1, to);
    }
}

impl ElementData {
    /// The value of the attribute `name`.
    pub fn attr(&self, name: &str) -> (r: Option<Vec<char>>)
        ensures
            view_opt(r) == attr_of(self@, name@),
    {
        let wanted = String::from_str(name);
        let mut i: usize = 0;
        while i < self.attrs.len()
            invariant
                i <= self.attrs.len(),
                wanted@ == name@,
                attr_of(self@, name@) == attr_from(self@.attrs, name@, i as int),
            decreases self.attrs.len() - i,
        {
            let a = &self.attrs[i];
            assert(self@.attrs[i as int] == a@);
            if a.ns.as_str().is_empty() && a.name == wanted {
                return Some(chars_of(a.value.as_str()));
            }
            i += 1;
        }
        None
    }

    /// The identifier and the class names in one text.
    pub fn class_id(&self) -> (r: Vec<char>)
        ensures
            r@ == class_id_of(self@),
    {
        let wanted = String::from_str("id");
        let mut r: Vec<char> = Vec::new();
        let mut i: usize = 0;
        let mut found = false;
        while i < self.attrs.len() && !found
            invariant
                i <= self.attrs.len(),
                wanted@ == "id"@,
                !found ==> r@.len() == 0 && id_from(self@.attrs, 0) == id_from(
                    self@.attrs,
                    i as int,
                ),
                found ==> id_from(self@.attrs, 0) == Some(r@),
            decreases self.attrs.len() - i, if found { 0int } else { 1int },
        {
            let a = &self.attrs[i];
            assert(self@.attrs[i as int] == a@);
            if a.name == wanted {
                push_str(&mut r, a.value.as_str());
                found = true;
                assert(r@ == a.value@);
            } else {
                i += 1;
            }
        }
        let ghost id = r@;
        r.push(' ');
        let mut k: usize = 0;
        assert(self@.classes.take(0) == Seq::<Seq<char>>::empty());
        assert(id + seq![' '] + Seq::<char>::empty() == id.push(' '));
        while k < self.classes.len()
            invariant
                k <= self.classes.len(),
                r@ == id + seq![' '] + join(self@.classes.take(k as int), seq![' ']),
            decreases self.classes.len() - k,
        {
            proof {
                let next = self@.classes.take(k + 1);
                assert(next.drop_last() == self@.classes.take(k as int));
                assert(next.last() == self.classes@[k as int]@);
            }
            if k > 0 {
                r.push(' ');
            }
            push_str(&mut r, self.classes[k].as_str());
            proof {
                let prev = join(self@.classes.take(k as int), seq![' ']);
                let c = self.classes@[k as int]@;
                if k > 0 {
                    assert((id + seq![' '] + prev).push(' ') + c == id + seq![' '] + (prev
                        + seq![' '] + c));
                } else {
                    assert(self@.classes.take(1)[0] == c);
                    assert(id + seq![' '] + prev + c == id + seq![' '] + c);
                }
            }
            k += 1;
        }
        assert(self@.classes.take(self.classes.len() as int) == self@.classes);
        r
    }
}

impl Document {
    /// The element at index `i`, if that node is an element.
    pub fn element(&self, i: usize) -> (r: Option<&ElementData>)
        ensures
            match r {
                Some(e) => is_element(self@, i as int) && self@[i as int].value
                    == NodeView::Element(e@),
                None => !is_element(self@, i as int),
            },
    {
        if i >= self.nodes.len() {
            return None;
        }
        assert(self@[i as int] == self.nodes@[i as int]@);
        match &self.nodes[i].value {
            NodeValue::Element(e) => Some(e),
            _ => None,
        }
    }

    /// Whether node `i` is an element named `tag`.
    pub fn has_tag(&self, i: usize, tag: &str) -> (r: bool)
        ensures
            r == is_tag(self@, i as int, tag@),
    {
        match self.element(i) {
            Some(e) => {
                let wanted = String::from_str(tag);
                e.name == wanted
            },
            None => false,
        }
    }

    /// Where a walk through what lies below an element goes on behind
    /// node `j`.
    pub fn step_behind(&self, j: usize) -> (next: usize)
        requires
            j < self@.len(),
        ensures
            next == step_behind(self@, j as int),
            j < next <= self@.len(),
    {
        assert(self@[j as int] == self.nodes@[j as int]@);
        let n = self.nodes.len();
        match &self.nodes[j].value {
            NodeValue::Element(_) => j + 1,
            _ => self.subtree_end(j),
        }
    }

    /// The texts of the text nodes that the walk from `from` meets before
    /// `to`.
    pub fn collect_between(&self, from: usize, to: usize) -> (r: Vec<char>)
        ensures
            r@ == texts_between(self@, from as int, to as int),
    {
        let mut r: Vec<char> = Vec::new();
        let mut j: usize = from;
        let ghost total = texts_between(self@, from as int, to as int);
        assert(r@ + total == total);
        while j < to && j < self.nodes.len()
            invariant
                from <= j,
                self@.len() == self.nodes.len(),
                total == r@ + texts_between(self@, j as int, to as int),
            decreases self@.len() - j,
        {
            let next = self.step_behind(j);
            let ghost before = r@;
            let ghost here = node_text(self@[j as int]);
            let ghost rest = texts_between(self@, next as int, to as int);
            assert(self@[j as int] == self.nodes@[j as int]@);
            match &self.nodes[j].value {
                NodeValue::Text(t) => {
                    push_str(&mut r, t.as_str());
                },
                _ => {
                    assert(r@ + Seq::<char>::empty() == r@);
                },
            }
            assert(before + (here + rest) == before + here + rest);
            j = next;
        }
        assert(r@ + Seq::<char>::empty() == r@);
        r
    }

    /// All text below node `i`, in document order.
    pub fn collect_text(&self, i: usize) -> (r: Vec<char>)
        requires
            i < self@.len(),
        ensures
            r@ == text_of(self@, i as int),
    {
        let end = self.subtree_end(i);
        self.collect_between(i + 1, end)
    }

    /// The first index in `from..to` of an element named `tag`.
    pub fn find_tag_between(&self, tag: &str, from: usize, to: usize) -> (r: Option<usize>)
        requires
            to <= self@.len(),
        ensures
            match r {
                Some(j) => first_tag_between(self@, tag@, from as int, to as int) == Some(
                    j as int,
                ) && from <= j < to,
                None => first_tag_between(self@, tag@, from as int, to as int) is None,
            },
    {
        let mut j: usize = from;
        while j < to
            invariant
                from <= j,
                to <= self@.len(),
                first_tag_between(self@, tag@, from as int, to as int) == first_tag_between(
                    self@,
                    tag@,
                    j as int,
                    to as int,
                ),
            decreases to - j,
        {
            if self.has_tag(j, tag) {
                return Some(j);
            }
            j += 1;
        }
        None
    }

    /// The first element named `tag` that the walk from `from` meets
    /// before `to`.
    pub fn find_tag_below(&self, tag: &str, from: usize, to: usize) -> (r: Option<usize>)
        requires
            to <= self@.len(),
        ensures
            match r {
                Some(j) => first_tag_below(self@, tag@, from as int, to as int) == Some(j as int)
                    && from <= j < to && is_tag(self@, j as int, tag@),
                None => first_tag_below(self@, tag@, from as int, to as int) is None,
            },
    {
        let mut j: usize = from;
        while j < to
            invariant
                from <= j,
                to <= self@.len(),
                first_tag_below(self@, tag@, from as int, to as int) == first_tag_below(
                    self@,
                    tag@,
                    j as int,
                    to as int,
                ),
            decreases self@.len() - j,
        {
            if self.has_tag(j, tag) {
                return Some(j);
            }
            j = self.step_behind(j);
        }
        None
    }

    /// The first element named `tag` below node `i`, in document order,
    /// among the children of the node and of elements below it.
    pub fn find_first_tag(&self, i: usize, tag: &str) -> (r: Option<usize>)
        requires
            i < self@.len(),
        ensures
            match r {
                Some(j) => first_descendant(self@, i as int, tag@) == Some(j as int) && i < j
                    < subtree_end(self@, i as int) <= self@.len() && is_tag(
                    self@,
                    j as int,
                    tag@,
                ),
                None => first_descendant(self@, i as int, tag@) is None,
            },
    {
        let end = self.subtree_end(i);
        self.find_tag_below(tag, i + 1, end)
    }

    /// The first element named `tag` anywhere below node `i`, as a
    /// selector finds it.
    pub fn select_first_below(&self, i: usize, tag: &str) -> (r: Option<usize>)
        requires
            i < self@.len(),
        ensures
            match r {
                Some(j) => first_selected_below(self@, i as int, tag@) == Some(j as int) && i < j
                    < self@.len(),
                None => first_selected_below(self@, i as int, tag@) is None,
            },
    {
        let end = self.subtree_end(i);
        self.find_tag_between(tag, i + 1, end)
    }

    /// Whether an element named `tag` lies below node `i`.
    pub fn has_descendant_of_tag(&self, i: usize, tag: &str) -> (r: bool)
        requires
            i < self@.len(),
        ensures
            r == first_descendant(self@, i as int, tag@).is_some(),
    {
        self.find_first_tag(i, tag).is_some()
    }

    /// The first element named `tag` in the document.
    pub fn select_first(&self, tag: &str) -> (r: Option<usize>)
        ensures
            match r {
                Some(j) => first_in_document(self@, tag@) == Some(j as int) && j < self@.len(),
                None => first_in_document(self@, tag@) is None,
            },
    {
        self.find_tag_between(tag, 0, self.len())
    }

    /// Whether node `i` or an element below it, reached through elements
    /// alone, has exactly the text `target`, once whitespace is normalized.
    pub fn element_has_exact_text(&self, i: usize, target: &Vec<char>) -> (r: bool)
        requires
            i < self@.len(),
        ensures
            r == has_exact_text(self@, i as int, target@),
    {
        let end = self.subtree_end(i);
        let mut j: usize = i;
        while j < end
            invariant
                i <= j,
                end <= self@.len(),
                end == subtree_end(self@, i as int),
                exact_text_between(self@, target@, i as int, end as int) == exact_text_between(
                    self@,
                    target@,
                    j as int,
                    end as int,
                ),
            decreases self@.len() - j,
        {
            if self.element(j).is_some() {
                let text = trimmed(&normalized(&self.collect_text(j)));
                if crate::text::chars_eq(&text, target) {
                    return true;
                }
            }
            j = self.step_behind(j);
        }
        false
    }
}

} // verus!
