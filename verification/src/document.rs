//! Elements of a parsed document, as plain texts. The parsing is the
//! `kuchiki` crate's.

use kuchiki::iter::NodeEdge;
use kuchiki::traits::TendrilSink;
use vstd::prelude::*;
use vstd::string::StringExecFns;
use crate::attributes::{attr_put, pairs_view, AttrModel, Attributes};
use crate::text::{concat, texts_view};

verus! {

/// One element of a parsed document.
#[derive(Debug, Clone, PartialEq, Eq)]
pub struct Element {
    /// The local name of the element, as the parser gives it.
    pub tag: String,
    /// The attributes, by local name, in the parser's order.
    pub attributes: Vec<(String, String)>,
    /// The element written out, with its children.
    pub outer_html: String,
    /// Each child of the element written out, in order.
    pub children_html: Vec<String>,
}

/// An element as plain texts.
pub struct ElementModel {
    pub tag: Seq<char>,
    pub attributes: Seq<AttrModel>,
    pub outer_html: Seq<char>,
    pub children_html: Seq<Seq<char>>,
}

impl View for Element {
    type V = ElementModel;

    open spec fn view(&self) -> ElementModel {
        ElementModel {
            tag: self.tag@,
            attributes: pairs_view(self.attributes@),
            outer_html: self.outer_html@,
            children_html: texts_view(self.children_html@),
        }
    }
}

/// The models of a vector of elements.
pub open spec fn elements_view(v: Seq<Element>) -> Seq<ElementModel> {
    Seq::new(v.len(), |i: int| v[i]@)
}

/// The longest text, in bytes, that is handed to the parser: half a
/// gibibyte. The parser keeps text in buffers that cannot grow beyond two
/// gibibytes, and a stretch of text can come out three times as long as it
/// was written, since a NUL byte is read as U+FFFD.
pub const MAX_DOCUMENT_BYTES: usize = 0x2000_0000;

/// The deepest nesting of nodes, counted from the document's own children,
/// that is handed to the part of the parser's crate that writes nodes out.
/// That part calls itself once for every level of nesting and takes less
/// than a kibibyte of stack for each, so that with this bound it stays
/// within half a mebibyte.
pub const MAX_NESTING: usize = 512;

/// The walk through the document that `kuchiki` parses from `html`, in
/// document order: `true` where a node is entered, `false` where it is left.
/// Every node below the document is entered once and left once.
pub uninterp spec fn document_outline(html: Seq<char>) -> Seq<bool>;

/// `kuchiki::parse_html` on the text, then `NodeRef::traverse` on the
/// document: each edge of the walk as a `bool`, `true` for `NodeEdge::Start`
/// and `false` for `NodeEdge::End`. Parsing and walking go by loops, not by
/// recursion, so the nesting of the document is no danger here. Nothing is
/// claimed of the walk but that the same text gives the same walk.
#[verifier::external_body]
pub(crate) fn outline_of(html: &str) -> (r: Vec<bool>)
    requires
        html.len() <= MAX_DOCUMENT_BYTES,
    ensures
        r@ == document_outline(html@),
{
    let document = kuchiki::parse_html().one(html);
    document.traverse().map(|edge| matches!(edge, NodeEdge::Start(_))).collect()
}

/// The number of nodes that are open at the end of a walk. Leaving a node
/// where none is open leaves none open.
pub open spec fn open_nodes(outline: Seq<bool>) -> nat
    decreases outline.len(),
{
    if outline.len() == 0 {
        0
    } else {
        let before = open_nodes(outline.drop_last());
        if outline.last() {
            before + 1
        } else if before > 0 {
            (before - 1) as nat
        } else {
            0
        }
    }
}

/// The largest number of nodes that are open at one time in a walk: how deep
/// the document is nested.
pub open spec fn deepest_nesting(outline: Seq<bool>) -> nat
    decreases outline.len(),
{
    if outline.len() == 0 {
        0
    } else {
        let before = deepest_nesting(outline.drop_last());
        let now = open_nodes(outline);
        if now > before {
            now
        } else {
            before
        }
    }
}

/// How deep a document is nested, from the walk through it.
pub fn nesting_depth(outline: &Vec<bool>) -> (r: usize)
    ensures
        r == deepest_nesting(outline@),
{
    let mut open: usize = 0;
    let mut deepest: usize = 0;
    let mut i: usize = 0;
    assert(outline@.take(0) =~= Seq::<bool>::empty());
    while i < outline.len()
        invariant
            i <= outline.len(),
            open <= i,
            open == open_nodes(outline@.take(i as int)),
            deepest == deepest_nesting(outline@.take(i as int)),
        decreases outline.len() - i,
    {
        assert(outline@.take(i + 1).drop_last() == outline@.take(i as int));
        if outline[i] {
            open += 1;
        } else if open > 0 {
            open -= 1;
        }
        if open > deepest {
            deepest = open;
        }
        i += 1;
    }
    assert(outline@.take(outline.len() as int) == outline@);
    deepest
}

/// Whether a text can be handed to the parser and its elements written out:
/// it is no longer than `MAX_DOCUMENT_BYTES`, and the document parsed from it
/// is nested no deeper than `MAX_NESTING`.
pub open spec fn fits_parser(html: &str) -> bool {
    html.len() <= MAX_DOCUMENT_BYTES && deepest_nesting(document_outline(html@)) <= MAX_NESTING
}

/// Whether a text can be handed to the parser and its elements written out.
pub fn parser_accepts(html: &str) -> (r: bool)
    ensures
        r == fits_parser(html),
{
    if html.len() > MAX_DOCUMENT_BYTES {
        return false;
    }
    nesting_depth(&outline_of(html)) <= MAX_NESTING
}

/// The elements of the document `html` that match `selector`, in document
/// order, as `kuchiki` parses, selects and writes them out. `None` where the
/// selector is refused.
pub uninterp spec fn selected_elements(html: Seq<char>, selector: Seq<char>) -> Option<
    Seq<ElementModel>,
>;

/// `kuchiki::parse_html` on the text, then `NodeRef::select`. Each element
/// found is handed out as texts: its local name, its attributes' local names
/// and values in the order of the element's attribute map, the element
/// serialized, and each of its children serialized. Nothing is claimed of
/// them but that the same text and selector give the same elements. Two kinds
/// of text are left out. A text beyond `MAX_DOCUMENT_BYTES`: the parser's
/// buffers may give up on it. And a text whose document is nested deeper than
/// `MAX_NESTING`: the serializer calls itself once for every level of
/// nesting, and a deeper document could exhaust the stack.
#[verifier::external_body]
pub(crate) fn select_elements(html: &str, selector: &str) -> (r: Option<Vec<Element>>)
    requires
        fits_parser(html),
    ensures
        match r {
            None => selected_elements(html@, selector@) is None,
            Some(found) => selected_elements(html@, selector@) == Some(elements_view(found@)),
        },
{
    let document = kuchiki::parse_html().one(html);
    let mut found = Vec::new();
    for element in document.select(selector).ok()? {
        let node = element.as_node();
        let attributes = element.attributes.borrow();
        let pairs = attributes.map.iter().map(|(k, v)| (k.local.to_string(), v.value.clone()));
        found.push(Element {
            tag: element.name.local.to_string(),
            attributes: pairs.collect(),
            outer_html: node.to_string(),
            children_html: node.children().map(|child| child.to_string()).collect(),
        });
    }
    Some(found)
}

/// The attribute list that a sequence of name and value pairs gives when they
/// are set one after the other: a later pair of the same name overwrites the
/// earlier one.
pub open spec fn collected(pairs: Seq<AttrModel>) -> Seq<AttrModel>
    decreases pairs.len(),
{
    if pairs.len() == 0 {
        Seq::empty()
    } else {
        attr_put(collected(pairs.drop_last()), pairs.last().0, pairs.last().1)
    }
}

impl Element {
    /// The element's attributes as a list with distinct names.
    pub fn attribute_list(&self) -> (r: Attributes)
        ensures
            r@ == collected(self@.attributes),
    {
        let mut out = Attributes::new();
        let mut i: usize = 0;
        let ghost pairs = pairs_view(self.attributes@);
        assert(pairs.take(0) =~= Seq::<AttrModel>::empty());
        while i < self.attributes.len()
            invariant
                i <= self.attributes.len(),
                pairs == pairs_view(self.attributes@),
                out@ == collected(pairs.take(i as int)),
            decreases self.attributes.len() - i,
        {
            assert(pairs.take(i + 1).drop_last() == pairs.take(i as int));
            out.insert(self.attributes[i].0.as_str(), self.attributes[i].1.as_str());
            i += 1;
        }
        assert(pairs.take(self.attributes.len() as int) == pairs);
        out
    }

    /// The element's children written out one after the other.
    pub fn inner_html(&self) -> (r: String)
        ensures
            r@ == concat(self@.children_html),
    {
        let mut out = String::new();
        let mut i: usize = 0;
        let ghost parts = texts_view(self.children_html@);
        assert(parts.take(0) =~= Seq::<Seq<char>>::empty());
        while i < self.children_html.len()
            invariant
                i <= self.children_html.len(),
                parts == texts_view(self.children_html@),
                out@ == concat(parts.take(i as int)),
            decreases self.children_html.len() - i,
        {
            assert(parts.take(i + 1).drop_last() == parts.take(i as int));
            out.append(self.children_html[i].as_str());
            i += 1;
        }
        assert(parts.take(self.children_html.len() as int) == parts);
        out
    }
}

} // verus!
