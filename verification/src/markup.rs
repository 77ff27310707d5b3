//! Slots, providers and the markup that stands for a provider in a page.

use vstd::prelude::*;
use vstd::string::StringExecFns;
use crate::attributes::{
    attr_lookup, attr_put, for_slot_name, lemma_key_index_is, lemma_put_keeps_distinct,
    lemma_written_order_ignores_insertion, names_distinct, pairs_view, sort_attributes,
    AttrModel, Attributes,
};
use crate::text::{
    chars_of, has_prefix, has_suffix, lowercase, opt_text, replace_char, replaced_char,
    same_chars, slice_of, starts_with, string_of, to_lowercase,
};

verus! {

/// How an element is closed in written markup.
#[derive(Debug, Clone, Copy, PartialEq, Eq, Structural)]
pub enum SlotClosingStyle {
    /// `<tag ...>...</tag>`
    Explicit,
    /// `<tag ... />`
    SelfClosing,
    /// An element that by its tag has no closing tag, as `img` or `br`.
    Void,
}

/// One slot of the layout.
#[derive(Debug, Clone, PartialEq, Eq)]
pub struct SlotSpec {
    /// The value of the `slot` attribute.
    pub name: String,
    /// The fill mode: `html`, `text` or `attr:<name>`.
    pub mode: String,
    /// The tag of the layout element that declares the slot.
    pub layout_tag: String,
    /// How that element is closed in the layout's text.
    pub closing_style: SlotClosingStyle,
}

/// A slot as plain texts.
pub struct SlotModel {
    pub name: Seq<char>,
    pub mode: Seq<char>,
    pub layout_tag: Seq<char>,
    pub closing_style: SlotClosingStyle,
}

impl View for SlotSpec {
    type V = SlotModel;

    open spec fn view(&self) -> SlotModel {
        SlotModel {
            name: self.name@,
            mode: self.mode@,
            layout_tag: self.layout_tag@,
            closing_style: self.closing_style,
        }
    }
}

/// What one page provides for one slot.
#[derive(Debug, Clone, PartialEq, Eq)]
pub struct PageSlotContent {
    /// The tag of the providing element.
    pub tag: String,
    /// The element's children, written out.
    pub inner_html: String,
    /// The element's attributes.
    pub attributes: Attributes,
    /// The element as written out by the parser; absent for a placeholder.
    pub original_html: Option<String>,
    /// How the element is closed.
    pub closing_style: SlotClosingStyle,
}

/// A provider as plain texts.
pub struct ContentModel {
    pub tag: Seq<char>,
    pub inner_html: Seq<char>,
    pub attributes: Seq<AttrModel>,
    pub original_html: Option<Seq<char>>,
    pub closing_style: SlotClosingStyle,
}

impl View for PageSlotContent {
    type V = ContentModel;

    open spec fn view(&self) -> ContentModel {
        ContentModel {
            tag: self.tag@,
            inner_html: self.inner_html@,
            attributes: self.attributes@,
            original_html: opt_text(self.original_html),
            closing_style: self.closing_style,
        }
    }
}

// ---------------------------------------------------------------------------
// Void elements
// ---------------------------------------------------------------------------

/// Whether `tag`, in any ASCII case, names an element that has no closing tag.
pub open spec fn is_void_tag(tag: Seq<char>) -> bool {
    let t = lowercase(tag);
    t == "area"@ || t == "base"@ || t == "br"@ || t == "col"@ || t == "embed"@ || t == "hr"@ || t
        == "img"@ || t == "input"@ || t == "link"@ || t == "meta"@ || t == "param"@ || t
        == "source"@ || t == "track"@ || t == "wbr"@
}

/// Whether `tag`, in any ASCII case, names an element that has no closing tag.
pub fn is_void_element(tag: &str) -> (r: bool)
    ensures
        r == is_void_tag(tag@),
{
    let t = to_lowercase(&chars_of(tag));
    same_chars(&t, &chars_of("area")) || same_chars(&t, &chars_of("base")) || same_chars(
        &t,
        &chars_of("br"),
    ) || same_chars(&t, &chars_of("col")) || same_chars(&t, &chars_of("embed")) || same_chars(
        &t,
        &chars_of("hr"),
    ) || same_chars(&t, &chars_of("img")) || same_chars(&t, &chars_of("input")) || same_chars(
        &t,
        &chars_of("link"),
    ) || same_chars(&t, &chars_of("meta")) || same_chars(&t, &chars_of("param")) || same_chars(
        &t,
        &chars_of("source"),
    ) || same_chars(&t, &chars_of("track")) || same_chars(&t, &chars_of("wbr"))
}

// ---------------------------------------------------------------------------
// Writing a provider out
// ---------------------------------------------------------------------------

/// One attribute as written: a space, the name, `="`, the value with every
/// double quote as `&quot;`, and a closing double quote.
pub open spec fn attribute_text(a: AttrModel) -> Seq<char> {
    " "@ + a.0 + "=\""@ + replace_char(a.1, '"', "&quot;"@) + "\""@
}

/// The attributes as written, one after the other in the given order.
pub open spec fn attributes_text(attrs: Seq<AttrModel>) -> Seq<char>
    decreases attrs.len(),
{
    if attrs.len() == 0 {
        Seq::empty()
    } else {
        attributes_text(attrs.drop_last()) + attribute_text(attrs.last())
    }
}

/// The markup of an element built from its parts: the attributes in their
/// written order, and the ending that the closing style asks for. An element
/// without a closing tag, self-closing or void, ends in ` />` and holds
/// nothing inside.
pub open spec fn markup_text(
    tag: Seq<char>,
    attrs: Seq<AttrModel>,
    inner: Seq<char>,
    style: SlotClosingStyle,
) -> Seq<char> {
    let head = "<"@ + tag + attributes_text(sort_attributes(attrs));
    match style {
        SlotClosingStyle::SelfClosing => head + " />"@,
        SlotClosingStyle::Void => head + " />"@,
        SlotClosingStyle::Explicit => head + ">"@ + inner + "</"@ + tag + ">"@,
    }
}

/// The markup built for an element without a closing tag ends in `/>`, and
/// is the same whatever stands inside the element.
pub proof fn lemma_closed_markup(
    tag: Seq<char>,
    attrs: Seq<AttrModel>,
    inner: Seq<char>,
    other_inner: Seq<char>,
    style: SlotClosingStyle,
)
    requires
        style != SlotClosingStyle::Explicit,
    ensures
        has_suffix(markup_text(tag, attrs, inner, style), "/>"@),
        markup_text(tag, attrs, inner, style) == markup_text(tag, attrs, other_inner, style),
{
    reveal_strlit(" />");
    reveal_strlit("/>");
    let text = markup_text(tag, attrs, inner, style);
    assert(text.subrange(text.len() - 2, text.len() as int) =~= "/>"@);
}

/// The markup built for an element does not depend on the order in which
/// its attributes were set.
pub proof fn lemma_markup_ignores_insertion_order(
    tag: Seq<char>,
    a: Seq<AttrModel>,
    b: Seq<AttrModel>,
    inner: Seq<char>,
    style: SlotClosingStyle,
)
    requires
        names_distinct(a),
        names_distinct(b),
        a.to_multiset() == b.to_multiset(),
    ensures
        markup_text(tag, a, inner, style) == markup_text(tag, b, inner, style),
{
    lemma_written_order_ignores_insertion(a, b);
}

/// A provider as it stands in a normalized page: its original markup where it
/// has one, else markup built from its parts.
pub open spec fn rendered(c: ContentModel) -> Seq<char> {
    match c.original_html {
        Some(original) => original,
        None => markup_text(c.tag, c.attributes, c.inner_html, c.closing_style),
    }
}

impl PageSlotContent {
    /// The provider as it stands in a normalized page.
    pub fn render(&self) -> (r: String)
        ensures
            r@ == rendered(self@),
    {
        match &self.original_html {
            Some(original) => original.clone(),
            None => Self::build_markup(
                self.tag.as_str(),
                &self.attributes,
                self.inner_html.as_str(),
                self.closing_style,
            ),
        }
    }

    /// The markup of an element built from its parts.
    pub fn build_markup(
        tag: &str,
        attributes: &Attributes,
        inner_html: &str,
        closing_style: SlotClosingStyle,
    ) -> (r: String)
        ensures
            r@ == markup_text(tag@, attributes@, inner_html@, closing_style),
    {
        let attrs = attributes.sorted();
        let quote = chars_of("&quot;");
        let mut out = String::new();
        out.append("<");
        out.append(tag);
        let ghost head = out@;
        let ghost order = pairs_view(attrs@);
        let mut i: usize = 0;
        assert(out@ =~= head + attributes_text(order.take(0)));
        while i < attrs.len()
            invariant
                i <= attrs.len(),
                order == pairs_view(attrs@),
                quote@ == "&quot;"@,
                out@ == head + attributes_text(order.take(i as int)),
            decreases attrs.len() - i,
        {
            let value = string_of(&replaced_char(&chars_of(attrs[i].1.as_str()), '"', &quote));
            out.append(" ");
            out.append(attrs[i].0.as_str());
            out.append("=\"");
            out.append(value.as_str());
            out.append("\"");
            proof {
                assert(order.take(i + 1).drop_last() == order.take(i as int));
                assert(order.take(i + 1).last() == order[i as int]);
                assert(out@ =~= head + attributes_text(order.take(i + 1)));
            }
            i += 1;
        }
        assert(order.take(attrs.len() as int) == order);
        match closing_style {
            SlotClosingStyle::SelfClosing => {
                out.append(" />");
            },
            SlotClosingStyle::Void => {
                out.append(" />");
            },
            SlotClosingStyle::Explicit => {
                out.append(">");
                out.append(inner_html);
                out.append("</");
                out.append(tag);
                out.append(">");
            },
        }
        assert(out@ =~= markup_text(tag@, attributes@, inner_html@, closing_style));
        out
    }
}

// ---------------------------------------------------------------------------
// Fill modes and placeholders
// ---------------------------------------------------------------------------

/// The attribute that an `attr:<name>` mode names; `None` for any other mode.
pub open spec fn mode_attribute(mode: Seq<char>) -> Option<Seq<char>> {
    if has_prefix(mode, "attr:"@) {
        Some(mode.skip("attr:"@.len() as int))
    } else {
        None
    }
}

/// The attribute that an `attr:<name>` mode names; `None` for any other mode.
pub fn attribute_of_mode(mode: &str) -> (r: Option<String>)
    ensures
        opt_text(r) == mode_attribute(mode@),
{
    let m = chars_of(mode);
    let prefix = chars_of("attr:");
    if starts_with(&m, &prefix) {
        let rest = slice_of(&m, prefix.len(), m.len());
        assert(rest@ == m@.skip(prefix@.len() as int));
        Some(string_of(&rest))
    } else {
        None
    }
}

/// The provider that stands in for a slot that a page leaves out: the slot's
/// own tag and closing style, nothing inside, `for-slot` set to the slot's
/// name and, for an `attr:<name>` slot, that attribute set to the empty text.
pub open spec fn placeholder(slot: SlotModel) -> ContentModel {
    let base = seq![(for_slot_name(), slot.name)];
    ContentModel {
        tag: slot.layout_tag,
        inner_html: Seq::empty(),
        attributes: match mode_attribute(slot.mode) {
            Some(name) => attr_put(base, name, Seq::empty()),
            None => base,
        },
        original_html: None,
        closing_style: slot.closing_style,
    }
}

/// The attributes of a placeholder: `for-slot` holds the slot's name, the
/// attribute of an `attr:` mode is there and empty, and no name comes twice.
/// (A mode `attr:for-slot` leaves `for-slot` itself empty.)
pub proof fn lemma_placeholder_attributes(slot: SlotModel)
    ensures
        names_distinct(placeholder(slot).attributes),
        mode_attribute(slot.mode) != Some(for_slot_name()) ==> attr_lookup(
            placeholder(slot).attributes,
            for_slot_name(),
        ) == Some(slot.name),
        mode_attribute(slot.mode) matches Some(name) ==> attr_lookup(
            placeholder(slot).attributes,
            name,
        ) == Some(Seq::<char>::empty()),
{
    let base = seq![(for_slot_name(), slot.name)];
    lemma_key_index_is(base, for_slot_name(), 0);
    match mode_attribute(slot.mode) {
        Some(name) => {
            lemma_put_keeps_distinct(base, name, Seq::empty());
            if name != for_slot_name() {
                lemma_key_index_is(base, name, 1);
                let all = attr_put(base, name, Seq::empty());
                assert(all[0] == base[0]);
                lemma_key_index_is(all, for_slot_name(), 0);
            }
        },
        None => {},
    }
}

/// The placeholder for a slot that a page leaves out.
pub fn default_slot_provider(slot: &SlotSpec) -> (r: PageSlotContent)
    ensures
        r@ == placeholder(slot@),
{
    let mut attributes = Attributes::new();
    attributes.insert("for-slot", slot.name.as_str());
    assert(attributes@ =~= seq![(for_slot_name(), slot.name@)]);
    match attribute_of_mode(slot.mode.as_str()) {
        Some(name) => {
            let empty = String::new();
            attributes.insert(name.as_str(), empty.as_str());
        },
        None => {},
    }
    PageSlotContent {
        tag: slot.layout_tag.clone(),
        inner_html: String::new(),
        attributes,
        original_html: None,
        closing_style: slot.closing_style,
    }
}

} // verus!
