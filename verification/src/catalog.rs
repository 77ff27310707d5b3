//! The slot catalog: the slots that a layout declares, in document order, each
//! with the closing style that the layout's own text shows.

use vstd::prelude::*;
use vstd::string::StringExecFns;
use crate::attributes::attr_lookup;
use crate::document::{
    collected, elements_view, fits_parser, parser_accepts, select_elements, selected_elements,
    Element, ElementModel,
};
use crate::markup::{is_void_element, is_void_tag, SlotClosingStyle, SlotModel, SlotSpec};
use crate::merge::{opening_core_pattern, opening_tag_pattern};
use crate::pattern::{find_first, first_match};
use crate::text::{chars_of, ends_with, has_suffix, opt_text, trim_end, trimmed_end};

verus! {

/// The closing style of a slot's element, from the text of its opening tag as
/// found in the layout (`None` where it was not found) and its tag: an opening
/// tag that ends in `/>` closes itself; otherwise a void tag is void and any
/// other tag has a closing tag.
pub open spec fn closing_style_from(
    opening: Option<Seq<char>>,
    tag: Seq<char>,
) -> SlotClosingStyle {
    if opening is Some && has_suffix(trim_end(opening->0), "/>"@) {
        SlotClosingStyle::SelfClosing
    } else if is_void_tag(tag) {
        SlotClosingStyle::Void
    } else {
        SlotClosingStyle::Explicit
    }
}

/// The closing style, given the opening tag that the search found.
pub fn closing_style_of_opening_tag(opening: Option<String>, tag: &str) -> (r: SlotClosingStyle)
    ensures
        r == closing_style_from(opt_text(opening), tag@),
{
    let closes_itself = match opening {
        Some(text) => {
            let snippet = trimmed_end(&chars_of(text.as_str()));
            ends_with(&snippet, &chars_of("/>"))
        },
        None => false,
    };
    if closes_itself {
        SlotClosingStyle::SelfClosing
    } else if is_void_element(tag) {
        SlotClosingStyle::Void
    } else {
        SlotClosingStyle::Explicit
    }
}

/// The closing style of the slot `slot_name` on a `tag` element, as the
/// layout's own text shows it.
pub fn determine_closing_style(layout_html: &str, tag: &str, slot_name: &str) -> (r:
    SlotClosingStyle)
    ensures
        r == closing_style_from(
            first_match(opening_tag_pattern(tag@, slot_name@), layout_html@),
            tag@,
        ),
{
    let mut pattern = String::new();
    pattern.append("(?is)");
    pattern.append(opening_core_pattern(tag, slot_name).as_str());
    pattern.append("[^>]*>");
    assert(pattern@ =~= opening_tag_pattern(tag@, slot_name@));
    closing_style_of_opening_tag(find_first(pattern.as_str(), layout_html), tag)
}

/// The value where there is one, else the default.
pub open spec fn text_or(value: Option<Seq<char>>, default: Seq<char>) -> Seq<char> {
    match value {
        Some(text) => text,
        None => default,
    }
}

/// The slot that a layout element declares: its name is the value of `slot`
/// (empty where the attribute is missing), its mode the value of `slot-mode`
/// (`html` where that is missing), its tag the element's, its closing style
/// the one that the layout's text shows.
pub open spec fn slot_of(layout: Seq<char>, element: ElementModel) -> SlotModel {
    let attrs = collected(element.attributes);
    let name = text_or(attr_lookup(attrs, "slot"@), Seq::empty());
    SlotModel {
        name,
        mode: text_or(attr_lookup(attrs, "slot-mode"@), "html"@),
        layout_tag: element.tag,
        closing_style: closing_style_from(
            first_match(opening_tag_pattern(element.tag, name), layout),
            element.tag,
        ),
    }
}

/// One slot for each element, in the elements' order.
pub open spec fn catalog_of(layout: Seq<char>, elements: Seq<ElementModel>) -> Seq<SlotModel> {
    Seq::new(elements.len(), |i: int| slot_of(layout, elements[i]))
}

/// The models of a vector of slots.
pub open spec fn slots_view(slots: Seq<SlotSpec>) -> Seq<SlotModel> {
    Seq::new(slots.len(), |i: int| slots[i]@)
}

/// The slots of a layout: one for each element that carries a `slot`
/// attribute, in document order.
pub open spec fn layout_slots(layout: Seq<char>) -> Seq<SlotModel> {
    match selected_elements(layout, "[slot]"@) {
        Some(elements) => catalog_of(layout, elements),
        None => Seq::empty(),
    }
}

/// The slot that one layout element declares.
pub fn slot_from_element(layout_html: &str, element: &Element) -> (r: SlotSpec)
    ensures
        r@ == slot_of(layout_html@, element@),
{
    let attrs = element.attribute_list();
    let name = match attrs.get("slot") {
        Some(value) => value,
        None => String::new(),
    };
    let mode = match attrs.get("slot-mode") {
        Some(value) => value,
        None => "html".to_owned(),
    };
    let closing_style = determine_closing_style(
        layout_html,
        element.tag.as_str(),
        name.as_str(),
    );
    SlotSpec { name, mode, layout_tag: element.tag.clone(), closing_style }
}

/// The catalog for the elements that the parser found in the layout.
pub fn catalog_from_elements(layout_html: &str, elements: &Vec<Element>) -> (r: Vec<SlotSpec>)
    ensures
        slots_view(r@) == catalog_of(layout_html@, elements_view(elements@)),
{
    let mut slots: Vec<SlotSpec> = Vec::new();
    let mut i: usize = 0;
    while i < elements.len()
        invariant
            i <= elements.len(),
            slots@.len() == i,
            forall|k: int|
                0 <= k < i ==> (#[trigger] slots@[k])@ == slot_of(layout_html@, elements@[k]@),
        decreases elements.len() - i,
    {
        slots.push(slot_from_element(layout_html, &elements[i]));
        i += 1;
    }
    assert(slots_view(slots@) =~= catalog_of(layout_html@, elements_view(elements@)));
    slots
}

/// The catalog of a layout.
pub fn discover_slots(layout_html: &str) -> (r: Vec<SlotSpec>)
    requires
        fits_parser(layout_html),
    ensures
        slots_view(r@) == layout_slots(layout_html@),
{
    match select_elements(layout_html, "[slot]") {
        Some(elements) => catalog_from_elements(layout_html, &elements),
        None => {
            let none: Vec<SlotSpec> = Vec::new();
            assert(slots_view(none@) =~= Seq::<SlotModel>::empty());
            none
        },
    }
}

/// The catalog of a layout, where the layout can be handed to the parser;
/// `None` where it is too long or nested too deeply.
pub fn try_discover_slots(layout_html: &str) -> (r: Option<Vec<SlotSpec>>)
    ensures
        match r {
            Some(slots) => fits_parser(layout_html) && slots_view(slots@) == layout_slots(
                layout_html@,
            ),
            None => !fits_parser(layout_html),
        },
{
    if parser_accepts(layout_html) {
        Some(discover_slots(layout_html))
    } else {
        None
    }
}

} // verus!
