//! The merge: one slot's content spliced into the layout's text, with every
//! character outside the slot's element left as it was.

use vstd::prelude::*;
use vstd::string::StringExecFns;
use crate::attributes::{attr_lookup, AttrModel};
use crate::markup::{
    attribute_of_mode, mode_attribute, ContentModel, PageSlotContent, SlotClosingStyle, SlotModel,
    SlotSpec,
};
use crate::pattern::{
    capture_first, escape, escaped, first_captures, groups_view, remove_matches, without_matches,
    Captured,
};
use crate::text::{
    chars_of, opt_text, replace_char, replaced_char, string_of, trim_end, trimmed_end,
};

verus! {

// ---------------------------------------------------------------------------
// Patterns
// ---------------------------------------------------------------------------

/// The pattern of the start of an opening tag of `tag` that carries
/// `slot="name"`, up to the end of that attribute. It is meant to be read with
/// case ignored for everything but the slot's name, and reads: `<`, the tag
/// as a whole word, any attributes, the attribute `slot`, `=`, the name in
/// single or double quotes.
pub open spec fn opening_core(tag: Seq<char>, name: Seq<char>) -> Seq<char> {
    "<"@ + escaped(tag) + "\\b[^>]*\\bslot\\s*=\\s*[\"'](?-i:"@ + escaped(name) + ")[\"']"@
}

/// The pattern that finds a slot's opening tag as a whole: its start, any
/// further attributes, `>`.
pub open spec fn opening_tag_pattern(tag: Seq<char>, name: Seq<char>) -> Seq<char> {
    "(?is)"@ + opening_core(tag, name) + "[^>]*>"@
}

/// The pattern for a slot whose element has no closing tag. Group 1 is the
/// opening tag without its ending, as short as it can be; group 2 the ending:
/// `>` or `/>` with the white space before it.
pub open spec fn void_pattern(tag: Seq<char>, name: Seq<char>) -> Seq<char> {
    "(?is)("@ + opening_core(tag, name) + "[^>]*?)(\\s*/?>)"@
}

/// The pattern for a slot whose element has a closing tag. Group 1 is the
/// opening tag, group 2 the shortest stretch up to a closing tag of the same
/// name, group 3 that closing tag.
pub open spec fn explicit_pattern(tag: Seq<char>, name: Seq<char>) -> Seq<char> {
    "(?is)("@ + opening_core(tag, name) + "[^>]*>)(.*?)(</"@ + escaped(tag) + ">)"@
}

/// The pattern of one attribute called `attr`, in any case, with the white
/// space before it and its quoted value.
pub open spec fn attribute_pattern(attr: Seq<char>) -> Seq<char> {
    "(?i)\\s+"@ + escaped(attr) + "\\s*=\\s*(?:\"[^\"]*\"|'[^']*')"@
}

/// The pattern of the start of the slot's opening tag.
pub fn opening_core_pattern(tag: &str, name: &str) -> (r: String)
    ensures
        r@ == opening_core(tag@, name@),
{
    let mut p = String::new();
    p.append("<");
    p.append(escape(tag).as_str());
    p.append("\\b[^>]*\\bslot\\s*=\\s*[\"'](?-i:");
    p.append(escape(name).as_str());
    p.append(")[\"']");
    assert(p@ =~= opening_core(tag@, name@));
    p
}

// ---------------------------------------------------------------------------
// Removing attributes from an opening tag
// ---------------------------------------------------------------------------

/// `fragment` without any attribute called `attr`; `fragment` itself where the
/// pattern is refused.
pub open spec fn stripped(fragment: Seq<char>, attr: Seq<char>) -> Seq<char> {
    match without_matches(attribute_pattern(attr), fragment) {
        Some(text) => text,
        None => fragment,
    }
}

/// What to do with the outcome of the removal: the new text where there is
/// one, else the fragment as it was.
pub fn stripped_or_same(fragment: &str, outcome: Option<String>) -> (r: String)
    ensures
        r@ == match outcome {
            Some(text) => text@,
            None => fragment@,
        },
{
    match outcome {
        Some(text) => text,
        None => fragment.to_owned(),
    }
}

/// `fragment` without any attribute called `attr`.
pub fn strip_attribute(fragment: &str, attr: &str) -> (r: String)
    ensures
        r@ == stripped(fragment@, attr@),
{
    let mut p = String::new();
    p.append("(?i)\\s+");
    p.append(escape(attr).as_str());
    p.append("\\s*=\\s*(?:\"[^\"]*\"|'[^']*')");
    assert(p@ =~= attribute_pattern(attr@));
    stripped_or_same(fragment, remove_matches(p.as_str(), fragment))
}

/// An opening tag made ready for the output: without `slot`, without
/// `slot-mode`, without trailing white space.
pub open spec fn cleaned_opening(opening: Seq<char>) -> Seq<char> {
    trim_end(stripped(stripped(opening, "slot"@), "slot-mode"@))
}

/// The opening tag made ready for the output.
pub fn clean_opening_tag(opening: &str) -> (r: String)
    ensures
        r@ == cleaned_opening(opening@),
{
    let without_slot = strip_attribute(opening, "slot");
    let without_mode = strip_attribute(without_slot.as_str(), "slot-mode");
    string_of(&trimmed_end(&chars_of(without_mode.as_str())))
}

// ---------------------------------------------------------------------------
// Filling one element
// ---------------------------------------------------------------------------

/// An attribute as it is put into an opening tag: a space, the name, `="`, the
/// value as it is, `"`.
pub open spec fn injected(name: Seq<char>, value: Seq<char>) -> Seq<char> {
    " "@ + name + "=\""@ + value + "\""@
}

/// The attribute that the slot's mode asks for, with the value that the
/// provider gives it; `None` where the mode is no `attr:` mode or the provider
/// lacks the attribute.
pub open spec fn attribute_to_inject(mode: Seq<char>, attrs: Seq<AttrModel>) -> Option<
    Seq<char>,
> {
    match mode_attribute(mode) {
        Some(name) => match attr_lookup(attrs, name) {
            Some(value) => Some(injected(name, value)),
            None => None,
        },
        None => None,
    }
}

/// An element without a closing tag, filled: the cleaned opening tag, the
/// attribute where one is to be put in, the ending. The provider's inner
/// markup has no part in it.
pub open spec fn filled_void(
    opening: Seq<char>,
    ending: Seq<char>,
    mode: Seq<char>,
    attrs: Seq<AttrModel>,
) -> Seq<char> {
    match attribute_to_inject(mode, attrs) {
        Some(attribute) => opening + attribute + ending,
        None => opening + ending,
    }
}

/// An element with a closing tag, filled. In an `attr:` mode what stood
/// between the tags stays, and the attribute, where the provider has it, goes
/// in front of the `>` of the opening tag. In every other mode the provider's
/// inner markup takes the place of what stood between the tags.
pub open spec fn filled_explicit(
    opening: Seq<char>,
    between: Seq<char>,
    closing: Seq<char>,
    mode: Seq<char>,
    content: ContentModel,
) -> Seq<char> {
    if mode_attribute(mode) is Some {
        match attribute_to_inject(mode, content.attributes) {
            Some(attribute) => replace_char(opening, '>', attribute + ">"@) + between + closing,
            None => opening + between + closing,
        }
    } else {
        opening + content.inner_html + closing
    }
}

/// The attribute to put in, as text, if any.
pub fn injection(mode: &str, content: &PageSlotContent) -> (r: Option<String>)
    ensures
        opt_text(r) == attribute_to_inject(mode@, content@.attributes),
{
    match attribute_of_mode(mode) {
        Some(name) => match content.attributes.get(name.as_str()) {
            Some(value) => {
                let mut out = String::new();
                out.append(" ");
                out.append(name.as_str());
                out.append("=\"");
                out.append(value.as_str());
                out.append("\"");
                assert(out@ =~= injected(name@, value@));
                Some(out)
            },
            None => None,
        },
        None => None,
    }
}

/// Fills an element that has no closing tag. `opening` is the cleaned opening
/// tag, `ending` its `>` or `/>`.
pub fn fill_void(opening: &str, ending: &str, mode: &str, content: &PageSlotContent) -> (r: String)
    ensures
        r@ == filled_void(opening@, ending@, mode@, content@.attributes),
{
    let mut out = opening.to_owned();
    match injection(mode, content) {
        Some(attribute) => {
            out.append(attribute.as_str());
        },
        None => {},
    }
    out.append(ending);
    out
}

/// Fills an element that has a closing tag. `opening` is the cleaned opening
/// tag, `between` what the layout holds between the tags, `closing` the
/// closing tag.
pub fn fill_explicit(
    opening: &str,
    between: &str,
    closing: &str,
    mode: &str,
    content: &PageSlotContent,
) -> (r: String)
    ensures
        r@ == filled_explicit(opening@, between@, closing@, mode@, content@),
{
    let attr_mode = attribute_of_mode(mode).is_some();
    let mut out = String::new();
    if attr_mode {
        match injection(mode, content) {
            Some(attribute) => {
                let mut with_end = attribute;
                with_end.append(">");
                let tag = replaced_char(&chars_of(opening), '>', &chars_of(with_end.as_str()));
                out.append(string_of(&tag).as_str());
            },
            None => {
                out.append(opening);
            },
        }
        out.append(between);
    } else {
        out.append(opening);
        out.append(content.inner_html.as_str());
    }
    out.append(closing);
    assert(out@ =~= filled_explicit(opening@, between@, closing@, mode@, content@));
    out
}

// ---------------------------------------------------------------------------
// Merging one slot
// ---------------------------------------------------------------------------

/// Whether a slot's element has no closing tag.
pub open spec fn closes_itself(style: SlotClosingStyle) -> bool {
    style == SlotClosingStyle::SelfClosing || style == SlotClosingStyle::Void
}

/// The pattern that finds the slot's element in the layout.
pub open spec fn slot_pattern(slot: SlotModel) -> Seq<char> {
    if closes_itself(slot.closing_style) {
        void_pattern(slot.layout_tag, slot.name)
    } else {
        explicit_pattern(slot.layout_tag, slot.name)
    }
}

/// What takes the place of the slot's element, from the groups of the match.
/// `None` where the groups are not those of the slot's pattern.
pub open spec fn replacement(
    groups: Seq<Option<Seq<char>>>,
    slot: SlotModel,
    content: ContentModel,
) -> Option<Seq<char>> {
    if closes_itself(slot.closing_style) {
        if groups.len() == 3 && groups[1] is Some && groups[2] is Some {
            Some(
                filled_void(
                    cleaned_opening(groups[1]->0),
                    groups[2]->0,
                    slot.mode,
                    content.attributes,
                ),
            )
        } else {
            None
        }
    } else {
        if groups.len() == 4 && groups[1] is Some && groups[2] is Some && groups[3] is Some {
            Some(
                filled_explicit(
                    cleaned_opening(groups[1]->0),
                    groups[2]->0,
                    groups[3]->0,
                    slot.mode,
                    content,
                ),
            )
        } else {
            None
        }
    }
}

/// The layout text with the first element of the slot filled from `content`.
/// Where the layout holds no such element the text is unchanged.
pub open spec fn merged(html: Seq<char>, slot: SlotModel, content: ContentModel) -> Seq<char> {
    match first_captures(slot_pattern(slot), html) {
        None => html,
        Some((start, end, groups)) => match replacement(groups, slot, content) {
            None => html,
            Some(text) => html.subrange(0, start) + text + html.subrange(end, html.len() as int),
        },
    }
}

/// Everything outside the slot's element is in `out` as it is in `html`: the
/// text before the element at the start, the text after it at the end. Where
/// the layout has no such element, `out` is `html`.
pub open spec fn surroundings_kept(html: Seq<char>, slot: SlotModel, out: Seq<char>) -> bool {
    match first_captures(slot_pattern(slot), html) {
        None => out == html,
        Some((start, end, groups)) => {
            &&& 0 <= start <= end <= html.len()
            &&& out.len() >= start + (html.len() - end)
            &&& out.subrange(0, start) == html.subrange(0, start)
            &&& out.subrange(out.len() - (html.len() - end), out.len() as int) == html.subrange(
                end,
                html.len() as int,
            )
        },
    }
}

/// The replacement for the slot's element, from what the search found.
pub fn replacement_for(found: &Captured, slot: &SlotSpec, content: &PageSlotContent) -> (r: Option<
    String,
>)
    ensures
        opt_text(r) == replacement(groups_view(found.groups@), slot@, content@),
{
    let void = match slot.closing_style {
        SlotClosingStyle::Explicit => false,
        _ => true,
    };
    if void {
        if found.groups.len() != 3 {
            return None;
        }
        match (&found.groups[1], &found.groups[2]) {
            (Some(opening), Some(ending)) => {
                let cleaned = clean_opening_tag(opening.as_str());
                Some(fill_void(cleaned.as_str(), ending.as_str(), slot.mode.as_str(), content))
            },
            _ => None,
        }
    } else {
        if found.groups.len() != 4 {
            return None;
        }
        match (&found.groups[1], &found.groups[2], &found.groups[3]) {
            (Some(opening), Some(between), Some(closing)) => {
                let cleaned = clean_opening_tag(opening.as_str());
                Some(
                    fill_explicit(
                        cleaned.as_str(),
                        between.as_str(),
                        closing.as_str(),
                        slot.mode.as_str(),
                        content,
                    ),
                )
            },
            _ => None,
        }
    }
}

/// The pattern of the slot's element, as text.
pub fn slot_pattern_text(slot: &SlotSpec) -> (r: String)
    ensures
        r@ == slot_pattern(slot@),
{
    let core = opening_core_pattern(slot.layout_tag.as_str(), slot.name.as_str());
    let mut p = String::new();
    p.append("(?is)(");
    p.append(core.as_str());
    match slot.closing_style {
        SlotClosingStyle::Explicit => {
            p.append("[^>]*>)(.*?)(</");
            p.append(escape(slot.layout_tag.as_str()).as_str());
            p.append(">)");
        },
        _ => {
            p.append("[^>]*?)(\\s*/?>)");
        },
    }
    assert(p@ =~= slot_pattern(slot@));
    p
}

/// Fills the first element of the slot in `html` from `content` and leaves
/// everything around that element as it is.
pub fn merge_slot_string(html: &str, slot: &SlotSpec, content: &PageSlotContent) -> (r: String)
    ensures
        r@ == merged(html@, slot@, content@),
        surroundings_kept(html@, slot@, r@),
{
    let pattern = slot_pattern_text(slot);
    match capture_first(pattern.as_str(), html) {
        None => html.to_owned(),
        Some(found) => {
            let ghost span = first_captures(slot_pattern(slot@), html@).unwrap();
            let ghost start = span.0;
            let ghost end = span.1;
            let ghost tail = html@.len() - end;
            match replacement_for(&found, slot, content) {
                None => {
                    let out = html.to_owned();
                    assert(out@.subrange(out@.len() - tail, out@.len() as int) =~= html@.subrange(
                        end,
                        html@.len() as int,
                    ));
                    out
                },
                Some(text) => {
                    let mut out = found.before.clone();
                    out.append(text.as_str());
                    out.append(found.after.as_str());
                    assert(out@.subrange(0, start) =~= html@.subrange(0, start));
                    assert(out@.subrange(out@.len() - tail, out@.len() as int) =~= html@.subrange(
                        end,
                        html@.len() as int,
                    ));
                    out
                },
            }
        },
    }
}

/// A slot whose element has no closing tag takes nothing from the provider's
/// inner markup: two providers with the same attributes give the same merged
/// text, whatever they hold inside and whatever the slot's mode.
pub proof fn lemma_void_slot_ignores_inner_markup(
    html: Seq<char>,
    slot: SlotModel,
    a: ContentModel,
    b: ContentModel,
)
    requires
        closes_itself(slot.closing_style),
        a.attributes == b.attributes,
    ensures
        merged(html, slot, a) == merged(html, slot, b),
{
}

} // verus!
