//! The providers of a page: what each element with a `for-slot` attribute
//! gives to the slot it names. The first element of a name counts, later ones
//! of the same name are passed over.

use vstd::prelude::*;
use crate::attributes::{
    attr_lookup, for_slot_name, key_index, lemma_key_index, lemma_key_index_is,
};
use crate::document::{
    collected, elements_view, fits_parser, parser_accepts, select_elements, selected_elements,
    Element, ElementModel,
};
use crate::markup::{
    is_void_element, is_void_tag, ContentModel, PageSlotContent, SlotClosingStyle,
};
use crate::text::{
    chars_of, concat, contains, contains_text, ends_with, has_suffix, lowercase, push_all,
    same_text, texts_view, to_lowercase, trim_end, trimmed_end,
};

verus! {

/// A slot name with what the page provides for it.
pub type ProviderModel = (Seq<char>, ContentModel);

/// No two providers are for the same slot.
pub open spec fn providers_distinct(providers: Seq<ProviderModel>) -> bool {
    forall|i: int, j: int| 0 <= i < j < providers.len() ==> providers[i].0 != providers[j].0
}

/// Whether the page provides the slot `name`.
pub open spec fn has_provider(providers: Seq<ProviderModel>, name: Seq<char>) -> bool {
    key_index(providers, name) < providers.len()
}

/// What the page provides for the slot `name`, if anything.
pub open spec fn content_for(providers: Seq<ProviderModel>, name: Seq<char>) -> Option<
    ContentModel,
> {
    let i = key_index(providers, name);
    if i < providers.len() {
        Some(providers[i].1)
    } else {
        None
    }
}

/// `providers` with `content` added for `name`, unless the name is provided
/// already: the first provider of a name stays.
pub open spec fn provided(
    providers: Seq<ProviderModel>,
    name: Seq<char>,
    content: ContentModel,
) -> Seq<ProviderModel> {
    if has_provider(providers, name) {
        providers
    } else {
        providers.push((name, content))
    }
}

/// The slot names, in the providers' order.
pub open spec fn provider_names(providers: Seq<ProviderModel>) -> Seq<Seq<char>> {
    Seq::new(providers.len(), |i: int| providers[i].0)
}

/// Adding a provider keeps the names distinct.
pub proof fn lemma_provided_distinct(
    providers: Seq<ProviderModel>,
    name: Seq<char>,
    content: ContentModel,
)
    requires
        providers_distinct(providers),
    ensures
        providers_distinct(provided(providers, name, content)),
{
    lemma_key_index(providers, name);
}

/// The providers of one page, by slot name, in the order in which the names
/// were first met.
#[derive(Debug, PartialEq, Eq)]
pub struct PageSlots {
    entries: Vec<(String, PageSlotContent)>,
}

impl View for PageSlots {
    type V = Seq<ProviderModel>;

    closed spec fn view(&self) -> Seq<ProviderModel> {
        Seq::new(self.entries@.len(), |i: int| (self.entries@[i].0@, self.entries@[i].1@))
    }
}

impl PageSlots {
    #[verifier::type_invariant]
    spec fn distinct(&self) -> bool {
        providers_distinct(self@)
    }

    /// No providers.
    pub fn new() -> (r: Self)
        ensures
            r@ == Seq::<ProviderModel>::empty(),
    {
        let r = PageSlots { entries: Vec::new() };
        assert(r@ =~= Seq::<ProviderModel>::empty());
        r
    }

    /// The number of slots provided.
    pub fn len(&self) -> (n: usize)
        ensures
            n == self@.len(),
    {
        self.entries.len()
    }

    /// The names of the slots provided, in the order in which they were
    /// first met.
    pub fn names(&self) -> (r: Vec<String>)
        ensures
            texts_view(r@) == provider_names(self@),
    {
        let mut out: Vec<String> = Vec::new();
        let mut i: usize = 0;
        while i < self.entries.len()
            invariant
                i <= self.entries.len(),
                out@.len() == i,
                forall|k: int| 0 <= k < i ==> (#[trigger] out@[k])@ == self@[k].0,
            decreases self.entries.len() - i,
        {
            out.push(self.entries[i].0.clone());
            i += 1;
        }
        assert(texts_view(out@) =~= provider_names(self@));
        out
    }

    /// The place of `name`, or the length where the page does not provide it.
    fn position(&self, name: &str) -> (i: usize)
        ensures
            i == key_index(self@, name@),
            i <= self@.len(),
    {
        let mut i: usize = 0;
        while i < self.entries.len()
            invariant
                i <= self.entries.len(),
                forall|k: int| 0 <= k < i ==> self@[k].0 != name@,
            decreases self.entries.len() - i,
        {
            if same_text(self.entries[i].0.as_str(), name) {
                proof {
                    lemma_key_index_is(self@, name@, i as int);
                }
                return i;
            }
            i += 1;
        }
        proof {
            lemma_key_index_is(self@, name@, i as int);
        }
        i
    }

    /// Whether the page provides the slot `name`.
    pub fn contains(&self, name: &str) -> (r: bool)
        ensures
            r == has_provider(self@, name@),
    {
        self.position(name) < self.entries.len()
    }

    /// What the page provides for the slot `name`, if anything.
    pub fn get(&self, name: &str) -> (r: Option<&PageSlotContent>)
        ensures
            match r {
                Some(content) => content_for(self@, name@) == Some(content@),
                None => content_for(self@, name@) is None,
            },
    {
        let i = self.position(name);
        if i < self.entries.len() {
            Some(&self.entries[i].1)
        } else {
            None
        }
    }

    /// Adds `content` for the slot `name` unless the name is provided already.
    pub fn provide(self, name: String, content: PageSlotContent) -> (r: Self)
        ensures
            r@ == provided(self@, name@, content@),
    {
        proof {
            use_type_invariant(&self);
            lemma_provided_distinct(self@, name@, content@);
        }
        if self.contains(name.as_str()) {
            self
        } else {
            let ghost before = self@;
            let mut entries = self.entries;
            entries.push((name, content));
            assert(Seq::new(entries@.len(), |i: int| (entries@[i].0@, entries@[i].1@))
                =~= before.push((name@, content@)));
            PageSlots { entries }
        }
    }
}

// ---------------------------------------------------------------------------
// From elements to providers
// ---------------------------------------------------------------------------

/// The closing tag of `tag`, in lower case.
pub open spec fn closing_probe(tag: Seq<char>) -> Seq<char> {
    "</"@ + lowercase(tag) + ">"@
}

/// The closing style of a providing element, from its written markup and its
/// tag. Markup that ends in `/>` and holds no closing tag of the element
/// closes itself; markup that holds the closing tag has one; otherwise a void
/// tag is void, and any other tag has a closing tag.
pub open spec fn provider_style(outer: Seq<char>, tag: Seq<char>) -> SlotClosingStyle {
    let trimmed = trim_end(outer);
    let closed = contains_text(lowercase(trimmed), closing_probe(tag));
    if has_suffix(trimmed, "/>"@) && !closed {
        SlotClosingStyle::SelfClosing
    } else if closed {
        SlotClosingStyle::Explicit
    } else if is_void_tag(tag) {
        SlotClosingStyle::Void
    } else {
        SlotClosingStyle::Explicit
    }
}

/// The closing style of a providing element.
pub fn provider_closing_style(outer_html: &str, tag: &str) -> (r: SlotClosingStyle)
    ensures
        r == provider_style(outer_html@, tag@),
{
    let trimmed = trimmed_end(&chars_of(outer_html));
    let mut probe: Vec<char> = Vec::new();
    push_all(&mut probe, &chars_of("</"));
    push_all(&mut probe, &to_lowercase(&chars_of(tag)));
    push_all(&mut probe, &chars_of(">"));
    let closed = contains(&to_lowercase(&trimmed), &probe);
    if ends_with(&trimmed, &chars_of("/>")) && !closed {
        SlotClosingStyle::SelfClosing
    } else if closed {
        SlotClosingStyle::Explicit
    } else if is_void_element(tag) {
        SlotClosingStyle::Void
    } else {
        SlotClosingStyle::Explicit
    }
}

/// What a page element provides: its tag, its children written out, its
/// attributes, its own markup (absent where the parser gave none) and its
/// closing style.
pub open spec fn provider_of(element: ElementModel) -> ContentModel {
    ContentModel {
        tag: element.tag,
        inner_html: concat(element.children_html),
        attributes: collected(element.attributes),
        original_html: if element.outer_html.len() == 0 {
            None
        } else {
            Some(element.outer_html)
        },
        closing_style: provider_style(element.outer_html, element.tag),
    }
}

/// The slot that an element provides for: the value of its `for-slot`
/// attribute.
pub open spec fn slot_named_by(element: ElementModel) -> Option<Seq<char>> {
    attr_lookup(collected(element.attributes), for_slot_name())
}

/// The providers that a sequence of page elements gives, first come first
/// kept.
pub open spec fn providers_of(elements: Seq<ElementModel>) -> Seq<ProviderModel>
    decreases elements.len(),
{
    if elements.len() == 0 {
        Seq::empty()
    } else {
        let earlier = providers_of(elements.drop_last());
        match slot_named_by(elements.last()) {
            Some(name) => provided(earlier, name, provider_of(elements.last())),
            None => earlier,
        }
    }
}

/// The providers of a page: those of its elements that carry `for-slot`, in
/// document order.
pub open spec fn page_providers(page: Seq<char>) -> Seq<ProviderModel> {
    match selected_elements(page, "[for-slot]"@) {
        Some(elements) => providers_of(elements),
        None => Seq::empty(),
    }
}

/// What one page element provides.
pub fn provider_from_element(element: &Element) -> (r: PageSlotContent)
    ensures
        r@ == provider_of(element@),
{
    let outer = element.outer_html.clone();
    let closing_style = provider_closing_style(outer.as_str(), element.tag.as_str());
    PageSlotContent {
        tag: element.tag.clone(),
        inner_html: element.inner_html(),
        attributes: element.attribute_list(),
        original_html: if outer.as_str().is_empty() {
            None
        } else {
            Some(outer)
        },
        closing_style,
    }
}

/// The providers that the parser's elements give.
pub fn page_slots_from_elements(elements: &Vec<Element>) -> (r: PageSlots)
    ensures
        r@ == providers_of(elements_view(elements@)),
{
    let mut slots = PageSlots::new();
    let mut i: usize = 0;
    let ghost models = elements_view(elements@);
    assert(models.take(0) =~= Seq::<ElementModel>::empty());
    while i < elements.len()
        invariant
            i <= elements.len(),
            models == elements_view(elements@),
            slots@ == providers_of(models.take(i as int)),
        decreases elements.len() - i,
    {
        assert(models.take(i + 1).drop_last() == models.take(i as int));
        assert(models.take(i + 1).last() == elements@[i as int]@);
        let attrs = elements[i].attribute_list();
        match attrs.get("for-slot") {
            Some(name) => {
                if !slots.contains(name.as_str()) {
                    let content = provider_from_element(&elements[i]);
                    slots = slots.provide(name, content);
                }
            },
            None => {},
        }
        i += 1;
    }
    assert(models.take(elements.len() as int) == models);
    slots
}

/// The providers of a page.
pub fn extract_page_slots(page_html: &str) -> (r: PageSlots)
    requires
        fits_parser(page_html),
    ensures
        r@ == page_providers(page_html@),
{
    match select_elements(page_html, "[for-slot]") {
        Some(elements) => page_slots_from_elements(&elements),
        None => PageSlots::new(),
    }
}

/// The providers of a page, where the page can be handed to the parser;
/// `None` where it is too long or nested too deeply.
pub fn try_extract_page_slots(page_html: &str) -> (r: Option<PageSlots>)
    ensures
        match r {
            Some(slots) => fits_parser(page_html) && slots@ == page_providers(page_html@),
            None => !fits_parser(page_html),
        },
{
    if parser_accepts(page_html) {
        Some(extract_page_slots(page_html))
    } else {
        None
    }
}

} // verus!
