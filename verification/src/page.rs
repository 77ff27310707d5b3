//! One page through the whole pipeline: providers checked against the
//! catalog, the page normalized, the layout filled.

use vstd::prelude::*;
use crate::catalog::slots_view;
use crate::document::{fits_parser, parser_accepts};
use crate::extract::{content_for, extract_page_slots, page_providers, PageSlots, ProviderModel};
use crate::markup::{SlotModel, SlotSpec};
use crate::merge::{merge_slot_string, merged};
use crate::normalize::{
    missing_names, normalize_page, normalized, order_changed, order_differs, resolve_slots,
    resolved, unknown_names, unknown_slots,
};
use crate::text::{opt_text, same_text, texts_view};

verus! {

/// The layout with every slot of the catalog filled in turn from the page's
/// providers; a slot without a provider leaves the text as it is.
pub open spec fn merged_all(
    layout: Seq<char>,
    catalog: Seq<SlotModel>,
    providers: Seq<ProviderModel>,
) -> Seq<char>
    decreases catalog.len(),
{
    if catalog.len() == 0 {
        layout
    } else {
        let earlier = merged_all(layout, catalog.drop_last(), providers);
        match content_for(providers, catalog.last().name) {
            Some(content) => merged(earlier, catalog.last(), content),
            None => earlier,
        }
    }
}

/// Fills the layout from a page's providers, slot by slot in catalog order.
pub fn merge_page(layout_html: &str, catalog: &Vec<SlotSpec>, slots: &PageSlots) -> (r: String)
    ensures
        r@ == merged_all(layout_html@, slots_view(catalog@), slots@),
{
    let mut out = layout_html.to_owned();
    let mut i: usize = 0;
    let ghost models = slots_view(catalog@);
    assert(models.take(0) =~= Seq::<SlotModel>::empty());
    while i < catalog.len()
        invariant
            i <= catalog.len(),
            models == slots_view(catalog@),
            out@ == merged_all(layout_html@, models.take(i as int), slots@),
        decreases catalog.len() - i,
    {
        assert(models.take(i + 1).drop_last() == models.take(i as int));
        assert(models.take(i + 1).last() == catalog@[i as int]@);
        match slots.get(catalog[i].name.as_str()) {
            Some(content) => {
                out = merge_slot_string(out.as_str(), &catalog[i], content);
            },
            None => {},
        }
        i += 1;
    }
    assert(models.take(catalog.len() as int) == models);
    out
}

/// What was made of a page that the layout accepts.
#[derive(Debug, Clone, PartialEq, Eq)]
pub struct PageBuild {
    /// The output document.
    pub output: String,
    /// The new text of the page itself, where normalization changes it.
    pub rewrite: Option<String>,
    /// The slots that the page left out and that got a placeholder.
    pub missing: Vec<String>,
    /// Whether the page's providers stood in another order than the layout's
    /// slots.
    pub reordered: bool,
}

/// How the build of one page ended.
#[derive(Debug, Clone, PartialEq, Eq)]
pub enum PageOutcome {
    /// The page was built.
    Built(PageBuild),
    /// The page names slots that the layout does not declare; nothing is
    /// written for it.
    Rejected(Vec<String>),
}

/// What the build of a page must give, for the providers read from it.
pub open spec fn outcome_meets(
    outcome: PageOutcome,
    layout: Seq<char>,
    catalog: Seq<SlotModel>,
    page: Seq<char>,
    providers: Seq<ProviderModel>,
) -> bool {
    match outcome {
        PageOutcome::Rejected(unknown) => {
            &&& unknown@.len() > 0
            &&& texts_view(unknown@) == unknown_names(catalog, providers)
        },
        PageOutcome::Built(build) => {
            &&& unknown_names(catalog, providers).len() == 0
            &&& build.output@ == merged_all(layout, catalog, resolved(catalog, providers))
            &&& opt_text(build.rewrite) == normalized(page, catalog, resolved(catalog, providers))
            &&& texts_view(build.missing@) == missing_names(catalog, providers)
            &&& build.reordered == order_differs(catalog, providers)
        },
    }
}

/// Builds one page from the providers that were read from it. The page is
/// rejected exactly when it provides a slot that the layout does not declare.
pub fn build_page_from(
    layout_html: &str,
    catalog: &Vec<SlotSpec>,
    page_html: &str,
    slots: PageSlots,
) -> (r: PageOutcome)
    ensures
        outcome_meets(r, layout_html@, slots_view(catalog@), page_html@, slots@),
{
    let unknown = unknown_slots(catalog, &slots);
    if unknown.len() > 0 {
        return PageOutcome::Rejected(unknown);
    }
    let reordered = order_changed(catalog, &slots);
    let (all, missing) = resolve_slots(catalog, slots);
    let rewrite = normalize_page(page_html, catalog, &all);
    let output = merge_page(layout_html, catalog, &all);
    PageOutcome::Built(PageBuild { output, rewrite, missing, reordered })
}

/// Builds one page: reads its providers, then does as `build_page_from`.
pub fn build_page(layout_html: &str, catalog: &Vec<SlotSpec>, page_html: &str) -> (r: PageOutcome)
    requires
        fits_parser(page_html),
    ensures
        outcome_meets(
            r,
            layout_html@,
            slots_view(catalog@),
            page_html@,
            page_providers(page_html@),
        ),
{
    build_page_from(layout_html, catalog, page_html, extract_page_slots(page_html))
}

/// Builds one page, where the page can be handed to the parser; `None` where
/// it is too long or nested too deeply, and nothing is to be written for it.
pub fn try_build_page(layout_html: &str, catalog: &Vec<SlotSpec>, page_html: &str) -> (r: Option<
    PageOutcome,
>)
    ensures
        match r {
            Some(outcome) => fits_parser(page_html) && outcome_meets(
                outcome,
                layout_html@,
                slots_view(catalog@),
                page_html@,
                page_providers(page_html@),
            ),
            None => !fits_parser(page_html),
        },
{
    if parser_accepts(page_html) {
        Some(build_page(layout_html, catalog, page_html))
    } else {
        None
    }
}

/// Whether a build went well: it did when every page did.
pub fn build_succeeded(pages_in_order: &Vec<bool>) -> (r: bool)
    ensures
        r == forall|i: int| 0 <= i < pages_in_order@.len() ==> pages_in_order@[i],
{
    let mut i: usize = 0;
    while i < pages_in_order.len()
        invariant
            i <= pages_in_order.len(),
            forall|k: int| 0 <= k < i ==> pages_in_order@[k],
        decreases pages_in_order.len() - i,
    {
        if !pages_in_order[i] {
            return false;
        }
        i += 1;
    }
    true
}

/// Whether a file has to be written: it has, unless it holds the new contents
/// already.
pub fn needs_write(existing: Option<&str>, contents: &str) -> (r: bool)
    ensures
        r == match existing {
            Some(text) => text@ != contents@,
            None => true,
        },
{
    match existing {
        Some(text) => !same_text(text, contents),
        None => true,
    }
}

} // verus!
