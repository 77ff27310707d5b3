//! Page normalization: the providers of a page checked against the catalog,
//! completed with placeholders, written out in catalog order, and compared
//! with the page as it stands.

use vstd::prelude::*;
use vstd::string::StringExecFns;
use crate::attributes::{key_index, lemma_key_index, lemma_key_index_is};
use crate::catalog::slots_view;
use crate::extract::{
    content_for, has_provider, provided, provider_names, providers_distinct, PageSlots,
    ProviderModel,
};
use crate::markup::{default_slot_provider, placeholder, rendered, SlotModel, SlotSpec};
use crate::text::{
    chars_of, contains, contains_text, crlf, crlf_only, crlf_to_lf, ends_with, has_suffix, join,
    lemma_crlf_round_trip, lemma_crlf_text_keeps_last, lemma_crlf_text_pairs, lemma_ends_with_lf,
    lemma_no_crlf_unchanged, lf_to_crlf, opt_text, push_all, same_chars,
    same_text, string_of, texts_view, trim_end_newlines, trimmed_end_newlines, with_crlf_endings,
    with_lf_endings,
};

verus! {

// ---------------------------------------------------------------------------
// Unknown slots
// ---------------------------------------------------------------------------

/// Whether the layout declares a slot called `name`.
pub open spec fn in_catalog(catalog: Seq<SlotModel>, name: Seq<char>) -> bool {
    exists|i: int| 0 <= i < catalog.len() && catalog[i].name == name
}

/// The names that the page provides and the layout does not declare, in the
/// page's order.
pub open spec fn unknown_names(catalog: Seq<SlotModel>, providers: Seq<ProviderModel>) -> Seq<
    Seq<char>,
>
    decreases providers.len(),
{
    if providers.len() == 0 {
        Seq::empty()
    } else {
        let earlier = unknown_names(catalog, providers.drop_last());
        if in_catalog(catalog, providers.last().0) {
            earlier
        } else {
            earlier.push(providers.last().0)
        }
    }
}

/// Whether the layout declares a slot called `name`.
pub fn catalog_has(catalog: &Vec<SlotSpec>, name: &str) -> (r: bool)
    ensures
        r == in_catalog(slots_view(catalog@), name@),
{
    let mut i: usize = 0;
    while i < catalog.len()
        invariant
            i <= catalog.len(),
            forall|k: int| 0 <= k < i ==> slots_view(catalog@)[k].name != name@,
        decreases catalog.len() - i,
    {
        if same_text(catalog[i].name.as_str(), name) {
            assert(slots_view(catalog@)[i as int].name == name@);
            return true;
        }
        i += 1;
    }
    false
}

/// The names that the page provides and the layout does not declare.
pub fn unknown_slots(catalog: &Vec<SlotSpec>, slots: &PageSlots) -> (r: Vec<String>)
    ensures
        texts_view(r@) == unknown_names(slots_view(catalog@), slots@),
{
    let names = slots.names();
    let mut out: Vec<String> = Vec::new();
    let mut i: usize = 0;
    assert(slots@.take(0) =~= Seq::<ProviderModel>::empty());
    assert(texts_view(out@) =~= Seq::<Seq<char>>::empty());
    assert(texts_view(names@).len() == provider_names(slots@).len());
    while i < names.len()
        invariant
            i <= names.len(),
            names.len() == slots@.len(),
            texts_view(names@) == provider_names(slots@),
            texts_view(out@) == unknown_names(slots_view(catalog@), slots@.take(i as int)),
        decreases names.len() - i,
    {
        assert(slots@.take(i + 1).drop_last() == slots@.take(i as int));
        assert(texts_view(names@)[i as int] == slots@[i as int].0);
        if !catalog_has(catalog, names[i].as_str()) {
            let ghost before = texts_view(out@);
            out.push(names[i].clone());
            assert(texts_view(out@) =~= before.push(names@[i as int]@));
        }
        i += 1;
    }
    assert(slots@.take(slots@.len() as int) == slots@);
    out
}

/// A page has no unknown names exactly when the layout declares every slot
/// that the page provides.
pub proof fn lemma_no_unknown_names(catalog: Seq<SlotModel>, providers: Seq<ProviderModel>)
    ensures
        unknown_names(catalog, providers).len() == 0 <==> forall|i: int|
            0 <= i < providers.len() ==> in_catalog(catalog, #[trigger] providers[i].0),
    decreases providers.len(),
{
    if providers.len() > 0 {
        let earlier = providers.drop_last();
        lemma_no_unknown_names(catalog, earlier);
        if unknown_names(catalog, providers).len() == 0 {
            assert forall|i: int| 0 <= i < providers.len() implies in_catalog(
                catalog,
                #[trigger] providers[i].0,
            ) by {
                if i < earlier.len() {
                    assert(earlier[i] == providers[i]);
                }
            }
        }
        if forall|i: int|
            0 <= i < providers.len() ==> in_catalog(catalog, #[trigger] providers[i].0) {
            assert forall|i: int| 0 <= i < earlier.len() implies in_catalog(
                catalog,
                #[trigger] earlier[i].0,
            ) by {
                assert(earlier[i] == providers[i]);
            }
            assert(in_catalog(catalog, providers[providers.len() - 1].0));
        }
    }
}

// ---------------------------------------------------------------------------
// Order
// ---------------------------------------------------------------------------

/// The names of the catalog's slots that the page provides, in catalog order.
pub open spec fn expected_names(catalog: Seq<SlotModel>, providers: Seq<ProviderModel>) -> Seq<
    Seq<char>,
>
    decreases catalog.len(),
{
    if catalog.len() == 0 {
        Seq::empty()
    } else {
        let earlier = expected_names(catalog.drop_last(), providers);
        if has_provider(providers, catalog.last().name) {
            earlier.push(catalog.last().name)
        } else {
            earlier
        }
    }
}

/// Whether the page's providers stand in another order than the layout's
/// slots.
pub open spec fn order_differs(catalog: Seq<SlotModel>, providers: Seq<ProviderModel>) -> bool {
    provider_names(providers) != expected_names(catalog, providers)
}

/// The names of the catalog's slots that the page provides, in catalog order.
pub fn expected_order(catalog: &Vec<SlotSpec>, slots: &PageSlots) -> (r: Vec<String>)
    ensures
        texts_view(r@) == expected_names(slots_view(catalog@), slots@),
{
    let mut out: Vec<String> = Vec::new();
    let mut i: usize = 0;
    let ghost models = slots_view(catalog@);
    assert(models.take(0) =~= Seq::<SlotModel>::empty());
    assert(texts_view(out@) =~= Seq::<Seq<char>>::empty());
    while i < catalog.len()
        invariant
            i <= catalog.len(),
            models == slots_view(catalog@),
            texts_view(out@) == expected_names(models.take(i as int), slots@),
        decreases catalog.len() - i,
    {
        assert(models.take(i + 1).drop_last() == models.take(i as int));
        assert(models.take(i + 1).last() == catalog@[i as int]@);
        if slots.contains(catalog[i].name.as_str()) {
            let ghost before = texts_view(out@);
            out.push(catalog[i].name.clone());
            assert(texts_view(out@) =~= before.push(catalog@[i as int].name@));
        }
        i += 1;
    }
    assert(models.take(catalog.len() as int) == models);
    out
}

/// Whether the page's providers stand in another order than the layout's
/// slots.
pub fn order_changed(catalog: &Vec<SlotSpec>, slots: &PageSlots) -> (r: bool)
    ensures
        r == order_differs(slots_view(catalog@), slots@),
{
    let expected = expected_order(catalog, slots);
    let actual = slots.names();
    let ghost want = texts_view(expected@);
    let ghost have = texts_view(actual@);
    if expected.len() != actual.len() {
        assert(have.len() != want.len());
        return true;
    }
    let mut i: usize = 0;
    while i < expected.len()
        invariant
            i <= expected.len(),
            expected.len() == actual.len(),
            want == texts_view(expected@),
            want == expected_names(slots_view(catalog@), slots@),
            have == texts_view(actual@),
            have == provider_names(slots@),
            forall|k: int| 0 <= k < i ==> have[k] == want[k],
        decreases expected.len() - i,
    {
        if !same_text(actual[i].as_str(), expected[i].as_str()) {
            assert(have[i as int] != want[i as int]);
            return true;
        }
        i += 1;
    }
    assert(have =~= want);
    false
}

// ---------------------------------------------------------------------------
// Placeholders for missing slots
// ---------------------------------------------------------------------------

/// The providers completed: every slot of the catalog that the page leaves
/// out gets its placeholder, added behind the page's own providers in catalog
/// order.
pub open spec fn resolved(catalog: Seq<SlotModel>, providers: Seq<ProviderModel>) -> Seq<
    ProviderModel,
>
    decreases catalog.len(),
{
    if catalog.len() == 0 {
        providers
    } else {
        provided(
            resolved(catalog.drop_last(), providers),
            catalog.last().name,
            placeholder(catalog.last()),
        )
    }
}

/// The names of the slots that got a placeholder, in catalog order.
pub open spec fn missing_names(catalog: Seq<SlotModel>, providers: Seq<ProviderModel>) -> Seq<
    Seq<char>,
>
    decreases catalog.len(),
{
    if catalog.len() == 0 {
        Seq::empty()
    } else {
        let earlier = missing_names(catalog.drop_last(), providers);
        if has_provider(resolved(catalog.drop_last(), providers), catalog.last().name) {
            earlier
        } else {
            earlier.push(catalog.last().name)
        }
    }
}

/// Completes the page's providers with placeholders and names the slots that
/// were missing.
pub fn resolve_slots(catalog: &Vec<SlotSpec>, slots: PageSlots) -> (r: (PageSlots, Vec<String>))
    ensures
        r.0@ == resolved(slots_view(catalog@), slots@),
        texts_view(r.1@) == missing_names(slots_view(catalog@), slots@),
{
    let ghost start = slots@;
    let ghost models = slots_view(catalog@);
    let mut all = slots;
    let mut missing: Vec<String> = Vec::new();
    let mut i: usize = 0;
    assert(models.take(0) =~= Seq::<SlotModel>::empty());
    assert(texts_view(missing@) =~= Seq::<Seq<char>>::empty());
    while i < catalog.len()
        invariant
            i <= catalog.len(),
            models == slots_view(catalog@),
            all@ == resolved(models.take(i as int), start),
            texts_view(missing@) == missing_names(models.take(i as int), start),
        decreases catalog.len() - i,
    {
        assert(models.take(i + 1).drop_last() == models.take(i as int));
        assert(models.take(i + 1).last() == catalog@[i as int]@);
        if !all.contains(catalog[i].name.as_str()) {
            let ghost before = texts_view(missing@);
            missing.push(catalog[i].name.clone());
            assert(texts_view(missing@) =~= before.push(catalog@[i as int].name@));
            all = all.provide(catalog[i].name.clone(), default_slot_provider(&catalog[i]));
        }
        i += 1;
    }
    assert(models.take(catalog.len() as int) == models);
    (all, missing)
}

/// Completing never touches what the page provides: every provider of the
/// page stands in the completed list at its old place.
pub proof fn lemma_resolved_keeps_providers(catalog: Seq<SlotModel>, providers: Seq<ProviderModel>)
    ensures
        resolved(catalog, providers).len() >= providers.len(),
        resolved(catalog, providers).take(providers.len() as int) == providers,
    decreases catalog.len(),
{
    if catalog.len() > 0 {
        lemma_resolved_keeps_providers(catalog.drop_last(), providers);
        let earlier = resolved(catalog.drop_last(), providers);
        assert(earlier.take(providers.len() as int) == providers);
        assert(resolved(catalog, providers).take(providers.len() as int) =~= earlier.take(
            providers.len() as int,
        ));
    } else {
        assert(providers.take(providers.len() as int) =~= providers);
    }
}

/// A slot that the page leaves out is provided after completing, by the
/// placeholder of the first slot of that name in the catalog: the slot's tag
/// and closing style, nothing inside, no markup of its own.
pub proof fn lemma_missing_slot_gets_placeholder(
    catalog: Seq<SlotModel>,
    providers: Seq<ProviderModel>,
    i: int,
)
    requires
        0 <= i < catalog.len(),
        !has_provider(providers, catalog[i].name),
        forall|j: int| 0 <= j < i ==> catalog[j].name != catalog[i].name,
    ensures
        content_for(resolved(catalog, providers), catalog[i].name) == Some(placeholder(catalog[i])),
    decreases catalog.len(),
{
    let name = catalog[i].name;
    let init = catalog.drop_last();
    let earlier = resolved(init, providers);
    let last = catalog.last();
    if i == catalog.len() - 1 {
        lemma_not_provided_before(init, providers, name);
        lemma_key_index(earlier, name);
        lemma_key_index_is(earlier.push((name, placeholder(last))), name, earlier.len() as int);
    } else {
        assert(init[i] == catalog[i]);
        lemma_missing_slot_gets_placeholder(init, providers, i);
        lemma_key_index(earlier, name);
        if !has_provider(earlier, last.name) {
            let k = key_index(earlier, name);
            let out = earlier.push((last.name, placeholder(last)));
            assert(out[k] == earlier[k]);
            assert forall|j: int| 0 <= j < k implies out[j].0 != name by {
                assert(out[j] == earlier[j]);
            }
            lemma_key_index_is(out, name, k);
        }
    }
}

/// After completing, every slot of the catalog is provided.
pub proof fn lemma_resolved_is_complete(
    catalog: Seq<SlotModel>,
    providers: Seq<ProviderModel>,
    i: int,
)
    requires
        0 <= i < catalog.len(),
    ensures
        has_provider(resolved(catalog, providers), catalog[i].name),
    decreases catalog.len(),
{
    let init = catalog.drop_last();
    let last = catalog.last();
    let earlier = resolved(init, providers);
    let name = catalog[i].name;
    lemma_key_index(earlier, name);
    if i < init.len() {
        assert(init[i] == catalog[i]);
        lemma_resolved_is_complete(init, providers, i);
        if !has_provider(earlier, last.name) {
            let k = key_index(earlier, name);
            let all = earlier.push((last.name, placeholder(last)));
            assert(all[k] == earlier[k]);
            assert forall|j: int| 0 <= j < k implies all[j].0 != name by {
                assert(all[j] == earlier[j]);
            }
            lemma_key_index_is(all, name, k);
        }
    } else if !has_provider(earlier, name) {
        let all = earlier.push((name, placeholder(last)));
        lemma_key_index_is(all, name, earlier.len() as int);
    }
}

/// A name that neither the page provides nor the catalog declares is not
/// provided after completing.
pub proof fn lemma_not_provided_before(
    catalog: Seq<SlotModel>,
    providers: Seq<ProviderModel>,
    name: Seq<char>,
)
    requires
        !has_provider(providers, name),
        forall|j: int| 0 <= j < catalog.len() ==> catalog[j].name != name,
    ensures
        !has_provider(resolved(catalog, providers), name),
    decreases catalog.len(),
{
    if catalog.len() > 0 {
        let init = catalog.drop_last();
        let last = catalog.last();
        assert forall|j: int| 0 <= j < init.len() implies init[j].name != name by {
            assert(init[j] == catalog[j]);
        }
        lemma_not_provided_before(init, providers, name);
        let earlier = resolved(init, providers);
        lemma_key_index(earlier, name);
        if !has_provider(earlier, last.name) {
            let out = earlier.push((last.name, placeholder(last)));
            assert(last.name != name);
            assert forall|j: int| 0 <= j < out.len() implies out[j].0 != name by {
                if j < earlier.len() {
                    assert(out[j] == earlier[j]);
                }
            }
            lemma_key_index_is(out, name, out.len() as int);
        }
    }
}

// ---------------------------------------------------------------------------
// The canonical text of a page
// ---------------------------------------------------------------------------

/// The separator between two providers in a normalized page: a blank line.
pub open spec fn blank_line() -> Seq<char> {
    seq!['\n', '\n']
}

/// One block for each slot of the catalog that has a provider, in catalog
/// order: the provider as it is written out.
pub open spec fn blocks(catalog: Seq<SlotModel>, providers: Seq<ProviderModel>) -> Seq<Seq<char>>
    decreases catalog.len(),
{
    if catalog.len() == 0 {
        Seq::empty()
    } else {
        let earlier = blocks(catalog.drop_last(), providers);
        match content_for(providers, catalog.last().name) {
            Some(content) => earlier.push(rendered(content)),
            None => earlier,
        }
    }
}

/// The canonical text of a page: its blocks with a blank line between them,
/// without line feeds at the end.
pub open spec fn canonical_text(catalog: Seq<SlotModel>, providers: Seq<ProviderModel>) -> Seq<
    char,
> {
    trim_end_newlines(join(blocks(catalog, providers), blank_line()))
}

/// The page as it is compared with the canonical text: line endings as line
/// feeds, no line feeds at the end.
pub open spec fn comparable(page: Seq<char>) -> Seq<char> {
    trim_end_newlines(crlf_to_lf(page))
}

/// The text that takes the page's place: the canonical text, ending in a line
/// feed if the page did, and with CR LF line endings if the page had any.
pub open spec fn rewritten(page: Seq<char>, canonical: Seq<char>) -> Seq<char> {
    let body = if has_suffix(page, seq!['\n']) {
        canonical.push('\n')
    } else {
        canonical
    };
    if contains_text(page, crlf()) {
        lf_to_crlf(body)
    } else {
        body
    }
}

/// What normalization does to a page: `None` where the page is in canonical
/// form already (line endings and line feeds at the end set aside), else the
/// text to write in its place.
pub open spec fn normalized(
    page: Seq<char>,
    catalog: Seq<SlotModel>,
    providers: Seq<ProviderModel>,
) -> Option<Seq<char>> {
    let canonical = canonical_text(catalog, providers);
    if canonical == comparable(page) {
        None
    } else {
        Some(rewritten(page, canonical))
    }
}

/// The blocks of a page, in catalog order.
pub fn normalized_blocks(catalog: &Vec<SlotSpec>, slots: &PageSlots) -> (r: Vec<String>)
    ensures
        texts_view(r@) == blocks(slots_view(catalog@), slots@),
{
    let mut out: Vec<String> = Vec::new();
    let mut i: usize = 0;
    let ghost models = slots_view(catalog@);
    assert(models.take(0) =~= Seq::<SlotModel>::empty());
    assert(texts_view(out@) =~= Seq::<Seq<char>>::empty());
    while i < catalog.len()
        invariant
            i <= catalog.len(),
            models == slots_view(catalog@),
            texts_view(out@) == blocks(models.take(i as int), slots@),
        decreases catalog.len() - i,
    {
        assert(models.take(i + 1).drop_last() == models.take(i as int));
        assert(models.take(i + 1).last() == catalog@[i as int]@);
        match slots.get(catalog[i].name.as_str()) {
            Some(content) => {
                let ghost before = texts_view(out@);
                let block = content.render();
                out.push(block);
                assert(texts_view(out@) =~= before.push(rendered(content@)));
            },
            None => {},
        }
        i += 1;
    }
    assert(models.take(catalog.len() as int) == models);
    out
}

/// The texts with a blank line between neighbours.
pub fn join_blocks(parts: &Vec<String>) -> (r: String)
    ensures
        r@ == join(texts_view(parts@), blank_line()),
{
    let mut out = String::new();
    let mut i: usize = 0;
    let ghost texts = texts_view(parts@);
    assert(texts.take(0) =~= Seq::<Seq<char>>::empty());
    proof {
        reveal_strlit("\n\n");
        assert("\n\n"@ =~= blank_line());
    }
    while i < parts.len()
        invariant
            i <= parts.len(),
            texts == texts_view(parts@),
            "\n\n"@ == blank_line(),
            out@ == join(texts.take(i as int), blank_line()),
        decreases parts.len() - i,
    {
        assert(texts.take(i + 1).drop_last() == texts.take(i as int));
        assert(texts.take(i + 1).last() == parts@[i as int]@);
        if i > 0 {
            out.append("\n\n");
        }
        out.append(parts[i].as_str());
        assert(out@ =~= join(texts.take(i + 1), blank_line()));
        i += 1;
    }
    assert(texts.take(parts.len() as int) == texts);
    out
}

/// The canonical text of a page.
pub fn canonical_page_text(catalog: &Vec<SlotSpec>, slots: &PageSlots) -> (r: Vec<char>)
    ensures
        r@ == canonical_text(slots_view(catalog@), slots@),
{
    let joined = join_blocks(&normalized_blocks(catalog, slots));
    trimmed_end_newlines(&chars_of(joined.as_str()))
}

/// The text that takes the page's place, given the canonical text.
pub fn rewritten_page(page: &Vec<char>, canonical: &Vec<char>) -> (r: Vec<char>)
    ensures
        r@ == rewritten(page@, canonical@),
{
    let mut newline: Vec<char> = Vec::new();
    newline.push('\n');
    let mut pair: Vec<char> = Vec::new();
    pair.push('\r');
    pair.push('\n');
    assert(newline@ =~= seq!['\n']);
    assert(pair@ =~= crlf());
    let mut body: Vec<char> = Vec::new();
    push_all(&mut body, canonical);
    if ends_with(page, &newline) {
        body.push('\n');
    }
    if contains(page, &pair) {
        with_crlf_endings(&body)
    } else {
        body
    }
}

/// Normalizes a page: `None` where nothing is to be written, else the new
/// text of the page.
pub fn normalize_page(page_html: &str, catalog: &Vec<SlotSpec>, slots: &PageSlots) -> (r: Option<
    String,
>)
    ensures
        opt_text(r) == normalized(page_html@, slots_view(catalog@), slots@),
{
    let page = chars_of(page_html);
    let canonical = canonical_page_text(catalog, slots);
    let original = trimmed_end_newlines(&with_lf_endings(&page));
    if same_chars(&canonical, &original) {
        None
    } else {
        Some(string_of(&rewritten_page(&page, &canonical)))
    }
}

// ---------------------------------------------------------------------------
// What holds of normalization
// ---------------------------------------------------------------------------

/// Trimming line feeds leaves a text that does not end in a line feed, and
/// trimming again, or after adding one line feed, changes nothing more.
pub proof fn lemma_trim_newlines_settles(s: Seq<char>)
    ensures
        trim_end_newlines(s).len() > 0 ==> trim_end_newlines(s).last() != '\n',
        trim_end_newlines(trim_end_newlines(s)) == trim_end_newlines(s),
        trim_end_newlines(trim_end_newlines(s).push('\n')) == trim_end_newlines(s),
    decreases s.len(),
{
    if s.len() > 0 && s.last() == '\n' {
        lemma_trim_newlines_settles(s.drop_last());
    }
    let t = trim_end_newlines(s);
    assert(t.push('\n').drop_last() == t);
}

/// A page that is rewritten keeps its line endings: the new text ends in a
/// line feed exactly when the page did, and where the page held a CR LF every
/// line feed of the new text follows a carriage return.
pub proof fn lemma_rewrite_keeps_line_endings(
    page: Seq<char>,
    catalog: Seq<SlotModel>,
    providers: Seq<ProviderModel>,
)
    requires
        normalized(page, catalog, providers) is Some,
    ensures
        has_suffix(normalized(page, catalog, providers)->0, seq!['\n']) == has_suffix(
            page,
            seq!['\n'],
        ),
        contains_text(page, crlf()) ==> crlf_only(normalized(page, catalog, providers)->0),
{
    let canonical = canonical_text(catalog, providers);
    let text = rewritten(page, canonical);
    let body = if has_suffix(page, seq!['\n']) {
        canonical.push('\n')
    } else {
        canonical
    };
    lemma_trim_newlines_settles(join(blocks(catalog, providers), blank_line()));
    lemma_ends_with_lf(body);
    lemma_ends_with_lf(text);
    lemma_crlf_text_keeps_last(body);
    lemma_crlf_text_pairs(body);
}

/// The page as it stands after normalization.
pub open spec fn page_after(
    page: Seq<char>,
    catalog: Seq<SlotModel>,
    providers: Seq<ProviderModel>,
) -> Seq<char> {
    match normalized(page, catalog, providers) {
        Some(text) => text,
        None => page,
    }
}

/// Normalizing twice: where the providers read from the normalized page are
/// written out as those of the first pass were, the second pass writes
/// nothing. It is stated for the pages on which the text written keeps the
/// page's line endings, which is to say that it holds a CR LF only if the page
/// held one.
pub proof fn lemma_normalize_twice(
    page: Seq<char>,
    catalog: Seq<SlotModel>,
    providers: Seq<ProviderModel>,
    reread: Seq<ProviderModel>,
)
    requires
        canonical_text(catalog, reread) == canonical_text(catalog, providers),
        contains_text(page_after(page, catalog, providers), crlf()) ==> contains_text(page, crlf()),
    ensures
        normalized(page_after(page, catalog, providers), catalog, reread) is None,
{
    let canonical = canonical_text(catalog, providers);
    if normalized(page, catalog, providers) is Some {
        let text = rewritten(page, canonical);
        let body = if has_suffix(page, seq!['\n']) {
            canonical.push('\n')
        } else {
            canonical
        };
        lemma_trim_newlines_settles(join(blocks(catalog, providers), blank_line()));
        if contains_text(page, crlf()) {
            lemma_crlf_round_trip(body);
        } else {
            lemma_no_crlf_unchanged(text);
        }
        assert(crlf_to_lf(text) == body);
        assert(comparable(text) == canonical);
    }
}

/// The names of the catalog's slots, in order.
pub open spec fn slot_names(catalog: Seq<SlotModel>) -> Seq<Seq<char>> {
    Seq::new(catalog.len(), |i: int| catalog[i].name)
}

/// Each provider as it is written out, in order.
pub open spec fn written(providers: Seq<ProviderModel>) -> Seq<Seq<char>> {
    Seq::new(providers.len(), |i: int| rendered(providers[i].1))
}

/// A page that provides exactly the catalog's slots, in catalog order.
pub open spec fn complete_in_order(catalog: Seq<SlotModel>, providers: Seq<ProviderModel>) -> bool {
    &&& providers_distinct(providers)
    &&& provider_names(providers) == slot_names(catalog)
}

/// What holds of the first `k` slots of a catalog whose slots the page
/// provides in order.
proof fn lemma_complete_prefix(catalog: Seq<SlotModel>, providers: Seq<ProviderModel>, k: int)
    requires
        complete_in_order(catalog, providers),
        0 <= k <= catalog.len(),
    ensures
        blocks(catalog.take(k), providers) == written(providers).take(k),
        resolved(catalog.take(k), providers) == providers,
        missing_names(catalog.take(k), providers) == Seq::<Seq<char>>::empty(),
        expected_names(catalog.take(k), providers) == provider_names(providers).take(k),
    decreases k,
{
    let names = provider_names(providers);
    assert(names.len() == catalog.len());
    if k == 0 {
        assert(catalog.take(0) =~= Seq::<SlotModel>::empty());
        assert(written(providers).take(0) =~= Seq::<Seq<char>>::empty());
        assert(names.take(0) =~= Seq::<Seq<char>>::empty());
    } else {
        lemma_complete_prefix(catalog, providers, k - 1);
        let part = catalog.take(k);
        assert(part.drop_last() == catalog.take(k - 1));
        assert(part.last() == catalog[k - 1]);
        assert(names[k - 1] == slot_names(catalog)[k - 1]);
        assert(providers[k - 1].0 == catalog[k - 1].name);
        assert forall|j: int| 0 <= j < k - 1 implies providers[j].0 != catalog[k - 1].name by {}
        lemma_key_index_is(providers, catalog[k - 1].name, k - 1);
        assert(written(providers).take(k) =~= written(providers).take(k - 1).push(
            rendered(providers[k - 1].1),
        ));
        assert(names.take(k) =~= names.take(k - 1).push(catalog[k - 1].name));
    }
}

/// A page that provides exactly the catalog's slots, in catalog order, is
/// complete and in order as it stands; and it is left as it is exactly when
/// its text is its providers, as they are written out, with a blank line
/// between them (line endings and line feeds at the end set aside).
pub proof fn lemma_complete_page_unchanged(
    page: Seq<char>,
    catalog: Seq<SlotModel>,
    providers: Seq<ProviderModel>,
)
    requires
        complete_in_order(catalog, providers),
    ensures
        resolved(catalog, providers) == providers,
        missing_names(catalog, providers).len() == 0,
        !order_differs(catalog, providers),
        normalized(page, catalog, providers) is None <==> comparable(page) == trim_end_newlines(
            join(written(providers), blank_line()),
        ),
{
    lemma_complete_prefix(catalog, providers, catalog.len() as int);
    assert(catalog.take(catalog.len() as int) == catalog);
    assert(provider_names(providers).len() == catalog.len());
    assert(written(providers).take(catalog.len() as int) == written(providers));
    assert(provider_names(providers).take(catalog.len() as int) == provider_names(providers));
}

} // verus!
