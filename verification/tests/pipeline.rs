use slotmerge::catalog::{
    closing_style_of_opening_tag, determine_closing_style, discover_slots, try_discover_slots,
};
use slotmerge::document::{nesting_depth, parser_accepts, MAX_NESTING};
use slotmerge::extract::{extract_page_slots, provider_closing_style, try_extract_page_slots};
use slotmerge::markup::{SlotClosingStyle, SlotSpec};
use slotmerge::normalize::{
    expected_order, normalize_page, order_changed, resolve_slots, unknown_slots,
};
use slotmerge::page::{
    build_page, build_succeeded, needs_write, try_build_page, PageOutcome,
};

const LAYOUT: &str = "<!doctype html>\n<html>\n<head>\n<!-- static head -->\n<title slot=\"title\"></title>\n</head>\n<body>\n<header>Site</header>\n<main slot=\"body\"></main>\n</body>\n</html>\n";

fn names(slots: &[SlotSpec]) -> Vec<String> {
    slots.iter().map(|s| s.name.clone()).collect()
}

#[test]
fn discover_slots_reads_layout_in_document_order() {
    let slots = discover_slots(LAYOUT);
    assert_eq!(names(&slots), vec!["title".to_string(), "body".to_string()]);
    assert_eq!(slots[0].layout_tag, "title");
    assert_eq!(slots[0].mode, "html");
    assert_eq!(slots[0].closing_style, SlotClosingStyle::Explicit);
    assert_eq!(slots[1].layout_tag, "main");
}

#[test]
fn discover_slots_reads_mode_and_closing_style() {
    let layout = "<html><body><img slot=\"pic\" slot-mode=\"attr:src\"><br slot=\"gap\" /><p slot=\"note\" slot-mode=\"text\"></p></body></html>";
    let slots = discover_slots(layout);
    assert_eq!(slots.len(), 3);
    assert_eq!(slots[0].mode, "attr:src");
    assert_eq!(slots[0].closing_style, SlotClosingStyle::Void);
    assert_eq!(slots[1].closing_style, SlotClosingStyle::SelfClosing);
    assert_eq!(slots[2].mode, "text");
    assert_eq!(slots[2].closing_style, SlotClosingStyle::Explicit);
}

#[test]
fn discover_slots_of_layout_without_slots_is_empty() {
    assert!(discover_slots("<html><body><p>plain</p></body></html>").is_empty());
}

#[test]
fn closing_style_goes_by_raw_layout_text() {
    assert_eq!(
        determine_closing_style("<div slot=\"a\" />", "div", "a"),
        SlotClosingStyle::SelfClosing
    );
    assert_eq!(
        determine_closing_style("<div slot=\"a\"></div>", "div", "a"),
        SlotClosingStyle::Explicit
    );
    assert_eq!(
        determine_closing_style("<IMG slot='a'>", "img", "a"),
        SlotClosingStyle::Void
    );
    assert_eq!(
        determine_closing_style("nothing here", "hr", "a"),
        SlotClosingStyle::Void
    );
    assert_eq!(
        determine_closing_style("nothing here", "p", "a"),
        SlotClosingStyle::Explicit
    );
}

#[test]
fn closing_style_of_given_opening_tag() {
    assert_eq!(
        closing_style_of_opening_tag(Some("<x slot=\"a\"/>  ".to_string()), "x"),
        SlotClosingStyle::SelfClosing
    );
    assert_eq!(
        closing_style_of_opening_tag(Some("<x slot=\"a\">".to_string()), "x"),
        SlotClosingStyle::Explicit
    );
    assert_eq!(closing_style_of_opening_tag(None, "WBR"), SlotClosingStyle::Void);
}

#[test]
fn provider_closing_style_cases() {
    assert_eq!(provider_closing_style("<img src=\"a\" />", "img"), SlotClosingStyle::SelfClosing);
    assert_eq!(provider_closing_style("<p>x</p>", "p"), SlotClosingStyle::Explicit);
    assert_eq!(provider_closing_style("<P>x</P>\n", "p"), SlotClosingStyle::Explicit);
    assert_eq!(provider_closing_style("<img src=\"a\">", "img"), SlotClosingStyle::Void);
    assert_eq!(provider_closing_style("<custom>", "custom"), SlotClosingStyle::Explicit);
    assert_eq!(provider_closing_style("<p></p><br/>", "p"), SlotClosingStyle::Explicit);
}

#[test]
fn extract_keeps_first_provider_of_a_name() {
    let page = "<span for-slot=\"title\">One</span>\n\n<span for-slot=\"title\">Two</span>\n\n<div for-slot=\"body\" class=\"x\"><p>Hi</p></div>\n";
    let slots = extract_page_slots(page);
    assert_eq!(slots.len(), 2);
    assert_eq!(slots.names(), vec!["title".to_string(), "body".to_string()]);
    let title = slots.get("title").unwrap();
    assert_eq!(title.tag, "span");
    assert_eq!(title.inner_html, "One");
    assert_eq!(title.original_html.as_deref(), Some("<span for-slot=\"title\">One</span>"));
    let body = slots.get("body").unwrap();
    assert_eq!(body.inner_html, "<p>Hi</p>");
    assert_eq!(body.attributes.get("class"), Some("x".to_string()));
    assert_eq!(body.attributes.get("for-slot"), Some("body".to_string()));
    assert_eq!(body.closing_style, SlotClosingStyle::Explicit);
    assert!(slots.get("ghost").is_none());
}

#[test]
fn title_and_body_are_filled_from_the_page() {
    let catalog = discover_slots(LAYOUT);
    let page = "<span for-slot=\"title\">Home</span>\n\n<div for-slot=\"body\"><p>Hi</p></div>\n";
    match build_page(LAYOUT, &catalog, page) {
        PageOutcome::Built(build) => {
            assert_eq!(
                build.output,
                "<!doctype html>\n<html>\n<head>\n<!-- static head -->\n<title>Home</title>\n</head>\n<body>\n<header>Site</header>\n<main><p>Hi</p></main>\n</body>\n</html>\n"
            );
            assert_eq!(build.rewrite, None);
            assert!(build.missing.is_empty());
            assert!(!build.reordered);
        }
        PageOutcome::Rejected(names) => panic!("rejected: {:?}", names),
    }
}

#[test]
fn unknown_slot_rejects_the_page_and_spares_its_sibling() {
    let catalog = discover_slots(LAYOUT);
    let bad = "<span for-slot=\"title\">Home</span>\n\n<div for-slot=\"ghost\">Boo</div>\n";
    let good = "<span for-slot=\"title\">Home</span>\n\n<div for-slot=\"body\">Ok</div>\n";
    assert_eq!(
        build_page(LAYOUT, &catalog, bad),
        PageOutcome::Rejected(vec!["ghost".to_string()])
    );
    assert!(matches!(build_page(LAYOUT, &catalog, good), PageOutcome::Built(_)));
    assert_eq!(
        unknown_slots(&catalog, &extract_page_slots(bad)),
        vec!["ghost".to_string()]
    );
    assert!(unknown_slots(&catalog, &extract_page_slots(good)).is_empty());
}

#[test]
fn missing_slot_gets_a_placeholder() {
    let layout = "<html><head><title slot=\"title\"></title></head><body><img slot=\"pic\" slot-mode=\"attr:src\"><main slot=\"body\"></main></body></html>";
    let catalog = discover_slots(layout);
    let page = "<div for-slot=\"body\">Text</div>\n";
    let (all, missing) = resolve_slots(&catalog, extract_page_slots(page));
    assert_eq!(missing, vec!["title".to_string(), "pic".to_string()]);
    assert_eq!(all.len(), 3);
    let title = all.get("title").unwrap();
    assert_eq!(title.tag, "title");
    assert_eq!(title.inner_html, "");
    assert_eq!(title.original_html, None);
    assert_eq!(title.attributes.len(), 1);
    assert_eq!(title.attributes.get("for-slot"), Some("title".to_string()));
    let pic = all.get("pic").unwrap();
    assert_eq!(pic.tag, "img");
    assert_eq!(pic.closing_style, SlotClosingStyle::Void);
    assert_eq!(pic.attributes.get("for-slot"), Some("pic".to_string()));
    assert_eq!(pic.attributes.get("src"), Some(String::new()));
    assert_eq!(
        normalize_page(page, &catalog, &all),
        Some(
            "<title for-slot=\"title\"></title>\n\n<img for-slot=\"pic\" src=\"\" />\n\n<div for-slot=\"body\">Text</div>\n"
                .to_string()
        )
    );
}

#[test]
fn normalization_reorders_to_layout_order() {
    let catalog = discover_slots(LAYOUT);
    let page = "<div for-slot=\"body\">B</div>\n\n<span for-slot=\"title\">T</span>";
    let slots = extract_page_slots(page);
    assert_eq!(
        expected_order(&catalog, &slots),
        vec!["title".to_string(), "body".to_string()]
    );
    assert!(order_changed(&catalog, &slots));
    let (all, missing) = resolve_slots(&catalog, slots);
    assert!(missing.is_empty());
    assert_eq!(
        normalize_page(page, &catalog, &all),
        Some("<span for-slot=\"title\">T</span>\n\n<div for-slot=\"body\">B</div>".to_string())
    );
}

#[test]
fn normalization_is_idempotent() {
    let catalog = discover_slots(LAYOUT);
    let page = "<div for-slot=\"body\">B</div>\r\n<span for-slot=\"title\">T</span>\r\n";
    let (all, _) = resolve_slots(&catalog, extract_page_slots(page));
    let first = normalize_page(page, &catalog, &all).unwrap();
    assert_eq!(
        first,
        "<span for-slot=\"title\">T</span>\r\n\r\n<div for-slot=\"body\">B</div>\r\n"
    );
    let (again, _) = resolve_slots(&catalog, extract_page_slots(&first));
    assert_eq!(normalize_page(&first, &catalog, &again), None);
}

#[test]
fn normalization_leaves_a_canonical_page_alone() {
    let catalog = discover_slots(LAYOUT);
    for page in [
        "<span for-slot=\"title\">T</span>\n\n<div for-slot=\"body\">B</div>",
        "<span for-slot=\"title\">T</span>\n\n<div for-slot=\"body\">B</div>\n",
        "<span for-slot=\"title\">T</span>\r\n\r\n<div for-slot=\"body\">B</div>\r\n",
        "<span for-slot=\"title\">T</span>\n\n<div for-slot=\"body\">B</div>\n\n\n",
    ] {
        let slots = extract_page_slots(page);
        assert!(!order_changed(&catalog, &slots));
        let (all, missing) = resolve_slots(&catalog, slots);
        assert!(missing.is_empty());
        assert_eq!(normalize_page(page, &catalog, &all), None);
    }
}

#[test]
fn needs_write_compares_contents() {
    assert!(needs_write(None, "a"));
    assert!(needs_write(Some("b"), "a"));
    assert!(!needs_write(Some("a"), "a"));
}

#[test]
fn second_normalization_can_write_again_where_the_parser_reads_a_bare_cr_anew() {
    let layout = "<html><body><p slot=\"a\"></p></body></html>";
    let catalog = discover_slots(layout);
    let page = "<p for-slot=\"a\">x&#13;y</p>";
    let (all, _) = resolve_slots(&catalog, extract_page_slots(page));
    let first = normalize_page(page, &catalog, &all).unwrap();
    assert_eq!(first, "<p for-slot=\"a\">x\ry</p>");
    let (again, _) = resolve_slots(&catalog, extract_page_slots(&first));
    assert_eq!(
        normalize_page(&first, &catalog, &again),
        Some("<p for-slot=\"a\">x\ny</p>".to_string())
    );
}

#[test]
fn complete_page_in_order_is_rewritten_where_the_parser_writes_it_otherwise() {
    let catalog = discover_slots(LAYOUT);
    let page = "<span for-slot=title>Home</span>\n\n<div for-slot=body>Hi</div>\n";
    let slots = extract_page_slots(page);
    assert!(!order_changed(&catalog, &slots));
    let (all, missing) = resolve_slots(&catalog, slots);
    assert!(missing.is_empty());
    assert_eq!(
        normalize_page(page, &catalog, &all),
        Some("<span for-slot=\"title\">Home</span>\n\n<div for-slot=\"body\">Hi</div>\n".to_string())
    );
}

#[test]
fn build_succeeds_when_every_page_does() {
    assert!(build_succeeded(&vec![]));
    assert!(build_succeeded(&vec![true, true]));
    assert!(!build_succeeded(&vec![true, false, true]));
}

fn nested(levels: usize) -> String {
    let mut page = String::from("<div for-slot=\"body\">");
    for _ in 0..levels {
        page.push_str("<div>");
    }
    page.push('x');
    page
}

#[test]
fn nesting_depth_of_given_walks() {
    assert_eq!(nesting_depth(&vec![]), 0);
    assert_eq!(nesting_depth(&vec![true, false]), 1);
    assert_eq!(nesting_depth(&vec![true, true, false, true, true, false, false, false]), 3);
    assert_eq!(nesting_depth(&vec![true, false, true, false, true, false]), 1);
    assert_eq!(nesting_depth(&vec![false, false, true, true]), 2);
    assert_eq!(nesting_depth(&vec![true, true, true]), 3);
}

#[test]
fn page_nested_to_the_limit_is_read() {
    // html, body and the provider are three levels, the text is one more.
    let page = nested(MAX_NESTING - 4);
    assert!(parser_accepts(&page));
    let slots = try_extract_page_slots(&page).unwrap();
    assert_eq!(slots.len(), 1);
    let inner = &slots.get("body").unwrap().inner_html;
    assert!(inner.starts_with("<div><div>"));
    assert!(inner.contains("<div>x</div>"));
    assert!(inner.ends_with("</div></div>"));
    let catalog = discover_slots(LAYOUT);
    assert!(matches!(try_build_page(LAYOUT, &catalog, &page), Some(PageOutcome::Built(_))));
}

#[test]
fn page_nested_beyond_the_limit_is_refused() {
    let catalog = discover_slots(LAYOUT);
    for levels in [MAX_NESTING - 3, 5_000] {
        let page = nested(levels);
        assert!(!parser_accepts(&page));
        assert!(try_extract_page_slots(&page).is_none());
        assert!(try_build_page(LAYOUT, &catalog, &page).is_none());
        assert!(try_discover_slots(&page).is_none());
    }
}

#[test]
fn ordinary_documents_are_accepted() {
    assert!(parser_accepts(""));
    assert!(parser_accepts(LAYOUT));
    assert_eq!(try_discover_slots(LAYOUT).unwrap().len(), 2);
    let page = "<span for-slot=\"title\">Home</span>\n\n<div for-slot=\"body\"><p>Hi</p></div>\n";
    let catalog = discover_slots(LAYOUT);
    assert_eq!(
        try_build_page(LAYOUT, &catalog, page),
        Some(build_page(LAYOUT, &catalog, page))
    );
}

#[test]
fn placeholder_of_a_void_slot_is_written_with_a_slash_and_read_back_without() {
    let layout = "<html><body><img slot=\"pic\"><main slot=\"body\"></main></body></html>";
    let catalog = discover_slots(layout);
    let page = "<div for-slot=\"body\">Text</div>\n";
    let (all, missing) = resolve_slots(&catalog, extract_page_slots(page));
    assert_eq!(missing, vec!["pic".to_string()]);
    let first = normalize_page(page, &catalog, &all).unwrap();
    assert_eq!(first, "<img for-slot=\"pic\" />\n\n<div for-slot=\"body\">Text</div>\n");
    let (again, missing) = resolve_slots(&catalog, extract_page_slots(&first));
    assert!(missing.is_empty());
    let second = normalize_page(&first, &catalog, &again).unwrap();
    assert_eq!(second, "<img for-slot=\"pic\">\n\n<div for-slot=\"body\">Text</div>\n");
    let (third, _) = resolve_slots(&catalog, extract_page_slots(&second));
    assert_eq!(normalize_page(&second, &catalog, &third), None);
}
