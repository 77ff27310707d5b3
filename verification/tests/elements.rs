use slotmerge::catalog::{catalog_from_elements, slot_from_element};
use slotmerge::document::Element;
use slotmerge::extract::{page_slots_from_elements, provider_from_element, PageSlots};
use slotmerge::markup::{PageSlotContent, SlotClosingStyle};
use slotmerge::attributes::Attributes;

fn element(tag: &str, attrs: &[(&str, &str)], outer: &str, children: &[&str]) -> Element {
    Element {
        tag: tag.to_string(),
        attributes: attrs.iter().map(|(k, v)| (k.to_string(), v.to_string())).collect(),
        outer_html: outer.to_string(),
        children_html: children.iter().map(|c| c.to_string()).collect(),
    }
}

#[test]
fn element_gives_its_attributes_and_inner_markup() {
    let e = element(
        "a",
        &[("href", "/x"), ("title", "one"), ("title", "two")],
        "<a href=\"/x\" title=\"one\">go <b>now</b></a>",
        &["go ", "<b>now</b>"],
    );
    let attrs = e.attribute_list();
    assert_eq!(attrs.len(), 2);
    assert_eq!(attrs.get("href"), Some("/x".to_string()));
    assert_eq!(attrs.get("title"), Some("two".to_string()));
    assert_eq!(e.inner_html(), "go <b>now</b>");
    assert_eq!(element("br", &[], "<br>", &[]).inner_html(), "");
}

#[test]
fn provider_is_read_off_an_element() {
    let e = element(
        "div",
        &[("class", "x"), ("for-slot", "body")],
        "<div class=\"x\" for-slot=\"body\"><p>Hi</p></div>",
        &["<p>Hi</p>"],
    );
    let content = provider_from_element(&e);
    assert_eq!(content.tag, "div");
    assert_eq!(content.inner_html, "<p>Hi</p>");
    assert_eq!(
        content.original_html.as_deref(),
        Some("<div class=\"x\" for-slot=\"body\"><p>Hi</p></div>")
    );
    assert_eq!(content.closing_style, SlotClosingStyle::Explicit);
    assert_eq!(content.attributes.get("class"), Some("x".to_string()));
    let bare = provider_from_element(&element("img", &[("for-slot", "pic")], "", &[]));
    assert_eq!(bare.original_html, None);
    assert_eq!(bare.closing_style, SlotClosingStyle::Void);
    assert_eq!(bare.render(), "<img for-slot=\"pic\" />");
}

#[test]
fn first_element_of_a_name_provides_the_slot() {
    let elements = vec![
        element("p", &[("for-slot", "a")], "<p for-slot=\"a\">1</p>", &["1"]),
        element("p", &[("class", "no-slot")], "<p class=\"no-slot\">x</p>", &["x"]),
        element("p", &[("for-slot", "b")], "<p for-slot=\"b\">2</p>", &["2"]),
        element("p", &[("for-slot", "a")], "<p for-slot=\"a\">3</p>", &["3"]),
    ];
    let slots = page_slots_from_elements(&elements);
    assert_eq!(slots.len(), 2);
    assert_eq!(slots.names(), vec!["a".to_string(), "b".to_string()]);
    assert_eq!(slots.get("a").unwrap().inner_html, "1");
    assert!(slots.contains("b"));
    assert!(!slots.contains("c"));
    assert_eq!(page_slots_from_elements(&vec![]).len(), 0);
}

#[test]
fn page_slots_keep_the_first_provider() {
    let content = |inner: &str| PageSlotContent {
        tag: "p".to_string(),
        inner_html: inner.to_string(),
        attributes: Attributes::new(),
        original_html: None,
        closing_style: SlotClosingStyle::Explicit,
    };
    let slots = PageSlots::new()
        .provide("a".to_string(), content("1"))
        .provide("b".to_string(), content("2"))
        .provide("a".to_string(), content("3"));
    assert_eq!(slots.len(), 2);
    assert_eq!(slots.get("a").unwrap().inner_html, "1");
    assert_eq!(slots.get("b").unwrap().inner_html, "2");
    assert!(slots.get("c").is_none());
}

#[test]
fn slot_is_read_off_a_layout_element() {
    let layout = "<body><img slot=\"pic\" slot-mode=\"attr:src\" /><main slot=\"body\"></main></body>";
    let pic = element(
        "img",
        &[("slot", "pic"), ("slot-mode", "attr:src")],
        "<img slot=\"pic\" slot-mode=\"attr:src\">",
        &[],
    );
    let body = element("main", &[("slot", "body")], "<main slot=\"body\"></main>", &[]);
    let nameless = element("p", &[], "<p></p>", &[]);
    let slot = slot_from_element(layout, &pic);
    assert_eq!(slot.name, "pic");
    assert_eq!(slot.mode, "attr:src");
    assert_eq!(slot.layout_tag, "img");
    assert_eq!(slot.closing_style, SlotClosingStyle::SelfClosing);
    let catalog = catalog_from_elements(layout, &vec![pic, body, nameless]);
    assert_eq!(catalog.len(), 3);
    assert_eq!(catalog[1].name, "body");
    assert_eq!(catalog[1].mode, "html");
    assert_eq!(catalog[1].closing_style, SlotClosingStyle::Explicit);
    assert_eq!(catalog[2].name, "");
    assert_eq!(catalog[2].mode, "html");
}
