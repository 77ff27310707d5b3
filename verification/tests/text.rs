use slotmerge::attributes::{comes_before, text_less, Attributes};
use slotmerge::markup::{
    attribute_of_mode, default_slot_provider, is_void_element, PageSlotContent, SlotClosingStyle,
    SlotSpec,
};
use slotmerge::text::{
    chars_of, contains, ends_with, equals_ignore_case, is_whitespace, matches_at, replaced_char,
    same_text, starts_with, string_of, to_ascii_lower, to_lowercase, trimmed_end,
    trimmed_end_newlines, with_crlf_endings, with_lf_endings,
};

fn v(s: &str) -> Vec<char> {
    chars_of(s)
}

fn t(chars: Vec<char>) -> String {
    string_of(&chars)
}

#[test]
fn strings_and_characters_round_trip() {
    assert_eq!(v("añ→b"), vec!['a', 'ñ', '→', 'b']);
    assert_eq!(t(vec!['x', 'ÿ', '…']), "xÿ…");
    assert_eq!(t(v("")), "");
    assert!(same_text("añ", "añ"));
    assert!(!same_text("añ", "an"));
    assert!(!same_text("a", "ab"));
}

#[test]
fn ascii_case_only() {
    assert_eq!(to_ascii_lower('A'), 'a');
    assert_eq!(to_ascii_lower('Z'), 'z');
    assert_eq!(to_ascii_lower('z'), 'z');
    assert_eq!(to_ascii_lower('@'), '@');
    assert_eq!(to_ascii_lower('['), '[');
    assert_eq!(to_ascii_lower('É'), 'É');
    assert_eq!(t(to_lowercase(&v("HeLLo \u{c9}COLE 1"))), "hello \u{c9}cole 1");
    assert!(equals_ignore_case(&v("_Layout.HTML"), &v("_layout.html")));
    assert!(!equals_ignore_case(&v("é"), &v("É")));
}

#[test]
fn prefixes_suffixes_and_occurrences() {
    assert!(starts_with(&v("attr:src"), &v("attr:")));
    assert!(!starts_with(&v("att"), &v("attr:")));
    assert!(starts_with(&v("x"), &v("")));
    assert!(ends_with(&v("<br />"), &v("/>")));
    assert!(!ends_with(&v(">"), &v("/>")));
    assert!(ends_with(&v(""), &v("")));
    assert!(contains(&v("a\r\nb"), &v("\r\n")));
    assert!(!contains(&v("a\rb\n"), &v("\r\n")));
    assert!(contains(&v("abc"), &v("")));
    assert!(contains(&v(""), &v("")));
    assert!(!contains(&v(""), &v("a")));
    assert!(matches_at(&v("abcd"), &v("cd"), 2));
    assert!(!matches_at(&v("abcd"), &v("cd"), 3));
    assert!(!matches_at(&v("abcd"), &v("cd"), 9));
}

#[test]
fn trimming() {
    assert_eq!(t(trimmed_end(&v("<a> \t\r\n\u{a0}\u{3000}"))), "<a>");
    assert_eq!(t(trimmed_end(&v("  a b"))), "  a b");
    assert_eq!(t(trimmed_end(&v(" \n "))), "");
    assert_eq!(t(trimmed_end(&v("a\u{200b}"))), "a\u{200b}");
    assert_eq!(t(trimmed_end_newlines(&v("a\n\n\n"))), "a");
    assert_eq!(t(trimmed_end_newlines(&v("a\n \n"))), "a\n ");
    assert_eq!(t(trimmed_end_newlines(&v("a\r\n"))), "a\r");
    assert_eq!(t(trimmed_end_newlines(&v("\n"))), "");
    for c in ['\t', '\n', '\u{b}', '\u{c}', '\r', ' ', '\u{85}', '\u{a0}', '\u{1680}', '\u{2000}', '\u{200a}', '\u{2028}', '\u{2029}', '\u{202f}', '\u{205f}', '\u{3000}'] {
        assert!(is_whitespace(c));
        assert!(c.is_whitespace());
    }
    for c in ['a', '\u{8}', '\u{e}', '\u{200b}', '\u{feff}', '\u{180e}'] {
        assert!(!is_whitespace(c));
        assert!(!c.is_whitespace());
    }
}

#[test]
fn line_endings() {
    assert_eq!(t(with_lf_endings(&v("a\r\nb\r\n\r\nc\rd\n"))), "a\nb\n\nc\rd\n");
    assert_eq!(t(with_lf_endings(&v("\r\r\n"))), "\r\n");
    assert_eq!(t(with_crlf_endings(&v("a\nb\n\nc\rd"))), "a\r\nb\r\n\r\nc\rd");
    assert_eq!(t(with_crlf_endings(&v("a\r\nb"))), "a\r\r\nb");
    let text = "x\r\ny\n\nz\r";
    assert_eq!(t(with_lf_endings(&with_crlf_endings(&v(text)))), text);
    assert_eq!(t(replaced_char(&v("a\"b\"\""), '"', &v("&quot;"))), "a&quot;b&quot;&quot;");
    assert_eq!(t(replaced_char(&v("abc"), '"', &v("&quot;"))), "abc");
}

#[test]
fn attribute_names_in_written_order() {
    assert!(text_less(&v("alt"), &v("class")));
    assert!(text_less(&v("a"), &v("ab")));
    assert!(!text_less(&v("ab"), &v("a")));
    assert!(!text_less(&v("a"), &v("a")));
    assert!(text_less(&v("Z"), &v("a")));
    assert!(text_less(&v("z"), &v("é")));
    assert!(text_less(&v(""), &v("a")));
    assert!(!text_less(&v(""), &v("")));
    assert!(comes_before(&v("for-slot"), &v("a")));
    assert!(!comes_before(&v("a"), &v("for-slot")));
    assert!(!comes_before(&v("for-slot"), &v("for-slot")));
    assert!(comes_before(&v("a"), &v("b")));
}

#[test]
fn attributes_keep_one_value_per_name() {
    let mut attrs = Attributes::new();
    assert_eq!(attrs.len(), 0);
    assert_eq!(attrs.get("a"), None);
    attrs.insert("a", "1");
    attrs.insert("b", "2");
    attrs.insert("a", "3");
    assert_eq!(attrs.len(), 2);
    assert_eq!(attrs.get("a"), Some("3".to_string()));
    assert_eq!(attrs.get("b"), Some("2".to_string()));
    assert_eq!(attrs.get("A"), None);
    assert_eq!(
        attrs.entries(),
        vec![("a".to_string(), "3".to_string()), ("b".to_string(), "2".to_string())]
    );
    let copy = attrs.clone();
    assert_eq!(copy, attrs);
    assert_eq!(
        attrs.sorted(),
        vec![("a".to_string(), "3".to_string()), ("b".to_string(), "2".to_string())]
    );
}

#[test]
fn void_elements() {
    for tag in [
        "area", "base", "br", "col", "embed", "hr", "img", "input", "link", "meta", "param",
        "source", "track", "wbr", "IMG", "Br",
    ] {
        assert!(is_void_element(tag));
    }
    for tag in ["div", "p", "image", "", "b", "imgs"] {
        assert!(!is_void_element(tag));
    }
}

#[test]
fn markup_built_for_each_closing_style() {
    let mut attrs = Attributes::new();
    attrs.insert("src", "a.png");
    attrs.insert("for-slot", "pic");
    attrs.insert("alt", "say \"hi\" & <go>");
    assert_eq!(
        PageSlotContent::build_markup("img", &attrs, "unused", SlotClosingStyle::SelfClosing),
        "<img for-slot=\"pic\" alt=\"say &quot;hi&quot; & <go>\" src=\"a.png\" />"
    );
    assert_eq!(
        PageSlotContent::build_markup("img", &attrs, "unused", SlotClosingStyle::Void),
        "<img for-slot=\"pic\" alt=\"say &quot;hi&quot; & <go>\" src=\"a.png\" />"
    );
    assert_eq!(
        PageSlotContent::build_markup("p", &Attributes::new(), "<b>x</b>", SlotClosingStyle::Explicit),
        "<p><b>x</b></p>"
    );
}

#[test]
fn render_prefers_markup_of_its_own() {
    let mut attrs = Attributes::new();
    attrs.insert("for-slot", "t");
    let mut content = PageSlotContent {
        tag: "span".to_string(),
        inner_html: "x".to_string(),
        attributes: attrs,
        original_html: Some("<span  for-slot='t'>x</span>".to_string()),
        closing_style: SlotClosingStyle::Explicit,
    };
    assert_eq!(content.render(), "<span  for-slot='t'>x</span>");
    content.original_html = None;
    assert_eq!(content.render(), "<span for-slot=\"t\">x</span>");
}

#[test]
fn fill_mode_and_placeholder() {
    assert_eq!(attribute_of_mode("attr:href"), Some("href".to_string()));
    assert_eq!(attribute_of_mode("attr:"), Some(String::new()));
    assert_eq!(attribute_of_mode("html"), None);
    assert_eq!(attribute_of_mode("text"), None);
    assert_eq!(attribute_of_mode("ATTR:href"), None);
    let slot = SlotSpec {
        name: "link".to_string(),
        mode: "attr:href".to_string(),
        layout_tag: "a".to_string(),
        closing_style: SlotClosingStyle::Explicit,
    };
    let placeholder = default_slot_provider(&slot);
    assert_eq!(placeholder.tag, "a");
    assert_eq!(placeholder.inner_html, "");
    assert_eq!(placeholder.original_html, None);
    assert_eq!(placeholder.closing_style, SlotClosingStyle::Explicit);
    assert_eq!(placeholder.attributes.len(), 2);
    assert_eq!(placeholder.render(), "<a for-slot=\"link\" href=\"\"></a>");
}
#[test]
fn build_markup_orders_attributes() {
    let mut attrs = Attributes::new();
    attrs.insert("id", "x");
    attrs.insert("class", "a \"b\"");
    attrs.insert("for-slot", "title");
    let out = PageSlotContent::build_markup("span", &attrs, "Home", SlotClosingStyle::Explicit);
    assert_eq!(
        out,
        "<span for-slot=\"title\" class=\"a &quot;b&quot;\" id=\"x\">Home</span>"
    );
}

#[test]
fn element_without_closing_tag_is_written_with_a_slash() {
    let mut attrs = Attributes::new();
    attrs.insert("for-slot", "hero");
    for style in [SlotClosingStyle::SelfClosing, SlotClosingStyle::Void] {
        let out = PageSlotContent::build_markup("img", &attrs, "<b>x</b>", style);
        assert_eq!(out, "<img for-slot=\"hero\" />");
        assert!(out.starts_with("<img for-slot=\"hero\""));
        assert!(out.ends_with("/>"));
        assert!(!out.contains("<b>x</b>"));
        assert!(!out.contains("</img>"));
    }
}

#[test]
fn markup_does_not_depend_on_the_order_of_insertion() {
    let mut one = Attributes::new();
    one.insert("src", "a.png");
    one.insert("for-slot", "pic");
    one.insert("alt", "x");
    let mut other = Attributes::new();
    other.insert("alt", "x");
    other.insert("src", "a.png");
    other.insert("for-slot", "pic");
    for style in [SlotClosingStyle::Explicit, SlotClosingStyle::SelfClosing, SlotClosingStyle::Void] {
        assert_eq!(
            PageSlotContent::build_markup("img", &one, "in", style),
            PageSlotContent::build_markup("img", &other, "in", style)
        );
    }
}
