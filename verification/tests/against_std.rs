use std::path::Path;

use slotmerge::attributes::text_less;
use slotmerge::paths::file_extension;
use slotmerge::report::format_with_commas;
use slotmerge::text::{
    chars_of, contains, ends_with, equals_ignore_case, is_whitespace, replaced_char, starts_with,
    string_of, to_ascii_lower, to_lowercase, trimmed_end, trimmed_end_newlines,
    with_crlf_endings, with_lf_endings,
};

const SAMPLES: [&str; 24] = [
    "",
    "a",
    "\n",
    "\r\n",
    "\r",
    "a\r\nb\nc\r",
    "\r\r\n\n\r\n",
    "line \t \n",
    "tail\u{a0}\u{2003}\u{3000}",
    "MiXeD Case ÀÉ",
    "<br />",
    "<p for-slot=\"a\">x</p>\n\n",
    "say \"hi\"",
    "\"\"\"",
    "attr:src",
    "attr:",
    "index.html",
    ".hidden",
    "archive.tar.gz",
    "a.b.",
    "..",
    "日本語.HTML",
    "z",
    "é",
];

#[test]
fn every_character_is_classed_as_std_classes_it() {
    for code in 0u32..=0x10FFFF {
        if let Some(c) = char::from_u32(code) {
            assert_eq!(is_whitespace(c), c.is_whitespace(), "U+{:04X}", code);
            assert_eq!(to_ascii_lower(c), c.to_ascii_lowercase(), "U+{:04X}", code);
        }
    }
}

#[test]
fn text_functions_agree_with_std() {
    for s in SAMPLES {
        let chars = chars_of(s);
        assert_eq!(chars, s.chars().collect::<Vec<char>>());
        assert_eq!(string_of(&chars), s);
        assert_eq!(string_of(&to_lowercase(&chars)), s.to_ascii_lowercase());
        assert_eq!(string_of(&trimmed_end(&chars)), s.trim_end());
        assert_eq!(string_of(&trimmed_end_newlines(&chars)), s.trim_end_matches('\n'));
        assert_eq!(string_of(&with_lf_endings(&chars)), s.replace("\r\n", "\n"));
        assert_eq!(string_of(&with_crlf_endings(&chars)), s.replace("\n", "\r\n"));
        assert_eq!(
            string_of(&replaced_char(&chars, '"', &chars_of("&quot;"))),
            s.replace('"', "&quot;")
        );
        for p in SAMPLES {
            let other = chars_of(p);
            assert_eq!(starts_with(&chars, &other), s.starts_with(p), "{:?} {:?}", s, p);
            assert_eq!(ends_with(&chars, &other), s.ends_with(p), "{:?} {:?}", s, p);
            assert_eq!(contains(&chars, &other), s.contains(p), "{:?} {:?}", s, p);
            assert_eq!(equals_ignore_case(&chars, &other), s.eq_ignore_ascii_case(p));
            assert_eq!(text_less(&chars, &other), s < p, "{:?} {:?}", s, p);
        }
    }
}

#[test]
fn extension_agrees_with_std_paths() {
    for s in SAMPLES {
        if s.contains('/') || s.contains('\n') || s.is_empty() {
            continue;
        }
        let expected = Path::new(s).extension().map(|e| e.to_str().unwrap().to_string());
        assert_eq!(file_extension(s), expected, "{:?}", s);
    }
}

#[test]
fn commas_agree_with_digit_grouping() {
    for value in [0u128, 1, 9, 10, 99, 100, 999, 1000, 9999, 10000, 123456, 999999, 1000000, 987654321012] {
        let digits = value.to_string();
        let mut expected = String::new();
        for (i, c) in digits.chars().enumerate() {
            if i > 0 && (digits.len() - i) % 3 == 0 {
                expected.push(',');
            }
            expected.push(c);
        }
        assert_eq!(format_with_commas(value), expected);
    }
}
