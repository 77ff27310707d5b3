use slotmerge::outputs::{
    directories_deepest_first, expected_output_set, is_asset_file, output_missing,
    remove_output_for_path, stale_outputs, Directory, SourceEntry, SourceFile,
};
use slotmerge::paths::{
    build_layout_aliases, file_extension, is_html_file, is_layout_file, is_transient_file,
    normalize_watch_path, path_matches_layout, path_names_file, paths_equivalent, PathFacts,
    SourceRoot, WatchedPath,
};
use slotmerge::text::holds;

fn facts(path: &str, canonical: Option<&str>) -> PathFacts {
    PathFacts { path: path.to_string(), canonical: canonical.map(|c| c.to_string()) }
}

fn root() -> SourceRoot {
    SourceRoot {
        directory: facts("site", Some("/work/site")),
        layout: facts("site/_layout.html", Some("/work/site/_layout.html")),
    }
}

fn watched(path: &str, canonical: Option<&str>, name: &str, parent: &str, exists: bool) -> WatchedPath {
    WatchedPath {
        location: facts(path, canonical),
        file_name: Some(name.to_string()),
        parent: Some(facts(parent, Some(parent))),
        exists,
        under_source_root: true,
    }
}

fn source(rel: &str, name: &str) -> SourceFile {
    SourceFile { relative_path: rel.to_string(), file_name: Some(name.to_string()) }
}

#[test]
fn extension_follows_the_last_dot() {
    assert_eq!(file_extension("index.html"), Some("html".to_string()));
    assert_eq!(file_extension("archive.tar.gz"), Some("gz".to_string()));
    assert_eq!(file_extension("README"), None);
    assert_eq!(file_extension(".gitignore"), None);
    assert_eq!(file_extension(".config.tmp"), Some("tmp".to_string()));
    assert_eq!(file_extension("name."), Some(String::new()));
    assert_eq!(file_extension(".."), None);
    assert_eq!(file_extension(""), None);
}

#[test]
fn page_layout_and_transient_names() {
    assert!(is_html_file(Some("index.html")));
    assert!(is_html_file(Some("INDEX.HTML")));
    assert!(!is_html_file(Some("style.css")));
    assert!(!is_html_file(Some(".html")));
    assert!(!is_html_file(None));
    assert!(is_layout_file(Some("_layout.html")));
    assert!(is_layout_file(Some("_Layout.HTML")));
    assert!(!is_layout_file(Some("layout.html")));
    assert!(is_transient_file(Some("index.html.tmp")));
    assert!(is_transient_file(Some("x.TMP")));
    assert!(!is_transient_file(Some("tmp")));
}

#[test]
fn equivalence_by_text_or_by_canonical_form() {
    assert!(paths_equivalent(&facts("a", None), &facts("a", None)));
    assert!(paths_equivalent(&facts("a", Some("/x/a")), &facts("./a", Some("/x/a"))));
    assert!(!paths_equivalent(&facts("a", Some("/x/a")), &facts("b", Some("/x/b"))));
    assert!(!paths_equivalent(&facts("a", None), &facts("./a", Some("/x/a"))));
}

#[test]
fn layout_aliases_hold_the_canonical_form_once() {
    assert_eq!(
        build_layout_aliases(&facts("site/_layout.html", Some("/work/site/_layout.html"))),
        vec!["site/_layout.html".to_string(), "/work/site/_layout.html".to_string()]
    );
    assert_eq!(
        build_layout_aliases(&facts("/work/site/_layout.html", Some("/work/site/_layout.html"))),
        vec!["/work/site/_layout.html".to_string()]
    );
    assert_eq!(build_layout_aliases(&facts("l.html", None)), vec!["l.html".to_string()]);
}

#[test]
fn layout_is_known_by_path_or_by_name_in_the_root() {
    let r = root();
    let by_canonical = watched(
        "/work/site/_layout.html",
        Some("/work/site/_layout.html"),
        "_layout.html",
        "/work/site",
        true,
    );
    assert!(path_matches_layout(&by_canonical, &r));
    let gone = watched("/work/site/_LAYOUT.html", None, "_LAYOUT.html", "/work/site", false);
    assert!(path_matches_layout(&gone, &r));
    let nested = watched(
        "/work/site/sub/_layout.html",
        Some("/work/site/sub/_layout.html"),
        "_layout.html",
        "/work/site/sub",
        true,
    );
    assert!(!path_matches_layout(&nested, &r));
    let page = watched("/work/site/a.html", Some("/work/site/a.html"), "a.html", "/work/site", true);
    assert!(!path_matches_layout(&page, &r));
}

#[test]
fn watched_path_stands_for_a_page_or_for_nothing() {
    let r = root();
    let page = watched("site/a.html", Some("/work/site/a.html"), "a.html", "/work/site", true);
    assert_eq!(normalize_watch_path(&page, &r), Some("/work/site/a.html".to_string()));
    let no_canonical = watched("/work/site/b.HTML", None, "b.HTML", "/work/site", true);
    assert_eq!(normalize_watch_path(&no_canonical, &r), Some("/work/site/b.HTML".to_string()));
    let gone = watched("/work/site/a.html", None, "a.html", "/work/site", false);
    assert_eq!(normalize_watch_path(&gone, &r), None);
    let asset = watched("/work/site/a.css", Some("/work/site/a.css"), "a.css", "/work/site", true);
    assert_eq!(normalize_watch_path(&asset, &r), None);
    let layout = watched(
        "/work/site/_layout.html",
        Some("/work/site/_layout.html"),
        "_layout.html",
        "/work/site",
        true,
    );
    assert_eq!(normalize_watch_path(&layout, &r), None);
    let mut outside = watched("/else/a.html", Some("/else/a.html"), "a.html", "/else", true);
    outside.under_source_root = false;
    assert_eq!(normalize_watch_path(&outside, &r), None);
}

#[test]
fn expected_outputs_are_pages_by_name_and_assets_by_path() {
    let files = vec![
        source("_layout.html", "_layout.html"),
        source("index.html", "index.html"),
        source("css/site.css", "site.css"),
        source("img/logo.png", "logo.png"),
        source("index.html", "index.html"),
        source("notes/About.HTML", "About.HTML"),
    ];
    assert_eq!(
        expected_output_set(&files),
        vec![
            "index.html".to_string(),
            "css/site.css".to_string(),
            "img/logo.png".to_string(),
            "About.HTML".to_string(),
        ]
    );
    assert!(is_asset_file(&files[2]));
    assert!(!is_asset_file(&files[1]));
    assert!(!is_asset_file(&files[0]));
    assert!(expected_output_set(&vec![]).is_empty());
}

#[test]
fn stale_outputs_are_those_not_expected() {
    let expected = vec!["index.html".to_string(), "css/site.css".to_string()];
    let present = vec![
        "old.html".to_string(),
        "index.html".to_string(),
        "css/old.css".to_string(),
        "css/site.css".to_string(),
    ];
    assert_eq!(
        stale_outputs(&expected, &present),
        vec!["old.html".to_string(), "css/old.css".to_string()]
    );
    assert!(stale_outputs(&expected, &vec![]).is_empty());
}

#[test]
fn output_of_a_path_that_is_gone() {
    assert_eq!(remove_output_for_path(Some("_layout.html"), Some("_layout.html")), None);
    assert_eq!(
        remove_output_for_path(Some("a.css"), Some("css/a.css")),
        Some("css/a.css".to_string())
    );
    assert_eq!(remove_output_for_path(Some("a.html"), None), Some("a.html".to_string()));
    assert_eq!(remove_output_for_path(None, None), None);
}

#[test]
fn directories_come_deepest_first_and_keep_their_order() {
    let dirs = vec![
        Directory { path: "a".to_string(), depth: 1 },
        Directory { path: "a/b/c".to_string(), depth: 3 },
        Directory { path: "d".to_string(), depth: 1 },
        Directory { path: "a/b".to_string(), depth: 2 },
        Directory { path: "d/e/f".to_string(), depth: 3 },
    ];
    let order: Vec<String> = directories_deepest_first(&dirs).into_iter().map(|d| d.path).collect();
    assert_eq!(order, vec!["a/b/c", "d/e/f", "a/b", "a", "d"]);
}

#[test]
fn a_path_names_a_file_under_any_of_its_spellings() {
    let layout = facts("site/_layout.html", Some("/work/site/_layout.html"));
    assert!(path_names_file(&facts("site/_layout.html", None), &layout));
    assert!(path_names_file(&facts("/work/site/_layout.html", None), &layout));
    assert!(path_names_file(&facts("./site/_layout.html", Some("/work/site/_layout.html")), &layout));
    assert!(!path_names_file(&facts("./site/_layout.html", None), &layout));
    assert!(!path_names_file(&facts("site/a.html", Some("/work/site/a.html")), &layout));
}

#[test]
fn a_layout_that_is_gone_is_still_known_by_its_canonical_spelling() {
    let r = root();
    let mut gone = watched("/work/site/_layout.html", None, "x", "/nowhere", false);
    gone.file_name = None;
    gone.parent = None;
    assert!(path_matches_layout(&gone, &r));
}

#[test]
fn holds_finds_equal_texts_only() {
    let items = vec!["a".to_string(), "b".to_string()];
    assert!(holds(&items, "a"));
    assert!(holds(&items, "b"));
    assert!(!holds(&items, "A"));
    assert!(!holds(&vec![], "a"));
}

fn entry(name: Option<&str>, output_exists: bool) -> SourceEntry {
    SourceEntry { file_name: name.map(|n| n.to_string()), output_exists }
}

#[test]
fn a_page_without_output_is_missed() {
    assert!(!output_missing(&vec![]));
    assert!(!output_missing(&vec![
        entry(Some("index.html"), true),
        entry(Some("_layout.html"), false),
        entry(Some("site.css"), false),
        entry(Some("img"), false),
        entry(None, false),
    ]));
    assert!(output_missing(&vec![
        entry(Some("index.html"), true),
        entry(Some("About.HTML"), false),
    ]));
    assert!(!output_missing(&vec![entry(Some("_Layout.HTML"), false)]));
}
