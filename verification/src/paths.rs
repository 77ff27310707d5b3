//! What the compiler reads off a path: the extension of a file name, whether
//! a file is a page, the layout or a transient file, and whether a path is
//! the layout under another spelling. Paths are plain texts here; the caller
//! asks the file system and hands the answers in.

use vstd::prelude::*;
use crate::text::{
    chars_of, eq_ignore_case, equals_ignore_case, holds, opt_str, opt_text, same_text, slice_of,
    string_of, texts_view,
};

verus! {

// ---------------------------------------------------------------------------
// File names
// ---------------------------------------------------------------------------

/// The index of the last dot in `name`, or -1 where it has none.
pub open spec fn last_dot(name: Seq<char>) -> int
    decreases name.len(),
{
    if name.len() == 0 {
        -1
    } else if name.last() == '.' {
        name.len() - 1
    } else {
        last_dot(name.drop_last())
    }
}

/// The extension of a file name: what follows its last dot. A name without a
/// dot has none, nor has a name whose only dot is its first character, nor
/// the name `..`.
pub open spec fn extension_of(name: Seq<char>) -> Option<Seq<char>> {
    let dot = last_dot(name);
    if dot <= 0 || name == seq!['.', '.'] {
        None
    } else {
        Some(name.skip(dot + 1))
    }
}

/// Whether a file of this name is a page document: its extension is `html`
/// in any case.
pub open spec fn page_name(name: Option<Seq<char>>) -> bool {
    name is Some && extension_of(name->0) is Some && eq_ignore_case(
        extension_of(name->0)->0,
        "html"@,
    )
}

/// Whether a file of this name is the layout: `_layout.html` in any case.
pub open spec fn layout_name(name: Option<Seq<char>>) -> bool {
    name is Some && eq_ignore_case(name->0, "_layout.html"@)
}

/// Whether a file of this name is a transient one that editors write and
/// replace: its extension is `tmp` in any case.
pub open spec fn transient_name(name: Option<Seq<char>>) -> bool {
    name is Some && extension_of(name->0) is Some && eq_ignore_case(
        extension_of(name->0)->0,
        "tmp"@,
    )
}

/// The extension of a file name.
pub fn file_extension(name: &str) -> (r: Option<String>)
    ensures
        opt_text(r) == extension_of(name@),
{
    let chars = chars_of(name);
    let mut n: usize = chars.len();
    assert(chars@.take(n as int) == chars@);
    while n > 0 && chars[n - 1] != '.'
        invariant
            n <= chars.len(),
            last_dot(chars@) == last_dot(chars@.take(n as int)),
        decreases n,
    {
        assert(chars@.take(n as int).drop_last() == chars@.take(n - 1));
        n -= 1;
    }
    // Here n - 1 is the index of the last dot, or n is 0.
    if n <= 1 {
        return None;
    }
    if chars.len() == 2 && chars[0] == '.' && chars[1] == '.' {
        assert(chars@ =~= seq!['.', '.']);
        return None;
    }
    assert(chars@ != seq!['.', '.']) by {
        if chars@ == seq!['.', '.'] {
            assert(chars@.len() == 2 && chars@[0] == '.' && chars@[1] == '.');
        }
    }
    let ext = slice_of(&chars, n, chars.len());
    assert(ext@ == chars@.skip(n as int));
    Some(string_of(&ext))
}

/// Whether the file name has the extension `wanted`, in any case.
fn extension_is(file_name: Option<&str>, wanted: &str) -> (r: bool)
    ensures
        r == (file_name is Some && extension_of(file_name->0@) is Some && eq_ignore_case(
            extension_of(file_name->0@)->0,
            wanted@,
        )),
{
    match file_name {
        Some(name) => match file_extension(name) {
            Some(ext) => equals_ignore_case(&chars_of(ext.as_str()), &chars_of(wanted)),
            None => false,
        },
        None => false,
    }
}

/// Whether a file of this name is a page document.
pub fn is_html_file(file_name: Option<&str>) -> (r: bool)
    ensures
        r == page_name(opt_str(file_name)),
{
    extension_is(file_name, "html")
}

/// Whether a file of this name is a transient one.
pub fn is_transient_file(file_name: Option<&str>) -> (r: bool)
    ensures
        r == transient_name(opt_str(file_name)),
{
    extension_is(file_name, "tmp")
}

/// Whether a file of this name is the layout.
pub fn is_layout_file(file_name: Option<&str>) -> (r: bool)
    ensures
        r == layout_name(opt_str(file_name)),
{
    match file_name {
        Some(name) => equals_ignore_case(&chars_of(name), &chars_of("_layout.html")),
        None => false,
    }
}

// ---------------------------------------------------------------------------
// One file under two spellings
// ---------------------------------------------------------------------------

/// A path as it was given, with the canonical form that the file system gave
/// for it (`None` where it could give none, as for a file that is gone).
#[derive(Debug, Clone, PartialEq, Eq)]
pub struct PathFacts {
    pub path: String,
    pub canonical: Option<String>,
}

/// A path with its canonical form, as texts.
pub struct PathModel {
    pub path: Seq<char>,
    pub canonical: Option<Seq<char>>,
}

impl View for PathFacts {
    type V = PathModel;

    open spec fn view(&self) -> PathModel {
        PathModel { path: self.path@, canonical: opt_text(self.canonical) }
    }
}

/// Two paths name the same file: they are equal as given, or both have a
/// canonical form and these are equal.
pub open spec fn same_file(a: PathModel, b: PathModel) -> bool {
    a.path == b.path || (a.canonical is Some && b.canonical is Some && a.canonical->0
        == b.canonical->0)
}

/// Whether two paths name the same file.
pub fn paths_equivalent(a: &PathFacts, b: &PathFacts) -> (r: bool)
    ensures
        r == same_file(a@, b@),
{
    if same_text(a.path.as_str(), b.path.as_str()) {
        return true;
    }
    match (&a.canonical, &b.canonical) {
        (Some(x), Some(y)) => same_text(x.as_str(), y.as_str()),
        _ => false,
    }
}

/// The spellings under which a file is known: its path, and its canonical
/// form where that is another text.
pub open spec fn layout_aliases(layout: PathModel) -> Seq<Seq<char>> {
    if layout.canonical is Some && layout.canonical->0 != layout.path {
        seq![layout.path, layout.canonical->0]
    } else {
        seq![layout.path]
    }
}

/// The spellings under which a file, such as the layout, is known.
pub fn build_layout_aliases(layout: &PathFacts) -> (r: Vec<String>)
    ensures
        texts_view(r@) == layout_aliases(layout@),
{
    let mut aliases: Vec<String> = Vec::new();
    aliases.push(layout.path.clone());
    match &layout.canonical {
        Some(canonical) => {
            if !same_text(canonical.as_str(), layout.path.as_str()) {
                aliases.push(canonical.clone());
            }
        },
        None => {},
    }
    assert(texts_view(aliases@) =~= layout_aliases(layout@));
    aliases
}

/// What is known of a path that changed.
#[derive(Debug, Clone, PartialEq, Eq)]
pub struct WatchedPath {
    /// The path with its canonical form.
    pub location: PathFacts,
    /// Its last component, where it has one that is text.
    pub file_name: Option<String>,
    /// The directory that holds it, where it has one.
    pub parent: Option<PathFacts>,
    /// Whether a file stands there.
    pub exists: bool,
    /// Whether it lies under the source root.
    pub under_source_root: bool,
}

/// A changed path, as texts.
pub struct WatchedModel {
    pub location: PathModel,
    pub file_name: Option<Seq<char>>,
    pub parent: Option<PathModel>,
    pub exists: bool,
    pub under_source_root: bool,
}

/// The model of an optional path.
pub open spec fn opt_path(p: Option<PathFacts>) -> Option<PathModel> {
    match p {
        Some(facts) => Some(facts@),
        None => None,
    }
}

impl View for WatchedPath {
    type V = WatchedModel;

    open spec fn view(&self) -> WatchedModel {
        WatchedModel {
            location: self.location@,
            file_name: opt_text(self.file_name),
            parent: opt_path(self.parent),
            exists: self.exists,
            under_source_root: self.under_source_root,
        }
    }
}

/// The source root and the layout in it.
#[derive(Debug, Clone, PartialEq, Eq)]
pub struct SourceRoot {
    /// The source directory with its canonical form.
    pub directory: PathFacts,
    /// The layout file with its canonical form.
    pub layout: PathFacts,
}

/// The source root, as texts.
pub struct RootModel {
    pub directory: PathModel,
    pub layout: PathModel,
}

impl View for SourceRoot {
    type V = RootModel;

    open spec fn view(&self) -> RootModel {
        RootModel { directory: self.directory@, layout: self.layout@ }
    }
}

/// Whether `path` names the file `file`: it is one of the spellings under
/// which the file is known, or the two name the same file.
pub open spec fn names_file(path: PathModel, file: PathModel) -> bool {
    layout_aliases(file).contains(path.path) || same_file(file, path)
}

/// Whether a changed path is the layout: it names the layout file, or it is
/// called `_layout.html` and lies directly in the source root.
pub open spec fn is_layout(path: WatchedModel, root: RootModel) -> bool {
    names_file(path.location, root.layout) || (layout_name(path.file_name) && path.parent is Some
        && names_file(path.parent->0, root.directory))
}

/// Whether `path` names the file `file`.
pub fn path_names_file(path: &PathFacts, file: &PathFacts) -> (r: bool)
    ensures
        r == names_file(path@, file@),
{
    holds(&build_layout_aliases(file), path.path.as_str()) || paths_equivalent(file, path)
}

/// Whether a changed path is the layout.
pub fn path_matches_layout(path: &WatchedPath, root: &SourceRoot) -> (r: bool)
    ensures
        r == is_layout(path@, root@),
{
    if path_names_file(&path.location, &root.layout) {
        return true;
    }
    let named_layout = match &path.file_name {
        Some(name) => is_layout_file(Some(name.as_str())),
        None => false,
    };
    if named_layout {
        match &path.parent {
            Some(parent) => path_names_file(parent, &root.directory),
            None => false,
        }
    } else {
        false
    }
}

/// The page that a changed path stands for, where it stands for one: the
/// path in its canonical form, or as given where it has none. A path stands
/// for a page when a file is there, under the source root, that is not the
/// layout and has a page's extension.
pub open spec fn watched_page(path: WatchedModel, root: RootModel) -> Option<Seq<char>> {
    if path.exists && path.under_source_root && !is_layout(path, root) && page_name(
        path.file_name,
    ) {
        Some(
            match path.location.canonical {
                Some(canonical) => canonical,
                None => path.location.path,
            },
        )
    } else {
        None
    }
}

/// The page that a changed path stands for, where it stands for one.
pub fn normalize_watch_path(path: &WatchedPath, root: &SourceRoot) -> (r: Option<String>)
    ensures
        opt_text(r) == watched_page(path@, root@),
{
    if !path.exists {
        return None;
    }
    if !path.under_source_root {
        return None;
    }
    if path_matches_layout(path, root) {
        return None;
    }
    let page = match &path.file_name {
        Some(name) => is_html_file(Some(name.as_str())),
        None => false,
    };
    if !page {
        return None;
    }
    match &path.location.canonical {
        Some(canonical) => Some(canonical.clone()),
        None => Some(path.location.path.clone()),
    }
}

} // verus!
