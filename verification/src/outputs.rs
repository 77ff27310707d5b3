//! The output directory: which files a build is expected to leave there,
//! which of the files found there are stale, and in which order emptied
//! directories are taken away.

use vstd::prelude::*;
use crate::paths::{is_html_file, is_layout_file, layout_name, page_name};
use crate::text::{
    each_once, holds, lemma_with_item_each_once, opt_str, opt_text, texts_view, with_item,
};

verus! {

/// A file of the source tree.
#[derive(Debug, Clone, PartialEq, Eq)]
pub struct SourceFile {
    /// Its path relative to the source root.
    pub relative_path: String,
    /// Its last component, where that is text.
    pub file_name: Option<String>,
}

/// A source file, as texts.
pub struct SourceFileModel {
    pub relative_path: Seq<char>,
    pub file_name: Option<Seq<char>>,
}

impl View for SourceFile {
    type V = SourceFileModel;

    open spec fn view(&self) -> SourceFileModel {
        SourceFileModel {
            relative_path: self.relative_path@,
            file_name: opt_text(self.file_name),
        }
    }
}

/// The models of a vector of source files.
pub open spec fn files_view(files: Seq<SourceFile>) -> Seq<SourceFileModel> {
    Seq::new(files.len(), |i: int| files[i]@)
}

/// Whether a source file is an asset: any file that is no page document.
pub open spec fn is_asset(file: SourceFileModel) -> bool {
    !page_name(file.file_name)
}

/// The output that a source file stands for, relative to the output root: a
/// page gives a file of its own name, an asset a file at its own relative
/// path, the layout nothing.
pub open spec fn output_of(file: SourceFileModel) -> Option<Seq<char>> {
    if is_asset(file) {
        Some(file.relative_path)
    } else if layout_name(file.file_name) {
        None
    } else {
        file.file_name
    }
}

/// The outputs that the source files stand for, each once, in the order in
/// which they first come up.
pub open spec fn expected_outputs(files: Seq<SourceFileModel>) -> Seq<Seq<char>>
    decreases files.len(),
{
    if files.len() == 0 {
        Seq::empty()
    } else {
        let earlier = expected_outputs(files.drop_last());
        match output_of(files.last()) {
            Some(path) => with_item(earlier, path),
            None => earlier,
        }
    }
}

/// Whether a source file is an asset.
pub fn is_asset_file(file: &SourceFile) -> (r: bool)
    ensures
        r == is_asset(file@),
{
    match &file.file_name {
        Some(name) => !is_html_file(Some(name.as_str())),
        None => true,
    }
}

/// The output that a source file stands for.
pub fn output_for(file: &SourceFile) -> (r: Option<String>)
    ensures
        opt_text(r) == output_of(file@),
{
    if is_asset_file(file) {
        return Some(file.relative_path.clone());
    }
    match &file.file_name {
        Some(name) => {
            if is_layout_file(Some(name.as_str())) {
                None
            } else {
                Some(name.clone())
            }
        },
        None => None,
    }
}

/// The outputs that a build is expected to leave under the output root.
pub fn expected_output_set(files: &Vec<SourceFile>) -> (r: Vec<String>)
    ensures
        texts_view(r@) == expected_outputs(files_view(files@)),
{
    let mut out: Vec<String> = Vec::new();
    let mut i: usize = 0;
    let ghost models = files_view(files@);
    assert(models.take(0) =~= Seq::<SourceFileModel>::empty());
    assert(texts_view(out@) =~= Seq::<Seq<char>>::empty());
    while i < files.len()
        invariant
            i <= files.len(),
            models == files_view(files@),
            texts_view(out@) == expected_outputs(models.take(i as int)),
        decreases files.len() - i,
    {
        assert(models.take(i + 1).drop_last() == models.take(i as int));
        assert(models.take(i + 1).last() == files@[i as int]@);
        match output_for(&files[i]) {
            Some(path) => {
                if !holds(&out, path.as_str()) {
                    let ghost before = texts_view(out@);
                    out.push(path);
                    assert(texts_view(out@) =~= before.push(path@));
                }
            },
            None => {},
        }
        i += 1;
    }
    assert(models.take(files.len() as int) == models);
    out
}

/// Every output that a source file stands for is expected.
pub proof fn lemma_expected_holds_every_output(files: Seq<SourceFileModel>, i: int)
    requires
        0 <= i < files.len(),
        output_of(files[i]) is Some,
    ensures
        expected_outputs(files).contains(output_of(files[i])->0),
    decreases files.len(),
{
    let earlier = expected_outputs(files.drop_last());
    let all = expected_outputs(files);
    if i < files.len() - 1 {
        assert(files.drop_last()[i] == files[i]);
        lemma_expected_holds_every_output(files.drop_last(), i);
        let path = output_of(files[i])->0;
        let k = choose|k: int| 0 <= k < earlier.len() && earlier[k] == path;
        if all != earlier {
            assert(all[k] == earlier[k]);
        }
    } else {
        let path = output_of(files.last())->0;
        if !earlier.contains(path) {
            assert(all[earlier.len() as int] == path);
        }
    }
}

/// No output is expected twice.
pub proof fn lemma_expected_each_once(files: Seq<SourceFileModel>)
    ensures
        each_once(expected_outputs(files)),
    decreases files.len(),
{
    if files.len() > 0 {
        lemma_expected_each_once(files.drop_last());
        match output_of(files.last()) {
            Some(path) => lemma_with_item_each_once(expected_outputs(files.drop_last()), path),
            None => {},
        }
    }
}

/// The files of `present` that are not expected, in order.
pub open spec fn stale(expected: Seq<Seq<char>>, present: Seq<Seq<char>>) -> Seq<Seq<char>>
    decreases present.len(),
{
    if present.len() == 0 {
        Seq::empty()
    } else {
        let earlier = stale(expected, present.drop_last());
        if expected.contains(present.last()) {
            earlier
        } else {
            earlier.push(present.last())
        }
    }
}

/// A file is stale exactly when it is present and not expected.
pub proof fn lemma_stale_is_present_and_unexpected(
    expected: Seq<Seq<char>>,
    present: Seq<Seq<char>>,
    file: Seq<char>,
)
    ensures
        stale(expected, present).contains(file) <==> present.contains(file) && !expected.contains(
            file,
        ),
    decreases present.len(),
{
    if present.len() > 0 {
        let init = present.drop_last();
        let last = present.last();
        let earlier = stale(expected, init);
        let all = stale(expected, present);
        lemma_stale_is_present_and_unexpected(expected, init, file);
        if present.contains(file) {
            let k = choose|k: int| 0 <= k < present.len() && present[k] == file;
            if k < init.len() {
                assert(init[k] == file);
            }
        }
        if init.contains(file) {
            let k = choose|k: int| 0 <= k < init.len() && init[k] == file;
            assert(present[k] == file);
        }
        if earlier.contains(file) && all != earlier {
            let k = choose|k: int| 0 <= k < earlier.len() && earlier[k] == file;
            assert(all[k] == file);
        }
        if all.contains(file) && !earlier.contains(file) {
            let k = choose|k: int| 0 <= k < all.len() && all[k] == file;
            if k < earlier.len() {
                assert(earlier[k] == file);
            }
            assert(file == last);
        }
        if file == last {
            assert(present[present.len() - 1] == file);
            if !expected.contains(last) {
                assert(all[earlier.len() as int] == file);
            }
        }
    }
}

/// The files found under the output root that no source file stands for.
pub fn stale_outputs(expected: &Vec<String>, present: &Vec<String>) -> (r: Vec<String>)
    ensures
        texts_view(r@) == stale(texts_view(expected@), texts_view(present@)),
{
    let mut out: Vec<String> = Vec::new();
    let mut i: usize = 0;
    let ghost found = texts_view(present@);
    assert(found.take(0) =~= Seq::<Seq<char>>::empty());
    assert(texts_view(out@) =~= Seq::<Seq<char>>::empty());
    while i < present.len()
        invariant
            i <= present.len(),
            found == texts_view(present@),
            texts_view(out@) == stale(texts_view(expected@), found.take(i as int)),
        decreases present.len() - i,
    {
        assert(found.take(i + 1).drop_last() == found.take(i as int));
        assert(found.take(i + 1).last() == present@[i as int]@);
        if !holds(expected, present[i].as_str()) {
            let ghost before = texts_view(out@);
            out.push(present[i].clone());
            assert(texts_view(out@) =~= before.push(present@[i as int]@));
        }
        i += 1;
    }
    assert(found.take(present.len() as int) == found);
    out
}

/// The output to take away for a source path that is gone: nothing for the
/// layout; else the path relative to the source root, or, for a path outside
/// it, the bare file name.
pub open spec fn output_to_remove(
    file_name: Option<Seq<char>>,
    relative: Option<Seq<char>>,
) -> Option<Seq<char>> {
    if layout_name(file_name) {
        None
    } else if relative is Some {
        relative
    } else {
        file_name
    }
}

/// The output to take away for a source path that is gone. `relative` is the
/// path relative to the source root, `None` for a path outside it.
pub fn remove_output_for_path(file_name: Option<&str>, relative: Option<&str>) -> (r: Option<
    String,
>)
    ensures
        opt_text(r) == output_to_remove(opt_str(file_name), opt_str(relative)),
{
    if is_layout_file(file_name) {
        return None;
    }
    match relative {
        Some(path) => Some(path.to_owned()),
        None => match file_name {
            Some(name) => Some(name.to_owned()),
            None => None,
        },
    }
}

// ---------------------------------------------------------------------------
// Pages without an output
// ---------------------------------------------------------------------------

/// An entry of the source directory, with whether the output root holds a
/// file of its name.
#[derive(Debug, Clone, PartialEq, Eq)]
pub struct SourceEntry {
    /// Its last component, where that is text.
    pub file_name: Option<String>,
    /// Whether a file of that name stands under the output root.
    pub output_exists: bool,
}

/// An entry of the source directory, as plain values.
pub struct SourceEntryModel {
    pub file_name: Option<Seq<char>>,
    pub output_exists: bool,
}

impl View for SourceEntry {
    type V = SourceEntryModel;

    open spec fn view(&self) -> SourceEntryModel {
        SourceEntryModel {
            file_name: opt_text(self.file_name),
            output_exists: self.output_exists,
        }
    }
}

/// The models of a vector of entries.
pub open spec fn entries_view(entries: Seq<SourceEntry>) -> Seq<SourceEntryModel> {
    Seq::new(entries.len(), |i: int| entries[i]@)
}

/// Whether an entry is a page that was never built: a page document, not the
/// layout, with no file of its name under the output root.
pub open spec fn lacks_output(entry: SourceEntryModel) -> bool {
    page_name(entry.file_name) && !layout_name(entry.file_name) && !entry.output_exists
}

/// Whether some page of the source directory was never built.
pub open spec fn some_output_missing(entries: Seq<SourceEntryModel>) -> bool {
    exists|i: int| 0 <= i < entries.len() && lacks_output(#[trigger] entries[i])
}

/// Whether some page of the source directory was never built.
pub fn output_missing(entries: &Vec<SourceEntry>) -> (r: bool)
    ensures
        r == some_output_missing(entries_view(entries@)),
{
    let ghost models = entries_view(entries@);
    let mut i: usize = 0;
    while i < entries.len()
        invariant
            i <= entries.len(),
            models == entries_view(entries@),
            forall|k: int| 0 <= k < i ==> !lacks_output(#[trigger] models[k]),
        decreases entries.len() - i,
    {
        let page = match &entries[i].file_name {
            Some(name) => is_html_file(Some(name.as_str())) && !is_layout_file(
                Some(name.as_str()),
            ),
            None => false,
        };
        if page && !entries[i].output_exists {
            assert(lacks_output(models[i as int]));
            return true;
        }
        i += 1;
    }
    false
}

// ---------------------------------------------------------------------------
// Directories, deepest first
// ---------------------------------------------------------------------------

/// A directory under the output root with the number of its path's
/// components.
#[derive(Debug, Clone, PartialEq, Eq)]
pub struct Directory {
    pub path: String,
    pub depth: usize,
}

/// A directory as a text and a depth.
pub type DirectoryModel = (Seq<char>, int);

/// The models of a vector of directories.
pub open spec fn directories_view(dirs: Seq<Directory>) -> Seq<DirectoryModel> {
    Seq::new(dirs.len(), |i: int| (dirs[i].path@, dirs[i].depth as int))
}

/// `dir` put into a list that is ordered deepest first, behind every entry
/// that is at least as deep.
pub open spec fn insert_by_depth(sorted: Seq<DirectoryModel>, dir: DirectoryModel) -> Seq<
    DirectoryModel,
>
    decreases sorted.len(),
{
    if sorted.len() == 0 {
        seq![dir]
    } else if sorted[0].1 < dir.1 {
        seq![dir] + sorted
    } else {
        seq![sorted[0]] + insert_by_depth(sorted.skip(1), dir)
    }
}

/// The directories deepest first; those of one depth keep their order.
pub open spec fn deepest_first(dirs: Seq<DirectoryModel>) -> Seq<DirectoryModel>
    decreases dirs.len(),
{
    if dirs.len() == 0 {
        dirs
    } else {
        insert_by_depth(deepest_first(dirs.drop_last()), dirs.last())
    }
}

/// No directory stands before a deeper one.
pub open spec fn deepest_come_first(dirs: Seq<DirectoryModel>) -> bool {
    forall|i: int, j: int| 0 <= i < j < dirs.len() ==> dirs[i].1 >= dirs[j].1
}

/// The place at which `insert_by_depth` puts a directory of depth `depth`: the
/// first index whose entry is less deep, or the length.
pub open spec fn depth_position(sorted: Seq<DirectoryModel>, depth: int) -> int
    decreases sorted.len(),
{
    if sorted.len() == 0 {
        0
    } else if sorted[0].1 < depth {
        0
    } else {
        1 + depth_position(sorted.skip(1), depth)
    }
}

/// `insert_by_depth` puts the directory at `depth_position` and moves nothing
/// else; `p` is that position when every entry before it is at least as deep
/// and the entry at it, if any, is less deep.
pub proof fn lemma_insert_by_depth_at(sorted: Seq<DirectoryModel>, dir: DirectoryModel, p: int)
    requires
        0 <= p <= sorted.len(),
        forall|k: int| 0 <= k < p ==> (#[trigger] sorted[k]).1 >= dir.1,
        p < sorted.len() ==> sorted[p].1 < dir.1,
    ensures
        depth_position(sorted, dir.1) == p,
        insert_by_depth(sorted, dir) == sorted.insert(p, dir),
    decreases sorted.len(),
{
    if sorted.len() == 0 {
        assert(seq![dir] == sorted.insert(0, dir));
    } else if p == 0 {
        assert(seq![dir] + sorted == sorted.insert(0, dir));
    } else {
        assert(sorted[0].1 >= dir.1);
        let rest = sorted.skip(1);
        assert forall|k: int| 0 <= k < p - 1 implies (#[trigger] rest[k]).1 >= dir.1 by {
            assert(rest[k] == sorted[k + 1]);
        }
        lemma_insert_by_depth_at(rest, dir, p - 1);
        assert(seq![sorted[0]] + rest.insert(p - 1, dir) == sorted.insert(p, dir));
    }
}

/// The position exists: `depth_position` is in range with deeper or equal
/// entries before it and a less deep entry at it.
pub proof fn lemma_depth_position(sorted: Seq<DirectoryModel>, depth: int)
    ensures
        0 <= depth_position(sorted, depth) <= sorted.len(),
        forall|k: int| 0 <= k < depth_position(sorted, depth) ==> (#[trigger] sorted[k]).1 >= depth,
        depth_position(sorted, depth) < sorted.len() ==> sorted[depth_position(sorted, depth)].1
            < depth,
    decreases sorted.len(),
{
    if sorted.len() > 0 && sorted[0].1 >= depth {
        let rest = sorted.skip(1);
        lemma_depth_position(rest, depth);
        assert forall|k: int| 0 <= k < depth_position(sorted, depth) implies (
        #[trigger] sorted[k]).1 >= depth by {
            if k > 0 {
                assert(rest[k - 1] == sorted[k]);
            }
        }
    }
}

/// The order that `deepest_first` gives holds the same directories, each as
/// often as the list does, and none stands before a deeper one.
pub proof fn lemma_deepest_first_sorts(dirs: Seq<DirectoryModel>)
    ensures
        deepest_first(dirs).to_multiset() == dirs.to_multiset(),
        deepest_first(dirs).len() == dirs.len(),
        deepest_come_first(deepest_first(dirs)),
    decreases dirs.len(),
{
    if dirs.len() > 0 {
        let init = dirs.drop_last();
        let dir = dirs.last();
        lemma_deepest_first_sorts(init);
        let sorted = deepest_first(init);
        lemma_depth_position(sorted, dir.1);
        let p = depth_position(sorted, dir.1);
        lemma_insert_by_depth_at(sorted, dir, p);
        vstd::seq_lib::to_multiset_insert(sorted, p, dir);
        vstd::seq_lib::to_multiset_build(init, dir);
        assert(dirs == init.push(dir));
        let out = sorted.insert(p, dir);
        assert forall|i: int, j: int| 0 <= i < j < out.len() implies out[i].1 >= out[j].1 by {
            let si = if i < p { i } else { i - 1 };
            let sj = if j < p { j } else { j - 1 };
            if i != p {
                assert(out[i] == sorted[si]);
            }
            if j != p {
                assert(out[j] == sorted[sj]);
            }
            if i == p {
                assert(sorted[sj].1 <= sorted[p].1);
            }
        }
    }
}

/// The directories in the order in which to look whether they are empty:
/// deepest first.
pub fn directories_deepest_first(dirs: &Vec<Directory>) -> (r: Vec<Directory>)
    ensures
        directories_view(r@) == deepest_first(directories_view(dirs@)),
{
    let mut out: Vec<Directory> = Vec::new();
    let mut i: usize = 0;
    let ghost models = directories_view(dirs@);
    assert(directories_view(out@) =~= deepest_first(models.take(0)));
    while i < dirs.len()
        invariant
            i <= dirs.len(),
            models == directories_view(dirs@),
            directories_view(out@) == deepest_first(models.take(i as int)),
        decreases dirs.len() - i,
    {
        let depth = dirs[i].depth;
        let ghost sorted = directories_view(out@);
        let ghost dir = models[i as int];
        let mut p: usize = 0;
        while p < out.len() && out[p].depth >= depth
            invariant
                p <= out.len(),
                sorted == directories_view(out@),
                forall|k: int| 0 <= k < p ==> (#[trigger] sorted[k]).1 >= depth,
            decreases out.len() - p,
        {
            p += 1;
        }
        proof {
            lemma_insert_by_depth_at(sorted, dir, p as int);
            assert(models.take(i + 1).drop_last() == models.take(i as int));
        }
        out.insert(p, Directory { path: dirs[i].path.clone(), depth });
        assert(directories_view(out@) =~= sorted.insert(p as int, dir));
        i += 1;
    }
    assert(models.take(dirs.len() as int) == models);
    out
}

} // verus!
