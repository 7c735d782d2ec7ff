//! Discovery by walking a directory tree, and the test that tells which
//! diagram files have exports that are out of date.

use vstd::prelude::*;
use crate::explorer::{
    are_distinct, are_strictly_ordered, are_the_same_files, arrange, arranged, into_pairs,
    is_strictly_ordered, lemma_arranged_is_independent_of_enumeration,
    lemma_arranged_is_strictly_ordered, lemma_pairs_of_strictly_ordered,
    lemma_rest_without_first, lemma_sources_read_in_any_order, pairs_of, read_sources,
    sources_read, DiscoveredFile, DiscoveredFileView, DiscoveryError, DiscoveryErrorView,
    ExportedFileView, FileStamp, FileStampView, ModifiedDate, SourceFile, SourceFileView,
};
use crate::decode::deep_viewed;
use crate::mxfile::{DiagramView, Mxfile};
use crate::path::{extension, file_stem, file_stem_of, has_diagram_extension, DIAGRAM_EXTENSION};
use crate::text::{chars_of, has_prefix, precedes, starts_with};

verus! {

/// Whether discovery keeps only the files whose exports are out of date,
/// and the name of the folder that holds the exports.
#[derive(Debug)]
pub struct FilterOptions<'a> {
    on_changes: bool,
    folder: &'a str,
}

/// [`FilterOptions`] as a mathematical value.
pub struct FilterOptionsView {
    pub on_changes: bool,
    pub folder: Seq<char>,
}

impl<'a> View for FilterOptions<'a> {
    type V = FilterOptionsView;

    closed spec fn view(&self) -> FilterOptionsView {
        FilterOptionsView { on_changes: self.on_changes, folder: self.folder@ }
    }
}

impl<'a> FilterOptions<'a> {
    /// Options that keep every file.
    pub fn no_filtering() -> (r: FilterOptions<'a>)
        ensures
            !r@.on_changes,
            r@.folder.len() == 0,
    {
        proof {
            reveal_strlit("");
        }
        FilterOptions { on_changes: false, folder: "" }
    }

    /// Options that keep the files whose exports in `folder` are out of date.
    pub fn filter_on(folder: &'a str) -> (r: FilterOptions<'a>)
        ensures
            r@.on_changes,
            r@.folder == folder@,
    {
        FilterOptions { on_changes: true, folder }
    }

    /// Whether only the files whose exports are out of date are kept.
    pub fn on_changes(&self) -> (r: bool)
        ensures
            r == self@.on_changes,
    {
        self.on_changes
    }

    /// The name of the folder that holds the exports.
    pub fn folder(&self) -> (r: &'a str)
        ensures
            r@ == self@.folder,
    {
        self.folder
    }
}

/// What walking a directory tree found at one place.
#[derive(Debug, Clone, PartialEq, Eq)]
pub struct WalkEntry {
    pub path: String,
    /// Whether it is a regular file.
    pub is_file: bool,
}

impl View for WalkEntry {
    type V = (Seq<char>, bool);

    open spec fn view(&self) -> (Seq<char>, bool) {
        (self.path@, self.is_file)
    }
}

impl DeepView for WalkEntry {
    type V = (Seq<char>, bool);

    open spec fn deep_view(&self) -> (Seq<char>, bool) {
        self@
    }
}

/// Whether an entry of a walk is a diagram file: a regular file with the
/// extension of diagram files.
pub open spec fn is_diagram_file(entry: (Seq<char>, bool)) -> bool {
    entry.1 && extension(entry.0) == Some(DIAGRAM_EXTENSION@)
}

/// The paths of the diagram files among `entries`, in order.
pub open spec fn diagram_paths(entries: Seq<(Seq<char>, bool)>) -> Seq<Seq<char>>
    decreases entries.len(),
{
    if entries.len() == 0 {
        Seq::empty()
    } else if is_diagram_file(entries.last()) {
        diagram_paths(entries.drop_last()).push(entries.last().0)
    } else {
        diagram_paths(entries.drop_last())
    }
}

/// The stem of the file name of a canonical path; empty where there is no path.
pub open spec fn stem_of(canonical: Option<Seq<char>>) -> Seq<char> {
    match canonical {
        Some(path) => file_stem(path),
        None => Seq::empty(),
    }
}

/// Whether an exported file is an export of the diagram file with stem
/// `stem`: a regular file whose stem starts with `stem`.
pub open spec fn belongs_to(exported: ExportedFileView, stem: Seq<char>) -> bool {
    exported.is_file && starts_with(stem_of(exported.canonical), stem)
}

/// Whether an exported file is not known to be as recent as `modified`.
pub open spec fn is_outdated(exported: ExportedFileView, modified: int) -> bool {
    match exported.modified {
        None => true,
        Some(time) => time < modified,
    }
}

/// Whether a diagram file with stem `stem`, modified at `modified`, has to
/// be exported: it has no export yet, or one of its exports is outdated.
pub open spec fn older_than_exported(
    stem: Seq<char>,
    modified: int,
    exported: Seq<ExportedFileView>,
) -> bool {
    ||| forall|k: int| 0 <= k < exported.len() ==> !belongs_to(#[trigger] exported[k], stem)
    ||| exists|k: int|
        0 <= k < exported.len() && belongs_to(#[trigger] exported[k], stem) && is_outdated(
            exported[k],
            modified,
        )
}

/// Whether a diagram file has changed since it was exported. A file whose
/// modification time cannot be read counts as changed.
pub open spec fn has_been_updated(stamp: FileStampView) -> bool {
    match stamp.modified {
        None => true,
        Some(modified) => older_than_exported(stem_of(stamp.canonical), modified, stamp.exported),
    }
}

/// Those of `files` that have changed since they were exported, in order.
pub open spec fn changed_only(files: Seq<DiscoveredFileView>) -> Seq<DiscoveredFileView>
    decreases files.len(),
{
    if files.len() == 0 {
        files
    } else if has_been_updated(files.last().stamp) {
        changed_only(files.drop_last()).push(files.last())
    } else {
        changed_only(files.drop_last())
    }
}

/// What exploring `files` gives: the files are read and decoded in their
/// order, sorted by path with each path once and, where the options ask
/// for it, reduced to those that have changed.
pub open spec fn explored(files: Seq<SourceFileView>, options: FilterOptionsView) -> Result<
    Seq<(Seq<char>, Seq<DiagramView>)>,
    DiscoveryErrorView,
> {
    match sources_read(files) {
        Err(error) => Err(error),
        Ok(found) => if options.on_changes {
            Ok(pairs_of(changed_only(arranged(found))))
        } else {
            Ok(pairs_of(arranged(found)))
        },
    }
}

/// Picks the diagram files among the entries of a walk.
pub fn collect_files_from_filesystem(entries: &Vec<WalkEntry>) -> (r: Vec<String>)
    ensures
        r.deep_view() == diagram_paths(entries.deep_view()),
{
    let ghost all = entries.deep_view();
    let mut paths: Vec<String> = Vec::new();
    let mut at: usize = 0;
    assert(paths.deep_view() == Seq::<Seq<char>>::empty());
    while at < entries.len()
        invariant
            at <= entries.len(),
            all == entries.deep_view(),
            paths.deep_view() == diagram_paths(all.take(at as int)),
        decreases entries.len() - at,
    {
        assert(all.take(at + 1).drop_last() == all.take(at as int));
        assert(all.take(at + 1).last() == entries@[at as int]@);
        let ghost before = paths.deep_view();
        if entries[at].is_file && has_diagram_extension(entries[at].path.as_str()) {
            let path = entries[at].path.clone();
            paths.push(path);
            assert(paths.deep_view() == before.push(path@));
        }
        at += 1;
    }
    assert(all.take(entries.len() as int) == all);
    paths
}

/// The stem of the file name of a canonical path.
pub fn stem(canonical: &Option<String>) -> (r: String)
    ensures
        r@ == stem_of(canonical.deep_view()),
{
    match canonical {
        Some(path) => file_stem_of(path.as_str()),
        None => String::new(),
    }
}

/// Tests whether a diagram file modified at `modified_date` has to be
/// exported, given the files in the export folder beside it.
pub fn is_drawio_file_older_than_exported_files(
    stamp: &FileStamp,
    modified_date: ModifiedDate,
) -> (r: bool)
    ensures
        r == older_than_exported(stem_of(stamp@.canonical), modified_date@, stamp@.exported),
{
    let ghost all = stamp@.exported;
    let own = chars_of(stem(&stamp.canonical).as_str());
    let mut found = false;
    let mut at: usize = 0;
    while at < stamp.exported.len()
        invariant
            at <= stamp.exported.len(),
            all == stamp.exported.deep_view(),
            own@ == stem_of(stamp@.canonical),
            found == exists|k: int| 0 <= k < at && belongs_to(#[trigger] all[k], own@),
            forall|k: int|
                0 <= k < at && belongs_to(#[trigger] all[k], own@) ==> !is_outdated(
                    all[k],
                    modified_date@,
                ),
        decreases stamp.exported.len() - at,
    {
        let exported = &stamp.exported[at];
        assert(all[at as int] == exported@);
        if exported.is_file && has_prefix(&chars_of(stem(&exported.canonical).as_str()), &own) {
            found = true;
            match exported.modified {
                None => {
                    return true;
                },
                Some(time) => {
                    if time.nanoseconds < modified_date.nanoseconds {
                        return true;
                    }
                },
            }
        }
        at += 1;
    }
    !found
}

/// Tests whether a diagram file has changed since it was exported.
pub fn is_drawio_file_has_been_updated(stamp: &FileStamp) -> (r: bool)
    ensures
        r == has_been_updated(stamp@),
{
    match stamp.modified {
        None => true,
        Some(modified_date) => is_drawio_file_older_than_exported_files(stamp, modified_date),
    }
}

/// Keeps the files that have changed since they were exported, in their order.
pub fn only_keep_changed_drawio_files(files: Vec<DiscoveredFile>) -> (r: Vec<DiscoveredFile>)
    ensures
        r.deep_view() == changed_only(files.deep_view()),
{
    let ghost all = files.deep_view();
    let mut rest = files;
    let mut kept: Vec<DiscoveredFile> = Vec::new();
    let ghost mut done: int = 0;
    assert(all.skip(0) == all);
    assert(kept.deep_view() == Seq::<DiscoveredFileView>::empty());
    assert(all.take(0).len() == 0);
    while rest.len() > 0
        invariant
            0 <= done <= all.len(),
            rest.len() + done == all.len(),
            rest.deep_view() == all.skip(done),
            kept.deep_view() == changed_only(all.take(done)),
        decreases rest.len(),
    {
        let ghost rest_before = rest@;
        let ghost before = kept.deep_view();
        assert(rest.deep_view()[0] == rest@[0]@);
        assert(all.take(done + 1).drop_last() == all.take(done));
        assert(all.take(done + 1).last() == rest@[0]@);
        let file = rest.remove(0);
        proof {
            lemma_rest_without_first(rest_before, rest@);
            assert(all.skip(done).skip(1) == all.skip(done + 1));
        }
        if is_drawio_file_has_been_updated(&file.stamp) {
            kept.push(file);
            assert(kept.deep_view() == before.push(file@));
        }
        proof {
            done = done + 1;
        }
    }
    assert(all.take(done) == all);
    kept
}

/// Reads and decodes the diagram files that a walk found, sorts them by
/// path and, where the options ask for it, keeps only those that have
/// changed since they were exported.
pub fn explore_path(files: Vec<SourceFile>, filter_options: FilterOptions<'_>) -> (r: Result<
    Vec<(String, Mxfile)>,
    DiscoveryError,
>)
    ensures
        deep_viewed(r) == explored(files.deep_view(), filter_options@),
{
    let found = match read_sources(files) {
        Ok(found) => found,
        Err(error) => {
            return Err(error);
        },
    };
    let sorted = arrange(found);
    if filter_options.on_changes {
        Ok(into_pairs(only_keep_changed_drawio_files(sorted)))
    } else {
        Ok(into_pairs(sorted))
    }
}

/// A diagram file without exports has changed: it is exported for the
/// first time.
pub proof fn lemma_first_export_is_change(stamp: FileStampView)
    requires
        forall|k: int|
            0 <= k < stamp.exported.len() ==> !belongs_to(
                #[trigger] stamp.exported[k],
                stem_of(stamp.canonical),
            ),
    ensures
        has_been_updated(stamp),
{
}

/// A diagram file that was modified after each of its exports has changed.
pub proof fn lemma_newer_source_is_change(stamp: FileStampView)
    requires
        stamp.modified is Some,
        forall|k: int|
            0 <= k < stamp.exported.len() && belongs_to(
                #[trigger] stamp.exported[k],
                stem_of(stamp.canonical),
            ) ==> stamp.exported[k].modified is Some && stamp.exported[k].modified->0
                < stamp.modified->0,
    ensures
        has_been_updated(stamp),
{
    let stem = stem_of(stamp.canonical);
    if exists|k: int| 0 <= k < stamp.exported.len() && belongs_to(#[trigger] stamp.exported[k], stem) {
        let k = choose|k: int|
            0 <= k < stamp.exported.len() && belongs_to(#[trigger] stamp.exported[k], stem);
        assert(is_outdated(stamp.exported[k], stamp.modified->0));
    }
}

/// A diagram file has not changed where it has an export and each of its
/// exports is at least as recent as the file itself.
pub proof fn lemma_recent_exports_are_no_change(stamp: FileStampView)
    requires
        stamp.modified is Some,
        exists|k: int|
            0 <= k < stamp.exported.len() && belongs_to(
                #[trigger] stamp.exported[k],
                stem_of(stamp.canonical),
            ),
        forall|k: int|
            0 <= k < stamp.exported.len() && belongs_to(
                #[trigger] stamp.exported[k],
                stem_of(stamp.canonical),
            ) ==> stamp.exported[k].modified is Some && stamp.exported[k].modified->0
                >= stamp.modified->0,
    ensures
        !has_been_updated(stamp),
{
}

/// What comes out of the filter is a part of what went in: the files that
/// have changed, and among them the order is kept.
pub proof fn lemma_changed_only_keeps_changed(files: Seq<DiscoveredFileView>)
    ensures
        changed_only(files).len() <= files.len(),
        forall|k: int|
            0 <= k < changed_only(files).len() ==> has_been_updated(
                (#[trigger] changed_only(files)[k]).stamp,
            ) && files.contains(changed_only(files)[k]),
    decreases files.len(),
{
    if files.len() > 0 {
        let front = files.drop_last();
        lemma_changed_only_keeps_changed(front);
        assert forall|k: int| 0 <= k < changed_only(files).len() implies has_been_updated(
            (#[trigger] changed_only(files)[k]).stamp,
        ) && files.contains(changed_only(files)[k]) by {
            if k < changed_only(front).len() {
                let found = choose|i: int|
                    0 <= i < front.len() && front[i] == changed_only(front)[k];
                assert(files[found] == changed_only(files)[k]);
            } else {
                assert(files[files.len() - 1] == changed_only(files)[k]);
            }
        }
    }
}

/// Exploring twice what was found of an unchanged file system, with the
/// same options, gives the same result both times: the same files in the
/// same order, or the same error.
pub proof fn lemma_exploring_is_repeatable(
    files: Seq<SourceFileView>,
    options: FilterOptionsView,
    first: Result<Seq<(Seq<char>, Seq<DiagramView>)>, DiscoveryErrorView>,
    second: Result<Seq<(Seq<char>, Seq<DiagramView>)>, DiscoveryErrorView>,
)
    requires
        first == explored(files, options),
        second == explored(files, options),
    ensures
        first == second,
{
}

/// The filter keeps the order of the files.
pub proof fn lemma_changed_only_keeps_order(files: Seq<DiscoveredFileView>)
    requires
        is_strictly_ordered(files),
    ensures
        is_strictly_ordered(changed_only(files)),
    decreases files.len(),
{
    if files.len() > 0 {
        let front = files.drop_last();
        let kept = changed_only(front);
        assert(is_strictly_ordered(front)) by {
            assert forall|i: int, j: int| 0 <= i < j < front.len() implies precedes(
                #[trigger] front[i].path,
                #[trigger] front[j].path,
            ) by {
                assert(front[i] == files[i] && front[j] == files[j]);
            }
        }
        lemma_changed_only_keeps_order(front);
        lemma_changed_only_keeps_changed(front);
        let all = changed_only(files);
        assert forall|i: int, j: int| 0 <= i < j < all.len() implies precedes(
            #[trigger] all[i].path,
            #[trigger] all[j].path,
        ) by {
            if j < kept.len() {
                assert(all[i] == kept[i] && all[j] == kept[j]);
            } else {
                assert(all[i] == kept[i]);
                assert(front.contains(kept[i]));
                let found = choose|k: int| 0 <= k < front.len() && front[k] == kept[i];
                assert(files[found] == kept[i]);
                assert(all[j] == files[files.len() - 1]);
                assert(precedes(files[found].path, files[files.len() - 1].path));
            }
        }
    }
}

/// What exploring gives is strictly ordered by path, whatever the order in
/// which the files were found: each path comes before all the paths behind
/// it, and no path comes twice.
pub proof fn lemma_explored_is_strictly_ordered(
    files: Seq<SourceFileView>,
    options: FilterOptionsView,
)
    requires
        explored(files, options) is Ok,
    ensures
        are_strictly_ordered(explored(files, options)->Ok_0),
{
    let found = sources_read(files)->Ok_0;
    lemma_arranged_is_strictly_ordered(found);
    if options.on_changes {
        lemma_changed_only_keeps_order(arranged(found));
        lemma_pairs_of_strictly_ordered(changed_only(arranged(found)));
    } else {
        lemma_pairs_of_strictly_ordered(arranged(found));
    }
}

/// The result does not depend on the order in which the files were found:
/// where two walks find the same files, no path twice, in different
/// orders, and the files can be read, exploring gives the same.
pub proof fn lemma_explored_is_independent_of_enumeration(
    one: Seq<SourceFileView>,
    other: Seq<SourceFileView>,
    options: FilterOptionsView,
)
    requires
        are_the_same_files(one, other),
        are_distinct(one),
        are_distinct(other),
        explored(one, options) is Ok,
    ensures
        explored(one, options) == explored(other, options),
{
    lemma_sources_read_in_any_order(one, other);
    lemma_arranged_is_independent_of_enumeration(
        sources_read(one)->Ok_0,
        sources_read(other)->Ok_0,
    );
}

} // verus!
