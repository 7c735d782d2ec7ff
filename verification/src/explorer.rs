//! Discovery of the diagram files to export.
//!
//! Nothing here touches a file system or a repository: the caller observes
//! them and hands over what it found, as plain values.

pub mod filesystem;
pub mod git_repository;

use vstd::prelude::*;
use crate::decode::{
    decoded, deep_viewed, lemma_try_map_failure, read_file, try_map, viewed, FailureKind, ReadError,
};
use crate::mxfile::{DiagramView, Mxfile};
use crate::decode::{lemma_try_map_any_failure, lemma_try_map_success};
use crate::text::{chars_of, comes_before, precedes, same_text};

verus! {

/// The time at which a file was last modified, in nanoseconds since the
/// Unix epoch.
#[derive(Debug, Clone, Copy, PartialEq, Eq)]
pub struct ModifiedDate {
    pub nanoseconds: i128,
}

/// A file found in the folder that holds the exports of a diagram file.
#[derive(Debug, Clone, PartialEq, Eq)]
pub struct ExportedFile {
    /// Whether it is a regular file.
    pub is_file: bool,
    /// Its canonical path, where it has one.
    pub canonical: Option<String>,
    /// Its modification time, where it can be read.
    pub modified: Option<ModifiedDate>,
}

/// What the file system tells about a diagram file and its exports.
#[derive(Debug, Clone, PartialEq, Eq)]
pub struct FileStamp {
    /// Its modification time, where it can be read.
    pub modified: Option<ModifiedDate>,
    /// Its canonical path, where it has one.
    pub canonical: Option<String>,
    /// The files found in the export folder beside it.
    pub exported: Vec<ExportedFile>,
}

/// A diagram file as it was found: its path, its content or the reason why
/// the content could not be read, and its stamp.
#[derive(Debug, PartialEq, Eq)]
pub struct SourceFile {
    pub path: String,
    pub content: Result<String, String>,
    pub stamp: FileStamp,
}

/// A diagram file that was decoded.
#[derive(Debug, Clone, PartialEq)]
pub struct DiscoveredFile {
    pub path: String,
    pub mxfile: Mxfile,
    pub stamp: FileStamp,
}

/// Why discovery failed.
#[derive(Debug)]
pub enum DiscoveryError {
    /// The path to explore does not exist.
    PathNotFound { path: String },
    /// A diagram file could not be read.
    Io { path: String, cause: String },
    /// A diagram file could not be decoded.
    Decode(ReadError),
    /// No repository encloses the path to explore.
    RepositoryNotFound { path: String, cause: String },
    /// The reference names nothing in the repository.
    ReferenceNotFound { reference: String, repository: String, cause: String },
    /// The changes since the reference could not be computed.
    DiffComputationFailed { repository: String, path: String, cause: String },
}

/// An [`ExportedFile`] as a mathematical value.
pub struct ExportedFileView {
    pub is_file: bool,
    pub canonical: Option<Seq<char>>,
    pub modified: Option<int>,
}

/// A [`FileStamp`] as a mathematical value.
pub struct FileStampView {
    pub modified: Option<int>,
    pub canonical: Option<Seq<char>>,
    pub exported: Seq<ExportedFileView>,
}

/// A [`SourceFile`] as a mathematical value.
pub struct SourceFileView {
    pub path: Seq<char>,
    pub content: Result<Seq<char>, Seq<char>>,
    pub stamp: FileStampView,
}

/// A [`DiscoveredFile`] as a mathematical value.
pub struct DiscoveredFileView {
    pub path: Seq<char>,
    pub pages: Seq<DiagramView>,
    pub stamp: FileStampView,
}

/// A [`DiscoveryError`] as a mathematical value.
pub enum DiscoveryErrorView {
    PathNotFound { path: Seq<char> },
    Io { path: Seq<char>, cause: Seq<char> },
    Decode { path: Seq<char>, compressed: FailureKind, raw: FailureKind },
    RepositoryNotFound { path: Seq<char>, cause: Seq<char> },
    ReferenceNotFound { reference: Seq<char>, repository: Seq<char>, cause: Seq<char> },
    DiffComputationFailed { repository: Seq<char>, path: Seq<char>, cause: Seq<char> },
}

impl View for ModifiedDate {
    type V = int;

    open spec fn view(&self) -> int {
        self.nanoseconds as int
    }
}

impl DeepView for ModifiedDate {
    type V = int;

    open spec fn deep_view(&self) -> int {
        self@
    }
}

impl View for ExportedFile {
    type V = ExportedFileView;

    open spec fn view(&self) -> ExportedFileView {
        ExportedFileView {
            is_file: self.is_file,
            canonical: self.canonical.deep_view(),
            modified: self.modified.deep_view(),
        }
    }
}

impl DeepView for ExportedFile {
    type V = ExportedFileView;

    open spec fn deep_view(&self) -> ExportedFileView {
        self@
    }
}

impl View for FileStamp {
    type V = FileStampView;

    open spec fn view(&self) -> FileStampView {
        FileStampView {
            modified: self.modified.deep_view(),
            canonical: self.canonical.deep_view(),
            exported: self.exported.deep_view(),
        }
    }
}

impl View for SourceFile {
    type V = SourceFileView;

    open spec fn view(&self) -> SourceFileView {
        SourceFileView {
            path: self.path@,
            content: match self.content {
                Ok(text) => Ok(text@),
                Err(cause) => Err(cause@),
            },
            stamp: self.stamp@,
        }
    }
}

impl DeepView for SourceFile {
    type V = SourceFileView;

    open spec fn deep_view(&self) -> SourceFileView {
        self@
    }
}

impl View for DiscoveredFile {
    type V = DiscoveredFileView;

    open spec fn view(&self) -> DiscoveredFileView {
        DiscoveredFileView { path: self.path@, pages: self.mxfile@, stamp: self.stamp@ }
    }
}

impl DeepView for DiscoveredFile {
    type V = DiscoveredFileView;

    open spec fn deep_view(&self) -> DiscoveredFileView {
        self@
    }
}

impl View for DiscoveryError {
    type V = DiscoveryErrorView;

    open spec fn view(&self) -> DiscoveryErrorView {
        match self {
            DiscoveryError::PathNotFound { path } => DiscoveryErrorView::PathNotFound {
                path: path@,
            },
            DiscoveryError::Io { path, cause } => DiscoveryErrorView::Io {
                path: path@,
                cause: cause@,
            },
            DiscoveryError::Decode(error) => DiscoveryErrorView::Decode {
                path: error.path@,
                compressed: error.compressed@,
                raw: error.raw@,
            },
            DiscoveryError::RepositoryNotFound { path, cause } => {
                DiscoveryErrorView::RepositoryNotFound { path: path@, cause: cause@ }
            },
            DiscoveryError::ReferenceNotFound { reference, repository, cause } => {
                DiscoveryErrorView::ReferenceNotFound {
                    reference: reference@,
                    repository: repository@,
                    cause: cause@,
                }
            },
            DiscoveryError::DiffComputationFailed { repository, path, cause } => {
                DiscoveryErrorView::DiffComputationFailed {
                    repository: repository@,
                    path: path@,
                    cause: cause@,
                }
            },
        }
    }
}

/// What reading and decoding one file gives.
pub open spec fn source_read(file: SourceFileView) -> Result<
    DiscoveredFileView,
    DiscoveryErrorView,
> {
    match file.content {
        Err(cause) => Err(DiscoveryErrorView::Io { path: file.path, cause }),
        Ok(content) => match decoded(content) {
            Ok(pages) => Ok(DiscoveredFileView { path: file.path, pages, stamp: file.stamp }),
            Err(kinds) => Err(
                DiscoveryErrorView::Decode { path: file.path, compressed: kinds.0, raw: kinds.1 },
            ),
        },
    }
}

/// What reading and decoding `files` gives, in their order: all of them, or
/// the error of the first that fails.
pub open spec fn sources_read(files: Seq<SourceFileView>) -> Result<
    Seq<DiscoveredFileView>,
    DiscoveryErrorView,
> {
    try_map(files, |file: SourceFileView| source_read(file))
}

/// The number of files at the front of `files` whose path comes before `path`.
pub open spec fn insertion_point(files: Seq<DiscoveredFileView>, path: Seq<char>) -> int
    decreases files.len(),
{
    if files.len() > 0 && precedes(files[0].path, path) {
        insertion_point(files.skip(1), path) + 1
    } else {
        0
    }
}

/// `files` in the order of their paths, which are compared code point by
/// code point. Files with the same path keep their order.
pub open spec fn sorted_by_path(files: Seq<DiscoveredFileView>) -> Seq<DiscoveredFileView>
    decreases files.len(),
{
    if files.len() == 0 {
        files
    } else {
        let rest = sorted_by_path(files.skip(1));
        rest.insert(insertion_point(rest, files[0].path), files[0])
    }
}

/// The paths and containers of `files`, in order.
pub open spec fn pairs_of(files: Seq<DiscoveredFileView>) -> Seq<(Seq<char>, Seq<DiagramView>)> {
    Seq::new(files.len(), |k: int| (files[k].path, files[k].pages))
}

/// The insertion point lies within the sequence or at its end.
pub proof fn lemma_insertion_point_bounds(files: Seq<DiscoveredFileView>, path: Seq<char>)
    ensures
        0 <= insertion_point(files, path) <= files.len(),
    decreases files.len(),
{
    if files.len() > 0 && precedes(files[0].path, path) {
        lemma_insertion_point_bounds(files.skip(1), path);
    }
}

/// What is left of a sequence after its first element was taken out, seen
/// element by element as mathematical values.
pub proof fn lemma_rest_without_first<T: DeepView>(before: Seq<T>, after: Seq<T>)
    requires
        before.len() > 0,
        after == before.remove(0),
    ensures
        Seq::new(after.len(), |k: int| after[k].deep_view()) == Seq::new(
            before.len(),
            |k: int| before[k].deep_view(),
        ).skip(1),
{
    assert(Seq::new(after.len(), |k: int| after[k].deep_view()) =~= Seq::new(
        before.len(),
        |k: int| before[k].deep_view(),
    ).skip(1));
}

/// Reads and decodes one file.
pub fn read_source(file: SourceFile) -> (r: Result<DiscoveredFile, DiscoveryError>)
    ensures
        viewed(r) == source_read(file@),
{
    let SourceFile { path, content, stamp } = file;
    match content {
        Err(cause) => Err(DiscoveryError::Io { path, cause }),
        Ok(content) => match read_file(path.as_str(), content.as_str()) {
            Ok(mxfile) => Ok(DiscoveredFile { path, mxfile, stamp }),
            Err(error) => Err(DiscoveryError::Decode(error)),
        },
    }
}

/// Reads and decodes `files`, in their order. The first file that fails
/// ends the work.
pub fn read_sources(files: Vec<SourceFile>) -> (r: Result<Vec<DiscoveredFile>, DiscoveryError>)
    ensures
        deep_viewed(r) == sources_read(files.deep_view()),
{
    let ghost all = files.deep_view();
    let mut rest = files;
    let mut found: Vec<DiscoveredFile> = Vec::new();
    let ghost mut done: int = 0;
    assert(found.deep_view() == Seq::<DiscoveredFileView>::empty());
    assert(all.take(0).len() == 0);
    assert(all.skip(0) == all);
    while rest.len() > 0
        invariant
            0 <= done <= all.len(),
            rest.len() + done == all.len(),
            all == files.deep_view(),
            rest.deep_view() == all.skip(done),
            sources_read(all.take(done)) == Ok::<Seq<DiscoveredFileView>, DiscoveryErrorView>(
                found.deep_view(),
            ),
        decreases rest.len(),
    {
        assert(all.take(done + 1).drop_last() == all.take(done));
        assert(rest.deep_view()[0] == rest@[0]@);
        assert(all.take(done + 1).last() == rest@[0]@);
        let ghost before = found.deep_view();
        let ghost rest_before = rest@;
        let file = rest.remove(0);
        assert(file@ == all.take(done + 1).last());
        proof {
            lemma_rest_without_first(rest_before, rest@);
            assert(all.skip(done).skip(1) == all.skip(done + 1));
        }
        match read_source(file) {
            Ok(discovered) => {
                found.push(discovered);
                assert(found.deep_view() == before.push(discovered@));
            },
            Err(error) => {
                proof {
                    lemma_try_map_failure(
                        all,
                        |file: SourceFileView| source_read(file),
                        done + 1,
                    );
                }
                return Err(error);
            },
        }
        proof {
            done = done + 1;
        }
    }
    assert(all.take(done) == all);
    Ok(found)
}

/// Counts the files at the front of `files` whose path comes before `path`.
pub fn find_insertion_point(files: &Vec<DiscoveredFile>, path: &str) -> (r: usize)
    ensures
        r == insertion_point(files.deep_view(), path@),
        r <= files.len(),
{
    let ghost all = files.deep_view();
    let key = chars_of(path);
    let mut at: usize = 0;
    assert(all.skip(0) == all);
    while at < files.len()
        invariant
            at <= files.len(),
            all == files.deep_view(),
            key@ == path@,
            insertion_point(all, path@) == at + insertion_point(all.skip(at as int), path@),
        decreases files.len() - at,
    {
        assert(all.skip(at as int).skip(1) == all.skip(at + 1));
        assert(all.skip(at as int)[0] == files@[at as int]@);
        if !comes_before(&chars_of(files[at].path.as_str()), &key) {
            return at;
        }
        at += 1;
    }
    at
}

/// Sorts `files` by their paths, which are compared code point by code point.
pub fn sort_by_path(files: Vec<DiscoveredFile>) -> (r: Vec<DiscoveredFile>)
    ensures
        r.deep_view() == sorted_by_path(files.deep_view()),
{
    let ghost all = files.deep_view();
    let mut rest = files;
    let mut sorted: Vec<DiscoveredFile> = Vec::new();
    assert(all.skip(all.len() as int) == Seq::<DiscoveredFileView>::empty());
    assert(sorted.deep_view() == Seq::<DiscoveredFileView>::empty());
    assert(all.take(all.len() as int) == all);
    while rest.len() > 0
        invariant
            rest.len() <= all.len(),
            rest.deep_view() == all.take(rest.len() as int),
            sorted.deep_view() == sorted_by_path(all.skip(rest.len() as int)),
        decreases rest.len(),
    {
        let ghost n = rest.len() as int;
        let ghost before = sorted.deep_view();
        let ghost rest_before = rest@;
        assert(rest.deep_view()[n - 1] == rest@[n - 1]@);
        let file = rest.pop().unwrap();
        assert(file@ == all[n - 1]);
        assert(rest.deep_view() == all.take(n - 1)) by {
            assert forall|k: int| 0 <= k < n - 1 implies rest.deep_view()[k] == all.take(n - 1)[k] by {
                assert(rest@[k] == rest_before[k]);
                assert(all.take(n)[k] == rest_before[k]@);
            }
        }
        assert(all.skip(n - 1).skip(1) == all.skip(n));
        assert(all.skip(n - 1)[0] == all[n - 1]);
        let at = find_insertion_point(&sorted, file.path.as_str());
        sorted.insert(at, file);
        assert(sorted.deep_view() == before.insert(at as int, file@));
    }
    assert(all.skip(0) == all);
    sorted
}

/// Gives the path and the container of each of `files`, in order.
pub fn into_pairs(files: Vec<DiscoveredFile>) -> (r: Vec<(String, Mxfile)>)
    ensures
        r.deep_view() == pairs_of(files.deep_view()),
{
    let ghost all = files.deep_view();
    let mut rest = files;
    let mut pairs: Vec<(String, Mxfile)> = Vec::new();
    let ghost mut done: int = 0;
    assert(all.skip(0) == all);
    while rest.len() > 0
        invariant
            0 <= done <= all.len(),
            rest.len() + done == all.len(),
            rest.deep_view() == all.skip(done),
            pairs.len() == done,
            forall|k: int|
                0 <= k < done ==> (#[trigger] pairs[k]).deep_view() == (all[k].path, all[k].pages),
        decreases rest.len(),
    {
        let ghost rest_before = rest@;
        assert(rest.deep_view()[0] == rest@[0]@);
        let file = rest.remove(0);
        proof {
            lemma_rest_without_first(rest_before, rest@);
            assert(all.skip(done).skip(1) == all.skip(done + 1));
        }
        let DiscoveredFile { path, mxfile, stamp } = file;
        pairs.push((path, mxfile));
        proof {
            done = done + 1;
        }
    }
    assert(pairs.deep_view() == pairs_of(all));
    pairs
}

/// Whether no file of `files` stands behind a file whose path comes after its own.
pub open spec fn is_ordered(files: Seq<DiscoveredFileView>) -> bool {
    forall|i: int, j: int|
        0 <= i < j < files.len() ==> !precedes(#[trigger] files[j].path, #[trigger] files[i].path)
}

/// Whether the path of each file of `files` comes before the paths of all
/// the files behind it.
pub open spec fn is_strictly_ordered(files: Seq<DiscoveredFileView>) -> bool {
    forall|i: int, j: int|
        0 <= i < j < files.len() ==> precedes(#[trigger] files[i].path, #[trigger] files[j].path)
}

/// Whether no two files of `files` have the same path.
pub open spec fn has_distinct_paths(files: Seq<DiscoveredFileView>) -> bool {
    forall|i: int, j: int|
        0 <= i < files.len() && 0 <= j < files.len() && i != j ==> (#[trigger] files[i]).path != (
        #[trigger] files[j]).path
}

/// The files before the insertion point have paths that come before
/// `path`; the file at the insertion point has not.
pub proof fn lemma_insertion_point_splits(files: Seq<DiscoveredFileView>, path: Seq<char>)
    ensures
        forall|i: int|
            0 <= i < insertion_point(files, path) ==> precedes((#[trigger] files[i]).path, path),
        insertion_point(files, path) < files.len() ==> !precedes(
            files[insertion_point(files, path)].path,
            path,
        ),
    decreases files.len(),
{
    if files.len() > 0 && precedes(files[0].path, path) {
        lemma_insertion_point_splits(files.skip(1), path);
        lemma_insertion_point_bounds(files.skip(1), path);
        assert forall|i: int| 0 <= i < insertion_point(files, path) implies precedes(
            (#[trigger] files[i]).path,
            path,
        ) by {
            if i > 0 {
                assert(files[i] == files.skip(1)[i - 1]);
            }
        }
        if insertion_point(files, path) < files.len() {
            assert(files[insertion_point(files, path)] == files.skip(1)[insertion_point(
                files.skip(1),
                path,
            )]);
        }
    }
}

/// What does not come before a text that does not come before a third
/// does not come before the third.
pub proof fn lemma_not_before_is_transitive(a: Seq<char>, b: Seq<char>, c: Seq<char>)
    requires
        !precedes(b, a),
        !precedes(c, b),
    ensures
        !precedes(c, a),
{
    crate::text::lemma_precedes_total(a, b);
    crate::text::lemma_precedes_total(b, c);
    if precedes(c, a) {
        if a != b {
            crate::text::lemma_precedes_transitive(c, a, b);
        }
    }
}

/// Sorting gives an ordered sequence.
pub proof fn lemma_sorted_is_ordered(files: Seq<DiscoveredFileView>)
    ensures
        is_ordered(sorted_by_path(files)),
    decreases files.len(),
{
    if files.len() > 0 {
        let rest = sorted_by_path(files.skip(1));
        let first = files[0];
        let at = insertion_point(rest, first.path);
        let all = rest.insert(at, first);
        lemma_sorted_is_ordered(files.skip(1));
        lemma_insertion_point_bounds(rest, first.path);
        lemma_insertion_point_splits(rest, first.path);
        assert forall|i: int, j: int| 0 <= i < j < all.len() implies !precedes(
            #[trigger] all[j].path,
            #[trigger] all[i].path,
        ) by {
            if j < at {
                assert(all[i] == rest[i] && all[j] == rest[j]);
            } else if j == at {
                assert(all[i] == rest[i]);
                crate::text::lemma_precedes_asymmetric(rest[i].path, first.path);
            } else if i < at {
                assert(all[i] == rest[i] && all[j] == rest[j - 1]);
            } else if i == at {
                assert(all[j] == rest[j - 1]);
                if j - 1 > at {
                    assert(!precedes(rest[j - 1].path, rest[at].path));
                    lemma_not_before_is_transitive(first.path, rest[at].path, rest[j - 1].path);
                }
            } else {
                assert(all[i] == rest[i - 1] && all[j] == rest[j - 1]);
            }
        }
    }
}

/// Sorting gives the same files, each as often as before.
pub proof fn lemma_sorted_is_permutation(files: Seq<DiscoveredFileView>)
    ensures
        sorted_by_path(files).to_multiset() == files.to_multiset(),
    decreases files.len(),
{
    if files.len() > 0 {
        let rest = sorted_by_path(files.skip(1));
        lemma_sorted_is_permutation(files.skip(1));
        lemma_insertion_point_bounds(rest, files[0].path);
        vstd::seq_lib::to_multiset_insert(rest, insertion_point(rest, files[0].path), files[0]);
        vstd::seq_lib::to_multiset_insert(files.skip(1), 0, files[0]);
        assert(files.skip(1).insert(0, files[0]) == files);
    }
}

/// An ordered sequence of files with distinct paths is strictly ordered.
pub proof fn lemma_ordered_and_distinct_is_strict(files: Seq<DiscoveredFileView>)
    requires
        is_ordered(files),
        has_distinct_paths(files),
    ensures
        is_strictly_ordered(files),
{
    assert forall|i: int, j: int| 0 <= i < j < files.len() implies precedes(
        #[trigger] files[i].path,
        #[trigger] files[j].path,
    ) by {
        crate::text::lemma_precedes_total(files[i].path, files[j].path);
    }
}

/// Files with distinct paths keep distinct paths in any other order.
pub proof fn lemma_distinct_paths_in_any_order(
    one: Seq<DiscoveredFileView>,
    other: Seq<DiscoveredFileView>,
)
    requires
        one.to_multiset() == other.to_multiset(),
        has_distinct_paths(one),
    ensures
        has_distinct_paths(other),
{
    assert(one.no_duplicates());
    one.lemma_multiset_has_no_duplicates();
    other.lemma_multiset_has_no_duplicates_conv();
    assert forall|i: int, j: int|
        0 <= i < other.len() && 0 <= j < other.len() && i != j implies (#[trigger] other[i]).path
        != (#[trigger] other[j]).path by {
        vstd::seq_lib::to_multiset_contains(one, other[i]);
        vstd::seq_lib::to_multiset_contains(other, other[i]);
        vstd::seq_lib::to_multiset_contains(one, other[j]);
        vstd::seq_lib::to_multiset_contains(other, other[j]);
        assert(other.contains(other[i]));
        assert(other.contains(other[j]));
        let a = choose|a: int| 0 <= a < one.len() && one[a] == other[i];
        let b = choose|b: int| 0 <= b < one.len() && one[b] == other[j];
        assert(a != b);
    }
}

/// Files with distinct paths come out of sorting in strict order: the
/// order by path is total.
pub proof fn lemma_sorted_is_strictly_ordered(files: Seq<DiscoveredFileView>)
    requires
        has_distinct_paths(files),
    ensures
        is_strictly_ordered(sorted_by_path(files)),
{
    lemma_sorted_is_ordered(files);
    lemma_sorted_is_permutation(files);
    lemma_distinct_paths_in_any_order(files, sorted_by_path(files));
    lemma_ordered_and_distinct_is_strict(sorted_by_path(files));
}

/// `files` without the files whose path is the path of the file kept
/// before them: of neighbours with the same path the first stays.
pub open spec fn without_repeated_paths(files: Seq<DiscoveredFileView>) -> Seq<DiscoveredFileView>
    decreases files.len(),
{
    if files.len() == 0 {
        files
    } else {
        let front = without_repeated_paths(files.drop_last());
        if front.len() > 0 && front.last().path == files.last().path {
            front
        } else {
            front.push(files.last())
        }
    }
}

/// `files` as discovery hands them on: sorted by path, and each path once.
/// Of files with the same path the one found first stays.
pub open spec fn arranged(files: Seq<DiscoveredFileView>) -> Seq<DiscoveredFileView> {
    without_repeated_paths(sorted_by_path(files))
}

/// Whether the path of each pair comes before the paths of all the pairs
/// behind it.
pub open spec fn are_strictly_ordered(pairs: Seq<(Seq<char>, Seq<DiagramView>)>) -> bool {
    forall|i: int, j: int|
        0 <= i < j < pairs.len() ==> precedes((#[trigger] pairs[i]).0, (#[trigger] pairs[j]).0)
}

/// Whether no two of the files as they were found have the same path.
pub open spec fn are_distinct(files: Seq<SourceFileView>) -> bool {
    forall|i: int, j: int|
        0 <= i < files.len() && 0 <= j < files.len() && i != j ==> (#[trigger] files[i]).path != (
        #[trigger] files[j]).path
}

/// Whether each of `one` is among `other` and each of `other` among `one`.
pub open spec fn are_the_same_files<T>(one: Seq<T>, other: Seq<T>) -> bool {
    &&& forall|i: int| 0 <= i < one.len() ==> other.contains(#[trigger] one[i])
    &&& forall|j: int| 0 <= j < other.len() ==> one.contains(#[trigger] other[j])
}

/// Drops the files whose path is the path of the file kept before them.
pub fn drop_repeated_paths(files: Vec<DiscoveredFile>) -> (r: Vec<DiscoveredFile>)
    ensures
        r.deep_view() == without_repeated_paths(files.deep_view()),
{
    let ghost all = files.deep_view();
    let mut rest = files;
    let mut kept: Vec<DiscoveredFile> = Vec::new();
    let ghost mut done: int = 0;
    assert(all.skip(0) == all);
    assert(kept.deep_view() == Seq::<DiscoveredFileView>::empty());
    assert(all.take(0).len() == 0);
    while rest.len() > 0
        invariant
            0 <= done <= all.len(),
            rest.len() + done == all.len(),
            rest.deep_view() == all.skip(done),
            kept.deep_view() == without_repeated_paths(all.take(done)),
        decreases rest.len(),
    {
        let ghost rest_before = rest@;
        let ghost before = kept.deep_view();
        assert(rest.deep_view()[0] == rest@[0]@);
        assert(all.take(done + 1).drop_last() == all.take(done));
        assert(all.take(done + 1).last() == rest@[0]@);
        let file = rest.remove(0);
        proof {
            lemma_rest_without_first(rest_before, rest@);
            assert(all.skip(done).skip(1) == all.skip(done + 1));
        }
        let repeated = kept.len() > 0 && same_text(
            kept[kept.len() - 1].path.as_str(),
            file.path.as_str(),
        );
        assert(kept.len() > 0 ==> before.last() == kept@[kept.len() - 1]@);
        if !repeated {
            kept.push(file);
            assert(kept.deep_view() == before.push(file@));
        }
        proof {
            done = done + 1;
        }
    }
    assert(all.take(done) == all);
    kept
}

/// Sorts `files` by path and keeps each path once.
pub fn arrange(files: Vec<DiscoveredFile>) -> (r: Vec<DiscoveredFile>)
    ensures
        r.deep_view() == arranged(files.deep_view()),
{
    drop_repeated_paths(sort_by_path(files))
}

/// The front of an ordered sequence is ordered.
pub proof fn lemma_front_is_ordered(files: Seq<DiscoveredFileView>)
    requires
        files.len() > 0,
        is_ordered(files),
    ensures
        is_ordered(files.drop_last()),
{
    let front = files.drop_last();
    assert forall|i: int, j: int| 0 <= i < j < front.len() implies !precedes(
        #[trigger] front[j].path,
        #[trigger] front[i].path,
    ) by {
        assert(front[i] == files[i] && front[j] == files[j]);
    }
}

/// What is kept of a sequence is part of it.
pub proof fn lemma_without_repeats_is_part(files: Seq<DiscoveredFileView>)
    ensures
        forall|k: int|
            0 <= k < without_repeated_paths(files).len() ==> files.contains(
                #[trigger] without_repeated_paths(files)[k],
            ),
    decreases files.len(),
{
    if files.len() > 0 {
        let front = files.drop_last();
        let kept = without_repeated_paths(front);
        lemma_without_repeats_is_part(front);
        assert forall|k: int| 0 <= k < without_repeated_paths(files).len() implies files.contains(
            #[trigger] without_repeated_paths(files)[k],
        ) by {
            if k < kept.len() {
                let found = choose|i: int| 0 <= i < front.len() && front[i] == kept[k];
                assert(files[found] == kept[k]);
            } else {
                assert(files[files.len() - 1] == without_repeated_paths(files)[k]);
            }
        }
    }
}

/// An ordered sequence without its repeated paths is strictly ordered.
pub proof fn lemma_without_repeats_is_strict(files: Seq<DiscoveredFileView>)
    requires
        is_ordered(files),
    ensures
        is_strictly_ordered(without_repeated_paths(files)),
    decreases files.len(),
{
    if files.len() > 0 {
        let front = files.drop_last();
        let kept = without_repeated_paths(front);
        let last = files.last();
        lemma_front_is_ordered(files);
        lemma_without_repeats_is_strict(front);
        lemma_without_repeats_is_part(front);
        let all = without_repeated_paths(files);
        assert forall|i: int, j: int| 0 <= i < j < all.len() implies precedes(
            #[trigger] all[i].path,
            #[trigger] all[j].path,
        ) by {
            if j < kept.len() {
                assert(all[i] == kept[i] && all[j] == kept[j]);
            } else {
                // The last file was kept: its path is not that of the file before it.
                assert(all[j] == last);
                assert(all[i] == kept[i]);
                let top = kept.last();
                let found = choose|k: int| 0 <= k < front.len() && front[k] == top;
                assert(files[found] == top);
                assert(!precedes(files[files.len() - 1].path, files[found].path));
                crate::text::lemma_precedes_total(top.path, last.path);
                assert(precedes(top.path, last.path));
                if i < kept.len() - 1 {
                    assert(precedes(kept[i].path, kept[kept.len() - 1].path));
                    crate::text::lemma_precedes_transitive(kept[i].path, top.path, last.path);
                }
            }
        }
    }
}

/// A strictly ordered sequence has no repeated paths.
pub proof fn lemma_strict_has_no_repeats(files: Seq<DiscoveredFileView>)
    requires
        is_strictly_ordered(files),
    ensures
        without_repeated_paths(files) == files,
    decreases files.len(),
{
    if files.len() > 0 {
        let front = files.drop_last();
        assert(is_strictly_ordered(front)) by {
            assert forall|i: int, j: int| 0 <= i < j < front.len() implies precedes(
                #[trigger] front[i].path,
                #[trigger] front[j].path,
            ) by {
                assert(front[i] == files[i] && front[j] == files[j]);
            }
        }
        lemma_strict_has_no_repeats(front);
        if front.len() > 0 {
            assert(precedes(files[files.len() - 2].path, files[files.len() - 1].path));
            crate::text::lemma_precedes_irreflexive(files.last().path);
        }
        assert(front.push(files.last()) == files);
    }
}

/// Two strictly ordered sequences that hold the same files are equal.
pub proof fn lemma_strict_order_is_unique_by_content(
    one: Seq<DiscoveredFileView>,
    other: Seq<DiscoveredFileView>,
)
    requires
        is_strictly_ordered(one),
        is_strictly_ordered(other),
        are_the_same_files(one, other),
    ensures
        one == other,
    decreases one.len(),
{
    if one.len() == 0 {
        if other.len() > 0 {
            assert(one.contains(other[0]));
        }
        assert(one =~= other);
    } else {
        let n = one.len() as int;
        let x = one.last();
        assert(other.contains(one[n - 1]));
        let m = other.len() as int;
        let y = other.last();
        assert(one.contains(other[m - 1]));
        let j = choose|j: int| 0 <= j < other.len() && other[j] == x;
        let i = choose|i: int| 0 <= i < one.len() && one[i] == y;
        if j < m - 1 && i < n - 1 {
            assert(precedes(other[j].path, other[m - 1].path));
            assert(precedes(one[i].path, one[n - 1].path));
            crate::text::lemma_precedes_asymmetric(x.path, y.path);
        }
        assert(x == y);
        let front = one.drop_last();
        let back = other.drop_last();
        assert(is_strictly_ordered(front)) by {
            assert forall|a: int, b: int| 0 <= a < b < front.len() implies precedes(
                #[trigger] front[a].path,
                #[trigger] front[b].path,
            ) by {
                assert(front[a] == one[a] && front[b] == one[b]);
            }
        }
        assert(is_strictly_ordered(back)) by {
            assert forall|a: int, b: int| 0 <= a < b < back.len() implies precedes(
                #[trigger] back[a].path,
                #[trigger] back[b].path,
            ) by {
                assert(back[a] == other[a] && back[b] == other[b]);
            }
        }
        assert(are_the_same_files(front, back)) by {
            assert forall|a: int| 0 <= a < front.len() implies back.contains(
                #[trigger] front[a],
            ) by {
                assert(front[a] == one[a]);
                assert(other.contains(one[a]));
                let b = choose|b: int| 0 <= b < other.len() && other[b] == one[a];
                assert(precedes(one[a].path, one[n - 1].path));
                crate::text::lemma_precedes_irreflexive(x.path);
                assert(b < m - 1);
                assert(back[b] == front[a]);
            }
            assert forall|b: int| 0 <= b < back.len() implies front.contains(
                #[trigger] back[b],
            ) by {
                assert(back[b] == other[b]);
                assert(one.contains(other[b]));
                let a = choose|a: int| 0 <= a < one.len() && one[a] == other[b];
                assert(precedes(other[b].path, other[m - 1].path));
                crate::text::lemma_precedes_irreflexive(y.path);
                assert(a < n - 1);
                assert(front[a] == back[b]);
            }
        }
        lemma_strict_order_is_unique_by_content(front, back);
        assert(front.push(x) == one);
        assert(back.push(y) == other);
    }
}

/// Sorting keeps the files: what is in the sorted sequence was there
/// before, and what was there is in the sorted sequence.
pub proof fn lemma_sorted_holds_the_same_files(files: Seq<DiscoveredFileView>)
    ensures
        are_the_same_files(files, sorted_by_path(files)),
{
    lemma_sorted_is_permutation(files);
    let sorted = sorted_by_path(files);
    assert forall|i: int| 0 <= i < files.len() implies sorted.contains(#[trigger] files[i]) by {
        vstd::seq_lib::to_multiset_contains(files, files[i]);
        vstd::seq_lib::to_multiset_contains(sorted, files[i]);
        assert(files.contains(files[i]));
    }
    assert forall|j: int| 0 <= j < sorted.len() implies files.contains(#[trigger] sorted[j]) by {
        vstd::seq_lib::to_multiset_contains(files, sorted[j]);
        vstd::seq_lib::to_multiset_contains(sorted, sorted[j]);
        assert(sorted.contains(sorted[j]));
    }
}

/// What discovery hands on is strictly ordered by path: no path comes
/// twice, and each path comes before all the paths behind it.
pub proof fn lemma_arranged_is_strictly_ordered(files: Seq<DiscoveredFileView>)
    ensures
        is_strictly_ordered(arranged(files)),
{
    lemma_sorted_is_ordered(files);
    lemma_without_repeats_is_strict(sorted_by_path(files));
}

/// What discovery hands on does not depend on the order in which the
/// files were found, where no two of them have the same path.
pub proof fn lemma_arranged_is_independent_of_enumeration(
    one: Seq<DiscoveredFileView>,
    other: Seq<DiscoveredFileView>,
)
    requires
        are_the_same_files(one, other),
        has_distinct_paths(one),
        has_distinct_paths(other),
    ensures
        arranged(one) == arranged(other),
{
    let first = sorted_by_path(one);
    let second = sorted_by_path(other);
    lemma_sorted_is_strictly_ordered(one);
    lemma_sorted_is_strictly_ordered(other);
    lemma_sorted_holds_the_same_files(one);
    lemma_sorted_holds_the_same_files(other);
    assert(are_the_same_files(first, second)) by {
        assert forall|i: int| 0 <= i < first.len() implies second.contains(
            #[trigger] first[i],
        ) by {
            assert(one.contains(first[i]));
            let a = choose|a: int| 0 <= a < one.len() && one[a] == first[i];
            assert(other.contains(one[a]));
            let b = choose|b: int| 0 <= b < other.len() && other[b] == one[a];
            assert(second.contains(other[b]));
        }
        assert forall|j: int| 0 <= j < second.len() implies first.contains(
            #[trigger] second[j],
        ) by {
            assert(other.contains(second[j]));
            let b = choose|b: int| 0 <= b < other.len() && other[b] == second[j];
            assert(one.contains(other[b]));
            let a = choose|a: int| 0 <= a < one.len() && one[a] == other[b];
            assert(first.contains(one[a]));
        }
    }
    lemma_strict_order_is_unique_by_content(first, second);
    lemma_strict_has_no_repeats(first);
}

/// Where all of `files` are read, each file that is handed on is the file
/// that was found in the same place, decoded, under the same path.
pub proof fn lemma_sources_read_one_by_one(files: Seq<SourceFileView>)
    requires
        sources_read(files) is Ok,
    ensures
        sources_read(files)->Ok_0.len() == files.len(),
        forall|k: int|
            0 <= k < files.len() ==> source_read(#[trigger] files[k]) == Ok::<
                DiscoveredFileView,
                DiscoveryErrorView,
            >(sources_read(files)->Ok_0[k]) && sources_read(files)->Ok_0[k].path == files[k].path,
{
    let read = |file: SourceFileView| source_read(file);
    assert forall|k: int| 0 <= k < files.len() implies (#[trigger] read(files[k])) is Ok by {
        if read(files[k]) is Err {
            lemma_try_map_any_failure(files, read, k);
        }
    }
    lemma_try_map_success(files, read);
    assert forall|k: int| 0 <= k < files.len() implies source_read(#[trigger] files[k]) == Ok::<
        DiscoveredFileView,
        DiscoveryErrorView,
    >(sources_read(files)->Ok_0[k]) && sources_read(files)->Ok_0[k].path == files[k].path by {
        assert(read(files[k]) is Ok);
        assert(try_map(files, read)->Ok_0[k] == read(files[k])->Ok_0);
    }
}

/// The same files, found in two orders and with no path twice, are read to
/// the same files, with no path twice.
pub proof fn lemma_sources_read_in_any_order(one: Seq<SourceFileView>, other: Seq<SourceFileView>)
    requires
        sources_read(one) is Ok,
        are_the_same_files(one, other),
        are_distinct(one),
        are_distinct(other),
    ensures
        sources_read(other) is Ok,
        are_the_same_files(sources_read(one)->Ok_0, sources_read(other)->Ok_0),
        has_distinct_paths(sources_read(one)->Ok_0),
        has_distinct_paths(sources_read(other)->Ok_0),
{
    let read = |file: SourceFileView| source_read(file);
    lemma_sources_read_one_by_one(one);
    assert forall|k: int| 0 <= k < other.len() implies (#[trigger] read(other[k])) is Ok by {
        assert(one.contains(other[k]));
        let a = choose|a: int| 0 <= a < one.len() && one[a] == other[k];
        assert(source_read(one[a]) is Ok);
    }
    lemma_try_map_success(other, read);
    lemma_sources_read_one_by_one(other);
    let first = sources_read(one)->Ok_0;
    let second = sources_read(other)->Ok_0;
    assert forall|i: int| 0 <= i < first.len() implies second.contains(#[trigger] first[i]) by {
        assert(other.contains(one[i]));
        let b = choose|b: int| 0 <= b < other.len() && other[b] == one[i];
        assert(source_read(other[b]) == source_read(one[i]));
        assert(second[b] == first[i]);
    }
    assert forall|j: int| 0 <= j < second.len() implies first.contains(#[trigger] second[j]) by {
        assert(one.contains(other[j]));
        let a = choose|a: int| 0 <= a < one.len() && one[a] == other[j];
        assert(source_read(one[a]) == source_read(other[j]));
        assert(first[a] == second[j]);
    }
    assert forall|i: int, j: int|
        0 <= i < first.len() && 0 <= j < first.len() && i != j implies (#[trigger] first[i]).path
        != (#[trigger] first[j]).path by {
        assert(one[i].path != one[j].path);
    }
    assert forall|i: int, j: int|
        0 <= i < second.len() && 0 <= j < second.len() && i != j implies (
    #[trigger] second[i]).path != (#[trigger] second[j]).path by {
        assert(other[i].path != other[j].path);
    }
}

/// The paths and containers of strictly ordered files are strictly ordered.
pub proof fn lemma_pairs_of_strictly_ordered(files: Seq<DiscoveredFileView>)
    requires
        is_strictly_ordered(files),
    ensures
        are_strictly_ordered(pairs_of(files)),
{
    assert forall|i: int, j: int| 0 <= i < j < pairs_of(files).len() implies precedes(
        (#[trigger] pairs_of(files)[i]).0,
        (#[trigger] pairs_of(files)[j]).0,
    ) by {
        assert(precedes(files[i].path, files[j].path));
    }
}

} // verus!
