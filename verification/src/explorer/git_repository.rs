//! Discovery by the changes that a repository records since a reference.

use vstd::prelude::*;
use crate::explorer::{
    are_distinct, are_strictly_ordered, are_the_same_files, arrange, arranged, into_pairs,
    lemma_arranged_is_independent_of_enumeration, lemma_arranged_is_strictly_ordered,
    lemma_pairs_of_strictly_ordered, lemma_sources_read_in_any_order, pairs_of, read_sources,
    sources_read, DiscoveryError, DiscoveryErrorView, SourceFile, SourceFileView,
};
use crate::decode::deep_viewed;
use crate::mxfile::{DiagramView, Mxfile};
use crate::path::{extension, has_diagram_extension, is_under, lies_under, DIAGRAM_EXTENSION};

verus! {

/// A file that changed since the reference.
#[derive(Debug, Clone, PartialEq, Eq)]
pub struct ChangedFile {
    pub path: String,
    /// Its canonical path, where it has one.
    pub canonical: Option<String>,
}

/// What looking up the changes since a reference gave.
#[derive(Debug, Clone, PartialEq, Eq)]
pub enum RepositoryLookup {
    /// No repository encloses the path to explore.
    NoRepository { cause: String },
    /// The reference names nothing in the repository.
    NoReference { repository: String, cause: String },
    /// The changes could not be computed.
    NoDiff { repository: String, cause: String },
    /// The files that changed, in the order of the diff.
    Changed { files: Vec<ChangedFile> },
}

/// A [`RepositoryLookup`] as a mathematical value.
pub enum RepositoryLookupView {
    NoRepository { cause: Seq<char> },
    NoReference { repository: Seq<char>, cause: Seq<char> },
    NoDiff { repository: Seq<char>, cause: Seq<char> },
    Changed { files: Seq<(Seq<char>, Option<Seq<char>>)> },
}

impl View for ChangedFile {
    type V = (Seq<char>, Option<Seq<char>>);

    open spec fn view(&self) -> (Seq<char>, Option<Seq<char>>) {
        (self.path@, self.canonical.deep_view())
    }
}

impl DeepView for ChangedFile {
    type V = (Seq<char>, Option<Seq<char>>);

    open spec fn deep_view(&self) -> (Seq<char>, Option<Seq<char>>) {
        self@
    }
}

impl View for RepositoryLookup {
    type V = RepositoryLookupView;

    open spec fn view(&self) -> RepositoryLookupView {
        match self {
            RepositoryLookup::NoRepository { cause } => RepositoryLookupView::NoRepository {
                cause: cause@,
            },
            RepositoryLookup::NoReference { repository, cause } => {
                RepositoryLookupView::NoReference { repository: repository@, cause: cause@ }
            },
            RepositoryLookup::NoDiff { repository, cause } => RepositoryLookupView::NoDiff {
                repository: repository@,
                cause: cause@,
            },
            RepositoryLookup::Changed { files } => RepositoryLookupView::Changed {
                files: files.deep_view(),
            },
        }
    }
}

/// Whether a changed file is a diagram file below the canonical path
/// `root`. A file without a canonical path lies below nothing, and nothing
/// lies below a root without one.
pub open spec fn is_changed_diagram(
    file: (Seq<char>, Option<Seq<char>>),
    root: Option<Seq<char>>,
) -> bool {
    &&& extension(file.0) == Some(DIAGRAM_EXTENSION@)
    &&& file.1 is Some
    &&& root is Some
    &&& lies_under(file.1->0, root->0)
}

/// The paths of the changed diagram files below `root`, in order.
pub open spec fn changed_paths(
    files: Seq<(Seq<char>, Option<Seq<char>>)>,
    root: Option<Seq<char>>,
) -> Seq<Seq<char>>
    decreases files.len(),
{
    if files.len() == 0 {
        Seq::empty()
    } else if is_changed_diagram(files.last(), root) {
        changed_paths(files.drop_last(), root).push(files.last().0)
    } else {
        changed_paths(files.drop_last(), root)
    }
}

/// The diagram files that changed since `reference` below the path
/// `root_path`, whose canonical path is `root`; or the error that the
/// lookup stands for.
pub open spec fn collected(
    root_path: Seq<char>,
    root: Option<Seq<char>>,
    reference: Seq<char>,
    lookup: RepositoryLookupView,
) -> Result<Seq<Seq<char>>, DiscoveryErrorView> {
    match lookup {
        RepositoryLookupView::NoRepository { cause } => Err(
            DiscoveryErrorView::RepositoryNotFound { path: root_path, cause },
        ),
        RepositoryLookupView::NoReference { repository, cause } => Err(
            DiscoveryErrorView::ReferenceNotFound { reference, repository, cause },
        ),
        RepositoryLookupView::NoDiff { repository, cause } => Err(
            DiscoveryErrorView::DiffComputationFailed { repository, path: root_path, cause },
        ),
        RepositoryLookupView::Changed { files } => Ok(changed_paths(files, root)),
    }
}

/// What exploring `files` gives: the files are read and decoded in their
/// order, and sorted by path with each path once.
pub open spec fn explored(files: Seq<SourceFileView>) -> Result<
    Seq<(Seq<char>, Seq<DiagramView>)>,
    DiscoveryErrorView,
> {
    match sources_read(files) {
        Err(error) => Err(error),
        Ok(found) => Ok(pairs_of(arranged(found))),
    }
}

/// Picks the diagram files below the root among the files that changed
/// since the reference, or reports why the changes are not known.
pub fn collect_files_from_git(
    root_path: &str,
    root_canonical: Option<&str>,
    git_reference: &str,
    lookup: RepositoryLookup,
) -> (r: Result<Vec<String>, DiscoveryError>)
    ensures
        deep_viewed(r) == collected(
            root_path@,
            root_canonical.deep_view(),
            git_reference@,
            lookup@,
        ),
{
    let files = match lookup {
        RepositoryLookup::NoRepository { cause } => {
            return Err(DiscoveryError::RepositoryNotFound { path: root_path.to_owned(), cause });
        },
        RepositoryLookup::NoReference { repository, cause } => {
            return Err(
                DiscoveryError::ReferenceNotFound {
                    reference: git_reference.to_owned(),
                    repository,
                    cause,
                },
            );
        },
        RepositoryLookup::NoDiff { repository, cause } => {
            return Err(
                DiscoveryError::DiffComputationFailed {
                    repository,
                    path: root_path.to_owned(),
                    cause,
                },
            );
        },
        RepositoryLookup::Changed { files } => files,
    };
    let ghost all = files.deep_view();
    let ghost root = root_canonical.deep_view();
    let mut paths: Vec<String> = Vec::new();
    let mut at: usize = 0;
    assert(paths.deep_view() == Seq::<Seq<char>>::empty());
    while at < files.len()
        invariant
            at <= files.len(),
            all == files.deep_view(),
            root == root_canonical.deep_view(),
            paths.deep_view() == changed_paths(all.take(at as int), root),
        decreases files.len() - at,
    {
        assert(all.take(at + 1).drop_last() == all.take(at as int));
        assert(all.take(at + 1).last() == files@[at as int]@);
        let ghost before = paths.deep_view();
        let below = match (&files[at].canonical, root_canonical) {
            (Some(canonical), Some(root)) => is_under(canonical.as_str(), root),
            _ => false,
        };
        if below && has_diagram_extension(files[at].path.as_str()) {
            let path = files[at].path.clone();
            paths.push(path);
            assert(paths.deep_view() == before.push(path@));
        }
        at += 1;
    }
    assert(all.take(files.len() as int) == all);
    Ok(paths)
}

/// Reads and decodes the diagram files that changed, and sorts them by path.
pub fn explore_path(files: Vec<SourceFile>) -> (r: Result<Vec<(String, Mxfile)>, DiscoveryError>)
    ensures
        deep_viewed(r) == explored(files.deep_view()),
{
    match read_sources(files) {
        Ok(found) => Ok(into_pairs(arrange(found))),
        Err(error) => Err(error),
    }
}

/// Exploring twice what was found of an unchanged repository gives the
/// same result both times: the same files in the same order, or the same
/// error.
pub proof fn lemma_exploring_is_repeatable(
    files: Seq<SourceFileView>,
    first: Result<Seq<(Seq<char>, Seq<DiagramView>)>, DiscoveryErrorView>,
    second: Result<Seq<(Seq<char>, Seq<DiagramView>)>, DiscoveryErrorView>,
)
    requires
        first == explored(files),
        second == explored(files),
    ensures
        first == second,
{
}

/// What exploring gives is strictly ordered by path, whatever the order in
/// which the repository lists the changes: each path comes before all the
/// paths behind it, and no path comes twice.
pub proof fn lemma_explored_is_strictly_ordered(files: Seq<SourceFileView>)
    requires
        explored(files) is Ok,
    ensures
        are_strictly_ordered(explored(files)->Ok_0),
{
    lemma_arranged_is_strictly_ordered(sources_read(files)->Ok_0);
    lemma_pairs_of_strictly_ordered(arranged(sources_read(files)->Ok_0));
}

/// The result does not depend on the order in which the repository lists
/// the changes: where the same files, no path twice, are found in
/// different orders, and the files can be read, exploring gives the same.
pub proof fn lemma_explored_is_independent_of_enumeration(
    one: Seq<SourceFileView>,
    other: Seq<SourceFileView>,
)
    requires
        are_the_same_files(one, other),
        are_distinct(one),
        are_distinct(other),
        explored(one) is Ok,
    ensures
        explored(one) == explored(other),
{
    lemma_sources_read_in_any_order(one, other);
    lemma_arranged_is_independent_of_enumeration(
        sources_read(one)->Ok_0,
        sources_read(other)->Ok_0,
    );
}

} // verus!
