use drawio_exporter::decode::FailureKind;
use drawio_exporter::explorer::filesystem::{
    collect_files_from_filesystem, is_drawio_file_has_been_updated,
    is_drawio_file_older_than_exported_files, only_keep_changed_drawio_files, FilterOptions,
    WalkEntry,
};
use drawio_exporter::explorer::git_repository::{
    collect_files_from_git, ChangedFile, RepositoryLookup,
};
use drawio_exporter::explorer::{
    arrange, drop_repeated_paths, find_insertion_point, into_pairs, read_source, read_sources,
    sort_by_path, DiscoveredFile,
    DiscoveryError, ExportedFile, FileStamp, ModifiedDate, SourceFile,
};
use drawio_exporter::mxfile::Mxfile;

const PAGE: &str = "<mxfile><diagram id=\"a\" name=\"b\"/></mxfile>";

fn at(seconds: i128) -> Option<ModifiedDate> {
    Some(ModifiedDate { nanoseconds: seconds * 1_000_000_000 })
}

fn unseen() -> FileStamp {
    FileStamp { modified: None, canonical: None, exported: vec![] }
}

fn exported(path: &str, modified: Option<ModifiedDate>) -> ExportedFile {
    ExportedFile { is_file: true, canonical: Some(path.to_string()), modified }
}

fn stamp(path: &str, modified: Option<ModifiedDate>, exported: Vec<ExportedFile>) -> FileStamp {
    FileStamp { modified, canonical: Some(path.to_string()), exported }
}

fn source(path: &str, content: &str) -> SourceFile {
    SourceFile { path: path.to_string(), content: Ok(content.to_string()), stamp: unseen() }
}

fn discovered(path: &str, stamp: FileStamp) -> DiscoveredFile {
    DiscoveredFile { path: path.to_string(), mxfile: Mxfile { diagrams: vec![] }, stamp }
}

fn paths(found: &[(String, Mxfile)]) -> Vec<&str> {
    found.iter().map(|(path, _)| path.as_str()).collect()
}

#[test]
fn filter_options_are_built_as_asked() {
    let none = FilterOptions::no_filtering();
    assert!(!none.on_changes());
    assert_eq!(none.folder(), "");
    let some = FilterOptions::filter_on("export");
    assert!(some.on_changes());
    assert_eq!(some.folder(), "export");
}

#[test]
fn only_regular_files_with_the_extension_are_collected() {
    let entry = |path: &str, is_file: bool| WalkEntry { path: path.to_string(), is_file };
    let entries = vec![
        entry("tree", false),
        entry("tree/file1.drawio", true),
        entry("tree/folder.drawio", false),
        entry("tree/readme.md", true),
        entry("tree/.drawio", true),
        entry("tree/a.drawio.bak", true),
        entry("tree/folder1/file2.1.drawio", true),
        entry("tree/x.DRAWIO", true),
        entry("tree.drawio/x", true),
    ];
    assert_eq!(
        collect_files_from_filesystem(&entries),
        vec!["tree/file1.drawio".to_string(), "tree/folder1/file2.1.drawio".to_string()]
    );
    assert_eq!(collect_files_from_filesystem(&vec![]), Vec::<String>::new());
}

#[test]
fn results_are_sorted_by_path() {
    let files = vec![source("b/x.drawio", PAGE), source("a/y.drawio", PAGE)];
    let found =
        drawio_exporter::explorer::filesystem::explore_path(files, FilterOptions::no_filtering())
            .unwrap();
    assert_eq!(paths(&found), vec!["a/y.drawio", "b/x.drawio"]);
    assert_eq!(found[0].1.diagrams.len(), 1);

    let files = vec![source("a/y.drawio", PAGE), source("b/x.drawio", PAGE)];
    let again =
        drawio_exporter::explorer::filesystem::explore_path(files, FilterOptions::no_filtering())
            .unwrap();
    assert_eq!(found, again);
}

#[test]
fn paths_are_compared_code_point_by_code_point() {
    let files = vec![
        source("tree/folder2/folder3/file3.drawio", ""),
        source("tree/folder1/file2.2.drawio", ""),
        source("tree/file1.drawio", ""),
        source("tree/folder1/file2.1.drawio", ""),
        source("tree-x/a.drawio", ""),
        source("tree/File.drawio", ""),
        source("tree", ""),
        source("\u{e9}.drawio", ""),
        source("z.drawio", ""),
    ];
    let found = drawio_exporter::explorer::git_repository::explore_path(files).unwrap();
    assert_eq!(
        paths(&found),
        vec![
            "tree",
            "tree-x/a.drawio",
            "tree/File.drawio",
            "tree/file1.drawio",
            "tree/folder1/file2.1.drawio",
            "tree/folder1/file2.2.drawio",
            "tree/folder2/folder3/file3.drawio",
            "z.drawio",
            "\u{e9}.drawio",
        ]
    );
}

#[test]
fn sorting_is_stable() {
    let first = discovered("same", stamp("/one", None, vec![]));
    let second = discovered("same", stamp("/two", None, vec![]));
    let sorted = sort_by_path(vec![discovered("z", unseen()), first.clone(), second.clone()]);
    assert_eq!(sorted, vec![first, second, discovered("z", unseen())]);
    assert_eq!(find_insertion_point(&sorted, "same"), 0);
    assert_eq!(find_insertion_point(&sorted, "t"), 2);
    assert_eq!(find_insertion_point(&sorted, "zz"), 3);
    assert_eq!(
        into_pairs(sorted).iter().map(|(p, _)| p.clone()).collect::<Vec<String>>(),
        vec!["same", "same", "z"]
    );
}

#[test]
fn the_first_file_that_fails_ends_discovery() {
    let unreadable = SourceFile {
        path: "b.drawio".to_string(),
        content: Err("denied".to_string()),
        stamp: unseen(),
    };
    let files = vec![source("c.drawio", PAGE), unreadable, source("a.drawio", "<mxfile>")];
    match drawio_exporter::explorer::filesystem::explore_path(files, FilterOptions::no_filtering())
    {
        Err(DiscoveryError::Io { path, cause }) => {
            assert_eq!(path, "b.drawio");
            assert_eq!(cause, "denied");
        }
        other => panic!("unexpected {:?}", other),
    }
    let files = vec![source("c.drawio", PAGE), source("a.drawio", "<mxfile>")];
    match drawio_exporter::explorer::git_repository::explore_path(files) {
        Err(DiscoveryError::Decode(error)) => {
            assert_eq!(error.path, "a.drawio");
            assert_eq!(error.compressed.kind(), FailureKind::Markup);
            assert_eq!(error.raw.kind(), FailureKind::Markup);
        }
        other => panic!("unexpected {:?}", other),
    }
    assert!(read_source(source("a.drawio", "")).is_ok());
    assert_eq!(read_sources(vec![]).unwrap(), vec![]);
}

#[test]
fn first_run() {
    // No export folder: the file is exported.
    let before = stamp("/tmp/tree/file1.drawio", at(100), vec![]);
    assert!(is_drawio_file_has_been_updated(&before));
    // Exports written after the file: nothing to do.
    let after = stamp(
        "/tmp/tree/file1.drawio",
        at(100),
        vec![
            exported("/tmp/tree/export/file1-Page-1.pdf", at(101)),
            exported("/tmp/tree/export/file1-Page-2.pdf", at(102)),
        ],
    );
    assert!(!is_drawio_file_has_been_updated(&after));
}

#[test]
fn staleness_follows_the_modification_times() {
    let exports = |first: i128, second: i128| {
        vec![
            exported("/tmp/tree/export/file1-Page-1.pdf", at(first)),
            exported("/tmp/tree/export/file1-Page-2.pdf", at(second)),
        ]
    };
    let path = "/tmp/tree/file1.drawio";
    // As recent as the file counts as current.
    assert!(!is_drawio_file_has_been_updated(&stamp(path, at(100), exports(100, 100))));
    // One export older than the file is enough.
    assert!(is_drawio_file_has_been_updated(&stamp(path, at(100), exports(100, 99))));
    assert!(is_drawio_file_has_been_updated(&stamp(path, at(7300), exports(100, 100))));
    // Nanoseconds count.
    let modified = Some(ModifiedDate { nanoseconds: 100_000_000_001 });
    assert!(is_drawio_file_has_been_updated(&stamp(path, modified, exports(100, 101))));
    // Times that cannot be read are taken as a change.
    assert!(is_drawio_file_has_been_updated(&stamp(path, None, exports(200, 200))));
    let unreadable = vec![exported("/tmp/tree/export/file1-Page-1.pdf", None)];
    assert!(is_drawio_file_has_been_updated(&stamp(path, at(100), unreadable)));
    assert!(is_drawio_file_older_than_exported_files(
        &stamp(path, at(1), exports(100, 100)),
        ModifiedDate { nanoseconds: 100_000_000_001 }
    ));
}

#[test]
fn exports_are_matched_by_the_start_of_their_stem() {
    let path = "/tmp/tree/file1.drawio";
    // Exports of other files do not count.
    let others = vec![
        exported("/tmp/tree/export/file2-Page-1.pdf", at(1)),
        exported("/tmp/tree/export/other.pdf", at(1)),
    ];
    assert!(is_drawio_file_has_been_updated(&stamp(path, at(100), others.clone())));
    let mut with_own = others;
    with_own.push(exported("/tmp/tree/export/file1-Page-1.pdf", at(200)));
    assert!(!is_drawio_file_has_been_updated(&stamp(path, at(100), with_own)));
    // Directories do not count.
    let folder = ExportedFile {
        is_file: false,
        canonical: Some("/tmp/tree/export/file1".to_string()),
        modified: at(1),
    };
    let with_folder = vec![folder, exported("/tmp/tree/export/file1.pdf", at(100))];
    assert!(!is_drawio_file_has_been_updated(&stamp(path, at(100), with_folder)));
    // An export of `file10` is taken for an export of `file1`.
    let similar = vec![
        exported("/tmp/tree/export/file1-Page-1.pdf", at(200)),
        exported("/tmp/tree/export/file10-Page-1.pdf", at(50)),
    ];
    assert!(is_drawio_file_has_been_updated(&stamp(path, at(100), similar)));
    // Without a canonical path the stem is empty, and every file matches.
    let nowhere = FileStamp {
        modified: at(100),
        canonical: None,
        exported: vec![exported("/tmp/tree/export/other.pdf", at(50))],
    };
    assert!(is_drawio_file_has_been_updated(&nowhere));
    let unknown = ExportedFile { is_file: true, canonical: None, modified: at(500) };
    assert!(is_drawio_file_has_been_updated(&stamp(path, at(100), vec![unknown])));
}

#[test]
fn only_changed_files_are_kept_in_order() {
    let current = |path: &str| {
        discovered(path, stamp(path, at(100), vec![exported(path, at(100))]))
    };
    let changed = |path: &str| discovered(path, stamp(path, at(100), vec![exported(path, at(1))]));
    let kept = only_keep_changed_drawio_files(vec![
        changed("tree/file1.drawio"),
        current("tree/folder1/file2.1.drawio"),
        changed("tree/folder1/file2.2.drawio"),
        current("tree/folder2/folder3/file3.drawio"),
    ]);
    assert_eq!(
        kept.iter().map(|f| f.path.as_str()).collect::<Vec<&str>>(),
        vec!["tree/file1.drawio", "tree/folder1/file2.2.drawio"]
    );
    assert_eq!(only_keep_changed_drawio_files(vec![]), vec![]);
}

#[test]
fn exploring_on_changes_keeps_the_changed_files() {
    let file = |path: &str, exported_at: i128| SourceFile {
        path: path.to_string(),
        content: Ok(PAGE.to_string()),
        stamp: stamp(path, at(100), vec![exported(path, at(exported_at))]),
    };
    let files = || vec![file("c.drawio", 1), file("b.drawio", 100), file("a.drawio", 99)];
    let found =
        drawio_exporter::explorer::filesystem::explore_path(files(), FilterOptions::filter_on("export"))
            .unwrap();
    assert_eq!(paths(&found), vec!["a.drawio", "c.drawio"]);
    let found =
        drawio_exporter::explorer::filesystem::explore_path(files(), FilterOptions::no_filtering())
            .unwrap();
    assert_eq!(paths(&found), vec!["a.drawio", "b.drawio", "c.drawio"]);
}

#[test]
fn changed_diagram_files_under_the_root_are_collected() {
    let changed = |path: &str, canonical: Option<&str>| ChangedFile {
        path: path.to_string(),
        canonical: canonical.map(|c| c.to_string()),
    };
    let lookup = || RepositoryLookup::Changed {
        files: vec![
            changed("tests/data/types/b.drawio", Some("/repo/tests/data/types/b.drawio")),
            changed("tests/data/types/a.txt", Some("/repo/tests/data/types/a.txt")),
            changed("tests/data/tree/c.drawio", Some("/repo/tests/data/tree/c.drawio")),
            changed("tests/data/types2/d.drawio", Some("/repo/tests/data/types2/d.drawio")),
            changed("tests/data/types/gone.drawio", None),
            changed("tests/data/types/sub/e.drawio", Some("/repo/tests/data/types/sub/e.drawio")),
        ],
    };
    let found =
        collect_files_from_git("tests/data/types", Some("/repo/tests/data/types"), "HEAD", lookup())
            .unwrap();
    assert_eq!(found, vec!["tests/data/types/b.drawio", "tests/data/types/sub/e.drawio"]);
    let found = collect_files_from_git(".", Some("/repo/"), "HEAD", lookup()).unwrap();
    assert_eq!(found.len(), 4);
    let found = collect_files_from_git(".", None, "HEAD", lookup()).unwrap();
    assert_eq!(found, Vec::<String>::new());
}

#[test]
fn failures_of_the_repository_are_told_apart() {
    let cause = || "cause".to_string();
    match collect_files_from_git("dir", None, "HEAD", RepositoryLookup::NoRepository { cause: cause() }) {
        Err(DiscoveryError::RepositoryNotFound { path, cause }) => {
            assert_eq!(path, "dir");
            assert_eq!(cause, "cause");
        }
        other => panic!("unexpected {:?}", other),
    }
    let lookup = RepositoryLookup::NoReference { repository: "/repo/.git".to_string(), cause: cause() };
    match collect_files_from_git("dir", None, "WRONG_REFERENCE", lookup) {
        Err(DiscoveryError::ReferenceNotFound { reference, repository, cause }) => {
            assert_eq!(reference, "WRONG_REFERENCE");
            assert_eq!(repository, "/repo/.git");
            assert_eq!(cause, "cause");
        }
        other => panic!("unexpected {:?}", other),
    }
    let lookup = RepositoryLookup::NoDiff { repository: "/repo/.git".to_string(), cause: cause() };
    match collect_files_from_git("dir", None, "HEAD", lookup) {
        Err(DiscoveryError::DiffComputationFailed { repository, path, cause }) => {
            assert_eq!(repository, "/repo/.git");
            assert_eq!(path, "dir");
            assert_eq!(cause, "cause");
        }
        other => panic!("unexpected {:?}", other),
    }
}

#[test]
fn each_path_comes_once() {
    let first = discovered("same", stamp("/one", None, vec![]));
    let second = discovered("same", stamp("/two", None, vec![]));
    let arranged = arrange(vec![
        discovered("z", unseen()),
        first.clone(),
        discovered("a", unseen()),
        second.clone(),
    ]);
    assert_eq!(arranged, vec![discovered("a", unseen()), first.clone(), discovered("z", unseen())]);
    // Only neighbours are compared.
    let kept = drop_repeated_paths(vec![first.clone(), second.clone(), discovered("z", unseen()), second.clone()]);
    assert_eq!(kept, vec![first, discovered("z", unseen()), second]);
    assert_eq!(drop_repeated_paths(vec![]), vec![]);

    let files = vec![source("b.drawio", PAGE), source("a.drawio", PAGE), source("b.drawio", "")];
    let found =
        drawio_exporter::explorer::filesystem::explore_path(files, FilterOptions::no_filtering())
            .unwrap();
    assert_eq!(paths(&found), vec!["a.drawio", "b.drawio"]);
    assert_eq!(found[1].1.diagrams.len(), 1);
    let files = vec![source("b.drawio", ""), source("a.drawio", PAGE), source("b.drawio", PAGE)];
    let found = drawio_exporter::explorer::git_repository::explore_path(files).unwrap();
    assert_eq!(paths(&found), vec!["a.drawio", "b.drawio"]);
    assert_eq!(found[1].1.diagrams.len(), 0);
}
