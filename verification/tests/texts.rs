use drawio_exporter::path::{
    extension_of, file_name_of, file_stem_of, find_last, has_diagram_extension, is_under,
};
use drawio_exporter::text::{
    chars_of, code_point, comes_before, find_first, has_occurrence, has_prefix,
    is_whitespace_char, matches_at, replace_all, replace_tags, same_chars, same_text, string_of,
    trim,
};

fn chars(text: &str) -> Vec<char> {
    text.chars().collect()
}

fn text(chars: Vec<char>) -> String {
    chars.into_iter().collect()
}

#[test]
fn texts_and_characters_convert_both_ways() {
    assert_eq!(chars_of("a\u{e9}\u{1F600}"), vec!['a', '\u{e9}', '\u{1F600}']);
    assert_eq!(chars_of(""), Vec::<char>::new());
    assert_eq!(string_of(&vec!['a', '\u{e9}', '\u{1F600}']), "a\u{e9}\u{1F600}");
    assert!(same_text("abc", "abc"));
    assert!(!same_text("abc", "abd"));
    assert!(!same_text("abc", "ab"));
    assert!(same_chars(&chars(""), &chars("")));
    assert_eq!(code_point('A'), 65);
}

#[test]
fn whitespace_is_the_unicode_property() {
    for c in ['\t', '\n', '\u{b}', '\u{c}', '\r', ' ', '\u{85}', '\u{a0}', '\u{1680}', '\u{2000}',
        '\u{200a}', '\u{2028}', '\u{2029}', '\u{202f}', '\u{205f}', '\u{3000}']
    {
        assert!(is_whitespace_char(c));
        assert!(c.is_whitespace());
    }
    for c in ['a', '\u{8}', '\u{e}', '\u{200b}', '\u{feff}', '\u{1f}', '0'] {
        assert!(!is_whitespace_char(c));
        assert!(!c.is_whitespace());
    }
}

#[test]
fn trim_removes_whitespace_at_both_ends() {
    assert_eq!(text(trim(&chars("  a b \t\n"))), "a b");
    assert_eq!(text(trim(&chars("a"))), "a");
    assert_eq!(text(trim(&chars(" \u{a0} "))), "");
    assert_eq!(text(trim(&chars(""))), "");
}

#[test]
fn replace_all_takes_occurrences_from_the_left() {
    let replace = |text: &str, from: &str, to: &str| {
        let r: String = replace_all(&chars(text), &chars(from), &chars(to)).into_iter().collect();
        r
    };
    assert_eq!(replace("a--b----c", "--", "\\--"), "a\\--b\\--\\--c");
    assert_eq!(replace("aaa", "aa", "b"), "ba");
    assert_eq!(replace("abc", "", "x"), "abc");
    assert_eq!(replace("abc", "abcd", "x"), "abc");
    assert_eq!(replace("a b  c", " ", "-"), "a-b--c");
    assert_eq!(replace("", "a", "b"), "");
    assert_eq!(replace("<b><b>", "<b>", " "), "  ");
    assert_eq!(replace("a--b----c", "--", "\\--"), "a--b----c".replace("--", "\\--"));
}

#[test]
fn occurrences_and_prefixes_are_found() {
    assert!(has_occurrence(&chars("<a href=\"x\">"), &chars("href=")));
    assert!(!has_occurrence(&chars("<a hre f=\"x\">"), &chars("href=")));
    assert!(has_occurrence(&chars("abc"), &chars("")));
    assert!(has_occurrence(&chars(""), &chars("")));
    assert!(!has_occurrence(&chars(""), &chars("a")));
    assert!(has_occurrence(&chars("xxError: "), &chars("Error: ")));
    assert!(has_prefix(&chars("data:page/id,1"), &chars("data:page/id")));
    assert!(!has_prefix(&chars("data:page"), &chars("data:page/id")));
    assert!(has_prefix(&chars("abc"), &chars("")));
    assert!(matches_at(&chars("abcd"), 1, &chars("bc")));
    assert!(!matches_at(&chars("abcd"), 3, &chars("de")));
    assert!(matches_at(&chars("abcd"), 4, &chars("")));
    assert!(!matches_at(&chars("abcd"), 5, &chars("")));
}

#[test]
fn texts_are_ordered_by_code_points() {
    let before = |a: &str, b: &str| comes_before(&chars(a), &chars(b));
    assert!(before("a", "b"));
    assert!(!before("b", "a"));
    assert!(!before("a", "a"));
    assert!(before("", "a"));
    assert!(!before("a", ""));
    assert!(before("a", "ab"));
    assert!(before("Z", "a"));
    assert!(before("a-b", "a/b"));
    assert!(before("z", "\u{e9}"));
    assert!(before("\u{ffff}", "\u{10000}"));
    for (a, b) in [("a/y.ext", "b/x.ext"), ("tree/file1", "tree/file10"), ("\u{ffff}", "\u{10000}")] {
        assert_eq!(before(a, b), a < b);
        assert_eq!(before(b, a), b < a);
    }
}

#[test]
fn the_parts_of_a_path_are_found() {
    assert_eq!(find_last(&chars("a/b/c"), '/'), Some(3));
    assert_eq!(find_last(&chars("abc"), '/'), None);
    assert_eq!(text(file_name_of(&chars("/tmp/tree/file1.drawio"))), "file1.drawio");
    assert_eq!(text(file_name_of(&chars("file1.drawio"))), "file1.drawio");
    assert_eq!(file_stem_of("/tmp/tree/file1.drawio"), "file1");
    assert_eq!(file_stem_of("/tmp/tree/file2.2.drawio"), "file2.2");
    assert_eq!(file_stem_of("/tmp/tree/export/file1-Page-1.pdf"), "file1-Page-1");
    assert_eq!(file_stem_of("/tmp/.hidden"), ".hidden");
    assert_eq!(file_stem_of("/tmp.d/name"), "name");
    assert_eq!(file_stem_of(""), "");
    assert_eq!(extension_of("/tmp/tree/file2.2.drawio"), Some("drawio".to_string()));
    assert_eq!(extension_of("/tmp/.drawio"), None);
    assert_eq!(extension_of("/tmp/a."), Some("".to_string()));
    assert_eq!(extension_of("/tmp.d/name"), None);
    assert!(has_diagram_extension("a/b.drawio"));
    assert!(!has_diagram_extension("a/b.drawio.pdf"));
    assert!(!has_diagram_extension("a/drawio"));
    for path in ["/tmp/tree/file2.2.drawio", "/tmp/.hidden", "/tmp.d/name", "a.b/c.d.e"] {
        let std_path = std::path::Path::new(path);
        assert_eq!(file_stem_of(path), std_path.file_stem().unwrap().to_str().unwrap());
        assert_eq!(
            extension_of(path),
            std_path.extension().map(|e| e.to_str().unwrap().to_string())
        );
    }
}

#[test]
fn a_path_lies_under_a_base_by_whole_components() {
    assert!(is_under("/repo/data/a.drawio", "/repo/data"));
    assert!(is_under("/repo/data/a.drawio", "/repo/data/"));
    assert!(is_under("/repo/data", "/repo/data"));
    assert!(is_under("/repo/data", "/"));
    assert!(!is_under("/repo/data2/a.drawio", "/repo/data"));
    assert!(!is_under("/repo", "/repo/data"));
    assert!(!is_under("/other/data/a.drawio", "/repo/data"));
}

#[test]
fn tags_are_replaced_by_spaces() {
    let replace = |value: &str| text(replace_tags(&chars(value)));
    assert_eq!(replace("<div>a</div>"), " a ");
    assert_eq!(replace("a<br/>b<x y=\"z\">c"), "a b c");
    assert_eq!(replace("<>"), " ");
    assert_eq!(replace("<<b>>"), " >");
    assert_eq!(replace("a < b"), "a < b");
    assert_eq!(replace("a > b"), "a > b");
    assert_eq!(replace(""), "");
    assert_eq!(find_first(&chars("a>b>"), 0, '>'), Some(1));
    assert_eq!(find_first(&chars("a>b>"), 2, '>'), Some(3));
    assert_eq!(find_first(&chars("a>b>"), 4, '>'), None);
    assert_eq!(find_first(&chars("a>b>"), 9, '>'), None);
}
