use drawio_exporter::mxfile::{
    classify, cleanup_label, link_from_groups, Diagram, Element, Link, MxCell, MxGraphModel,
    Outcome, Root, SkipReason, UserObject,
};

fn cell(value: &str) -> Element {
    Element::MxCell(MxCell { value: Some(value.to_string()) })
}

fn object(label: Option<&str>, link: Option<&str>) -> Element {
    Element::UserObject(UserObject {
        label: label.map(|l| l.to_string()),
        link: link.map(|l| l.to_string()),
    })
}

fn page(elements: Vec<Element>) -> Diagram {
    Diagram {
        id: "id".to_string(),
        name: "Page-1".to_string(),
        mx_graph_model: MxGraphModel { root: Root { elements } },
    }
}

fn pair(target: &str, label: &str) -> (String, String) {
    (target.to_string(), label.to_string())
}

#[test]
fn a_cell_with_an_anchor_gives_target_and_label() {
    let cell = MxCell {
        value: Some("<a href=\"https://github.com/rlespinasse/drawio-exporter\">Text Link 1</a>".to_string()),
    };
    assert_eq!(
        cell.get_link(),
        Some(pair("https://github.com/rlespinasse/drawio-exporter", "Text Link 1"))
    );
}

#[test]
fn a_cell_without_an_anchor_gives_nothing() {
    assert_eq!(MxCell { value: None }.get_link(), None);
    assert_eq!(MxCell { value: Some("plain text".to_string()) }.get_link(), None);
    assert_eq!(MxCell { value: Some("href=".to_string()) }.get_link(), None);
}

#[test]
fn the_label_of_an_anchor_is_normalized() {
    let cell = MxCell {
        value: Some("<a href=\"https://example.org\">  text&nbsp;&nbsp;A\u{a0} </a>".to_string()),
    };
    assert_eq!(cell.get_link(), Some(pair("https://example.org", "text A")));
}

#[test]
fn label_normalization() {
    assert_eq!(cleanup_label("text&nbsp;<b>A</b>".to_string()), "text A");
    assert_eq!(cleanup_label("Link<br>on multiple<br>Lines".to_string()), "Link on multiple Lines");
    assert_eq!(
        cleanup_label(" <i>a</i><u>b</u> <strike>c</strike><span>d</span>\t\n e ".to_string()),
        "a b c d e"
    );
    assert_eq!(cleanup_label("".to_string()), "");
    assert_eq!(cleanup_label(" \u{2003} ".to_string()), "");
    // Tags of any other kind go the same way.
    assert_eq!(cleanup_label("<div>text&nbsp;<b>A</b></div>".to_string()), "text A");
    assert_eq!(
        cleanup_label("<div>a</div><font color=\"#ff0000\">b</font><br/>c".to_string()),
        "a b c"
    );
    // A `<` that opens no tag stays.
    assert_eq!(cleanup_label("1 < 2".to_string()), "1 < 2");
    assert_eq!(cleanup_label("a > b <c".to_string()), "a > b <c");
}

#[test]
fn the_label_of_an_anchor_is_its_inner_markup_cleaned() {
    let cell = MxCell {
        value: Some("<a href=\"https://example.com\"><div>text&nbsp;<b>A</b></div></a>".to_string()),
    };
    assert_eq!(cell.get_link(), Some(pair("https://example.com", "text A")));
    assert_eq!(
        link_from_groups(Some(vec![
            Some("href=\"https://example.com\"><div>text&nbsp;<b>A</b></div></a>".to_string()),
            Some("https://example.com".to_string()),
            Some("<div>text&nbsp;<b>A</b></div>".to_string()),
        ])),
        Some(pair("https://example.com", "text A"))
    );
}

#[test]
fn anchors_are_read_with_tolerance() {
    let link = |value: &str| MxCell { value: Some(value.to_string()) }.get_link();
    // Other attributes, and markup around the anchor.
    assert_eq!(
        link("<p>see <a target=\"_blank\" href=\"https://t\" class=\"x\">the <i>page</i></a> now</p>"),
        Some(pair("https://t", "the page"))
    );
    // A label over several lines.
    assert_eq!(
        link("<a href=\"https://t\">Link<br>on multiple\nLines</a>"),
        Some(pair("https://t", "Link on multiple Lines"))
    );
    // An anchor that is not closed.
    assert_eq!(link("<a href=\"https://t\">open end"), Some(pair("https://t", "open end")));
    // The first anchor is taken.
    assert_eq!(
        link("<a href=\"https://one\">1</a><a href=\"https://two\">2</a>"),
        Some(pair("https://one", "1"))
    );
    // Empty target, empty label.
    assert_eq!(link("<a href=\"\">Empty Link</a>"), Some(pair("", "Empty Link")));
    assert_eq!(link("<a href=\"https://t\"></a>"), Some(pair("https://t", "")));
    // No quoted target, no opening tag that ends.
    assert_eq!(link("<a href=https://t>x</a>"), None);
    assert_eq!(link("href=\"https://t\""), None);
}

#[test]
fn link_from_groups_takes_the_first_two_groups() {
    assert_eq!(link_from_groups(None), None);
    assert_eq!(link_from_groups(Some(vec![Some("all".to_string())])), None);
    assert_eq!(
        link_from_groups(Some(vec![Some("all".to_string()), None, Some("l".to_string())])),
        None
    );
    assert_eq!(
        link_from_groups(Some(vec![
            Some("all".to_string()),
            Some("t".to_string()),
            Some(" l&nbsp;l ".to_string())
        ])),
        Some(pair("t", "l l"))
    );
}

#[test]
fn a_structured_shape_gives_its_link_verbatim() {
    let object = UserObject {
        label: Some(" Shape&nbsp;<b>Link</b> 1 ".to_string()),
        link: Some("https://example.org".to_string()),
    };
    assert_eq!(object.get_link(), Some(pair("https://example.org", " Shape&nbsp;<b>Link</b> 1 ")));
    assert_eq!(UserObject { label: None, link: Some("x".to_string()) }.get_link(), None);
    assert_eq!(UserObject { label: Some("x".to_string()), link: None }.get_link(), None);
}

#[test]
fn get_links_gives_the_accepted_links_in_order() {
    let diagram = page(vec![
        cell("no link"),
        object(Some("Shape"), Some("https://shape")),
        Element::Other,
        cell("<a href=\"https://text\">Text</a>"),
        object(None, Some("https://nolabel")),
        object(Some(""), Some("data:page/id,abc")),
        object(Some("Shape 2"), Some("https://shape2")),
    ]);
    assert_eq!(
        diagram.get_links(),
        vec![
            pair("https://shape", "Shape"),
            pair("https://text", "Text"),
            pair("https://shape2", "Shape 2"),
        ]
    );
    assert_eq!(page(vec![]).get_links(), vec![]);
}

#[test]
fn get_links_leaves_out_what_is_skipped() {
    let none: Vec<(String, String)> = vec![];
    let one = |element: Element| page(vec![element]);
    // A target that names a page.
    let diagram = one(object(Some("Shape Page Link 1"), Some("data:page/id,ywT4ct3H2L5pf33UiNoI")));
    assert_eq!(diagram.get_links(), none);
    assert_eq!(
        diagram.extract().1,
        vec![SkipReason::UnsupportedPageLink {
            label: Some("Shape Page Link 1".to_string()),
            target: Some("data:page/id,ywT4ct3H2L5pf33UiNoI".to_string()),
        }]
    );
    // A label with an empty target.
    let diagram = one(object(Some("Empty Link"), Some("")));
    assert_eq!(diagram.get_links(), none);
    assert_eq!(
        diagram.extract().1,
        vec![SkipReason::MissingTarget {
            label: Some("Empty Link".to_string()),
            target: Some("".to_string())
        }]
    );
    // Label and target both empty: the label is reported, and it alone.
    let diagram = one(object(Some(""), Some("")));
    assert_eq!(diagram.get_links(), none);
    assert_eq!(
        diagram.extract().1,
        vec![SkipReason::MissingLabel { label: Some("".to_string()), target: Some("".to_string()) }]
    );
    // An anchor with empty inner text.
    let diagram = one(cell("<a href=\"https://example.com\"></a>"));
    assert_eq!(diagram.get_links(), none);
    assert_eq!(
        diagram.extract().1,
        vec![SkipReason::MissingLabel {
            label: Some("".to_string()),
            target: Some("https://example.com".to_string())
        }]
    );
    // What an element holds is still there to be asked for.
    assert_eq!(
        object(Some(""), Some("data:page/id,abc")).get_link(),
        Some(pair("data:page/id,abc", ""))
    );
    assert_eq!(Element::Other.get_link(), None);
}

#[test]
fn classify_reports_one_reason_by_priority() {
    let some = |text: &str| Some(text.to_string());
    assert_eq!(
        classify(some("l"), some("https://t")),
        Outcome::Link(Link { target: "https://t".to_string(), label: "l".to_string() })
    );
    assert_eq!(
        classify(None, None),
        Outcome::Skipped(SkipReason::MissingLabel { label: None, target: None })
    );
    assert_eq!(
        classify(some(""), some("data:page/id,x")),
        Outcome::Skipped(SkipReason::MissingLabel { label: some(""), target: some("data:page/id,x") })
    );
    assert_eq!(
        classify(some("l"), None),
        Outcome::Skipped(SkipReason::MissingTarget { label: some("l"), target: None })
    );
    assert_eq!(
        classify(some("l"), some("")),
        Outcome::Skipped(SkipReason::MissingTarget { label: some("l"), target: some("") })
    );
    assert_eq!(
        classify(some("l"), some("data:page/id,ywT4ct3H2L5pf33UiNoI")),
        Outcome::Skipped(SkipReason::UnsupportedPageLink {
            label: some("l"),
            target: some("data:page/id,ywT4ct3H2L5pf33UiNoI")
        })
    );
    assert_eq!(
        classify(some("l"), some("data:page/i")),
        Outcome::Link(Link { target: "data:page/i".to_string(), label: "l".to_string() })
    );
}

#[test]
fn missing_label() {
    let diagram = page(vec![cell("<a href=\"https://github.com/rlespinasse/drawio-exporter\"></a>")]);
    let (links, skips) = diagram.extract();
    assert_eq!(links, vec![]);
    assert_eq!(
        skips,
        vec![SkipReason::MissingLabel {
            label: Some("".to_string()),
            target: Some("https://github.com/rlespinasse/drawio-exporter".to_string()),
        }]
    );
}

#[test]
fn page_internal_link() {
    let diagram = page(vec![
        cell("<a href=\"data:page/id,ywT4ct3H2L5pf33UiNoI\">Text Page Link 1</a>"),
        object(Some("Shape Page Link 1"), Some("data:page/id,ywT4ct3H2L5pf33UiNoI")),
    ]);
    let (links, skips) = diagram.extract();
    assert_eq!(links, vec![]);
    assert_eq!(
        skips,
        vec![
            SkipReason::UnsupportedPageLink {
                label: Some("Text Page Link 1".to_string()),
                target: Some("data:page/id,ywT4ct3H2L5pf33UiNoI".to_string()),
            },
            SkipReason::UnsupportedPageLink {
                label: Some("Shape Page Link 1".to_string()),
                target: Some("data:page/id,ywT4ct3H2L5pf33UiNoI".to_string()),
            },
        ]
    );
}

#[test]
fn extract_separates_links_and_reasons_in_order() {
    let diagram = page(vec![
        cell("<a href=\"\">Empty Link</a>"),
        object(Some("Shape Link 1"), Some("https://github.com/rlespinasse/drawio-exporter")),
        cell("nothing"),
        Element::Other,
        object(None, None),
        cell("<a href=\"https://github.com/rlespinasse/drawio-exporter\">Text&nbsp;Link 1</a>"),
        object(Some("only label"), None),
    ]);
    let (links, skips) = diagram.extract();
    assert_eq!(
        links,
        vec![
            Link {
                target: "https://github.com/rlespinasse/drawio-exporter".to_string(),
                label: "Shape Link 1".to_string()
            },
            Link {
                target: "https://github.com/rlespinasse/drawio-exporter".to_string(),
                label: "Text Link 1".to_string()
            },
        ]
    );
    assert_eq!(
        skips,
        vec![
            SkipReason::MissingTarget {
                label: Some("Empty Link".to_string()),
                target: Some("".to_string())
            },
            SkipReason::MissingLabel { label: None, target: None },
            SkipReason::MissingTarget { label: Some("only label".to_string()), target: None },
        ]
    );
    assert_eq!(Element::Other.outcome(), None);
}
