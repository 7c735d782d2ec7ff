//! The diagram container: its pages, the elements of a page, and the links
//! that the elements hold.

use vstd::prelude::*;
use crate::pattern::{captures, regex_captures, replace_whitespace_runs, WHITESPACE_RUN};
use crate::text::{
    chars_of, collapse_whitespace, contains, has_no_whitespace, has_occurrence, has_prefix,
    has_single_spaces, is_trimmed, lemma_collapse_has_none, lemma_collapsed_and_trimmed_is_tidy,
    lemma_replaced_has_none, lemma_tags_replaced_has_none, lemma_trimmed_has_none, replace_all,
    replace_tags, replaced, starts_with, string_of, tags_replaced, trim, trimmed,
};

verus! {

/// The text that marks a value as holding an anchor.
pub const ANCHOR_MARKER: &'static str = "href=";

/// The expression that takes the target and the label out of an anchor:
/// the target is what the quotes behind `href=` hold, the label is the
/// markup between the end of the opening tag and the next `</a>` or, where
/// the anchor is not closed, the end of the text.
pub const ANCHOR_PATTERN: &'static str = "(?s)href=\"([^\"]*)\"[^>]*>(.*?)(?:</a>|$)";

/// The prefix of a target that names a page of the same file.
pub const PAGE_LINK_PREFIX: &'static str = "data:page/id";

/// A shape of a page, with the text it shows.
#[derive(Debug, PartialEq, Default, Clone)]
pub struct MxCell {
    pub value: Option<String>,
}

/// A shape that carries structured data: a label and the target of a link.
#[derive(Debug, PartialEq, Default, Clone)]
pub struct UserObject {
    pub label: Option<String>,
    pub link: Option<String>,
}

/// An element of a page.
#[derive(Debug, PartialEq, Clone)]
pub enum Element {
    MxCell(MxCell),
    UserObject(UserObject),
    /// Any other kind of element; it carries no data.
    Other,
}

/// The elements of a page, in document order.
#[derive(Debug, PartialEq, Default, Clone)]
pub struct Root {
    pub elements: Vec<Element>,
}

/// The model of a page.
#[derive(Debug, PartialEq, Default, Clone)]
pub struct MxGraphModel {
    pub root: Root,
}

/// A page of a container.
#[derive(Debug, PartialEq, Default, Clone)]
pub struct Diagram {
    pub id: String,
    pub name: String,
    pub mx_graph_model: MxGraphModel,
}

/// A container: its pages, in document order.
#[derive(Debug, PartialEq, Clone)]
pub struct Mxfile {
    pub diagrams: Vec<Diagram>,
}

/// A page whose model is still one opaque text.
#[derive(Debug, PartialEq, Default, Clone)]
pub struct CompressDiagram {
    pub id: String,
    pub name: String,
    pub raw_diagram: String,
}

/// A container whose pages are still compressed.
#[derive(Debug)]
pub struct MxfileWithCompressDiagrams {
    pub diagrams: Vec<CompressDiagram>,
}

/// An [`Element`] as a mathematical value.
pub enum ElementView {
    MxCell { value: Option<Seq<char>> },
    UserObject { label: Option<Seq<char>>, link: Option<Seq<char>> },
    Other,
}

/// A [`Diagram`] as a mathematical value.
pub struct DiagramView {
    pub id: Seq<char>,
    pub name: Seq<char>,
    pub elements: Seq<ElementView>,
}

/// A [`CompressDiagram`] as a mathematical value.
pub struct CompressDiagramView {
    pub id: Seq<char>,
    pub name: Seq<char>,
    pub raw_diagram: Seq<char>,
}

impl View for MxCell {
    type V = ElementView;

    open spec fn view(&self) -> ElementView {
        ElementView::MxCell { value: self.value.deep_view() }
    }
}

impl View for UserObject {
    type V = ElementView;

    open spec fn view(&self) -> ElementView {
        ElementView::UserObject { label: self.label.deep_view(), link: self.link.deep_view() }
    }
}

impl View for Element {
    type V = ElementView;

    open spec fn view(&self) -> ElementView {
        match self {
            Element::MxCell(cell) => cell@,
            Element::UserObject(object) => object@,
            Element::Other => ElementView::Other,
        }
    }
}

impl DeepView for Element {
    type V = ElementView;

    open spec fn deep_view(&self) -> ElementView {
        self@
    }
}

impl View for Root {
    type V = Seq<ElementView>;

    open spec fn view(&self) -> Seq<ElementView> {
        self.elements.deep_view()
    }
}

impl View for MxGraphModel {
    type V = Seq<ElementView>;

    open spec fn view(&self) -> Seq<ElementView> {
        self.root@
    }
}

impl View for Diagram {
    type V = DiagramView;

    open spec fn view(&self) -> DiagramView {
        DiagramView { id: self.id@, name: self.name@, elements: self.mx_graph_model@ }
    }
}

impl DeepView for Diagram {
    type V = DiagramView;

    open spec fn deep_view(&self) -> DiagramView {
        self@
    }
}

impl View for Mxfile {
    type V = Seq<DiagramView>;

    open spec fn view(&self) -> Seq<DiagramView> {
        self.diagrams.deep_view()
    }
}

impl DeepView for Mxfile {
    type V = Seq<DiagramView>;

    open spec fn deep_view(&self) -> Seq<DiagramView> {
        self@
    }
}

impl View for CompressDiagram {
    type V = CompressDiagramView;

    open spec fn view(&self) -> CompressDiagramView {
        CompressDiagramView { id: self.id@, name: self.name@, raw_diagram: self.raw_diagram@ }
    }
}

impl DeepView for CompressDiagram {
    type V = CompressDiagramView;

    open spec fn deep_view(&self) -> CompressDiagramView {
        self@
    }
}

impl View for MxfileWithCompressDiagrams {
    type V = Seq<CompressDiagramView>;

    open spec fn view(&self) -> Seq<CompressDiagramView> {
        self.diagrams.deep_view()
    }
}

/// The texts that a label loses: the entity of the non-breaking space and the
/// tags of inline formatting, in the order in which they are taken out.
pub open spec fn label_markup() -> Seq<Seq<char>> {
    seq![
        "&nbsp;"@,
        "<br>"@,
        "<b>"@,
        "</b>"@,
        "<u>"@,
        "</u>"@,
        "<i>"@,
        "</i>"@,
        "<strike>"@,
        "</strike>"@,
        "<span>"@,
        "</span>"@,
    ]
}

/// `text` with each occurrence of each of `marks` replaced by one space,
/// one mark after the other.
pub open spec fn without_markup(text: Seq<char>, marks: Seq<Seq<char>>) -> Seq<char>
    decreases marks.len(),
{
    if marks.len() == 0 {
        text
    } else {
        replaced(without_markup(text, marks.drop_last()), marks.last(), seq![' '])
    }
}

/// The label that `text` stands for: the entity of the non-breaking space
/// and the tags of inline formatting are replaced by spaces, then every tag
/// that is left, then runs of whitespace are collapsed to one space and
/// both ends are trimmed.
pub open spec fn clean_label(text: Seq<char>) -> Seq<char> {
    trimmed(collapse_whitespace(tags_replaced(without_markup(text, label_markup()))))
}

/// Normalizes a label taken from free text.
pub fn cleanup_label(text: String) -> (label: String)
    ensures
        label@ == clean_label(text@),
{
    let marks: Vec<&'static str> = vec![
        "&nbsp;",
        "<br>",
        "<b>",
        "</b>",
        "<u>",
        "</u>",
        "<i>",
        "</i>",
        "<strike>",
        "</strike>",
        "<span>",
        "</span>",
    ];
    let ghost all = Seq::new(marks.len() as nat, |k: int| marks[k]@);
    assert(all == label_markup());
    let space = chars_of(" ");
    proof {
        reveal_strlit(" ");
        assert(space@ == seq![' ']);
    }
    let mut current = chars_of(text.as_str());
    let mut at: usize = 0;
    while at < marks.len()
        invariant
            at <= marks.len(),
            all == Seq::new(marks.len() as nat, |k: int| marks[k]@),
            space@ == seq![' '],
            current@ == without_markup(text@, all.take(at as int)),
        decreases marks.len() - at,
    {
        let mark = chars_of(marks[at]);
        assert(all.take(at + 1).drop_last() == all.take(at as int));
        current = replace_all(&current, &mark, &space);
        at += 1;
    }
    assert(all.take(marks.len() as int) == all);
    let plain = string_of(&replace_tags(&current));
    let collapsed = replace_whitespace_runs(WHITESPACE_RUN, plain.as_str(), " ");
    let label = trim(&chars_of(collapsed.as_str()));
    string_of(&label)
}

/// The target and the label that the capture groups of the anchor
/// expression give: the first group is the target, the second the label,
/// which is normalized.
pub open spec fn link_of_groups(groups: Option<Seq<Option<Seq<char>>>>) -> Option<
    (Seq<char>, Seq<char>),
> {
    match groups {
        Some(groups) => if groups.len() >= 3 && groups[1] is Some && groups[2] is Some {
            Some((groups[1]->0, clean_label(groups[2]->0)))
        } else {
            None
        },
        None => None,
    }
}

/// The target and the label of the anchor in the text of a shape.
pub open spec fn cell_link(value: Option<Seq<char>>) -> Option<(Seq<char>, Seq<char>)> {
    match value {
        Some(value) => if contains(value, ANCHOR_MARKER@) {
            link_of_groups(regex_captures(ANCHOR_PATTERN@, value))
        } else {
            None
        },
        None => None,
    }
}

/// The target and the label of a structured shape, as they are stored.
pub open spec fn object_link(label: Option<Seq<char>>, link: Option<Seq<char>>) -> Option<
    (Seq<char>, Seq<char>),
> {
    match (label, link) {
        (Some(label), Some(link)) => Some((link, label)),
        _ => None,
    }
}

/// The target and the label that an element holds.
pub open spec fn element_link(element: ElementView) -> Option<(Seq<char>, Seq<char>)> {
    match element {
        ElementView::MxCell { value } => cell_link(value),
        ElementView::UserObject { label, link } => object_link(label, link),
        ElementView::Other => None,
    }
}

/// Takes the target and the label out of the capture groups of the anchor
/// expression.
pub fn link_from_groups(groups: Option<Vec<Option<String>>>) -> (r: Option<(String, String)>)
    ensures
        r.deep_view() == link_of_groups(groups.deep_view()),
{
    match groups {
        Some(groups) => {
            if groups.len() >= 3 {
                assert(groups.deep_view()[1] == groups@[1].deep_view());
                assert(groups.deep_view()[2] == groups@[2].deep_view());
                match (&groups[1], &groups[2]) {
                    (Some(url), Some(label)) => Some((url.clone(), cleanup_label(label.clone()))),
                    _ => None,
                }
            } else {
                None
            }
        },
        None => None,
    }
}

impl MxCell {
    /// The target and the label of the anchor in the text of the shape, if
    /// the text holds one. Whether the two make a link is for
    /// [`classify`] to say.
    pub fn get_link(&self) -> (r: Option<(String, String)>)
        ensures
            r.deep_view() == cell_link(self.value.deep_view()),
    {
        match &self.value {
            Some(value) => {
                if has_occurrence(&chars_of(value.as_str()), &chars_of(ANCHOR_MARKER)) {
                    MxCell::extract_link(value.as_str())
                } else {
                    None
                }
            },
            None => None,
        }
    }

    /// Applies the anchor expression to `value`.
    pub fn extract_link(value: &str) -> (r: Option<(String, String)>)
        ensures
            r.deep_view() == link_of_groups(regex_captures(ANCHOR_PATTERN@, value@)),
    {
        link_from_groups(captures(ANCHOR_PATTERN, value))
    }
}

impl UserObject {
    /// The target and the label of the shape, where it has both. Neither is
    /// changed. Whether the two make a link is for [`classify`] to say.
    pub fn get_link(&self) -> (r: Option<(String, String)>)
        ensures
            r.deep_view() == object_link(self.label.deep_view(), self.link.deep_view()),
    {
        match (&self.label, &self.link) {
            (Some(label), Some(link)) => Some((link.clone(), label.clone())),
            _ => None,
        }
    }
}

impl Element {
    /// The target and the label that the element holds.
    pub fn get_link(&self) -> (r: Option<(String, String)>)
        ensures
            r.deep_view() == element_link(self@),
    {
        match self {
            Element::MxCell(cell) => cell.get_link(),
            Element::UserObject(object) => object.get_link(),
            Element::Other => None,
        }
    }
}

/// A link of a page: where it leads and what it is called.
#[derive(Debug, PartialEq, Eq, Clone)]
pub struct Link {
    pub target: String,
    pub label: String,
}

/// Why an element that offers a label and a target gives no link. Each reason
/// carries the label and the target as they were found.
#[derive(Debug, PartialEq, Eq, Clone)]
pub enum SkipReason {
    /// The label is absent or empty.
    MissingLabel { label: Option<String>, target: Option<String> },
    /// The label is there; the target is absent or empty.
    MissingTarget { label: Option<String>, target: Option<String> },
    /// Label and target are there; the target names a page of the same file.
    UnsupportedPageLink { label: Option<String>, target: Option<String> },
}

/// What an element that holds a target or a label gives.
#[derive(Debug, PartialEq, Eq, Clone)]
pub enum Outcome {
    Link(Link),
    Skipped(SkipReason),
}

/// A [`Link`] as a mathematical value.
pub struct LinkView {
    pub target: Seq<char>,
    pub label: Seq<char>,
}

/// A [`SkipReason`] as a mathematical value.
pub enum SkipView {
    MissingLabel { label: Option<Seq<char>>, target: Option<Seq<char>> },
    MissingTarget { label: Option<Seq<char>>, target: Option<Seq<char>> },
    UnsupportedPageLink { label: Option<Seq<char>>, target: Option<Seq<char>> },
}

/// An [`Outcome`] as a mathematical value.
pub enum OutcomeView {
    Link(LinkView),
    Skipped(SkipView),
}

impl View for Link {
    type V = LinkView;

    open spec fn view(&self) -> LinkView {
        LinkView { target: self.target@, label: self.label@ }
    }
}

impl DeepView for Link {
    type V = LinkView;

    open spec fn deep_view(&self) -> LinkView {
        self@
    }
}

impl View for SkipReason {
    type V = SkipView;

    open spec fn view(&self) -> SkipView {
        match self {
            SkipReason::MissingLabel { label, target } => SkipView::MissingLabel {
                label: label.deep_view(),
                target: target.deep_view(),
            },
            SkipReason::MissingTarget { label, target } => SkipView::MissingTarget {
                label: label.deep_view(),
                target: target.deep_view(),
            },
            SkipReason::UnsupportedPageLink { label, target } => SkipView::UnsupportedPageLink {
                label: label.deep_view(),
                target: target.deep_view(),
            },
        }
    }
}

impl DeepView for SkipReason {
    type V = SkipView;

    open spec fn deep_view(&self) -> SkipView {
        self@
    }
}

impl View for Outcome {
    type V = OutcomeView;

    open spec fn view(&self) -> OutcomeView {
        match self {
            Outcome::Link(link) => OutcomeView::Link(link@),
            Outcome::Skipped(reason) => OutcomeView::Skipped(reason@),
        }
    }
}

/// Whether `text` is absent or empty.
pub open spec fn is_missing(text: Option<Seq<char>>) -> bool {
    text is None || text->0.len() == 0
}

/// What a label and a target give together. A missing label is reported
/// before a missing target, and a missing target before a target that names
/// a page.
pub open spec fn classified(label: Option<Seq<char>>, target: Option<Seq<char>>) -> OutcomeView {
    if is_missing(label) {
        OutcomeView::Skipped(SkipView::MissingLabel { label, target })
    } else if is_missing(target) {
        OutcomeView::Skipped(SkipView::MissingTarget { label, target })
    } else if starts_with(target->0, PAGE_LINK_PREFIX@) {
        OutcomeView::Skipped(SkipView::UnsupportedPageLink { label, target })
    } else {
        OutcomeView::Link(LinkView { target: target->0, label: label->0 })
    }
}

/// The label and the target that an element offers, in this order. A shape
/// offers them where its text holds an anchor that the anchor expression
/// matches; a structured shape always offers what it stores.
pub open spec fn candidate(element: ElementView) -> Option<
    (Option<Seq<char>>, Option<Seq<char>>),
> {
    match element {
        ElementView::MxCell { value } => match cell_link(value) {
            Some(link) => Some((Some(link.1), Some(link.0))),
            None => None,
        },
        ElementView::UserObject { label, link } => Some((label, link)),
        ElementView::Other => None,
    }
}

/// What an element gives: nothing, a link, or a reason for none.
pub open spec fn outcome_of(element: ElementView) -> Option<OutcomeView> {
    match candidate(element) {
        Some(pair) => Some(classified(pair.0, pair.1)),
        None => None,
    }
}

/// The link that an element gives.
pub open spec fn link_in(element: ElementView) -> Option<LinkView> {
    match outcome_of(element) {
        Some(OutcomeView::Link(link)) => Some(link),
        _ => None,
    }
}

/// The reason for which an element gives no link.
pub open spec fn skip_in(element: ElementView) -> Option<SkipView> {
    match outcome_of(element) {
        Some(OutcomeView::Skipped(reason)) => Some(reason),
        _ => None,
    }
}

/// The links that `elements` give, in order.
pub open spec fn extracted_links(elements: Seq<ElementView>) -> Seq<LinkView> {
    elements.filter_map(|element: ElementView| link_in(element))
}

/// The reasons for which elements of `elements` give no link, in order.
pub open spec fn extracted_skips(elements: Seq<ElementView>) -> Seq<SkipView> {
    elements.filter_map(|element: ElementView| skip_in(element))
}

/// Decides what a label and a target give together.
pub fn classify(label: Option<String>, target: Option<String>) -> (r: Outcome)
    ensures
        r@ == classified(label.deep_view(), target.deep_view()),
{
    let label = match label {
        Some(label) => {
            if label.as_str().is_empty() {
                return Outcome::Skipped(SkipReason::MissingLabel { label: Some(label), target });
            }
            label
        },
        None => {
            return Outcome::Skipped(SkipReason::MissingLabel { label: None, target });
        },
    };
    let target = match target {
        Some(target) => {
            if target.as_str().is_empty() {
                return Outcome::Skipped(
                    SkipReason::MissingTarget { label: Some(label), target: Some(target) },
                );
            }
            target
        },
        None => {
            return Outcome::Skipped(
                SkipReason::MissingTarget { label: Some(label), target: None },
            );
        },
    };
    if has_prefix(&chars_of(target.as_str()), &chars_of(PAGE_LINK_PREFIX)) {
        Outcome::Skipped(
            SkipReason::UnsupportedPageLink { label: Some(label), target: Some(target) },
        )
    } else {
        Outcome::Link(Link { target, label })
    }
}

impl Element {
    /// What the element gives: nothing, a link, or a reason for none.
    pub fn outcome(&self) -> (r: Option<Outcome>)
        ensures
            r is Some == outcome_of(self@) is Some,
            r matches Some(outcome) ==> outcome_of(self@) == Some(outcome@),
    {
        match self {
            Element::MxCell(cell) => match cell.get_link() {
                Some(link) => Some(classify(Some(link.1), Some(link.0))),
                None => None,
            },
            Element::UserObject(object) => Some(
                classify(object.label.clone(), object.link.clone()),
            ),
            Element::Other => None,
        }
    }
}

/// The target and the label of a link, in this order.
pub open spec fn pair_of(link: LinkView) -> (Seq<char>, Seq<char>) {
    (link.target, link.label)
}

/// The links that `elements` give, as pairs of target and label, in order.
/// An element whose label or target is missing, or whose target names a
/// page, gives none.
pub open spec fn links_of(elements: Seq<ElementView>) -> Seq<(Seq<char>, Seq<char>)> {
    Seq::new(extracted_links(elements).len(), |k: int| pair_of(extracted_links(elements)[k]))
}

impl Diagram {
    /// The links of the page and, beside them, the reasons for which
    /// elements of the page give none; both in the order of the elements.
    pub fn extract(&self) -> (r: (Vec<Link>, Vec<SkipReason>))
        ensures
            r.0.deep_view() == extracted_links(self@.elements),
            r.1.deep_view() == extracted_skips(self@.elements),
    {
        let elements = &self.mx_graph_model.root.elements;
        let ghost all = elements.deep_view();
        let mut links: Vec<Link> = Vec::new();
        let mut skips: Vec<SkipReason> = Vec::new();
        let mut at: usize = 0;
        while at < elements.len()
            invariant
                at <= elements.len(),
                all == elements.deep_view(),
                links.deep_view() == extracted_links(all.take(at as int)),
                skips.deep_view() == extracted_skips(all.take(at as int)),
            decreases elements.len() - at,
        {
            assert(all.take(at + 1).drop_last() == all.take(at as int));
            assert(all.take(at + 1).last() == elements@[at as int]@);
            let ghost links_before = links.deep_view();
            let ghost skips_before = skips.deep_view();
            match elements[at].outcome() {
                Some(Outcome::Link(link)) => {
                    links.push(link);
                    assert(links.deep_view() == links_before + seq![link@]);
                },
                Some(Outcome::Skipped(reason)) => {
                    skips.push(reason);
                    assert(skips.deep_view() == skips_before + seq![reason@]);
                },
                None => {},
            }
            at += 1;
        }
        assert(all.take(elements.len() as int) == all);
        (links, skips)
    }

    /// The links of the page, as pairs of target and label, in the order of
    /// the elements that give them.
    pub fn get_links(&self) -> (r: Vec<(String, String)>)
        ensures
            r.deep_view() == links_of(self@.elements),
    {
        let (links, _) = self.extract();
        let mut pairs: Vec<(String, String)> = Vec::new();
        let mut at: usize = 0;
        while at < links.len()
            invariant
                at <= links.len(),
                pairs.len() == at,
                forall|k: int| 0 <= k < at ==> (#[trigger] pairs[k]).deep_view() == pair_of(links[k]@),
            decreases links.len() - at,
        {
            pairs.push((links[at].target.clone(), links[at].label.clone()));
            at += 1;
        }
        assert(pairs.deep_view() =~= links_of(self@.elements));
        pairs
    }
}

/// A label that is absent or empty is reported as missing, whatever the
/// target is, and gives no link.
pub proof fn lemma_missing_label_is_reported(label: Option<Seq<char>>, target: Option<Seq<char>>)
    requires
        is_missing(label),
    ensures
        classified(label, target) == OutcomeView::Skipped(
            SkipView::MissingLabel { label, target },
        ),
{
}

/// With a label, a target that is absent or empty is reported as missing.
pub proof fn lemma_missing_target_is_reported(label: Option<Seq<char>>, target: Option<Seq<char>>)
    requires
        !is_missing(label),
        is_missing(target),
    ensures
        classified(label, target) == OutcomeView::Skipped(
            SkipView::MissingTarget { label, target },
        ),
{
}

/// With a label, a target that names a page of the same file is reported
/// as not supported.
pub proof fn lemma_page_link_is_reported(label: Option<Seq<char>>, target: Option<Seq<char>>)
    requires
        !is_missing(label),
        target is Some,
        starts_with(target->0, PAGE_LINK_PREFIX@),
    ensures
        classified(label, target) == OutcomeView::Skipped(
            SkipView::UnsupportedPageLink { label, target },
        ),
{
    reveal_strlit("data:page/id");
}

/// An element gives a link or a reason for none, never both; an element
/// that gives a reason adds nothing to the links.
pub proof fn lemma_skipped_gives_no_link(element: ElementView)
    ensures
        !(link_in(element) is Some && skip_in(element) is Some),
{
}

/// A structured shape gives its label and its target as they are stored.
pub proof fn lemma_object_link_is_verbatim(label: Seq<char>, link: Seq<char>)
    requires
        label.len() > 0,
        link.len() > 0,
        !starts_with(link, PAGE_LINK_PREFIX@),
    ensures
        link_in(ElementView::UserObject { label: Some(label), link: Some(link) }) == Some(
            LinkView { target: link, label },
        ),
{
}

/// An element that gives a link gives the target and the label that it
/// holds: the links of a page are the pairs of its elements that are
/// accepted.
pub proof fn lemma_link_is_the_pair_of_its_element(element: ElementView)
    requires
        link_in(element) is Some,
    ensures
        element_link(element) == Some(pair_of(link_in(element)->0)),
{
}

/// Each element gives at most one link or one reason: links and reasons
/// together are never more than the elements.
pub proof fn lemma_one_outcome_for_each_element(elements: Seq<ElementView>)
    ensures
        extracted_links(elements).len() + extracted_skips(elements).len() <= elements.len(),
        links_of(elements).len() == extracted_links(elements).len(),
    decreases elements.len(),
{
    if elements.len() > 0 {
        lemma_one_outcome_for_each_element(elements.drop_last());
    }
}

/// Whether each of `marks` holds a character and no whitespace.
pub open spec fn are_plain(marks: Seq<Seq<char>>) -> bool {
    forall|k: int|
        0 <= k < marks.len() ==> (#[trigger] marks[k]).len() > 0 && has_no_whitespace(marks[k])
}

/// The texts that a label loses hold no whitespace.
pub proof fn lemma_label_markup_is_plain()
    ensures
        are_plain(label_markup()),
{
    reveal_strlit("&nbsp;");
    reveal_strlit("<br>");
    reveal_strlit("<b>");
    reveal_strlit("</b>");
    reveal_strlit("<u>");
    reveal_strlit("</u>");
    reveal_strlit("<i>");
    reveal_strlit("</i>");
    reveal_strlit("<strike>");
    reveal_strlit("</strike>");
    reveal_strlit("<span>");
    reveal_strlit("</span>");
}

/// None of the marks occurs in a text from which they were taken out, one
/// after the other.
pub proof fn lemma_without_markup_has_none(text: Seq<char>, marks: Seq<Seq<char>>, k: int)
    requires
        are_plain(marks),
        0 <= k < marks.len(),
    ensures
        !contains(without_markup(text, marks), marks[k]),
    decreases marks.len(),
{
    let inner = without_markup(text, marks.drop_last());
    if k < marks.len() - 1 {
        assert forall|j: int| 0 <= j < marks.drop_last().len() implies (
        #[trigger] marks.drop_last()[j]).len() > 0 && has_no_whitespace(marks.drop_last()[j]) by {
            assert(marks.drop_last()[j] == marks[j]);
        }
        assert(marks.drop_last()[k] == marks[k]);
        lemma_without_markup_has_none(text, marks.drop_last(), k);
    }
    lemma_replaced_has_none(inner, marks.last(), marks[k]);
}

/// A label holds none of the texts that it loses: neither the entity of
/// the non-breaking space nor a tag of inline formatting.
pub proof fn lemma_label_has_no_markup(text: Seq<char>, k: int)
    requires
        0 <= k < label_markup().len(),
    ensures
        !contains(clean_label(text), label_markup()[k]),
{
    let mark = label_markup()[k];
    lemma_label_markup_is_plain();
    lemma_without_markup_has_none(text, label_markup(), k);
    let plain = without_markup(text, label_markup());
    lemma_tags_replaced_has_none(plain, mark);
    lemma_collapse_has_none(tags_replaced(plain), mark);
    lemma_trimmed_has_none(collapse_whitespace(tags_replaced(plain)), mark);
}

/// The label that a shape gives neither starts nor ends with whitespace,
/// no two whitespace characters stand side by side in it, and it holds
/// none of the texts that a label loses.
pub proof fn lemma_label_of_a_cell_is_tidy(value: Option<Seq<char>>)
    ensures
        cell_link(value) matches Some(link) ==> {
            &&& is_trimmed(link.1)
            &&& has_single_spaces(link.1)
            &&& forall|k: int|
                0 <= k < label_markup().len() ==> !contains(link.1, #[trigger] label_markup()[k])
        },
{
    if cell_link(value) is Some {
        let groups = regex_captures(ANCHOR_PATTERN@, value->0)->0;
        let inner = groups[2]->0;
        lemma_collapsed_and_trimmed_is_tidy(tags_replaced(without_markup(inner, label_markup())));
        assert forall|k: int| 0 <= k < label_markup().len() implies !contains(
            clean_label(inner),
            #[trigger] label_markup()[k],
        ) by {
            lemma_label_has_no_markup(inner, k);
        }
    }
}

} // verus!
