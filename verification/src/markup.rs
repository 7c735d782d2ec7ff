//! The events of a markup document, as the `xml-rs` reader gives them, and
//! the elements that a run of events holds.

use vstd::prelude::*;
use xml::reader::XmlEvent::{
    CData, Characters, Comment, EndDocument, EndElement, ProcessingInstruction, StartDocument,
    StartElement, Whitespace,
};
use xml::reader::{EventReader, ParserConfig};

verus! {

/// The error of the `xml-rs` reader.
#[verifier::external_type_specification]
#[verifier::external_body]
pub struct ExMarkupError(xml::reader::Error);

/// An attribute of an element.
#[derive(Debug, Clone, PartialEq, Eq)]
pub struct Attribute {
    pub name: String,
    pub value: String,
}

/// One event of a markup document.
#[derive(Debug, Clone, PartialEq, Eq)]
pub enum MarkupEvent {
    /// An element opens.
    Open { name: String, attributes: Vec<Attribute> },
    /// The innermost open element closes.
    Close,
    /// Character data.
    Text(String),
    /// Anything else: the start or the end of the document, a processing
    /// instruction.
    Other,
}

/// A [`MarkupEvent`] as a mathematical value.
pub enum EventView {
    Open { name: Seq<char>, attributes: Seq<(Seq<char>, Seq<char>)> },
    Close,
    Text(Seq<char>),
    Other,
}

impl View for Attribute {
    type V = (Seq<char>, Seq<char>);

    open spec fn view(&self) -> (Seq<char>, Seq<char>) {
        (self.name@, self.value@)
    }
}

impl DeepView for Attribute {
    type V = (Seq<char>, Seq<char>);

    open spec fn deep_view(&self) -> (Seq<char>, Seq<char>) {
        self@
    }
}

impl View for MarkupEvent {
    type V = EventView;

    open spec fn view(&self) -> EventView {
        match self {
            MarkupEvent::Open { name, attributes } => EventView::Open {
                name: name@,
                attributes: attributes.deep_view(),
            },
            MarkupEvent::Close => EventView::Close,
            MarkupEvent::Text(text) => EventView::Text(text@),
            MarkupEvent::Other => EventView::Other,
        }
    }
}

impl DeepView for MarkupEvent {
    type V = EventView;

    open spec fn deep_view(&self) -> EventView {
        self@
    }
}

/// The events that the `xml-rs` reader gives for the document `text`, up to
/// and including the end of the document, or `None` where the reader
/// reports an error.
pub uninterp spec fn markup_events(text: Seq<char>) -> Option<Seq<EventView>>;

/// Reads `text` with `xml::reader::EventReader`, configured to trim
/// whitespace, to report whitespace and CDATA as character data, to skip
/// comments and to join adjacent character data. Elements and attributes
/// are given by their local names. The result depends on `text` alone.
#[verifier::external_body]
pub(crate) fn read_markup(text: &str) -> (r: Result<Vec<MarkupEvent>, xml::reader::Error>)
    ensures
        r matches Ok(events) ==> markup_events(text@) == Some(events.deep_view()),
        r is Err ==> markup_events(text@) is None,
{
    let config = ParserConfig::new().trim_whitespace(true).whitespace_to_characters(true).cdata_to_characters(true).ignore_comments(true).coalesce_characters(true);
    let mut events = Vec::new();
    for event in EventReader::new_with_config(text.as_bytes(), config) {
        events.push(match event? {
            StartElement { name, attributes, .. } => MarkupEvent::Open {
                name: name.local_name, attributes: attributes.into_iter().map(|a| Attribute { name: a.name.local_name, value: a.value }).collect(),
            },
            EndElement { .. } => MarkupEvent::Close,
            Characters(text) => MarkupEvent::Text(text),
            StartDocument { .. } | EndDocument | ProcessingInstruction { .. } => MarkupEvent::Other,
            CData(_) | Comment(_) | Whitespace(_) => MarkupEvent::Other,
        });
    }
    Ok(events)
}

/// An element: its name, its attributes, and the events between its opening
/// and its closing.
pub struct Node {
    pub name: Seq<char>,
    pub attributes: Seq<(Seq<char>, Seq<char>)>,
    pub inner: Seq<EventView>,
}

/// `n` and one more, where there is an `n`.
pub open spec fn one_more(n: Option<nat>) -> Option<nat> {
    match n {
        Some(n) => Some(n + 1),
        None => None,
    }
}

/// The number of events in `events` before the `Close` of the element that
/// `events` continues, where `level` elements opened inside it are still
/// open. `None` where `events` ends before that `Close`.
pub open spec fn content_len(events: Seq<EventView>, level: nat) -> Option<nat>
    decreases events.len(),
{
    if events.len() == 0 {
        None
    } else {
        match events[0] {
            EventView::Close => if level == 0 {
                Some(0nat)
            } else {
                one_more(content_len(events.skip(1), (level - 1) as nat))
            },
            EventView::Open { .. } => one_more(content_len(events.skip(1), level + 1)),
            _ => one_more(content_len(events.skip(1), level)),
        }
    }
}

/// The elements that stand in `events` side by side, in order; character
/// data and other events between them are passed over. `None` where an
/// element is not closed or a `Close` has no element to close.
pub open spec fn nodes(events: Seq<EventView>) -> Option<Seq<Node>>
    decreases events.len(),
{
    if events.len() == 0 {
        Some(Seq::empty())
    } else {
        match events[0] {
            EventView::Open { name, attributes } => {
                let found = content_len(events.skip(1), 0);
                let n = found->0 as int;
                if found is Some && n + 2 <= events.len() {
                    let first = Node { name, attributes, inner: events.subrange(1, n + 1) };
                    match nodes(events.skip(n + 2)) {
                        Some(rest) => Some(seq![first] + rest),
                        None => None,
                    }
                } else {
                    None
                }
            },
            EventView::Close => None,
            _ => nodes(events.skip(1)),
        }
    }
}

/// The value of the first attribute called `name`.
pub open spec fn attribute(attributes: Seq<(Seq<char>, Seq<char>)>, name: Seq<char>) -> Option<
    Seq<char>,
>
    decreases attributes.len(),
{
    if attributes.len() == 0 {
        None
    } else if attributes[0].0 == name {
        Some(attributes[0].1)
    } else {
        attribute(attributes.skip(1), name)
    }
}

/// The first element called `name`.
pub open spec fn first_named(nodes: Seq<Node>, name: Seq<char>) -> Option<Node>
    decreases nodes.len(),
{
    if nodes.len() == 0 {
        None
    } else if nodes[0].name == name {
        Some(nodes[0])
    } else {
        first_named(nodes.skip(1), name)
    }
}

/// The place of an element in a vector of events: where it opens and where
/// it closes.
#[derive(Debug, Clone, Copy, PartialEq, Eq)]
pub struct Span {
    pub open: usize,
    pub close: usize,
}

/// Whether `span` is the place of an element of `events` between `from` and `to`.
pub open spec fn is_span(events: Seq<EventView>, span: Span, from: int, to: int) -> bool {
    &&& from <= span.open < span.close < to <= events.len()
    &&& events[span.open as int] is Open
}

/// The element at `span`.
pub open spec fn node_at(events: Seq<EventView>, span: Span) -> Node {
    Node {
        name: events[span.open as int]->name,
        attributes: events[span.open as int]->attributes,
        inner: events.subrange(span.open + 1, span.close as int),
    }
}

/// The elements at `spans`.
pub open spec fn nodes_at(events: Seq<EventView>, spans: Seq<Span>) -> Seq<Node> {
    Seq::new(spans.len(), |k: int| node_at(events, spans[k]))
}

/// `found` moved `by` places to the right.
pub open spec fn moved(found: Option<nat>, by: int) -> Option<int> {
    match found {
        Some(n) => Some(n + by),
        None => None,
    }
}

/// Finds the `Close` of the element whose content starts at `from`.
pub(crate) fn find_close(events: &Vec<MarkupEvent>, from: usize, to: usize) -> (r: Option<usize>)
    requires
        from <= to <= events.len(),
    ensures
        r.is_some() == content_len(events.deep_view().subrange(from as int, to as int), 0).is_some(),
        r matches Some(close) ==> from <= close < to && content_len(
            events.deep_view().subrange(from as int, to as int),
            0,
        ) == Some((close - from) as nat),
{
    let ghost all = events.deep_view();
    let ghost content = all.subrange(from as int, to as int);
    let mut level: usize = 0;
    let mut at: usize = from;
    while at < to
        invariant
            from <= at <= to <= events.len(),
            level <= at - from,
            all == events.deep_view(),
            content == all.subrange(from as int, to as int),
            moved(content_len(content, 0), 0) == moved(
                content_len(all.subrange(at as int, to as int), level as nat),
                at - from,
            ),
        decreases to - at,
    {
        let ghost rest = all.subrange(at as int, to as int);
        assert(rest.skip(1) == all.subrange(at + 1, to as int));
        assert(rest[0] == events@[at as int]@);
        match &events[at] {
            MarkupEvent::Close => {
                if level == 0 {
                    return Some(at);
                }
                level -= 1;
            },
            MarkupEvent::Open { .. } => {
                level += 1;
            },
            _ => {},
        }
        at += 1;
    }
    None
}

/// Finds the elements that stand side by side between `from` and `to`.
pub(crate) fn child_spans(events: &Vec<MarkupEvent>, from: usize, to: usize) -> (r: Option<Vec<Span>>)
    requires
        from <= to <= events.len(),
    ensures
        r.is_some() == nodes(events.deep_view().subrange(from as int, to as int)).is_some(),
        r matches Some(spans) ==> {
            &&& nodes(events.deep_view().subrange(from as int, to as int)) == Some(
                nodes_at(events.deep_view(), spans@),
            )
            &&& forall|k: int|
                0 <= k < spans.len() ==> is_span(
                    events.deep_view(),
                    #[trigger] spans[k],
                    from as int,
                    to as int,
                )
        },
{
    let ghost all = events.deep_view();
    let ghost content = all.subrange(from as int, to as int);
    let mut spans: Vec<Span> = Vec::new();
    let mut at: usize = from;
    assert(nodes_at(all, spans@) + nodes(content)->0 == nodes(content)->0);
    while at < to
        invariant
            from <= at <= to <= events.len(),
            all == events.deep_view(),
            content == all.subrange(from as int, to as int),
            nodes(content).is_some() == nodes(all.subrange(at as int, to as int)).is_some(),
            nodes(content) is Some ==> nodes(content)->0 == nodes_at(all, spans@) + nodes(
                all.subrange(at as int, to as int),
            )->0,
            forall|k: int|
                0 <= k < spans.len() ==> is_span(all, #[trigger] spans[k], from as int, to as int),
        decreases to - at,
    {
        let ghost rest = all.subrange(at as int, to as int);
        let ghost before = nodes_at(all, spans@);
        assert(rest.skip(1) == all.subrange(at + 1, to as int));
        assert(rest[0] == events@[at as int]@);
        match &events[at] {
            MarkupEvent::Open { .. } => {
                match find_close(events, at + 1, to) {
                    None => {
                        return None;
                    },
                    Some(close) => {
                        let span = Span { open: at, close };
                        let ghost n: int = close - (at + 1);
                        assert(rest.subrange(1, n + 1) == all.subrange(at + 1, close as int));
                        assert(rest.skip(n + 2) == all.subrange(close + 1, to as int));
                        spans.push(span);
                        assert(nodes_at(all, spans@) == before.push(node_at(all, span)));
                        assert(nodes(rest) is Some ==> before + (seq![node_at(all, span)] + nodes(
                            rest.skip(n + 2),
                        )->0) == before.push(node_at(all, span)) + nodes(rest.skip(n + 2))->0);
                        at = close + 1;
                    },
                }
            },
            MarkupEvent::Close => {
                return None;
            },
            _ => {
                at += 1;
            },
        }
    }
    assert(nodes_at(all, spans@) + Seq::<Node>::empty() == nodes_at(all, spans@));
    Some(spans)
}

/// Finds the value of the first attribute called `name`.
pub fn find_attribute(attributes: &Vec<Attribute>, name: &str) -> (r: Option<String>)
    ensures
        r.deep_view() == attribute(attributes.deep_view(), name@),
{
    let ghost all = attributes.deep_view();
    let mut at: usize = 0;
    assert(all.skip(0) == all);
    while at < attributes.len()
        invariant
            at <= attributes.len(),
            all == attributes.deep_view(),
            attribute(all, name@) == attribute(all.skip(at as int), name@),
        decreases attributes.len() - at,
    {
        assert(all.skip(at as int).skip(1) == all.skip(at + 1));
        assert(all.skip(at as int)[0] == attributes@[at as int]@);
        if crate::text::same_text(attributes[at].name.as_str(), name) {
            return Some(attributes[at].value.clone());
        }
        at += 1;
    }
    None
}

/// Whether the element at `span` is called `name`.
pub(crate) fn is_named(events: &Vec<MarkupEvent>, span: Span, name: &str) -> (r: bool)
    requires
        is_span(events.deep_view(), span, 0, events.len() as int),
    ensures
        r == (node_at(events.deep_view(), span).name == name@),
{
    assert(events.deep_view()[span.open as int] == events@[span.open as int]@);
    match &events[span.open] {
        MarkupEvent::Open { name: found, .. } => crate::text::same_text(found.as_str(), name),
        _ => false,
    }
}

/// Finds the value of the first attribute called `name` of the element at `span`.
pub(crate) fn attribute_at(events: &Vec<MarkupEvent>, span: Span, name: &str) -> (r: Option<String>)
    requires
        is_span(events.deep_view(), span, 0, events.len() as int),
    ensures
        r.deep_view() == attribute(node_at(events.deep_view(), span).attributes, name@),
{
    assert(events.deep_view()[span.open as int] == events@[span.open as int]@);
    match &events[span.open] {
        MarkupEvent::Open { attributes, .. } => find_attribute(attributes, name),
        _ => None,
    }
}

/// Finds the first of the elements at `spans` that is called `name`.
pub(crate) fn find_named(events: &Vec<MarkupEvent>, spans: &Vec<Span>, name: &str) -> (r: Option<Span>)
    requires
        forall|k: int|
            0 <= k < spans.len() ==> is_span(
                events.deep_view(),
                #[trigger] spans[k],
                0,
                events.len() as int,
            ),
    ensures
        r.is_some() == first_named(nodes_at(events.deep_view(), spans@), name@).is_some(),
        r matches Some(span) ==> spans@.contains(span) && first_named(
            nodes_at(events.deep_view(), spans@),
            name@,
        ) == Some(node_at(events.deep_view(), span)),
{
    let ghost all = nodes_at(events.deep_view(), spans@);
    let mut at: usize = 0;
    assert(all.skip(0) == all);
    while at < spans.len()
        invariant
            at <= spans.len(),
            all == nodes_at(events.deep_view(), spans@),
            first_named(all, name@) == first_named(all.skip(at as int), name@),
            forall|k: int|
                0 <= k < spans.len() ==> is_span(
                    events.deep_view(),
                    #[trigger] spans[k],
                    0,
                    events.len() as int,
                ),
        decreases spans.len() - at,
    {
        assert(all.skip(at as int).skip(1) == all.skip(at + 1));
        assert(all.skip(at as int)[0] == node_at(events.deep_view(), spans@[at as int]));
        if is_named(events, spans[at], name) {
            return Some(spans[at]);
        }
        at += 1;
    }
    None
}

} // verus!
