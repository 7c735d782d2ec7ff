//! Decoding of a container from the text of a diagram file.
//!
//! A file holds its pages in one of two encodings. In the compressed
//! encoding a page holds one opaque text: base64 of a raw deflate stream
//! of percent-encoded markup. In the raw encoding a page holds its markup
//! directly. The compressed encoding is tried first.

use vstd::prelude::*;
use crate::codec::{
    base64_decode, base64_decoded, inflate, inflated, percent_decode, percent_decoded,
};
use crate::markup::{
    attribute, attribute_at, child_spans, find_named, first_named, is_named, is_span,
    markup_events, node_at, nodes, nodes_at, read_markup, EventView, MarkupEvent, Node, Span,
};
use crate::mxfile::{
    CompressDiagram, CompressDiagramView, Diagram, DiagramView, Element, ElementView, MxCell,
    MxGraphModel, Mxfile, MxfileWithCompressDiagrams, Root, UserObject,
};

verus! {

/// A step of decoding.
#[derive(Debug, Clone, Copy, PartialEq, Eq)]
pub enum DecodeStage {
    Base64,
    Inflate,
    PercentDecode,
    MarkupParse,
}

/// The kind of a [`DecodeFailure`].
#[derive(Debug, Clone, Copy, PartialEq, Eq)]
pub enum FailureKind {
    /// The text is no well-formed markup.
    Markup,
    /// The markup is well-formed, but it does not have the form of a container.
    Structure,
    Base64,
    Inflate,
    PercentDecode,
}

/// Why one way of decoding failed, with the error that caused it.
#[derive(Debug)]
pub enum DecodeFailure {
    /// The text is no well-formed markup.
    Markup(xml::reader::Error),
    /// The markup is well-formed, but it does not have the form of a container.
    Structure,
    Base64(base64::DecodeError),
    Inflate(std::io::Error),
    PercentDecode(std::string::FromUtf8Error),
}

/// Why a file could not be decoded: the failure of each of the two ways,
/// and the path of the file.
#[derive(Debug)]
pub struct ReadError {
    pub path: String,
    pub compressed: DecodeFailure,
    pub raw: DecodeFailure,
}

/// The step at which a failure of a kind occurs.
pub open spec fn stage_of(kind: FailureKind) -> DecodeStage {
    match kind {
        FailureKind::Markup => DecodeStage::MarkupParse,
        FailureKind::Structure => DecodeStage::MarkupParse,
        FailureKind::Base64 => DecodeStage::Base64,
        FailureKind::Inflate => DecodeStage::Inflate,
        FailureKind::PercentDecode => DecodeStage::PercentDecode,
    }
}

impl View for DecodeFailure {
    type V = FailureKind;

    open spec fn view(&self) -> FailureKind {
        match self {
            DecodeFailure::Markup(_) => FailureKind::Markup,
            DecodeFailure::Structure => FailureKind::Structure,
            DecodeFailure::Base64(_) => FailureKind::Base64,
            DecodeFailure::Inflate(_) => FailureKind::Inflate,
            DecodeFailure::PercentDecode(_) => FailureKind::PercentDecode,
        }
    }
}

impl DecodeFailure {
    /// The kind of the failure.
    pub fn kind(&self) -> (r: FailureKind)
        ensures
            r == self@,
    {
        match self {
            DecodeFailure::Markup(_) => FailureKind::Markup,
            DecodeFailure::Structure => FailureKind::Structure,
            DecodeFailure::Base64(_) => FailureKind::Base64,
            DecodeFailure::Inflate(_) => FailureKind::Inflate,
            DecodeFailure::PercentDecode(_) => FailureKind::PercentDecode,
        }
    }

    /// The step at which decoding failed.
    pub fn stage(&self) -> (r: DecodeStage)
        ensures
            r == stage_of(self@),
    {
        match self {
            DecodeFailure::Markup(_) => DecodeStage::MarkupParse,
            DecodeFailure::Structure => DecodeStage::MarkupParse,
            DecodeFailure::Base64(_) => DecodeStage::Base64,
            DecodeFailure::Inflate(_) => DecodeStage::Inflate,
            DecodeFailure::PercentDecode(_) => DecodeStage::PercentDecode,
        }
    }
}

/// A result with its value or its error as a mathematical value.
pub open spec fn viewed<T: View, E: View>(r: Result<T, E>) -> Result<T::V, E::V> {
    match r {
        Ok(value) => Ok(value@),
        Err(error) => Err(error@),
    }
}

/// A result with its value, taken through and through, or its error as a
/// mathematical value.
pub open spec fn deep_viewed<T: DeepView, E: View>(r: Result<T, E>) -> Result<T::V, E::V> {
    match r {
        Ok(value) => Ok(value.deep_view()),
        Err(error) => Err(error@),
    }
}

/// `f` applied to each of `items` in order: all results, or the first failure.
pub open spec fn try_map<A, B, E>(items: Seq<A>, f: spec_fn(A) -> Result<B, E>) -> Result<
    Seq<B>,
    E,
>
    decreases items.len(),
{
    if items.len() == 0 {
        Ok(Seq::empty())
    } else {
        match try_map(items.drop_last(), f) {
            Err(e) => Err(e),
            Ok(front) => match f(items.last()) {
                Err(e) => Err(e),
                Ok(b) => Ok(front.push(b)),
            },
        }
    }
}

/// A failure among the first `k` items is the failure of the whole.
pub proof fn lemma_try_map_failure<A, B, E>(
    items: Seq<A>,
    f: spec_fn(A) -> Result<B, E>,
    k: int,
)
    requires
        0 <= k <= items.len(),
        try_map(items.take(k), f) is Err,
    ensures
        try_map(items, f) == try_map(items.take(k), f),
    decreases items.len(),
{
    if k == items.len() {
        assert(items.take(k) == items);
    } else {
        assert(items.drop_last().take(k) == items.take(k));
        lemma_try_map_failure(items.drop_last(), f, k);
    }
}

/// The element of a page that an element of markup stands for, by its name.
pub open spec fn element_of(node: Node) -> ElementView {
    if node.name == "mxCell"@ {
        ElementView::MxCell { value: attribute(node.attributes, "value"@) }
    } else if node.name == "UserObject"@ {
        ElementView::UserObject {
            label: attribute(node.attributes, "label"@),
            link: attribute(node.attributes, "link"@),
        }
    } else {
        ElementView::Other
    }
}

/// The elements of a page that `children` stand for, in order.
pub open spec fn elements_of(children: Seq<Node>) -> Seq<ElementView> {
    Seq::new(children.len(), |k: int| element_of(children[k]))
}

/// The elements of the page whose markup is `content`: the children of the
/// first `root` in the first `mxGraphModel` of `content`. Without such a
/// `mxGraphModel` or `root` the page has no elements. `None` where the
/// elements of `content` are not well nested.
pub open spec fn model_of(content: Seq<EventView>) -> Option<Seq<ElementView>> {
    match nodes(content) {
        None => None,
        Some(top) => match first_named(top, "mxGraphModel"@) {
            None => Some(Seq::empty()),
            Some(model) => match nodes(model.inner) {
                None => None,
                Some(parts) => match first_named(parts, "root"@) {
                    None => Some(Seq::empty()),
                    Some(root) => match nodes(root.inner) {
                        None => None,
                        Some(children) => Some(elements_of(children)),
                    },
                },
            },
        },
    }
}

/// Those of `nodes` that are called `name`, in order.
pub open spec fn named(nodes: Seq<Node>, name: Seq<char>) -> Seq<Node>
    decreases nodes.len(),
{
    if nodes.len() == 0 {
        nodes
    } else if nodes.last().name == name {
        named(nodes.drop_last(), name).push(nodes.last())
    } else {
        named(nodes.drop_last(), name)
    }
}

/// The pages of a document: the children called `diagram` of its first
/// element. `None` where the document has no element or its elements are
/// not well nested.
pub open spec fn document_pages(events: Seq<EventView>) -> Option<Seq<Node>> {
    match nodes(events) {
        None => None,
        Some(top) => if top.len() == 0 {
            None
        } else {
            match nodes(top[0].inner) {
                None => None,
                Some(children) => Some(named(children, "diagram"@)),
            }
        },
    }
}

/// The page that `page` holds in the raw encoding. It has to carry the
/// attributes `id` and `name`.
pub open spec fn raw_diagram(page: Node) -> Result<DiagramView, FailureKind> {
    match (attribute(page.attributes, "id"@), attribute(page.attributes, "name"@), model_of(
        page.inner,
    )) {
        (Some(id), Some(name), Some(elements)) => Ok(DiagramView { id, name, elements }),
        _ => Err(FailureKind::Structure),
    }
}

/// The page that `page` holds in the compressed encoding. It has to carry
/// the attributes `id` and `name`, and to hold one text and nothing else.
pub open spec fn compressed_diagram(page: Node) -> Result<CompressDiagramView, FailureKind> {
    match (attribute(page.attributes, "id"@), attribute(page.attributes, "name"@)) {
        (Some(id), Some(name)) => if page.inner.len() == 1 && page.inner[0] is Text {
            Ok(CompressDiagramView { id, name, raw_diagram: page.inner[0]->Text_0 })
        } else {
            Err(FailureKind::Structure)
        },
        _ => Err(FailureKind::Structure),
    }
}

/// The pages of a document in the raw encoding.
pub open spec fn raw_diagrams(events: Seq<EventView>) -> Result<Seq<DiagramView>, FailureKind> {
    match document_pages(events) {
        None => Err(FailureKind::Structure),
        Some(pages) => try_map(pages, |page: Node| raw_diagram(page)),
    }
}

/// The pages of a document in the compressed encoding, not yet unpacked.
pub open spec fn compressed_diagrams(events: Seq<EventView>) -> Result<
    Seq<CompressDiagramView>,
    FailureKind,
> {
    match document_pages(events) {
        None => Err(FailureKind::Structure),
        Some(pages) => try_map(pages, |page: Node| compressed_diagram(page)),
    }
}

/// The page that a compressed page unpacks to: its text is decoded as
/// base64, inflated, percent-decoded and read as markup.
pub open spec fn unpacked(page: CompressDiagramView) -> Result<DiagramView, FailureKind> {
    match base64_decoded(page.raw_diagram) {
        None => Err(FailureKind::Base64),
        Some(bytes) => match inflated(bytes) {
            None => Err(FailureKind::Inflate),
            Some(encoded) => match percent_decoded(encoded) {
                None => Err(FailureKind::PercentDecode),
                Some(markup) => match markup_events(markup) {
                    None => Err(FailureKind::Markup),
                    Some(events) => match model_of(events) {
                        None => Err(FailureKind::Structure),
                        Some(elements) => Ok(
                            DiagramView { id: page.id, name: page.name, elements },
                        ),
                    },
                },
            },
        },
    }
}

/// The pages that compressed pages unpack to, or the failure of the first
/// page that does not unpack.
pub open spec fn decompressed(pages: Seq<CompressDiagramView>) -> Result<
    Seq<DiagramView>,
    FailureKind,
> {
    try_map(pages, |page: CompressDiagramView| unpacked(page))
}

/// The container that `content` holds in the compressed encoding.
pub open spec fn parsed_compressed(content: Seq<char>) -> Result<Seq<DiagramView>, FailureKind> {
    match markup_events(content) {
        None => Err(FailureKind::Markup),
        Some(events) => match compressed_diagrams(events) {
            Err(e) => Err(e),
            Ok(pages) => decompressed(pages),
        },
    }
}

/// The container that `content` holds in the raw encoding.
pub open spec fn parsed_uncompressed(content: Seq<char>) -> Result<
    Seq<DiagramView>,
    FailureKind,
> {
    match markup_events(content) {
        None => Err(FailureKind::Markup),
        Some(events) => raw_diagrams(events),
    }
}

/// The container that `content` holds. Empty content holds a container
/// without pages. Other content is read in the compressed encoding and,
/// where that fails, in the raw encoding; where both fail, the failure of
/// each is kept, that of the compressed encoding first.
pub open spec fn decoded(content: Seq<char>) -> Result<
    Seq<DiagramView>,
    (FailureKind, FailureKind),
> {
    if content.len() == 0 {
        Ok(Seq::empty())
    } else {
        match parsed_compressed(content) {
            Ok(pages) => Ok(pages),
            Err(compressed) => match parsed_uncompressed(content) {
                Ok(pages) => Ok(pages),
                Err(raw) => Err((compressed, raw)),
            },
        }
    }
}

/// Reads the element of a page at `span`.
pub(crate) fn element_at(events: &Vec<MarkupEvent>, span: Span) -> (r: Element)
    requires
        is_span(events.deep_view(), span, 0, events.len() as int),
    ensures
        r@ == element_of(node_at(events.deep_view(), span)),
{
    if is_named(events, span, "mxCell") {
        Element::MxCell(MxCell { value: attribute_at(events, span, "value") })
    } else if is_named(events, span, "UserObject") {
        Element::UserObject(
            UserObject {
                label: attribute_at(events, span, "label"),
                link: attribute_at(events, span, "link"),
            },
        )
    } else {
        Element::Other
    }
}

/// Reads the elements of the page whose markup lies between `from` and `to`.
pub(crate) fn model_elements(events: &Vec<MarkupEvent>, from: usize, to: usize) -> (r: Option<
    Vec<Element>,
>)
    requires
        from <= to <= events.len(),
    ensures
        r.deep_view() == model_of(events.deep_view().subrange(from as int, to as int)),
{
    let ghost all = events.deep_view();
    let top = match child_spans(events, from, to) {
        Some(top) => top,
        None => {
            return None;
        },
    };
    let model = match find_named(events, &top, "mxGraphModel") {
        Some(model) => model,
        None => {
            let none: Vec<Element> = Vec::new();
            assert(none.deep_view() == Seq::<ElementView>::empty());
            return Some(none);
        },
    };
    assert(is_span(all, model, from as int, to as int));
    let parts = match child_spans(events, model.open + 1, model.close) {
        Some(parts) => parts,
        None => {
            return None;
        },
    };
    let root = match find_named(events, &parts, "root") {
        Some(root) => root,
        None => {
            let none: Vec<Element> = Vec::new();
            assert(none.deep_view() == Seq::<ElementView>::empty());
            return Some(none);
        },
    };
    assert(is_span(all, root, model.open + 1, model.close as int));
    let children = match child_spans(events, root.open + 1, root.close) {
        Some(children) => children,
        None => {
            return None;
        },
    };
    let mut elements: Vec<Element> = Vec::new();
    let mut at: usize = 0;
    while at < children.len()
        invariant
            at <= children.len(),
            all == events.deep_view(),
            elements.len() == at,
            forall|k: int|
                0 <= k < children.len() ==> is_span(
                    all,
                    #[trigger] children[k],
                    0,
                    events.len() as int,
                ),
            forall|k: int|
                0 <= k < at ==> (#[trigger] elements[k])@ == element_of(node_at(all, children[k])),
        decreases children.len() - at,
    {
        elements.push(element_at(events, children[at]));
        at += 1;
    }
    assert(elements.deep_view() == elements_of(nodes_at(all, children@)));
    Some(elements)
}

/// Finds the pages of a document.
pub fn page_spans(events: &Vec<MarkupEvent>) -> (r: Option<Vec<Span>>)
    ensures
        r is Some == document_pages(events.deep_view()) is Some,
        r matches Some(spans) ==> {
            &&& document_pages(events.deep_view()) == Some(nodes_at(events.deep_view(), spans@))
            &&& forall|k: int|
                0 <= k < spans.len() ==> is_span(
                    events.deep_view(),
                    #[trigger] spans[k],
                    0,
                    events.len() as int,
                )
        },
{
    let ghost all = events.deep_view();
    assert(all.subrange(0, events.len() as int) == all);
    let top = match child_spans(events, 0, events.len()) {
        Some(top) => top,
        None => {
            return None;
        },
    };
    if top.len() == 0 {
        return None;
    }
    let first = top[0];
    assert(is_span(all, first, 0, events.len() as int));
    let children = match child_spans(events, first.open + 1, first.close) {
        Some(children) => children,
        None => {
            return None;
        },
    };
    let ghost found = nodes_at(all, children@);
    let mut pages: Vec<Span> = Vec::new();
    let mut at: usize = 0;
    while at < children.len()
        invariant
            at <= children.len(),
            all == events.deep_view(),
            found == nodes_at(all, children@),
            forall|k: int|
                0 <= k < children.len() ==> is_span(
                    all,
                    #[trigger] children[k],
                    0,
                    events.len() as int,
                ),
            forall|k: int|
                0 <= k < pages.len() ==> is_span(
                    all,
                    #[trigger] pages[k],
                    0,
                    events.len() as int,
                ),
            nodes_at(all, pages@) == named(found.take(at as int), "diagram"@),
        decreases children.len() - at,
    {
        assert(found.take(at + 1).drop_last() == found.take(at as int));
        assert(found.take(at + 1).last() == node_at(all, children[at as int]));
        let ghost before = nodes_at(all, pages@);
        if is_named(events, children[at], "diagram") {
            pages.push(children[at]);
            assert(nodes_at(all, pages@) == before.push(node_at(all, children[at as int])));
        }
        at += 1;
    }
    assert(found.take(children.len() as int) == found);
    Some(pages)
}

/// Reads the page at `span` in the raw encoding.
pub(crate) fn read_raw_page(events: &Vec<MarkupEvent>, span: Span) -> (r: Result<Diagram, DecodeFailure>)
    requires
        is_span(events.deep_view(), span, 0, events.len() as int),
    ensures
        viewed(r) == raw_diagram(node_at(events.deep_view(), span)),
{
    let id = attribute_at(events, span, "id");
    let name = attribute_at(events, span, "name");
    let elements = model_elements(events, span.open + 1, span.close);
    match (id, name, elements) {
        (Some(id), Some(name), Some(elements)) => Ok(
            Diagram { id, name, mx_graph_model: MxGraphModel { root: Root { elements } } },
        ),
        _ => Err(DecodeFailure::Structure),
    }
}

/// Reads the page at `span` in the compressed encoding, without unpacking it.
pub(crate) fn read_compressed_page(events: &Vec<MarkupEvent>, span: Span) -> (r: Result<
    CompressDiagram,
    DecodeFailure,
>)
    requires
        is_span(events.deep_view(), span, 0, events.len() as int),
    ensures
        viewed(r) == compressed_diagram(node_at(events.deep_view(), span)),
{
    let id = attribute_at(events, span, "id");
    let name = attribute_at(events, span, "name");
    match (id, name) {
        (Some(id), Some(name)) => {
            if span.close - span.open == 2 {
                assert(node_at(events.deep_view(), span).inner[0] == events@[span.open + 1]@);
                match &events[span.open + 1] {
                    MarkupEvent::Text(text) => Ok(
                        CompressDiagram { id, name, raw_diagram: text.clone() },
                    ),
                    _ => Err(DecodeFailure::Structure),
                }
            } else {
                Err(DecodeFailure::Structure)
            }
        },
        _ => Err(DecodeFailure::Structure),
    }
}

/// Reads the pages of a document in the raw encoding.
pub fn raw_pages(events: &Vec<MarkupEvent>) -> (r: Result<Mxfile, DecodeFailure>)
    ensures
        viewed(r) == raw_diagrams(events.deep_view()),
{
    let ghost all = events.deep_view();
    let spans = match page_spans(events) {
        Some(spans) => spans,
        None => {
            return Err(DecodeFailure::Structure);
        },
    };
    let ghost pages = nodes_at(all, spans@);
    let mut diagrams: Vec<Diagram> = Vec::new();
    let mut at: usize = 0;
    assert(diagrams.deep_view() == Seq::<DiagramView>::empty());
    assert(pages.take(0).len() == 0);
    while at < spans.len()
        invariant
            at <= spans.len(),
            all == events.deep_view(),
            pages == nodes_at(all, spans@),
            document_pages(all) == Some(pages),
            forall|k: int|
                0 <= k < spans.len() ==> is_span(all, #[trigger] spans[k], 0, events.len() as int),
            try_map(pages.take(at as int), |page: Node| raw_diagram(page)) == Ok::<
                Seq<DiagramView>,
                FailureKind,
            >(diagrams.deep_view()),
        decreases spans.len() - at,
    {
        assert(pages.take(at + 1).drop_last() == pages.take(at as int));
        assert(pages.take(at + 1).last() == node_at(all, spans[at as int]));
        let ghost before = diagrams.deep_view();
        match read_raw_page(events, spans[at]) {
            Ok(page) => {
                diagrams.push(page);
                assert(diagrams.deep_view() == before.push(page@));
            },
            Err(e) => {
                proof {
                    lemma_try_map_failure(pages, |page: Node| raw_diagram(page), at + 1);
                }
                return Err(e);
            },
        }
        at += 1;
    }
    assert(pages.take(spans.len() as int) == pages);
    Ok(Mxfile { diagrams })
}

/// Reads the pages of a document in the compressed encoding, without
/// unpacking them.
pub fn compressed_pages(events: &Vec<MarkupEvent>) -> (r: Result<
    MxfileWithCompressDiagrams,
    DecodeFailure,
>)
    ensures
        viewed(r) == compressed_diagrams(events.deep_view()),
{
    let ghost all = events.deep_view();
    let spans = match page_spans(events) {
        Some(spans) => spans,
        None => {
            return Err(DecodeFailure::Structure);
        },
    };
    let ghost pages = nodes_at(all, spans@);
    let mut diagrams: Vec<CompressDiagram> = Vec::new();
    let mut at: usize = 0;
    assert(diagrams.deep_view() == Seq::<CompressDiagramView>::empty());
    assert(pages.take(0).len() == 0);
    while at < spans.len()
        invariant
            at <= spans.len(),
            all == events.deep_view(),
            pages == nodes_at(all, spans@),
            document_pages(all) == Some(pages),
            forall|k: int|
                0 <= k < spans.len() ==> is_span(all, #[trigger] spans[k], 0, events.len() as int),
            try_map(pages.take(at as int), |page: Node| compressed_diagram(page)) == Ok::<
                Seq<CompressDiagramView>,
                FailureKind,
            >(diagrams.deep_view()),
        decreases spans.len() - at,
    {
        assert(pages.take(at + 1).drop_last() == pages.take(at as int));
        assert(pages.take(at + 1).last() == node_at(all, spans[at as int]));
        let ghost before = diagrams.deep_view();
        match read_compressed_page(events, spans[at]) {
            Ok(page) => {
                diagrams.push(page);
                assert(diagrams.deep_view() == before.push(page@));
            },
            Err(e) => {
                proof {
                    lemma_try_map_failure(pages, |page: Node| compressed_diagram(page), at + 1);
                }
                return Err(e);
            },
        }
        at += 1;
    }
    assert(pages.take(spans.len() as int) == pages);
    Ok(MxfileWithCompressDiagrams { diagrams })
}

/// Unpacks one compressed page.
pub fn unpack(page: &CompressDiagram) -> (r: Result<Diagram, DecodeFailure>)
    ensures
        viewed(r) == unpacked(page@),
{
    let bytes = match base64_decode(page.raw_diagram.as_str()) {
        Ok(bytes) => bytes,
        Err(e) => {
            return Err(DecodeFailure::Base64(e));
        },
    };
    let encoded = match inflate(&bytes) {
        Ok(encoded) => encoded,
        Err(e) => {
            return Err(DecodeFailure::Inflate(e));
        },
    };
    let markup = match percent_decode(encoded.as_str()) {
        Ok(markup) => markup,
        Err(e) => {
            return Err(DecodeFailure::PercentDecode(e));
        },
    };
    let events = match read_markup(markup.as_str()) {
        Ok(events) => events,
        Err(e) => {
            return Err(DecodeFailure::Markup(e));
        },
    };
    assert(events.deep_view().subrange(0, events.len() as int) == events.deep_view());
    match model_elements(&events, 0, events.len()) {
        Some(elements) => Ok(
            Diagram {
                id: page.id.clone(),
                name: page.name.clone(),
                mx_graph_model: MxGraphModel { root: Root { elements } },
            },
        ),
        None => Err(DecodeFailure::Structure),
    }
}

/// Unpacks the pages of a container, in order. The first page that does
/// not unpack ends the work.
pub fn decompress(file: MxfileWithCompressDiagrams) -> (r: Result<Mxfile, DecodeFailure>)
    ensures
        viewed(r) == decompressed(file@),
{
    let ghost pages = file@;
    let mut diagrams: Vec<Diagram> = Vec::new();
    let mut at: usize = 0;
    assert(diagrams.deep_view() == Seq::<DiagramView>::empty());
    assert(pages.take(0).len() == 0);
    while at < file.diagrams.len()
        invariant
            at <= file.diagrams.len(),
            pages == file@,
            decompressed(pages.take(at as int)) == Ok::<Seq<DiagramView>, FailureKind>(
                diagrams.deep_view(),
            ),
        decreases file.diagrams.len() - at,
    {
        assert(pages.take(at + 1).drop_last() == pages.take(at as int));
        assert(pages.take(at + 1).last() == file.diagrams@[at as int]@);
        let ghost before = diagrams.deep_view();
        match unpack(&file.diagrams[at]) {
            Ok(page) => {
                diagrams.push(page);
                assert(diagrams.deep_view() == before.push(page@));
            },
            Err(e) => {
                proof {
                    lemma_try_map_failure(
                        pages,
                        |page: CompressDiagramView| unpacked(page),
                        at + 1,
                    );
                }
                return Err(e);
            },
        }
        at += 1;
    }
    assert(pages.take(file.diagrams.len() as int) == pages);
    Ok(Mxfile { diagrams })
}

/// Reads `content` in the compressed encoding.
pub fn parse_compressed_content(content: &str) -> (r: Result<Mxfile, DecodeFailure>)
    ensures
        viewed(r) == parsed_compressed(content@),
{
    let events = match read_markup(content) {
        Ok(events) => events,
        Err(e) => {
            return Err(DecodeFailure::Markup(e));
        },
    };
    match compressed_pages(&events) {
        Ok(file) => decompress(file),
        Err(e) => Err(e),
    }
}

/// Reads `content` in the raw encoding.
pub fn parse_uncompressed_content(content: &str) -> (r: Result<Mxfile, DecodeFailure>)
    ensures
        viewed(r) == parsed_uncompressed(content@),
{
    match read_markup(content) {
        Ok(events) => raw_pages(&events),
        Err(e) => Err(DecodeFailure::Markup(e)),
    }
}

/// Decodes the container that the file at `path` holds, from the `content`
/// of the file.
pub fn read_file(path: &str, content: &str) -> (r: Result<Mxfile, ReadError>)
    ensures
        match r {
            Ok(file) => decoded(content@) matches Ok(pages) && pages == file@,
            Err(e) => {
                &&& e.path@ == path@
                &&& decoded(content@) matches Err(kinds)
                &&& kinds == (e.compressed@, e.raw@)
            },
        },
{
    if content.is_empty() {
        let diagrams: Vec<Diagram> = Vec::new();
        assert(diagrams.deep_view() == Seq::<DiagramView>::empty());
        return Ok(Mxfile { diagrams });
    }
    match parse_compressed_content(content) {
        Ok(file) => Ok(file),
        Err(compressed) => match parse_uncompressed_content(content) {
            Ok(file) => Ok(file),
            Err(raw) => Err(ReadError { path: path.to_owned(), compressed, raw }),
        },
    }
}

/// Where `f` succeeds on every item, the whole succeeds, with the result of
/// each item in its place.
pub proof fn lemma_try_map_success<A, B, E>(items: Seq<A>, f: spec_fn(A) -> Result<B, E>)
    requires
        forall|k: int| 0 <= k < items.len() ==> (#[trigger] f(items[k])) is Ok,
    ensures
        try_map(items, f) is Ok,
        try_map(items, f)->Ok_0.len() == items.len(),
        forall|k: int|
            0 <= k < items.len() ==> (#[trigger] try_map(items, f)->Ok_0[k]) == f(items[k])->Ok_0,
    decreases items.len(),
{
    if items.len() > 0 {
        let front = items.drop_last();
        assert forall|k: int| 0 <= k < front.len() implies (#[trigger] f(front[k])) is Ok by {
            assert(front[k] == items[k]);
        }
        lemma_try_map_success(front, f);
        assert forall|k: int| 0 <= k < items.len() implies (#[trigger] try_map(
            items,
            f,
        )->Ok_0[k]) == f(items[k])->Ok_0 by {
            if k < front.len() {
                assert(front[k] == items[k]);
                assert(try_map(items, f)->Ok_0[k] == try_map(front, f)->Ok_0[k]);
            }
        }
    }
}

/// Where `f` fails on an item, the whole fails.
pub proof fn lemma_try_map_any_failure<A, B, E>(
    items: Seq<A>,
    f: spec_fn(A) -> Result<B, E>,
    k: int,
)
    requires
        0 <= k < items.len(),
        f(items[k]) is Err,
    ensures
        try_map(items, f) is Err,
    decreases items.len(),
{
    if k < items.len() - 1 {
        assert(items.drop_last()[k] == items[k]);
        lemma_try_map_any_failure(items.drop_last(), f, k);
    }
}

/// The markup that the text of a compressed page unpacks to.
pub open spec fn blob_markup(blob: Seq<char>) -> Option<Seq<char>> {
    match base64_decoded(blob) {
        None => None,
        Some(bytes) => match inflated(bytes) {
            None => None,
            Some(encoded) => percent_decoded(encoded),
        },
    }
}

/// Whether `packed` holds, in the compressed encoding, the page that `raw`
/// holds in the raw encoding: both carry the same `id` and `name`, `raw`
/// holds valid markup and not just one text, and `packed` holds one text
/// that unpacks to markup with the same elements as `raw` holds.
pub open spec fn is_packed_page(raw: Node, packed: Node) -> bool {
    &&& attribute(raw.attributes, "id"@) is Some
    &&& attribute(raw.attributes, "name"@) is Some
    &&& attribute(packed.attributes, "id"@) == attribute(raw.attributes, "id"@)
    &&& attribute(packed.attributes, "name"@) == attribute(raw.attributes, "name"@)
    &&& model_of(raw.inner) is Some
    &&& !(raw.inner.len() == 1 && raw.inner[0] is Text)
    &&& packed.inner.len() == 1
    &&& packed.inner[0] is Text
    &&& blob_markup(packed.inner[0]->Text_0) is Some
    &&& markup_events(blob_markup(packed.inner[0]->Text_0)->0) is Some
    &&& nodes(markup_events(blob_markup(packed.inner[0]->Text_0)->0)->0) == nodes(raw.inner)
}

/// Whether `packed` holds, page by page in the compressed encoding, the
/// container that `raw` holds in the raw encoding.
pub open spec fn is_packed_container(raw: Seq<char>, packed: Seq<char>) -> bool {
    &&& markup_events(raw) is Some
    &&& markup_events(packed) is Some
    &&& document_pages(markup_events(raw)->0) is Some
    &&& document_pages(markup_events(packed)->0) is Some
    &&& document_pages(markup_events(raw)->0)->0.len() == document_pages(
        markup_events(packed)->0,
    )->0.len()
    &&& forall|k: int|
        0 <= k < document_pages(markup_events(raw)->0)->0.len() ==> is_packed_page(
            #[trigger] document_pages(markup_events(raw)->0)->0[k],
            document_pages(markup_events(packed)->0)->0[k],
        )
}

/// Empty content decodes to a container without pages; it never fails.
pub proof fn lemma_empty_content_has_no_pages(content: Seq<char>)
    requires
        content.len() == 0,
    ensures
        decoded(content) == Ok::<Seq<DiagramView>, (FailureKind, FailureKind)>(Seq::empty()),
{
}

/// Content that cannot be read in the compressed encoding, at whatever
/// step that fails, and that can be read in the raw encoding decodes to
/// what the raw encoding gives.
pub proof fn lemma_raw_content_decodes_by_fallback(content: Seq<char>)
    requires
        content.len() > 0,
        parsed_compressed(content) is Err,
        parsed_uncompressed(content) is Ok,
    ensures
        decoded(content) == Ok::<Seq<DiagramView>, (FailureKind, FailureKind)>(
            parsed_uncompressed(content)->Ok_0,
        ),
{
}

/// Content that cannot be read in either encoding fails with the failure
/// of each.
pub proof fn lemma_both_failures_are_kept(content: Seq<char>)
    requires
        content.len() > 0,
        parsed_compressed(content) is Err,
        parsed_uncompressed(content) is Err,
    ensures
        decoded(content) == Err::<Seq<DiagramView>, (FailureKind, FailureKind)>(
            (parsed_compressed(content)->Err_0, parsed_uncompressed(content)->Err_0),
        ),
{
}

/// A container decodes to the same pages from the compressed encoding as
/// from the raw encoding.
pub proof fn lemma_compressed_and_raw_agree(raw: Seq<char>, packed: Seq<char>)
    requires
        raw.len() > 0,
        packed.len() > 0,
        is_packed_container(raw, packed),
    ensures
        decoded(raw) is Ok,
        decoded(packed) == decoded(raw),
{
    let raw_pages = document_pages(markup_events(raw)->0)->0;
    let packed_pages = document_pages(markup_events(packed)->0)->0;
    let as_compressed = |page: Node| compressed_diagram(page);
    let as_raw = |page: Node| raw_diagram(page);
    let unpack = |page: CompressDiagramView| unpacked(page);
    // The packed content: every page is read and unpacked.
    assert forall|k: int| 0 <= k < packed_pages.len() implies (#[trigger] as_compressed(
        packed_pages[k],
    )) is Ok by {
        assert(is_packed_page(raw_pages[k], packed_pages[k]));
    }
    lemma_try_map_success(packed_pages, as_compressed);
    let compressed = try_map(packed_pages, as_compressed)->Ok_0;
    assert(compressed_diagrams(markup_events(packed)->0) == Ok::<
        Seq<CompressDiagramView>,
        FailureKind,
    >(compressed));
    assert forall|k: int| 0 <= k < compressed.len() implies (#[trigger] unpack(compressed[k]))
        is Ok && unpack(compressed[k])->Ok_0 == raw_diagram(raw_pages[k])->Ok_0 && raw_diagram(
        raw_pages[k],
    ) is Ok by {
        assert(is_packed_page(raw_pages[k], packed_pages[k]));
        assert(compressed[k] == as_compressed(packed_pages[k])->Ok_0);
    }
    lemma_try_map_success(compressed, unpack);
    let from_packed = try_map(compressed, unpack)->Ok_0;
    assert(parsed_compressed(packed) == Ok::<Seq<DiagramView>, FailureKind>(from_packed));
    // The raw content: the compressed encoding fails on the first page.
    if raw_pages.len() == 0 {
        assert(from_packed =~= Seq::<DiagramView>::empty());
        assert(parsed_compressed(raw) == Ok::<Seq<DiagramView>, FailureKind>(Seq::empty()));
    } else {
        assert(is_packed_page(raw_pages[0], packed_pages[0]));
        lemma_try_map_any_failure(raw_pages, as_compressed, 0);
        assert(parsed_compressed(raw) is Err);
        assert forall|k: int| 0 <= k < raw_pages.len() implies (#[trigger] as_raw(raw_pages[k]))
            is Ok by {
            assert(is_packed_page(raw_pages[k], packed_pages[k]));
        }
        lemma_try_map_success(raw_pages, as_raw);
        let from_raw = try_map(raw_pages, as_raw)->Ok_0;
        assert(parsed_uncompressed(raw) == Ok::<Seq<DiagramView>, FailureKind>(from_raw));
        assert(from_raw =~= from_packed) by {
            assert forall|k: int| 0 <= k < from_raw.len() implies from_raw[k] == from_packed[k] by {
                assert(from_raw[k] == as_raw(raw_pages[k])->Ok_0);
                assert(from_packed[k] == unpack(compressed[k])->Ok_0);
            }
        }
    }
}

} // verus!
