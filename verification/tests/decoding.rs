use drawio_exporter::decode::{read_file, DecodeStage, FailureKind};
use drawio_exporter::markup::{Attribute, MarkupEvent};
use drawio_exporter::mxfile::{Element, MxCell, UserObject};
use std::io::Write;

const MODEL: &str = "<mxGraphModel dx=\"1\" dy=\"2\"><root><mxCell id=\"0\"/><mxCell id=\"1\" parent=\"0\"/><mxCell id=\"2\" value=\"&lt;a href=&quot;https://example.org&quot;&gt;Text Link 1&lt;/a&gt;\" vertex=\"1\" parent=\"1\"><mxGeometry x=\"1\" y=\"2\" as=\"geometry\"/></mxCell><UserObject label=\"Shape Link 1\" link=\"https://example.org/shape\" id=\"3\"><mxCell style=\"rounded=0\" vertex=\"1\" parent=\"1\"><mxGeometry as=\"geometry\"/></mxCell></UserObject><object label=\"x\" id=\"4\"/></root></mxGraphModel>";

fn pack(markup: &str) -> String {
    let encoded = urlencoding::encode(markup).into_owned();
    let mut encoder =
        flate2::write::DeflateEncoder::new(Vec::new(), flate2::Compression::default());
    encoder.write_all(encoded.as_bytes()).unwrap();
    base64::encode(encoder.finish().unwrap())
}

fn raw_file(models: &[&str]) -> String {
    let mut text = String::from("<mxfile host=\"app\" version=\"1\">");
    for (at, model) in models.iter().enumerate() {
        text.push_str(&format!("<diagram id=\"id-{}\" name=\"Page {}\">{}</diagram>", at, at + 1, model));
    }
    text.push_str("</mxfile>");
    text
}

fn compressed_file(models: &[&str]) -> String {
    let mut text = String::from("<mxfile host=\"app\" version=\"1\">");
    for (at, model) in models.iter().enumerate() {
        text.push_str(&format!(
            "<diagram id=\"id-{}\" name=\"Page {}\">{}</diagram>",
            at,
            at + 1,
            pack(model)
        ));
    }
    text.push_str("</mxfile>");
    text
}

#[test]
fn empty_content_has_no_pages() {
    let file = read_file("empty.drawio", "").unwrap();
    assert_eq!(file.diagrams.len(), 0);
}

#[test]
fn raw_content_gives_pages_and_elements_in_order() {
    let file = read_file("a.drawio", &raw_file(&[MODEL, MODEL])).unwrap();
    assert_eq!(file.diagrams.len(), 2);
    assert_eq!(file.diagrams[0].id, "id-0");
    assert_eq!(file.diagrams[0].name, "Page 1");
    assert_eq!(file.diagrams[1].id, "id-1");
    assert_eq!(file.diagrams[1].name, "Page 2");
    let elements = &file.diagrams[0].mx_graph_model.root.elements;
    assert_eq!(elements.len(), 5);
    assert_eq!(elements[0], Element::MxCell(MxCell { value: None }));
    assert_eq!(elements[1], Element::MxCell(MxCell { value: None }));
    assert_eq!(
        elements[2],
        Element::MxCell(MxCell {
            value: Some("<a href=\"https://example.org\">Text Link 1</a>".to_string())
        })
    );
    assert_eq!(
        elements[3],
        Element::UserObject(UserObject {
            label: Some("Shape Link 1".to_string()),
            link: Some("https://example.org/shape".to_string()),
        })
    );
    assert_eq!(elements[4], Element::Other);
}

#[test]
fn compressed_content_decodes_like_raw_content() {
    for models in [vec![], vec![MODEL], vec![MODEL, "<mxGraphModel><root/></mxGraphModel>", MODEL]] {
        let raw = read_file("a.drawio", &raw_file(&models)).unwrap();
        let compressed = read_file("a.drawio", &compressed_file(&models)).unwrap();
        assert_eq!(raw, compressed);
        assert_eq!(raw.diagrams.len(), models.len());
    }
}

#[test]
fn content_that_is_not_base64_falls_back_to_raw() {
    let content = "<mxfile><diagram id=\"a\" name=\"b\">not base64!</diagram></mxfile>";
    let file = read_file("a.drawio", content).unwrap();
    assert_eq!(file.diagrams.len(), 1);
    assert_eq!(file.diagrams[0].id, "a");
    assert_eq!(file.diagrams[0].name, "b");
    assert_eq!(file.diagrams[0].mx_graph_model.root.elements.len(), 0);
}

#[test]
fn both_failures_are_kept() {
    let error = read_file("broken.drawio", "<mxfile><diagram id=\"a\">").unwrap_err();
    assert_eq!(error.path, "broken.drawio");
    assert_eq!(error.compressed.kind(), FailureKind::Markup);
    assert_eq!(error.raw.kind(), FailureKind::Markup);
    assert_eq!(error.compressed.stage(), DecodeStage::MarkupParse);

    let error =
        read_file("p.drawio", "<mxfile><diagram name=\"b\">not base64!</diagram></mxfile>")
            .unwrap_err();
    assert_eq!(error.compressed.kind(), FailureKind::Structure);
    assert_eq!(error.raw.kind(), FailureKind::Structure);
}

fn deflate(text: &str) -> Vec<u8> {
    let mut encoder =
        flate2::write::DeflateEncoder::new(Vec::new(), flate2::Compression::default());
    encoder.write_all(text.as_bytes()).unwrap();
    encoder.finish().unwrap()
}

fn compressed_page(raw_diagram: String) -> drawio_exporter::mxfile::CompressDiagram {
    drawio_exporter::mxfile::CompressDiagram {
        id: "i".to_string(),
        name: "n".to_string(),
        raw_diagram,
    }
}

#[test]
fn unpacking_keeps_id_and_name() {
    let page = drawio_exporter::decode::unpack(&compressed_page(pack(MODEL))).unwrap();
    assert_eq!(page.id, "i");
    assert_eq!(page.name, "n");
    assert_eq!(page.mx_graph_model.root.elements.len(), 5);
}

#[test]
fn unpacking_fails_at_base64() {
    let error = drawio_exporter::decode::unpack(&compressed_page("***".to_string())).unwrap_err();
    assert_eq!(error.kind(), FailureKind::Base64);
    assert_eq!(error.stage(), DecodeStage::Base64);
}

#[test]
fn unpacking_fails_at_inflate() {
    let blob = base64::encode([0xffu8, 0xff, 0xff, 0xff, 0xff, 0xff]);
    let error = drawio_exporter::decode::unpack(&compressed_page(blob)).unwrap_err();
    assert_eq!(error.kind(), FailureKind::Inflate);
    assert_eq!(error.stage(), DecodeStage::Inflate);
}

#[test]
fn unpacking_fails_at_percent_decoding() {
    let blob = base64::encode(deflate("%FF%FE"));
    let error = drawio_exporter::decode::unpack(&compressed_page(blob)).unwrap_err();
    assert_eq!(error.kind(), FailureKind::PercentDecode);
    assert_eq!(error.stage(), DecodeStage::PercentDecode);
}

#[test]
fn unpacking_fails_at_markup() {
    let blob = base64::encode(deflate("%3CmxGraphModel%3E%3Croot%3E"));
    let error = drawio_exporter::decode::unpack(&compressed_page(blob)).unwrap_err();
    assert_eq!(error.kind(), FailureKind::Markup);
    assert_eq!(error.stage(), DecodeStage::MarkupParse);
}

#[test]
fn decompress_stops_at_the_first_page_that_fails() {
    let file = drawio_exporter::mxfile::MxfileWithCompressDiagrams {
        diagrams: vec![
            compressed_page(pack(MODEL)),
            compressed_page(base64::encode([0xffu8, 0xff, 0xff, 0xff])),
            compressed_page("***".to_string()),
        ],
    };
    let error = drawio_exporter::decode::decompress(file).unwrap_err();
    assert_eq!(error.kind(), FailureKind::Inflate);
}

#[test]
fn decompress_keeps_the_order_of_pages() {
    let mut first = compressed_page(pack(MODEL));
    first.id = "1".to_string();
    let mut second = compressed_page(pack("<mxGraphModel><root><mxCell/></root></mxGraphModel>"));
    second.id = "2".to_string();
    let file = drawio_exporter::mxfile::MxfileWithCompressDiagrams { diagrams: vec![first, second] };
    let unpacked = drawio_exporter::decode::decompress(file).unwrap();
    assert_eq!(unpacked.diagrams.len(), 2);
    assert_eq!(unpacked.diagrams[0].id, "1");
    assert_eq!(unpacked.diagrams[1].id, "2");
    assert_eq!(unpacked.diagrams[1].mx_graph_model.root.elements.len(), 1);
}

#[test]
fn a_page_without_a_model_has_no_elements() {
    let file = read_file("a.drawio", "<mxfile><diagram id=\"a\" name=\"b\"/></mxfile>").unwrap();
    assert_eq!(file.diagrams.len(), 1);
    assert_eq!(file.diagrams[0].mx_graph_model.root.elements.len(), 0);
    let file = read_file(
        "a.drawio",
        "<mxfile><diagram id=\"a\" name=\"b\"><mxGraphModel/></diagram></mxfile>",
    )
    .unwrap();
    assert_eq!(file.diagrams[0].mx_graph_model.root.elements.len(), 0);
}

#[test]
fn other_children_of_the_document_are_no_pages() {
    let file = read_file(
        "a.drawio",
        "<mxfile><other/><diagram id=\"a\" name=\"b\"/><x><diagram id=\"c\" name=\"d\"/></x></mxfile>",
    )
    .unwrap();
    assert_eq!(file.diagrams.len(), 1);
    assert_eq!(file.diagrams[0].id, "a");
}

#[test]
fn elements_below_the_children_of_root_are_not_elements_of_the_page() {
    let content = "<mxfile><diagram id=\"a\" name=\"b\"><mxGraphModel><root><UserObject label=\"l\"><mxCell value=\"inner\"/></UserObject></root></mxGraphModel></diagram></mxfile>";
    let file = read_file("a.drawio", content).unwrap();
    let elements = &file.diagrams[0].mx_graph_model.root.elements;
    assert_eq!(elements.len(), 1);
    assert_eq!(
        elements[0],
        Element::UserObject(UserObject { label: Some("l".to_string()), link: None })
    );
}

#[test]
fn raw_pages_reads_events() {
    let open = |name: &str, attributes: Vec<(&str, &str)>| MarkupEvent::Open {
        name: name.to_string(),
        attributes: attributes
            .into_iter()
            .map(|(name, value)| Attribute { name: name.to_string(), value: value.to_string() })
            .collect(),
    };
    let events = vec![
        MarkupEvent::Other,
        open("mxfile", vec![]),
        open("diagram", vec![("id", "1"), ("name", "One")]),
        open("mxGraphModel", vec![]),
        open("root", vec![]),
        open("mxCell", vec![("value", "v")]),
        MarkupEvent::Close,
        MarkupEvent::Close,
        MarkupEvent::Close,
        MarkupEvent::Close,
        MarkupEvent::Close,
        MarkupEvent::Other,
    ];
    let file = drawio_exporter::decode::raw_pages(&events).unwrap();
    assert_eq!(file.diagrams.len(), 1);
    assert_eq!(file.diagrams[0].name, "One");
    assert_eq!(
        file.diagrams[0].mx_graph_model.root.elements,
        vec![Element::MxCell(MxCell { value: Some("v".to_string()) })]
    );

    let unbalanced = vec![open("mxfile", vec![]), open("diagram", vec![])];
    let error = drawio_exporter::decode::raw_pages(&unbalanced).unwrap_err();
    assert_eq!(error.kind(), FailureKind::Structure);
    let stray = vec![MarkupEvent::Close];
    assert_eq!(
        drawio_exporter::decode::compressed_pages(&stray).unwrap_err().kind(),
        FailureKind::Structure
    );
    let empty: Vec<MarkupEvent> = vec![];
    assert_eq!(
        drawio_exporter::decode::raw_pages(&empty).unwrap_err().kind(),
        FailureKind::Structure
    );
}

#[test]
fn compressed_pages_reads_the_text_of_each_page() {
    let content = compressed_file(&[MODEL]);
    let blob = pack(MODEL);
    let events = vec![
        drawio_exporter::markup::MarkupEvent::Open {
            name: "mxfile".to_string(),
            attributes: vec![],
        },
        drawio_exporter::markup::MarkupEvent::Open {
            name: "diagram".to_string(),
            attributes: vec![
                drawio_exporter::markup::Attribute {
                    name: "id".to_string(),
                    value: "x".to_string(),
                },
                drawio_exporter::markup::Attribute {
                    name: "name".to_string(),
                    value: "y".to_string(),
                },
            ],
        },
        drawio_exporter::markup::MarkupEvent::Text(blob.clone()),
        drawio_exporter::markup::MarkupEvent::Close,
        drawio_exporter::markup::MarkupEvent::Close,
    ];
    let file = drawio_exporter::decode::compressed_pages(&events).unwrap();
    assert_eq!(file.diagrams.len(), 1);
    assert_eq!(file.diagrams[0].id, "x");
    assert_eq!(file.diagrams[0].name, "y");
    assert_eq!(file.diagrams[0].raw_diagram, blob);
    assert!(drawio_exporter::decode::parse_compressed_content(&content).is_ok());
    assert_eq!(
        drawio_exporter::decode::parse_compressed_content(&raw_file(&[MODEL]))
            .unwrap_err()
            .kind(),
        FailureKind::Structure
    );
    assert!(drawio_exporter::decode::parse_uncompressed_content(&raw_file(&[MODEL])).is_ok());
}

#[test]
fn layout_and_comments_do_not_count() {
    let model = "<mxGraphModel>\n  <root>\n    <!-- first -->\n    <mxCell id=\"0\"/>\n    <mxCell id=\"1\" value=\"a &amp; b\">\n      <mxGeometry/>\n    </mxCell>\n  </root>\n</mxGraphModel>";
    let raw = format!(
        "<?xml version=\"1.0\" encoding=\"UTF-8\"?>\n<!-- a file -->\n<mxfile host=\"x\">\n  <diagram id=\"a\" name=\"Page 1\">\n    {}\n  </diagram>\n</mxfile>\n",
        model
    );
    let compressed = format!(
        "<?xml version=\"1.0\" encoding=\"UTF-8\"?>\n<mxfile host=\"x\">\n  <diagram id=\"a\" name=\"Page 1\">\n    {}\n  </diagram>\n</mxfile>\n",
        pack(model)
    );
    let from_raw = read_file("a.drawio", &raw).unwrap();
    let from_compressed = read_file("a.drawio", &compressed).unwrap();
    assert_eq!(from_raw, from_compressed);
    assert_eq!(
        from_raw.diagrams[0].mx_graph_model.root.elements,
        vec![
            Element::MxCell(MxCell { value: None }),
            Element::MxCell(MxCell { value: Some("a & b".to_string()) }),
        ]
    );
}
