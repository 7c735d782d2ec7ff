use drawio_exporter::drawio_desktop::{
    default_application_os, execute, DesktopError, DrawioDesktop, ExportArguments, Platform,
};
use drawio_exporter::explorer::DiscoveryError;
use drawio_exporter::exporter::{
    check_input_path, decimal_digits, export_file_message, export_page_message,
    file_stem_suffix, generate_formatted_text_file, generate_message, include_links_message,
    input_path, is_text_format, link_message, link_report, output_filename, page_index,
    real_format, skip_message, with_page_suffix, ExporterOptions,
};
use drawio_exporter::mxfile::{
    Diagram, Element, Link, MxCell, MxGraphModel, Root, SkipReason, UserObject,
};

fn arguments<'a>() -> ExportArguments<'a> {
    ExportArguments {
        recursive: false,
        output: None,
        input: "in.drawio",
        format: "pdf",
        border: "0",
        scale: None,
        width: None,
        height: None,
        crop: false,
        embed_diagram: false,
        transparent: false,
        quality: "90",
        uncompressed: false,
        all_pages: false,
        page_index: None,
        page_range: None,
        embed_svg_images: false,
        enable_plugins: false,
    }
}

fn options<'a>() -> ExporterOptions<'a> {
    ExporterOptions {
        application: None,
        drawio_desktop_headless: false,
        folder: "export",
        on_filesystem_changes: false,
        on_git_changes_since_reference: None,
        remove_page_suffix: false,
        path: ".",
        format: "pdf",
        border: "0",
        scale: None,
        enable_plugins: false,
        width: None,
        height: None,
        crop: false,
        transparent: false,
        quality: "90",
        uncompressed: false,
        embed_svg_images: false,
        embed_diagram: false,
    }
}

#[test]
fn the_least_arguments() {
    assert_eq!(
        arguments().as_shell_arguments(),
        vec!["--export", "--format", "pdf", "--quality", "90", "--border", "0", "in.drawio"]
    );
}

#[test]
fn all_arguments_in_their_order() {
    let all = ExportArguments {
        recursive: true,
        output: Some("out.png"),
        input: "in put.drawio",
        format: "png",
        border: "2",
        scale: Some("1.5"),
        width: Some("800"),
        height: Some("600"),
        crop: true,
        embed_diagram: true,
        transparent: true,
        quality: "75",
        uncompressed: true,
        all_pages: true,
        page_index: Some("3"),
        page_range: Some("1..2"),
        embed_svg_images: true,
        enable_plugins: true,
    };
    assert_eq!(
        all.as_shell_arguments(),
        vec![
            "--export",
            "--recursive",
            "--output",
            "out.png",
            "--format",
            "png",
            "--quality",
            "75",
            "--transparent",
            "--embed-diagram",
            "--border",
            "2",
            "--scale",
            "1.5",
            "--width",
            "800",
            "--height",
            "600",
            "--crop",
            "--all-pages",
            "--page-index",
            "3",
            "--page-range",
            "1..2",
            "--uncompressed",
            "--embed-svg-images",
            "--enable-plugins",
            "in put.drawio",
        ]
    );
}

#[test]
fn the_application_is_the_given_one_or_the_default() {
    let desktop = DrawioDesktop::new(Some("/given"), Some("/default"), false).unwrap();
    assert_eq!(desktop.application(), "/given");
    let desktop = DrawioDesktop::new(None, Some("/default"), true).unwrap();
    assert_eq!(desktop.application(), "/default");
    assert_eq!(
        desktop.command_line(&arguments()),
        vec![
            "--export",
            "--format",
            "pdf",
            "--quality",
            "90",
            "--border",
            "0",
            "in.drawio",
            "--no-sandbox",
            "--disable-dev-shm-usage"
        ]
    );
    match DrawioDesktop::new(None, None, false) {
        Err(error) => assert_eq!(error, DesktopError::MissingApplication),
        Ok(_) => panic!("an application out of nothing"),
    }
}

#[test]
fn each_platform_has_its_usual_place() {
    assert_eq!(
        default_application_os(Platform::from_name("macos")),
        Some("/Applications/draw.io.app/Contents/MacOS/draw.io")
    );
    assert_eq!(
        default_application_os(Platform::from_name("windows")),
        Some("C:\\Program Files\\draw.io\\draw.io.exe")
    );
    assert_eq!(default_application_os(Platform::from_name("linux")), Some("/opt/drawio/drawio"));
    assert_eq!(default_application_os(Platform::from_name("freebsd")), None);
    assert_eq!(Platform::from_name("Linux"), Platform::Other);
}

#[test]
fn a_run_fails_by_its_status_or_its_output() {
    let errors = || Ok("details".to_string());
    assert_eq!(execute(true, Some("in.drawio -> out.pdf"), errors()), Ok(()));
    assert_eq!(
        execute(false, Some("in.drawio -> out.pdf"), errors()),
        Err(DesktopError::ExportFailed { output: "details".to_string() })
    );
    assert_eq!(
        execute(true, Some("Error: export failed"), errors()),
        Err(DesktopError::ExportFailed { output: "details".to_string() })
    );
    assert_eq!(execute(true, Some("error: Error:"), errors()), Ok(()));
    assert_eq!(
        execute(false, Some(""), Err("invalid utf-8".to_string())),
        Err(DesktopError::ExportFailed {
            output: "unreadable output due to invalid utf-8".to_string()
        })
    );
    assert_eq!(execute(false, None, errors()), Ok(()));
}

#[test]
fn the_input_path_defaults_to_the_current_directory() {
    assert_eq!(input_path(""), ".");
    assert_eq!(input_path("tree"), "tree");
    assert!(check_input_path("tree", true).is_ok());
    match check_input_path("unknown", false) {
        Err(DiscoveryError::PathNotFound { path }) => assert_eq!(path, "unknown"),
        other => panic!("unexpected {:?}", other),
    }
}

#[test]
fn exported_files_are_named_after_file_and_page() {
    assert!(with_page_suffix(false, 1));
    assert!(with_page_suffix(false, 2));
    assert!(!with_page_suffix(true, 1));
    assert!(with_page_suffix(true, 2));
    assert!(with_page_suffix(true, 0));
    assert_eq!(file_stem_suffix(true, "Page 2"), "-Page-2");
    assert_eq!(file_stem_suffix(true, "a  b c"), "-a--b-c");
    assert_eq!(file_stem_suffix(false, "Page 2"), "");
    assert_eq!(real_format("adoc"), "png");
    assert_eq!(real_format("md"), "png");
    assert_eq!(real_format("svg"), "svg");
    assert!(is_text_format("adoc"));
    assert!(is_text_format("md"));
    assert!(!is_text_format("png"));
    assert_eq!(output_filename("file1", "-Page-2", "pdf"), "file1-Page-2.pdf");
    assert_eq!(output_filename("file1", "", "png"), "file1.png");
}

#[test]
fn numbers_are_written_in_decimal() {
    let digits = |n: u128| decimal_digits(n).into_iter().collect::<String>();
    assert_eq!(digits(0), "0");
    assert_eq!(digits(9), "9");
    assert_eq!(digits(10), "10");
    assert_eq!(digits(7200), "7200");
    assert_eq!(digits(u128::MAX), u128::MAX.to_string());
    assert_eq!(page_index(0), "0");
    assert_eq!(page_index(12), "12");
}

#[test]
fn options_give_the_arguments_of_a_page() {
    let mut options = options();
    options.border = "3";
    options.scale = Some("2");
    options.transparent = true;
    options.embed_svg_images = true;
    let arguments = options.export_arguments("in.drawio", Some("export/in-Page-1.png"), "png", "0");
    assert_eq!(
        arguments.as_shell_arguments(),
        vec![
            "--export",
            "--output",
            "export/in-Page-1.png",
            "--format",
            "png",
            "--quality",
            "90",
            "--transparent",
            "--border",
            "3",
            "--scale",
            "2",
            "--page-index",
            "0",
            "--embed-svg-images",
            "in.drawio",
        ]
    );
    assert!(!options.filter_options().on_changes());
    assert_eq!(options.filter_options().folder(), "");
    options.on_filesystem_changes = true;
    assert!(options.filter_options().on_changes());
    assert_eq!(options.filter_options().folder(), "export");
}

#[test]
fn messages_are_worded_in_full() {
    assert_eq!(export_file_message("/tmp/x", "/tmp/x/tree/file1.drawio"), "+ export file : tree/file1.drawio");
    assert_eq!(export_file_message("a/b", "a/c/d.drawio"), "+ export file : ../c/d.drawio");
    assert_eq!(export_page_message(0, "Page-1"), "++ export page 1 : Page-1");
    assert_eq!(export_page_message(10, "Page 2"), "++ export page 11 : Page 2");
    assert_eq!(generate_message("png"), "+++ generate png file");
    assert_eq!(include_links_message("adoc"), "+++ include links in adoc file");
    let link = Link {
        target: "https://github.com/rlespinasse/drawio-exporter".to_string(),
        label: "Text Link 1".to_string(),
    };
    assert_eq!(
        link_message(&link),
        "link 'Text Link 1' to https://github.com/rlespinasse/drawio-exporter"
    );
    let some = |text: &str| Some(text.to_string());
    assert_eq!(
        skip_message(&SkipReason::UnsupportedPageLink {
            label: some("Text Page Link 1"),
            target: some("data:page/id,ywT4ct3H2L5pf33UiNoI")
        }),
        "warn: link not included, page link isn't supported, link 'Text Page Link 1' to data:page/id,ywT4ct3H2L5pf33UiNoI"
    );
    assert_eq!(
        skip_message(&SkipReason::MissingTarget { label: some("Empty Link"), target: some("") }),
        "warn: link not included, due to missing url: link 'Empty Link' to [missing]"
    );
    assert_eq!(
        skip_message(&SkipReason::MissingLabel {
            label: some(""),
            target: some("https://github.com/rlespinasse/drawio-exporter")
        }),
        "warn: link not included, due to missing label: link '[missing]' to https://github.com/rlespinasse/drawio-exporter"
    );
    assert_eq!(
        skip_message(&SkipReason::MissingLabel { label: None, target: None }),
        "warn: link not included, due to missing label: link '[missing]' to [missing]"
    );
}

#[test]
fn the_text_beside_an_image_names_the_image_and_lists_the_links() {
    let links = vec![
        Link { target: "https://example.org/a--b".to_string(), label: "First".to_string() },
        Link { target: "https://example.org/c".to_string(), label: "Second one".to_string() },
    ];
    assert_eq!(
        generate_formatted_text_file("adoc", "file1", "Page 1", "file1-Page-1.png", &links),
        "= file1 Page 1\n\nimage::file1-Page-1.png[Page 1]\n\n* https://example.org/a\\--b[First]\n* https://example.org/c[Second one]\n"
    );
    assert_eq!(
        generate_formatted_text_file("md", "file1", "Page 1", "file1-Page-1.png", &links),
        "# file1 Page 1\n\n![Page 1][file1-Page-1.png]\n\n* [First](https://example.org/a--b)\n* [Second one](https://example.org/c)\n"
    );
    assert_eq!(
        generate_formatted_text_file("md", "f", "P", "f.png", &vec![]),
        "# f P\n\n![P][f.png]\n\n"
    );
    assert_eq!(generate_formatted_text_file("pdf", "f", "P", "f.pdf", &links), "");
}

#[test]
fn the_report_follows_the_elements() {
    let cell = |value: &str| Element::MxCell(MxCell { value: Some(value.to_string()) });
    let object = |label: &str, link: &str| {
        Element::UserObject(UserObject {
            label: Some(label.to_string()),
            link: Some(link.to_string()),
        })
    };
    let diagram = Diagram {
        id: "id".to_string(),
        name: "Page-1".to_string(),
        mx_graph_model: MxGraphModel {
            root: Root {
                elements: vec![
                    cell(""),
                    cell("<a href=\"data:page/id,ywT4ct3H2L5pf33UiNoI\">Text Page Link 1</a>"),
                    object("Shape Page Link 1", "data:page/id,ywT4ct3H2L5pf33UiNoI"),
                    Element::Other,
                    cell("<a href=\"https://github.com/rlespinasse/drawio-exporter\">Text Link 1</a>"),
                    object("Shape Link 1", "https://github.com/rlespinasse/drawio-exporter"),
                ],
            },
        },
    };
    assert_eq!(
        link_report(&diagram),
        vec![
            "warn: link not included, page link isn't supported, link 'Text Page Link 1' to data:page/id,ywT4ct3H2L5pf33UiNoI",
            "warn: link not included, page link isn't supported, link 'Shape Page Link 1' to data:page/id,ywT4ct3H2L5pf33UiNoI",
            "link 'Text Link 1' to https://github.com/rlespinasse/drawio-exporter",
            "link 'Shape Link 1' to https://github.com/rlespinasse/drawio-exporter",
        ]
    );
}
