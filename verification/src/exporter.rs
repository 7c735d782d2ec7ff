//! The plan of an export: which files are looked at, how the exported
//! files are called, and what is written beside them.

use vstd::prelude::*;
use crate::drawio_desktop::{ExportArguments, ExportArgumentsView};
use crate::explorer::filesystem::FilterOptions;
use crate::explorer::{DiscoveryError, DiscoveryErrorView};
use crate::mxfile::{
    outcome_of, Diagram, ElementView, Link, LinkView, Outcome, OutcomeView, SkipReason, SkipView,
};
use crate::text::{chars_of, replace_all, replaced, same_text, string_of};

verus! {

/// The path that stands for the current directory.
pub const CURRENT_DIRECTORY: &'static str = ".";

/// What the user asked for.
pub struct ExporterOptions<'a> {
    pub application: Option<&'a str>,
    pub drawio_desktop_headless: bool,
    pub folder: &'a str,
    pub on_filesystem_changes: bool,
    pub on_git_changes_since_reference: Option<&'a str>,
    pub remove_page_suffix: bool,
    pub path: &'a str,
    pub format: &'a str,
    pub border: &'a str,
    pub scale: Option<&'a str>,
    pub enable_plugins: bool,
    pub width: Option<&'a str>,
    pub height: Option<&'a str>,
    pub crop: bool,
    pub transparent: bool,
    pub quality: &'a str,
    pub uncompressed: bool,
    pub embed_svg_images: bool,
    pub embed_diagram: bool,
}

/// `base` as `relative_path::RelativePath::relative` sees `path` from it.
pub uninterp spec fn relative_to(base: Seq<char>, path: Seq<char>) -> Seq<char>;

/// Calls `RelativePath::relative`: the path that leads from `base` to
/// `path`, both taken as relative paths. The result depends on `base` and
/// `path` alone.
#[verifier::external_body]
pub(crate) fn relative_path(base: &str, path: &str) -> (r: String)
    ensures
        r@ == relative_to(base@, path@),
{
    relative_path::RelativePath::new(base).relative(relative_path::RelativePath::new(path))
        .into_string()
}

/// The decimal digit for `d`.
pub open spec fn digit(d: int) -> char {
    ((48 + d) as u8) as char
}

/// `n` in decimal notation.
pub open spec fn decimal(n: nat) -> Seq<char>
    decreases n,
{
    if n < 10 {
        seq![digit(n as int)]
    } else {
        decimal(n / 10).push(digit((n % 10) as int))
    }
}

/// The format in which the application is asked to render: a text format
/// stands beside an image.
pub open spec fn rendered_format(format: Seq<char>) -> Seq<char> {
    if format == "adoc"@ || format == "md"@ {
        "png"@
    } else {
        format
    }
}

/// What follows the stem of the diagram file in the name of an exported
/// page: a hyphen and the name of the page, with a hyphen for each space.
pub open spec fn suffix_of(with_page_suffix: bool, name: Seq<char>) -> Seq<char> {
    if with_page_suffix {
        seq!['-'] + replaced(name, seq![' '], seq!['-'])
    } else {
        Seq::empty()
    }
}

/// Writes `n` in decimal notation.
pub fn decimal_digits(n: u128) -> (r: Vec<char>)
    ensures
        r@ == decimal(n as nat),
    decreases n,
{
    if n < 10 {
        let d: u8 = 48 + (n as u8);
        let mut r: Vec<char> = Vec::new();
        r.push(d as char);
        assert(r@ =~= seq![digit(n as int)]);
        r
    } else {
        let mut r = decimal_digits(n / 10);
        let d: u8 = 48 + ((n % 10) as u8);
        r.push(d as char);
        r
    }
}

/// The path to explore: the current directory where none is given.
pub fn input_path(path: &str) -> (r: String)
    ensures
        r@ == if path@.len() == 0 {
            CURRENT_DIRECTORY@
        } else {
            path@
        },
{
    if path.is_empty() {
        CURRENT_DIRECTORY.to_owned()
    } else {
        path.to_owned()
    }
}

/// Refuses a path to explore that does not exist. This is checked before
/// anything is looked for.
pub fn check_input_path(path: &str, exists: bool) -> (r: Result<(), DiscoveryError>)
    ensures
        r is Ok == exists,
        r matches Err(error) ==> error@ == (DiscoveryErrorView::PathNotFound { path: path@ }),
{
    if exists {
        Ok(())
    } else {
        Err(DiscoveryError::PathNotFound { path: path.to_owned() })
    }
}

/// Whether the name of an exported page carries the name of the page: it
/// does unless the user asked otherwise and the file has one page.
pub fn with_page_suffix(remove_page_suffix: bool, pages: usize) -> (r: bool)
    ensures
        r == !(remove_page_suffix && pages == 1),
{
    !(remove_page_suffix && pages == 1)
}

/// What follows the stem of the diagram file in the name of an exported page.
pub fn file_stem_suffix(with_page_suffix: bool, name: &str) -> (r: String)
    ensures
        r@ == suffix_of(with_page_suffix, name@),
{
    if with_page_suffix {
        let mut space: Vec<char> = Vec::new();
        space.push(' ');
        let mut hyphen: Vec<char> = Vec::new();
        hyphen.push('-');
        assert(space@ =~= seq![' ']);
        assert(hyphen@ =~= seq!['-']);
        let page = replace_all(&chars_of(name), &space, &hyphen);
        let mut r = String::new();
        r.push('-');
        r.append(string_of(&page).as_str());
        assert(r@ =~= seq!['-'] + page@);
        r
    } else {
        String::new()
    }
}

/// The format in which the application is asked to render.
pub fn real_format<'a>(format: &'a str) -> (r: &'a str)
    ensures
        r@ == rendered_format(format@),
{
    if same_text(format, "adoc") || same_text(format, "md") {
        "png"
    } else {
        format
    }
}

/// Whether a text is written beside the exported image.
pub fn is_text_format(format: &str) -> (r: bool)
    ensures
        r == (format@ == "adoc"@ || format@ == "md"@),
{
    same_text(format, "adoc") || same_text(format, "md")
}

/// The name of an exported file: stem, suffix, a dot and the format.
pub fn output_filename(file_stem: &str, file_stem_suffix: &str, format: &str) -> (r: String)
    ensures
        r@ == file_stem@ + file_stem_suffix@ + seq!['.'] + format@,
{
    let mut r = String::new();
    r.append(file_stem);
    r.append(file_stem_suffix);
    r.push('.');
    r.append(format);
    assert(r@ =~= file_stem@ + file_stem_suffix@ + seq!['.'] + format@);
    r
}

impl<'a> ExporterOptions<'a> {
    /// The options of discovery by walking the tree.
    pub fn filter_options(&self) -> (r: FilterOptions<'a>)
        ensures
            r@.on_changes == self.on_filesystem_changes,
            self.on_filesystem_changes ==> r@.folder == self.folder@,
            !self.on_filesystem_changes ==> r@.folder.len() == 0,
    {
        if self.on_filesystem_changes {
            FilterOptions::filter_on(self.folder)
        } else {
            FilterOptions::no_filtering()
        }
    }

    /// The arguments of the application for the export of one page: the
    /// page at `page_index` of `input`, rendered as `format` to `output`.
    pub fn export_arguments(
        &self,
        input: &'a str,
        output: Option<&'a str>,
        format: &'a str,
        page_index: &'a str,
    ) -> (r: ExportArguments<'a>)
        ensures
            r@ == (ExportArgumentsView {
                recursive: false,
                output: output.deep_view(),
                input: input@,
                format: format@,
                border: self.border@,
                scale: self.scale.deep_view(),
                width: self.width.deep_view(),
                height: self.height.deep_view(),
                crop: self.crop,
                embed_diagram: self.embed_diagram,
                transparent: self.transparent,
                quality: self.quality@,
                uncompressed: self.uncompressed,
                all_pages: false,
                page_index: Some(page_index@),
                page_range: None,
                embed_svg_images: self.embed_svg_images,
                enable_plugins: self.enable_plugins,
            }),
    {
        ExportArguments {
            recursive: false,
            output,
            input,
            format,
            border: self.border,
            scale: self.scale,
            width: self.width,
            height: self.height,
            crop: self.crop,
            embed_diagram: self.embed_diagram,
            transparent: self.transparent,
            quality: self.quality,
            uncompressed: self.uncompressed,
            all_pages: false,
            page_index: Some(page_index),
            page_range: None,
            embed_svg_images: self.embed_svg_images,
            enable_plugins: self.enable_plugins,
        }
    }
}

/// A text, or a mark where there is none.
pub open spec fn shown(text: Option<Seq<char>>) -> Seq<char> {
    match text {
        Some(text) => text,
        None => "[missing]"@,
    }
}

/// What is reported of an element that gives no link.
pub open spec fn skip_message_of(reason: SkipView) -> Seq<char> {
    match reason {
        SkipView::MissingLabel { label, target } => {
            "warn: link not included, due to missing label: link '[missing]' to "@ + shown(
                target,
            )
        },
        SkipView::MissingTarget { label, target } => {
            "warn: link not included, due to missing url: link '"@ + shown(label)
                + "' to [missing]"@
        },
        SkipView::UnsupportedPageLink { label, target } => {
            "warn: link not included, page link isn't supported, link '"@ + shown(label)
                + "' to "@ + shown(target)
        },
    }
}

/// What is reported of a link.
pub open spec fn link_message_of(link: LinkView) -> Seq<char> {
    "link '"@ + link.label + "' to "@ + link.target
}

/// The head of the text that is written beside an exported image: a title
/// made of the stem of the diagram file and the name of the page, and the
/// image. A format that is no text format has no text.
pub open spec fn text_header(
    format: Seq<char>,
    file_stem: Seq<char>,
    name: Seq<char>,
    image: Seq<char>,
) -> Seq<char> {
    if format == "adoc"@ {
        "= "@ + file_stem + " "@ + name + "\n\nimage::"@ + image + "["@ + name + "]\n\n"@
    } else if format == "md"@ {
        "# "@ + file_stem + " "@ + name + "\n\n!["@ + name + "]["@ + image + "]\n\n"@
    } else {
        Seq::empty()
    }
}

/// The line for a link in the text that is written beside an exported
/// image. In `adoc` a double hyphen in the target is protected by a
/// backslash, as it would be read as a dash.
pub open spec fn link_line(format: Seq<char>, link: LinkView) -> Seq<char> {
    if format == "adoc"@ {
        "* "@ + replaced(link.target, "--"@, "\\--"@) + "["@ + link.label + "]\n"@
    } else if format == "md"@ {
        "* ["@ + link.label + "]("@ + link.target + ")\n"@
    } else {
        Seq::empty()
    }
}

/// The lines for `links`, in order.
pub open spec fn link_lines(format: Seq<char>, links: Seq<LinkView>) -> Seq<char>
    decreases links.len(),
{
    if links.len() == 0 {
        Seq::empty()
    } else {
        link_lines(format, links.drop_last()) + link_line(format, links.last())
    }
}

/// The text that is written beside an exported image.
pub open spec fn formatted_text(
    format: Seq<char>,
    file_stem: Seq<char>,
    name: Seq<char>,
    image: Seq<char>,
    links: Seq<LinkView>,
) -> Seq<char> {
    text_header(format, file_stem, name, image) + link_lines(format, links)
}

/// A text, or a mark where there is none.
pub fn show(text: &Option<String>) -> (r: String)
    ensures
        r@ == shown(text.deep_view()),
{
    match text {
        Some(text) => text.clone(),
        None => "[missing]".to_owned(),
    }
}

/// Tells that the file at `path` is exported, as seen from `base`.
pub fn export_file_message(base: &str, path: &str) -> (r: String)
    ensures
        r@ == "+ export file : "@ + relative_to(base@, path@),
{
    let mut r = "+ export file : ".to_owned();
    r.append(relative_path(base, path).as_str());
    r
}

/// Tells that the page at `position`, counted from zero, is exported.
pub fn export_page_message(position: usize, name: &str) -> (r: String)
    ensures
        r@ == "++ export page "@ + decimal((position + 1) as nat) + " : "@ + name@,
{
    let mut r = "++ export page ".to_owned();
    let number: u128 = position as u128 + 1;
    r.append(string_of(&decimal_digits(number)).as_str());
    r.append(" : ");
    r.append(name);
    assert(r@ =~= "++ export page "@ + decimal((position + 1) as nat) + " : "@ + name@);
    r
}

/// The position of a page, counted from zero, as the application takes it.
pub fn page_index(position: usize) -> (r: String)
    ensures
        r@ == decimal(position as nat),
{
    string_of(&decimal_digits(position as u128))
}

/// Tells that a file of `format` is generated.
pub fn generate_message(format: &str) -> (r: String)
    ensures
        r@ == "+++ generate "@ + format@ + " file"@,
{
    let mut r = "+++ generate ".to_owned();
    r.append(format);
    r.append(" file");
    assert(r@ =~= "+++ generate "@ + format@ + " file"@);
    r
}

/// Tells that the links are added to the file of `format`.
pub fn include_links_message(format: &str) -> (r: String)
    ensures
        r@ == "+++ include links in "@ + format@ + " file"@,
{
    let mut r = "+++ include links in ".to_owned();
    r.append(format);
    r.append(" file");
    assert(r@ =~= "+++ include links in "@ + format@ + " file"@);
    r
}

/// Tells of a link.
pub fn link_message(link: &Link) -> (r: String)
    ensures
        r@ == link_message_of(link@),
{
    let mut r = "link '".to_owned();
    r.append(link.label.as_str());
    r.append("' to ");
    r.append(link.target.as_str());
    assert(r@ =~= link_message_of(link@));
    r
}

/// Tells of an element that gives no link.
pub fn skip_message(reason: &SkipReason) -> (r: String)
    ensures
        r@ == skip_message_of(reason@),
{
    match reason {
        SkipReason::MissingLabel { label, target } => {
            let mut r =
                "warn: link not included, due to missing label: link '[missing]' to ".to_owned();
            r.append(show(target).as_str());
            r
        },
        SkipReason::MissingTarget { label, target } => {
            let mut r = "warn: link not included, due to missing url: link '".to_owned();
            r.append(show(label).as_str());
            r.append("' to [missing]");
            assert(r@ =~= skip_message_of(reason@));
            r
        },
        SkipReason::UnsupportedPageLink { label, target } => {
            let mut r =
                "warn: link not included, page link isn't supported, link '".to_owned();
            r.append(show(label).as_str());
            r.append("' to ");
            r.append(show(target).as_str());
            assert(r@ =~= skip_message_of(reason@));
            r
        },
    }
}

/// Writes the line for a link at the end of `text`.
pub fn push_link_line(text: &mut String, format: &str, link: &Link)
    ensures
        final(text)@ == old(text)@ + link_line(format@, link@),
{
    if same_text(format, "adoc") {
        let target = replace_all(
            &chars_of(link.target.as_str()),
            &chars_of("--"),
            &chars_of("\\--"),
        );
        text.append("* ");
        text.append(string_of(&target).as_str());
        text.append("[");
        text.append(link.label.as_str());
        text.append("]\n");
        assert(text@ =~= old(text)@ + link_line(format@, link@));
    } else if same_text(format, "md") {
        text.append("* [");
        text.append(link.label.as_str());
        text.append("](");
        text.append(link.target.as_str());
        text.append(")\n");
        assert(text@ =~= old(text)@ + link_line(format@, link@));
    } else {
        assert(text@ =~= old(text)@ + link_line(format@, link@));
    }
}

/// Writes the text that stands beside an exported image: a title, the
/// image, and a line for each link of the page.
pub fn generate_formatted_text_file(
    format: &str,
    file_stem: &str,
    name: &str,
    output_filename: &str,
    links: &Vec<Link>,
) -> (r: String)
    ensures
        r@ == formatted_text(format@, file_stem@, name@, output_filename@, links.deep_view()),
{
    let mut text = String::new();
    if same_text(format, "adoc") {
        text.append("= ");
        text.append(file_stem);
        text.append(" ");
        text.append(name);
        text.append("\n\nimage::");
        text.append(output_filename);
        text.append("[");
        text.append(name);
        text.append("]\n\n");
    } else if same_text(format, "md") {
        text.append("# ");
        text.append(file_stem);
        text.append(" ");
        text.append(name);
        text.append("\n\n![");
        text.append(name);
        text.append("][");
        text.append(output_filename);
        text.append("]\n\n");
    }
    assert(text@ =~= text_header(format@, file_stem@, name@, output_filename@));
    let ghost header = text@;
    let ghost all = links.deep_view();
    let mut at: usize = 0;
    assert(text@ =~= header + link_lines(format@, all.take(0)));
    while at < links.len()
        invariant
            at <= links.len(),
            all == links.deep_view(),
            text@ == header + link_lines(format@, all.take(at as int)),
        decreases links.len() - at,
    {
        assert(all.take(at + 1).drop_last() == all.take(at as int));
        assert(all.take(at + 1).last() == links@[at as int]@);
        push_link_line(&mut text, format, &links[at]);
        assert(text@ =~= header + link_lines(format@, all.take(at + 1)));
        at += 1;
    }
    assert(all.take(links.len() as int) == all);
    text
}

/// What is reported of an element that offers a label and a target.
pub open spec fn report_line(element: ElementView) -> Option<Seq<char>> {
    match outcome_of(element) {
        Some(OutcomeView::Link(link)) => Some(link_message_of(link)),
        Some(OutcomeView::Skipped(reason)) => Some(skip_message_of(reason)),
        None => None,
    }
}

/// What is reported of the elements of a page, in their order.
pub open spec fn link_report_of(elements: Seq<ElementView>) -> Seq<Seq<char>> {
    elements.filter_map(|element: ElementView| report_line(element))
}

/// Tells of each element of the page that offers a label and a target,
/// whether it gives a link or why it gives none, in the order of the elements.
pub fn link_report(diagram: &Diagram) -> (r: Vec<String>)
    ensures
        r.deep_view() == link_report_of(diagram@.elements),
{
    let elements = &diagram.mx_graph_model.root.elements;
    let ghost all = elements.deep_view();
    let mut lines: Vec<String> = Vec::new();
    let mut at: usize = 0;
    assert(lines.deep_view() =~= Seq::<Seq<char>>::empty());
    while at < elements.len()
        invariant
            at <= elements.len(),
            all == elements.deep_view(),
            lines.deep_view() == link_report_of(all.take(at as int)),
        decreases elements.len() - at,
    {
        assert(all.take(at + 1).drop_last() == all.take(at as int));
        assert(all.take(at + 1).last() == elements@[at as int]@);
        let ghost before = lines.deep_view();
        match elements[at].outcome() {
            Some(Outcome::Link(link)) => {
                let line = link_message(&link);
                lines.push(line);
                assert(lines.deep_view() == before + seq![line@]);
            },
            Some(Outcome::Skipped(reason)) => {
                let line = skip_message(&reason);
                lines.push(line);
                assert(lines.deep_view() == before + seq![line@]);
            },
            None => {},
        }
        at += 1;
    }
    assert(all.take(elements.len() as int) == all);
    lines
}

} // verus!
