//! The command line of the desktop application that renders the diagrams,
//! and the reading of what the application reports.

use vstd::prelude::*;
use crate::text::{contains, same_text};

verus! {

/// The text in the output of the application that tells of a failure.
pub const ERROR_MARKER: &'static str = "Error: ";

/// The platforms on which the application has a usual place.
#[derive(Debug, Clone, Copy, PartialEq, Eq)]
pub enum Platform {
    MacOs,
    Windows,
    Linux,
    Other,
}

/// Why the application could not be used.
#[derive(Debug, PartialEq, Eq)]
pub enum DesktopError {
    /// No path of the application is known.
    MissingApplication,
    /// The application ran and reported a failure; `output` is what it
    /// wrote to its error stream.
    ExportFailed { output: String },
}

/// A [`DesktopError`] as a mathematical value.
pub enum DesktopErrorView {
    MissingApplication,
    ExportFailed { output: Seq<char> },
}

impl View for DesktopError {
    type V = DesktopErrorView;

    open spec fn view(&self) -> DesktopErrorView {
        match self {
            DesktopError::MissingApplication => DesktopErrorView::MissingApplication,
            DesktopError::ExportFailed { output } => DesktopErrorView::ExportFailed {
                output: output@,
            },
        }
    }
}

/// The desktop application: its path, and whether it runs without a display.
pub struct DrawioDesktop<'a> {
    application: &'a str,
    is_headless: bool,
}

/// What to export, and how.
pub struct ExportArguments<'a> {
    pub recursive: bool,
    pub output: Option<&'a str>,
    pub input: &'a str,
    pub format: &'a str,
    pub border: &'a str,
    pub scale: Option<&'a str>,
    pub width: Option<&'a str>,
    pub height: Option<&'a str>,
    pub crop: bool,
    pub embed_diagram: bool,
    pub transparent: bool,
    pub quality: &'a str,
    pub uncompressed: bool,
    pub all_pages: bool,
    pub page_index: Option<&'a str>,
    pub page_range: Option<&'a str>,
    pub embed_svg_images: bool,
    pub enable_plugins: bool,
}

/// [`ExportArguments`] as a mathematical value.
pub struct ExportArgumentsView {
    pub recursive: bool,
    pub output: Option<Seq<char>>,
    pub input: Seq<char>,
    pub format: Seq<char>,
    pub border: Seq<char>,
    pub scale: Option<Seq<char>>,
    pub width: Option<Seq<char>>,
    pub height: Option<Seq<char>>,
    pub crop: bool,
    pub embed_diagram: bool,
    pub transparent: bool,
    pub quality: Seq<char>,
    pub uncompressed: bool,
    pub all_pages: bool,
    pub page_index: Option<Seq<char>>,
    pub page_range: Option<Seq<char>>,
    pub embed_svg_images: bool,
    pub enable_plugins: bool,
}

impl<'a> View for ExportArguments<'a> {
    type V = ExportArgumentsView;

    open spec fn view(&self) -> ExportArgumentsView {
        ExportArgumentsView {
            recursive: self.recursive,
            output: self.output.deep_view(),
            input: self.input@,
            format: self.format@,
            border: self.border@,
            scale: self.scale.deep_view(),
            width: self.width.deep_view(),
            height: self.height.deep_view(),
            crop: self.crop,
            embed_diagram: self.embed_diagram,
            transparent: self.transparent,
            quality: self.quality@,
            uncompressed: self.uncompressed,
            all_pages: self.all_pages,
            page_index: self.page_index.deep_view(),
            page_range: self.page_range.deep_view(),
            embed_svg_images: self.embed_svg_images,
            enable_plugins: self.enable_plugins,
        }
    }
}

/// The argument `name` where `on` holds, else nothing.
pub open spec fn flag(on: bool, name: Seq<char>) -> Seq<Seq<char>> {
    if on {
        seq![name]
    } else {
        Seq::empty()
    }
}

/// The argument `name` followed by `value` where there is a value, else nothing.
pub open spec fn option(value: Option<Seq<char>>, name: Seq<char>) -> Seq<Seq<char>> {
    match value {
        Some(value) => seq![name, value],
        None => Seq::empty(),
    }
}

/// The arguments of the application for an export, in the order in which
/// they are given. The input is always the last.
pub open spec fn shell_arguments(a: ExportArgumentsView) -> Seq<Seq<char>> {
    seq!["--export"@] + flag(a.recursive, "--recursive"@) + option(a.output, "--output"@)
        + seq!["--format"@, a.format] + seq!["--quality"@, a.quality] + flag(
        a.transparent,
        "--transparent"@,
    ) + flag(a.embed_diagram, "--embed-diagram"@) + seq!["--border"@, a.border] + option(
        a.scale,
        "--scale"@,
    ) + option(a.width, "--width"@) + option(a.height, "--height"@) + flag(a.crop, "--crop"@)
        + flag(a.all_pages, "--all-pages"@) + option(a.page_index, "--page-index"@) + option(
        a.page_range,
        "--page-range"@,
    ) + flag(a.uncompressed, "--uncompressed"@) + flag(a.embed_svg_images, "--embed-svg-images"@)
        + flag(a.enable_plugins, "--enable-plugins"@) + seq![a.input]
}

/// The arguments that let the application run without a display.
pub open spec fn headless_arguments(is_headless: bool) -> Seq<Seq<char>> {
    if is_headless {
        seq!["--no-sandbox"@, "--disable-dev-shm-usage"@]
    } else {
        Seq::empty()
    }
}

/// The usual place of the application on a platform.
pub open spec fn usual_place(platform: Platform) -> Option<Seq<char>> {
    match platform {
        Platform::MacOs => Some("/Applications/draw.io.app/Contents/MacOS/draw.io"@),
        Platform::Windows => Some("C:\\Program Files\\draw.io\\draw.io.exe"@),
        Platform::Linux => Some("/opt/drawio/drawio"@),
        Platform::Other => None,
    }
}

/// What a run of the application amounts to: a failure where the output
/// can be read and the run was not successful or the output tells of an
/// error, with what the error stream holds or, where that cannot be read,
/// with the reason.
pub open spec fn run_outcome(
    success: bool,
    output: Option<Seq<char>>,
    errors: Result<Seq<char>, Seq<char>>,
) -> Result<(), DesktopErrorView> {
    match output {
        Some(output) => if !success || contains(output, ERROR_MARKER@) {
            Err(
                DesktopErrorView::ExportFailed {
                    output: match errors {
                        Ok(text) => text,
                        Err(cause) => "unreadable output due to "@ + cause,
                    },
                },
            )
        } else {
            Ok(())
        },
        None => Ok(()),
    }
}

/// Evaluates the predicate `predicates::str::contains(pattern)` on `text`:
/// whether `pattern` occurs in `text`.
#[verifier::external_body]
pub(crate) fn text_contains(pattern: &str, text: &str) -> (r: bool)
    ensures
        r == contains(text@, pattern@),
{
    predicates::Predicate::eval(&predicates::str::contains(pattern), text)
}

/// Adds `name` to `arguments`.
fn push_argument<'a>(arguments: &mut Vec<&'a str>, name: &'a str)
    ensures
        final(arguments).deep_view() == old(arguments).deep_view() + seq![name@],
{
    arguments.push(name);
    assert(arguments.deep_view() =~= old(arguments).deep_view() + seq![name@]);
}

/// Adds `name` to `arguments` where `on` holds.
fn push_flag<'a>(arguments: &mut Vec<&'a str>, on: bool, name: &'a str)
    ensures
        final(arguments).deep_view() == old(arguments).deep_view() + flag(on, name@),
{
    if on {
        push_argument(arguments, name);
    } else {
        assert(arguments.deep_view() =~= old(arguments).deep_view() + flag(on, name@));
    }
}

/// Adds `name` and `value` to `arguments`.
fn push_pair<'a>(arguments: &mut Vec<&'a str>, name: &'a str, value: &'a str)
    ensures
        final(arguments).deep_view() == old(arguments).deep_view() + seq![name@, value@],
{
    arguments.push(name);
    arguments.push(value);
    assert(arguments.deep_view() =~= old(arguments).deep_view() + seq![name@, value@]);
}

/// Adds `name` and the value to `arguments` where there is a value.
fn push_option<'a>(arguments: &mut Vec<&'a str>, value: Option<&'a str>, name: &'a str)
    ensures
        final(arguments).deep_view() == old(arguments).deep_view() + option(
            value.deep_view(),
            name@,
        ),
{
    match value {
        Some(value) => {
            push_pair(arguments, name, value);
        },
        None => {
            assert(arguments.deep_view() =~= old(arguments).deep_view() + option(
                value.deep_view(),
                name@,
            ));
        },
    }
}

impl Platform {
    /// The platform that the name of an operating system stands for.
    pub fn from_name(name: &str) -> (r: Platform)
        ensures
            r == if name@ == "macos"@ {
                Platform::MacOs
            } else if name@ == "windows"@ {
                Platform::Windows
            } else if name@ == "linux"@ {
                Platform::Linux
            } else {
                Platform::Other
            },
    {
        if same_text(name, "macos") {
            Platform::MacOs
        } else if same_text(name, "windows") {
            Platform::Windows
        } else if same_text(name, "linux") {
            Platform::Linux
        } else {
            Platform::Other
        }
    }
}

/// The usual place of the application on `platform`. Whether the
/// application is there is for the caller to find out.
pub fn default_application_os(platform: Platform) -> (r: Option<&'static str>)
    ensures
        r.deep_view() == usual_place(platform),
{
    match platform {
        Platform::MacOs => Some("/Applications/draw.io.app/Contents/MacOS/draw.io"),
        Platform::Windows => Some("C:\\Program Files\\draw.io\\draw.io.exe"),
        Platform::Linux => Some("/opt/drawio/drawio"),
        Platform::Other => None,
    }
}

impl<'a> ExportArguments<'a> {
    /// The arguments of the application for this export.
    pub fn as_shell_arguments(&self) -> (r: Vec<&'a str>)
        ensures
            r.deep_view() == shell_arguments(self@),
    {
        let mut arguments: Vec<&'a str> = Vec::new();
        assert(arguments.deep_view() =~= Seq::<Seq<char>>::empty());
        push_argument(&mut arguments, "--export");
        assert(arguments.deep_view() =~= seq!["--export"@]);
        push_flag(&mut arguments, self.recursive, "--recursive");
        push_option(&mut arguments, self.output, "--output");
        push_pair(&mut arguments, "--format", self.format);
        push_pair(&mut arguments, "--quality", self.quality);
        push_flag(&mut arguments, self.transparent, "--transparent");
        push_flag(&mut arguments, self.embed_diagram, "--embed-diagram");
        push_pair(&mut arguments, "--border", self.border);
        push_option(&mut arguments, self.scale, "--scale");
        push_option(&mut arguments, self.width, "--width");
        push_option(&mut arguments, self.height, "--height");
        push_flag(&mut arguments, self.crop, "--crop");
        push_flag(&mut arguments, self.all_pages, "--all-pages");
        push_option(&mut arguments, self.page_index, "--page-index");
        push_option(&mut arguments, self.page_range, "--page-range");
        push_flag(&mut arguments, self.uncompressed, "--uncompressed");
        push_flag(&mut arguments, self.embed_svg_images, "--embed-svg-images");
        push_flag(&mut arguments, self.enable_plugins, "--enable-plugins");
        push_argument(&mut arguments, self.input);
        arguments
    }
}

impl<'a> DrawioDesktop<'a> {
    /// The path of the application.
    pub closed spec fn application_spec(&self) -> Seq<char> {
        self.application@
    }

    /// Whether the application runs without a display.
    pub closed spec fn is_headless_spec(&self) -> bool {
        self.is_headless
    }

    /// The application at `application_path` or, where none is given, at
    /// `default_application`.
    pub fn new(
        application_path: Option<&'a str>,
        default_application: Option<&'a str>,
        is_headless: bool,
    ) -> (r: Result<DrawioDesktop<'a>, DesktopError>)
        ensures
            match r {
                Ok(desktop) => {
                    &&& desktop.is_headless_spec() == is_headless
                    &&& application_path is Some ==> desktop.application_spec()
                        == application_path->0@
                    &&& application_path is None ==> default_application is Some
                        && desktop.application_spec() == default_application->0@
                },
                Err(error) => {
                    &&& error == DesktopError::MissingApplication
                    &&& application_path is None
                    &&& default_application is None
                },
            },
    {
        let application = match application_path {
            Some(path) => path,
            None => match default_application {
                Some(path) => path,
                None => {
                    return Err(DesktopError::MissingApplication);
                },
            },
        };
        Ok(DrawioDesktop { application, is_headless })
    }

    /// The path of the application.
    pub fn application(&self) -> (r: &'a str)
        ensures
            r@ == self.application_spec(),
    {
        self.application
    }

    /// The arguments with which the application is run for an export.
    pub fn command_line(&self, arguments: &ExportArguments<'a>) -> (r: Vec<&'a str>)
        ensures
            r.deep_view() == shell_arguments(arguments@) + headless_arguments(
                self.is_headless_spec(),
            ),
    {
        let mut shell_arguments = arguments.as_shell_arguments();
        let ghost before = shell_arguments.deep_view();
        if self.is_headless {
            push_argument(&mut shell_arguments, "--no-sandbox");
            push_argument(&mut shell_arguments, "--disable-dev-shm-usage");
            assert(shell_arguments.deep_view() =~= before + headless_arguments(true));
        } else {
            assert(shell_arguments.deep_view() =~= before + headless_arguments(false));
        }
        shell_arguments
    }
}

/// Decides whether a run of the application failed. `success` tells
/// whether the run ended well, `output` is what the application wrote,
/// where that is text, and `errors` is what it wrote to its error stream
/// or, where that is no text, the reason.
pub fn execute(success: bool, output: Option<&str>, errors: Result<String, String>) -> (r: Result<
    (),
    DesktopError,
>)
    ensures
        match r {
            Ok(_) => run_outcome(
                success,
                output.deep_view(),
                match errors {
                    Ok(text) => Ok(text@),
                    Err(cause) => Err(cause@),
                },
            ) is Ok,
            Err(error) => run_outcome(
                success,
                output.deep_view(),
                match errors {
                    Ok(text) => Ok(text@),
                    Err(cause) => Err(cause@),
                },
            ) == Err::<(), DesktopErrorView>(error@),
        },
{
    match output {
        Some(output) => {
            if !success || text_contains(ERROR_MARKER, output) {
                let output = match errors {
                    Ok(text) => text,
                    Err(cause) => String::from_str("unreadable output due to ").concat(
                        cause.as_str(),
                    ),
                };
                Err(DesktopError::ExportFailed { output })
            } else {
                Ok(())
            }
        },
        None => Ok(()),
    }
}

} // verus!
