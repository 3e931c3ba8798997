//! The decisions of the compiler bindings: what a compilation's outcome is
//! answered with, which format a query serializes to, which format an output
//! path asks for, and where each compiled page is written.
use vstd::prelude::*;
use crate::diagnostics::{
    create_typst_error_details_from_diagnostics, create_typst_warning_details_from_diagnostics,
    details_view, diagnostics_view, error_details, tracepoint_text, warning_details, CompilationResult,
    Diagnostic,
    TypstDiagnosticDetails,
};
use crate::error::{BindingError, BindingErrorView};
use crate::output_template::{
    formatted, has_indexable_template, is_indexable, numbered_page_template, padded_page_template,
    page_template,
};
use crate::page_naming::{lemma_padded_paths_sort_in_page_order, lemma_pages_get_distinct_paths, lex_less};
use crate::decimal::{decimal, decimal_chars};
use crate::text::{contains_seq, ends_with_seq, str_ends_with, str_equals, string_of, to_owned_string};

verus! {

/// The document that a compiler is built for: a file on disk, or source
/// bytes with the root directory that relative paths resolve against. Paths
/// are held as the bytes of the operating system's string for them.
#[derive(Debug, Clone, PartialEq, Eq)]
pub enum Input {
    Path(Vec<u8>),
    Bytes { data: Vec<u8>, root: Vec<u8> },
}

/// The mathematical value of an [`Input`].
pub enum InputView {
    Path(Seq<u8>),
    Bytes { data: Seq<u8>, root: Seq<u8> },
}

impl View for Input {
    type V = InputView;

    open spec fn view(&self) -> InputView {
        match self {
            Input::Path(path) => InputView::Path(path@),
            Input::Bytes { data, root } => InputView::Bytes { data: data@, root: root@ },
        }
    }
}

/// The input for source bytes and an optional root directory: the root
/// given, or the empty path (the current directory) when none is.
pub open spec fn bytes_input(data: Seq<u8>, root: Option<Seq<u8>>) -> InputView {
    InputView::Bytes {
        data,
        root: match root {
            Some(given) => given,
            None => Seq::empty(),
        },
    }
}

/// Building from bytes without a root is building from them with the empty
/// root: both give the same input.
pub proof fn lemma_absent_root_is_empty_root(data: Seq<u8>)
    ensures
        bytes_input(data, None) == bytes_input(data, Some(Seq::<u8>::empty())),
{
}

impl Input {
    /// The input for the file at `path`.
    pub fn from_path(path: Vec<u8>) -> (r: Input)
        ensures
            r@ == InputView::Path(path@),
    {
        Input::Path(path)
    }

    /// The input for source bytes; the root directory is the empty path
    /// (the current directory) when none is given.
    pub fn from_bytes(data: Vec<u8>, root: Option<Vec<u8>>) -> (r: Input)
        ensures
            r@ == bytes_input(
                data@,
                match root {
                    Some(given) => Some(given@),
                    None => None,
                },
            ),
    {
        let root = match root {
            Some(given) => given,
            None => Vec::new(),
        };
        Input::Bytes { data, root }
    }
}

/// What compiling a document gave: the compiled buffers (one per page for
/// images, one for a PDF) with the warnings, or the errors with the warnings.
pub type CompileOutcome = Result<(Vec<Vec<u8>>, Vec<Diagnostic>), (Vec<Diagnostic>, Vec<Diagnostic>)>;

/// The answer to a compilation that ignores its warnings: the buffers, or the
/// details of the first error.
pub fn compile_result(outcome: CompileOutcome) -> (r: Result<Vec<Vec<u8>>, TypstDiagnosticDetails>)
    ensures
        outcome is Ok <==> r is Ok,
        r matches Ok(buffers) ==> buffers == outcome->Ok_0.0,
        r matches Err(details) ==> details@ == error_details(
            diagnostics_view(outcome->Err_0.0@),
        ),
        r matches Err(details) ==> (outcome->Err_0.0@.len() > 0 ==> {
            let first = outcome->Err_0.0@[0];
            &&& details.message@ == first.message@
            &&& details.hints@.len() == first.hints@.len()
            &&& forall|k: int|
                0 <= k < details.hints@.len() ==> #[trigger] details.hints@[k]@ == first.hints@[k]@
            &&& details.trace@.len() == first.trace@.len()
            &&& forall|k: int|
                0 <= k < details.trace@.len() ==> #[trigger] details.trace@[k]@ == seq![
                    'a',
                    't',
                    ' ',
                ] + tracepoint_text(first.trace@[k]@)
        }),
        r matches Err(details) ==> (outcome->Err_0.0@.len() == 0 ==> details.message@.len() == 0
            && details.hints@.len() == 0 && details.trace@.len() == 0),
{
    match outcome {
        Ok((buffers, _warnings)) => Ok(buffers),
        Err((errors, _warnings)) => Err(
            create_typst_error_details_from_diagnostics(errors.as_slice()),
        ),
    }
}

/// The answer to a compilation that reports its warnings: the buffers with
/// the details of every warning, or the details of the first error.
pub fn compile_with_warnings_result(outcome: CompileOutcome) -> (r: Result<
    CompilationResult,
    TypstDiagnosticDetails,
>)
    ensures
        outcome is Ok <==> r is Ok,
        r matches Ok(result) ==> result.data == outcome->Ok_0.0 && details_view(
            result.warnings@,
        ) == warning_details(diagnostics_view(outcome->Ok_0.1@)),
        r matches Ok(result) ==> {
            let warnings = outcome->Ok_0.1@;
            &&& result.warnings@.len() == warnings.len()
            &&& forall|i: int|
                0 <= i < warnings.len() ==> {
                    &&& (#[trigger] result.warnings@[i]).message@ == warnings[i].message@
                    &&& result.warnings@[i].hints@.len() == warnings[i].hints@.len()
                    &&& forall|k: int|
                        0 <= k < result.warnings@[i].hints@.len() ==> #[trigger] result.warnings@[
                            i
                        ].hints@[k]@ == warnings[i].hints@[k]@
                    &&& result.warnings@[i].trace@.len() == warnings[i].trace@.len()
                    &&& forall|k: int|
                        0 <= k < result.warnings@[i].trace@.len() ==> #[trigger] result.warnings@[
                            i
                        ].trace@[k]@ == seq!['a', 't', ' '] + tracepoint_text(
                            warnings[i].trace@[k]@,
                        )
                }
        },
        r matches Err(details) ==> details@ == error_details(
            diagnostics_view(outcome->Err_0.0@),
        ),
        r matches Err(details) ==> (outcome->Err_0.0@.len() > 0 ==> {
            let first = outcome->Err_0.0@[0];
            &&& details.message@ == first.message@
            &&& details.hints@.len() == first.hints@.len()
            &&& forall|k: int|
                0 <= k < details.hints@.len() ==> #[trigger] details.hints@[k]@ == first.hints@[k]@
            &&& details.trace@.len() == first.trace@.len()
            &&& forall|k: int|
                0 <= k < details.trace@.len() ==> #[trigger] details.trace@[k]@ == seq![
                    'a',
                    't',
                    ' ',
                ] + tracepoint_text(first.trace@[k]@)
        }),
{
    match outcome {
        Ok((buffers, warnings)) => {
            let warning_details = create_typst_warning_details_from_diagnostics(
                warnings.as_slice(),
            );
            Ok(CompilationResult { data: buffers, warnings: warning_details })
        },
        Err((errors, _warnings)) => Err(
            create_typst_error_details_from_diagnostics(errors.as_slice()),
        ),
    }
}

/// The format that query results are serialized to.
#[derive(PartialEq, Eq, Structural, Clone, Copy, Debug)]
pub enum SerializationFormat {
    Json,
    Yaml,
}

/// The format that a query's `format` argument names; JSON when none is
/// given.
pub open spec fn serialization_format_named(format: Option<Seq<char>>) -> Option<
    SerializationFormat,
> {
    match format {
        None => Some(SerializationFormat::Json),
        Some(name) => if name == "json"@ {
            Some(SerializationFormat::Json)
        } else if name == "yaml"@ {
            Some(SerializationFormat::Yaml)
        } else {
            None
        },
    }
}

/// The error raised for a format that is neither JSON nor YAML.
pub open spec fn unsupported_format_error() -> BindingErrorView {
    BindingErrorView::ValueError("unsupported serialization format"@)
}

/// The serialization format of a query: `"json"` (the default) or `"yaml"`;
/// any other name is a `ValueError`.
pub fn serialization_format(format: Option<&str>) -> (r: Result<SerializationFormat, BindingError>)
    ensures
        serialization_format_named(
            match format {
                Some(f) => Some(f@),
                None => None,
            },
        ) matches Some(f) ==> r == Ok::<SerializationFormat, BindingError>(f),
        serialization_format_named(
            match format {
                Some(f) => Some(f@),
                None => None,
            },
        ) is None ==> (r matches Err(e) && e@ == unsupported_format_error()),
{
    match format {
        None => Ok(SerializationFormat::Json),
        Some(name) => {
            if str_equals(name, "json") {
                Ok(SerializationFormat::Json)
            } else if str_equals(name, "yaml") {
                Ok(SerializationFormat::Yaml)
            } else {
                Err(BindingError::ValueError(to_owned_string("unsupported serialization format")))
            }
        },
    }
}

/// The answer to a query: its serialized result, or its failure message as a
/// `RuntimeError`.
pub fn query_result(result: Result<String, String>) -> (r: Result<String, BindingError>)
    ensures
        result matches Ok(data) ==> r == Ok::<String, BindingError>(data),
        result matches Err(msg) ==> (r matches Err(e) && e@ == BindingErrorView::RuntimeError(
            msg@,
        )),
{
    match result {
        Ok(data) => Ok(data),
        Err(msg) => Err(BindingError::RuntimeError(msg)),
    }
}

/// The export format for an output path: the format given, if any; else the
/// one that the path's extension `.pdf`, `.png` or `.svg` names; else none.
pub open spec fn output_format_for(format: Option<Seq<char>>, output: Seq<char>) -> Option<
    Seq<char>,
> {
    match format {
        Some(f) => Some(f),
        None => if ends_with_seq(output, ".pdf"@) {
            Some("pdf"@)
        } else if ends_with_seq(output, ".png"@) {
            Some("png"@)
        } else if ends_with_seq(output, ".svg"@) {
            Some("svg"@)
        } else {
            None
        },
    }
}

/// An output path ends with at most one of `.pdf`, `.png` and `.svg`.
proof fn lemma_extensions_exclusive(output: Seq<char>)
    ensures
        !(ends_with_seq(output, ".pdf"@) && ends_with_seq(output, ".png"@)),
        !(ends_with_seq(output, ".pdf"@) && ends_with_seq(output, ".svg"@)),
        !(ends_with_seq(output, ".png"@) && ends_with_seq(output, ".svg"@)),
{
    reveal_strlit(".pdf");
    reveal_strlit(".png");
    reveal_strlit(".svg");
    let n = output.len() as int;
    if ends_with_seq(output, ".pdf"@) && ends_with_seq(output, ".png"@) {
        assert(output.subrange(n - 4, n)[2] == output[n - 2]);
        assert(".pdf"@[2] != ".png"@[2]);
    }
    if ends_with_seq(output, ".pdf"@) && ends_with_seq(output, ".svg"@) {
        assert(output.subrange(n - 4, n)[1] == output[n - 3]);
        assert(".pdf"@[1] != ".svg"@[1]);
    }
    if ends_with_seq(output, ".png"@) && ends_with_seq(output, ".svg"@) {
        assert(output.subrange(n - 4, n)[1] == output[n - 3]);
        assert(".png"@[1] != ".svg"@[1]);
    }
}

/// A format given explicitly is used as it is; without one, an output path
/// ending with `.pdf`, `.png` or `.svg` asks for `pdf`, `png` or `svg`, and
/// any other path asks for no format.
pub proof fn lemma_output_format_from_extension(output: Seq<char>)
    ensures
        forall|f: Seq<char>| #[trigger] output_format_for(Some(f), output) == Some(f),
        ends_with_seq(output, ".pdf"@) ==> output_format_for(None, output) == Some("pdf"@),
        ends_with_seq(output, ".png"@) ==> output_format_for(None, output) == Some("png"@),
        ends_with_seq(output, ".svg"@) ==> output_format_for(None, output) == Some("svg"@),
        !ends_with_seq(output, ".pdf"@) && !ends_with_seq(output, ".png"@) && !ends_with_seq(
            output,
            ".svg"@,
        ) ==> output_format_for(None, output) is None,
{
    lemma_extensions_exclusive(output);
}

/// The export format for writing to `output`.
pub fn output_format(format: Option<&str>, output: &str) -> (r: Option<String>)
    ensures
        match r {
            Some(f) => output_format_for(
                match format {
                    Some(g) => Some(g@),
                    None => None,
                },
                output@,
            ) == Some(f@),
            None => output_format_for(
                match format {
                    Some(g) => Some(g@),
                    None => None,
                },
                output@,
            ) is None,
        },
        format matches Some(g) ==> (r matches Some(f) && f@ == g@),
        format is None && ends_with_seq(output@, ".pdf"@) ==> (r matches Some(f) && f@ == "pdf"@),
        format is None && ends_with_seq(output@, ".png"@) ==> (r matches Some(f) && f@ == "png"@),
        format is None && ends_with_seq(output@, ".svg"@) ==> (r matches Some(f) && f@ == "svg"@),
        format is None && !ends_with_seq(output@, ".pdf"@) && !ends_with_seq(output@, ".png"@)
            && !ends_with_seq(output@, ".svg"@) ==> r is None,
{
    proof {
        lemma_output_format_from_extension(output@);
    }
    match format {
        Some(f) => Some(to_owned_string(f)),
        None => {
            if str_ends_with(output, ".pdf") {
                Some(to_owned_string("pdf"))
            } else if str_ends_with(output, ".png") {
                Some(to_owned_string("png"))
            } else if str_ends_with(output, ".svg") {
                Some(to_owned_string("svg"))
            } else {
                None
            }
        },
    }
}

/// The error raised when several pages would go to one output path.
pub open spec fn multiple_pages_error() -> BindingErrorView {
    BindingErrorView::RuntimeError("output path does not support multiple pages"@)
}

/// Where the compiled buffers go when written to `output`: `output` itself
/// for a single buffer and a path without page templates; else one path per
/// buffer, `output` with its templates filled in for page `i + 1` of `pages`.
/// Several buffers and a path without page templates are a `RuntimeError`.
pub fn output_paths(output: &str, pages: usize) -> (r: Result<Vec<String>, BindingError>)
    ensures
        r is Err <==> (!is_indexable(output@) && pages > 1),
        r matches Err(e) ==> e@ == multiple_pages_error(),
        r matches Ok(paths) ==> if !is_indexable(output@) && pages == 1 {
            paths@.len() == 1 && paths@[0]@ == output@
        } else {
            &&& paths@.len() == pages
            &&& forall|i: int|
                0 <= i < pages ==> #[trigger] paths@[i]@ == formatted(
                    output@,
                    (i + 1) as nat,
                    pages as nat,
                )
        },
        r matches Ok(paths) ==> forall|a: int, b: int|
            0 <= a < b < paths@.len() ==> #[trigger] paths@[a]@ != #[trigger] paths@[b]@,
        r matches Ok(paths) ==> (!contains_seq(output@, page_template()) && (contains_seq(
            output@,
            padded_page_template(),
        ) || contains_seq(output@, numbered_page_template())) ==> forall|a: int, b: int|
            0 <= a < b < paths@.len() ==> #[trigger] paths@[a]@.len() == #[trigger] paths@[b]@.len()
                && lex_less(paths@[a]@, paths@[b]@)),
{
    let can_handle_multiple = has_indexable_template(output);
    if !can_handle_multiple && pages > 1 {
        return Err(
            BindingError::RuntimeError(
                to_owned_string("output path does not support multiple pages"),
            ),
        );
    }
    let mut paths: Vec<String> = Vec::new();
    if !can_handle_multiple && pages == 1 {
        paths.push(to_owned_string(output));
        return Ok(paths);
    }
    for i in 0..pages
        invariant
            paths@.len() == i,
            forall|k: int|
                0 <= k < i ==> #[trigger] paths@[k]@ == formatted(
                    output@,
                    (k + 1) as nat,
                    pages as nat,
                ),
    {
        paths.push(crate::output_template::format(output, i + 1, pages));
    }
    proof {
        if pages > 1 {
            assert forall|a: int, b: int|
                0 <= a < b < paths@.len() implies #[trigger] paths@[a]@ != #[trigger] paths@[b]@ by {
                lemma_pages_get_distinct_paths(output@, (a + 1) as nat, (b + 1) as nat, pages as nat);
            }
        }
        if !contains_seq(output@, page_template()) && (contains_seq(output@, padded_page_template())
            || contains_seq(output@, numbered_page_template())) {
            assert forall|a: int, b: int| 0 <= a < b < paths@.len() implies #[trigger] paths@[a]@.len()
                == #[trigger] paths@[b]@.len() && lex_less(paths@[a]@, paths@[b]@) by {
                lemma_padded_paths_sort_in_page_order(
                    output@,
                    (a + 1) as nat,
                    (b + 1) as nat,
                    pages as nat,
                );
            }
        }
    }
    Ok(paths)
}

/// Whether compiling without an output path answers with one byte string
/// (exactly one buffer) rather than a list of them.
pub fn returns_single_buffer(buffers: usize) -> (r: bool)
    ensures
        r == (buffers == 1),
{
    buffers == 1
}

/// The kind of file that a compiled document is exported to.
#[derive(PartialEq, Eq, Structural, Clone, Copy, Debug)]
pub enum ExportFormat {
    /// One PDF file for the whole document.
    Pdf,
    /// One PNG image per page.
    Png,
    /// One SVG image per page.
    Svg,
}

/// The export format that a format name asks for; PDF when none is given.
pub open spec fn export_format_named(format: Option<Seq<char>>) -> Option<ExportFormat> {
    match format {
        None => Some(ExportFormat::Pdf),
        Some(name) => if name == "pdf"@ {
            Some(ExportFormat::Pdf)
        } else if name == "png"@ {
            Some(ExportFormat::Png)
        } else if name == "svg"@ {
            Some(ExportFormat::Svg)
        } else {
            None
        },
    }
}

/// The message for a format name that names no export format.
pub open spec fn unsupported_export_message(name: Seq<char>) -> Seq<char> {
    "unsupported output format: "@ + name
}

/// The export format for a compilation: `"pdf"` (the default), `"png"` or
/// `"svg"`; any other name is refused with a message naming it.
pub fn export_format(format: Option<&str>) -> (r: Result<ExportFormat, String>)
    ensures
        export_format_named(
            match format {
                Some(f) => Some(f@),
                None => None,
            },
        ) matches Some(e) ==> r == Ok::<ExportFormat, String>(e),
        export_format_named(
            match format {
                Some(f) => Some(f@),
                None => None,
            },
        ) is None ==> (r matches Err(msg) && format matches Some(f) && msg@
            == unsupported_export_message(f@)),
{
    match format {
        None => Ok(ExportFormat::Pdf),
        Some(name) => {
            if str_equals(name, "pdf") {
                Ok(ExportFormat::Pdf)
            } else if str_equals(name, "png") {
                Ok(ExportFormat::Png)
            } else if str_equals(name, "svg") {
                Ok(ExportFormat::Svg)
            } else {
                let mut msg = to_owned_string("unsupported output format: ");
                msg.append(name);
                Err(msg)
            }
        },
    }
}

/// What a query answers with: the single element that was asked for, or all
/// of them.
#[derive(Debug, Clone, PartialEq, Eq)]
pub enum QuerySelection<T> {
    One(T),
    All(Vec<T>),
}

/// The message for a query that asked for exactly one element and found
/// another number of them.
pub open spec fn expected_one_message(found: nat) -> Seq<char> {
    "expected exactly one element, found "@ + decimal(found)
}

/// The elements that a query answers with: all of them, or, when exactly one
/// is asked for, the only one; a query asking for one that finds none or
/// several is refused with a message giving the number found.
pub fn select_query_items<T>(items: Vec<T>, one: bool) -> (r: Result<QuerySelection<T>, String>)
    ensures
        !one ==> r == Ok::<QuerySelection<T>, String>(QuerySelection::All(items)),
        one && items@.len() == 1 ==> r == Ok::<QuerySelection<T>, String>(
            QuerySelection::One(items@[0]),
        ),
        one && items@.len() != 1 ==> (r matches Err(msg) && msg@ == expected_one_message(
            items@.len(),
        )),
{
    if !one {
        return Ok(QuerySelection::All(items));
    }
    if items.len() != 1 {
        let found = string_of(&decimal_chars(items.len()));
        let mut msg = to_owned_string("expected exactly one element, found ");
        msg.append(found.as_str());
        return Err(msg);
    }
    let mut items = items;
    match items.pop() {
        Some(item) => Ok(QuerySelection::One(item)),
        None => Ok(QuerySelection::All(items)),
    }
}

} // verus!
