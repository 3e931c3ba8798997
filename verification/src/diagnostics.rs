//! Diagnostics of a compilation (errors and warnings) and the structured
//! details that are handed to Python for them.
use vstd::prelude::*;

verus! {

/// One step of the trace that led to a diagnostic, as typst reports it.
#[derive(Debug, Clone, PartialEq, Eq)]
pub enum Tracepoint {
    /// A function call, with the function's name where it has one.
    Call(Option<String>),
    /// The application of a show rule to an element of the given name.
    Show(String),
    /// A module import.
    Import,
}

/// The mathematical value of a [`Tracepoint`].
pub enum TracepointView {
    Call(Option<Seq<char>>),
    Show(Seq<char>),
    Import,
}

impl View for Tracepoint {
    type V = TracepointView;

    open spec fn view(&self) -> TracepointView {
        match self {
            Tracepoint::Call(Some(name)) => TracepointView::Call(Some(name@)),
            Tracepoint::Call(None) => TracepointView::Call(None),
            Tracepoint::Show(name) => TracepointView::Show(name@),
            Tracepoint::Import => TracepointView::Import,
        }
    }
}

/// A diagnostic (error or warning) of a compilation: its message, the trace
/// of calls that led to it, and hints on how to avoid it.
#[derive(Debug, Clone, PartialEq, Eq)]
pub struct Diagnostic {
    pub message: String,
    pub trace: Vec<Tracepoint>,
    pub hints: Vec<String>,
}

/// The mathematical value of a [`Diagnostic`].
pub struct DiagnosticView {
    pub message: Seq<char>,
    pub trace: Seq<TracepointView>,
    pub hints: Seq<Seq<char>>,
}

/// The values of a sequence of strings.
pub open spec fn strings_view(v: Seq<String>) -> Seq<Seq<char>> {
    v.map_values(|s: String| s@)
}

impl View for Diagnostic {
    type V = DiagnosticView;

    open spec fn view(&self) -> DiagnosticView {
        DiagnosticView {
            message: self.message@,
            trace: self.trace@.map_values(|p: Tracepoint| p@),
            hints: strings_view(self.hints@),
        }
    }
}

/// Structured details of a diagnostic, as the Python exception or warning
/// carries them: the message, the hints, and one line per trace point.
#[derive(Debug, Clone, PartialEq, Eq)]
pub struct TypstDiagnosticDetails {
    pub message: String,
    pub hints: Vec<String>,
    pub trace: Vec<String>,
}

/// The mathematical value of [`TypstDiagnosticDetails`].
pub struct DetailsView {
    pub message: Seq<char>,
    pub hints: Seq<Seq<char>>,
    pub trace: Seq<Seq<char>>,
}

impl View for TypstDiagnosticDetails {
    type V = DetailsView;

    open spec fn view(&self) -> DetailsView {
        DetailsView {
            message: self.message@,
            hints: strings_view(self.hints@),
            trace: strings_view(self.trace@),
        }
    }
}

/// Result of a compilation that may include warnings.
#[derive(Debug, Clone, PartialEq, Eq)]
pub struct CompilationResult {
    pub data: Vec<Vec<u8>>,
    pub warnings: Vec<TypstDiagnosticDetails>,
}

/// The text that typst displays for a trace point.
pub open spec fn tracepoint_text(point: TracepointView) -> Seq<char> {
    match point {
        TracepointView::Call(Some(name)) => "error occurred in this call of function `"@ + name
            + "`"@,
        TracepointView::Call(None) => "error occurred in this function call"@,
        TracepointView::Show(name) => "error occurred while applying show rule to this "@ + name,
        TracepointView::Import => "error occurred while importing this module"@,
    }
}

/// The characters `"at "`.
pub open spec fn at_prefix() -> Seq<char> {
    seq!['a', 't', ' ']
}

/// The line that the details hold for a trace point: `at <text>`.
pub open spec fn trace_line(point: TracepointView) -> Seq<char> {
    at_prefix() + tracepoint_text(point)
}

/// The details of one diagnostic.
pub open spec fn details_of(d: DiagnosticView) -> DetailsView {
    DetailsView {
        message: d.message,
        hints: d.hints,
        trace: d.trace.map_values(|p: TracepointView| trace_line(p)),
    }
}

/// Details with an empty message, no hints and no trace.
pub open spec fn empty_details() -> DetailsView {
    DetailsView { message: Seq::empty(), hints: Seq::empty(), trace: Seq::empty() }
}

/// The values of a sequence of diagnostics.
pub open spec fn diagnostics_view(ds: Seq<Diagnostic>) -> Seq<DiagnosticView> {
    ds.map_values(|d: Diagnostic| d@)
}

/// The details of a failed compilation: those of its first error, which is
/// the most relevant one; empty details when there is no error.
pub open spec fn error_details(errors: Seq<DiagnosticView>) -> DetailsView {
    if errors.len() == 0 {
        empty_details()
    } else {
        details_of(errors[0])
    }
}

/// The details of the warnings of a compilation, one per warning, in order.
pub open spec fn warning_details(warnings: Seq<DiagnosticView>) -> Seq<DetailsView> {
    warnings.map_values(|w: DiagnosticView| details_of(w))
}

/// The values of a sequence of details.
pub open spec fn details_view(ds: Seq<TypstDiagnosticDetails>) -> Seq<DetailsView> {
    ds.map_values(|d: TypstDiagnosticDetails| d@)
}

/// Renders a trace point with the `Display` impl of `typst::diag::Tracepoint`.
/// The contract states the four texts that typst's source writes for the four
/// kinds of trace point.
#[verifier::external_body]
fn render_tracepoint(point: &Tracepoint) -> (text: String)
    ensures
        text@ == tracepoint_text(point@),
{
    let point = match point {
        Tracepoint::Call(name) => typst::diag::Tracepoint::Call(name.as_deref().map(Into::into)),
        Tracepoint::Show(name) => typst::diag::Tracepoint::Show(name.as_str().into()),
        Tracepoint::Import => typst::diag::Tracepoint::Import,
    };
    point.to_string()
}

/// A copy of a vector of strings.
fn copy_strings(v: &Vec<String>) -> (r: Vec<String>)
    ensures
        strings_view(r@) == strings_view(v@),
{
    let mut r: Vec<String> = Vec::new();
    for i in 0..v.len()
        invariant
            r@.len() == i,
            forall|k: int| 0 <= k < i ==> #[trigger] r@[k]@ == v@[k]@,
    {
        r.push(v[i].clone());
    }
    assert(strings_view(r@) =~= strings_view(v@));
    r
}

/// The line `at <text>` for a trace point.
fn trace_line_of(point: &Tracepoint) -> (line: String)
    ensures
        line@ == trace_line(point@),
{
    let text = render_tracepoint(point);
    let mut line = String::new();
    line.append("at ");
    line.append(text.as_str());
    proof {
        reveal_strlit("at ");
    }
    assert(line@ =~= trace_line(point@));
    line
}

/// The details of one diagnostic: its message and hints, and a line
/// `at <trace point>` for each step of its trace.
pub fn details_of_diagnostic(d: &Diagnostic) -> (r: TypstDiagnosticDetails)
    ensures
        r@ == details_of(d@),
{
    let hints = copy_strings(&d.hints);
    let mut trace: Vec<String> = Vec::new();
    for i in 0..d.trace.len()
        invariant
            trace@.len() == i,
            forall|k: int| 0 <= k < i ==> #[trigger] trace@[k]@ == trace_line(d.trace@[k]@),
    {
        let line = trace_line_of(&d.trace[i]);
        trace.push(line);
    }
    let r = TypstDiagnosticDetails { message: d.message.clone(), hints, trace };
    assert(r@.trace =~= details_of(d@).trace);
    r
}

/// What details equal to those of a diagnostic hold, field by field: its
/// message, its hints, and a line `at <text>` per step of its trace.
proof fn lemma_details_fields(r: TypstDiagnosticDetails, d: Diagnostic)
    requires
        r@ == details_of(d@),
    ensures
        r.message@ == d.message@,
        r.hints@.len() == d.hints@.len(),
        forall|k: int| 0 <= k < r.hints@.len() ==> #[trigger] r.hints@[k]@ == d.hints@[k]@,
        r.trace@.len() == d.trace@.len(),
        forall|k: int|
            0 <= k < r.trace@.len() ==> #[trigger] r.trace@[k]@ == seq!['a', 't', ' ']
                + tracepoint_text(d.trace@[k]@),
{
    assert(strings_view(r.hints@).len() == strings_view(d.hints@).len());
    assert forall|k: int| 0 <= k < r.hints@.len() implies #[trigger] r.hints@[k]@ == d.hints@[k]@ by {
        assert(strings_view(r.hints@)[k] == strings_view(d.hints@)[k]);
    }
    assert(strings_view(r.trace@).len() == d@.trace.len());
    assert forall|k: int| 0 <= k < r.trace@.len() implies #[trigger] r.trace@[k]@ == seq![
        'a',
        't',
        ' ',
    ] + tracepoint_text(d.trace@[k]@) by {
        assert(strings_view(r.trace@)[k] == details_of(d@).trace[k]);
        assert(d@.trace[k] == d.trace@[k]@);
    }
}

/// Structured error details from the errors of a failed compilation: those of
/// the first (most relevant) error, or empty details when there is none.
pub fn create_typst_error_details_from_diagnostics(errors: &[Diagnostic]) -> (r:
    TypstDiagnosticDetails)
    ensures
        r@ == error_details(diagnostics_view(errors@)),
        errors@.len() == 0 ==> r.message@.len() == 0 && r.hints@.len() == 0 && r.trace@.len()
            == 0,
        errors@.len() > 0 ==> {
            &&& r.message@ == errors@[0].message@
            &&& r.hints@.len() == errors@[0].hints@.len()
            &&& forall|k: int|
                0 <= k < r.hints@.len() ==> #[trigger] r.hints@[k]@ == errors@[0].hints@[k]@
            &&& r.trace@.len() == errors@[0].trace@.len()
            &&& forall|k: int|
                0 <= k < r.trace@.len() ==> #[trigger] r.trace@[k]@ == seq!['a', 't', ' ']
                    + tracepoint_text(errors@[0].trace@[k]@)
        },
{
    proof {
        if errors@.len() > 0 {
            assert(diagnostics_view(errors@)[0] == errors@[0]@);
        }
    }
    if errors.len() == 0 {
        let r = TypstDiagnosticDetails { message: String::new(), hints: Vec::new(), trace: Vec::new() };
        assert(r@.hints =~= Seq::<Seq<char>>::empty());
        assert(r@.trace =~= Seq::<Seq<char>>::empty());
        r
    } else {
        let r = details_of_diagnostic(&errors[0]);
        proof {
            lemma_details_fields(r, errors@[0]);
        }
        r
    }
}

/// Structured warning details, one per warning, in the order of the warnings.
pub fn create_typst_warning_details_from_diagnostics(warnings: &[Diagnostic]) -> (r: Vec<
    TypstDiagnosticDetails,
>)
    ensures
        details_view(r@) == warning_details(diagnostics_view(warnings@)),
        r@.len() == warnings@.len(),
        forall|i: int|
            0 <= i < warnings@.len() ==> {
                &&& (#[trigger] r@[i]).message@ == warnings@[i].message@
                &&& r@[i].hints@.len() == warnings@[i].hints@.len()
                &&& forall|k: int|
                    0 <= k < r@[i].hints@.len() ==> #[trigger] r@[i].hints@[k]@
                        == warnings@[i].hints@[k]@
                &&& r@[i].trace@.len() == warnings@[i].trace@.len()
                &&& forall|k: int|
                    0 <= k < r@[i].trace@.len() ==> #[trigger] r@[i].trace@[k]@ == seq![
                        'a',
                        't',
                        ' ',
                    ] + tracepoint_text(warnings@[i].trace@[k]@)
            },
{
    let mut r: Vec<TypstDiagnosticDetails> = Vec::new();
    for i in 0..warnings.len()
        invariant
            r@.len() == i,
            forall|k: int| 0 <= k < i ==> #[trigger] r@[k]@ == details_of(warnings@[k]@),
    {
        let d = details_of_diagnostic(&warnings[i]);
        r.push(d);
    }
    assert(details_view(r@) =~= warning_details(diagnostics_view(warnings@)));
    assert forall|i: int| 0 <= i < warnings@.len() implies {
        &&& (#[trigger] r@[i]).message@ == warnings@[i].message@
        &&& r@[i].hints@.len() == warnings@[i].hints@.len()
        &&& forall|k: int|
            0 <= k < r@[i].hints@.len() ==> #[trigger] r@[i].hints@[k]@ == warnings@[i].hints@[k]@
        &&& r@[i].trace@.len() == warnings@[i].trace@.len()
        &&& forall|k: int|
            0 <= k < r@[i].trace@.len() ==> #[trigger] r@[i].trace@[k]@ == seq!['a', 't', ' ']
                + tracepoint_text(warnings@[i].trace@[k]@)
    } by {
        lemma_details_fields(r@[i], warnings@[i]);
    }
    r
}

/// The details of a failed compilation come from its first error: they hold
/// its message, its hints, and a line `at <text>` per step of its trace.
pub proof fn lemma_error_details_come_from_first_error(errors: Seq<DiagnosticView>)
    requires
        errors.len() > 0,
    ensures
        error_details(errors).message == errors[0].message,
        error_details(errors).hints == errors[0].hints,
        error_details(errors).trace.len() == errors[0].trace.len(),
        forall|k: int|
            0 <= k < errors[0].trace.len() ==> #[trigger] error_details(errors).trace[k] == seq![
                'a',
                't',
                ' ',
            ] + tracepoint_text(errors[0].trace[k]),
{
}

/// Later errors add nothing to the details: two lists of errors with the
/// same first error give the same details.
pub proof fn lemma_error_details_ignore_later_errors(a: Seq<DiagnosticView>, b: Seq<DiagnosticView>)
    requires
        a.len() > 0,
        b.len() > 0,
        a[0] == b[0],
    ensures
        error_details(a) == error_details(b),
{
}

/// A failure without errors gives an empty message, no hints and no trace.
pub proof fn lemma_no_errors_give_empty_details()
    ensures
        error_details(Seq::empty()).message.len() == 0,
        error_details(Seq::empty()).hints.len() == 0,
        error_details(Seq::empty()).trace.len() == 0,
{
}

/// Every warning gets details of its own, in order: as many details as
/// warnings, the `i`th holding the message and hints of the `i`th warning and
/// a line `at <text>` per step of its trace.
pub proof fn lemma_warning_details_one_per_warning(warnings: Seq<DiagnosticView>)
    ensures
        warning_details(warnings).len() == warnings.len(),
        forall|i: int|
            0 <= i < warnings.len() ==> {
                &&& (#[trigger] warning_details(warnings)[i]).message == warnings[i].message
                &&& warning_details(warnings)[i].hints == warnings[i].hints
                &&& warning_details(warnings)[i].trace.len() == warnings[i].trace.len()
                &&& forall|k: int|
                    0 <= k < warnings[i].trace.len() ==> #[trigger] warning_details(
                        warnings,
                    )[i].trace[k] == seq!['a', 't', ' '] + tracepoint_text(warnings[i].trace[k])
            },
{
}

/// Adding a warning keeps the details of the warnings before it and adds
/// one entry, with its message and hints, at the end.
pub proof fn lemma_warning_details_push(warnings: Seq<DiagnosticView>, w: DiagnosticView)
    ensures
        warning_details(warnings.push(w)).len() == warning_details(warnings).len() + 1,
        warning_details(warnings.push(w)).take(warnings.len() as int) == warning_details(warnings),
        warning_details(warnings.push(w))[warnings.len() as int].message == w.message,
        warning_details(warnings.push(w))[warnings.len() as int].hints == w.hints,
{
    assert(warning_details(warnings.push(w)).take(warnings.len() as int) =~= warning_details(
        warnings,
    ));
}

} // verus!
