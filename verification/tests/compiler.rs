use typst_py::compiler::{
    compile_result, compile_with_warnings_result, export_format, output_format, output_paths,
    query_result, returns_single_buffer, select_query_items, serialization_format, ExportFormat,
    Input, QuerySelection, SerializationFormat,
};
use typst_py::diagnostics::{Diagnostic, Tracepoint, TypstDiagnosticDetails};
use typst_py::error::BindingError;

fn diagnostic(message: &str, trace: Vec<Tracepoint>, hints: Vec<&str>) -> Diagnostic {
    Diagnostic {
        message: message.to_string(),
        trace,
        hints: hints.into_iter().map(|h| h.to_string()).collect(),
    }
}

#[test]
fn bytes_input_defaults_to_an_empty_root() {
    assert_eq!(
        Input::from_bytes(vec![1, 2], None),
        Input::Bytes { data: vec![1, 2], root: vec![] }
    );
    assert_eq!(
        Input::from_bytes(vec![1, 2], None),
        Input::from_bytes(vec![1, 2], Some(vec![]))
    );
    assert_eq!(
        Input::from_bytes(vec![], Some(b"dir".to_vec())),
        Input::Bytes { data: vec![], root: b"dir".to_vec() }
    );
    assert_eq!(Input::from_path(b"a.typ".to_vec()), Input::Path(b"a.typ".to_vec()));
}

#[test]
fn export_formats() {
    assert_eq!(export_format(None), Ok(ExportFormat::Pdf));
    assert_eq!(export_format(Some("pdf")), Ok(ExportFormat::Pdf));
    assert_eq!(export_format(Some("png")), Ok(ExportFormat::Png));
    assert_eq!(export_format(Some("svg")), Ok(ExportFormat::Svg));
    assert_eq!(export_format(Some("html")), Err("unsupported output format: html".to_string()));
    assert_eq!(export_format(Some("")), Err("unsupported output format: ".to_string()));
}

#[test]
fn query_selection() {
    assert_eq!(select_query_items(vec![1, 2], false), Ok(QuerySelection::All(vec![1, 2])));
    assert_eq!(select_query_items(Vec::<i32>::new(), false), Ok(QuerySelection::All(vec![])));
    assert_eq!(select_query_items(vec![7], true), Ok(QuerySelection::One(7)));
    assert_eq!(
        select_query_items(vec![1, 2, 3], true),
        Err("expected exactly one element, found 3".to_string())
    );
    assert_eq!(
        select_query_items(Vec::<i32>::new(), true),
        Err("expected exactly one element, found 0".to_string())
    );
}

#[test]
fn successful_compilation_gives_the_buffers() {
    let warning = diagnostic("unused", vec![], vec![]);
    let outcome = Ok((vec![vec![1u8], vec![2u8, 3u8]], vec![warning]));
    assert_eq!(compile_result(outcome), Ok(vec![vec![1u8], vec![2u8, 3u8]]));
}

#[test]
fn failed_compilation_gives_the_first_error() {
    let first = diagnostic(
        "unknown variable: x",
        vec![Tracepoint::Call(Some("foo".to_string())), Tracepoint::Import],
        vec!["did you mean y?"],
    );
    let second = diagnostic("second", vec![], vec![]);
    let outcome = Err((vec![first, second], vec![]));
    assert_eq!(
        compile_result(outcome),
        Err(TypstDiagnosticDetails {
            message: "unknown variable: x".to_string(),
            hints: vec!["did you mean y?".to_string()],
            trace: vec![
                "at error occurred in this call of function `foo`".to_string(),
                "at error occurred while importing this module".to_string(),
            ],
        })
    );
}

#[test]
fn failed_compilation_without_errors_gives_empty_details() {
    let outcome = Err((vec![], vec![diagnostic("w", vec![], vec![])]));
    assert_eq!(
        compile_result(outcome),
        Err(TypstDiagnosticDetails { message: String::new(), hints: vec![], trace: vec![] })
    );
}

#[test]
fn compilation_with_warnings_reports_every_warning() {
    let w1 = diagnostic("first", vec![Tracepoint::Show("heading".to_string())], vec!["h"]);
    let w2 = diagnostic("second", vec![Tracepoint::Call(None)], vec![]);
    let outcome = Ok((vec![vec![9u8]], vec![w1, w2]));
    let result = compile_with_warnings_result(outcome).unwrap();
    assert_eq!(result.data, vec![vec![9u8]]);
    assert_eq!(
        result.warnings,
        vec![
            TypstDiagnosticDetails {
                message: "first".to_string(),
                hints: vec!["h".to_string()],
                trace: vec![
                    "at error occurred while applying show rule to this heading".to_string()
                ],
            },
            TypstDiagnosticDetails {
                message: "second".to_string(),
                hints: vec![],
                trace: vec!["at error occurred in this function call".to_string()],
            },
        ]
    );
}

#[test]
fn compilation_with_warnings_fails_on_errors() {
    let outcome = Err((vec![diagnostic("bad", vec![], vec![])], vec![]));
    let err = compile_with_warnings_result(outcome).unwrap_err();
    assert_eq!(err.message, "bad");
}

#[test]
fn query_formats() {
    assert_eq!(serialization_format(None), Ok(SerializationFormat::Json));
    assert_eq!(serialization_format(Some("json")), Ok(SerializationFormat::Json));
    assert_eq!(serialization_format(Some("yaml")), Ok(SerializationFormat::Yaml));
    assert_eq!(
        serialization_format(Some("xml")),
        Err(BindingError::ValueError("unsupported serialization format".to_string()))
    );
    assert_eq!(
        serialization_format(Some("JSON")),
        Err(BindingError::ValueError("unsupported serialization format".to_string()))
    );
}

#[test]
fn query_failure_is_a_runtime_error() {
    assert_eq!(query_result(Ok("[]".to_string())), Ok("[]".to_string()));
    assert_eq!(
        query_result(Err("no such label".to_string())),
        Err(BindingError::RuntimeError("no such label".to_string()))
    );
}

#[test]
fn output_format_follows_the_extension() {
    assert_eq!(output_format(None, "a/b.pdf"), Some("pdf".to_string()));
    assert_eq!(output_format(None, "b-{p}.png"), Some("png".to_string()));
    assert_eq!(output_format(None, "b.svg"), Some("svg".to_string()));
    assert_eq!(output_format(None, "b.jpg"), None);
    assert_eq!(output_format(None, "pdf"), None);
    assert_eq!(output_format(None, "b.PDF"), None);
}

#[test]
fn explicit_output_format_wins() {
    assert_eq!(output_format(Some("svg"), "b.pdf"), Some("svg".to_string()));
    assert_eq!(output_format(Some("html"), "b"), Some("html".to_string()));
}

#[test]
fn single_page_goes_to_the_output_path() {
    assert_eq!(output_paths("out.pdf", 1), Ok(vec!["out.pdf".to_string()]));
}

#[test]
fn several_pages_need_a_page_template() {
    assert_eq!(
        output_paths("out.png", 2),
        Err(BindingError::RuntimeError("output path does not support multiple pages".to_string()))
    );
    assert_eq!(
        output_paths("out-{t}.png", 3),
        Err(BindingError::RuntimeError("output path does not support multiple pages".to_string()))
    );
}

#[test]
fn each_page_gets_its_own_path() {
    assert_eq!(
        output_paths("out-{0p}-of-{t}.png", 3),
        Ok(vec![
            "out-1-of-3.png".to_string(),
            "out-2-of-3.png".to_string(),
            "out-3-of-3.png".to_string(),
        ])
    );
    assert_eq!(output_paths("out-{p}.png", 1), Ok(vec!["out-1.png".to_string()]));
}

#[test]
fn no_pages_go_nowhere() {
    assert_eq!(output_paths("out.png", 0), Ok(vec![]));
    assert_eq!(output_paths("out-{p}.png", 0), Ok(vec![]));
}

#[test]
fn only_a_single_buffer_is_returned_bare() {
    assert!(returns_single_buffer(1));
    assert!(!returns_single_buffer(0));
    assert!(!returns_single_buffer(2));
}

#[test]
fn padded_paths_sort_in_page_order() {
    let paths = output_paths("page-{0p}.png", 12).unwrap();
    let mut sorted = paths.clone();
    sorted.sort();
    assert_eq!(paths, sorted);
    assert!(paths.iter().all(|p| p.len() == paths[0].len()));
    assert_eq!(paths[0], "page-01.png");
    assert_eq!(paths[11], "page-12.png");
}
