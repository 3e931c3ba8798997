use typst_py::diagnostics::{
    create_typst_error_details_from_diagnostics, create_typst_warning_details_from_diagnostics,
    details_of_diagnostic, Diagnostic, Tracepoint, TypstDiagnosticDetails,
};

#[test]
fn trace_points_are_rendered_by_typst() {
    let d = Diagnostic {
        message: "m".to_string(),
        trace: vec![
            Tracepoint::Call(Some("f".to_string())),
            Tracepoint::Call(None),
            Tracepoint::Show("figure".to_string()),
            Tracepoint::Import,
        ],
        hints: vec![],
    };
    assert_eq!(
        details_of_diagnostic(&d).trace,
        vec![
            "at error occurred in this call of function `f`".to_string(),
            "at error occurred in this function call".to_string(),
            "at error occurred while applying show rule to this figure".to_string(),
            "at error occurred while importing this module".to_string(),
        ]
    );
}

#[test]
fn error_details_come_from_the_first_error() {
    let errors = vec![
        Diagnostic { message: "one".to_string(), trace: vec![], hints: vec!["a".to_string(), "b".to_string()] },
        Diagnostic { message: "two".to_string(), trace: vec![Tracepoint::Import], hints: vec![] },
    ];
    assert_eq!(
        create_typst_error_details_from_diagnostics(&errors),
        TypstDiagnosticDetails {
            message: "one".to_string(),
            hints: vec!["a".to_string(), "b".to_string()],
            trace: vec![],
        }
    );
}

#[test]
fn no_errors_give_empty_details() {
    assert_eq!(
        create_typst_error_details_from_diagnostics(&[]),
        TypstDiagnosticDetails { message: String::new(), hints: vec![], trace: vec![] }
    );
}

#[test]
fn every_warning_gets_details_in_order() {
    let warnings = vec![
        Diagnostic { message: "w1".to_string(), trace: vec![], hints: vec![] },
        Diagnostic { message: "w2".to_string(), trace: vec![Tracepoint::Call(None)], hints: vec!["h".to_string()] },
    ];
    let details = create_typst_warning_details_from_diagnostics(&warnings);
    assert_eq!(details.len(), 2);
    assert_eq!(details[0].message, "w1");
    assert_eq!(details[1].message, "w2");
    assert_eq!(details[1].hints, vec!["h".to_string()]);
    assert_eq!(details[1].trace, vec!["at error occurred in this function call".to_string()]);
    assert!(create_typst_warning_details_from_diagnostics(&[]).is_empty());
}
