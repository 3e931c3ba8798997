use typst_py::error::BindingError;
use typst_py::pdf::{extract_pdf_standard, extract_pdf_standards, PdfStandard, PdfStandardsArg};

#[test]
fn known_standards_are_accepted() {
    assert_eq!(extract_pdf_standard("1.7"), Ok(PdfStandard::V_1_7));
    assert_eq!(extract_pdf_standard("a-2b"), Ok(PdfStandard::A_2b));
    assert_eq!(extract_pdf_standard("a-3b"), Ok(PdfStandard::A_3b));
}

#[test]
fn unknown_standard_is_a_value_error() {
    assert_eq!(
        extract_pdf_standard("a-1b"),
        Err(BindingError::ValueError("unknown pdf standard: a-1b".to_string()))
    );
    assert_eq!(
        extract_pdf_standard(""),
        Err(BindingError::ValueError("unknown pdf standard: ".to_string()))
    );
    assert_eq!(
        extract_pdf_standard("A-2B"),
        Err(BindingError::ValueError("unknown pdf standard: A-2B".to_string()))
    );
}

#[test]
fn absent_argument_asks_for_no_standard() {
    assert_eq!(extract_pdf_standards(&PdfStandardsArg::Absent), Ok(vec![]));
}

#[test]
fn single_name_asks_for_one_standard() {
    assert_eq!(
        extract_pdf_standards(&PdfStandardsArg::Single("a-3b".to_string())),
        Ok(vec![PdfStandard::A_3b])
    );
    assert_eq!(
        extract_pdf_standards(&PdfStandardsArg::Single("2.0".to_string())),
        Err(BindingError::ValueError("unknown pdf standard: 2.0".to_string()))
    );
}

#[test]
fn list_asks_for_each_standard_in_order() {
    let names = vec!["a-2b".to_string(), "1.7".to_string()];
    assert_eq!(
        extract_pdf_standards(&PdfStandardsArg::List(names)),
        Ok(vec![PdfStandard::A_2b, PdfStandard::V_1_7])
    );
    assert_eq!(extract_pdf_standards(&PdfStandardsArg::List(vec![])), Ok(vec![]));
}

#[test]
fn list_reports_its_first_unknown_name() {
    let names = vec!["1.7".to_string(), "x".to_string(), "y".to_string()];
    assert_eq!(
        extract_pdf_standards(&PdfStandardsArg::List(names)),
        Err(BindingError::ValueError("unknown pdf standard: x".to_string()))
    );
}
