//! PDF standards that a PDF export can be asked to follow, as Python names
//! them.
use vstd::prelude::*;
use crate::error::{BindingError, BindingErrorView};
use crate::text::{str_equals, to_owned_string};

verus! {

/// A PDF standard: PDF 1.7, PDF/A-2b or PDF/A-3b.
#[allow(non_camel_case_types)]
#[derive(PartialEq, Eq, Structural, Clone, Copy, Debug)]
pub enum PdfStandard {
    V_1_7,
    A_2b,
    A_3b,
}

/// The `pdf_standards` argument as Python passes it: absent (`None`), a list
/// of names, or a single name.
#[derive(Debug, Clone, PartialEq, Eq)]
pub enum PdfStandardsArg {
    Absent,
    List(Vec<String>),
    Single(String),
}

/// The standard that a name denotes: `"1.7"`, `"a-2b"` or `"a-3b"`.
pub open spec fn standard_named(name: Seq<char>) -> Option<PdfStandard> {
    if name == "1.7"@ {
        Some(PdfStandard::V_1_7)
    } else if name == "a-2b"@ {
        Some(PdfStandard::A_2b)
    } else if name == "a-3b"@ {
        Some(PdfStandard::A_3b)
    } else {
        None
    }
}

/// The error raised for a name that denotes no standard.
pub open spec fn unknown_standard_error(name: Seq<char>) -> BindingErrorView {
    BindingErrorView::ValueError("unknown pdf standard: "@ + name)
}

/// The standard that `name` denotes, or a `ValueError` naming it.
pub fn extract_pdf_standard(name: &str) -> (r: Result<PdfStandard, BindingError>)
    ensures
        standard_named(name@) is Some <==> r is Ok,
        r matches Ok(s) ==> standard_named(name@) == Some(s),
        r matches Err(e) ==> e@ == unknown_standard_error(name@),
{
    if str_equals(name, "1.7") {
        Ok(PdfStandard::V_1_7)
    } else if str_equals(name, "a-2b") {
        Ok(PdfStandard::A_2b)
    } else if str_equals(name, "a-3b") {
        Ok(PdfStandard::A_3b)
    } else {
        let mut msg = to_owned_string("unknown pdf standard: ");
        msg.append(name);
        Err(BindingError::ValueError(msg))
    }
}

/// The standards that a list of names denotes, in order, or the error for
/// the first name in it that denotes no standard.
pub fn extract_pdf_standard_list(names: &Vec<String>) -> (r: Result<Vec<PdfStandard>, BindingError>)
    ensures
        r is Ok <==> (forall|i: int|
            0 <= i < names@.len() ==> #[trigger] standard_named(names@[i]@) is Some),
        r matches Ok(v) ==> v@.len() == names@.len() && forall|i: int|
            0 <= i < names@.len() ==> Some(#[trigger] v@[i]) == standard_named(names@[i]@),
        r matches Err(e) ==> exists|i: int|
            0 <= i < names@.len() && standard_named(#[trigger] names@[i]@) is None && (forall|
                j: int,
            |
                0 <= j < i ==> #[trigger] standard_named(names@[j]@) is Some) && e@
                == unknown_standard_error(names@[i]@),
{
    let mut v: Vec<PdfStandard> = Vec::new();
    for i in 0..names.len()
        invariant
            v@.len() == i,
            forall|k: int| 0 <= k < i ==> Some(#[trigger] v@[k]) == standard_named(names@[k]@),
    {
        match extract_pdf_standard(names[i].as_str()) {
            Ok(s) => v.push(s),
            Err(e) => {
                assert forall|j: int| 0 <= j < i implies #[trigger] standard_named(
                    names@[j]@,
                ) is Some by {
                    assert(Some(v@[j]) == standard_named(names@[j]@));
                }
                return Err(e);
            },
        }
    }
    assert forall|j: int| 0 <= j < names@.len() implies #[trigger] standard_named(
        names@[j]@,
    ) is Some by {
        assert(Some(v@[j]) == standard_named(names@[j]@));
    }
    Ok(v)
}

/// The standards that the `pdf_standards` argument asks for: none when it is
/// absent, the named one for a single name, and for a list what
/// [`extract_pdf_standard_list`] gives.
pub fn extract_pdf_standards(arg: &PdfStandardsArg) -> (r: Result<Vec<PdfStandard>, BindingError>)
    ensures
        arg is Absent ==> (r matches Ok(v) && v@ == Seq::<PdfStandard>::empty()),
        arg matches PdfStandardsArg::Single(name) ==> match standard_named(name@) {
            Some(s) => r matches Ok(v) && v@ == seq![s],
            None => r matches Err(e) && e@ == unknown_standard_error(name@),
        },
        arg matches PdfStandardsArg::List(names) ==> {
            &&& r is Ok <==> (forall|i: int|
                0 <= i < names@.len() ==> #[trigger] standard_named(names@[i]@) is Some)
            &&& r matches Ok(v) ==> v@.len() == names@.len() && forall|i: int|
                0 <= i < names@.len() ==> Some(#[trigger] v@[i]) == standard_named(names@[i]@)
            &&& r matches Err(e) ==> exists|i: int|
                0 <= i < names@.len() && standard_named(#[trigger] names@[i]@) is None && (forall|
                    j: int,
                |
                    0 <= j < i ==> #[trigger] standard_named(names@[j]@) is Some) && e@
                    == unknown_standard_error(names@[i]@)
        },
{
    match arg {
        PdfStandardsArg::Absent => Ok(Vec::new()),
        PdfStandardsArg::Single(name) => {
            let s = extract_pdf_standard(name.as_str())?;
            Ok(vec![s])
        },
        PdfStandardsArg::List(names) => extract_pdf_standard_list(names),
    }
}

} // verus!
