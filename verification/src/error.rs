//! Errors that the bindings raise in Python.
use vstd::prelude::*;

verus! {

/// An error raised to Python: a `ValueError` or a `RuntimeError`, with its
/// message.
#[derive(Debug, Clone, PartialEq, Eq)]
pub enum BindingError {
    /// Raised as Python's `ValueError`: an argument was not accepted.
    ValueError(String),
    /// Raised as Python's `RuntimeError`: the work itself failed.
    RuntimeError(String),
}

/// The mathematical value of a [`BindingError`].
pub enum BindingErrorView {
    ValueError(Seq<char>),
    RuntimeError(Seq<char>),
}

impl View for BindingError {
    type V = BindingErrorView;

    open spec fn view(&self) -> BindingErrorView {
        match self {
            BindingError::ValueError(m) => BindingErrorView::ValueError(m@),
            BindingError::RuntimeError(m) => BindingErrorView::RuntimeError(m@),
        }
    }
}

} // verus!
