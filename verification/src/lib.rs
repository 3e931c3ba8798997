//! Verified core of the Python bindings to the typst compiler.
use vstd::prelude::*;

pub mod compiler;
pub mod decimal;
pub mod diagnostics;
pub mod error;
pub mod output_template;
pub mod page_naming;
pub mod pdf;
pub mod text;

verus! {

} // verus!
