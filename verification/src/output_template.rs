//! Output path templates: `{p}` (page number), `{0p}` and `{n}` (page number
//! zero-padded to the width of the page count) and `{t}` (page count).
use vstd::prelude::*;
use crate::decimal::{decimal, decimal_chars, width, zero_pad, zero_padded};
use crate::text::{chars_of, contains_exec, contains_seq, replace_all, replace_chars, string_of};

verus! {

/// The template `{p}`.
pub open spec fn page_template() -> Seq<char> {
    seq!['{', 'p', '}']
}

/// The template `{0p}`.
pub open spec fn padded_page_template() -> Seq<char> {
    seq!['{', '0', 'p', '}']
}

/// The template `{n}`.
pub open spec fn numbered_page_template() -> Seq<char> {
    seq!['{', 'n', '}']
}

/// The template `{t}`.
pub open spec fn total_template() -> Seq<char> {
    seq!['{', 't', '}']
}

/// `output` names one file per page: it holds `{p}`, `{0p}` or `{n}`.
pub open spec fn is_indexable(output: Seq<char>) -> bool {
    ||| contains_seq(output, page_template())
    ||| contains_seq(output, padded_page_template())
    ||| contains_seq(output, numbered_page_template())
}

/// The page number `page`, zero-padded to the width of `total`.
pub open spec fn padded_page(page: nat, total: nat) -> Seq<char> {
    zero_pad(decimal(page), decimal(total).len())
}

/// `output` with its templates filled in for page `page` of `total`: first
/// every `{p}`, then every `{0p}`, then every `{n}`, then every `{t}` is
/// replaced, each pass working on the result of the one before.
pub open spec fn formatted(output: Seq<char>, page: nat, total: nat) -> Seq<char> {
    let with_page = replace_all(output, page_template(), decimal(page));
    let with_padded = replace_all(with_page, padded_page_template(), padded_page(page, total));
    let with_numbered = replace_all(
        with_padded,
        numbered_page_template(),
        padded_page(page, total),
    );
    replace_all(with_numbered, total_template(), decimal(total))
}

/// Whether `output` holds one of the templates that tell pages apart:
/// `{p}`, `{0p}` or `{n}`.
pub fn has_indexable_template(output: &str) -> (b: bool)
    ensures
        b == is_indexable(output@),
{
    let s = chars_of(output);
    let p: Vec<char> = vec!['{', 'p', '}'];
    let zp: Vec<char> = vec!['{', '0', 'p', '}'];
    let n: Vec<char> = vec!['{', 'n', '}'];
    contains_exec(&s, &p) || contains_exec(&s, &zp) || contains_exec(&s, &n)
}

/// Fills in the templates of `output` for page `this_page` of `total_pages`:
/// `{p}` becomes the page number, `{0p}` and `{n}` the page number
/// zero-padded to the width of `total_pages`, and `{t}` the page count.
pub fn format(output: &str, this_page: usize, total_pages: usize) -> (res: String)
    ensures
        res@ == formatted(output@, this_page as nat, total_pages as nat),
{
    let s = chars_of(output);
    let page = decimal_chars(this_page);
    let padded = zero_padded(this_page, width(total_pages));
    let total = decimal_chars(total_pages);
    let p: Vec<char> = vec!['{', 'p', '}'];
    let zp: Vec<char> = vec!['{', '0', 'p', '}'];
    let n: Vec<char> = vec!['{', 'n', '}'];
    let t: Vec<char> = vec!['{', 't', '}'];
    let with_page = replace_chars(&s, &p, &page);
    let with_padded = replace_chars(&with_page, &zp, &padded);
    let with_numbered = replace_chars(&with_padded, &n, &padded);
    let with_total = replace_chars(&with_numbered, &t, &total);
    string_of(&with_total)
}

} // verus!
