//! Why an output path template names every page apart: filling in the
//! templates pass by pass is the same as reading the path once from left to
//! right (for page numbers from 1 on), and that single reading tells pages
//! apart whenever the path holds `{p}`, `{0p}` or `{n}`.
use vstd::prelude::*;
use crate::decimal::{
    decimal, digits_value, is_digit, lemma_decimal_digits, lemma_decimal_len_monotonic,
    lemma_decimal_value, lemma_zero_pad_facts,
};
use crate::output_template::{
    formatted, is_indexable, numbered_page_template, padded_page, padded_page_template,
    page_template, total_template,
};
use crate::text::{contains_seq, matches_at, replace_all};

verus! {

/// `output` with its templates filled in by one reading from left to right.
pub open spec fn render(s: Seq<char>, page: nat, total: nat) -> Seq<char>
    decreases s.len(),
{
    if s.len() == 0 {
        Seq::empty()
    } else if matches_at(s, 0, page_template()) {
        decimal(page) + render(s.skip(3), page, total)
    } else if matches_at(s, 0, padded_page_template()) {
        padded_page(page, total) + render(s.skip(4), page, total)
    } else if matches_at(s, 0, numbered_page_template()) {
        padded_page(page, total) + render(s.skip(3), page, total)
    } else if matches_at(s, 0, total_template()) {
        decimal(total) + render(s.skip(3), page, total)
    } else {
        seq![s[0]] + render(s.skip(1), page, total)
    }
}

/// The reading from left to right meets `{p}`, `{0p}` or `{n}`.
pub open spec fn has_indexable_token(s: Seq<char>) -> bool
    decreases s.len(),
{
    if s.len() == 0 {
        false
    } else if matches_at(s, 0, page_template()) || matches_at(s, 0, padded_page_template())
        || matches_at(s, 0, numbered_page_template()) {
        true
    } else if matches_at(s, 0, total_template()) {
        has_indexable_token(s.skip(3))
    } else {
        has_indexable_token(s.skip(1))
    }
}

/// No character of `s` is `'{'`.
pub open spec fn brace_free(s: Seq<char>) -> bool {
    forall|k: int| 0 <= k < s.len() ==> #[trigger] s[k] != '{'
}

/// A replacement passes a prefix `l` through unchanged when no occurrence of
/// the pattern starts inside it.
proof fn lemma_replace_passes_prefix(l: Seq<char>, x: Seq<char>, pat: Seq<char>, rep: Seq<char>)
    requires
        pat.len() > 0,
        forall|k: int| 0 <= k < l.len() ==> !matches_at(#[trigger] (l + x), k, pat),
    ensures
        replace_all(l + x, pat, rep) == l + replace_all(x, pat, rep),
    decreases l.len(),
{
    if l.len() > 0 {
        let lx = l + x;
        let rest = l.skip(1);
        assert(lx.skip(1) =~= rest + x);
        assert forall|k: int| 0 <= k < rest.len() implies !matches_at(#[trigger] (rest + x), k, pat) by {
            if matches_at(rest + x, k, pat) {
                assert((rest + x).subrange(k, k + pat.len()) =~= lx.subrange(k + 1, k + 1 + pat.len()));
                assert(matches_at(lx, k + 1, pat));
            }
        }
        lemma_replace_passes_prefix(rest, x, pat, rep);
        assert(!matches_at(lx, 0, pat));
        assert(lx[0] == l[0]);
        assert(l + replace_all(x, pat, rep) =~= seq![l[0]] + (rest + replace_all(x, pat, rep)));
    }
}

/// A prefix without `'{'` passes through a replacement of a pattern that
/// starts with `'{'`.
proof fn lemma_replace_passes_brace_free(l: Seq<char>, x: Seq<char>, pat: Seq<char>, rep: Seq<char>)
    requires
        pat.len() > 0,
        pat[0] == '{',
        brace_free(l),
    ensures
        replace_all(l + x, pat, rep) == l + replace_all(x, pat, rep),
{
    assert forall|k: int| 0 <= k < l.len() implies !matches_at(#[trigger] (l + x), k, pat) by {
        if matches_at(l + x, k, pat) {
            assert((l + x).subrange(k, k + pat.len())[0] == (l + x)[k]);
        }
    }
    lemma_replace_passes_prefix(l, x, pat, rep);
}

/// A template passes through the replacement of another template: both start
/// with `'{'`, hold no other `'{'`, and differ in their second character.
proof fn lemma_replace_passes_template(t: Seq<char>, x: Seq<char>, pat: Seq<char>, rep: Seq<char>)
    requires
        t.len() >= 2,
        pat.len() >= 2,
        pat[0] == '{',
        t[1] != pat[1],
        forall|k: int| 1 <= k < t.len() ==> #[trigger] t[k] != '{',
    ensures
        replace_all(t + x, pat, rep) == t + replace_all(x, pat, rep),
{
    assert forall|k: int| 0 <= k < t.len() implies !matches_at(#[trigger] (t + x), k, pat) by {
        if matches_at(t + x, k, pat) {
            let sub = (t + x).subrange(k, k + pat.len());
            if k == 0 {
                assert(sub[1] == t[1]);
            } else {
                assert(sub[0] == t[k]);
            }
        }
    }
    lemma_replace_passes_prefix(t, x, pat, rep);
}

/// A replacement whose text starts with none of the characters of `q` does
/// not make a text start with `q` that did not already.
proof fn lemma_replace_keeps_non_prefix(y: Seq<char>, pat: Seq<char>, rep: Seq<char>, q: Seq<char>)
    requires
        pat.len() > 0,
        rep.len() > 0,
        q.len() > 0,
        forall|k: int| 0 <= k < q.len() ==> rep[0] != #[trigger] q[k],
        !matches_at(y, 0, q),
    ensures
        !matches_at(replace_all(y, pat, rep), 0, q),
    decreases y.len(),
{
    let r = replace_all(y, pat, rep);
    if y.len() == 0 {
    } else if matches_at(y, 0, pat) {
        if matches_at(r, 0, q) {
            assert(r.subrange(0, q.len() as int)[0] == r[0]);
            assert(r[0] == rep[0]);
        }
    } else {
        let tail = replace_all(y.skip(1), pat, rep);
        assert(r == seq![y[0]] + tail);
        if matches_at(r, 0, q) {
            assert(r.subrange(0, q.len() as int)[0] == r[0]);
            assert(y[0] == q[0]);
            if q.len() == 1 {
                assert(y.subrange(0, 1) =~= q);
            } else {
                let q1 = q.skip(1);
                if matches_at(y.skip(1), 0, q1) {
                    assert forall|k: int| 0 <= k < q.len() implies #[trigger] y.subrange(
                        0,
                        q.len() as int,
                    )[k] == q[k] by {
                        if k > 0 {
                            assert(y.skip(1).subrange(0, q1.len() as int)[k - 1] == q1[k - 1]);
                        }
                    }
                    assert(y.subrange(0, q.len() as int) =~= q);
                }
                assert forall|k: int| 0 <= k < q1.len() implies rep[0] != #[trigger] q1[k] by {
                    assert(q1[k] == q[k + 1]);
                }
                lemma_replace_keeps_non_prefix(y.skip(1), pat, rep, q1);
                assert(tail.subrange(0, q1.len() as int) =~= r.subrange(0, q.len() as int).skip(1));
            }
        }
    }
}

/// `[c] + y` starts with `pat` exactly when `c` is its first character and
/// `y` starts with the rest of it.
proof fn lemma_matches_cons(c: char, y: Seq<char>, pat: Seq<char>)
    requires
        pat.len() > 0,
    ensures
        matches_at(seq![c] + y, 0, pat) <==> (c == pat[0] && matches_at(y, 0, pat.skip(1))),
{
    let s = seq![c] + y;
    if matches_at(s, 0, pat) {
        assert(s.subrange(0, pat.len() as int)[0] == c);
        assert(y.subrange(0, pat.len() - 1) =~= pat.skip(1));
    }
    if c == pat[0] && matches_at(y, 0, pat.skip(1)) {
        assert forall|k: int| 0 <= k < pat.len() implies #[trigger] s.subrange(
            0,
            pat.len() as int,
        )[k] == pat[k] by {
            if k > 0 {
                assert(y.subrange(0, pat.len() - 1)[k - 1] == pat.skip(1)[k - 1]);
            }
        }
        assert(s.subrange(0, pat.len() as int) =~= pat);
    }
}

/// Facts about the texts that replace the templates for page `i` of `n`.
proof fn lemma_replacement_facts(i: nat, n: nat)
    requires
        i >= 1,
    ensures
        brace_free(decimal(i)),
        brace_free(padded_page(i, n)),
        brace_free(decimal(n)),
        decimal(i).len() >= 1,
        padded_page(i, n).len() >= 1,
        is_digit(decimal(i)[0]),
        decimal(i)[0] != '0',
        is_digit(padded_page(i, n)[0]),
{
    lemma_decimal_digits(i);
    lemma_decimal_digits(n);
    lemma_zero_pad_facts(i, decimal(n).len());
    assert(is_digit(decimal(i)[0]));
    assert(is_digit(padded_page(i, n)[0]));
}

/// The four templates, spelled out.
proof fn lemma_templates()
    ensures
        page_template().len() == 3,
        page_template()[0] == '{' && page_template()[1] == 'p' && page_template()[2] == '}',
        padded_page_template().len() == 4,
        padded_page_template()[0] == '{' && padded_page_template()[1] == '0'
            && padded_page_template()[2] == 'p' && padded_page_template()[3] == '}',
        numbered_page_template().len() == 3,
        numbered_page_template()[0] == '{' && numbered_page_template()[1] == 'n'
            && numbered_page_template()[2] == '}',
        total_template().len() == 3,
        total_template()[0] == '{' && total_template()[1] == 't' && total_template()[2] == '}',
{
}

/// A text that starts with template `t`: `t` followed by the rest.
proof fn lemma_split_template(s: Seq<char>, t: Seq<char>)
    requires
        matches_at(s, 0, t),
    ensures
        s == t + s.skip(t.len() as int),
{
    assert(s =~= s.subrange(0, t.len() as int) + s.skip(t.len() as int));
}

/// Each of the four passes on `[c] + x`, where `[c] + x` starts with no
/// template: `c` passes through and the pass goes on with `x`.
proof fn lemma_formatted_char_step(s: Seq<char>, i: nat, n: nat)
    requires
        i >= 1,
        s.len() > 0,
        !matches_at(s, 0, page_template()),
        !matches_at(s, 0, padded_page_template()),
        !matches_at(s, 0, numbered_page_template()),
        !matches_at(s, 0, total_template()),
    ensures
        formatted(s, i, n) == seq![s[0]] + formatted(s.skip(1), i, n),
{
    lemma_templates();
    lemma_replacement_facts(i, n);
    let c = s[0];
    let x = s.skip(1);
    assert(s =~= seq![c] + x);
    let dp = decimal(i);
    let z = padded_page(i, n);
    let dt = decimal(n);
    let p = page_template();
    let zp = padded_page_template();
    let np = numbered_page_template();
    let tp = total_template();
    let x1 = replace_all(x, p, dp);
    let x2 = replace_all(x1, zp, z);
    let x3 = replace_all(x2, np, z);
    // pass `{p}`
    assert(replace_all(s, p, dp) == seq![c] + x1);
    // pass `{0p}`
    lemma_matches_cons(c, x, zp);
    lemma_matches_cons(c, x1, zp);
    if c == '{' {
        assert(zp.skip(1) =~= seq!['0', 'p', '}']);
        assert forall|k: int| 0 <= k < zp.skip(1).len() implies dp[0] != #[trigger] zp.skip(1)[k] by {
        }
        lemma_replace_keeps_non_prefix(x, p, dp, zp.skip(1));
    }
    assert((seq![c] + x1).skip(1) =~= x1);
    assert(replace_all(seq![c] + x1, zp, z) == seq![c] + x2);
    // pass `{n}`
    lemma_matches_cons(c, x, np);
    lemma_matches_cons(c, x2, np);
    if c == '{' {
        let q = np.skip(1);
        assert(q =~= seq!['n', '}']);
        assert forall|k: int| 0 <= k < q.len() implies dp[0] != #[trigger] q[k] by {}
        assert forall|k: int| 0 <= k < q.len() implies z[0] != #[trigger] q[k] by {}
        lemma_replace_keeps_non_prefix(x, p, dp, q);
        lemma_replace_keeps_non_prefix(x1, zp, z, q);
    }
    assert((seq![c] + x2).skip(1) =~= x2);
    assert(replace_all(seq![c] + x2, np, z) == seq![c] + x3);
    // pass `{t}`
    lemma_matches_cons(c, x, tp);
    lemma_matches_cons(c, x3, tp);
    if c == '{' {
        let q = tp.skip(1);
        assert(q =~= seq!['t', '}']);
        assert forall|k: int| 0 <= k < q.len() implies dp[0] != #[trigger] q[k] by {}
        assert forall|k: int| 0 <= k < q.len() implies z[0] != #[trigger] q[k] by {}
        lemma_replace_keeps_non_prefix(x, p, dp, q);
        lemma_replace_keeps_non_prefix(x1, zp, z, q);
        lemma_replace_keeps_non_prefix(x2, np, z, q);
    }
    assert((seq![c] + x3).skip(1) =~= x3);
}

/// For page numbers from 1 on, filling in the templates pass by pass gives
/// what one reading from left to right gives.
pub proof fn lemma_formatted_is_render(s: Seq<char>, i: nat, n: nat)
    requires
        i >= 1,
    ensures
        formatted(s, i, n) == render(s, i, n),
    decreases s.len(),
{
    lemma_templates();
    lemma_replacement_facts(i, n);
    let dp = decimal(i);
    let z = padded_page(i, n);
    let dt = decimal(n);
    let p = page_template();
    let zp = padded_page_template();
    let np = numbered_page_template();
    let tp = total_template();
    if s.len() == 0 {
        assert(formatted(s, i, n) =~= Seq::<char>::empty());
    } else if matches_at(s, 0, p) {
        let x = s.skip(3);
        lemma_formatted_is_render(x, i, n);
        let x1 = replace_all(x, p, dp);
        let x2 = replace_all(x1, zp, z);
        let x3 = replace_all(x2, np, z);
        assert(replace_all(s, p, dp) == dp + x1);
        lemma_replace_passes_brace_free(dp, x1, zp, z);
        lemma_replace_passes_brace_free(dp, x2, np, z);
        lemma_replace_passes_brace_free(dp, x3, tp, dt);
    } else if matches_at(s, 0, zp) {
        let x = s.skip(4);
        lemma_formatted_is_render(x, i, n);
        lemma_split_template(s, zp);
        let x1 = replace_all(x, p, dp);
        let x2 = replace_all(x1, zp, z);
        let x3 = replace_all(x2, np, z);
        lemma_replace_passes_template(zp, x, p, dp);
        let y = zp + x1;
        assert(matches_at(y, 0, zp)) by {
            assert(y.subrange(0, 4) =~= zp);
        }
        assert(y.skip(4) =~= x1);
        assert(replace_all(y, zp, z) == z + x2);
        lemma_replace_passes_brace_free(z, x2, np, z);
        lemma_replace_passes_brace_free(z, x3, tp, dt);
    } else if matches_at(s, 0, np) {
        let x = s.skip(3);
        lemma_formatted_is_render(x, i, n);
        lemma_split_template(s, np);
        let x1 = replace_all(x, p, dp);
        let x2 = replace_all(x1, zp, z);
        let x3 = replace_all(x2, np, z);
        lemma_replace_passes_template(np, x, p, dp);
        lemma_replace_passes_template(np, x1, zp, z);
        let y = np + x2;
        assert(matches_at(y, 0, np)) by {
            assert(y.subrange(0, 3) =~= np);
        }
        assert(y.skip(3) =~= x2);
        assert(replace_all(y, np, z) == z + x3);
        lemma_replace_passes_brace_free(z, x3, tp, dt);
    } else if matches_at(s, 0, tp) {
        let x = s.skip(3);
        lemma_formatted_is_render(x, i, n);
        lemma_split_template(s, tp);
        let x1 = replace_all(x, p, dp);
        let x2 = replace_all(x1, zp, z);
        let x3 = replace_all(x2, np, z);
        lemma_replace_passes_template(tp, x, p, dp);
        lemma_replace_passes_template(tp, x1, zp, z);
        lemma_replace_passes_template(tp, x2, np, z);
        let y = tp + x3;
        assert(matches_at(y, 0, tp)) by {
            assert(y.subrange(0, 3) =~= tp);
        }
        assert(y.skip(3) =~= x3);
    } else {
        lemma_formatted_char_step(s, i, n);
        lemma_formatted_is_render(s.skip(1), i, n);
    }
}

/// An occurrence of `{p}`, `{0p}` or `{n}` anywhere in a text is met by
/// the reading from left to right.
proof fn lemma_indexable_has_token(s: Seq<char>, t: Seq<char>, k: int)
    requires
        t == page_template() || t == padded_page_template() || t == numbered_page_template(),
        matches_at(s, k, t),
    ensures
        has_indexable_token(s),
    decreases s.len(),
{
    lemma_templates();
    let p = page_template();
    let zp = padded_page_template();
    let np = numbered_page_template();
    let tp = total_template();
    assert(s.subrange(k, k + t.len())[0] == s[k]);
    assert(s[k] == '{');
    assert(s.subrange(k, k + t.len())[1] == s[k + 1]);
    if matches_at(s, 0, p) || matches_at(s, 0, zp) || matches_at(s, 0, np) {
    } else if matches_at(s, 0, tp) {
        assert(s.subrange(0, 3)[1] == s[1]);
        assert(s.subrange(0, 3)[2] == s[2]);
        if k == 0 {
            assert(s.subrange(0, t.len() as int) =~= t);
        }
        assert(k >= 3);
        assert(s.skip(3).subrange(k - 3, k - 3 + t.len()) =~= s.subrange(k, k + t.len()));
        lemma_indexable_has_token(s.skip(3), t, k - 3);
    } else {
        if k == 0 {
            assert(s.subrange(0, t.len() as int) =~= t);
        }
        assert(s.skip(1).subrange(k - 1, k - 1 + t.len()) =~= s.subrange(k, k + t.len()));
        lemma_indexable_has_token(s.skip(1), t, k - 1);
    }
}

/// For pages `i <= j`, the texts for page `i` are no longer than those for
/// page `j`.
proof fn lemma_piece_lengths(i: nat, j: nat, n: nat)
    requires
        i <= j,
    ensures
        decimal(i).len() <= decimal(j).len(),
        padded_page(i, n).len() <= padded_page(j, n).len(),
{
    lemma_decimal_len_monotonic(i, j);
    lemma_zero_pad_facts(i, decimal(n).len());
    lemma_zero_pad_facts(j, decimal(n).len());
}

/// A later page never gets a shorter text.
proof fn lemma_render_len_monotonic(s: Seq<char>, i: nat, j: nat, n: nat)
    requires
        i <= j,
    ensures
        render(s, i, n).len() <= render(s, j, n).len(),
    decreases s.len(),
{
    lemma_piece_lengths(i, j, n);
    if s.len() == 0 {
    } else if matches_at(s, 0, page_template()) {
        lemma_render_len_monotonic(s.skip(3), i, j, n);
    } else if matches_at(s, 0, padded_page_template()) {
        lemma_render_len_monotonic(s.skip(4), i, j, n);
    } else if matches_at(s, 0, numbered_page_template()) {
        lemma_render_len_monotonic(s.skip(3), i, j, n);
    } else if matches_at(s, 0, total_template()) {
        lemma_render_len_monotonic(s.skip(3), i, j, n);
    } else {
        lemma_render_len_monotonic(s.skip(1), i, j, n);
    }
}

/// `a + x` and `b + y` differ when `a` and `b` are different texts of the
/// same length.
proof fn lemma_differing_heads(a: Seq<char>, x: Seq<char>, b: Seq<char>, y: Seq<char>)
    requires
        a.len() == b.len(),
        a != b,
    ensures
        a + x != b + y,
{
    if a + x == b + y {
        assert forall|k: int| 0 <= k < a.len() implies a[k] == b[k] by {
            assert((a + x)[k] == (b + y)[k]);
        }
        assert(a =~= b);
    }
}

/// `c + x` and `c + y` differ when `x` and `y` do.
proof fn lemma_common_head(c: Seq<char>, x: Seq<char>, y: Seq<char>)
    requires
        x != y,
    ensures
        c + x != c + y,
{
    if c + x == c + y {
        assert((c + x).skip(c.len() as int) =~= x);
        assert((c + y).skip(c.len() as int) =~= y);
    }
}

/// Different pages `i < j` give different texts for a text in which the
/// reading from left to right meets `{p}`, `{0p}` or `{n}`.
proof fn lemma_render_distinct(s: Seq<char>, i: nat, j: nat, n: nat)
    requires
        i < j,
        has_indexable_token(s),
    ensures
        render(s, i, n) != render(s, j, n),
    decreases s.len(),
{
    lemma_piece_lengths(i, j, n);
    lemma_decimal_value(i);
    lemma_decimal_value(j);
    lemma_zero_pad_facts(i, decimal(n).len());
    lemma_zero_pad_facts(j, decimal(n).len());
    if matches_at(s, 0, page_template()) {
        let x = s.skip(3);
        assert(render(s, i, n) == decimal(i) + render(x, i, n));
        assert(render(s, j, n) == decimal(j) + render(x, j, n));
        assert(decimal(i) != decimal(j));
        if decimal(i).len() == decimal(j).len() {
            lemma_differing_heads(decimal(i), render(x, i, n), decimal(j), render(x, j, n));
        } else {
            lemma_render_len_monotonic(x, i, j, n);
        }
    } else if matches_at(s, 0, padded_page_template()) {
        let x = s.skip(4);
        assert(render(s, i, n) == padded_page(i, n) + render(x, i, n));
        assert(render(s, j, n) == padded_page(j, n) + render(x, j, n));
        assert(padded_page(i, n) != padded_page(j, n));
        if padded_page(i, n).len() == padded_page(j, n).len() {
            lemma_differing_heads(padded_page(i, n), render(x, i, n), padded_page(j, n), render(x, j, n));
        } else {
            lemma_render_len_monotonic(x, i, j, n);
        }
    } else if matches_at(s, 0, numbered_page_template()) {
        let x = s.skip(3);
        assert(render(s, i, n) == padded_page(i, n) + render(x, i, n));
        assert(render(s, j, n) == padded_page(j, n) + render(x, j, n));
        assert(padded_page(i, n) != padded_page(j, n));
        if padded_page(i, n).len() == padded_page(j, n).len() {
            lemma_differing_heads(padded_page(i, n), render(x, i, n), padded_page(j, n), render(x, j, n));
        } else {
            lemma_render_len_monotonic(x, i, j, n);
        }
    } else if matches_at(s, 0, total_template()) {
        lemma_render_distinct(s.skip(3), i, j, n);
        lemma_common_head(decimal(n), render(s.skip(3), i, n), render(s.skip(3), j, n));
    } else {
        lemma_render_distinct(s.skip(1), i, j, n);
        lemma_common_head(seq![s[0]], render(s.skip(1), i, n), render(s.skip(1), j, n));
    }
}

/// Every page gets its own output path: when `output` holds `{p}`, `{0p}` or
/// `{n}`, two different page numbers `i` and `j` (counted from 1) give two
/// different paths, whatever the page count.
pub proof fn lemma_pages_get_distinct_paths(output: Seq<char>, i: nat, j: nat, total: nat)
    requires
        is_indexable(output),
        1 <= i,
        1 <= j,
        i != j,
    ensures
        formatted(output, i, total) != formatted(output, j, total),
{
    let t = if contains_seq(output, page_template()) {
        page_template()
    } else if contains_seq(output, padded_page_template()) {
        padded_page_template()
    } else {
        numbered_page_template()
    };
    let k = choose|k: int| matches_at(output, k, t);
    lemma_indexable_has_token(output, t, k);
    lemma_formatted_is_render(output, i, total);
    lemma_formatted_is_render(output, j, total);
    if i < j {
        lemma_render_distinct(output, i, j, total);
    } else {
        lemma_render_distinct(output, j, i, total);
    }
}

/// A replacement leaves a text without the pattern unchanged.
proof fn lemma_replace_absent(s: Seq<char>, pat: Seq<char>, rep: Seq<char>)
    requires
        pat.len() > 0,
        !contains_seq(s, pat),
    ensures
        replace_all(s, pat, rep) == s,
{
    let e = Seq::<char>::empty();
    assert(s + e =~= s);
    assert forall|k: int| 0 <= k < s.len() implies !matches_at(#[trigger] (s + e), k, pat) by {
        assert(!matches_at(s, k, pat));
    }
    lemma_replace_passes_prefix(s, e, pat, rep);
    assert(replace_all(e, pat, rep) =~= e);
}

/// A path without any of the templates `{p}`, `{0p}`, `{n}` and `{t}` is
/// left as it is, whatever the page and the page count.
pub proof fn lemma_format_without_templates(output: Seq<char>, page: nat, total: nat)
    requires
        !contains_seq(output, page_template()),
        !contains_seq(output, padded_page_template()),
        !contains_seq(output, numbered_page_template()),
        !contains_seq(output, total_template()),
    ensures
        formatted(output, page, total) == output,
{
    lemma_replace_absent(output, page_template(), decimal(page));
    lemma_replace_absent(output, padded_page_template(), padded_page(page, total));
    lemma_replace_absent(output, numbered_page_template(), padded_page(page, total));
    lemma_replace_absent(output, total_template(), decimal(total));
}

/// `a` and `b` agree before index `k`, where `a` has the smaller character.
pub open spec fn less_at(a: Seq<char>, b: Seq<char>, k: int) -> bool {
    &&& 0 <= k < a.len()
    &&& k < b.len()
    &&& a.take(k) == b.take(k)
    &&& (a[k] as u32) < (b[k] as u32)
}

/// `a` comes before `b` in the lexicographic order of characters (the order
/// of Rust's `str`): at the first index where they differ `a` has the
/// smaller character, or `a` is a proper prefix of `b`.
pub open spec fn lex_less(a: Seq<char>, b: Seq<char>) -> bool {
    ||| exists|k: int| less_at(a, b, k)
    ||| (a.len() < b.len() && a == b.take(a.len() as int))
}

/// Every character of `s` is a digit.
pub open spec fn all_digits(s: Seq<char>) -> bool {
    forall|k: int| 0 <= k < s.len() ==> is_digit(#[trigger] s[k])
}

/// Digit sequences of one length with the same value are equal.
proof fn lemma_digits_injective(a: Seq<char>, b: Seq<char>)
    requires
        a.len() == b.len(),
        all_digits(a),
        all_digits(b),
        digits_value(a) == digits_value(b),
    ensures
        a == b,
    decreases a.len(),
{
    if a.len() > 0 {
        let a1 = a.drop_last();
        let b1 = b.drop_last();
        assert(is_digit(a[a.len() - 1]));
        assert(is_digit(b[b.len() - 1]));
        assert(digits_value(a1) == digits_value(b1));
        assert(all_digits(a1)) by {
            assert forall|k: int| 0 <= k < a1.len() implies is_digit(#[trigger] a1[k]) by {
                assert(a1[k] == a[k]);
            }
        }
        assert(all_digits(b1)) by {
            assert forall|k: int| 0 <= k < b1.len() implies is_digit(#[trigger] b1[k]) by {
                assert(b1[k] == b[k]);
            }
        }
        lemma_digits_injective(a1, b1);
        assert(digits_value(a) == digits_value(a1) * 10 + ((a.last() as u32 - 48) as nat));
        assert(digits_value(b) == digits_value(b1) * 10 + ((b.last() as u32 - 48) as nat));
        assert(a.last() as u32 == b.last() as u32);
        vstd::utf8::char_u32_cast(a.last(), a.last() as u32);
        vstd::utf8::char_u32_cast(b.last(), b.last() as u32);
        assert(a.last() == b.last());
        assert(a =~= a1.push(a.last()));
        assert(b =~= b1.push(b.last()));
    } else {
        assert(a =~= b);
    }
}

/// Of two digit sequences of one length, the one with the smaller value has
/// the smaller digit where they first differ.
proof fn lemma_digits_order(a: Seq<char>, b: Seq<char>) -> (k: int)
    requires
        a.len() == b.len(),
        all_digits(a),
        all_digits(b),
        digits_value(a) < digits_value(b),
    ensures
        less_at(a, b, k),
    decreases a.len(),
{
    let a1 = a.drop_last();
    let b1 = b.drop_last();
    assert(a.len() > 0);
    let n = a.len() - 1;
    assert(is_digit(a[n]));
    assert(is_digit(b[n]));
    assert(all_digits(a1)) by {
        assert forall|k: int| 0 <= k < a1.len() implies is_digit(#[trigger] a1[k]) by {
            assert(a1[k] == a[k]);
        }
    }
    assert(all_digits(b1)) by {
        assert forall|k: int| 0 <= k < b1.len() implies is_digit(#[trigger] b1[k]) by {
            assert(b1[k] == b[k]);
        }
    }
    if digits_value(a1) < digits_value(b1) {
        let k = lemma_digits_order(a1, b1);
        assert(a.take(k) =~= a1.take(k));
        assert(b.take(k) =~= b1.take(k));
        k
    } else {
        assert(digits_value(a1) == digits_value(b1));
        lemma_digits_injective(a1, b1);
        assert(a.take(n) =~= a1);
        assert(b.take(n) =~= b1);
        n
    }
}

/// A text that does not hold `{p}` has no suffix that holds it.
proof fn lemma_no_page_template_in_suffix(s: Seq<char>, m: int)
    requires
        0 <= m <= s.len(),
        !contains_seq(s, page_template()),
    ensures
        !contains_seq(s.skip(m), page_template()),
{
    let p = page_template();
    if contains_seq(s.skip(m), p) {
        let k = choose|k: int| matches_at(s.skip(m), k, p);
        assert(s.skip(m).subrange(k, k + p.len()) =~= s.subrange(k + m, k + m + p.len()));
        assert(matches_at(s, k + m, p));
    }
}

/// Without `{p}`, every page up to the page count gives a text of the same
/// length.
proof fn lemma_render_same_len(s: Seq<char>, i: nat, j: nat, n: nat)
    requires
        i <= n,
        j <= n,
        !contains_seq(s, page_template()),
    ensures
        render(s, i, n).len() == render(s, j, n).len(),
    decreases s.len(),
{
    lemma_decimal_len_monotonic(i, n);
    lemma_decimal_len_monotonic(j, n);
    lemma_zero_pad_facts(i, decimal(n).len());
    lemma_zero_pad_facts(j, decimal(n).len());
    if s.len() == 0 {
    } else if matches_at(s, 0, page_template()) {
    } else if matches_at(s, 0, padded_page_template()) {
        lemma_no_page_template_in_suffix(s, 4);
        lemma_render_same_len(s.skip(4), i, j, n);
    } else if matches_at(s, 0, numbered_page_template()) || matches_at(s, 0, total_template()) {
        lemma_no_page_template_in_suffix(s, 3);
        lemma_render_same_len(s.skip(3), i, j, n);
    } else {
        lemma_no_page_template_in_suffix(s, 1);
        lemma_render_same_len(s.skip(1), i, j, n);
    }
}

/// `c + x` is before `c + y` where `x` is before `y`.
proof fn lemma_less_after_common_head(c: Seq<char>, x: Seq<char>, y: Seq<char>, k: int)
    requires
        less_at(x, y, k),
    ensures
        less_at(c + x, c + y, c.len() + k),
{
    assert((c + x).take(c.len() + k) =~= c + x.take(k));
    assert((c + y).take(c.len() + k) =~= c + y.take(k));
}

/// `a + x` is before `b + y` where `a` is before `b`.
proof fn lemma_less_in_head(a: Seq<char>, x: Seq<char>, b: Seq<char>, y: Seq<char>, k: int)
    requires
        less_at(a, b, k),
    ensures
        less_at(a + x, b + y, k),
{
    assert((a + x).take(k) =~= a.take(k));
    assert((b + y).take(k) =~= b.take(k));
}

/// Without `{p}`, the text of an earlier page is before that of a later one
/// when the reading meets `{0p}` or `{n}`.
proof fn lemma_render_ordered(s: Seq<char>, i: nat, j: nat, n: nat) -> (k: int)
    requires
        1 <= i < j <= n,
        !contains_seq(s, page_template()),
        has_indexable_token(s),
    ensures
        less_at(render(s, i, n), render(s, j, n), k),
    decreases s.len(),
{
    lemma_decimal_len_monotonic(i, n);
    lemma_decimal_len_monotonic(j, n);
    lemma_zero_pad_facts(i, decimal(n).len());
    lemma_zero_pad_facts(j, decimal(n).len());
    let zi = padded_page(i, n);
    let zj = padded_page(j, n);
    if matches_at(s, 0, page_template()) {
        assert(false);
        0
    } else if matches_at(s, 0, padded_page_template()) || matches_at(s, 0, numbered_page_template()) {
        let k = lemma_digits_order(zi, zj);
        let x = if matches_at(s, 0, padded_page_template()) {
            s.skip(4)
        } else {
            s.skip(3)
        };
        assert(render(s, i, n) == zi + render(x, i, n));
        assert(render(s, j, n) == zj + render(x, j, n));
        lemma_less_in_head(zi, render(x, i, n), zj, render(x, j, n), k);
        k
    } else if matches_at(s, 0, total_template()) {
        lemma_no_page_template_in_suffix(s, 3);
        let k = lemma_render_ordered(s.skip(3), i, j, n);
        lemma_less_after_common_head(decimal(n), render(s.skip(3), i, n), render(s.skip(3), j, n), k);
        decimal(n).len() + k
    } else {
        lemma_no_page_template_in_suffix(s, 1);
        let k = lemma_render_ordered(s.skip(1), i, j, n);
        lemma_less_after_common_head(seq![s[0]], render(s.skip(1), i, n), render(s.skip(1), j, n), k);
        1 + k
    }
}

/// Zero-padded page names sort in page order: when `output` holds `{0p}` or
/// `{n}` but not `{p}`, the paths of pages `1 <= i < j <= total` have the
/// same length, and the path of page `i` comes first in lexicographic order.
pub proof fn lemma_padded_paths_sort_in_page_order(output: Seq<char>, i: nat, j: nat, total: nat)
    requires
        !contains_seq(output, page_template()),
        contains_seq(output, padded_page_template()) || contains_seq(
            output,
            numbered_page_template(),
        ),
        1 <= i < j <= total,
    ensures
        formatted(output, i, total).len() == formatted(output, j, total).len(),
        lex_less(formatted(output, i, total), formatted(output, j, total)),
{
    let t = if contains_seq(output, padded_page_template()) {
        padded_page_template()
    } else {
        numbered_page_template()
    };
    let k0 = choose|k: int| matches_at(output, k, t);
    lemma_indexable_has_token(output, t, k0);
    lemma_formatted_is_render(output, i, total);
    lemma_formatted_is_render(output, j, total);
    lemma_render_same_len(output, i, j, total);
    let k = lemma_render_ordered(output, i, j, total);
    assert(less_at(formatted(output, i, total), formatted(output, j, total), k));
}

} // verus!
