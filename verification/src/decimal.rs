//! Decimal rendering of page numbers: plain (`{}`) and zero-padded to a
//! minimum width (`{:0w$}`), and the width (digit count) of a number.
use vstd::prelude::*;
use vstd::arithmetic::power::pow;

verus! {

/// The character of the decimal digit `d` (`d < 10`).
pub open spec fn digit_char(d: nat) -> char {
    (d + 48) as char
}

/// A character is one of `'0'..='9'`.
pub open spec fn is_digit(c: char) -> bool {
    48 <= c as u32 <= 57
}

/// The decimal representation of `n`, most significant digit first, with no
/// leading zeros (`0` is `"0"`).
pub open spec fn decimal(n: nat) -> Seq<char>
    decreases n,
{
    if n < 10 {
        seq![digit_char(n)]
    } else {
        decimal(n / 10).push(digit_char(n % 10))
    }
}

/// `s` left-padded with `'0'` up to at least `width` characters.
pub open spec fn zero_pad(s: Seq<char>, width: nat) -> Seq<char> {
    if s.len() >= width {
        s
    } else {
        Seq::new((width - s.len()) as nat, |_i: int| '0') + s
    }
}

/// The character of the digit `d`.
fn digit(d: usize) -> (c: char)
    requires
        d < 10,
    ensures
        c == digit_char(d as nat),
{
    let b: u8 = 48u8 + (d as u8);
    b as char
}

/// Appends the decimal representation of `n` to `out`.
pub fn push_decimal(out: &mut Vec<char>, n: usize)
    ensures
        final(out)@ == old(out)@ + decimal(n as nat),
    decreases n,
{
    if n >= 10 {
        push_decimal(out, n / 10);
    }
    let c = digit(n % 10);
    out.push(c);
    proof {
        assert(old(out)@ + decimal(n as nat) =~= out@);
    }
}

/// The decimal representation of `n` (what `format!("{n}")` prints).
pub fn decimal_chars(n: usize) -> (v: Vec<char>)
    ensures
        v@ == decimal(n as nat),
{
    let mut v: Vec<char> = Vec::new();
    push_decimal(&mut v, n);
    assert(Seq::<char>::empty() + decimal(n as nat) =~= decimal(n as nat));
    v
}

/// One decimal step: `n` has one digit more than `n / 10`.
pub proof fn lemma_decimal_len_step(n: nat)
    requires
        n >= 10,
    ensures
        decimal(n).len() == decimal(n / 10).len() + 1,
{
}

/// A decimal representation is never empty.
pub proof fn lemma_decimal_nonempty(n: nat)
    ensures
        decimal(n).len() >= 1,
    decreases n,
{
    if n >= 10 {
        lemma_decimal_nonempty(n / 10);
    }
}

/// A positive number has at most as many digits as its value.
proof fn lemma_decimal_len_le(n: nat)
    requires
        n >= 1,
    ensures
        decimal(n).len() <= n,
    decreases n,
{
    if n >= 10 {
        lemma_decimal_len_le(n / 10);
    }
}

/// The base 10 width of `i`: how many digits `format!("{i}")` prints
/// (`1 + i.checked_ilog10().unwrap_or(0)`).
pub fn width(i: usize) -> (w: usize)
    ensures
        w == decimal(i as nat).len(),
        w >= 1,
{
    let mut w: usize = 1;
    let mut m: usize = i;
    proof {
        lemma_decimal_nonempty(i as nat);
        if i >= 1 {
            lemma_decimal_len_le(i as nat);
        }
    }
    while m >= 10
        invariant
            w >= 1,
            decimal(i as nat).len() == w - 1 + decimal(m as nat).len(),
            decimal(m as nat).len() >= 1,
            i >= 1 ==> decimal(i as nat).len() <= i,
            m <= i,
        decreases m,
    {
        proof {
            lemma_decimal_len_step(m as nat);
            lemma_decimal_nonempty((m / 10) as nat);
        }
        m = m / 10;
        w = w + 1;
    }
    w
}

/// `n` in decimal, left-padded with zeros to at least `min_width` characters
/// (what `format!("{:01$}", n, min_width)` prints).
pub fn zero_padded(n: usize, min_width: usize) -> (v: Vec<char>)
    ensures
        v@ == zero_pad(decimal(n as nat), min_width as nat),
{
    let digits = decimal_chars(n);
    if digits.len() >= min_width {
        return digits;
    }
    let mut v: Vec<char> = Vec::new();
    let fill = min_width - digits.len();
    for k in 0..fill
        invariant
            fill == min_width - digits@.len(),
            v@ == Seq::new(k as nat, |_i: int| '0'),
    {
        v.push('0');
        assert(v@ =~= Seq::new((k + 1) as nat, |_i: int| '0'));
    }
    let ghost zeros = v@;
    crate::text::extend_chars(&mut v, &digits);
    assert(zeros =~= Seq::new((min_width - digits@.len()) as nat, |_i: int| '0'));
    v
}

/// The number that a sequence of decimal digits denotes (most significant
/// digit first; the empty sequence denotes 0).
pub open spec fn digits_value(s: Seq<char>) -> nat
    decreases s.len(),
{
    if s.len() == 0 {
        0
    } else {
        digits_value(s.drop_last()) * 10 + ((s.last() as u32 - 48) as nat)
    }
}

/// `n` leading zeros.
pub open spec fn zeros(n: nat) -> Seq<char> {
    Seq::new(n, |_i: int| '0')
}

/// Reading back the decimal representation of `n` gives `n`.
pub proof fn lemma_decimal_value(n: nat)
    ensures
        digits_value(decimal(n)) == n,
    decreases n,
{
    lemma_digit_char_value(n % 10);
    if n >= 10 {
        lemma_decimal_value(n / 10);
        let d = decimal(n);
        assert(d.drop_last() =~= decimal(n / 10));
        assert(d.last() == digit_char(n % 10));
        assert(n == (n / 10) * 10 + n % 10);
        assert(digits_value(d) == digits_value(d.drop_last()) * 10 + ((d.last() as u32 - 48) as nat));
    } else {
        let d = decimal(n);
        assert(digits_value(d) == digits_value(d.drop_last()) * 10 + ((d.last() as u32 - 48) as nat));
        assert(d.last() == digit_char(n));
        assert(decimal(n).drop_last() =~= Seq::<char>::empty());
    }
}

/// The character of a digit reads back as the digit.
proof fn lemma_digit_char_value(d: nat)
    requires
        d < 10,
    ensures
        (digit_char(d) as u32 - 48) as nat == d,
        is_digit(digit_char(d)),
        d >= 1 ==> digit_char(d) != '0',
{
}

/// Leading zeros do not change the value of a sequence of digits.
pub proof fn lemma_leading_zero_value(s: Seq<char>)
    ensures
        digits_value(seq!['0'] + s) == digits_value(s),
    decreases s.len(),
{
    let t = seq!['0'] + s;
    if s.len() > 0 {
        lemma_leading_zero_value(s.drop_last());
        assert(t.drop_last() =~= seq!['0'] + s.drop_last());
        assert(t.last() == s.last());
        assert(digits_value(t) == digits_value(t.drop_last()) * 10 + ((t.last() as u32 - 48) as nat));
        assert(digits_value(s) == digits_value(s.drop_last()) * 10 + ((s.last() as u32 - 48) as nat));
    } else {
        assert(t.drop_last() =~= Seq::<char>::empty());
        assert(t.last() == '0');
        assert(('0' as u32 - 48) as nat == 0);
        assert(digits_value(t) == digits_value(t.drop_last()) * 10 + ((t.last() as u32 - 48) as nat));
        assert(digits_value(Seq::<char>::empty()) == 0);
        assert(s =~= Seq::<char>::empty());
    }
}

/// Any number of leading zeros does not change the value of a sequence of
/// digits.
pub proof fn lemma_zeros_value(k: nat, s: Seq<char>)
    ensures
        digits_value(zeros(k) + s) == digits_value(s),
    decreases k,
{
    if k > 0 {
        lemma_zeros_value((k - 1) as nat, s);
        assert(zeros(k) + s =~= seq!['0'] + (zeros((k - 1) as nat) + s));
        lemma_leading_zero_value(zeros((k - 1) as nat) + s);
    }
}

/// Every character of a decimal representation is a digit, and the first one
/// is `'0'` only for the number 0.
pub proof fn lemma_decimal_digits(n: nat)
    ensures
        forall|k: int| 0 <= k < decimal(n).len() ==> is_digit(#[trigger] decimal(n)[k]),
        n >= 1 ==> decimal(n)[0] != '0',
        decimal(n).len() >= 1,
    decreases n,
{
    lemma_decimal_nonempty(n);
    if n >= 10 {
        lemma_decimal_digits(n / 10);
        assert forall|k: int| 0 <= k < decimal(n).len() implies is_digit(
            #[trigger] decimal(n)[k],
        ) by {
            if k < decimal(n).len() - 1 {
                assert(decimal(n)[k] == decimal(n / 10)[k]);
            }
        }
        assert(decimal(n)[0] == decimal(n / 10)[0]);
    }
}

/// A larger number has at least as many digits.
pub proof fn lemma_decimal_len_monotonic(a: nat, b: nat)
    requires
        a <= b,
    ensures
        decimal(a).len() <= decimal(b).len(),
    decreases b,
{
    lemma_decimal_nonempty(a);
    lemma_decimal_nonempty(b);
    if a >= 10 {
        lemma_decimal_len_monotonic(a / 10, b / 10);
    }
}

/// The width of `n` is its digit count: `n < 10^w`, and `10^(w-1) <= n` when
/// `n >= 1`, for `w == decimal(n).len()`.
pub proof fn lemma_width_bounds(n: nat)
    ensures
        n < pow(10, decimal(n).len()),
        n >= 1 ==> pow(10, (decimal(n).len() - 1) as nat) <= n,
    decreases n,
{
    lemma_decimal_nonempty(n);
    reveal(pow);
    if n >= 10 {
        lemma_width_bounds(n / 10);
        let w = decimal(n / 10).len();
        assert(decimal(n).len() == w + 1);
        assert(pow(10, w + 1) == 10 * pow(10, w));
        assert(n / 10 < pow(10, w));
        assert(n < 10 * pow(10, w)) by (nonlinear_arith)
            requires
                n / 10 < pow(10, w),
        ;
        lemma_decimal_nonempty(n / 10);
        assert(pow(10, (w - 1) as nat) <= n / 10);
        assert(pow(10, w) == 10 * pow(10, (w - 1) as nat));
        assert(10 * pow(10, (w - 1) as nat) <= n) by (nonlinear_arith)
            requires
                pow(10, (w - 1) as nat) <= n / 10,
        ;
    } else {
        assert(pow(10, 1) == 10 * pow(10, 0));
    }
}

/// A zero-padded page number is all digits, never empty, as long as the
/// wider of the padding width and the number, and reads back as the number.
pub proof fn lemma_zero_pad_facts(n: nat, w: nat)
    ensures
        zero_pad(decimal(n), w).len() == if decimal(n).len() >= w {
            decimal(n).len()
        } else {
            w
        },
        zero_pad(decimal(n), w).len() >= 1,
        forall|k: int|
            0 <= k < zero_pad(decimal(n), w).len() ==> is_digit(#[trigger] zero_pad(decimal(n), w)[k]),
        digits_value(zero_pad(decimal(n), w)) == n,
{
    lemma_decimal_digits(n);
    lemma_decimal_value(n);
    if decimal(n).len() < w {
        let k = (w - decimal(n).len()) as nat;
        assert(Seq::new(k, |_i: int| '0') =~= zeros(k));
        lemma_zeros_value(k, decimal(n));
        assert forall|j: int| 0 <= j < zero_pad(decimal(n), w).len() implies is_digit(
            #[trigger] zero_pad(decimal(n), w)[j],
        ) by {
            if j >= k {
                assert(zero_pad(decimal(n), w)[j] == decimal(n)[j - k]);
            }
        }
    }
}

} // verus!
