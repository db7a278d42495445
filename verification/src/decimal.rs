//! Decimal digit strings: rendering non-negative integers, zero padding, and
//! reading a digit string back as a number.
use vstd::prelude::*;

verus! {

/// The character of the decimal digit `d` (`'0'` is code point 48).
pub open spec fn digit_char(d: int) -> char {
    (d + 48) as char
}

/// The numeric value of a digit character.
pub open spec fn digit_value(c: char) -> int {
    c as int - 48
}

/// True when every character of `s` is one of `'0'..='9'`.
pub open spec fn all_digits(s: Seq<char>) -> bool {
    forall|i: int| 0 <= i < s.len() ==> '0' <= #[trigger] s[i] && s[i] <= '9'
}

/// The shortest decimal rendering of `n` (as `{}` formats an unsigned integer).
pub open spec fn decimal(n: nat) -> Seq<char>
    decreases n,
{
    if n < 10 {
        seq![digit_char(n as int)]
    } else {
        decimal(n / 10).push(digit_char((n % 10) as int))
    }
}

/// `k` zero characters.
pub open spec fn zeros(k: nat) -> Seq<char> {
    Seq::new(k, |_i: int| '0')
}

/// The decimal rendering of `n`, left-padded with zeros to at least `width`
/// characters (as `{:0>width$}` formats an unsigned integer).
pub open spec fn zero_padded(n: nat, width: nat) -> Seq<char> {
    if decimal(n).len() >= width {
        decimal(n)
    } else {
        zeros((width - decimal(n).len()) as nat) + decimal(n)
    }
}

/// The value of a digit string read in base ten; leading zeros contribute nothing.
pub open spec fn digits_value(s: Seq<char>) -> int
    decreases s.len(),
{
    if s.len() == 0 {
        0
    } else {
        digits_value(s.drop_last()) * 10 + digit_value(s.last())
    }
}

/// Ten to the power `n`.
pub open spec fn pow10(n: nat) -> nat
    decreases n,
{
    if n == 0 {
        1
    } else {
        10 * pow10((n - 1) as nat)
    }
}

pub proof fn lemma_pow10_positive(n: nat)
    ensures
        pow10(n) >= 1,
    decreases n,
{
    if n > 0 {
        lemma_pow10_positive((n - 1) as nat);
    }
}

proof fn lemma_digit_char(d: int)
    requires
        0 <= d < 10,
    ensures
        digit_value(digit_char(d)) == d,
        '0' <= digit_char(d) <= '9',
{
}

/// The rendering of `n` is a non-empty digit string whose value is `n`.
pub proof fn lemma_decimal(n: nat)
    ensures
        all_digits(decimal(n)),
        decimal(n).len() >= 1,
        digits_value(decimal(n)) == n,
    decreases n,
{
    let d = decimal(n);
    if n < 10 {
        lemma_digit_char(n as int);
        assert(d.drop_last() =~= Seq::<char>::empty());
        assert(digits_value(d.drop_last()) == 0);
        assert(digits_value(d) == digits_value(d.drop_last()) * 10 + digit_value(d.last()));
    } else {
        lemma_decimal(n / 10);
        lemma_digit_char((n % 10) as int);
        assert(d.drop_last() =~= decimal(n / 10));
        assert(d.last() == digit_char((n % 10) as int));
        assert(digits_value(d) == digits_value(d.drop_last()) * 10 + digit_value(d.last()));
        assert((n / 10) * 10 + n % 10 == n) by (nonlinear_arith);
    }
}

/// A digit string is worth the value of its front times a power of ten plus the
/// value of its back.
pub proof fn lemma_digits_value_concat(a: Seq<char>, b: Seq<char>)
    ensures
        digits_value(a + b) == digits_value(a) * pow10(b.len()) + digits_value(b),
    decreases b.len(),
{
    if b.len() == 0 {
        assert(a + b =~= a);
        assert(digits_value(b) == 0);
        assert(pow10(0) == 1);
        assert(digits_value(a) * 1 == digits_value(a));
    } else {
        let ab = a + b;
        assert(ab.drop_last() =~= a + b.drop_last());
        assert(digits_value(ab) == digits_value(ab.drop_last()) * 10 + digit_value(ab.last()));
        assert(digits_value(b) == digits_value(b.drop_last()) * 10 + digit_value(b.last()));
        lemma_digits_value_concat(a, b.drop_last());
        assert(ab.last() == b.last());
        let p = pow10(b.drop_last().len());
        assert(pow10(b.len()) == 10 * p);
        let va = digits_value(a);
        assert((va * p + digits_value(b.drop_last())) * 10 + digit_value(b.last())
            == va * (10 * p) + (digits_value(b.drop_last()) * 10 + digit_value(b.last())))
            by (nonlinear_arith);
    }
}

pub proof fn lemma_zeros_value(k: nat)
    ensures
        digits_value(zeros(k)) == 0,
        all_digits(zeros(k)),
    decreases k,
{
    if k > 0 {
        assert(zeros(k).drop_last() =~= zeros((k - 1) as nat));
        lemma_zeros_value((k - 1) as nat);
    }
}

/// A digit string has a non-negative value.
pub proof fn lemma_digits_value_nonneg(s: Seq<char>)
    requires
        all_digits(s),
    ensures
        digits_value(s) >= 0,
    decreases s.len(),
{
    if s.len() > 0 {
        assert(all_digits(s.drop_last()));
        lemma_digits_value_nonneg(s.drop_last());
    }
}

/// Zero padding keeps the value and gives a digit string of the padded width.
pub proof fn lemma_zero_padded(n: nat, width: nat)
    ensures
        all_digits(zero_padded(n, width)),
        digits_value(zero_padded(n, width)) == n,
        zero_padded(n, width).len() >= width,
        zero_padded(n, width).len() >= 1,
        width >= 1 && n < pow10(width) ==> zero_padded(n, width).len() == width,
{
    lemma_decimal(n);
    if decimal(n).len() < width {
        let z = zeros((width - decimal(n).len()) as nat);
        lemma_zeros_value((width - decimal(n).len()) as nat);
        lemma_digits_value_concat(z, decimal(n));
        assert(0 * pow10(decimal(n).len()) == 0) by (nonlinear_arith);
    } else if width >= 1 && n < pow10(width) && decimal(n).len() > width {
        lemma_decimal_len_bound(n, width);
    }
}

/// A rendering longer than `width` digits is worth at least ten to the `width`.
proof fn lemma_decimal_len_bound(n: nat, width: nat)
    requires
        decimal(n).len() > width,
        width >= 1,
    ensures
        n >= pow10(width),
    decreases n,
{
    assert(n >= 10);
    assert(decimal(n).len() == decimal(n / 10).len() + 1);
    if width == 1 {
        assert(pow10(1) == 10 * pow10(0));
    } else {
        lemma_decimal_len_bound(n / 10, (width - 1) as nat);
        assert(pow10(width) == 10 * pow10((width - 1) as nat));
        assert(n >= 10 * (n / 10)) by (nonlinear_arith);
    }
}

/// The value of a prefix of a digit string never exceeds the value of the whole.
pub proof fn lemma_prefix_value_le(s: Seq<char>, k: int)
    requires
        all_digits(s),
        0 <= k <= s.len(),
    ensures
        0 <= digits_value(s.take(k)) <= digits_value(s),
{
    let a = s.take(k);
    let b = s.skip(k);
    assert(s =~= a + b);
    assert(all_digits(a));
    assert(all_digits(b));
    lemma_digits_value_concat(a, b);
    lemma_digits_value_nonneg(a);
    lemma_digits_value_nonneg(b);
    lemma_pow10_positive(b.len());
    let va = digits_value(a);
    let p = pow10(b.len());
    assert(va * p >= va) by (nonlinear_arith)
        requires
            va >= 0,
            p >= 1,
    ;
}

/// Appends `c` to `s` (std's `String::push`).
#[verifier::external_body]
pub(crate) fn push_char(s: &mut String, c: char)
    ensures
        final(s)@ == old(s)@.push(c),
{
    s.push(c);
}

/// The character of the digit `d`.
fn digit(d: u64) -> (c: char)
    requires
        d < 10,
    ensures
        c == digit_char(d as int),
{
    let b: u8 = 48u8 + (d as u8);
    b as char
}

/// Appends the decimal rendering of `n`.
fn push_decimal(out: &mut Vec<char>, n: u64)
    ensures
        final(out)@ == old(out)@ + decimal(n as nat),
    decreases n,
{
    if n >= 10 {
        push_decimal(out, n / 10);
    }
    out.push(digit(n % 10));
    assert(final(out)@ =~= old(out)@ + decimal(n as nat));
}

/// The decimal rendering of `n`, left-padded with zeros to at least `width` characters.
pub fn zero_padded_digits(n: u64, width: usize) -> (r: Vec<char>)
    ensures
        r@ == zero_padded(n as nat, width as nat),
{
    let mut digits: Vec<char> = Vec::new();
    push_decimal(&mut digits, n);
    assert(digits@ =~= decimal(n as nat));
    if digits.len() >= width {
        return digits;
    }
    let mut out: Vec<char> = Vec::new();
    let pad: usize = width - digits.len();
    let mut i: usize = 0;
    while i < pad
        invariant
            i <= pad,
            out@ =~= zeros(i as nat),
        decreases pad - i,
    {
        out.push('0');
        i = i + 1;
    }
    let mut j: usize = 0;
    while j < digits.len()
        invariant
            j <= digits.len(),
            out@ =~= zeros(pad as nat) + digits@.take(j as int),
        decreases digits.len() - j,
    {
        out.push(digits[j]);
        j = j + 1;
    }
    assert(digits@.take(digits.len() as int) =~= digits@);
    out
}

/// Appends every character of `cs` to `s`.
pub fn push_all(s: &mut String, cs: &Vec<char>)
    ensures
        final(s)@ == old(s)@ + cs@,
{
    let mut i: usize = 0;
    while i < cs.len()
        invariant
            i <= cs.len(),
            s@ =~= old(s)@ + cs@.take(i as int),
        decreases cs.len() - i,
    {
        push_char(s, cs[i]);
        i = i + 1;
    }
    assert(cs@.take(cs.len() as int) =~= cs@);
}

/// Reads a digit string as an `i32`, or `None` when its value exceeds `i32::MAX`.
pub fn digits_to_i32(cs: &Vec<char>) -> (r: Option<i32>)
    requires
        all_digits(cs@),
    ensures
        r == (if digits_value(cs@) <= i32::MAX { Some(digits_value(cs@) as i32) } else { None }),
{
    let mut acc: i32 = 0;
    let mut i: usize = 0;
    while i < cs.len()
        invariant
            i <= cs.len(),
            all_digits(cs@),
            acc as int == digits_value(cs@.take(i as int)),
            acc >= 0,
        decreases cs.len() - i,
    {
        let c = cs[i];
        let d: i32 = (c as u32 - 48u32) as i32;
        proof {
            assert(cs@.take(i + 1).drop_last() =~= cs@.take(i as int));
            assert(cs@.take(i + 1).last() == c);
            assert('0' <= cs@[i as int] <= '9');
        }
        match acc.checked_mul(10) {
            None => {
                proof {
                    lemma_prefix_value_le(cs@, i + 1);
                }
                return None;
            },
            Some(t) => match t.checked_add(d) {
                None => {
                    proof {
                        lemma_prefix_value_le(cs@, i + 1);
                    }
                    return None;
                },
                Some(v) => {
                    acc = v;
                },
            },
        }
        i = i + 1;
    }
    assert(cs@.take(cs.len() as int) =~= cs@);
    Some(acc)
}

} // verus!
