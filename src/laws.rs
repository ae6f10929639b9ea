use crate::arith::gcd;
use crate::grammar::{
    denominator_at, digit_value, digits_end, digits_value, is_digit, parse_prefix, parse_text,
    signed_int, skip_spaces,
};
use crate::value::{decimal, digit_char, is_canonical, reduced, text_of, ParseError, Sign};
use vstd::prelude::*;

verus! {

proof fn lemma_digit_char(k: nat)
    requires
        k < 10,
    ensures
        is_digit(digit_char(k)),
        digit_value(digit_char(k)) == k,
{
}

/// The decimal digits of `n` form a non-empty run of digits that spells `n`.
proof fn lemma_decimal(n: nat)
    ensures
        decimal(n).len() >= 1,
        forall|i: int| 0 <= i < decimal(n).len() ==> is_digit(#[trigger] decimal(n)[i]),
        digits_value(decimal(n)) == n,
    decreases n,
{
    if n < 10 {
        lemma_digit_char(n);
        let s = decimal(n);
        assert(s.drop_last() =~= Seq::<char>::empty());
        assert(digits_value(s) == digits_value(s.drop_last()) * 10 + digit_value(s.last()));
    } else {
        lemma_decimal(n / 10);
        lemma_digit_char(n % 10);
        let s = decimal(n);
        assert(s.drop_last() =~= decimal(n / 10));
        assert(s.last() == digit_char(n % 10));
        assert(digits_value(s) == digits_value(s.drop_last()) * 10 + digit_value(s.last()));
        assert((n / 10) * 10 + n % 10 == n) by (nonlinear_arith);
    }
}

/// At a position that holds no space, skipping spaces stays put.
proof fn lemma_no_space(s: Seq<char>, i: int)
    requires
        0 <= i <= s.len(),
        i < s.len() ==> s[i] != ' ',
    ensures
        skip_spaces(s, i) == i,
{
}

/// A run of digits from `i` to `j` that ends the text or a non-digit.
proof fn lemma_digit_run(s: Seq<char>, i: int, j: int)
    requires
        0 <= i <= j <= s.len(),
        forall|k: int| i <= k < j ==> is_digit(#[trigger] s[k]),
        j < s.len() ==> !is_digit(s[j]),
    ensures
        digits_end(s, i) == j,
    decreases j - i,
{
    if i < j {
        lemma_digit_run(s, i + 1, j);
    }
}

/// Reading the canonical text of a canonical value gives the value back.
pub proof fn lemma_text_round_trip(v: (Sign, nat, nat))
    requires
        is_canonical(v),
    ensures
        parse_text(text_of(v)) == Ok::<(Sign, nat, nat), ParseError>(v),
{
    let (sign, n, d) = v;
    let t = text_of(v);
    let head: Seq<char> = if sign == Sign::Minus {
        seq!['-']
    } else {
        Seq::empty()
    };
    let num = decimal(n);
    let den = decimal(d);
    lemma_decimal(n);
    lemma_decimal(d);
    let ns = head.len() as int;
    let ne = ns + num.len();
    assert(num[0] != '-');
    if sign == Sign::Minus {
        assert(t[0] == '-');
        lemma_no_space(t, 1);
    } else {
        assert(t[0] == num[0]);
    }
    assert forall|k: int| ns <= k < ne implies is_digit(#[trigger] t[k]) by {
        assert(t[k] == num[k - ns]);
    }
    assert(t.subrange(ns, ne) =~= num);
    if d == 1 {
        assert(t =~= head + num);
        lemma_digit_run(t, ns, ne);
        assert(signed_int(t) == Some((sign, ns, ne)));
        lemma_no_space(t, ne);
        assert(denominator_at(t, ne) is None);
        assert(gcd(n, 1) == 1);
        assert(reduced(sign, n, 1) == v);
    } else {
        assert(t =~= head + num + seq!['/'] + den);
        assert(t[ne] == '/');
        lemma_digit_run(t, ns, ne);
        assert(signed_int(t) == Some((sign, ns, ne)));
        lemma_no_space(t, ne);
        let ds = ne + 1;
        let de = t.len() as int;
        assert(t[ds] == den[0]);
        lemma_no_space(t, ds);
        assert forall|k: int| ds <= k < de implies is_digit(#[trigger] t[k]) by {
            assert(t[k] == den[k - ds]);
        }
        lemma_digit_run(t, ds, de);
        assert(t.subrange(ds, de) =~= den);
        assert(denominator_at(t, ne) == Some((ds, de)));
        assert(reduced(sign, n, d) == v);
    }
}

/// Formatting a constructed value and reading the text back yields the
/// lowest-terms form of the sign, numerator and denominator it was built
/// from, for every nonzero denominator.
pub proof fn lemma_construct_format_parse(sign: Sign, numer: u64, denom: u64)
    requires
        denom != 0,
    ensures
        is_canonical(reduced(sign, numer as nat, denom as nat)),
        parse_text(text_of(reduced(sign, numer as nat, denom as nat))) == Ok::<
            (Sign, nat, nat),
            ParseError,
        >(reduced(sign, numer as nat, denom as nat)),
{
    let n = numer as nat;
    let d = denom as nat;
    crate::arith::lemma_gcd_of_quotients(n, d);
    crate::arith::lemma_gcd_positive(n, d);
    let g = gcd(n, d);
    assert(n / g <= n && d / g <= d && d / g > 0) by (nonlinear_arith)
        requires
            g > 0,
            n / g * g == n,
            d / g * g == d,
            d > 0,
    ;
    assert(n / g == 0 ==> n == 0) by (nonlinear_arith)
        requires
            n / g * g == n,
    ;
    lemma_text_round_trip(reduced(sign, n, d));
}

/// A bare run of digits whose value does not fit in a `u64` is refused
/// with a range error, never truncated or wrapped.
pub proof fn lemma_wide_digit_run(s: Seq<char>)
    requires
        s.len() > 0,
        forall|i: int| 0 <= i < s.len() ==> is_digit(#[trigger] s[i]),
        digits_value(s) > u64::MAX,
    ensures
        parse_text(s) == Err::<(Sign, nat, nat), ParseError>(ParseError::NumericRange),
{
    assert(is_digit(s[0]));
    lemma_digit_run(s, 0, s.len() as int);
    assert(s.subrange(0, s.len() as int) =~= s);
    assert(signed_int(s) == Some((Sign::Plus, 0int, s.len() as int)));
    lemma_no_space(s, s.len() as int);
    assert(denominator_at(s, s.len() as int) is None);
    assert(parse_prefix(s) == Err::<((Sign, nat, nat), int), ParseError>(ParseError::NumericRange));
}

/// A run of `k` spaces.
pub open spec fn spaces(k: nat) -> Seq<char> {
    Seq::new(k, |_i: int| ' ')
}

/// A text made of digits only, at least one.
pub open spec fn is_digit_run(a: Seq<char>) -> bool {
    a.len() > 0 && forall|i: int| 0 <= i < a.len() ==> is_digit(#[trigger] a[i])
}

/// The sign mark of a literal, `-` or nothing.
pub open spec fn sign_mark(sign: Sign) -> Seq<char> {
    if sign == Sign::Minus {
        seq!['-']
    } else {
        Seq::empty()
    }
}

/// An integer literal: the sign mark, `m` spaces (only after a `-`), digits.
pub open spec fn integer_text(sign: Sign, m: nat, a: Seq<char>) -> Seq<char> {
    sign_mark(sign) + spaces(m) + a
}

/// A ratio literal with `i` spaces before the `/` and `j` after it.
pub open spec fn ratio_text(sign: Sign, m: nat, a: Seq<char>, i: nat, j: nat, b: Seq<char>) -> Seq<
    char,
> {
    integer_text(sign, m, a) + spaces(i) + seq!['/'] + spaces(j) + b
}

/// What reading a ratio gives once its two digit runs are known.
pub open spec fn ratio_outcome(sign: Sign, n: nat, d: nat) -> Result<(Sign, nat, nat), ParseError> {
    if n > u64::MAX || d > u64::MAX {
        Err(ParseError::NumericRange)
    } else if d == 0 {
        Err(ParseError::ZeroDenominator)
    } else {
        Ok(reduced(sign, n, d))
    }
}

/// What reading a bare integer gives once its digit run is known.
pub open spec fn integer_outcome(sign: Sign, n: nat) -> Result<(Sign, nat, nat), ParseError> {
    if n > u64::MAX {
        Err(ParseError::NumericRange)
    } else {
        Ok(reduced(sign, n, 1))
    }
}

/// A run of spaces from `i` to `j` that ends the text or a non-space.
proof fn lemma_space_run(s: Seq<char>, i: int, j: int)
    requires
        0 <= i <= j <= s.len(),
        forall|k: int| i <= k < j ==> #[trigger] s[k] == ' ',
        j < s.len() ==> s[j] != ' ',
    ensures
        skip_spaces(s, i) == j,
    decreases j - i,
{
    if i < j {
        lemma_space_run(s, i + 1, j);
    }
}

/// Where the sign mark and spaces of an integer literal end, and that the
/// digits follow there.
proof fn lemma_signed_int_of(t: Seq<char>, sign: Sign, m: nat, a: Seq<char>)
    requires
        is_digit_run(a),
        sign == Sign::Plus ==> m == 0,
        t.len() >= integer_text(sign, m, a).len(),
        t.subrange(0, integer_text(sign, m, a).len() as int) == integer_text(sign, m, a),
        t.len() > integer_text(sign, m, a).len() ==> !is_digit(
            t[integer_text(sign, m, a).len() as int],
        ),
    ensures
        signed_int(t) == Some(
            (
                sign,
                (sign_mark(sign).len() + m) as int,
                integer_text(sign, m, a).len() as int,
            ),
        ),
        t.subrange((sign_mark(sign).len() + m) as int, integer_text(sign, m, a).len() as int) == a,
{
    let h = sign_mark(sign);
    let it = integer_text(sign, m, a);
    let ns = (h.len() + m) as int;
    let ne = it.len() as int;
    assert forall|k: int| 0 <= k < it.len() implies #[trigger] t[k] == it[k] by {
        assert(t[k] == t.subrange(0, ne)[k]);
    }
    assert forall|k: int| ns <= k < ne implies is_digit(#[trigger] t[k]) by {
        assert(t[k] == it[k]);
        assert(it[k] == a[k - ns]);
    }
    assert(t[ns] == a[0]);
    assert(a[0] != '-' && a[0] != ' ');
    if sign == Sign::Minus {
        assert(t[0] == '-');
        assert forall|k: int| 1 <= k < ns implies #[trigger] t[k] == ' ' by {
            assert(t[k] == it[k]);
            assert(it[k] == spaces(m)[k - 1]);
        }
        lemma_space_run(t, 1, ns);
    } else {
        assert(t[0] == a[0]);
    }
    lemma_digit_run(t, ns, ne);
    assert(t.subrange(ns, ne) =~= a);
}

/// Reading an integer literal, however it is spaced after the `-`.
pub proof fn lemma_integer_text(sign: Sign, m: nat, a: Seq<char>)
    requires
        is_digit_run(a),
        sign == Sign::Plus ==> m == 0,
    ensures
        parse_text(integer_text(sign, m, a)) == integer_outcome(sign, digits_value(a)),
{
    let t = integer_text(sign, m, a);
    assert(t.subrange(0, t.len() as int) =~= t);
    lemma_signed_int_of(t, sign, m, a);
    lemma_no_space(t, t.len() as int);
}

/// Reading a ratio literal, however it is spaced after the `-` and around
/// the `/`.
pub proof fn lemma_ratio_text(sign: Sign, m: nat, a: Seq<char>, i: nat, j: nat, b: Seq<char>)
    requires
        is_digit_run(a),
        is_digit_run(b),
        sign == Sign::Plus ==> m == 0,
    ensures
        parse_text(ratio_text(sign, m, a, i, j, b)) == ratio_outcome(
            sign,
            digits_value(a),
            digits_value(b),
        ),
{
    let it = integer_text(sign, m, a);
    let t = ratio_text(sign, m, a, i, j, b);
    let ne = it.len() as int;
    let k = ne + i;
    let ds = k + 1 + j;
    let de = t.len() as int;
    assert(t.subrange(0, ne) =~= it);
    assert(t[ne] == ' ' || t[ne] == '/');
    lemma_signed_int_of(t, sign, m, a);
    assert forall|x: int| ne <= x < k implies #[trigger] t[x] == ' ' by {}
    assert(t[k] == '/');
    lemma_space_run(t, ne, k);
    assert forall|x: int| k + 1 <= x < ds implies #[trigger] t[x] == ' ' by {}
    assert(t[ds] == b[0]);
    lemma_space_run(t, k + 1, ds);
    assert forall|x: int| ds <= x < de implies is_digit(#[trigger] t[x]) by {
        assert(t[x] == b[x - ds]);
    }
    lemma_digit_run(t, ds, de);
    assert(t.subrange(ds, de) =~= b);
    assert(denominator_at(t, ne) == Some((ds, de)));
}

/// Spaces after the `-` and on either side of the `/` change nothing:
/// every spacing of a ratio reads as the compact form does.
pub proof fn lemma_spacing_insensitive(
    sign: Sign,
    m: nat,
    a: Seq<char>,
    i: nat,
    j: nat,
    b: Seq<char>,
)
    requires
        is_digit_run(a),
        is_digit_run(b),
        sign == Sign::Plus ==> m == 0,
    ensures
        parse_text(ratio_text(sign, m, a, i, j, b)) == parse_text(ratio_text(sign, 0, a, 0, 0, b)),
{
    lemma_ratio_text(sign, m, a, i, j, b);
    lemma_ratio_text(sign, 0, a, 0, 0, b);
}

/// A bare integer reads as the same digits over `/1`.
pub proof fn lemma_bare_integer_over_one(sign: Sign, m: nat, a: Seq<char>)
    requires
        is_digit_run(a),
        sign == Sign::Plus ==> m == 0,
    ensures
        parse_text(integer_text(sign, m, a)) == parse_text(ratio_text(sign, m, a, 0, 0, seq!['1'])),
{
    let one = seq!['1'];
    assert(one.drop_last() =~= Seq::<char>::empty());
    assert(one.last() == '1');
    lemma_digit_char(1);
    assert(digit_char(1) == '1');
    assert(digits_value(one) == digits_value(one.drop_last()) * 10 + digit_value(one.last()));
    lemma_integer_text(sign, m, a);
    lemma_ratio_text(sign, m, a, 0, 0, one);
}

/// Scaling numerator and denominator by the same positive factor gives the
/// same value once reduced (so `2/4` and `1/2` are one value).
pub proof fn lemma_reduced_scaled(sign: Sign, n: nat, d: nat, k: nat)
    requires
        d > 0,
        k > 0,
    ensures
        reduced(sign, k * n, k * d) == reduced(sign, n, d),
{
    let g = gcd(n, d);
    crate::arith::lemma_gcd_of_quotients(n, d);
    crate::arith::lemma_gcd_positive(n, d);
    crate::arith::lemma_gcd_scaled(n, d, k);
    let qn = n / g;
    let qd = d / g;
    assert(k * n == qn * (k * g) && k * d == qd * (k * g) && k * g > 0) by (nonlinear_arith)
        requires
            qn * g == n,
            qd * g == d,
            k > 0,
            g > 0,
    ;
    vstd::arithmetic::div_mod::lemma_div_multiples_vanish(qn as int, (k * g) as int);
    vstd::arithmetic::div_mod::lemma_div_multiples_vanish(qd as int, (k * g) as int);
    assert((k * g) * qn == qn * (k * g) && (k * g) * qd == qd * (k * g)) by (nonlinear_arith);
    assert(k * n == 0 <==> n == 0) by (nonlinear_arith)
        requires
            k > 0,
    ;
}

} // verus!
