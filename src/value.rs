use crate::arith::gcd;
use vstd::prelude::*;

verus! {

/// Sign of a fraction, kept apart from its magnitudes.
#[derive(Clone, Copy, Debug, PartialEq, Eq, Structural)]
pub enum Sign {
    Plus,
    Minus,
}

/// Why a text could not be read as a fraction, or a value not be built.
#[derive(Clone, Copy, Debug, PartialEq, Eq, Structural)]
pub enum ParseError {
    /// The text matches neither a ratio nor a bare integer.
    Syntax,
    /// A run of digits does not fit in a `u64`.
    NumericRange,
    /// The denominator is zero.
    ZeroDenominator,
}

/// A signed rational number held in lowest terms.
///
/// The fields are private: every value comes from `Fraction::new` (or the
/// parser, which goes through it), so it is always canonical and `==` on the
/// fields is equality of rational numbers.
#[derive(Clone, Copy, Debug, PartialEq, Eq, Structural)]
pub struct Fraction {
    sign: Sign,
    numer: u64,
    denom: u64,
}

impl View for Fraction {
    /// Sign, numerator magnitude, denominator magnitude.
    type V = (Sign, nat, nat);

    closed spec fn view(&self) -> (Sign, nat, nat) {
        (self.sign, self.numer as nat, self.denom as nat)
    }
}

/// The canonical form: nonzero denominator, coprime magnitudes, and zero
/// always positive; both magnitudes fit in a `u64`.
pub open spec fn is_canonical(v: (Sign, nat, nat)) -> bool {
    &&& v.2 > 0
    &&& gcd(v.1, v.2) == 1
    &&& (v.1 == 0 ==> v.0 == Sign::Plus)
    &&& v.1 <= u64::MAX
    &&& v.2 <= u64::MAX
}

/// The lowest-terms form of `sign * numer / denom` (zero loses its sign).
pub open spec fn reduced(sign: Sign, numer: nat, denom: nat) -> (Sign, nat, nat) {
    (
        if numer == 0 {
            Sign::Plus
        } else {
            sign
        },
        numer / gcd(numer, denom),
        denom / gcd(numer, denom),
    )
}

/// Relies on `fraction::Fraction::new` (`GenericFraction<u64>`): with a
/// nonzero denominator it holds a `Rational` whose magnitudes are the
/// arguments divided by their greatest common divisor (num-rational's
/// `Ratio::new` reduces; a zero numerator gets denominator one).
#[verifier::external_body]
fn lowest_terms(numer: u64, denom: u64) -> (r: (u64, u64))
    requires
        denom != 0,
    ensures
        r.0 as nat == numer as nat / gcd(numer as nat, denom as nat),
        r.1 as nat == denom as nat / gcd(numer as nat, denom as nat),
{
    let f = fraction::Fraction::new(numer, denom);
    (*f.numer().unwrap(), *f.denom().unwrap())
}

/// The character of a decimal digit `d < 10`.
pub open spec fn digit_char(d: nat) -> char {
    ((d + 48) as u8) as char
}

/// Decimal digits of `n`, most significant first, with no leading zero.
pub open spec fn decimal(n: nat) -> Seq<char>
    decreases n,
{
    if n < 10 {
        seq![digit_char(n)]
    } else {
        decimal(n / 10).push(digit_char(n % 10))
    }
}

/// Canonical text: an optional `-`, the numerator, and `/` with the
/// denominator unless the denominator is one.
pub open spec fn text_of(v: (Sign, nat, nat)) -> Seq<char> {
    let sign: Seq<char> = if v.0 == Sign::Minus {
        seq!['-']
    } else {
        Seq::empty()
    };
    let tail: Seq<char> = if v.2 == 1 {
        Seq::empty()
    } else {
        seq!['/'] + decimal(v.2)
    };
    sign + decimal(v.1) + tail
}

/// Appends the decimal digits of `n`.
fn push_decimal(n: u64, out: &mut Vec<char>)
    ensures
        final(out)@ == old(out)@ + decimal(n as nat),
    decreases n,
{
    if n >= 10 {
        push_decimal(n / 10, out);
    }
    let d: u8 = (n % 10) as u8;
    out.push((d + 48) as char);
}

/// Relies on `FromIterator<char>` for `String` (std): the string holds the
/// characters in order.
#[verifier::external_body]
fn string_from_chars(v: &Vec<char>) -> (r: String)
    ensures
        r@ == v@,
{
    v.iter().collect()
}

impl Fraction {
    /// Builds `sign * numer / denom` in lowest terms; fails exactly when the
    /// denominator is zero.
    pub fn new(sign: Sign, numer: u64, denom: u64) -> (r: Result<Fraction, ParseError>)
        ensures
            r is Err <==> denom == 0,
            r is Err ==> r->Err_0 == ParseError::ZeroDenominator,
            r is Ok ==> r->Ok_0@ == reduced(sign, numer as nat, denom as nat),
            r is Ok ==> is_canonical(r->Ok_0@),
    {
        if denom == 0 {
            return Err(ParseError::ZeroDenominator);
        }
        let (n, d) = lowest_terms(numer, denom);
        let ghost g = gcd(numer as nat, denom as nat);
        proof {
            crate::arith::lemma_gcd_of_quotients(numer as nat, denom as nat);
            crate::arith::lemma_gcd_positive(numer as nat, denom as nat);
        }
        let s = if n == 0 {
            Sign::Plus
        } else {
            sign
        };
        assert(numer == 0 <==> n == 0) by (nonlinear_arith)
            requires
                n as nat * g == numer,
                g > 0,
        ;
        assert(d > 0) by (nonlinear_arith)
            requires
                d as nat * g == denom,
                denom > 0,
        ;
        Ok(Fraction { sign: s, numer: n, denom: d })
    }

    /// Renders the value in canonical text: `-N/D`, `N/D`, `-N` or `N`.
    pub fn output(&self) -> (r: String)
        ensures
            r@ == text_of(self@),
    {
        let mut out: Vec<char> = Vec::new();
        if self.sign == Sign::Minus {
            out.push('-');
        }
        push_decimal(self.numer, &mut out);
        if self.denom != 1 {
            out.push('/');
            push_decimal(self.denom, &mut out);
        }
        assert(out@ =~= text_of(self@));
        string_from_chars(&out)
    }

    /// The sign; `Plus` for zero.
    pub fn sign(&self) -> (r: Sign)
        ensures
            r == self@.0,
    {
        self.sign
    }

    /// The numerator's magnitude, in lowest terms.
    pub fn numer(&self) -> (r: u64)
        ensures
            r == self@.1,
    {
        self.numer
    }

    /// The denominator, in lowest terms; never zero for a built value.
    pub fn denom(&self) -> (r: u64)
        ensures
            r == self@.2,
    {
        self.denom
    }
}

} // verus!
