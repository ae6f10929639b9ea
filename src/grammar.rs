use crate::value::{reduced, Fraction, ParseError, Sign};
use vstd::prelude::*;
use vstd::string::StrSliceExecFns;

verus! {

/// An ASCII decimal digit.
pub open spec fn is_digit(c: char) -> bool {
    '0' <= c && c <= '9'
}

/// The value of a digit character.
pub open spec fn digit_value(c: char) -> nat {
    (c as u32 - '0' as u32) as nat
}

/// The number that a run of digits spells in base ten.
pub open spec fn digits_value(s: Seq<char>) -> nat
    decreases s.len(),
{
    if s.len() == 0 {
        0
    } else {
        digits_value(s.drop_last()) * 10 + digit_value(s.last())
    }
}

/// The first position at or after `i` that does not hold a space.
pub open spec fn skip_spaces(s: Seq<char>, i: int) -> int
    decreases s.len() - i,
{
    if 0 <= i < s.len() && s[i] == ' ' {
        skip_spaces(s, i + 1)
    } else {
        i
    }
}

/// The first position at or after `i` that does not hold a digit.
pub open spec fn digits_end(s: Seq<char>, i: int) -> int
    decreases s.len() - i,
{
    if 0 <= i < s.len() && is_digit(s[i]) {
        digits_end(s, i + 1)
    } else {
        i
    }
}

/// A signed integer at the start of `s`: an optional `-` with spaces after
/// it, then at least one digit. Gives the sign and where the digits lie.
pub open spec fn signed_int(s: Seq<char>) -> Option<(Sign, int, int)> {
    let sign = if s.len() > 0 && s[0] == '-' {
        Sign::Minus
    } else {
        Sign::Plus
    };
    let start = if s.len() > 0 && s[0] == '-' {
        skip_spaces(s, 1)
    } else {
        0
    };
    let end = digits_end(s, start);
    if end > start {
        Some((sign, start, end))
    } else {
        None
    }
}

/// After a numerator that ends at `i`: spaces, `/`, spaces, then at least
/// one digit. Gives where the denominator's digits lie.
pub open spec fn denominator_at(s: Seq<char>, i: int) -> Option<(int, int)> {
    let k = skip_spaces(s, i);
    let start = skip_spaces(s, k + 1);
    let end = digits_end(s, start);
    if 0 <= k < s.len() && s[k] == '/' && end > start {
        Some((start, end))
    } else {
        None
    }
}

/// Reads a fraction from the front of `s`: a ratio when a denominator
/// follows the numerator, else a bare integer over one. Gives the value and
/// the position where the match ends; the rest of `s` is left alone.
pub open spec fn parse_prefix(s: Seq<char>) -> Result<((Sign, nat, nat), int), ParseError> {
    match signed_int(s) {
        None => Err(ParseError::Syntax),
        Some((sign, ns, ne)) => {
            let n = digits_value(s.subrange(ns, ne));
            match denominator_at(s, ne) {
                Some((ds, de)) => {
                    let d = digits_value(s.subrange(ds, de));
                    if n > u64::MAX || d > u64::MAX {
                        Err(ParseError::NumericRange)
                    } else if d == 0 {
                        Err(ParseError::ZeroDenominator)
                    } else {
                        Ok((reduced(sign, n, d), de))
                    }
                },
                None => {
                    if n > u64::MAX {
                        Err(ParseError::NumericRange)
                    } else {
                        Ok((reduced(sign, n, 1), ne))
                    }
                },
            }
        },
    }
}

/// Reads a whole text as a fraction: the match must reach its end.
pub open spec fn parse_text(s: Seq<char>) -> Result<(Sign, nat, nat), ParseError> {
    match parse_prefix(s) {
        Err(e) => Err(e),
        Ok((v, end)) => if end == s.len() {
            Ok(v)
        } else {
            Err(ParseError::Syntax)
        },
    }
}

/// The characters of `text`, in order.
fn chars_of(text: &str) -> (r: Vec<char>)
    ensures
        r@ == text@,
{
    let mut v: Vec<char> = Vec::new();
    for c in it: text.chars()
        invariant
            v@ == it.seq().take(it.index() as int),
    {
        v.push(c);
    }
    v
}

/// Executable `skip_spaces`.
fn skip_spaces_from(s: &Vec<char>, i: usize) -> (r: usize)
    requires
        i <= s@.len(),
    ensures
        r as int == skip_spaces(s@, i as int),
        i <= r <= s@.len(),
{
    let mut j: usize = i;
    while j < s.len() && s[j] == ' '
        invariant
            i <= j <= s@.len(),
            skip_spaces(s@, j as int) == skip_spaces(s@, i as int),
        decreases s@.len() - j,
    {
        j = j + 1;
    }
    j
}

/// Executable `digits_end`; every position it passes holds a digit.
fn digits_end_from(s: &Vec<char>, i: usize) -> (r: usize)
    requires
        i <= s@.len(),
    ensures
        r as int == digits_end(s@, i as int),
        i <= r <= s@.len(),
        forall|k: int| i <= k < r ==> is_digit(#[trigger] s@[k]),
{
    let mut j: usize = i;
    while j < s.len() && '0' <= s[j] && s[j] <= '9'
        invariant
            i <= j <= s@.len(),
            digits_end(s@, j as int) == digits_end(s@, i as int),
            forall|k: int| i <= k < j ==> is_digit(#[trigger] s@[k]),
        decreases s@.len() - j,
    {
        j = j + 1;
    }
    j
}

/// The value of the digits in `s[start..end]`, or `None` when it does not
/// fit in a `u64`.
fn read_digits(s: &Vec<char>, start: usize, end: usize) -> (r: Option<u64>)
    requires
        start <= end <= s@.len(),
        forall|k: int| start <= k < end ==> is_digit(#[trigger] s@[k]),
    ensures
        r is Some <==> digits_value(s@.subrange(start as int, end as int)) <= u64::MAX,
        r is Some ==> r->0 as nat == digits_value(s@.subrange(start as int, end as int)),
{
    let mut acc: u64 = 0;
    let mut fits = true;
    let mut j: usize = start;
    assert(s@.subrange(start as int, start as int).len() == 0);
    while j < end
        invariant
            start <= j <= end <= s@.len(),
            forall|k: int| start <= k < end ==> is_digit(#[trigger] s@[k]),
            fits ==> acc as nat == digits_value(s@.subrange(start as int, j as int)),
            !fits ==> digits_value(s@.subrange(start as int, j as int)) > u64::MAX,
        decreases end - j,
    {
        let c = s[j];
        assert(is_digit(s@[j as int]));
        let d: u64 = (c as u32 - '0' as u32) as u64;
        let ghost prev = digits_value(s@.subrange(start as int, j as int));
        assert(s@.subrange(start as int, j + 1 as int).drop_last() =~= s@.subrange(start as int, j as int));
        assert(digits_value(s@.subrange(start as int, j + 1 as int)) == prev * 10 + d);
        if fits {
            match acc.checked_mul(10) {
                Some(m) => match m.checked_add(d) {
                    Some(a) => {
                        acc = a;
                    },
                    None => {
                        fits = false;
                    },
                },
                None => {
                    fits = false;
                },
            }
        }
        j = j + 1;
    }
    if fits {
        Some(acc)
    } else {
        None
    }
}

/// `parse_prefix` on a vector of characters; the position is where the
/// match ends.
fn read_prefix(s: &Vec<char>) -> (r: Result<(Fraction, usize), ParseError>)
    ensures
        parse_prefix(s@) is Ok <==> r is Ok,
        r is Ok ==> r->Ok_0.0@ == parse_prefix(s@)->Ok_0.0,
        r is Ok ==> r->Ok_0.1 as int == parse_prefix(s@)->Ok_0.1,
        r is Ok ==> r->Ok_0.1 <= s@.len(),
        r is Err ==> r->Err_0 == parse_prefix(s@)->Err_0,
{
    let len = s.len();
    let negative = len > 0 && s[0] == '-';
    let sign = if negative {
        Sign::Minus
    } else {
        Sign::Plus
    };
    let start = if negative {
        skip_spaces_from(s, 1)
    } else {
        0
    };
    let ne = digits_end_from(s, start);
    if ne == start {
        return Err(ParseError::Syntax);
    }
    let num = read_digits(s, start, ne);
    let k = skip_spaces_from(s, ne);
    if k < len && s[k] == '/' {
        let ds = skip_spaces_from(s, k + 1);
        let de = digits_end_from(s, ds);
        if de > ds {
            let den = read_digits(s, ds, de);
            return match (num, den) {
                (Some(n), Some(d)) => match Fraction::new(sign, n, d) {
                    Ok(f) => Ok((f, de)),
                    Err(e) => Err(e),
                },
                _ => Err(ParseError::NumericRange),
            };
        }
    }
    match num {
        Some(n) => match Fraction::new(sign, n, 1) {
            Ok(f) => Ok((f, ne)),
            Err(e) => Err(e),
        },
        None => Err(ParseError::NumericRange),
    }
}

/// Reads a fraction from the front of `input` and hands back the text that
/// follows it, which may be non-empty.
pub fn parse_fraction(input: &str) -> (r: Result<(Fraction, &str), ParseError>)
    ensures
        parse_prefix(input@) is Ok <==> r is Ok,
        r is Ok ==> r->Ok_0.0@ == parse_prefix(input@)->Ok_0.0,
        r is Ok ==> r->Ok_0.1@ == input@.subrange(
            parse_prefix(input@)->Ok_0.1,
            input@.len() as int,
        ),
        r is Err ==> r->Err_0 == parse_prefix(input@)->Err_0,
{
    let s = chars_of(input);
    match read_prefix(&s) {
        Ok((f, end)) => Ok((f, input.substring_char(end, s.len()))),
        Err(e) => Err(e),
    }
}

impl Fraction {
    /// Reads a whole text as a fraction; text left after the match is a
    /// syntax error.
    pub fn input(text: &str) -> (r: Result<Fraction, ParseError>)
        ensures
            parse_text(text@) is Ok <==> r is Ok,
            r is Ok ==> r->Ok_0@ == parse_text(text@)->Ok_0,
            r is Err ==> r->Err_0 == parse_text(text@)->Err_0,
    {
        let s = chars_of(text);
        match read_prefix(&s) {
            Ok((f, end)) => if end == s.len() {
                Ok(f)
            } else {
                Err(ParseError::Syntax)
            },
            Err(e) => Err(e),
        }
    }
}

} // verus!
