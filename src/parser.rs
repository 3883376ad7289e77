use vstd::prelude::*;
use vstd::std_specs::iter::IteratorSpec;
use crate::tree::{Workout, max_value, annotation_free};
use crate::grammar::{
    Expected, ParseError, is_space, is_digit, digit_value, space_run, digit_run, digits_value,
    atom, product_rest, product, sum_rest, sum, parsed, lemma_parsed_annotation_free,
};

verus! {

/// Whether `r`, a parse that started at `i` and reports where it ended,
/// is the grammar's result `g`, which reports how much it consumed.
pub open spec fn agrees(
    r: Result<(Workout, usize), ParseError>,
    i: nat,
    g: Result<(Workout, nat), ParseError>,
) -> bool {
    match g {
        Ok((w, c)) => r is Ok && r->Ok_0.0 == w && r->Ok_0.1 as nat == i + c,
        Err(e) => r == Err::<(Workout, usize), ParseError>(e),
    }
}

/// Whether an `Ok` parse from `i` ends within `s`, at or after `i`.
pub open spec fn ends_within(r: Result<(Workout, usize), ParseError>, i: nat, len: nat) -> bool {
    r is Ok ==> i <= r->Ok_0.1 <= len
}

fn is_space_char(c: char) -> (r: bool)
    ensures
        r == is_space(c),
{
    let u = c as u32;
    u == 0x20 || (0x09 <= u && u <= 0x0d) || u == 0x85 || u == 0xa0 || u == 0x1680
        || (0x2000 <= u && u <= 0x200a) || u == 0x2028 || u == 0x2029 || u == 0x202f
        || u == 0x205f || u == 0x3000
}

fn is_digit_char(c: char) -> (r: bool)
    ensures
        r == is_digit(c),
{
    '0' <= c && c <= '9'
}

/// The characters of `s`, in order.
fn chars_of(s: &str) -> (v: Vec<char>)
    ensures
        v@ == s@,
{
    let mut it = s.chars();
    let mut v: Vec<char> = Vec::new();
    loop
        invariant
            v@ + it.remaining() == s@,
            it.decrease() is Some,
        ensures
            v@ =~= s@,
        decreases it.decrease()->0,
    {
        match it.next() {
            Some(c) => {
                v.push(c);
            },
            None => {
                break;
            },
        }
    }
    v
}

/// The position of the first character at or after `i` that is not whitespace.
fn skip_spaces(s: &Vec<char>, i: usize) -> (k: usize)
    requires
        i <= s.len(),
    ensures
        k == i + space_run(s@, i as nat),
        k <= s.len(),
{
    let mut j = i;
    while j < s.len() && is_space_char(s[j])
        invariant
            i <= j <= s.len(),
            i + space_run(s@, i as nat) == j + space_run(s@, j as nat),
        decreases s.len() - j,
    {
        j = j + 1;
    }
    j
}

proof fn lemma_digits_value_grows(s: Seq<char>, i: nat, m: nat, n: nat)
    requires
        m <= n,
    ensures
        digits_value(s, i, m) <= digits_value(s, i, n),
    decreases n,
{
    if m < n {
        lemma_digits_value_grows(s, i, m, (n - 1) as nat);
    }
}

/// The value of the digits at `k` and where they end, or `None` where the
/// value does not fit in 32 bits.
fn scan_number(s: &Vec<char>, k: usize) -> (r: Option<(u32, usize)>)
    requires
        k < s.len(),
    ensures
        match r {
            Some((v, e)) => e <= s.len() && e == k + digit_run(s@, k as nat) && v == digits_value(
                s@,
                k as nat,
                digit_run(s@, k as nat),
            ),
            None => digits_value(s@, k as nat, digit_run(s@, k as nat)) > max_value(),
        },
{
    let mut j = k;
    let mut v: u32 = 0;
    while j < s.len() && is_digit_char(s[j])
        invariant
            k <= j <= s.len(),
            v == digits_value(s@, k as nat, (j - k) as nat),
            digit_run(s@, k as nat) == (j - k) + digit_run(s@, j as nat),
        decreases s.len() - j,
    {
        let d = (s[j] as u32) - ('0' as u32);
        let next: u64 = (v as u64) * 10 + (d as u64);
        assert(digits_value(s@, k as nat, (j + 1 - k) as nat) == next);
        if next > 0xffff_ffffu64 {
            proof {
                lemma_digits_value_grows(s@, k as nat, (j + 1 - k) as nat, digit_run(s@, k as nat));
            }
            return None;
        }
        v = next as u32;
        j = j + 1;
    }
    Some((v, j))
}

fn parse_atom(s: &Vec<char>, i: usize) -> (r: Result<(Workout, usize), ParseError>)
    requires
        i <= s.len(),
    ensures
        agrees(r, i as nat, atom(s@, i as nat)),
        ends_within(r, i as nat, s.len() as nat),
    decreases s.len() - i, 0nat,
{
    let k = skip_spaces(s, i);
    if k < s.len() && is_digit_char(s[k]) {
        match scan_number(s, k) {
            None => Err(ParseError::NumericOverflow { pos: k }),
            Some((v, e)) => {
                if e < s.len() && s[e] == 'm' {
                    Ok((Workout::Meters(v), e + 1))
                } else {
                    Ok((Workout::Num(v), e))
                }
            },
        }
    } else if k < s.len() && s[k] == '(' {
        match parse_sum(s, k + 1) {
            Err(e) => Err(e),
            Ok((w, j)) => {
                let close = skip_spaces(s, j);
                if close < s.len() && s[close] == ')' {
                    Ok((w, close + 1))
                } else {
                    Err(ParseError::SyntaxError { pos: close, expected: Expected::OperatorOrClose })
                }
            },
        }
    } else {
        Err(ParseError::SyntaxError { pos: k, expected: Expected::Operand })
    }
}

fn parse_product_rest(s: &Vec<char>, lhs: Workout, i: usize) -> (r: Result<(Workout, usize), ParseError>)
    requires
        i <= s.len(),
    ensures
        agrees(r, i as nat, product_rest(s@, lhs, i as nat)),
        ends_within(r, i as nat, s.len() as nat),
    decreases s.len() - i, 1nat,
{
    let k = skip_spaces(s, i);
    if k < s.len() && s[k] == '*' {
        match parse_atom(s, k + 1) {
            Err(e) => Err(e),
            Ok((rhs, j)) => parse_product_rest(s, Workout::Times(Box::new(lhs), Box::new(rhs)), j),
        }
    } else {
        Ok((lhs, i))
    }
}

fn parse_product(s: &Vec<char>, i: usize) -> (r: Result<(Workout, usize), ParseError>)
    requires
        i <= s.len(),
    ensures
        agrees(r, i as nat, product(s@, i as nat)),
        ends_within(r, i as nat, s.len() as nat),
    decreases s.len() - i, 2nat,
{
    match parse_atom(s, i) {
        Err(e) => Err(e),
        Ok((w, j)) => parse_product_rest(s, w, j),
    }
}

fn parse_sum_rest(s: &Vec<char>, lhs: Workout, i: usize) -> (r: Result<(Workout, usize), ParseError>)
    requires
        i <= s.len(),
    ensures
        agrees(r, i as nat, sum_rest(s@, lhs, i as nat)),
        ends_within(r, i as nat, s.len() as nat),
    decreases s.len() - i, 3nat,
{
    let k = skip_spaces(s, i);
    if k < s.len() && s[k] == '+' {
        match parse_product(s, k + 1) {
            Err(e) => Err(e),
            Ok((rhs, j)) => parse_sum_rest(s, Workout::Plus(Box::new(lhs), Box::new(rhs)), j),
        }
    } else {
        Ok((lhs, i))
    }
}

fn parse_sum(s: &Vec<char>, i: usize) -> (r: Result<(Workout, usize), ParseError>)
    requires
        i <= s.len(),
    ensures
        agrees(r, i as nat, sum(s@, i as nat)),
        ends_within(r, i as nat, s.len() as nat),
    decreases s.len() - i, 4nat,
{
    match parse_product(s, i) {
        Err(e) => Err(e),
        Ok((w, j)) => parse_sum_rest(s, w, j),
    }
}

/// Parses a whole workout:
///
/// ```text
/// sum     := product ( '+' product )*
/// product := atom ( '*' atom )*
/// atom    := digits 'm' | digits | '(' sum ')'
/// ```
///
/// Both operators fold to the left, `*` binds tighter than `+`, and
/// whitespace may stand between any two tokens. The result is exactly
/// `parsed(input@)`: the whole text must be used, and a literal above
/// `u32::MAX` is a `NumericOverflow`. The notation has no syntax for an
/// annotation, so a parsed tree holds none.
pub fn parse_workout(input: &str) -> (r: Result<Workout, ParseError>)
    ensures
        r == parsed(input@),
        r is Ok ==> annotation_free(r->Ok_0),
{
    proof {
        lemma_parsed_annotation_free(input@);
    }
    let s = chars_of(input);
    match parse_sum(&s, 0) {
        Err(e) => Err(e),
        Ok((w, j)) => {
            let k = skip_spaces(&s, j);
            if k < s.len() {
                Err(ParseError::SyntaxError { pos: k, expected: Expected::OperatorOrEnd })
            } else {
                Ok(w)
            }
        },
    }
}

} // verus!
