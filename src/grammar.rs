use vstd::prelude::*;
use crate::tree::{Workout, max_value, annotation_free};

verus! {

/// What the parser was looking for where it stopped.
#[derive(Clone, Copy, Debug, PartialEq, Eq)]
pub enum Expected {
    /// A number, a distance or `(`.
    Operand,
    /// `+`, `*` or `)`.
    OperatorOrClose,
    /// `+`, `*` or the end of the input.
    OperatorOrEnd,
}

/// Why a text is not a workout. Positions count characters from the start.
#[derive(Clone, Copy, Debug, PartialEq, Eq)]
pub enum ParseError {
    /// The text does not follow the grammar at `pos`.
    SyntaxError { pos: usize, expected: Expected },
    /// The literal that starts at `pos` does not fit in 32 bits.
    NumericOverflow { pos: usize },
}

/// Whitespace, as Unicode's `White_Space` property defines it.
pub open spec fn is_space(c: char) -> bool {
    let u = c as u32;
    u == 0x20 || (0x09 <= u && u <= 0x0d) || u == 0x85 || u == 0xa0 || u == 0x1680
        || (0x2000 <= u && u <= 0x200a) || u == 0x2028 || u == 0x2029 || u == 0x202f
        || u == 0x205f || u == 0x3000
}

pub open spec fn is_digit(c: char) -> bool {
    '0' <= c && c <= '9'
}

pub open spec fn digit_value(c: char) -> nat {
    (c as u32 - '0' as u32) as nat
}

/// How many characters of `s` lie at or after `i`.
pub open spec fn left(s: Seq<char>, i: nat) -> nat {
    if i < s.len() {
        (s.len() - i) as nat
    } else {
        0
    }
}

/// The number of whitespace characters of `s` from `i` on.
pub open spec fn space_run(s: Seq<char>, i: nat) -> nat
    decreases left(s, i),
{
    if i < s.len() && is_space(s[i as int]) {
        1 + space_run(s, i + 1)
    } else {
        0
    }
}

/// The number of decimal digits of `s` from `i` on.
pub open spec fn digit_run(s: Seq<char>, i: nat) -> nat
    decreases left(s, i),
{
    if i < s.len() && is_digit(s[i as int]) {
        1 + digit_run(s, i + 1)
    } else {
        0
    }
}

/// The number written by the `n` digits of `s` that start at `i`.
pub open spec fn digits_value(s: Seq<char>, i: nat, n: nat) -> nat
    decreases n,
{
    if n == 0 {
        0
    } else {
        digits_value(s, i, (n - 1) as nat) * 10 + digit_value(s[i + n - 1])
    }
}

/// `atom := digits 'm' | digits | '(' sum ')'`, after optional whitespace.
/// On success, the tree and the number of characters consumed from `i`.
pub open spec fn atom(s: Seq<char>, i: nat) -> Result<(Workout, nat), ParseError>
    decreases left(s, i), 0nat,
{
    let k = i + space_run(s, i);
    if k < s.len() && is_digit(s[k as int]) {
        let n = digit_run(s, k);
        let v = digits_value(s, k, n);
        if v > max_value() {
            Err(ParseError::NumericOverflow { pos: k as usize })
        } else if k + n < s.len() && s[(k + n) as int] == 'm' {
            Ok((Workout::Meters(v as u32), (k + n + 1 - i) as nat))
        } else {
            Ok((Workout::Num(v as u32), (k + n - i) as nat))
        }
    } else if k < s.len() && s[k as int] == '(' {
        match sum(s, k + 1) {
            Err(e) => Err(e),
            Ok((w, c)) => {
                let j = k + 1 + c;
                let close = j + space_run(s, j);
                if close < s.len() && s[close as int] == ')' {
                    Ok((w, (close + 1 - i) as nat))
                } else {
                    Err(ParseError::SyntaxError { pos: close as usize, expected: Expected::OperatorOrClose })
                }
            },
        }
    } else {
        Err(ParseError::SyntaxError { pos: k as usize, expected: Expected::Operand })
    }
}

/// `( '*' atom )*` after the operand `lhs`, folded to the left.
pub open spec fn product_rest(s: Seq<char>, lhs: Workout, i: nat) -> Result<(Workout, nat), ParseError>
    decreases left(s, i), 1nat,
{
    let k = i + space_run(s, i);
    if k < s.len() && s[k as int] == '*' {
        match atom(s, k + 1) {
            Err(e) => Err(e),
            Ok((rhs, c)) => match product_rest(s, Workout::Times(Box::new(lhs), Box::new(rhs)), k + 1 + c) {
                Err(e) => Err(e),
                Ok((w, d)) => Ok((w, (k + 1 + c + d - i) as nat)),
            },
        }
    } else {
        Ok((lhs, 0))
    }
}

/// `product := atom ( '*' atom )*`
pub open spec fn product(s: Seq<char>, i: nat) -> Result<(Workout, nat), ParseError>
    decreases left(s, i), 2nat,
{
    match atom(s, i) {
        Err(e) => Err(e),
        Ok((w, c)) => match product_rest(s, w, i + c) {
            Err(e) => Err(e),
            Ok((w2, d)) => Ok((w2, c + d)),
        },
    }
}

/// `( '+' product )*` after the operand `lhs`, folded to the left.
pub open spec fn sum_rest(s: Seq<char>, lhs: Workout, i: nat) -> Result<(Workout, nat), ParseError>
    decreases left(s, i), 3nat,
{
    let k = i + space_run(s, i);
    if k < s.len() && s[k as int] == '+' {
        match product(s, k + 1) {
            Err(e) => Err(e),
            Ok((rhs, c)) => match sum_rest(s, Workout::Plus(Box::new(lhs), Box::new(rhs)), k + 1 + c) {
                Err(e) => Err(e),
                Ok((w, d)) => Ok((w, (k + 1 + c + d - i) as nat)),
            },
        }
    } else {
        Ok((lhs, 0))
    }
}

/// `sum := product ( '+' product )*`
pub open spec fn sum(s: Seq<char>, i: nat) -> Result<(Workout, nat), ParseError>
    decreases left(s, i), 4nat,
{
    match product(s, i) {
        Err(e) => Err(e),
        Ok((w, c)) => match sum_rest(s, w, i + c) {
            Err(e) => Err(e),
            Ok((w2, d)) => Ok((w2, c + d)),
        },
    }
}

/// The tree that the whole text `s` denotes: one sum, with nothing but
/// whitespace after it.
pub open spec fn parsed(s: Seq<char>) -> Result<Workout, ParseError> {
    match sum(s, 0) {
        Err(e) => Err(e),
        Ok((w, c)) => {
            let k = c + space_run(s, c);
            if k < s.len() {
                Err(ParseError::SyntaxError { pos: k as usize, expected: Expected::OperatorOrEnd })
            } else {
                Ok(w)
            }
        },
    }
}

/// Each rule of the grammar builds trees from literals, sums and products
/// only; the lemmas below show it rule by rule.
proof fn lemma_atom_annotation_free(s: Seq<char>, i: nat)
    ensures
        atom(s, i) is Ok ==> annotation_free(atom(s, i)->Ok_0.0),
    decreases left(s, i), 0nat,
{
    let k = i + space_run(s, i);
    if !(k < s.len() && is_digit(s[k as int])) && k < s.len() && s[k as int] == '(' {
        lemma_sum_annotation_free(s, k + 1);
    }
}

proof fn lemma_product_rest_annotation_free(s: Seq<char>, lhs: Workout, i: nat)
    requires
        annotation_free(lhs),
    ensures
        product_rest(s, lhs, i) is Ok ==> annotation_free(product_rest(s, lhs, i)->Ok_0.0),
    decreases left(s, i), 1nat,
{
    let k = i + space_run(s, i);
    if k < s.len() && s[k as int] == '*' {
        lemma_atom_annotation_free(s, k + 1);
        if let Ok((rhs, c)) = atom(s, k + 1) {
            let w = Workout::Times(Box::new(lhs), Box::new(rhs));
            assert(annotation_free(w));
            lemma_product_rest_annotation_free(s, w, k + 1 + c);
        }
    }
}

proof fn lemma_product_annotation_free(s: Seq<char>, i: nat)
    ensures
        product(s, i) is Ok ==> annotation_free(product(s, i)->Ok_0.0),
    decreases left(s, i), 2nat,
{
    lemma_atom_annotation_free(s, i);
    if let Ok((w, c)) = atom(s, i) {
        lemma_product_rest_annotation_free(s, w, i + c);
    }
}

proof fn lemma_sum_rest_annotation_free(s: Seq<char>, lhs: Workout, i: nat)
    requires
        annotation_free(lhs),
    ensures
        sum_rest(s, lhs, i) is Ok ==> annotation_free(sum_rest(s, lhs, i)->Ok_0.0),
    decreases left(s, i), 3nat,
{
    let k = i + space_run(s, i);
    if k < s.len() && s[k as int] == '+' {
        lemma_product_annotation_free(s, k + 1);
        if let Ok((rhs, c)) = product(s, k + 1) {
            let w = Workout::Plus(Box::new(lhs), Box::new(rhs));
            assert(annotation_free(w));
            lemma_sum_rest_annotation_free(s, w, k + 1 + c);
        }
    }
}

proof fn lemma_sum_annotation_free(s: Seq<char>, i: nat)
    ensures
        sum(s, i) is Ok ==> annotation_free(sum(s, i)->Ok_0.0),
    decreases left(s, i), 4nat,
{
    lemma_product_annotation_free(s, i);
    if let Ok((w, c)) = product(s, i) {
        lemma_sum_rest_annotation_free(s, w, i + c);
    }
}

/// No text parses to a tree that holds an annotation: the notation has no
/// syntax for one.
pub proof fn lemma_parsed_annotation_free(s: Seq<char>)
    ensures
        parsed(s) is Ok ==> annotation_free(parsed(s)->Ok_0),
{
    lemma_sum_annotation_free(s, 0);
}

} // verus!
