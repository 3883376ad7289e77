use vstd::prelude::*;
use crate::tree::{Workout, decimal, digit_char, distance, fits, instr, max_value};
use crate::grammar::{
    ParseError, is_digit, is_space, digit_value, space_run, digit_run, digits_value, atom, product_rest,
    product, sum_rest, sum, parsed,
};

verus! {

proof fn lemma_digit_char(d: nat)
    requires
        d < 10,
    ensures
        is_digit(digit_char(d)),
        digit_value(digit_char(d)) == d,
{
    let ds = seq!['0', '1', '2', '3', '4', '5', '6', '7', '8', '9'];
    assert(digit_char(d) == ds[d as int]);
    if d == 0 {
    } else if d == 1 {
    } else if d == 2 {
    } else if d == 3 {
    } else if d == 4 {
    } else if d == 5 {
    } else if d == 6 {
    } else if d == 7 {
    } else if d == 8 {
    } else {
    }
}

/// The decimal text of a number is a non-empty run of digits.
proof fn lemma_decimal_digits(n: nat)
    ensures
        decimal(n).len() >= 1,
        forall|j: int| 0 <= j < decimal(n).len() ==> #[trigger] is_digit(decimal(n)[j]),
    decreases n,
{
    if n < 10 {
        lemma_digit_char(n);
    } else {
        lemma_decimal_digits(n / 10);
        lemma_digit_char(n % 10);
    }
}

proof fn lemma_digit_not_space(c: char)
    requires
        is_digit(c),
    ensures
        !is_space(c),
        c != 'm',
        c != '(',
        c != ')',
        c != '+',
        c != '*',
{
}

/// Where `s` holds the decimal text of `n` at `k`, those digits read back as `n`.
proof fn lemma_value_of_decimal(s: Seq<char>, k: nat, n: nat)
    requires
        k + decimal(n).len() <= s.len(),
        forall|j: int| 0 <= j < decimal(n).len() ==> s[k + j] == decimal(n)[j],
    ensures
        digits_value(s, k, decimal(n).len()) == n,
    decreases n,
{
    let len = decimal(n).len();
    if n < 10 {
        lemma_digit_char(n);
        assert(s[k as int] == decimal(n)[0]);
        assert(digits_value(s, k, 0) == 0);
        assert(digits_value(s, k, 1) == digit_value(s[k as int]));
    } else {
        let p = decimal(n / 10);
        assert forall|j: int| 0 <= j < p.len() implies s[k + j] == p[j] by {
            assert(s[k + j] == decimal(n)[j]);
        }
        lemma_value_of_decimal(s, k, n / 10);
        lemma_digit_char(n % 10);
        assert(s[k + len - 1] == decimal(n)[len - 1]);
        assert(len == p.len() + 1);
        assert(digit_value(s[k + len - 1]) == n % 10);
        assert(digits_value(s, k, len) == digits_value(s, k, p.len()) * 10 + n % 10);
        assert((n / 10) * 10 + n % 10 == n) by (nonlinear_arith);
    }
}

/// A run of `len` digits at `k` that nothing digit follows has length `len`.
proof fn lemma_digit_run(s: Seq<char>, k: nat, len: nat)
    requires
        k + len <= s.len(),
        forall|j: int| 0 <= j < len ==> is_digit(#[trigger] s[k + j]),
        k + len < s.len() ==> !is_digit(s[(k + len) as int]),
    ensures
        digit_run(s, k) == len,
    decreases len,
{
    if len > 0 {
        let first: int = 0;
        assert(is_digit(s[k + first]));
        assert forall|j: int| 0 <= j < len - 1 implies is_digit(#[trigger] s[(k + 1) + j]) by {
            assert(is_digit(s[k + (j + 1)]));
        }
        lemma_digit_run(s, k + 1, (len - 1) as nat);
    }
}

/// Where `s` holds the decimal text of `n` at `k`, followed by a character
/// that is no digit or by the end: the digit run there is that text, and its
/// value is `n`.
proof fn lemma_number_at(s: Seq<char>, k: nat, n: nat)
    requires
        k + decimal(n).len() <= s.len(),
        s.subrange(k as int, (k + decimal(n).len()) as int) == decimal(n),
        k + decimal(n).len() < s.len() ==> !is_digit(s[(k + decimal(n).len()) as int]),
    ensures
        k < s.len(),
        is_digit(s[k as int]),
        space_run(s, k) == 0,
        digit_run(s, k) == decimal(n).len(),
        digits_value(s, k, decimal(n).len()) == n,
{
    let d = decimal(n);
    lemma_decimal_digits(n);
    assert forall|j: int| 0 <= j < d.len() implies s[k + j] == d[j] by {
        assert(s.subrange(k as int, (k + d.len()) as int)[j] == s[k + j]);
    }
    assert(s[k as int] == d[0]);
    lemma_digit_not_space(s[k as int]);
    assert forall|j: int| 0 <= j < d.len() implies is_digit(#[trigger] s[k + j]) by {
        assert(s[k + j] == d[j]);
    }
    lemma_digit_run(s, k, d.len());
    lemma_value_of_decimal(s, k, n);
}

/// The text `"{a}m + {b}m"`.
pub open spec fn sum_text(a: nat, b: nat) -> Seq<char> {
    decimal(a).push('m') + seq![' ', '+', ' '] + decimal(b).push('m')
}

/// The tree `a_m + b_m`: two distances added.
pub open spec fn sum_tree(a: u32, b: u32) -> Workout {
    Workout::Plus(Box::new(Workout::Meters(a)), Box::new(Workout::Meters(b)))
}

/// Where `t` holds `"{a}m + {b}m"` at `k`, followed by the end or by a
/// character that cannot continue a sum, the sum at `k` is exactly that text.
proof fn lemma_sum_text_at(t: Seq<char>, k: nat, a: u32, b: u32)
    requires
        k + sum_text(a as nat, b as nat).len() <= t.len(),
        t.subrange(k as int, (k + sum_text(a as nat, b as nat).len()) as int) == sum_text(
            a as nat,
            b as nat,
        ),
        k + sum_text(a as nat, b as nat).len() < t.len() ==> {
            let c = t[(k + sum_text(a as nat, b as nat).len()) as int];
            !is_space(c) && c != '+' && c != '*'
        },
    ensures
        sum(t, k) == Ok::<(Workout, nat), ParseError>(
            (sum_tree(a, b), sum_text(a as nat, b as nat).len()),
        ),
{
    let u = sum_text(a as nat, b as nat);
    let da = decimal(a as nat);
    let db = decimal(b as nat);
    let la = da.len();
    let lb = db.len();
    let ma = Workout::Meters(a);
    let mb = Workout::Meters(b);
    let w = sum_tree(a, b);
    let e = k + la + lb + 5;
    let v = t.subrange(k as int, (k + u.len()) as int);
    assert(u.len() == la + lb + 5);
    assert(t[(k + la) as int] == 'm') by { assert(v[la as int] == u[la as int]); }
    assert(t[(k + la + 1) as int] == ' ') by { assert(v[(la + 1) as int] == u[(la + 1) as int]); }
    assert(t[(k + la + 2) as int] == '+') by { assert(v[(la + 2) as int] == u[(la + 2) as int]); }
    assert(t[(k + la + 3) as int] == ' ') by { assert(v[(la + 3) as int] == u[(la + 3) as int]); }
    assert(t[(k + la + 4 + lb) as int] == 'm') by { assert(v[(la + 4 + lb) as int] == u[(la + 4 + lb) as int]); }
    assert(t.subrange(k as int, (k + la) as int) == da) by {
        assert(t.subrange(k as int, (k + la) as int) =~= v.subrange(0, la as int));
        assert(u.subrange(0, la as int) =~= da);
    }
    assert(t.subrange((k + la + 4) as int, (k + la + 4 + lb) as int) == db) by {
        assert(t.subrange((k + la + 4) as int, (k + la + 4 + lb) as int) =~= v.subrange(
            (la + 4) as int,
            (la + 4 + lb) as int,
        ));
        assert(u.subrange((la + 4) as int, (la + 4 + lb) as int) =~= db);
    }
    lemma_number_at(t, k, a as nat);
    lemma_number_at(t, k + la + 4, b as nat);
    assert(space_run(t, k + la + 2) == 0);
    assert(space_run(t, k + la + 1) == 1);
    assert(space_run(t, k + la + 3) == 1);
    assert(space_run(t, e) == 0);
    assert(atom(t, k) == Ok::<(Workout, nat), ParseError>((ma, la + 1)));
    assert(product_rest(t, ma, k + la + 1) == Ok::<(Workout, nat), ParseError>((ma, 0)));
    assert(product(t, k) == Ok::<(Workout, nat), ParseError>((ma, la + 1)));
    assert(atom(t, k + la + 3) == Ok::<(Workout, nat), ParseError>((mb, lb + 2)));
    assert(product_rest(t, mb, e) == Ok::<(Workout, nat), ParseError>((mb, 0)));
    assert(product(t, k + la + 3) == Ok::<(Workout, nat), ParseError>((mb, lb + 2)));
    assert(sum_rest(t, w, e) == Ok::<(Workout, nat), ParseError>((w, 0)));
    assert(sum_rest(t, ma, k + la + 1) == Ok::<(Workout, nat), ParseError>((w, lb + 4)));
}

/// Two distances joined by `+` read as their sum: `"{a}m + {b}m"` parses to
/// the sum of the two distances, whose instruction is that same text and
/// whose distance is `a + b`. The distance is computed without overflow
/// exactly when `a + b` fits in 32 bits.
pub proof fn law_sum_of_two_distances(a: u32, b: u32)
    ensures
        parsed(sum_text(a as nat, b as nat)) == Ok::<Workout, ParseError>(sum_tree(a, b)),
        instr(sum_tree(a, b)) == sum_text(a as nat, b as nat),
        distance(sum_tree(a, b)) == a + b,
        fits(sum_tree(a, b)) <==> a + b <= max_value(),
{
    let t = sum_text(a as nat, b as nat);
    let ma = Workout::Meters(a);
    let mb = Workout::Meters(b);
    let w = sum_tree(a, b);
    assert(t.subrange(0, t.len() as int) =~= t);
    lemma_sum_text_at(t, 0, a, b);
    assert(space_run(t, t.len()) == 0);
    assert(instr(ma) == decimal(a as nat).push('m'));
    assert(instr(mb) == decimal(b as nat).push('m'));
    assert(instr(w) =~= t);
    assert(distance(ma) == a && distance(mb) == b);
    assert(fits(ma) && fits(mb));
}

/// The text `"{a} * ({b}m + {c}m)"`.
pub open spec fn repeat_text(a: nat, b: nat, c: nat) -> Seq<char> {
    decimal(a) + seq![' ', '*', ' ', '('] + sum_text(b, c) + seq![')']
}

/// The tree `a * (b_m + c_m)`: a count times a sum of two distances.
pub open spec fn repeat_tree(a: u32, b: u32, c: u32) -> Workout {
    Workout::Times(Box::new(Workout::Num(a)), Box::new(sum_tree(b, c)))
}

/// A text made of the count `a`, then `" * ("`, then `"{b}m + {c}m"`, then
/// `")"`, reads as `a * (b_m + c_m)`.
proof fn lemma_repeat_parses(t: Seq<char>, a: u32, b: u32, c: u32)
    requires
        t.len() == decimal(a as nat).len() + sum_text(b as nat, c as nat).len() + 5,
        t.subrange(0, decimal(a as nat).len() as int) == decimal(a as nat),
        t[decimal(a as nat).len() as int] == ' ',
        t[decimal(a as nat).len() + 1int] == '*',
        t[decimal(a as nat).len() + 2int] == ' ',
        t[decimal(a as nat).len() + 3int] == '(',
        t.subrange(
            decimal(a as nat).len() + 4int,
            decimal(a as nat).len() + 4int + sum_text(b as nat, c as nat).len(),
        ) == sum_text(b as nat, c as nat),
        t[decimal(a as nat).len() + 4int + sum_text(b as nat, c as nat).len()] == ')',
    ensures
        parsed(t) == Ok::<Workout, ParseError>(repeat_tree(a, b, c)),
{
    let la = decimal(a as nat).len();
    let lu = sum_text(b as nat, c as nat).len();
    let na = Workout::Num(a);
    let p = sum_tree(b, c);
    let w = repeat_tree(a, b, c);
    let n = la + lu + 5;
    lemma_number_at(t, 0, a as nat);
    lemma_sum_text_at(t, la + 4, b, c);
    assert(space_run(t, la + 1) == 0);
    assert(space_run(t, la) == 1);
    assert(space_run(t, la + 3) == 0);
    assert(space_run(t, la + 2) == 1);
    assert(space_run(t, la + 4 + lu) == 0);
    assert(space_run(t, n) == 0);
    assert(atom(t, 0) == Ok::<(Workout, nat), ParseError>((na, la)));
    assert(atom(t, la + 2) == Ok::<(Workout, nat), ParseError>((p, lu + 3)));
    assert(product_rest(t, w, n) == Ok::<(Workout, nat), ParseError>((w, 0)));
    assert(product_rest(t, na, la) == Ok::<(Workout, nat), ParseError>((w, lu + 5)));
    assert(product(t, 0) == Ok::<(Workout, nat), ParseError>((w, n)));
    assert(sum_rest(t, w, n) == Ok::<(Workout, nat), ParseError>((w, 0)));
    assert(sum(t, 0) == Ok::<(Workout, nat), ParseError>((w, n)));
}

/// The grammar reads `"{a} * ({b}m + {c}m)"` as `a * (b_m + c_m)`.
proof fn lemma_repeat_text_parses(a: u32, b: u32, c: u32)
    ensures
        parsed(repeat_text(a as nat, b as nat, c as nat)) == Ok::<Workout, ParseError>(
            repeat_tree(a, b, c),
        ),
{
    let t = repeat_text(a as nat, b as nat, c as nat);
    let da = decimal(a as nat);
    let u = sum_text(b as nat, c as nat);
    let la = da.len();
    let lu = u.len();
    assert(t.len() == la + lu + 5);
    assert(t[la as int] == ' ');
    assert(t[(la + 1) as int] == '*');
    assert(t[(la + 2) as int] == ' ');
    assert(t[(la + 3) as int] == '(');
    assert(t[(la + 4 + lu) as int] == ')');
    assert(t.subrange(0, la as int) =~= da);
    assert(t.subrange((la + 4) as int, (la + 4 + lu) as int) =~= u);
    lemma_repeat_parses(t, a, b, c);
}

/// A count times a parenthesised sum repeats the sum:
/// `"{a} * ({b}m + {c}m)"` parses to the product of `a` and the sum of the
/// two distances, whose distance is `a * (b + c)`. The distance is computed
/// without overflow exactly when both `b + c` and `a * (b + c)` fit in
/// 32 bits.
pub proof fn law_repeated_sum(a: u32, b: u32, c: u32)
    ensures
        parsed(repeat_text(a as nat, b as nat, c as nat)) == Ok::<Workout, ParseError>(
            repeat_tree(a, b, c),
        ),
        distance(repeat_tree(a, b, c)) == a * (b + c),
        fits(repeat_tree(a, b, c)) <==> (b + c <= max_value() && a * (b + c) <= max_value()),
{
    lemma_repeat_text_parses(a, b, c);
    law_sum_of_two_distances(b, c);
    let na = Workout::Num(a);
    assert(distance(na) == a && fits(na));
}

} // verus!
