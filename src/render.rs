use vstd::prelude::*;
use vstd::string::StringExecFns;
use crate::tree::{Workout, decimal, digit_char, instr};

verus! {

/// The one-character text of the digit `d`.
fn digit_str(d: u32) -> (r: &'static str)
    requires
        d < 10,
    ensures
        r@ == seq![digit_char(d as nat)],
{
    match d {
        0 => { proof { reveal_strlit("0"); } "0" },
        1 => { proof { reveal_strlit("1"); } "1" },
        2 => { proof { reveal_strlit("2"); } "2" },
        3 => { proof { reveal_strlit("3"); } "3" },
        4 => { proof { reveal_strlit("4"); } "4" },
        5 => { proof { reveal_strlit("5"); } "5" },
        6 => { proof { reveal_strlit("6"); } "6" },
        7 => { proof { reveal_strlit("7"); } "7" },
        8 => { proof { reveal_strlit("8"); } "8" },
        _ => { proof { reveal_strlit("9"); } "9" },
    }
}

/// Appends the decimal digits of `n` to `out`.
pub(crate) fn push_decimal(out: &mut String, n: u32)
    ensures
        final(out)@ == old(out)@ + decimal(n as nat),
    decreases n,
{
    if n >= 10 {
        push_decimal(out, n / 10);
    }
    out.append(digit_str(n % 10));
    assert(final(out)@ =~= old(out)@ + decimal(n as nat));
}

/// Appends the canonical text of `w` to `out`.
fn push_instruction(out: &mut String, w: &Workout)
    ensures
        final(out)@ == old(out)@ + instr(*w),
    decreases *w,
{
    match w {
        Workout::Num(x) => {
            push_decimal(out, *x);
        },
        Workout::Meters(x) => {
            push_decimal(out, *x);
            proof { reveal_strlit("m"); }
            out.append("m");
        },
        Workout::Plus(a, b) => {
            push_instruction(out, a);
            proof { reveal_strlit(" + "); }
            out.append(" + ");
            push_instruction(out, b);
        },
        Workout::Times(a, b) => {
            push_instruction(out, a);
            proof { reveal_strlit(" * "); }
            out.append(" * ");
            push_instruction(out, b);
        },
        Workout::Annotation(label, a) => {
            push_instruction(out, a);
            proof { reveal_strlit("@"); }
            out.append("@");
            out.append(label.as_str());
        },
    }
    assert(final(out)@ =~= old(out)@ + instr(*w));
}

/// The canonical instruction text of `w`: `Num` as its digits, `Meters` as
/// digits followed by `m`, sums and products as `a + b` and `a * b` with no
/// parentheses, and an annotation as `a@label`.
pub fn instruction(w: &Workout) -> (r: String)
    ensures
        r@ == instr(*w),
{
    let mut out = String::new();
    push_instruction(&mut out, w);
    assert(out@ =~= instr(*w));
    out
}

} // verus!
