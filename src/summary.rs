use vstd::prelude::*;
use vstd::string::StringExecFns;
use crate::tree::{Workout, decimal, distance, fits, instr};
use crate::grammar::{ParseError, parsed};
use crate::parser::parse_workout;
use crate::eval::{EvalError, total_distance};
use crate::render::{instruction, push_decimal};

verus! {

/// Why a line of workout text has no summary.
#[derive(Clone, Copy, Debug, PartialEq, Eq)]
pub enum WorkoutError {
    /// The text is not a workout.
    Parse(ParseError),
    /// The workout's distance does not fit in 32 bits.
    Eval(EvalError),
}

/// `"<distance>m (<instruction>)"` for the tree `w`.
pub open spec fn summary_line(w: Workout) -> Seq<char> {
    decimal(distance(w)) + seq!['m', ' ', '('] + instr(w) + seq![')']
}

/// Parses `input` and describes the workout in one line: its total distance
/// in meters, then its canonical instruction in parentheses.
pub fn summary(input: &str) -> (r: Result<String, WorkoutError>)
    ensures
        match parsed(input@) {
            Err(e) => r == Err::<String, WorkoutError>(WorkoutError::Parse(e)),
            Ok(w) => if fits(w) {
                r is Ok && r->Ok_0@ == summary_line(w)
            } else {
                r == Err::<String, WorkoutError>(WorkoutError::Eval(EvalError::NumericOverflow))
            },
        },
{
    let w = match parse_workout(input) {
        Err(e) => { return Err(WorkoutError::Parse(e)); },
        Ok(w) => w,
    };
    let d = match total_distance(&w) {
        Err(e) => { return Err(WorkoutError::Eval(e)); },
        Ok(d) => d,
    };
    let text = instruction(&w);
    let mut out = String::new();
    push_decimal(&mut out, d);
    proof { reveal_strlit("m ("); reveal_strlit(")"); }
    out.append("m (");
    out.append(text.as_str());
    out.append(")");
    assert(out@ =~= summary_line(w));
    Ok(out)
}

} // verus!
