use vstd::prelude::*;
use crate::tree::{Workout, distance, fits};

verus! {

/// Why a workout could not be evaluated.
#[derive(Clone, Copy, Debug, PartialEq, Eq)]
pub enum EvalError {
    /// A sum or a product does not fit in 32 bits.
    NumericOverflow,
}

/// The total distance of `w`: literals count their value, sums add,
/// products multiply, and an annotated sub-tree counts zero.
pub fn total_distance(w: &Workout) -> (r: Result<u32, EvalError>)
    ensures
        fits(*w) ==> r == Ok::<u32, EvalError>(distance(*w) as u32),
        !fits(*w) ==> r == Err::<u32, EvalError>(EvalError::NumericOverflow),
    decreases *w,
{
    match w {
        Workout::Num(x) => Ok(*x),
        Workout::Meters(x) => Ok(*x),
        Workout::Plus(a, b) => {
            let x = total_distance(a)?;
            let y = total_distance(b)?;
            x.checked_add(y).ok_or(EvalError::NumericOverflow)
        },
        Workout::Times(a, b) => {
            let x = total_distance(a)?;
            let y = total_distance(b)?;
            x.checked_mul(y).ok_or(EvalError::NumericOverflow)
        },
        Workout::Annotation(_, _) => Ok(0),
    }
}

} // verus!
