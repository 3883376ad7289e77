use vstd::prelude::*;

verus! {

/// An expression tree describing a workout.
#[derive(Debug)]
pub enum Workout {
    /// The sum of two segments.
    Plus(Box<Workout>, Box<Workout>),
    /// A bare count, such as a number of repetitions.
    Num(u32),
    /// A distance in meters.
    Meters(u32),
    /// The product of two sub-expressions: a repeated segment.
    Times(Box<Workout>, Box<Workout>),
    /// A labelled sub-expression; it contributes no distance.
    Annotation(String, Box<Workout>),
}

/// The largest value a literal, a sum or a product may take.
pub open spec fn max_value() -> nat {
    u32::MAX as nat
}

/// The total distance of a tree, as an unbounded number.
pub open spec fn distance(w: Workout) -> nat
    decreases w,
{
    match w {
        Workout::Num(x) => x as nat,
        Workout::Meters(x) => x as nat,
        Workout::Plus(a, b) => distance(*a) + distance(*b),
        Workout::Times(a, b) => distance(*a) * distance(*b),
        Workout::Annotation(_, _) => 0,
    }
}

/// Whether every sum and product met while computing the distance stays
/// within 32 bits. Annotated sub-trees are never evaluated.
pub open spec fn fits(w: Workout) -> bool
    decreases w,
{
    match w {
        Workout::Num(_) => true,
        Workout::Meters(_) => true,
        Workout::Plus(a, b) => fits(*a) && fits(*b) && distance(*a) + distance(*b) <= max_value(),
        Workout::Times(a, b) => fits(*a) && fits(*b) && distance(*a) * distance(*b) <= max_value(),
        Workout::Annotation(_, _) => true,
    }
}

/// Whether `w` holds no `Annotation` node.
pub open spec fn annotation_free(w: Workout) -> bool
    decreases w,
{
    match w {
        Workout::Num(_) => true,
        Workout::Meters(_) => true,
        Workout::Plus(a, b) => annotation_free(*a) && annotation_free(*b),
        Workout::Times(a, b) => annotation_free(*a) && annotation_free(*b),
        Workout::Annotation(_, _) => false,
    }
}

/// The character of a decimal digit `d < 10`.
pub open spec fn digit_char(d: nat) -> char {
    seq!['0', '1', '2', '3', '4', '5', '6', '7', '8', '9'][d as int]
}

/// The decimal digits of `n`, most significant first, without leading zeros.
pub open spec fn decimal(n: nat) -> Seq<char>
    decreases n,
{
    if n < 10 {
        seq![digit_char(n)]
    } else {
        decimal(n / 10).push(digit_char(n % 10))
    }
}

/// The canonical text of a tree: operators spaced, no parentheses, and an
/// annotation written after its sub-expression.
pub open spec fn instr(w: Workout) -> Seq<char>
    decreases w,
{
    match w {
        Workout::Num(x) => decimal(x as nat),
        Workout::Meters(x) => decimal(x as nat).push('m'),
        Workout::Plus(a, b) => instr(*a) + seq![' ', '+', ' '] + instr(*b),
        Workout::Times(a, b) => instr(*a) + seq![' ', '*', ' '] + instr(*b),
        Workout::Annotation(label, a) => instr(*a).push('@') + label@,
    }
}

} // verus!
