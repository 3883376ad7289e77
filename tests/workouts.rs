use workout::{
    EvalError, Expected, ParseError, Workout, WorkoutError, instruction, parse_workout, summary,
    total_distance,
};

fn distance_of(text: &str) -> Result<u32, EvalError> {
    total_distance(&parse_workout(text).unwrap())
}

fn instruction_of(text: &str) -> String {
    instruction(&parse_workout(text).unwrap())
}

fn meters(x: u32) -> Box<Workout> {
    Box::new(Workout::Meters(x))
}

#[test]
fn two_distances_add_up() {
    assert_eq!(distance_of("400m + 800m"), Ok(1200));
    assert_eq!(instruction_of("400m + 800m"), "400m + 800m");
    assert_eq!(distance_of("0m + 7m"), Ok(7));
    assert_eq!(instruction_of("0m + 7m"), "0m + 7m");
}

#[test]
fn two_distances_at_the_limit() {
    assert_eq!(distance_of("4294967295m + 0m"), Ok(4294967295));
    assert_eq!(distance_of("4294967295m + 1m"), Err(EvalError::NumericOverflow));
    assert_eq!(instruction_of("4294967295m + 1m"), "4294967295m + 1m");
}

#[test]
fn count_times_parenthesised_sum() {
    assert_eq!(distance_of("3 * (200m + 100m)"), Ok(900));
    assert_eq!(distance_of("0 * (5m + 6m)"), Ok(0));
    assert_eq!(distance_of("1 * (0m + 0m)"), Ok(0));
}

#[test]
fn repeated_sum_overflows() {
    assert_eq!(distance_of("2 * (2147483647m + 1m)"), Err(EvalError::NumericOverflow));
    assert_eq!(distance_of("0 * (4294967295m + 1m)"), Err(EvalError::NumericOverflow));
    assert_eq!(distance_of("65536 * 65536"), Err(EvalError::NumericOverflow));
    assert_eq!(distance_of("65535 * 65537"), Ok(4294967295));
}

#[test]
fn sums_fold_to_the_left() {
    let w = parse_workout("1m + 2m + 3m").unwrap();
    assert_eq!(total_distance(&w), Ok(6));
    assert_eq!(instruction(&w), "1m + 2m + 3m");
    match w {
        Workout::Plus(lhs, rhs) => {
            assert!(matches!(*rhs, Workout::Meters(3)));
            match *lhs {
                Workout::Plus(a, b) => {
                    assert!(matches!(*a, Workout::Meters(1)));
                    assert!(matches!(*b, Workout::Meters(2)));
                }
                other => panic!("unexpected left operand {:?}", other),
            }
        }
        other => panic!("unexpected tree {:?}", other),
    }
}

#[test]
fn product_binds_tighter_than_sum() {
    assert_eq!(distance_of("2 + 3 * 4m"), Ok(14));
    assert_eq!(instruction_of("2 + 3 * 4m"), "2 + 3 * 4m");
    assert_eq!(distance_of("(2 + 3) * 4m"), Ok(20));
    assert_eq!(instruction_of("(2 + 3) * 4m"), "2 + 3 * 4m");
}

#[test]
fn annotation_counts_no_distance() {
    let w = Workout::Annotation(String::from("warmup"), meters(5));
    assert_eq!(total_distance(&w), Ok(0));
    assert_eq!(instruction(&w), "5m@warmup");
    let outer = Workout::Plus(Box::new(w), meters(400));
    assert_eq!(total_distance(&outer), Ok(400));
    assert_eq!(instruction(&outer), "5m@warmup + 400m");
}

#[test]
fn annotation_syntax_is_not_accepted() {
    assert_eq!(
        parse_workout("5m@warmup").unwrap_err(),
        ParseError::SyntaxError { pos: 2, expected: Expected::OperatorOrEnd }
    );
}

#[test]
fn trailing_operator_is_a_syntax_error() {
    assert_eq!(
        parse_workout("4 *").unwrap_err(),
        ParseError::SyntaxError { pos: 3, expected: Expected::Operand }
    );
    assert_eq!(
        parse_workout("4m + ").unwrap_err(),
        ParseError::SyntaxError { pos: 5, expected: Expected::Operand }
    );
}

#[test]
fn trailing_garbage_is_a_syntax_error() {
    assert_eq!(
        parse_workout("4m extra").unwrap_err(),
        ParseError::SyntaxError { pos: 3, expected: Expected::OperatorOrEnd }
    );
    assert_eq!(
        parse_workout("1m)").unwrap_err(),
        ParseError::SyntaxError { pos: 2, expected: Expected::OperatorOrEnd }
    );
}

#[test]
fn empty_input_is_a_syntax_error() {
    assert_eq!(
        parse_workout("").unwrap_err(),
        ParseError::SyntaxError { pos: 0, expected: Expected::Operand }
    );
    assert_eq!(
        parse_workout("   ").unwrap_err(),
        ParseError::SyntaxError { pos: 3, expected: Expected::Operand }
    );
}

#[test]
fn unclosed_parenthesis_is_a_syntax_error() {
    assert_eq!(
        parse_workout("(1m + 2m").unwrap_err(),
        ParseError::SyntaxError { pos: 8, expected: Expected::OperatorOrClose }
    );
    assert_eq!(
        parse_workout("()").unwrap_err(),
        ParseError::SyntaxError { pos: 1, expected: Expected::Operand }
    );
}

#[test]
fn unit_must_follow_digits_directly() {
    assert_eq!(
        parse_workout("4 m").unwrap_err(),
        ParseError::SyntaxError { pos: 2, expected: Expected::OperatorOrEnd }
    );
}

#[test]
fn oversized_literal_overflows() {
    assert_eq!(
        parse_workout("4294967296m").unwrap_err(),
        ParseError::NumericOverflow { pos: 0 }
    );
    assert_eq!(
        parse_workout("1 + 99999999999").unwrap_err(),
        ParseError::NumericOverflow { pos: 4 }
    );
    assert_eq!(distance_of("4294967295m"), Ok(4294967295));
}

#[test]
fn whitespace_between_tokens_is_ignored() {
    assert_eq!(distance_of(" 4 *\t( 1m+2m ) \n"), Ok(12));
    assert_eq!(instruction_of(" 4 *\t( 1m+2m ) \n"), "4 * 1m + 2m");
    assert_eq!(distance_of("\u{3000}4m\u{a0}"), Ok(4));
}

#[test]
fn leading_zeros_read_as_the_number() {
    assert_eq!(distance_of("007m"), Ok(7));
    assert_eq!(instruction_of("007m"), "7m");
    assert_eq!(instruction_of("0"), "0");
}

#[test]
fn nested_parentheses() {
    assert_eq!(distance_of("2 * (3 * (10m + 5m) + 1m)"), Ok(92));
    assert_eq!(instruction_of("((8m))"), "8m");
}

#[test]
fn interval_session_example() {
    let text = "600m + 4 * (400m + 800m) + 600m";
    assert_eq!(distance_of(text), Ok(6000));
    assert_eq!(instruction_of(text), "600m + 4 * 400m + 800m + 600m");
    assert_eq!(summary(text).unwrap(), "6000m (600m + 4 * 400m + 800m + 600m)");
}

#[test]
fn ladder_session_example() {
    let text = "1600m + 1400m + 1200m + 1000m + 800m";
    assert_eq!(distance_of(text), Ok(6000));
    assert_eq!(instruction_of(text), text);
    assert_eq!(summary(text).unwrap(), "6000m (1600m + 1400m + 1200m + 1000m + 800m)");
}

#[test]
fn summary_reports_each_error() {
    assert_eq!(
        summary("4 *"),
        Err(WorkoutError::Parse(ParseError::SyntaxError { pos: 3, expected: Expected::Operand }))
    );
    assert_eq!(
        summary("65536 * 65536"),
        Err(WorkoutError::Eval(EvalError::NumericOverflow))
    );
}
