use vecalc::command::{modify_variable, parse, Action, Modified};
use vecalc::error::{ParseError, TypeFault};
use vecalc::persist::{load_state, save_state};
use vecalc::scalar::{ArithFault, Scalar};
use vecalc::state::CalculatorState;
use vecalc::syntax::{parse_command, Command, Op, Operand};
use vecalc::value::{Value, Vector};

fn show(line: &str, state: &mut CalculatorState) -> String {
    match parse(line, state) {
        Ok(Action::Show(s)) => s,
        other => panic!("expected a line to show for {:?}, got {:?}", line, other),
    }
}

fn fails(line: &str, state: &mut CalculatorState) -> ParseError {
    match parse(line, state) {
        Err(e) => e,
        other => panic!("expected an error for {:?}, got {:?}", line, other),
    }
}

fn num(units: i64) -> Value {
    Value::Number(Scalar { units })
}

fn vector(units: &[i64]) -> Value {
    Value::Vector(Vector::new(units.iter().map(|&u| Scalar { units: u }).collect()))
}

#[test]
fn scalar_arithmetic() {
    let mut s = CalculatorState::new();
    assert_eq!(show("3 + 4", &mut s), "7");
    assert_eq!(show("3 - 4", &mut s), "-1");
    assert_eq!(show("3 * 4", &mut s), "12");
    assert_eq!(show("3 / 4", &mut s), "0.75");
    assert_eq!(show("1.5 + 2.25", &mut s), "3.75");
    assert_eq!(show("-2.5 * 4", &mut s), "-10");
    assert_eq!(show("1 / 3", &mut s), "0.333333");
}

#[test]
fn precedence_and_grouping() {
    let mut s = CalculatorState::new();
    assert_eq!(show("2 + 3 * 4", &mut s), "14");
    assert_eq!(show("10 - 4 - 3", &mut s), "3");
    assert_eq!(show("16 / 4 / 2", &mut s), "2");
    assert_eq!(show("<1, 2> . <3, 4> * 2", &mut s), "22");
    assert_eq!(show("1 + <1, 0> . <2, 0>", &mut s), "3");
}

#[test]
fn vector_component_wise() {
    let mut s = CalculatorState::new();
    assert_eq!(show("<1, 2, 3> + <4, 5, 6>", &mut s), "<5, 7, 9>");
    assert_eq!(show("<1, 2, 3> - <4, 5, 6>", &mut s), "<-3, -3, -3>");
    assert_eq!(show("<1, 2, 3> * 2", &mut s), "<2, 4, 6>");
    assert_eq!(show("2 * <1, 2, 3>", &mut s), "<2, 4, 6>");
    assert_eq!(show("<2, 4> / 4", &mut s), "<0.5, 1>");
    assert_eq!(show("<1, 2, 3> . <4, 5, 6>", &mut s), "32");
}

#[test]
fn orthogonal_dot_and_cross() {
    let mut s = CalculatorState::new();
    assert_eq!(show("<1, 0, 0> . <0, 1, 0>", &mut s), "0");
    assert_eq!(show("<1, 0, 0> \u{d7} <0, 1, 0>", &mut s), "<0, 0, 1>");
    assert_eq!(show("<1, 2, 3> \u{d7} <4, 5, 6>", &mut s), "<-3, 6, -3>");
}

#[test]
fn mismatched_lengths_use_the_shorter() {
    let mut s = CalculatorState::new();
    assert_eq!(show("<1, 2, 3> + <10, 20>", &mut s), "<11, 22>");
    assert_eq!(show("<1, 2, 3> . <10, 20>", &mut s), "50");
}

#[test]
fn type_mismatches() {
    let mut s = CalculatorState::new();
    assert_eq!(fails("<1,2,3> * <4,5,6>", &mut s), ParseError::InvalidExpression(TypeFault::MultiplyVectors));
    assert_eq!(fails("<1,2> / <3,4>", &mut s), ParseError::InvalidExpression(TypeFault::DivideVectorByVector));
    assert_eq!(fails("5 + <1,2>", &mut s), ParseError::InvalidExpression(TypeFault::AddMixed));
    assert_eq!(fails("5 - <1,2>", &mut s), ParseError::InvalidExpression(TypeFault::SubtractMixed));
    assert_eq!(fails("5 / <1,2>", &mut s), ParseError::InvalidExpression(TypeFault::DivideScalarByVector));
    assert_eq!(fails("5 . <1,2>", &mut s), ParseError::InvalidExpression(TypeFault::DotNeedsVectors));
    assert_eq!(fails("5 \u{d7} <1,2>", &mut s), ParseError::InvalidExpression(TypeFault::CrossNeedsVectors));
}

#[test]
fn cross_needs_three_dimensions() {
    let mut s = CalculatorState::new();
    assert_eq!(
        fails("<1,2> \u{d7} <3,4>", &mut s),
        ParseError::InvalidExpression(TypeFault::CrossNeedsThreeDimensions)
    );
    assert_eq!(
        fails("<1,2,3> \u{d7} <3,4>", &mut s),
        ParseError::InvalidExpression(TypeFault::CrossNeedsThreeDimensions)
    );
}

#[test]
fn power_has_no_rule() {
    let mut s = CalculatorState::new();
    assert_eq!(fails("2 ^ 3", &mut s), ParseError::InvalidOperator { token: "^".to_string() });
}

#[test]
fn arithmetic_faults() {
    let mut s = CalculatorState::new();
    assert_eq!(fails("1 / 0", &mut s), ParseError::Arithmetic(ArithFault::DivisionByZero));
    assert_eq!(fails("<1, 2> / 0", &mut s), ParseError::Arithmetic(ArithFault::DivisionByZero));
    assert_eq!(fails("9000000000000 + 9000000000000", &mut s), ParseError::Arithmetic(ArithFault::Overflow));
    assert_eq!(fails("9000000000000 * 10", &mut s), ParseError::Arithmetic(ArithFault::Overflow));
}

#[test]
fn literal_errors() {
    let mut s = CalculatorState::new();
    assert_eq!(fails("1.1234567", &mut s), ParseError::ValueParseError { position: 0 });
    assert_eq!(fails("99999999999999", &mut s), ParseError::ValueParseError { position: 0 });
    assert_eq!(fails("1 +", &mut s), ParseError::TokenError { position: 3 });
    assert_eq!(fails("1 2", &mut s), ParseError::TokenError { position: 2 });
    assert_eq!(fails("<1, 2", &mut s), ParseError::TokenError { position: 5 });
    assert_eq!(fails(".frobnicate", &mut s), ParseError::TokenError { position: 1 });
}

#[test]
fn undefined_identifier() {
    let mut s = CalculatorState::new();
    assert_eq!(fails("x + 1", &mut s), ParseError::InvalidIdentifier { token: "x".to_string() });
    assert_eq!(parse("x", &mut s), Ok(Action::NotFound("x".to_string())));
}

#[test]
fn assign_then_query() {
    let mut s = CalculatorState::new();
    assert_eq!(parse("v = <1, 2, 3>", &mut s), Ok(Action::Nothing));
    assert_eq!(show("v", &mut s), "v = <1, 2, 3>");
    assert_eq!(render_of(s.get_var("v").unwrap()), "<1, 2, 3>");
    assert_eq!(parse("e = <>", &mut s), Ok(Action::Nothing));
    assert_eq!(show("e", &mut s), "e = <Empty Vector>");
    assert_eq!(parse("f = <Empty Vector>", &mut s), Ok(Action::Nothing));
    assert_eq!(s.get_var("f"), Some(&vector(&[])));
    assert_eq!(parse("w = v * 2 + <1, 1, 1>", &mut s), Ok(Action::Nothing));
    assert_eq!(show("w", &mut s), "w = <3, 5, 7>");
}

fn render_of(v: &Value) -> String {
    v.to_text()
}

#[test]
fn assignment_may_change_kind() {
    let mut s = CalculatorState::new();
    parse("a = 1", &mut s).unwrap();
    parse("a = <1>", &mut s).unwrap();
    assert_eq!(show("a", &mut s), "a = <1>");
}

#[test]
fn failed_assignment_keeps_state() {
    let mut s = CalculatorState::new();
    parse("a = 1", &mut s).unwrap();
    assert!(parse("a = a + <1>", &mut s).is_err());
    assert_eq!(show("a", &mut s), "a = 1");
}

#[test]
fn debug_command() {
    let mut s = CalculatorState::new();
    assert_eq!(parse(".debug", &mut s), Ok(Action::Level(1)));
    assert_eq!(parse(".debug 4", &mut s), Ok(Action::LevelSet(4)));
    assert_eq!(s.debug_level(), 4);
    assert_eq!(parse(".debug", &mut s), Ok(Action::Level(4)));
}

#[test]
fn meta_commands() {
    let mut s = CalculatorState::new();
    assert_eq!(parse(".save session", &mut s), Ok(Action::Save("session".to_string())));
    assert_eq!(parse(".load session", &mut s), Ok(Action::Load("session".to_string())));
    assert_eq!(parse(".exit", &mut s), Ok(Action::Exit));
    assert_eq!(parse(".modify q", &mut s), Ok(Action::NotFound("q".to_string())));
    parse("q = 2.5", &mut s).unwrap();
    assert_eq!(
        parse(".modify q", &mut s),
        Ok(Action::Modify { name: "q".to_string(), current: "2.5".to_string() })
    );
}

#[test]
fn modify_keeps_kind() {
    let mut s = CalculatorState::new();
    parse("q = 2.5", &mut s).unwrap();
    assert_eq!(modify_variable("q", "7", &mut s), Modified::Changed);
    assert_eq!(show("q", &mut s), "q = 7");
    assert_eq!(modify_variable("q", "<1, 2>", &mut s), Modified::KindDiffers);
    assert_eq!(show("q", &mut s), "q = 7");
    assert!(matches!(modify_variable("q", "1 +", &mut s), Modified::NotAValue(_)));
    assert_eq!(modify_variable("r", "1", &mut s), Modified::Unknown);
}

#[test]
fn set_and_change_var() {
    let mut s = CalculatorState::new();
    assert_eq!(s.set_var("a".to_string(), num(1_000_000)), None);
    assert_eq!(s.set_var("a".to_string(), num(2_000_000)), Some(num(1_000_000)));
    assert!(!s.change_var("a".to_string(), vector(&[1])));
    assert!(s.change_var("a".to_string(), num(5)));
    assert!(!s.change_var("b".to_string(), num(5)));
    assert_eq!(s.get_var("a"), Some(&num(5)));
    assert!(s.contains_key("a"));
    assert!(!s.contains_key("b"));
}

#[test]
fn variables_from_pairs() {
    let s = CalculatorState::new_with_variables(vec![
        ("a".to_string(), num(1)),
        ("b".to_string(), num(2)),
        ("a".to_string(), num(3)),
    ]);
    assert_eq!(s.get_var("a"), Some(&num(3)));
    assert_eq!(s.get_var("b"), Some(&num(2)));
    assert_eq!(s.len(), 2);
}

#[test]
fn save_text_format() {
    let mut s = CalculatorState::new();
    parse("a = 1.5", &mut s).unwrap();
    parse("v = <1, -2>", &mut s).unwrap();
    parse(".debug 3", &mut s).unwrap();
    assert_eq!(save_state(&s), "a = 1.5\nv = <1, -2>\n.debug 3");
}

#[test]
fn save_clear_load_round_trip() {
    let mut s = CalculatorState::new();
    parse("a = 1.5", &mut s).unwrap();
    parse("v = <1, -2, 0.125>", &mut s).unwrap();
    parse("e = <>", &mut s).unwrap();
    parse("n = -0.000001", &mut s).unwrap();
    parse(".debug 3", &mut s).unwrap();
    let text = save_state(&s);
    let mut fresh = CalculatorState::new();
    assert_eq!(load_state(&text, &mut fresh), Ok(5));
    assert_eq!(fresh.debug_level(), 3);
    assert_eq!(fresh.len(), s.len());
    for name in ["a", "v", "e", "n"] {
        assert_eq!(fresh.get_var(name), s.get_var(name));
    }
    assert_eq!(save_state(&fresh), text);
}

#[test]
fn load_stops_at_first_bad_line() {
    let mut s = CalculatorState::new();
    let r = load_state("a = 1\nb = nope\nc = 3\n.debug 2", &mut s);
    assert_eq!(r, Err(ParseError::InvalidIdentifier { token: "nope".to_string() }));
    assert_eq!(s.get_var("a"), Some(&num(1_000_000)));
    assert!(!s.contains_key("c"));
    assert_eq!(s.debug_level(), 0);
}

#[test]
fn load_of_nothing() {
    let mut s = CalculatorState::new();
    assert_eq!(load_state("", &mut s), Ok(0));
    assert_eq!(s.debug_level(), 0);
}

#[test]
fn parse_tree_shape() {
    match parse_command("x = 1 + y \u{d7} <2>") {
        Ok(Command::Assign { name, expr }) => {
            assert_eq!(name, "x");
            assert_eq!(expr.ops, vec![Op::Add, Op::Cross]);
            assert_eq!(expr.operands.len(), 3);
            assert_eq!(expr.operands[0], Operand::Number(Scalar { units: 1_000_000 }));
            assert_eq!(expr.operands[1], Operand::Ident("y".to_string()));
        }
        other => panic!("unexpected {:?}", other),
    }
    assert_eq!(parse_command("  abc  "), Ok(Command::Query("abc".to_string())));
}

#[test]
fn print_debug_gate() {
    let s = CalculatorState::new();
    assert_eq!(s.print_debug(1, "hello".to_string()), Some("Debug 1: hello".to_string()));
    assert_eq!(s.print_debug(2, "hello".to_string()), None);
}

#[test]
fn value_kinds() {
    let n = num(5);
    let v = vector(&[1, 2]);
    assert!(n.is_number() && !n.is_vector());
    assert!(v.is_vector() && !v.is_number());
    assert!(n.compare_types(&num(1)));
    assert!(!n.compare_types(&v));
    assert_eq!(n.as_number(), Ok(Scalar { units: 5 }));
    assert_eq!(v.as_number(), Err(ParseError::InvalidExpression(TypeFault::NotANumber)));
    assert_eq!(n.as_vector(), Err(ParseError::InvalidExpression(TypeFault::NotAVector)));
}

#[test]
fn vector_methods() {
    let a = Vector::new(vec![Scalar { units: 3_000_000 }, Scalar { units: 4_000_000 }]);
    assert_eq!(a.dims(), 2);
    assert_eq!(a.mag(), Ok(Scalar { units: 5_000_000 }));
    assert_eq!(a.length(), Ok(Scalar { units: 5_000_000 }));
    let b = Vector::new(vec![Scalar { units: 1_000_000 }, Scalar { units: 2_000_000 }]);
    assert_eq!(a.dot(&b), Ok(Scalar { units: 11_000_000 }));
    assert_eq!(a.cross(&b), Err(ParseError::InvalidExpression(TypeFault::CrossNeedsThreeDimensions)));
    let unit = Vector::new(vec![Scalar { units: 1_000_000 }, Scalar { units: 1_000_000 }]);
    assert_eq!(unit.mag(), Ok(Scalar { units: 1_414_213 }));
    let huge = Vector::new(vec![Scalar { units: i64::MAX }, Scalar { units: i64::MAX }]);
    assert_eq!(huge.mag(), Err(ArithFault::Overflow));
}

#[test]
fn spanned_type_fault() {
    assert_eq!(
        ParseError::from_pair(TypeFault::MultiplyVectors, 2, 9),
        ParseError::InvalidExpr { fault: TypeFault::MultiplyVectors, start: 2, end: 9 }
    );
}

#[test]
fn number_text() {
    assert_eq!(num(0).to_text(), "0");
    assert_eq!(num(-500_000).to_text(), "-0.5");
    assert_eq!(num(1).to_text(), "0.000001");
    assert_eq!(num(12_340_000).to_text(), "12.34");
    assert_eq!(vector(&[]).to_text(), "<Empty Vector>");
    assert_eq!(vector(&[1_000_000]).to_text(), "<1>");
}

#[test]
fn extreme_literals() {
    let mut s = CalculatorState::new();
    assert_eq!(show("-9223372036854.775808", &mut s), "-9223372036854.775808");
    assert_eq!(show("9223372036854.775807", &mut s), "9223372036854.775807");
    assert_eq!(fails("9223372036854.775808", &mut s), ParseError::ValueParseError { position: 0 });
    parse("m = -9223372036854.775807 - 0.000001", &mut s).unwrap();
    let text = save_state(&s);
    let mut fresh = CalculatorState::new();
    assert_eq!(load_state(&text, &mut fresh), Ok(2));
    assert_eq!(fresh.get_var("m"), Some(&num(i64::MIN)));
}
