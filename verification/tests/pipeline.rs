use clcalc::ast::Operator;
use clcalc::errors::CalcError;
use clcalc::interpreter::Interpreter;
use clcalc::program::Instr;
use clcalc::semantics::UnaryFn;
use clcalc::token::TokenType;

fn apply_bin(op: &Operator, a: f64, b: f64) -> f64 {
    match op {
        Operator::Plus => a + b,
        Operator::Minus => a - b,
        Operator::Mult => a * b,
        Operator::Div => a / b,
        Operator::Pow => a.powf(b),
    }
}

fn apply_unary(f: &UnaryFn, x: f64) -> f64 {
    match f {
        UnaryFn::Sqrt => x.sqrt(),
        UnaryFn::Ln => x.ln(),
        UnaryFn::Abs => x.abs(),
        UnaryFn::Cos => x.cos(),
        UnaryFn::Sin => x.sin(),
        UnaryFn::Tan => x.tan(),
        UnaryFn::Log => x.log10(),
    }
}

fn exec_program(prog: &[Instr], result: usize) -> f64 {
    let mut regs: Vec<f64> = Vec::with_capacity(prog.len());
    for ins in prog {
        let v = match ins {
            Instr::Lit(s) => s.parse::<f64>().expect("numeric literal"),
            Instr::Bits(k) => f64::from_bits(*k),
            Instr::Bin(op, a, b) => apply_bin(op, regs[*a], regs[*b]),
            Instr::Call(f, a) => apply_unary(f, regs[*a]),
        };
        regs.push(v);
    }
    regs[result]
}

fn run_line(interp: &mut Interpreter, text: &str) -> Result<f64, CalcError> {
    let plan = interp.run(text)?;
    let value = exec_program(&plan.program, plan.result);
    interp.commit(plan, value.to_bits());
    Ok(value)
}

fn run_ok(interp: &mut Interpreter, text: &str) -> f64 {
    run_line(interp, text).expect(text)
}

#[test]
fn arithmetic_precedence() {
    let mut interp = Interpreter::default();
    assert_eq!(run_ok(&mut interp, "2 + 3 * 4"), 14.0);
    assert_eq!(run_ok(&mut interp, "2 + 3 * 4 ^ 2"), 50.0);
    assert_eq!(run_ok(&mut interp, "(2 + 3) * 4"), 20.0);
    assert_eq!(run_ok(&mut interp, "10 - 2 - 3"), 5.0);
    assert_eq!(run_ok(&mut interp, "8 / 2 / 2"), 2.0);
    assert_eq!(run_ok(&mut interp, "1.5 + 2.25"), 3.75);
}

#[test]
fn constant_roundtrip() {
    let mut interp = Interpreter::default();
    assert_eq!(run_ok(&mut interp, "x = 5"), 5.0);
    assert_eq!(run_ok(&mut interp, "x"), 5.0);
}

#[test]
fn function_definition_then_call() {
    let mut interp = Interpreter::default();
    assert_eq!(run_ok(&mut interp, "f(x) = x * 2"), 0.0);
    assert_eq!(run_ok(&mut interp, "f(3)"), 6.0);
}

#[test]
fn redefinition_overwrites() {
    let mut interp = Interpreter::default();
    run_ok(&mut interp, "x = 1");
    run_ok(&mut interp, "x = 2");
    assert_eq!(run_ok(&mut interp, "x"), 2.0);
}

#[test]
fn ans_reflects_last_result() {
    let mut interp = Interpreter::default();
    assert_eq!(run_ok(&mut interp, "2 + 2"), 4.0);
    assert_eq!(run_ok(&mut interp, "ans * 10"), 40.0);
}

#[test]
fn builtin_constant_precedence() {
    let mut interp = Interpreter::default();
    assert_eq!(run_ok(&mut interp, "pi = 99"), 99.0);
    assert_eq!(run_ok(&mut interp, "pi"), std::f64::consts::PI);
    assert_eq!(run_ok(&mut interp, "e"), std::f64::consts::E);
}

#[test]
fn unknown_identifier() {
    let mut interp = Interpreter::default();
    let err = run_line(&mut interp, "foo").unwrap_err();
    assert_eq!(err, CalcError::UnknownConstant { name: String::from("foo") });
}

#[test]
fn exponent_folds_left() {
    let mut interp = Interpreter::default();
    assert_eq!(run_ok(&mut interp, "2^3^2"), 64.0);
}

#[test]
fn division_by_zero_is_infinity() {
    let mut interp = Interpreter::default();
    let v = run_ok(&mut interp, "1/0");
    assert!(v.is_infinite() && v.is_sign_positive());
}

#[test]
fn malformed_syntax_offset() {
    let mut interp = Interpreter::default();
    let err = run_line(&mut interp, "2 +").unwrap_err();
    assert_eq!(err, CalcError::Syntax { offset: 2, expected: TokenType::Number });
}

#[test]
fn parameter_binding_is_restored() {
    let mut interp = Interpreter::default();
    run_ok(&mut interp, "g(x) = x^2");
    run_ok(&mut interp, "x = 100");
    assert_eq!(run_ok(&mut interp, "g(3)"), 9.0);
    assert_eq!(run_ok(&mut interp, "x"), 100.0);
}

#[test]
fn unrecognized_character() {
    let mut interp = Interpreter::default();
    let err = run_line(&mut interp, "2 $ 2").unwrap_err();
    assert_eq!(err, CalcError::InvalidCharacter { offset: 2, found: '$' });
}

#[test]
fn builtin_functions() {
    let mut interp = Interpreter::default();
    assert_eq!(run_ok(&mut interp, "sqrt(9)"), 3.0);
    assert_eq!(run_ok(&mut interp, "abs(5 - 8)"), 3.0);
    assert_eq!(run_ok(&mut interp, "ln(e)"), 1.0);
    assert_eq!(run_ok(&mut interp, "log(100)"), 2.0);
    assert_eq!(run_ok(&mut interp, "cos(0)"), 1.0);
    assert_eq!(run_ok(&mut interp, "sin(0)"), 0.0);
    assert_eq!(run_ok(&mut interp, "tan(0)"), 0.0);
}

#[test]
fn builtin_function_wins_over_user_definition() {
    let mut interp = Interpreter::default();
    run_ok(&mut interp, "sqrt(x) = x * 1000");
    assert_eq!(run_ok(&mut interp, "sqrt(16)"), 4.0);
}

#[test]
fn function_definition_yields_zero() {
    let mut interp = Interpreter::default();
    assert_eq!(run_ok(&mut interp, "f(x) = x"), 0.0);
    assert_eq!(run_ok(&mut interp, "ans"), 0.0);
}

#[test]
fn unknown_function() {
    let mut interp = Interpreter::default();
    let err = run_line(&mut interp, "h(3)").unwrap_err();
    assert_eq!(err, CalcError::UnknownFunction { name: String::from("h") });
}

#[test]
fn self_recursion_reports_depth_limit() {
    let mut interp = Interpreter::default();
    run_ok(&mut interp, "f(x) = f(x)");
    let err = run_line(&mut interp, "f(1)").unwrap_err();
    assert_eq!(err, CalcError::RecursionLimit);
}

#[test]
fn forward_reference_resolved_at_call_time() {
    let mut interp = Interpreter::default();
    run_ok(&mut interp, "f(x) = x + q");
    let err = run_line(&mut interp, "f(1)").unwrap_err();
    assert_eq!(err, CalcError::UnknownConstant { name: String::from("q") });
    run_ok(&mut interp, "q = 10");
    assert_eq!(run_ok(&mut interp, "f(1)"), 11.0);
}

#[test]
fn nested_calls_share_dynamic_scope() {
    let mut interp = Interpreter::default();
    run_ok(&mut interp, "g(y) = y * 2");
    run_ok(&mut interp, "f(x) = g(x) + x");
    assert_eq!(run_ok(&mut interp, "f(3)"), 9.0);
}

#[test]
fn empty_line_is_a_syntax_error() {
    let mut interp = Interpreter::default();
    let err = run_line(&mut interp, "").unwrap_err();
    assert_eq!(err, CalcError::Syntax { offset: 0, expected: TokenType::Number });
}

#[test]
fn executed_lines_are_recorded_trimmed() {
    let mut interp = Interpreter::default();
    assert_eq!(run_ok(&mut interp, "  2 + 2  "), 4.0);
    let err = run_line(&mut interp, "oops");
    assert!(err.is_err());
    assert_eq!(interp.executed_lines.len(), 1);
    assert_eq!(interp.executed_lines[0], "2 + 2");
}

#[test]
fn failed_line_leaves_environment_unchanged() {
    let mut interp = Interpreter::default();
    run_ok(&mut interp, "x = 7");
    let before_ans = f64::from_bits(interp.ans);
    assert!(run_line(&mut interp, "y = foo").is_err());
    assert_eq!(run_ok(&mut interp, "x"), 7.0);
    assert!(run_line(&mut interp, "y").is_err());
    assert_eq!(before_ans, 7.0);
    assert_eq!(f64::from_bits(interp.ans), 7.0);
}

#[test]
fn echo_marker_is_split_off() {
    let (echo, rest) = clcalc::strutil::split_echo_marker("!2 + 2");
    assert!(echo);
    assert_eq!(rest, "2 + 2");
    let (echo2, rest2) = clcalc::strutil::split_echo_marker("3 * 3");
    assert!(!echo2);
    assert_eq!(rest2, "3 * 3");
}

#[test]
fn snapshot_supports_batch_rollback() {
    let mut interp = Interpreter::default();
    run_ok(&mut interp, "x = 1");
    let snapshot = interp.clone();
    let mut scratch = interp.clone();
    run_ok(&mut scratch, "x = 2");
    assert!(run_line(&mut scratch, "boom(").is_err());
    interp = snapshot;
    assert_eq!(run_ok(&mut interp, "x"), 1.0);
}

#[test]
fn fractional_and_negative_exponents() {
    let mut interp = Interpreter::default();
    assert_eq!(run_ok(&mut interp, "9 ^ 0.5"), 3.0);
    assert!(run_ok(&mut interp, "(0 - 8) ^ (1/3)").is_nan());
}

#[test]
fn left_operand_error_wins() {
    let mut interp = Interpreter::default();
    let err = run_line(&mut interp, "foo + bar").unwrap_err();
    assert_eq!(err, CalcError::UnknownConstant { name: String::from("foo") });
}

#[test]
fn tables_are_readable_for_display() {
    let mut interp = Interpreter::default();
    run_ok(&mut interp, "x = 5");
    run_ok(&mut interp, "f(y) = y");
    assert_eq!(interp.consts.len(), 1);
    assert_eq!(interp.consts[0].0, "x");
    assert_eq!(f64::from_bits(interp.consts[0].1), 5.0);
    assert_eq!(interp.funcs.len(), 1);
    assert_eq!(interp.funcs[0].0, "f");
    assert_eq!(interp.funcs[0].1.0, "y");
}

#[test]
fn no_exponent_notation() {
    let mut interp = Interpreter::default();
    let err = run_line(&mut interp, "2e3").unwrap_err();
    assert_eq!(err, CalcError::Syntax { offset: 1, expected: TokenType::EOI });
}

#[test]
fn whitespace_only_line_is_a_syntax_error() {
    let mut interp = Interpreter::default();
    let err = run_line(&mut interp, "   ").unwrap_err();
    assert_eq!(err, CalcError::Syntax { offset: 2, expected: TokenType::Number });
}

#[test]
fn lone_decimal_point_is_an_invalid_character() {
    let mut interp = Interpreter::default();
    let err = run_line(&mut interp, ".5").unwrap_err();
    assert_eq!(err, CalcError::InvalidCharacter { offset: 0, found: '.' });
}

#[test]
fn trailing_decimal_point_parses() {
    let mut interp = Interpreter::default();
    assert_eq!(run_ok(&mut interp, "1. + 1"), 2.0);
}

#[test]
fn parenthesized_function_argument() {
    let mut interp = Interpreter::default();
    run_ok(&mut interp, "g(x) = x^2");
    assert_eq!(run_ok(&mut interp, "g((3))"), 9.0);
}

#[test]
fn parameter_named_after_builtin_still_resolves_to_builtin() {
    let mut interp = Interpreter::default();
    run_ok(&mut interp, "g(pi) = pi * 2");
    let v = run_ok(&mut interp, "g(3)");
    assert_eq!(v, std::f64::consts::PI * 2.0);
}
