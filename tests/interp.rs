use vilang::eval::Evaluator;
use vilang::eval_diag::{DiagData, EvalError};
use vilang::interp::Outcome;
use vilang::number::{LiteralError, NumericalObj};
use vilang::obj::{Operation, OperationKind, StringObj, TupleObj, ValueObj};
use vilang::scope::Scope;

fn run(src: &str) -> Outcome {
    let mut ev = Evaluator::new(src);
    let prog = ev.parse().expect("the source should parse");
    ev.interpret(&prog)
}

fn eval_error(outcome: &Outcome) -> (u32, EvalError) {
    let d = outcome.error.as_ref().expect("the run should fail");
    match &d.data {
        DiagData::EvalError(e) => (d.line, e.clone()),
        DiagData::ParseError(_) => panic!("not an evaluation error"),
    }
}

fn num(n: i64) -> ValueObj {
    ValueObj::Numerical(NumericalObj::from_int(n))
}

fn apply(kind: OperationKind, a: ValueObj, b: ValueObj) -> Result<ValueObj, EvalError> {
    Operation { kind, operands: (a, b) }.evaluate()
}

#[test]
fn declaration_and_print() {
    let out = run("cho x = 1 + 2 * 3\ntrong x");
    assert!(out.error.is_none());
    assert_eq!(out.printed, vec!["7".to_string()]);
}

#[test]
fn undefined_identifier() {
    let out = run("trong y");
    assert!(out.printed.is_empty());
    let (line, e) = eval_error(&out);
    assert_eq!(line, 1);
    assert!(matches!(&e, EvalError::NotFoundInScope { name } if name == "y"));
    assert_eq!(e.message(), "Identifier 'y' is not found in scope");
}

#[test]
fn type_mismatch() {
    let out = run("cho s = \"abc\"\ntrong s + 1");
    let (line, e) = eval_error(&out);
    assert_eq!(line, 2);
    match &e {
        EvalError::UndefinedOperation { op, operand } => {
            assert_eq!(*op, OperationKind::Add);
            assert!(operand.contains("a string"));
        }
        other => panic!("Got {:?}", other),
    }
    assert_eq!(e.message(), "Undefined operation: add with a string and a number");
}

#[test]
fn unterminated_tuple() {
    let mut ev = Evaluator::new("trong (1, 2");
    assert!(ev.parse().is_none());
    let diags = ev.parse_diagnostics();
    assert_eq!(diags.len(), 1);
    assert_eq!(diags[0].data.message(), "This parenthesis has not been closed.");
}

#[test]
fn separators_keep_the_value() {
    let a = NumericalObj::from_integer_literal("1_000").unwrap();
    let b = NumericalObj::from_integer_literal("1000").unwrap();
    assert_eq!(a, b);
    assert_eq!(a, NumericalObj { num: 1000, den: 1 });
}

#[test]
fn division_by_zero_is_infinity() {
    let out = run("trong 5 / 0\ntrong -5 / 0\ntrong 0 / 0\ntrong 2.5 / 0.0");
    assert!(out.error.is_none());
    assert_eq!(out.printed, vec!["+inf", "-inf", "+inf", "+inf"]);
}

#[test]
fn declare_twice_fails_and_keeps_first() {
    let out = run("cho x = 1\ncho x = 2\n");
    let (line, e) = eval_error(&out);
    assert_eq!(line, 2);
    assert!(matches!(&e, EvalError::AlreadyDeclaredInScope { name } if name == "x"));
    let mut scope = Scope::new();
    assert!(scope.declare("x".to_string(), num(1)));
    assert!(!scope.declare("x".to_string(), num(2)));
    assert_eq!(scope.get(&"x".to_string()).unwrap().render(), "1");
}

#[test]
fn scope_set_and_get() {
    let mut scope = Scope::global();
    assert!(scope.get(&"a".to_string()).is_none());
    assert!(!scope.set("a".to_string(), num(1)));
    assert!(scope.declare("a".to_string(), num(1)));
    assert!(scope.set("a".to_string(), num(9)));
    assert_eq!(scope.get(&"a".to_string()).unwrap().render(), "9");
}

#[test]
fn precedence_and_associativity() {
    let out = run("trong 10 - 4 - 3\ntrong 2 * (3 + 4)\ntrong 8 / 4 / 2\ntrong -2 * 3");
    assert_eq!(out.printed, vec!["3", "14", "1", "-6"]);
}

#[test]
fn fractions_are_exact() {
    let out = run("trong 0.1 + 0.2\ntrong 1 / 4\ntrong 1 / 3\ntrong 10.50");
    assert_eq!(out.printed, vec!["0.3", "0.25", "0.3333333333333333", "10.5"]);
    assert_eq!(
        NumericalObj::from_fraction_literal("1_0.5_0"),
        Ok(NumericalObj { num: 21, den: 2 })
    );
}

#[test]
fn strings_tuples_and_undefined() {
    let out = run("cho u\ntrong u\ntrong 'hi'\ntrong (1, \"a\", (2, 3))\ntrong ()\ntrong (4)");
    assert!(out.error.is_none());
    assert_eq!(out.printed, vec!["undefined", "\"hi\"", "(1, \"a\", (2, 3))", "()", "4"]);
}

#[test]
fn names_with_spaces_and_accents() {
    let out = run("cho số lớn = 12\ntrong số lớn * 2");
    assert_eq!(out.printed, vec!["24"]);
}

#[test]
fn run_stops_at_first_failure() {
    let out = run("trong 1\ntrong z\ntrong 2");
    assert_eq!(out.printed, vec!["1"]);
    let (line, _) = eval_error(&out);
    assert_eq!(line, 2);
}

#[test]
fn invocation_is_passed_over() {
    let out = run("f(1)\ntrong 3");
    assert!(out.error.is_none());
    assert_eq!(out.printed, vec!["3"]);
}

#[test]
fn method_call_in_expression_is_unsupported() {
    let out = run("trong f(1)");
    let (_, e) = eval_error(&out);
    assert_eq!(e.message(), "Not supported yet: method invocation");
}

#[test]
fn number_out_of_range() {
    let out = run("trong 99999999999999999999");
    let (_, e) = eval_error(&out);
    assert_eq!(e.message(), "Number out of range: 99999999999999999999");
    let out = run("cho big = 9000000000000000000\ntrong big * 2");
    let (_, e) = eval_error(&out);
    assert_eq!(e.message(), "Number out of range: multiply");
}

#[test]
fn malformed_literals() {
    assert_eq!(NumericalObj::from_integer_literal("12a"), Err(LiteralError::Malformed));
    assert_eq!(NumericalObj::from_fraction_literal("1.2.3"), Err(LiteralError::Malformed));
    assert_eq!(NumericalObj::from_fraction_literal("12"), Err(LiteralError::Malformed));
    assert_eq!(
        NumericalObj::from_fraction_literal("0.5"),
        Ok(NumericalObj { num: 1, den: 2 })
    );
    assert_eq!(
        NumericalObj::from_integer_literal("99999999999999999999"),
        Err(LiteralError::OutOfRange)
    );
    let e = EvalError::MalformedLiteral { lit: "1x".to_string() };
    assert_eq!(e.message(), "Malformed literal: 1x");
}

#[test]
fn operations_on_values() {
    let r = apply(OperationKind::Subtract, num(7), num(10)).unwrap();
    assert_eq!(r.render(), "-3");
    let r = apply(OperationKind::NegativePrefix, ValueObj::Undefined, num(4)).unwrap();
    assert_eq!(r.render(), "-4");
    let e = apply(OperationKind::NegativePrefix, ValueObj::Undefined, ValueObj::Undefined).unwrap_err();
    assert_eq!(e.message(), "Undefined operation: negative prefix with an undefined value");
    let t = ValueObj::Tuple(TupleObj(vec![num(1)]));
    let e = apply(OperationKind::Multiply, t, num(2)).unwrap_err();
    assert_eq!(e.message(), "Undefined operation: multiply with a tuple and a number");
    let s = ValueObj::String(StringObj("q".to_string()));
    let e = apply(OperationKind::Divide, num(2), s).unwrap_err();
    assert_eq!(e.message(), "Undefined operation: divide with a number and a string");
}

#[test]
fn diagnostic_lines() {
    let mut ev = Evaluator::new("\n\ntrong nope");
    let prog = ev.parse().unwrap();
    let out = ev.interpret(&prog);
    let d = out.error.unwrap();
    assert_eq!(d.render(), "Line 3: Evaluation error: Identifier 'nope' is not found in scope");
}

#[test]
fn duplicate_keeps_value() {
    let v = ValueObj::Tuple(TupleObj(vec![num(1), ValueObj::String(StringObj("z".to_string()))]));
    assert_eq!(v.duplicate().render(), v.render());
    assert_eq!(v.kind_phrase(), "a tuple");
}

#[test]
fn nested_parentheses_evaluate() {
    let src = format!("trong {}2{} * 3", "(".repeat(100), ")".repeat(100));
    assert_eq!(run(&src).printed, vec!["6"]);
}

#[test]
fn field_access_is_unsupported() {
    let out = run("cho a = 1\ntrong a.b");
    let (line, e) = eval_error(&out);
    assert_eq!(line, 2);
    assert_eq!(e.message(), "Not supported yet: field access");
}

#[test]
fn subtraction_groups_left() {
    assert_eq!(run("trong 1 - 2 - 3\ntrong 2 * 3 + 4").printed, vec!["-4", "10"]);
}
