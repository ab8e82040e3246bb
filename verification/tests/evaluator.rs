use trust_eval::error::EvalError;
use trust_eval::evaluator::{Evaluation, Evaluator, RealAnswer, RealQuery};
use trust_eval::parser::{Expr, Literal};
use trust_eval::syntax::Operator;
use trust_eval::value::{Number, Real, Value, Variable};

fn as_f64(n: &Number) -> f64 {
    match n {
        Number::Int(i) => *i as f64,
        Number::Real(r) => f64::from_bits(r.to_bits()),
    }
}

fn answer(q: &RealQuery) -> RealAnswer {
    match q {
        RealQuery::ParseReal(text) => match text.parse::<f64>() {
            Ok(f) => RealAnswer::Number(Real::from_bits(f.to_bits())),
            Err(_) => RealAnswer::Unparsable,
        },
        RealQuery::Apply(op, a, b) => {
            let (x, y) = (as_f64(a), as_f64(b));
            let num = |f: f64| RealAnswer::Number(Real::from_bits(f.to_bits()));
            match op {
                Operator::Add => num(x + y),
                Operator::Sub => num(x - y),
                Operator::Mul => num(x * y),
                Operator::Div => num(x / y),
                Operator::Lt => RealAnswer::Truth(x < y),
                Operator::Gt => RealAnswer::Truth(x > y),
                Operator::Le => RealAnswer::Truth(x <= y),
                Operator::Ge => RealAnswer::Truth(x >= y),
                _ => RealAnswer::Unparsable,
            }
        }
    }
}

/// Evaluates, answering questions about REAL arithmetic with `f64` arithmetic.
fn eval(evaluator: &Evaluator, text: &str, vars: &Vec<(String, Variable)>) -> Result<Variable, EvalError> {
    let mut answers = Vec::new();
    loop {
        match evaluator.eval(text, vars, &answers)? {
            Evaluation::Done(v) => return Ok(v),
            Evaluation::NeedsReal(q) => answers.push(answer(&q)),
        }
    }
}

fn real_var(x: f64) -> Variable {
    Variable::from_real(Real::from_bits(x.to_bits()))
}

fn var(name: &str, v: Variable) -> (String, Variable) {
    (name.to_string(), v)
}

#[test]
fn test_basic_arithmetic() {
    let evaluator = Evaluator::new();
    let vars = Vec::new();

    assert_eq!(eval(&evaluator, "5 + 3", &vars).unwrap(), Variable::integer(8));

    assert_eq!(eval(&evaluator, "10.0 * 2.5", &vars).unwrap(), real_var(25.0));
}

#[test]
fn test_variable_substitution() {
    let evaluator = Evaluator::new();
    let vars = vec![var("x", Variable::integer(10)), var("y", Variable::integer(20))];

    assert_eq!(eval(&evaluator, "x + y", &vars).unwrap(), Variable::integer(30));
}

#[test]
fn test_comparison() {
    let evaluator = Evaluator::new();
    let vars = vec![var("temp", real_var(25.5))];

    assert_eq!(eval(&evaluator, "temp > 20.0", &vars).unwrap(), Variable::bool(true));

    assert_eq!(eval(&evaluator, "temp < 25.0", &vars).unwrap(), Variable::bool(false));
}

#[test]
fn test_logical_operators() {
    let evaluator = Evaluator::new();
    let vars = vec![var("a", Variable::bool(true)), var("b", Variable::bool(false))];

    assert_eq!(eval(&evaluator, "a AND b", &vars).unwrap(), Variable::bool(false));

    assert_eq!(eval(&evaluator, "a OR b", &vars).unwrap(), Variable::bool(true));

    assert_eq!(eval(&evaluator, "NOT a", &vars).unwrap(), Variable::bool(false));
}

#[test]
fn test_complex_expression() {
    let evaluator = Evaluator::new();
    let vars = vec![
        var("temperature", real_var(30.5)),
        var("pressure", real_var(85.3)),
        var("enabled", Variable::bool(true)),
    ];

    let expr = "enabled AND (temperature > 25.0 OR pressure < 100.0)";
    assert_eq!(eval(&evaluator, expr, &vars).unwrap(), Variable::bool(true));
}

#[test]
fn test_undefined_variable() {
    let evaluator = Evaluator::new();
    let vars = Vec::new();

    let result = eval(&evaluator, "unknown_var + 5", &vars);
    assert!(result.is_err());
}

#[test]
fn test_type_mismatch() {
    let evaluator = Evaluator::new();
    let vars = vec![var("x", Variable::bool(true))];

    let result = eval(&evaluator, "x + 5", &vars);
    assert!(result.is_err());
}

#[test]
fn test_struct_field_access() {
    let evaluator = Evaluator::new();
    let vars = vec![var(
        "device",
        Variable::structure(vec![
            ("enabled".to_string(), Value::Bool(true)),
            ("count".to_string(), Value::Int(7)),
            ("name".to_string(), Value::String("pump-a".to_string())),
        ]),
    )];

    assert_eq!(eval(&evaluator, "device.count + 3", &vars).unwrap(), Variable::integer(10));

    assert_eq!(eval(&evaluator, "device.enabled AND TRUE", &vars).unwrap(), Variable::bool(true));

    assert_eq!(eval(&evaluator, "device.name = 'pump-a'", &vars).unwrap(), Variable::bool(true));
}

#[test]
fn test_nested_struct_field_access() {
    let evaluator = Evaluator::new();
    let vars = vec![var(
        "outer",
        Variable::structure(vec![(
            "inner".to_string(),
            Value::Struct(vec![
                ("ok".to_string(), Value::Bool(true)),
                ("value".to_string(), Value::Int(12)),
            ]),
        )]),
    )];

    assert_eq!(eval(&evaluator, "outer.inner.ok", &vars).unwrap(), Variable::bool(true));

    assert_eq!(eval(&evaluator, "outer.inner.value > 10", &vars).unwrap(), Variable::bool(true));
}

#[test]
fn test_field_access_on_non_struct_errors() {
    let evaluator = Evaluator::new();
    let vars = vec![var("x", Variable::integer(1))];

    let result = eval(&evaluator, "x.field", &vars);
    assert!(result.is_err());
}

// ---- further scenarios ----

#[test]
fn precedence_and_parentheses() {
    let evaluator = Evaluator::new();
    let vars = Vec::new();
    assert_eq!(eval(&evaluator, "2 + 3 * 4", &vars).unwrap(), Variable::integer(14));
    assert_eq!(eval(&evaluator, "(2 + 3) * 4", &vars).unwrap(), Variable::integer(20));
    assert_eq!(eval(&evaluator, "10 - 4 - 3", &vars).unwrap(), Variable::integer(3));
    assert_eq!(eval(&evaluator, "-2 * 3", &vars).unwrap(), Variable::integer(-6));
    assert_eq!(eval(&evaluator, "1 < 2 = TRUE", &vars).unwrap(), Variable::bool(true));
    assert_eq!(eval(&evaluator, "TRUE OR FALSE AND FALSE", &vars).unwrap(), Variable::bool(true));
    assert_eq!(eval(&evaluator, "true xor TRUE", &vars).unwrap(), Variable::bool(false));
}

#[test]
fn integer_division_truncates() {
    let evaluator = Evaluator::new();
    let vars = Vec::new();
    assert_eq!(eval(&evaluator, "7 / 2", &vars).unwrap(), Variable::integer(3));
    assert_eq!(eval(&evaluator, "-7 / 2", &vars).unwrap(), Variable::integer(-3));
    assert!(matches!(eval(&evaluator, "7 / 0", &vars), Err(EvalError::DivisionByZero)));
    assert!(matches!(eval(&evaluator, "7.0 / 0", &vars), Err(EvalError::DivisionByZero)));
    assert!(matches!(eval(&evaluator, "7 / -0.0", &vars), Err(EvalError::DivisionByZero)));
}

#[test]
fn integer_overflow_is_an_error() {
    let evaluator = Evaluator::new();
    let vars = vec![var("big", Variable::integer(i64::MAX))];
    assert!(matches!(eval(&evaluator, "big + 1", &vars), Err(EvalError::RuntimeError(_))));
    assert_eq!(eval(&evaluator, "big - 1", &vars).unwrap(), Variable::integer(i64::MAX - 1));
}

#[test]
fn huge_integer_literal_is_real() {
    let evaluator = Evaluator::new();
    let vars = Vec::new();
    assert_eq!(
        eval(&evaluator, "99999999999999999999", &vars).unwrap(),
        real_var(99999999999999999999.0)
    );
}

#[test]
fn mixed_int_real_arithmetic() {
    let evaluator = Evaluator::new();
    let vars = Vec::new();
    assert_eq!(eval(&evaluator, "1 + 0.5", &vars).unwrap(), real_var(1.5));
    assert_eq!(eval(&evaluator, "-(1.5)", &vars).unwrap(), real_var(-1.5));
    assert_eq!(eval(&evaluator, "2 >= 2.0", &vars).unwrap(), Variable::bool(true));
}

#[test]
fn equality_follows_value_kinds() {
    let evaluator = Evaluator::new();
    let vars = Vec::new();
    assert_eq!(eval(&evaluator, "1 = 1.0", &vars).unwrap(), Variable::bool(false));
    assert_eq!(eval(&evaluator, "0.0 = -0.0", &vars).unwrap(), Variable::bool(true));
    assert_eq!(eval(&evaluator, "'a' <> 'b'", &vars).unwrap(), Variable::bool(true));
    assert_eq!(eval(&evaluator, "\"x\" = 'x'", &vars).unwrap(), Variable::bool(true));
}

#[test]
fn error_messages() {
    let evaluator = Evaluator::new();
    let vars = vec![var("x", Variable::integer(1)), var("b", Variable::bool(true))];
    let msg = |t: &str| eval(&evaluator, t, &vars).unwrap_err().to_string();
    assert_eq!(msg("y"), "Variable 'y' not found");
    assert_eq!(msg("b + 1"), "Type error: expected number, got BOOL");
    assert_eq!(msg("x AND b"), "Type error: expected BOOL, got INT AND BOOL");
    assert_eq!(msg("NOT x"), "Type error: expected BOOL, got INT");
    assert_eq!(msg("x.f"), "Type error: expected STRUCT, got INT");
    assert_eq!(msg("x MOD 2"), "Unsupported operation: Unknown operator: MOD");
    assert_eq!(msg("2 ** 3"), "Unsupported operation: Unknown operator: **");
    assert_eq!(msg("1 / 0"), "Division by zero");
    assert_eq!(msg("x +"), "Syntax error: unexpected token");
    assert_eq!(msg("x # 1"), "Syntax error: unexpected character");
    assert_eq!(msg("'open"), "Syntax error: unexpected character");
    assert_eq!(msg(""), "Syntax error: unexpected token");
    assert_eq!(msg("b & b"), "Unsupported operation: Unknown operator: &");
    assert_eq!(msg("(x"), "Syntax error: unexpected token");
    assert_eq!(msg("x 1"), "Syntax error: unexpected token");
}

#[test]
fn documented_example() {
    let evaluator = Evaluator::new();
    let vars = vec![var("temperature", real_var(25.5)), var("threshold", real_var(20.0))];
    assert_eq!(
        eval(&evaluator, "temperature > threshold", &vars).unwrap(),
        Variable::bool(true)
    );
}

#[test]
fn parse_gives_the_tree() {
    let evaluator = Evaluator::new();
    match evaluator.parse("a.b * (2)").unwrap() {
        Expr::Binary(Operator::Mul, text, l, r) => {
            assert_eq!(text, "*");
            assert!(matches!(*l, Expr::Field(_, ref f) if f == "b"));
            assert!(matches!(*r, Expr::Paren(ref x) if matches!(**x, Expr::Literal(Literal::Int(ref d)) if d == "2")));
        }
        other => panic!("unexpected {:?}", other),
    }
}

#[test]
fn operands_are_evaluated_before_operator() {
    let evaluator = Evaluator::new();
    let vars = vec![var("b", Variable::bool(false))];
    // AND does not short-circuit: the undefined right operand is still reported
    assert!(matches!(
        eval(&evaluator, "b AND missing", &vars),
        Err(EvalError::UndefinedVariable(_))
    ));
}

#[test]
fn questions_come_one_at_a_time() {
    let evaluator = Evaluator::new();
    let vars = Vec::new();
    match evaluator.eval("1.5 + 2", &vars, &Vec::new()).unwrap() {
        Evaluation::NeedsReal(RealQuery::ParseReal(t)) => assert_eq!(t, "1.5"),
        other => panic!("unexpected {:?}", other),
    }
    let answers = vec![RealAnswer::Number(Real::from_bits(1.5f64.to_bits()))];
    match evaluator.eval("1.5 + 2", &vars, &answers).unwrap() {
        Evaluation::NeedsReal(RealQuery::Apply(Operator::Add, Number::Real(a), Number::Int(2))) => {
            assert_eq!(a.to_bits(), 1.5f64.to_bits())
        }
        other => panic!("unexpected {:?}", other),
    }
    // an answer of the wrong kind is an error
    assert!(matches!(
        evaluator.eval("1.5", &vars, &vec![RealAnswer::Truth(true)]),
        Err(EvalError::RuntimeError(_))
    ));
}

#[test]
fn field_of_missing_name_is_undefined() {
    let evaluator = Evaluator::new();
    let vars = vec![var(
        "d",
        Variable::structure(vec![("a".to_string(), Value::Int(1))]),
    )];
    assert!(matches!(eval(&evaluator, "d.b", &vars), Err(EvalError::UndefinedVariable(_))));
    assert_eq!(eval(&evaluator, "d = d", &vars).unwrap(), Variable::bool(true));
}

#[test]
fn extra_answers_change_nothing() {
    let evaluator = Evaluator::new();
    let vars = Vec::new();
    let one_five = RealAnswer::Number(Real::from_bits(1.5f64.to_bits()));
    let three_five = RealAnswer::Number(Real::from_bits(3.5f64.to_bits()));
    let exact = vec![one_five, three_five];
    let more = vec![one_five, three_five, RealAnswer::Truth(true), RealAnswer::Unparsable];
    let a = evaluator.eval("1.5 + 2", &vars, &exact).unwrap();
    let b = evaluator.eval("1.5 + 2", &vars, &more).unwrap();
    match (a, b) {
        (Evaluation::Done(x), Evaluation::Done(y)) => {
            assert_eq!(x, y);
            assert_eq!(x, real_var(3.5));
        }
        other => panic!("unexpected {:?}", other),
    }
}

#[test]
fn equality_is_symmetric() {
    let evaluator = Evaluator::new();
    let vars = vec![
        var("s", Variable::structure(vec![("a".to_string(), Value::Int(1)), ("b".to_string(), Value::Bool(true))])),
        var("t", Variable::structure(vec![("b".to_string(), Value::Bool(true)), ("a".to_string(), Value::Int(1))])),
        var("u", Variable::structure(vec![("b".to_string(), Value::Bool(true)), ("c".to_string(), Value::Int(1))])),
    ];
    for (l, r) in [("s", "t"), ("s", "u"), ("t", "u")] {
        let x = eval(&evaluator, &format!("{} = {}", l, r), &vars).unwrap();
        let y = eval(&evaluator, &format!("{} = {}", r, l), &vars).unwrap();
        assert_eq!(x, y);
    }
    assert_eq!(eval(&evaluator, "s = t", &vars).unwrap(), Variable::bool(true));
    assert_eq!(eval(&evaluator, "s <> u", &vars).unwrap(), Variable::bool(true));
}

#[test]
fn call_takes_its_first_part_that_evaluates() {
    let evaluator = Evaluator::new();
    let vars = vec![var("x", Variable::integer(4))];
    // the callee names no variable, so the first argument gives the value
    assert_eq!(eval(&evaluator, "abs(-5)", &vars).unwrap(), Variable::integer(-5));
    // arguments that fail are passed over
    assert_eq!(eval(&evaluator, "f(missing, 1 / 0, x * 2)", &vars).unwrap(), Variable::integer(8));
    assert_eq!(eval(&evaluator, "g(2.5, 1)", &vars).unwrap(), real_var(2.5));
    // a callee that evaluates gives the value
    assert_eq!(eval(&evaluator, "x(7)", &vars).unwrap(), Variable::integer(4));
    // a call takes part in an expression as its value does
    assert_eq!(eval(&evaluator, "max(x, 9) + 1", &vars).unwrap(), Variable::integer(5));
}

#[test]
fn call_without_a_part_that_evaluates_is_unsupported() {
    let evaluator = Evaluator::new();
    let vars = Vec::new();
    match eval(&evaluator, "f()", &vars) {
        Err(EvalError::UnsupportedOperation(m)) => assert_eq!(m, "Cannot evaluate node kind: CallExpr"),
        other => panic!("unexpected {:?}", other),
    }
    match eval(&evaluator, "f(a, b)", &vars) {
        Err(e) => assert_eq!(
            e.to_string(),
            "Unsupported operation: Cannot evaluate node kind: CallExpr"
        ),
        other => panic!("unexpected {:?}", other),
    }
}

#[test]
fn index_takes_its_first_part_that_evaluates() {
    let evaluator = Evaluator::new();
    let vars = vec![var("arr", Variable::integer(7)), var("i", Variable::integer(2))];
    assert_eq!(eval(&evaluator, "arr[i]", &vars).unwrap(), Variable::integer(7));
    assert_eq!(eval(&evaluator, "grid[i, 3]", &vars).unwrap(), Variable::integer(2));
    match eval(&evaluator, "grid[k]", &vars) {
        Err(EvalError::UnsupportedOperation(m)) => assert_eq!(m, "Cannot evaluate node kind: IndexExpr"),
        other => panic!("unexpected {:?}", other),
    }
}

#[test]
fn malformed_calls_and_indices_are_syntax_errors() {
    let evaluator = Evaluator::new();
    let vars = Vec::new();
    for text in ["f(1", "f(1,)", "a[]", "a[1", "f(1]", ","] {
        assert!(
            matches!(eval(&evaluator, text, &vars), Err(EvalError::SyntaxError(_))),
            "{}",
            text
        );
    }
}

#[test]
fn parse_gives_call_and_index_trees() {
    let evaluator = Evaluator::new();
    match evaluator.parse("f(a, 1)[2]").unwrap() {
        Expr::Index(base, ix) => {
            assert_eq!(ix.len(), 1);
            match *base {
                Expr::Call(callee, args) => {
                    assert!(matches!(*callee, Expr::Name(ref n) if n == "f"));
                    assert_eq!(args.len(), 2);
                    assert!(matches!(args[0], Expr::Name(ref n) if n == "a"));
                }
                other => panic!("unexpected {:?}", other),
            }
        }
        other => panic!("unexpected {:?}", other),
    }
}

#[test]
fn double_negation_gives_the_value_back() {
    let evaluator = Evaluator::new();
    let vars = vec![
        var("b", Variable::bool(false)),
        var("x", Variable::integer(-9)),
        var("r", real_var(2.5)),
    ];
    assert_eq!(eval(&evaluator, "NOT NOT b", &vars).unwrap(), Variable::bool(false));
    assert_eq!(eval(&evaluator, "- - x", &vars).unwrap(), Variable::integer(-9));
    assert_eq!(eval(&evaluator, "-(-r)", &vars).unwrap(), real_var(2.5));
}
