use trust_eval::error::EvalError;
use trust_eval::value::{values_equal, Real, Value, Variable};

#[test]
fn accessors() {
    assert_eq!(Value::Bool(true).as_bool(), Some(true));
    assert_eq!(Value::Int(3).as_bool(), None);
    assert_eq!(Value::Int(3).as_int(), Some(3));
    assert_eq!(Value::String("s".to_string()).as_string(), Some("s"));
    assert_eq!(Value::Int(1).type_label(), "INT");
    assert_eq!(Value::Real(Real::from_bits(0)).type_label(), "REAL");
    assert_eq!(Value::Struct(vec![]).type_label(), "STRUCT");
    assert_eq!(Variable::string("t").into_value(), Value::String("t".to_string()));
}

#[test]
fn real_equality_is_ieee() {
    let nan = Real::from_bits(f64::NAN.to_bits());
    assert!(!nan.equals(nan));
    let pz = Real::from_bits(0.0f64.to_bits());
    let nz = Real::from_bits((-0.0f64).to_bits());
    assert!(pz.equals(nz));
    assert_eq!(f64::from_bits(Real::from_bits(1.5f64.to_bits()).negate().to_bits()), -1.5);
    assert!(!values_equal(&Value::Real(nan), &Value::Real(nan)));
}

#[test]
fn struct_equality_ignores_field_order() {
    let a = Value::Struct(vec![("x".to_string(), Value::Int(1)), ("y".to_string(), Value::Int(2))]);
    let b = Value::Struct(vec![("y".to_string(), Value::Int(2)), ("x".to_string(), Value::Int(1))]);
    let c = Value::Struct(vec![("y".to_string(), Value::Int(3)), ("x".to_string(), Value::Int(1))]);
    assert!(values_equal(&a, &b));
    assert!(!values_equal(&a, &c));
    assert_eq!(a.duplicate(), a);
}

#[test]
fn type_error_builds_fields() {
    match EvalError::type_error("BOOL", "INT") {
        EvalError::TypeError { expected, actual } => {
            assert_eq!(expected, "BOOL");
            assert_eq!(actual, "INT");
        }
        _ => panic!("not a type error"),
    }
    assert_eq!(EvalError::DivisionByZero.to_string(), "Division by zero");
}

#[test]
fn variables_from_plain_values() {
    assert_eq!(Variable::from(true), Variable::bool(true));
    assert_eq!(Variable::from(-4i64), Variable::integer(-4));
    assert_eq!(Variable::from(Real::from_bits(2.5f64.to_bits())), Variable::from_real(Real::from_bits(2.5f64.to_bits())));
    assert_eq!(Variable::from("pump".to_string()), Variable::string("pump"));
    assert_eq!(Variable::from(Value::Int(3)).into_value(), Value::Int(3));
    let v: Variable = 7i64.into();
    assert_eq!(v.value(), &Value::Int(7));
}
