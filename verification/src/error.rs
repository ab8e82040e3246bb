use vstd::prelude::*;

verus! {

/// Errors reported while evaluating an expression.
#[derive(Debug, Clone)]
pub enum EvalError {
    SyntaxError(String),
    UndefinedVariable(String),
    TypeError { expected: String, actual: String },
    DivisionByZero,
    UnsupportedOperation(String),
    RuntimeError(String),
}

/// The mathematical model of an [`EvalError`]: its variant and its texts.
pub enum ErrorModel {
    Syntax(Seq<char>),
    Undefined(Seq<char>),
    Type(Seq<char>, Seq<char>),
    DivisionByZero,
    Unsupported(Seq<char>),
    Runtime(Seq<char>),
}

impl View for EvalError {
    type V = ErrorModel;

    open spec fn view(&self) -> ErrorModel {
        match self {
            EvalError::SyntaxError(s) => ErrorModel::Syntax(s@),
            EvalError::UndefinedVariable(s) => ErrorModel::Undefined(s@),
            EvalError::TypeError { expected, actual } => ErrorModel::Type(expected@, actual@),
            EvalError::DivisionByZero => ErrorModel::DivisionByZero,
            EvalError::UnsupportedOperation(s) => ErrorModel::Unsupported(s@),
            EvalError::RuntimeError(s) => ErrorModel::Runtime(s@),
        }
    }
}

/// The message an error displays.
pub open spec fn error_message(e: ErrorModel) -> Seq<char> {
    match e {
        ErrorModel::Syntax(s) => "Syntax error: "@ + s,
        ErrorModel::Undefined(s) => "Variable '"@ + s + "' not found"@,
        ErrorModel::Type(x, a) => "Type error: expected "@ + x + ", got "@ + a,
        ErrorModel::DivisionByZero => "Division by zero"@,
        ErrorModel::Unsupported(s) => "Unsupported operation: "@ + s,
        ErrorModel::Runtime(s) => "Evaluation error: "@ + s,
    }
}

/// Concatenates two texts.
pub fn concat2(a: &str, b: &str) -> (s: String)
    ensures
        s@ == a@ + b@,
{
    let mut s = String::from_str(a);
    s.append(b);
    s
}

/// Concatenates three texts.
pub fn concat3(a: &str, b: &str, c: &str) -> (s: String)
    ensures
        s@ == a@ + b@ + c@,
{
    let mut s = String::from_str(a);
    s.append(b);
    s.append(c);
    s
}

impl EvalError {
    /// A type error that expected `expected` and found `actual`.
    pub fn type_error(expected: &str, actual: &str) -> (e: Self)
        ensures
            e@ == ErrorModel::Type(expected@, actual@),
    {
        EvalError::TypeError { expected: String::from_str(expected), actual: String::from_str(actual) }
    }

    /// The message of this error, as its `Display` shows it.
    pub fn to_string(&self) -> (s: String)
        ensures
            s@ == error_message(self@),
    {
        match self {
            EvalError::SyntaxError(m) => concat2("Syntax error: ", m.as_str()),
            EvalError::UndefinedVariable(m) => concat3("Variable '", m.as_str(), "' not found"),
            EvalError::TypeError { expected, actual } => {
                let mut s = concat3("Type error: expected ", expected.as_str(), ", got ");
                s.append(actual.as_str());
                s
            },
            EvalError::DivisionByZero => String::from_str("Division by zero"),
            EvalError::UnsupportedOperation(m) => concat2("Unsupported operation: ", m.as_str()),
            EvalError::RuntimeError(m) => concat2("Evaluation error: ", m.as_str()),
        }
    }
}

} // verus!
