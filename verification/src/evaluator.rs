use vstd::prelude::*;
use crate::error::{concat2, concat3, ErrorModel, EvalError};
use crate::parser::{
    Expr, ExprModel, Literal, LiteralModel, exprs_view, lemma_exprs_view, parse_token_list,
    parse_tokens,
};
use crate::syntax::{Operator, TokenModel, is_letter, is_word_char, lex, lex_from, tokenize, word_end, word_token};
use crate::parser::{parse_more, parse_postfix, parse_rank};
use crate::value::{
    Number, NumberModel, Real, Value, ValueModel, Variable, find_field, find_variable, lookup,
    number_is_zero, number_of, real_neg, type_name_of, value_eq, values_equal, variables_view,
    lemma_fields_view,
};

verus! {

/// A question about REAL arithmetic that the evaluator cannot answer itself:
/// the host answers it with IEEE-754 binary64 (`f64`) arithmetic.
#[derive(Debug)]
pub enum RealQuery {
    /// The `f64` that `text.parse::<f64>()` gives, if any.
    ParseReal(String),
    /// `a op b` where each operand is taken as an `f64` (an INT by `as f64`):
    /// a REAL for `+ - * /`, a truth value for `< > <= >=`.
    Apply(Operator, Number, Number),
}

/// The host's answer to a [`RealQuery`].
#[derive(Debug, Clone, Copy)]
pub enum RealAnswer {
    /// A REAL result.
    Number(Real),
    /// The result of a comparison.
    Truth(bool),
    /// The text of a `ParseReal` query is not a number.
    Unparsable,
}

/// The model of a [`RealQuery`].
pub enum QueryModel {
    ParseReal(Seq<char>),
    Apply(Operator, NumberModel, NumberModel),
}

/// The model of a [`RealAnswer`].
pub enum AnswerModel {
    Number(u64),
    Truth(bool),
    Unparsable,
}

impl View for RealQuery {
    type V = QueryModel;

    open spec fn view(&self) -> QueryModel {
        match self {
            RealQuery::ParseReal(s) => QueryModel::ParseReal(s@),
            RealQuery::Apply(op, a, b) => QueryModel::Apply(*op, a@, b@),
        }
    }
}

impl View for RealAnswer {
    type V = AnswerModel;

    open spec fn view(&self) -> AnswerModel {
        match self {
            RealAnswer::Number(r) => AnswerModel::Number(r.bits),
            RealAnswer::Truth(b) => AnswerModel::Truth(*b),
            RealAnswer::Unparsable => AnswerModel::Unparsable,
        }
    }
}

/// The models of a list of answers.
pub open spec fn answers_view(a: Seq<RealAnswer>) -> Seq<AnswerModel> {
    Seq::new(a.len(), |i: int| a[i]@)
}

/// How the evaluation of an expression ends, given the answers so far:
/// with a value, with an error, or with a question about REAL arithmetic.
pub enum OutcomeModel {
    Value(ValueModel),
    Error(ErrorModel),
    Query(QueryModel),
}

/// Whether an operator computes a REAL from two numbers.
pub open spec fn is_arithmetic(op: Operator) -> bool {
    op == Operator::Add || op == Operator::Sub || op == Operator::Mul || op == Operator::Div
}

/// Whether an operator orders two numbers.
pub open spec fn is_ordering(op: Operator) -> bool {
    op == Operator::Lt || op == Operator::Gt || op == Operator::Le || op == Operator::Ge
}

/// The message of an answer that does not fit its question.
pub open spec fn wrong_answer_message() -> Seq<char> {
    "answer does not fit the question"@
}

/// The message of an integer result that an INT cannot hold.
pub open spec fn overflow_message() -> Seq<char> {
    "integer overflow"@
}

/// The value that answer `a` gives to question `q`.
pub open spec fn answer_outcome(q: QueryModel, a: AnswerModel) -> OutcomeModel {
    match (q, a) {
        (QueryModel::ParseReal(_), AnswerModel::Number(b)) => OutcomeModel::Value(ValueModel::Real(b)),
        (QueryModel::ParseReal(_), AnswerModel::Unparsable) => OutcomeModel::Error(
            ErrorModel::Syntax("Invalid literal"@),
        ),
        (QueryModel::Apply(op, _, _), AnswerModel::Number(b)) => if is_arithmetic(op) {
            OutcomeModel::Value(ValueModel::Real(b))
        } else {
            OutcomeModel::Error(ErrorModel::Runtime(wrong_answer_message()))
        },
        (QueryModel::Apply(op, _, _), AnswerModel::Truth(t)) => if is_ordering(op) {
            OutcomeModel::Value(ValueModel::Bool(t))
        } else {
            OutcomeModel::Error(ErrorModel::Runtime(wrong_answer_message()))
        },
        _ => OutcomeModel::Error(ErrorModel::Runtime(wrong_answer_message())),
    }
}

/// Asks question `q`: answer `k` settles it, and the next question gets answer `k + 1`;
/// without an answer `k`, the evaluation stops with the question.
pub open spec fn ask(q: QueryModel, ans: Seq<AnswerModel>, k: nat) -> (OutcomeModel, nat) {
    if k < ans.len() {
        (answer_outcome(q, ans[k as int]), k + 1)
    } else {
        (OutcomeModel::Query(q), k)
    }
}

/// The value of the decimal digits `s`.
pub open spec fn digits_value(s: Seq<char>) -> nat
    decreases s.len(),
{
    if s.len() == 0 {
        0
    } else {
        digits_value(s.drop_last()) * 10 + ((s.last() as nat) - ('0' as nat)) as nat
    }
}

pub open spec fn all_digits(s: Seq<char>) -> bool {
    forall|i: int| 0 <= i < s.len() ==> '0' <= #[trigger] s[i] && s[i] <= '9'
}

/// `text.parse::<i64>()`: an optional sign, then at least one decimal digit,
/// within the range of an `i64`.
pub open spec fn parse_i64(text: Seq<char>) -> Option<i64> {
    let neg = text.len() > 0 && text[0] == '-';
    let digits = if text.len() > 0 && (text[0] == '-' || text[0] == '+') {
        text.drop_first()
    } else {
        text
    };
    if digits.len() == 0 || !all_digits(digits) {
        None
    } else if neg {
        if digits_value(digits) <= 0x8000_0000_0000_0000 {
            Some((-digits_value(digits)) as i64)
        } else {
            None
        }
    } else if digits_value(digits) <= 0x7fff_ffff_ffff_ffff {
        Some(digits_value(digits) as i64)
    } else {
        None
    }
}

/// The value of a literal.
pub open spec fn literal_outcome(l: LiteralModel, ans: Seq<AnswerModel>, k: nat) -> (OutcomeModel, nat) {
    match l {
        LiteralModel::Int(text) => match parse_i64(text) {
            Some(i) => (OutcomeModel::Value(ValueModel::Int(i)), k),
            None => ask(QueryModel::ParseReal(text), ans, k),
        },
        LiteralModel::Real(text) => ask(QueryModel::ParseReal(text), ans, k),
        LiteralModel::Str(s) => (OutcomeModel::Value(ValueModel::Str(s)), k),
        LiteralModel::Bool(b) => (OutcomeModel::Value(ValueModel::Bool(b)), k),
    }
}

/// Truncating integer division, as Rust's `/` on integers.
pub open spec fn trunc_div(x: int, y: int) -> int {
    let q = (if x < 0 { -x } else { x }) / (if y < 0 { -y } else { y });
    if (x < 0) != (y < 0) {
        -q
    } else {
        q
    }
}

pub open spec fn in_i64(v: int) -> bool {
    i64::MIN <= v <= i64::MAX
}

/// The exact integer result of an INT operation, before its range is checked.
pub open spec fn int_result(op: Operator, x: i64, y: i64) -> int {
    match op {
        Operator::Add => x + y,
        Operator::Sub => x - y,
        Operator::Mul => x * y,
        _ => trunc_div(x as int, y as int),
    }
}

/// Integer ordering.
pub open spec fn int_order(op: Operator, x: i64, y: i64) -> bool {
    match op {
        Operator::Lt => x < y,
        Operator::Gt => x > y,
        Operator::Le => x <= y,
        _ => x >= y,
    }
}

/// A type error for an operand that is not a number.
pub open spec fn not_a_number(v: ValueModel) -> OutcomeModel {
    OutcomeModel::Error(ErrorModel::Type("number"@, type_name_of(v)))
}

/// A REAL operation on two values: each must be a number (the left one is checked
/// first); a division by a zero number fails; otherwise the host answers.
pub open spec fn real_outcome(op: Operator, a: ValueModel, b: ValueModel, ans: Seq<AnswerModel>, k: nat) -> (
    OutcomeModel,
    nat,
) {
    match number_of(a) {
        None => (not_a_number(a), k),
        Some(x) => match number_of(b) {
            None => (not_a_number(b), k),
            Some(y) => if op == Operator::Div && number_is_zero(y) {
                (OutcomeModel::Error(ErrorModel::DivisionByZero), k)
            } else {
                ask(QueryModel::Apply(op, x, y), ans, k)
            },
        },
    }
}

/// The name of a logical operator, as its type errors show it.
pub open spec fn logic_name(op: Operator) -> Seq<char> {
    match op {
        Operator::And => " AND "@,
        Operator::Or => " OR "@,
        _ => " XOR "@,
    }
}

/// The result of a binary operator on two values.
pub open spec fn binary_outcome(
    op: Operator,
    text: Seq<char>,
    a: ValueModel,
    b: ValueModel,
    ans: Seq<AnswerModel>,
    k: nat,
) -> (OutcomeModel, nat) {
    if op == Operator::Add || op == Operator::Sub || op == Operator::Mul || op == Operator::Div {
        match (a, b) {
            (ValueModel::Int(x), ValueModel::Int(y)) => if op == Operator::Div && y == 0 {
                (OutcomeModel::Error(ErrorModel::DivisionByZero), k)
            } else if in_i64(int_result(op, x, y)) {
                (OutcomeModel::Value(ValueModel::Int(int_result(op, x, y) as i64)), k)
            } else {
                (OutcomeModel::Error(ErrorModel::Runtime(overflow_message())), k)
            },
            _ => real_outcome(op, a, b, ans, k),
        }
    } else if op == Operator::Eq {
        (OutcomeModel::Value(ValueModel::Bool(value_eq(a, b))), k)
    } else if op == Operator::Ne {
        (OutcomeModel::Value(ValueModel::Bool(!value_eq(a, b))), k)
    } else if is_ordering(op) {
        match (a, b) {
            (ValueModel::Int(x), ValueModel::Int(y)) => (
                OutcomeModel::Value(ValueModel::Bool(int_order(op, x, y))),
                k,
            ),
            _ => real_outcome(op, a, b, ans, k),
        }
    } else if op == Operator::And || op == Operator::Or || op == Operator::Xor {
        match (a, b) {
            (ValueModel::Bool(x), ValueModel::Bool(y)) => (
                OutcomeModel::Value(
                    ValueModel::Bool(
                        if op == Operator::And {
                            x && y
                        } else if op == Operator::Or {
                            x || y
                        } else {
                            x != y
                        },
                    ),
                ),
                k,
            ),
            _ => (
                OutcomeModel::Error(
                    ErrorModel::Type("BOOL"@, type_name_of(a) + logic_name(op) + type_name_of(b)),
                ),
                k,
            ),
        }
    } else {
        (OutcomeModel::Error(ErrorModel::Unsupported("Unknown operator: "@ + text)), k)
    }
}

/// The result of a prefix operator on a value.
pub open spec fn unary_outcome(op: Operator, text: Seq<char>, v: ValueModel) -> OutcomeModel {
    if op == Operator::Not {
        match v {
            ValueModel::Bool(b) => OutcomeModel::Value(ValueModel::Bool(!b)),
            _ => OutcomeModel::Error(ErrorModel::Type("BOOL"@, type_name_of(v))),
        }
    } else if op == Operator::Sub {
        match v {
            ValueModel::Int(i) => if i == i64::MIN {
                OutcomeModel::Error(ErrorModel::Runtime(overflow_message()))
            } else {
                OutcomeModel::Value(ValueModel::Int(-i as i64))
            },
            ValueModel::Real(r) => OutcomeModel::Value(ValueModel::Real(real_neg(r))),
            _ => not_a_number(v),
        }
    } else {
        OutcomeModel::Error(ErrorModel::Unsupported("Unknown unary operator: "@ + text))
    }
}

/// The name of the node kind of calls, as its errors show it.
pub open spec fn call_kind() -> Seq<char> {
    "CallExpr"@
}

/// The name of the node kind of indexed accesses, as its errors show it.
pub open spec fn index_kind() -> Seq<char> {
    "IndexExpr"@
}

/// The error of a node of kind `kind` none of whose parts evaluates.
pub open spec fn cannot_evaluate(kind: Seq<char>) -> ErrorModel {
    ErrorModel::Unsupported("Cannot evaluate node kind: "@ + kind)
}

/// The evaluation of an expression in environment `env`, with the answers `ans`
/// of which the first `k` are used up; also the number of answers used up after it.
/// Operands are evaluated left to right, and both before their operator applies.
/// A call or an indexed access has no operation of its own: it takes the value of its
/// first part (the callee or base, then the arguments or indices, in order) that does
/// not fail.
pub open spec fn eval_expr(e: ExprModel, env: Seq<(Seq<char>, ValueModel)>, ans: Seq<AnswerModel>, k: nat) -> (
    OutcomeModel,
    nat,
)
    decreases e, 0nat,
{
    match e {
        ExprModel::Literal(l) => literal_outcome(l, ans, k),
        ExprModel::Name(n) => match lookup(env, n) {
            Some(v) => (OutcomeModel::Value(v), k),
            None => (OutcomeModel::Error(ErrorModel::Undefined(n)), k),
        },
        ExprModel::Paren(x) => eval_expr(*x, env, ans, k),
        ExprModel::Field(b, f) => {
            let (o, k1) = eval_expr(*b, env, ans, k);
            match o {
                OutcomeModel::Value(ValueModel::Struct(fields)) => match lookup(fields, f) {
                    Some(v) => (OutcomeModel::Value(v), k1),
                    None => (OutcomeModel::Error(ErrorModel::Undefined(f)), k1),
                },
                OutcomeModel::Value(v) => (
                    OutcomeModel::Error(ErrorModel::Type("STRUCT"@, type_name_of(v))),
                    k1,
                ),
                _ => (o, k1),
            }
        },
        ExprModel::Unary(op, text, x) => {
            let (o, k1) = eval_expr(*x, env, ans, k);
            match o {
                OutcomeModel::Value(v) => (unary_outcome(op, text, v), k1),
                _ => (o, k1),
            }
        },
        ExprModel::Binary(op, text, l, r) => {
            let (ol, k1) = eval_expr(*l, env, ans, k);
            match ol {
                OutcomeModel::Value(a) => {
                    let (or, k2) = eval_expr(*r, env, ans, k1);
                    match or {
                        OutcomeModel::Value(b) => binary_outcome(op, text, a, b, ans, k2),
                        _ => (or, k2),
                    }
                },
                _ => (ol, k1),
            }
        },
        ExprModel::Call(c, args) => {
            let (o, k1) = eval_expr(*c, env, ans, k);
            match o {
                OutcomeModel::Error(_) => eval_parts(args, 0, call_kind(), env, ans, k1),
                _ => (o, k1),
            }
        },
        ExprModel::Index(b, ix) => {
            let (o, k1) = eval_expr(*b, env, ans, k);
            match o {
                OutcomeModel::Error(_) => eval_parts(ix, 0, index_kind(), env, ans, k1),
                _ => (o, k1),
            }
        },
    }
}

/// The first of the parts `cs`, from position `i` on, that does not fail; where all
/// fail, the node of kind `kind` cannot be evaluated.
pub open spec fn eval_parts(
    cs: Seq<ExprModel>,
    i: nat,
    kind: Seq<char>,
    env: Seq<(Seq<char>, ValueModel)>,
    ans: Seq<AnswerModel>,
    k: nat,
) -> (OutcomeModel, nat)
    decreases cs, cs.len() - i,
{
    if i < cs.len() {
        let (o, k1) = eval_expr(cs[i as int], env, ans, k);
        match o {
            OutcomeModel::Error(_) => eval_parts(cs, i + 1, kind, env, ans, k1),
            _ => (o, k1),
        }
    } else {
        (OutcomeModel::Error(cannot_evaluate(kind)), k)
    }
}

/// The message of a text that holds a character that starts no token.
pub open spec fn lex_error_message() -> Seq<char> {
    "unexpected character"@
}

/// The message of tokens that form no expression.
pub open spec fn parse_error_message() -> Seq<char> {
    "unexpected token"@
}

/// The syntax tree of an expression's text, or the syntax error it holds.
pub open spec fn parse_expression(text: Seq<char>) -> Result<ExprModel, ErrorModel> {
    match lex(text) {
        None => Err(ErrorModel::Syntax(lex_error_message())),
        Some(toks) => match parse_tokens(toks) {
            None => Err(ErrorModel::Syntax(parse_error_message())),
            Some(e) => Ok(e),
        },
    }
}

/// The evaluation of an expression's text with the variables `env` and the answers `ans`.
pub open spec fn evaluate(text: Seq<char>, env: Seq<(Seq<char>, ValueModel)>, ans: Seq<AnswerModel>) -> OutcomeModel {
    match parse_expression(text) {
        Err(err) => OutcomeModel::Error(err),
        Ok(e) => eval_expr(e, env, ans, 0).0,
    }
}

/// The executable form of [`OutcomeModel`].
pub enum Outcome {
    Value(Value),
    Error(EvalError),
    Query(RealQuery),
}

impl View for Outcome {
    type V = OutcomeModel;

    open spec fn view(&self) -> OutcomeModel {
        match self {
            Outcome::Value(v) => OutcomeModel::Value(v@),
            Outcome::Error(e) => OutcomeModel::Error(e@),
            Outcome::Query(q) => OutcomeModel::Query(q@),
        }
    }
}

/// Where an evaluation stands: finished with a value, or waiting for the answer
/// to a question about REAL arithmetic.
#[derive(Debug)]
pub enum Evaluation {
    Done(Variable),
    NeedsReal(RealQuery),
}

/// Expression evaluator.
pub struct Evaluator {}

fn ask_exec(q: RealQuery, answers: &Vec<RealAnswer>, k: usize) -> (r: (Outcome, usize))
    ensures
        (r.0@, r.1 as nat) == ask(q@, answers_view(answers@), k as nat),
{
    proof {
        reveal_strlit("Invalid literal");
    }
    if k < answers.len() {
        let a = answers[k];
        let o = match (&q, a) {
            (RealQuery::ParseReal(_), RealAnswer::Number(b)) => Outcome::Value(Value::Real(b)),
            (RealQuery::ParseReal(_), RealAnswer::Unparsable) => Outcome::Error(
                EvalError::SyntaxError(String::from_str("Invalid literal")),
            ),
            (RealQuery::Apply(op, _, _), RealAnswer::Number(b)) => {
                if *op == Operator::Add || *op == Operator::Sub || *op == Operator::Mul || *op
                    == Operator::Div {
                    Outcome::Value(Value::Real(b))
                } else {
                    Outcome::Error(EvalError::RuntimeError(String::from_str("answer does not fit the question")))
                }
            },
            (RealQuery::Apply(op, _, _), RealAnswer::Truth(t)) => {
                if *op == Operator::Lt || *op == Operator::Gt || *op == Operator::Le || *op
                    == Operator::Ge {
                    Outcome::Value(Value::Bool(t))
                } else {
                    Outcome::Error(EvalError::RuntimeError(String::from_str("answer does not fit the question")))
                }
            },
            _ => Outcome::Error(EvalError::RuntimeError(String::from_str("answer does not fit the question"))),
        };
        (o, k + 1)
    } else {
        (Outcome::Query(q), k)
    }
}

/// `text.parse::<i64>()`.
pub fn parse_i64_exec(text: &str) -> (r: Option<i64>)
    ensures
        r == parse_i64(text@),
{
    let s = crate::text::chars_of(text);
    let neg = s.len() > 0 && s[0] == '-';
    let start: usize = if s.len() > 0 && (s[0] == '-' || s[0] == '+') {
        1
    } else {
        0
    };
    let ghost digits = if s@.len() > 0 && (s@[0] == '-' || s@[0] == '+') {
        s@.drop_first()
    } else {
        s@
    };
    assert(digits =~= s@.subrange(start as int, s@.len() as int));
    if start >= s.len() {
        return None;
    }
    // the magnitude, accumulated while it stays within 2^63
    let mut acc: u64 = 0;
    let mut i: usize = start;
    while i < s.len()
        invariant
            s@ == text@,
            start == 0 || start == 1,
            start == 1 <==> (s@.len() > 0 && (s@[0] == '-' || s@[0] == '+')),
            neg == (s@.len() > 0 && s@[0] == '-'),
            start <= i <= s@.len(),
            digits =~= s@.subrange(start as int, s@.len() as int),
            acc as nat == digits_value(s@.subrange(start as int, i as int)),
            acc <= 0x8000_0000_0000_0000,
            all_digits(s@.subrange(start as int, i as int)),
        decreases s.len() - i,
    {
        let c = s[i];
        if !('0' <= c && c <= '9') {
            assert(!all_digits(digits)) by {
                assert(digits[i - start] == c);
            }
            return None;
        }
        let d: u64 = (c as u32 - '0' as u32) as u64;
        assert(s@.subrange(start as int, i + 1).drop_last() =~= s@.subrange(start as int, i as int));
        if acc > (0x8000_0000_0000_0000u64 - d) / 10 {
            // the magnitude exceeds 2^63 already, and more digits only grow it
            proof {
                assert(digits.subrange(0, (i + 1 - start) as int) =~= s@.subrange(start as int, i + 1));
                assert(digits_value(s@.subrange(start as int, i + 1)) == acc * 10 + d);
                assert(acc * 10 + d > 0x8000_0000_0000_0000) by (nonlinear_arith)
                    requires
                        acc > (0x8000_0000_0000_0000u64 - d) / 10,
                        d <= 9,
                ;
                lemma_all_digits_or_none(digits, (i + 1 - start) as nat);
                assert(all_digits(digits) ==> digits_value(digits) > 0x8000_0000_0000_0000);
                let t = text@;
                let dg = if t.len() > 0 && (t[0] == '-' || t[0] == '+') { t.drop_first() } else { t };
                assert(dg == digits);
                assert(parse_i64(text@) is None);
            }
            return None;
        }
        acc = acc * 10 + d;
        i = i + 1;
    }
    assert(s@.subrange(start as int, s@.len() as int) =~= digits);
    if neg {
        if acc == 0x8000_0000_0000_0000u64 {
            Some(i64::MIN)
        } else {
            Some(-(acc as i64))
        }
    } else {
        if acc > 0x7fff_ffff_ffff_ffffu64 {
            None
        } else {
            Some(acc as i64)
        }
    }
}

/// A longer run of digits has at least the value of its prefix.
proof fn lemma_digits_value_prefix(s: Seq<char>, n: nat)
    requires
        n <= s.len(),
        all_digits(s),
    ensures
        digits_value(s.subrange(0, n as int)) <= digits_value(s),
    decreases s.len(),
{
    if n < s.len() {
        assert(s.drop_last().subrange(0, n as int) =~= s.subrange(0, n as int));
        assert(all_digits(s.drop_last()));
        lemma_digits_value_prefix(s.drop_last(), n);
        assert('0' <= s.last());
    } else {
        assert(s.subrange(0, n as int) =~= s);
    }
}

/// Helper: a run of digits whose prefix is too large either is not all digits or is too large.
proof fn lemma_all_digits_or_none(s: Seq<char>, n: nat)
    requires
        n <= s.len(),
    ensures
        all_digits(s) ==> digits_value(s.subrange(0, n as int)) <= digits_value(s),
{
    if all_digits(s) {
        lemma_digits_value_prefix(s, n);
    }
}

/// The error of a result that an INT cannot hold.
fn overflow_error() -> (e: EvalError)
    ensures
        e@ == ErrorModel::Runtime(overflow_message()),
{
    EvalError::RuntimeError(String::from_str("integer overflow"))
}

fn literal_exec(l: &Literal, answers: &Vec<RealAnswer>, k: usize) -> (r: (Outcome, usize))
    ensures
        (r.0@, r.1 as nat) == literal_outcome(crate::parser::literal_view(*l), answers_view(answers@), k as nat),
{
    match l {
        Literal::Int(text) => match parse_i64_exec(text.as_str()) {
            Some(i) => (Outcome::Value(Value::Int(i)), k),
            None => ask_exec(RealQuery::ParseReal(text.clone()), answers, k),
        },
        Literal::Real(text) => ask_exec(RealQuery::ParseReal(text.clone()), answers, k),
        Literal::Str(text) => (Outcome::Value(Value::String(text.clone())), k),
        Literal::Bool(b) => (Outcome::Value(Value::Bool(*b)), k),
    }
}

/// Truncating division of two INTs, when it is defined and fits.
fn int_divide(x: i64, y: i64) -> (r: i64)
    requires
        y != 0,
        in_i64(trunc_div(x as int, y as int)),
    ensures
        r == trunc_div(x as int, y as int),
{
    let ax: u64 = if x < 0 {
        (-(x as i128)) as u64
    } else {
        x as u64
    };
    let ay: u64 = if y < 0 {
        (-(y as i128)) as u64
    } else {
        y as u64
    };
    let q: u64 = ax / ay;
    assert(q <= ax) by (nonlinear_arith)
        requires
            ay >= 1,
            q == ax / ay,
    ;
    if (x < 0) != (y < 0) {
        (-(q as i128)) as i64
    } else {
        q as i64
    }
}

fn not_a_number_exec(v: &Value) -> (o: Outcome)
    ensures
        o@ == not_a_number(v@),
{
    Outcome::Error(EvalError::type_error("number", v.type_label()))
}

fn real_exec(op: Operator, a: &Value, b: &Value, answers: &Vec<RealAnswer>, k: usize) -> (r: (
    Outcome,
    usize,
))
    ensures
        (r.0@, r.1 as nat) == real_outcome(op, a@, b@, answers_view(answers@), k as nat),
{
    match a.as_number() {
        None => (not_a_number_exec(a), k),
        Some(x) => match b.as_number() {
            None => (not_a_number_exec(b), k),
            Some(y) => {
                if op == Operator::Div && y.is_zero() {
                    (Outcome::Error(EvalError::DivisionByZero), k)
                } else {
                    ask_exec(RealQuery::Apply(op, x, y), answers, k)
                }
            },
        },
    }
}

fn int_arith(op: Operator, x: i64, y: i64) -> (o: Outcome)
    requires
        op == Operator::Add || op == Operator::Sub || op == Operator::Mul || op == Operator::Div,
    ensures
        o@ == (if op == Operator::Div && y == 0 {
            OutcomeModel::Error(ErrorModel::DivisionByZero)
        } else if in_i64(int_result(op, x, y)) {
            OutcomeModel::Value(ValueModel::Int(int_result(op, x, y) as i64))
        } else {
            OutcomeModel::Error(ErrorModel::Runtime(overflow_message()))
        }),
{
    let r = match op {
        Operator::Add => x.checked_add(y),
        Operator::Sub => x.checked_sub(y),
        Operator::Mul => x.checked_mul(y),
        _ => {
            if y == 0 {
                return Outcome::Error(EvalError::DivisionByZero);
            }
            if x == i64::MIN && y == -1 {
                assert(trunc_div(x as int, y as int) == 0x8000_0000_0000_0000);
                None
            } else {
                proof {
                    lemma_trunc_div_fits(x, y);
                }
                Some(int_divide(x, y))
            }
        },
    };
    match r {
        Some(z) => Outcome::Value(Value::Int(z)),
        None => Outcome::Error(overflow_error()),
    }
}

proof fn lemma_trunc_div_fits(x: i64, y: i64)
    requires
        y != 0,
        !(x == i64::MIN && y == -1),
    ensures
        in_i64(trunc_div(x as int, y as int)),
{
    let ax: int = if x < 0 { -x } else { x as int };
    let ay: int = if y < 0 { -y } else { y as int };
    let q = ax / ay;
    assert(0 <= q <= ax) by (nonlinear_arith)
        requires
            ay >= 1,
            ax >= 0,
            q == ax / ay,
    ;
    if ax == 0x8000_0000_0000_0000 && ay == 1 {
    } else if ax == 0x8000_0000_0000_0000 {
        assert(q < 0x8000_0000_0000_0000) by (nonlinear_arith)
            requires
                ay >= 2,
                q == ax / ay,
                ax == 0x8000_0000_0000_0000,
        ;
    }
}

fn logic_error(op: Operator, a: &Value, b: &Value) -> (o: Outcome)
    requires
        op == Operator::And || op == Operator::Or || op == Operator::Xor,
    ensures
        o@ == OutcomeModel::Error(
            ErrorModel::Type("BOOL"@, type_name_of(a@) + logic_name(op) + type_name_of(b@)),
        ),
{
    let name = if op == Operator::And {
        " AND "
    } else if op == Operator::Or {
        " OR "
    } else {
        " XOR "
    };
    let actual = concat3(a.type_label(), name, b.type_label());
    Outcome::Error(EvalError::type_error("BOOL", actual.as_str()))
}

fn binary_exec(
    op: Operator,
    text: &String,
    a: &Value,
    b: &Value,
    answers: &Vec<RealAnswer>,
    k: usize,
) -> (r: (Outcome, usize))
    ensures
        (r.0@, r.1 as nat) == binary_outcome(op, text@, a@, b@, answers_view(answers@), k as nat),
{
    if op == Operator::Add || op == Operator::Sub || op == Operator::Mul || op == Operator::Div {
        match (a, b) {
            (Value::Int(x), Value::Int(y)) => (int_arith(op, *x, *y), k),
            _ => real_exec(op, a, b, answers, k),
        }
    } else if op == Operator::Eq {
        (Outcome::Value(Value::Bool(values_equal(a, b))), k)
    } else if op == Operator::Ne {
        (Outcome::Value(Value::Bool(!values_equal(a, b))), k)
    } else if op == Operator::Lt || op == Operator::Gt || op == Operator::Le || op == Operator::Ge {
        match (a, b) {
            (Value::Int(x), Value::Int(y)) => {
                let t = match op {
                    Operator::Lt => *x < *y,
                    Operator::Gt => *x > *y,
                    Operator::Le => *x <= *y,
                    _ => *x >= *y,
                };
                (Outcome::Value(Value::Bool(t)), k)
            },
            _ => real_exec(op, a, b, answers, k),
        }
    } else if op == Operator::And || op == Operator::Or || op == Operator::Xor {
        match (a, b) {
            (Value::Bool(x), Value::Bool(y)) => {
                let t = if op == Operator::And {
                    *x && *y
                } else if op == Operator::Or {
                    *x || *y
                } else {
                    *x != *y
                };
                (Outcome::Value(Value::Bool(t)), k)
            },
            _ => (logic_error(op, a, b), k),
        }
    } else {
        (
            Outcome::Error(
                EvalError::UnsupportedOperation(concat2("Unknown operator: ", text.as_str())),
            ),
            k,
        )
    }
}

fn unary_exec(op: Operator, text: &String, v: &Value) -> (o: Outcome)
    ensures
        o@ == unary_outcome(op, text@, v@),
{
    if op == Operator::Not {
        match v {
            Value::Bool(b) => Outcome::Value(Value::Bool(!*b)),
            _ => Outcome::Error(EvalError::type_error("BOOL", v.type_label())),
        }
    } else if op == Operator::Sub {
        match v {
            Value::Int(i) => {
                if *i == i64::MIN {
                    Outcome::Error(overflow_error())
                } else {
                    Outcome::Value(Value::Int(-*i))
                }
            },
            Value::Real(r) => Outcome::Value(Value::Real(r.negate())),
            _ => not_a_number_exec(v),
        }
    } else {
        Outcome::Error(
            EvalError::UnsupportedOperation(concat2("Unknown unary operator: ", text.as_str())),
        )
    }
}

fn eval_node(e: &Expr, vars: &Vec<(String, Variable)>, answers: &Vec<RealAnswer>, k: usize) -> (r: (
    Outcome,
    usize,
))
    ensures
        (r.0@, r.1 as nat) == eval_expr(e@, variables_view(vars@), answers_view(answers@), k as nat),
    decreases e, 0usize,
{
    match e {
        Expr::Literal(l) => literal_exec(l, answers, k),
        Expr::Name(n) => match find_variable(vars, n) {
            Some(var) => (Outcome::Value(var.value().duplicate()), k),
            None => (Outcome::Error(EvalError::UndefinedVariable(n.clone())), k),
        },
        Expr::Paren(x) => eval_node(x, vars, answers, k),
        Expr::Field(b, f) => {
            let (o, k1) = eval_node(b, vars, answers, k);
            match o {
                Outcome::Value(Value::Struct(fields)) => {
                    proof {
                        lemma_fields_view(fields@);
                    }
                    match find_field(&fields, f) {
                        Some(v) => (Outcome::Value(v.duplicate()), k1),
                        None => (Outcome::Error(EvalError::UndefinedVariable(f.clone())), k1),
                    }
                },
                Outcome::Value(v) => (
                    Outcome::Error(EvalError::type_error("STRUCT", v.type_label())),
                    k1,
                ),
                _ => (o, k1),
            }
        },
        Expr::Unary(op, text, x) => {
            let (o, k1) = eval_node(x, vars, answers, k);
            match o {
                Outcome::Value(v) => (unary_exec(*op, text, &v), k1),
                _ => (o, k1),
            }
        },
        Expr::Binary(op, text, l, r) => {
            let (ol, k1) = eval_node(l, vars, answers, k);
            match ol {
                Outcome::Value(a) => {
                    let (or, k2) = eval_node(r, vars, answers, k1);
                    match or {
                        Outcome::Value(b) => binary_exec(*op, text, &a, &b, answers, k2),
                        _ => (or, k2),
                    }
                },
                _ => (ol, k1),
            }
        },
        Expr::Call(c, args) => {
            let (o, k1) = eval_node(c, vars, answers, k);
            match o {
                Outcome::Error(_) => eval_parts_exec(args, 0, "CallExpr", vars, answers, k1),
                _ => (o, k1),
            }
        },
        Expr::Index(b, ix) => {
            let (o, k1) = eval_node(b, vars, answers, k);
            match o {
                Outcome::Error(_) => eval_parts_exec(ix, 0, "IndexExpr", vars, answers, k1),
                _ => (o, k1),
            }
        },
    }
}

fn eval_parts_exec(
    cs: &Vec<Expr>,
    i: usize,
    kind: &str,
    vars: &Vec<(String, Variable)>,
    answers: &Vec<RealAnswer>,
    k: usize,
) -> (r: (Outcome, usize))
    requires
        i <= cs@.len(),
    ensures
        (r.0@, r.1 as nat) == eval_parts(
            exprs_view(cs@, 0),
            i as nat,
            kind@,
            variables_view(vars@),
            answers_view(answers@),
            k as nat,
        ),
    decreases cs, cs@.len() - i,
{
    proof {
        lemma_exprs_view(cs@, 0);
    }
    if i < cs.len() {
        assert(exprs_view(cs@, 0)[i as int] == crate::parser::expr_view(cs@[0 + i]));
        let (o, k1) = eval_node(&cs[i], vars, answers, k);
        match o {
            Outcome::Error(_) => eval_parts_exec(cs, i + 1, kind, vars, answers, k1),
            _ => (o, k1),
        }
    } else {
        (
            Outcome::Error(
                EvalError::UnsupportedOperation(concat2("Cannot evaluate node kind: ", kind)),
            ),
            k,
        )
    }
}

/// Where an evaluation that ends with `o` stands.
pub open spec fn evaluation_matches(r: Result<Evaluation, EvalError>, o: OutcomeModel) -> bool {
    match r {
        Ok(Evaluation::Done(v)) => o == OutcomeModel::Value(v@),
        Ok(Evaluation::NeedsReal(q)) => o == OutcomeModel::Query(q@),
        Err(e) => o == OutcomeModel::Error(e@),
    }
}

fn finish(o: Outcome) -> (r: Result<Evaluation, EvalError>)
    ensures
        evaluation_matches(r, o@),
{
    match o {
        Outcome::Value(v) => Ok(Evaluation::Done(Variable::from_value(v))),
        Outcome::Query(q) => Ok(Evaluation::NeedsReal(q)),
        Outcome::Error(e) => Err(e),
    }
}

impl Evaluator {
    pub fn new() -> (e: Self) {
        Evaluator {  }
    }

    /// The syntax tree of an expression's text.
    pub fn parse(&self, expression: &str) -> (r: Result<Expr, EvalError>)
        ensures
            match r {
                Ok(e) => parse_expression(expression@) == Ok::<ExprModel, ErrorModel>(e@),
                Err(err) => parse_expression(expression@) == Err::<ExprModel, ErrorModel>(err@),
            },
    {
        match tokenize(expression) {
            None => Err(EvalError::SyntaxError(String::from_str("unexpected character"))),
            Some(toks) => match parse_token_list(&toks) {
                None => Err(EvalError::SyntaxError(String::from_str("unexpected token"))),
                Some(e) => Ok(e),
            },
        }
    }

    /// Evaluates a syntax tree with the given variables and the answers given so far
    /// to its questions about REAL arithmetic.
    pub fn eval_expr(
        &self,
        expr: &Expr,
        variables: &Vec<(String, Variable)>,
        answers: &Vec<RealAnswer>,
    ) -> (r: Result<Evaluation, EvalError>)
        ensures
            evaluation_matches(
                r,
                eval_expr(expr@, variables_view(variables@), answers_view(answers@), 0).0,
            ),
    {
        let (o, _) = eval_node(expr, variables, answers, 0);
        finish(o)
    }

    /// Evaluates an expression's text with the given variables and the answers given
    /// so far to its questions about REAL arithmetic. A `NeedsReal` result asks the next
    /// question: evaluate again with its answer appended to `answers`.
    pub fn eval(
        &self,
        expression: &str,
        variables: &Vec<(String, Variable)>,
        answers: &Vec<RealAnswer>,
    ) -> (r: Result<Evaluation, EvalError>)
        ensures
            evaluation_matches(
                r,
                evaluate(expression@, variables_view(variables@), answers_view(answers@)),
            ),
    {
        match self.parse(expression) {
            Err(e) => Err(e),
            Ok(expr) => self.eval_expr(&expr, variables, answers),
        }
    }
}

impl Default for Evaluator {
    fn default() -> (e: Self) {
        Evaluator::new()
    }
}

/// How many questions about REAL arithmetic an expression can ask at most:
/// one per number literal and one per binary operator.
pub open spec fn real_sites(e: ExprModel) -> nat
    decreases e, 0nat,
{
    match e {
        ExprModel::Literal(l) => match l {
            LiteralModel::Int(_) | LiteralModel::Real(_) => 1,
            _ => 0,
        },
        ExprModel::Name(_) => 0,
        ExprModel::Paren(x) => real_sites(*x),
        ExprModel::Field(b, _) => real_sites(*b),
        ExprModel::Unary(_, _, x) => real_sites(*x),
        ExprModel::Binary(_, _, l, r) => 1 + real_sites(*l) + real_sites(*r),
        ExprModel::Call(c, args) => real_sites(*c) + parts_sites(args, 0),
        ExprModel::Index(b, ix) => real_sites(*b) + parts_sites(ix, 0),
    }
}

/// How many questions the parts `cs`, from position `i` on, can ask at most.
pub open spec fn parts_sites(cs: Seq<ExprModel>, i: nat) -> nat
    decreases cs, cs.len() - i,
{
    if i < cs.len() {
        real_sites(cs[i as int]) + parts_sites(cs, i + 1)
    } else {
        0
    }
}

proof fn lemma_ask_bounds(q: QueryModel, ans: Seq<AnswerModel>, ext: Seq<AnswerModel>, k: nat)
    requires
        k <= ans.len(),
    ensures
        k <= ask(q, ans, k).1 <= ans.len(),
        ask(q, ans, k).1 <= k + 1,
        !(ask(q, ans, k).0 is Query) ==> ask(q, ans + ext, k) == ask(q, ans, k),
        ask(q, ans, k).0 is Query ==> ask(q, ans, k).1 == ans.len() && ask(q, ans + ext, k).1 >= k
            && (ext.len() > 0 ==> ask(q, ans + ext, k).1 > ans.len()),
{
    if k < ans.len() {
        assert((ans + ext)[k as int] == ans[k as int]);
    }
}

proof fn lemma_binary_outcome_answers(
    op: Operator,
    text: Seq<char>,
    a: ValueModel,
    b: ValueModel,
    ans: Seq<AnswerModel>,
    ext: Seq<AnswerModel>,
    k: nat,
)
    requires
        k <= ans.len(),
    ensures
        ({
            let (o, k2) = binary_outcome(op, text, a, b, ans, k);
            let (o2, k3) = binary_outcome(op, text, a, b, ans + ext, k);
            &&& k <= k2 <= ans.len()
            &&& k2 <= k + 1
            &&& k <= k3
            &&& !(o is Query) ==> (o2, k3) == (o, k2)
            &&& o is Query ==> k2 == ans.len() && (ext.len() > 0 ==> k3 > ans.len())
        }),
{
    match number_of(a) {
        Some(x) => match number_of(b) {
            Some(y) => {
                lemma_ask_bounds(QueryModel::Apply(op, x, y), ans, ext, k);
                lemma_ask_bounds(QueryModel::Apply(op, x, y), ans + ext, Seq::empty(), k);
            },
            None => {},
        },
        None => {},
    }
}

proof fn lemma_literal_outcome_answers(l: LiteralModel, ans: Seq<AnswerModel>, ext: Seq<AnswerModel>, k: nat)
    requires
        k <= ans.len(),
    ensures
        ({
            let (o, k2) = literal_outcome(l, ans, k);
            let (o2, k3) = literal_outcome(l, ans + ext, k);
            &&& k <= k2 <= ans.len()
            &&& k2 <= k + 1
            &&& k <= k3
            &&& !(o is Query) ==> (o2, k3) == (o, k2)
            &&& o is Query ==> k2 == ans.len() && (ext.len() > 0 ==> k3 > ans.len())
        }),
{
    match l {
        LiteralModel::Int(text) => {
            lemma_ask_bounds(QueryModel::ParseReal(text), ans, ext, k);
            lemma_ask_bounds(QueryModel::ParseReal(text), ans + ext, Seq::empty(), k);
        },
        LiteralModel::Real(text) => {
            lemma_ask_bounds(QueryModel::ParseReal(text), ans, ext, k);
            lemma_ask_bounds(QueryModel::ParseReal(text), ans + ext, Seq::empty(), k);
        },
        _ => {},
    }
}

/// Evaluation uses answers in order and asks only when they are used up:
/// starting at answer `k`, it uses at most `real_sites(e)` answers, never beyond the
/// ones given, and stops with a question only when all are used. Answers beyond the
/// ones it uses do not change how it ends; and when it stopped with a question, one
/// more answer lets it use more answers than before. So a host that answers each
/// question and evaluates again is done after at most `real_sites(e) + 1` rounds.
pub proof fn lemma_answers_in_order(
    e: ExprModel,
    env: Seq<(Seq<char>, ValueModel)>,
    ans: Seq<AnswerModel>,
    ext: Seq<AnswerModel>,
    k: nat,
)
    requires
        k <= ans.len(),
    ensures
        ({
            let (o, k2) = eval_expr(e, env, ans, k);
            let (o2, k3) = eval_expr(e, env, ans + ext, k);
            &&& k <= k2 <= ans.len()
            &&& k2 <= k + real_sites(e)
            &&& k <= k3
            &&& !(o is Query) ==> (o2, k3) == (o, k2)
            &&& o is Query ==> k2 == ans.len() && (ext.len() > 0 ==> k3 > ans.len())
        }),
    decreases e, 1nat,
{
    let ans2 = ans + ext;
    match e {
        ExprModel::Literal(l) => lemma_literal_outcome_answers(l, ans, ext, k),
        ExprModel::Name(_) => {},
        ExprModel::Paren(x) => lemma_answers_in_order(*x, env, ans, ext, k),
        ExprModel::Field(b, _) => lemma_answers_in_order(*b, env, ans, ext, k),
        ExprModel::Unary(_, _, x) => lemma_answers_in_order(*x, env, ans, ext, k),
        ExprModel::Binary(op, text, l, r) => {
            lemma_answers_in_order(*l, env, ans, ext, k);
            let (ol, k1) = eval_expr(*l, env, ans, k);
            let (ol2, k1b) = eval_expr(*l, env, ans2, k);
            if let OutcomeModel::Value(a) = ol {
                lemma_answers_in_order(*r, env, ans, ext, k1);
                let (or, k2) = eval_expr(*r, env, ans, k1);
                if let OutcomeModel::Value(b) = or {
                    lemma_binary_outcome_answers(op, text, a, b, ans, ext, k2);
                }
            } else if ol is Query {
                // the left operand stopped; with more answers it goes on from k1b
                lemma_answers_in_order(*l, env, ans2, Seq::empty(), k);
                if let OutcomeModel::Value(a2) = ol2 {
                    lemma_answers_in_order(*r, env, ans2, Seq::empty(), k1b);
                    assert(ans2 + Seq::<AnswerModel>::empty() =~= ans2);
                    let (or2, k2b) = eval_expr(*r, env, ans2, k1b);
                    if let OutcomeModel::Value(b2) = or2 {
                        lemma_binary_outcome_answers(op, text, a2, b2, ans2, Seq::empty(), k2b);
                    }
                }
            }
        },
        ExprModel::Call(_, _) | ExprModel::Index(_, _) => {
            lemma_first_part_answers(e, env, ans, ext, k);
        },
    }
}

/// [`lemma_answers_in_order`] for a call or an indexed access.
proof fn lemma_first_part_answers(
    e: ExprModel,
    env: Seq<(Seq<char>, ValueModel)>,
    ans: Seq<AnswerModel>,
    ext: Seq<AnswerModel>,
    k: nat,
)
    requires
        k <= ans.len(),
        e is Call || e is Index,
    ensures
        ({
            let (o, k2) = eval_expr(e, env, ans, k);
            let (o2, k3) = eval_expr(e, env, ans + ext, k);
            &&& k <= k2 <= ans.len()
            &&& k2 <= k + real_sites(e)
            &&& k <= k3
            &&& !(o is Query) ==> (o2, k3) == (o, k2)
            &&& o is Query ==> k2 == ans.len() && (ext.len() > 0 ==> k3 > ans.len())
        }),
    decreases e, 0nat,
{
    let ans2 = ans + ext;
    let (c, cs, kind) = match e {
        ExprModel::Call(c, args) => (*c, args, call_kind()),
        ExprModel::Index(b, ix) => (*b, ix, index_kind()),
        _ => (e, Seq::empty(), Seq::empty()),
    };
    lemma_answers_in_order(c, env, ans, ext, k);
    let (oc, k1) = eval_expr(c, env, ans, k);
    let (oc2, k1b) = eval_expr(c, env, ans2, k);
    if oc is Error {
        lemma_parts_answers(cs, 0, kind, env, ans, ext, k1);
    } else if oc is Query {
        lemma_answers_in_order(c, env, ans2, Seq::empty(), k);
        assert(ans2 + Seq::<AnswerModel>::empty() =~= ans2);
        if oc2 is Error {
            lemma_parts_answers(cs, 0, kind, env, ans2, Seq::empty(), k1b);
        }
    }
}

/// [`lemma_answers_in_order`] for the parts `cs` from position `i` on.
proof fn lemma_parts_answers(
    cs: Seq<ExprModel>,
    i: nat,
    kind: Seq<char>,
    env: Seq<(Seq<char>, ValueModel)>,
    ans: Seq<AnswerModel>,
    ext: Seq<AnswerModel>,
    k: nat,
)
    requires
        k <= ans.len(),
    ensures
        ({
            let (o, k2) = eval_parts(cs, i, kind, env, ans, k);
            let (o2, k3) = eval_parts(cs, i, kind, env, ans + ext, k);
            &&& k <= k2 <= ans.len()
            &&& k2 <= k + parts_sites(cs, i)
            &&& k <= k3
            &&& !(o is Query) ==> (o2, k3) == (o, k2)
            &&& o is Query ==> k2 == ans.len() && (ext.len() > 0 ==> k3 > ans.len())
        }),
    decreases cs, cs.len() - i,
{
    if i < cs.len() {
        let ans2 = ans + ext;
        lemma_answers_in_order(cs[i as int], env, ans, ext, k);
        let (o, k1) = eval_expr(cs[i as int], env, ans, k);
        let (o2, k1b) = eval_expr(cs[i as int], env, ans2, k);
        if o is Error {
            lemma_parts_answers(cs, i + 1, kind, env, ans, ext, k1);
        } else if o is Query {
            lemma_answers_in_order(cs[i as int], env, ans2, Seq::empty(), k);
            assert(ans2 + Seq::<AnswerModel>::empty() =~= ans2);
            if o2 is Error {
                lemma_parts_answers(cs, i + 1, kind, env, ans2, Seq::empty(), k1b);
            }
        }
    }
}

/// INT operands compute and compare as integers: `<`, `<=`, `>`, `>=`, `=` and `<>`
/// give the truth of the integer relation (so `x <= x` is TRUE); `+`, `-` and `*`
/// give the exact integer result where an INT holds it, and an overflow error where
/// it does not. None of them asks a question.
pub proof fn lemma_int_operators(
    op: Operator,
    text: Seq<char>,
    x: i64,
    y: i64,
    ans: Seq<AnswerModel>,
    k: nat,
)
    ensures
        ({
            let (o, k2) = binary_outcome(op, text, ValueModel::Int(x), ValueModel::Int(y), ans, k);
            let truth = |b: bool| OutcomeModel::Value(ValueModel::Bool(b));
            let exact = |v: int| if i64::MIN <= v <= i64::MAX {
                OutcomeModel::Value(ValueModel::Int(v as i64))
            } else {
                OutcomeModel::Error(ErrorModel::Runtime("integer overflow"@))
            };
            &&& k2 == k
            &&& op == Operator::Lt ==> o == truth((x as int) < (y as int))
            &&& op == Operator::Le ==> o == truth((x as int) <= (y as int))
            &&& op == Operator::Gt ==> o == truth((x as int) > (y as int))
            &&& op == Operator::Ge ==> o == truth((x as int) >= (y as int))
            &&& op == Operator::Eq ==> o == truth(x == y)
            &&& op == Operator::Ne ==> o == truth(x != y)
            &&& op == Operator::Add ==> o == exact(x + y)
            &&& op == Operator::Sub ==> o == exact(x - y)
            &&& op == Operator::Mul ==> o == exact(x * y)
        }),
{
}

/// BOOL operands combine as truth values: `AND` is conjunction, `OR` disjunction and
/// `XOR` exclusive or.
pub proof fn lemma_bool_operators(
    op: Operator,
    text: Seq<char>,
    x: bool,
    y: bool,
    ans: Seq<AnswerModel>,
    k: nat,
)
    ensures
        ({
            let (o, k2) = binary_outcome(op, text, ValueModel::Bool(x), ValueModel::Bool(y), ans, k);
            &&& op == Operator::And ==> o == OutcomeModel::Value(ValueModel::Bool(x && y)) && k2 == k
            &&& op == Operator::Or ==> o == OutcomeModel::Value(ValueModel::Bool(x || y)) && k2 == k
            &&& op == Operator::Xor ==> o == OutcomeModel::Value(ValueModel::Bool(x != y)) && k2 == k
        }),
{
}

/// INT division truncates toward zero: the quotient `q` leaves a remainder
/// `x - q * y` smaller than the divisor in magnitude and of the sign of `x` (or zero).
/// A zero divisor is a division by zero, and the one quotient an INT cannot hold
/// (the smallest INT by -1) an overflow.
pub proof fn lemma_int_division(text: Seq<char>, x: i64, y: i64, ans: Seq<AnswerModel>, k: nat)
    ensures
        ({
            let (o, k2) = binary_outcome(Operator::Div, text, ValueModel::Int(x), ValueModel::Int(y), ans, k);
            &&& k2 == k
            &&& y == 0 ==> o == OutcomeModel::Error(ErrorModel::DivisionByZero)
            &&& x == i64::MIN && y == -1 ==> o == OutcomeModel::Error(
                ErrorModel::Runtime("integer overflow"@),
            )
            &&& y != 0 && !(x == i64::MIN && y == -1) ==> (o matches OutcomeModel::Value(
                ValueModel::Int(q),
            ) && {
                let r = x - q * y;
                &&& (if r < 0 { -r } else { r }) < (if y < 0 { -y } else { y as int })
                &&& (r == 0 || (r < 0) == (x < 0))
            })
        }),
{
    if y != 0 && !(x == i64::MIN && y == -1) {
        lemma_trunc_div_fits(x, y);
        let xi = x as int;
        let yi = y as int;
        let ax: int = if xi < 0 { -xi } else { xi };
        let ay: int = if yi < 0 { -yi } else { yi };
        let qq = ax / ay;
        let rr = ax % ay;
        assert(ax == qq * ay + rr && 0 <= rr < ay) by (nonlinear_arith)
            requires
                ay > 0,
                qq == ax / ay,
                rr == ax % ay,
        ;
        let q = trunc_div(xi, yi);
        // |x| = |q| |y| + rr with the signs put back
        if xi >= 0 && yi > 0 {
            assert(xi - q * yi == rr);
        } else if xi >= 0 && yi < 0 {
            assert(q == -qq);
            assert(xi - q * yi == rr) by (nonlinear_arith)
                requires
                    q == -qq,
                    ay == -yi,
                    xi == qq * ay + rr,
            ;
        } else if xi < 0 && yi > 0 {
            assert(q == -qq);
            assert(xi - q * yi == -rr) by (nonlinear_arith)
                requires
                    q == -qq,
                    ay == yi,
                    -xi == qq * ay + rr,
            ;
        } else {
            assert(q == qq);
            assert(xi - q * yi == -rr) by (nonlinear_arith)
                requires
                    q == qq,
                    ay == -yi,
                    -xi == qq * ay + rr,
            ;
        }
    }
}

/// Prefix operators: `NOT` negates a BOOL; `-` negates an INT other than the smallest
/// (`x + (-x) == 0`) and flips only the sign bit of a REAL.
pub proof fn lemma_unary_operators(text: Seq<char>, v: ValueModel)
    ensures
        v is Bool ==> unary_outcome(Operator::Not, text, v) == OutcomeModel::Value(
            ValueModel::Bool(!v->Bool_0),
        ),
        v is Int && v->Int_0 != i64::MIN ==> (unary_outcome(Operator::Sub, text, v) matches OutcomeModel::Value(
            ValueModel::Int(j),
        ) && v->Int_0 + j == 0),
        v is Real ==> (unary_outcome(Operator::Sub, text, v) matches OutcomeModel::Value(
            ValueModel::Real(n),
        ) && n ^ v->Real_0 == 0x8000_0000_0000_0000u64),
{
    if let ValueModel::Real(r) = v {
        assert((r ^ 0x8000_0000_0000_0000u64) ^ r == 0x8000_0000_0000_0000u64) by (bit_vector);
    }
}

/// Double negation: applying `NOT` twice to a BOOL, or `-` twice to an INT other than
/// the smallest (whose negation overflows) or to any REAL, gives the value back.
pub proof fn lemma_double_negation(op: Operator, t1: Seq<char>, t2: Seq<char>, v: ValueModel)
    requires
        (op == Operator::Not && v is Bool) || (op == Operator::Sub && (v is Real || (
        v matches ValueModel::Int(i) && i != i64::MIN))),
    ensures
        unary_outcome(op, t1, v) matches OutcomeModel::Value(w) && unary_outcome(op, t2, w)
            == OutcomeModel::Value(v),
{
    if let ValueModel::Real(r) = v {
        assert(r ^ 0x8000_0000_0000_0000u64 ^ 0x8000_0000_0000_0000u64 == r) by (bit_vector);
    }
}

/// A name that is written as an identifier: a letter or `_`, then letters, digits
/// and `_`, and no keyword.
pub open spec fn is_identifier(s: Seq<char>) -> bool {
    &&& s.len() > 0
    &&& is_letter(s[0])
    &&& forall|i: int| 0 <= i < s.len() ==> is_word_char(#[trigger] s[i])
    &&& word_token(s) == TokenModel::Ident(s)
}

proof fn lemma_word_end_all(s: Seq<char>, i: nat)
    requires
        i <= s.len(),
        forall|x: int| 0 <= x < s.len() ==> is_word_char(#[trigger] s[x]),
    ensures
        word_end(s, i) == s.len(),
    decreases s.len() - i,
{
    if i < s.len() {
        assert(is_word_char(s[i as int]));
        lemma_word_end_all(s, i + 1);
    }
}

/// Variable substitution: the text that names a variable evaluates to the value of
/// the first variable of that name, and a name that no variable has is an
/// `UndefinedVariable` error.
pub proof fn lemma_name_evaluates_to_variable(
    name: Seq<char>,
    env: Seq<(Seq<char>, ValueModel)>,
    ans: Seq<AnswerModel>,
)
    requires
        is_identifier(name),
    ensures
        evaluate(name, env, ans) == match lookup(env, name) {
            Some(v) => OutcomeModel::Value(v),
            None => OutcomeModel::Error(ErrorModel::Undefined(name)),
        },
{
    lemma_word_end_all(name, 1);
    assert(name.subrange(0, name.len() as int) =~= name);
    assert(lex_from(name, name.len()) == Some(Seq::<TokenModel>::empty()));
    let t = seq![TokenModel::Ident(name)];
    assert(seq![word_token(name)] + Seq::<TokenModel>::empty() =~= t);
    assert(lex(name) == Some(t));
    let e = ExprModel::Name(name);
    assert(parse_rank(t, 0, 0) == Some((e, 1nat)));
    assert(parse_postfix(t, e, 1) == Some((e, 1nat)));
    assert(parse_rank(t, 1, 0) == Some((e, 1nat)));
    assert(parse_more(t, 2, e, 1) == Some((e, 1nat)));
    assert(parse_rank(t, 2, 0) == Some((e, 1nat)));
    assert(parse_rank(t, 3, 0) == Some((e, 1nat)));
    assert(parse_more(t, 4, e, 1) == Some((e, 1nat)));
    assert(parse_rank(t, 4, 0) == Some((e, 1nat)));
    assert(parse_more(t, 5, e, 1) == Some((e, 1nat)));
    assert(parse_rank(t, 5, 0) == Some((e, 1nat)));
    assert(parse_more(t, 6, e, 1) == Some((e, 1nat)));
    assert(parse_rank(t, 6, 0) == Some((e, 1nat)));
    assert(parse_more(t, 7, e, 1) == Some((e, 1nat)));
    assert(parse_rank(t, 7, 0) == Some((e, 1nat)));
    assert(parse_more(t, 8, e, 1) == Some((e, 1nat)));
    assert(parse_rank(t, 8, 0) == Some((e, 1nat)));
    assert(parse_more(t, 9, e, 1) == Some((e, 1nat)));
    assert(parse_rank(t, 9, 0) == Some((e, 1nat)));
    assert(parse_more(t, 10, e, 1) == Some((e, 1nat)));
    assert(parse_rank(t, 10, 0) == Some((e, 1nat)));
}

} // verus!
