use vstd::prelude::*;
use crate::syntax::{Operator, Token, TokenModel, tokens_view};

verus! {

/// A literal as written in an expression.
#[derive(Debug)]
pub enum Literal {
    /// An integer literal: its digits.
    Int(String),
    /// A real literal: its text.
    Real(String),
    /// A string literal: the text between its quotes.
    Str(String),
    Bool(bool),
}

/// The syntax tree of a Structured Text expression.
#[derive(Debug)]
pub enum Expr {
    Literal(Literal),
    /// A variable reference.
    Name(String),
    /// Access to a field of a structured value.
    Field(Box<Expr>, String),
    /// A prefix operator (`-` or `NOT`), its text, and its operand.
    Unary(Operator, String, Box<Expr>),
    /// A binary operator, its text, and its operands.
    Binary(Operator, String, Box<Expr>, Box<Expr>),
    /// A parenthesized expression.
    Paren(Box<Expr>),
    /// A call: the callee and the arguments.
    Call(Box<Expr>, Vec<Expr>),
    /// An indexed access: the base and the indices.
    Index(Box<Expr>, Vec<Expr>),
}

/// The mathematical model of a [`Literal`].
pub enum LiteralModel {
    Int(Seq<char>),
    Real(Seq<char>),
    Str(Seq<char>),
    Bool(bool),
}

/// The mathematical model of an [`Expr`].
pub enum ExprModel {
    Literal(LiteralModel),
    Name(Seq<char>),
    Field(Box<ExprModel>, Seq<char>),
    Unary(Operator, Seq<char>, Box<ExprModel>),
    Binary(Operator, Seq<char>, Box<ExprModel>, Box<ExprModel>),
    Paren(Box<ExprModel>),
    Call(Box<ExprModel>, Seq<ExprModel>),
    Index(Box<ExprModel>, Seq<ExprModel>),
}

pub open spec fn literal_view(l: Literal) -> LiteralModel {
    match l {
        Literal::Int(s) => LiteralModel::Int(s@),
        Literal::Real(s) => LiteralModel::Real(s@),
        Literal::Str(s) => LiteralModel::Str(s@),
        Literal::Bool(b) => LiteralModel::Bool(b),
    }
}

/// The model of an expression tree.
pub open spec fn expr_view(e: Expr) -> ExprModel
    decreases e, 0nat,
{
    match e {
        Expr::Literal(l) => ExprModel::Literal(literal_view(l)),
        Expr::Name(n) => ExprModel::Name(n@),
        Expr::Field(b, f) => ExprModel::Field(Box::new(expr_view(*b)), f@),
        Expr::Unary(o, t, x) => ExprModel::Unary(o, t@, Box::new(expr_view(*x))),
        Expr::Binary(o, t, l, r) => ExprModel::Binary(
            o,
            t@,
            Box::new(expr_view(*l)),
            Box::new(expr_view(*r)),
        ),
        Expr::Paren(x) => ExprModel::Paren(Box::new(expr_view(*x))),
        Expr::Call(c, args) => ExprModel::Call(Box::new(expr_view(*c)), exprs_view(args@, 0)),
        Expr::Index(b, ix) => ExprModel::Index(Box::new(expr_view(*b)), exprs_view(ix@, 0)),
    }
}

/// The models of the expressions of `s` from position `i` on.
pub open spec fn exprs_view(s: Seq<Expr>, i: nat) -> Seq<ExprModel>
    decreases s, s.len() - i,
{
    if i < s.len() {
        seq![expr_view(s[i as int])] + exprs_view(s, i + 1)
    } else {
        Seq::empty()
    }
}

/// The models of a list of expressions, element by element.
pub proof fn lemma_exprs_view(s: Seq<Expr>, i: nat)
    requires
        i <= s.len(),
    ensures
        exprs_view(s, i).len() == s.len() - i,
        forall|j: int| 0 <= j < s.len() - i ==> #[trigger] exprs_view(s, i)[j] == expr_view(s[i + j]),
    decreases s.len() - i,
{
    if i < s.len() {
        lemma_exprs_view(s, i + 1);
        assert forall|j: int| 0 <= j < s.len() - i implies #[trigger] exprs_view(s, i)[j] == expr_view(
            s[i + j],
        ) by {
            if j > 0 {
                assert(exprs_view(s, i)[j] == exprs_view(s, i + 1)[j - 1]);
                assert(s[(i + 1) + (j - 1)] == s[i + j]);
            }
        }
    }
}

impl View for Expr {
    type V = ExprModel;

    open spec fn view(&self) -> ExprModel {
        expr_view(*self)
    }
}

/// The binding rank of a binary operator token; operators of a lower rank bind tighter.
/// `OR` 10, `XOR` 9, `AND`/`&` 8, `=`/`<>` 7, `<`/`>`/`<=`/`>=` 6, `+`/`-` 5,
/// `*`/`/`/`MOD` 4, `**` 2. Rank 3 is that of the prefix operators, 1 that of the
/// postfix operations (field access, call, index), 0 that of literals, names and
/// parentheses.
pub open spec fn binary_rank(t: TokenModel) -> Option<nat> {
    match t {
        TokenModel::Op(op, _) => match op {
            Operator::Or => Some(10),
            Operator::Xor => Some(9),
            Operator::And | Operator::Ampersand => Some(8),
            Operator::Eq | Operator::Ne => Some(7),
            Operator::Lt | Operator::Gt | Operator::Le | Operator::Ge => Some(6),
            Operator::Add | Operator::Sub => Some(5),
            Operator::Mul | Operator::Div | Operator::Mod => Some(4),
            Operator::Pow => Some(2),
            Operator::Not => None,
        },
        _ => None,
    }
}

/// The rank of a whole expression.
pub open spec fn top_rank() -> nat {
    10
}

/// The postfix operations that follow the operand `e`, which ends at `p`, applied left
/// to right: field accesses `.name`, calls `(arguments)` and indexed accesses
/// `[indices]`; `None` where a call or an index is not well formed.
pub open spec fn parse_postfix(t: Seq<TokenModel>, e: ExprModel, p: nat) -> Option<(ExprModel, nat)>
    decreases t.len() - p, 12nat,
{
    if p < t.len() && t[p as int] is Dot {
        if p + 1 < t.len() && t[p + 1 as int] is Ident {
            parse_postfix(t, ExprModel::Field(Box::new(e), t[p + 1 as int]->Ident_0), p + 2)
        } else {
            Some((e, p))
        }
    } else if p + 1 < t.len() && t[p as int] is LParen && t[p + 1 as int] is RParen {
        parse_postfix(t, ExprModel::Call(Box::new(e), Seq::empty()), p + 2)
    } else if p < t.len() && (t[p as int] is LParen || t[p as int] is LBracket) {
        let call = t[p as int] is LParen;
        match parse_args(t, p + 1) {
            Some((args, q)) => if p < q < t.len() && (if call {
                t[q as int] is RParen
            } else {
                t[q as int] is RBracket
            }) {
                parse_postfix(
                    t,
                    if call {
                        ExprModel::Call(Box::new(e), args)
                    } else {
                        ExprModel::Index(Box::new(e), args)
                    },
                    q + 1,
                )
            } else {
                None
            },
            None => None,
        }
    } else {
        Some((e, p))
    }
}

/// A comma-separated list of one or more expressions that starts at `q`, and the
/// position after it.
pub open spec fn parse_args(t: Seq<TokenModel>, q: nat) -> Option<(Seq<ExprModel>, nat)>
    decreases t.len() - q, 11nat,
{
    match parse_rank(t, 10, q) {
        Some((a, p)) => if q < p <= t.len() {
            if p < t.len() && t[p as int] is Comma {
                match parse_args(t, p + 1) {
                    Some((rest, p2)) => Some((seq![a] + rest, p2)),
                    None => None,
                }
            } else {
                Some((seq![a], p))
            }
        } else {
            None
        },
        None => None,
    }
}

/// An expression of rank `r` or tighter that starts at token `pos`, and the position
/// after it; `None` where the tokens there form no such expression.
pub open spec fn parse_rank(t: Seq<TokenModel>, r: nat, pos: nat) -> Option<(ExprModel, nat)>
    decreases t.len() - pos, r,
{
    if pos >= t.len() || r > 10 {
        None
    } else if r == 0 {
        match t[pos as int] {
            TokenModel::Int(x) => Some((ExprModel::Literal(LiteralModel::Int(x)), pos + 1)),
            TokenModel::Real(x) => Some((ExprModel::Literal(LiteralModel::Real(x)), pos + 1)),
            TokenModel::Str(x) => Some((ExprModel::Literal(LiteralModel::Str(x)), pos + 1)),
            TokenModel::Bool(b) => Some((ExprModel::Literal(LiteralModel::Bool(b)), pos + 1)),
            TokenModel::Ident(n) => Some((ExprModel::Name(n), pos + 1)),
            TokenModel::LParen => match parse_rank(t, 10, pos + 1) {
                Some((e, p)) => if pos < p < t.len() && t[p as int] is RParen {
                    Some((ExprModel::Paren(Box::new(e)), p + 1))
                } else {
                    None
                },
                None => None,
            },
            _ => None,
        }
    } else if r == 1 {
        match parse_rank(t, 0, pos) {
            Some((e, p)) => if pos < p <= t.len() {
                parse_postfix(t, e, p)
            } else {
                None
            },
            None => None,
        }
    } else if r == 3 {
        match t[pos as int] {
            TokenModel::Op(op, text) => if op == Operator::Sub || op == Operator::Not {
                match parse_rank(t, 3, pos + 1) {
                    Some((e, p)) => Some((ExprModel::Unary(op, text, Box::new(e)), p)),
                    None => None,
                }
            } else {
                parse_rank(t, 2, pos)
            },
            _ => parse_rank(t, 2, pos),
        }
    } else {
        match parse_rank(t, (r - 1) as nat, pos) {
            Some((lhs, p)) => if pos < p <= t.len() {
                parse_more(t, r, lhs, p)
            } else {
                None
            },
            None => None,
        }
    }
}

/// The operators of rank `r` and their operands that follow `lhs`, which ends at `p`,
/// folded to the left.
pub open spec fn parse_more(t: Seq<TokenModel>, r: nat, lhs: ExprModel, p: nat) -> Option<
    (ExprModel, nat),
>
    decreases t.len() - p, r,
{
    if p < t.len() && binary_rank(t[p as int]) == Some(r) && 1 <= r {
        match parse_rank(t, (r - 1) as nat, p + 1) {
            Some((rhs, p2)) => if p < p2 <= t.len() {
                parse_more(
                    t,
                    r,
                    ExprModel::Binary(
                        t[p as int]->Op_0,
                        t[p as int]->Op_1,
                        Box::new(lhs),
                        Box::new(rhs),
                    ),
                    p2,
                )
            } else {
                None
            },
            None => None,
        }
    } else {
        Some((lhs, p))
    }
}

/// The expression that the whole token list forms.
pub open spec fn parse_tokens(t: Seq<TokenModel>) -> Option<ExprModel> {
    match parse_rank(t, 10, 0) {
        Some((e, p)) => if p == t.len() {
            Some(e)
        } else {
            None
        },
        None => None,
    }
}

fn text_of(s: &String) -> (r: String)
    ensures
        r@ == s@,
{
    s.clone()
}

fn parse_postfix_exec(t: &Vec<Token>, e: Expr, p: usize) -> (res: Option<(Expr, usize)>)
    requires
        p <= t@.len(),
    ensures
        match res {
            Some((e2, q)) => parse_postfix(tokens_view(t@), e@, p as nat) == Some((e2@, q as nat)),
            None => parse_postfix(tokens_view(t@), e@, p as nat) is None,
        },
    decreases t@.len() - p, 12usize,
{
    if p >= t.len() {
        return Some((e, p));
    }
    let has_next = t.len() - p > 1;
    match &t[p] {
        Token::Dot => {
            if has_next {
                match &t[p + 1] {
                    Token::Ident(n) => {
                        let f = Expr::Field(Box::new(e), text_of(n));
                        return parse_postfix_exec(t, f, p + 2);
                    },
                    _ => {},
                }
            }
            Some((e, p))
        },
        Token::LParen => {
            if has_next {
                match &t[p + 1] {
                    Token::RParen => {
                        let none: Vec<Expr> = Vec::new();
                        proof {
                            lemma_exprs_view(none@, 0);
                            assert(exprs_view(none@, 0) =~= Seq::<ExprModel>::empty());
                        }
                        let c = Expr::Call(Box::new(e), none);
                        return parse_postfix_exec(t, c, p + 2);
                    },
                    _ => {},
                }
            }
            match parse_args_exec(t, p + 1) {
                Some((args, q)) => {
                    if p < q && q < t.len() {
                        match &t[q] {
                            Token::RParen => {
                                let c = Expr::Call(Box::new(e), args);
                                return parse_postfix_exec(t, c, q + 1);
                            },
                            _ => {},
                        }
                    }
                    None
                },
                None => None,
            }
        },
        Token::LBracket => {
            match parse_args_exec(t, p + 1) {
                Some((ix, q)) => {
                    if p < q && q < t.len() {
                        match &t[q] {
                            Token::RBracket => {
                                let x = Expr::Index(Box::new(e), ix);
                                return parse_postfix_exec(t, x, q + 1);
                            },
                            _ => {},
                        }
                    }
                    None
                },
                None => None,
            }
        },
        _ => Some((e, p)),
    }
}

fn parse_args_exec(t: &Vec<Token>, q: usize) -> (res: Option<(Vec<Expr>, usize)>)
    requires
        q <= t@.len(),
    ensures
        match res {
            Some((v, p)) => parse_args(tokens_view(t@), q as nat) == Some(
                (exprs_view(v@, 0), p as nat),
            ),
            None => parse_args(tokens_view(t@), q as nat) is None,
        },
    decreases t@.len() - q, 11usize,
{
    match parse_rank_exec(t, 10, q) {
        Some((a, p)) => {
            if q < p && p <= t.len() {
                if p < t.len() {
                    match &t[p] {
                        Token::Comma => {
                            match parse_args_exec(t, p + 1) {
                                Some((rest, p2)) => {
                                    let ghost old_rest = rest@;
                                    let mut all = rest;
                                    all.insert(0, a);
                                    proof {
                                        lemma_exprs_view(old_rest, 0);
                                        lemma_exprs_view(all@, 0);
                                        let ghost want = seq![a@] + exprs_view(old_rest, 0);
                                        assert forall|j: int| 0 <= j < all@.len() implies #[trigger] exprs_view(all@, 0)[j]
                                            == want[j] by {
                                            if j > 0 {
                                                assert(exprs_view(old_rest, 0)[j - 1] == expr_view(old_rest[0 + (j - 1)]));
                                            }
                                        }
                                        assert(exprs_view(all@, 0) =~= want);
                                    }
                                    return Some((all, p2));
                                },
                                None => {
                                    return None;
                                },
                            }
                        },
                        _ => {},
                    }
                }
                let mut one: Vec<Expr> = Vec::new();
                one.push(a);
                proof {
                    lemma_exprs_view(one@, 0);
                    assert(exprs_view(one@, 0)[0] == expr_view(one@[0]));
                    assert(exprs_view(one@, 0) =~= seq![a@]);
                }
                Some((one, p))
            } else {
                None
            }
        },
        None => None,
    }
}

/// The rank of a binary operator token, computed.
fn binary_rank_exec(tok: &Token) -> (r: Option<usize>)
    ensures
        match r {
            Some(k) => binary_rank(tok@) == Some(k as nat),
            None => binary_rank(tok@) is None,
        },
{
    match tok {
        Token::Op(op, _) => match op {
            Operator::Or => Some(10),
            Operator::Xor => Some(9),
            Operator::And | Operator::Ampersand => Some(8),
            Operator::Eq | Operator::Ne => Some(7),
            Operator::Lt | Operator::Gt | Operator::Le | Operator::Ge => Some(6),
            Operator::Add | Operator::Sub => Some(5),
            Operator::Mul | Operator::Div | Operator::Mod => Some(4),
            Operator::Pow => Some(2),
            Operator::Not => None,
        },
        _ => None,
    }
}

fn parse_rank_exec(t: &Vec<Token>, r: usize, pos: usize) -> (res: Option<(Expr, usize)>)
    ensures
        match res {
            Some((e, p)) => parse_rank(tokens_view(t@), r as nat, pos as nat) == Some(
                (e@, p as nat),
            ),
            None => parse_rank(tokens_view(t@), r as nat, pos as nat) is None,
        },
    decreases t@.len() - pos, r,
{
    let ghost tv = tokens_view(t@);
    if pos >= t.len() || r > 10 {
        return None;
    }
    if r == 0 {
        match &t[pos] {
            Token::Int(x) => Some((Expr::Literal(Literal::Int(text_of(x))), pos + 1)),
            Token::Real(x) => Some((Expr::Literal(Literal::Real(text_of(x))), pos + 1)),
            Token::Str(x) => Some((Expr::Literal(Literal::Str(text_of(x))), pos + 1)),
            Token::Bool(b) => Some((Expr::Literal(Literal::Bool(*b)), pos + 1)),
            Token::Ident(n) => Some((Expr::Name(text_of(n)), pos + 1)),
            Token::LParen => match parse_rank_exec(t, 10, pos + 1) {
                Some((e, p)) => {
                    if pos < p && p < t.len() {
                        match &t[p] {
                            Token::RParen => {
                                return Some((Expr::Paren(Box::new(e)), p + 1));
                            },
                            _ => {},
                        }
                    }
                    None
                },
                None => None,
            },
            _ => None,
        }
    } else if r == 1 {
        match parse_rank_exec(t, 0, pos) {
            Some((e, p)) => {
                proof {
                    lemma_parse_rank_bounds(tv, 0, pos as nat);
                }
                parse_postfix_exec(t, e, p)
            },
            None => None,
        }
    } else if r == 3 {
        match &t[pos] {
            Token::Op(op, text) => {
                if *op == Operator::Sub || *op == Operator::Not {
                    match parse_rank_exec(t, 3, pos + 1) {
                        Some((e, p)) => Some((Expr::Unary(*op, text_of(text), Box::new(e)), p)),
                        None => None,
                    }
                } else {
                    parse_rank_exec(t, 2, pos)
                }
            },
            _ => parse_rank_exec(t, 2, pos),
        }
    } else {
        match parse_rank_exec(t, r - 1, pos) {
            Some((lhs, p)) => {
                if pos < p && p <= t.len() {
                    parse_more_exec(t, r, lhs, p)
                } else {
                    None
                }
            },
            None => None,
        }
    }
}

fn parse_more_exec(t: &Vec<Token>, r: usize, lhs: Expr, p: usize) -> (res: Option<(Expr, usize)>)
    requires
        p <= t@.len(),
    ensures
        match res {
            Some((e, q)) => parse_more(tokens_view(t@), r as nat, lhs@, p as nat) == Some(
                (e@, q as nat),
            ),
            None => parse_more(tokens_view(t@), r as nat, lhs@, p as nat) is None,
        },
    decreases t@.len() - p, r,
{
    if p < t.len() && 1 <= r {
        match binary_rank_exec(&t[p]) {
            Some(k) => {
                if k == r {
                    match &t[p] {
                        Token::Op(op, text) => {
                            match parse_rank_exec(t, r - 1, p + 1) {
                                Some((rhs, p2)) => {
                                    if p < p2 && p2 <= t.len() {
                                        let e = Expr::Binary(
                                            *op,
                                            text_of(text),
                                            Box::new(lhs),
                                            Box::new(rhs),
                                        );
                                        return parse_more_exec(t, r, e, p2);
                                    } else {
                                        return None;
                                    }
                                },
                                None => {
                                    return None;
                                },
                            }
                        },
                        _ => {},
                    }
                }
            },
            None => {},
        }
    }
    Some((lhs, p))
}

/// A parse never ends before it starts nor past the tokens.
proof fn lemma_parse_rank_bounds(t: Seq<TokenModel>, r: nat, pos: nat)
    ensures
        parse_rank(t, r, pos) matches Some((e, p)) ==> pos < p <= t.len(),
    decreases t.len() - pos, r, 1nat,
{
    if pos >= t.len() || r > 10 {
    } else if r == 0 {
        if t[pos as int] is LParen {
            lemma_parse_rank_bounds(t, 10, pos + 1);
        }
    } else if r == 1 {
        lemma_parse_rank_bounds(t, 0, pos);
        if let Some((e, p)) = parse_rank(t, 0, pos) {
            if pos < p <= t.len() {
                lemma_parse_postfix_bounds(t, e, p);
            }
        }
    } else if r == 3 {
        lemma_parse_rank_bounds(t, 3, pos + 1);
        lemma_parse_rank_bounds(t, 2, pos);
    } else {
        lemma_parse_rank_bounds(t, (r - 1) as nat, pos);
        if let Some((lhs, p)) = parse_rank(t, (r - 1) as nat, pos) {
            if pos < p <= t.len() {
                lemma_parse_more_bounds(t, r, lhs, p);
            }
        }
    }
}

proof fn lemma_parse_more_bounds(t: Seq<TokenModel>, r: nat, lhs: ExprModel, p: nat)
    requires
        p <= t.len(),
    ensures
        parse_more(t, r, lhs, p) matches Some((e, q)) ==> p <= q <= t.len(),
    decreases t.len() - p, r, 0nat,
{
    if p < t.len() && binary_rank(t[p as int]) == Some(r) && 1 <= r {
        lemma_parse_rank_bounds(t, (r - 1) as nat, p + 1);
        if let Some((rhs, p2)) = parse_rank(t, (r - 1) as nat, p + 1) {
            if p < p2 <= t.len() {
                lemma_parse_more_bounds(
                    t,
                    r,
                    ExprModel::Binary(
                        t[p as int]->Op_0,
                        t[p as int]->Op_1,
                        Box::new(lhs),
                        Box::new(rhs),
                    ),
                    p2,
                );
            }
        }
    }
}

proof fn lemma_parse_postfix_bounds(t: Seq<TokenModel>, e: ExprModel, p: nat)
    requires
        p <= t.len(),
    ensures
        parse_postfix(t, e, p) matches Some((e2, q)) ==> p <= q <= t.len(),
    decreases t.len() - p, 12nat, 0nat,
{
    if p < t.len() && t[p as int] is Dot {
        if p + 1 < t.len() && t[p + 1 as int] is Ident {
            lemma_parse_postfix_bounds(t, ExprModel::Field(Box::new(e), t[p + 1 as int]->Ident_0), p + 2);
        }
    } else if p + 1 < t.len() && t[p as int] is LParen && t[p + 1 as int] is RParen {
        lemma_parse_postfix_bounds(t, ExprModel::Call(Box::new(e), Seq::empty()), p + 2);
    } else if p < t.len() && (t[p as int] is LParen || t[p as int] is LBracket) {
        if let Some((args, q)) = parse_args(t, p + 1) {
            if p < q < t.len() {
                lemma_parse_postfix_bounds(t, ExprModel::Call(Box::new(e), args), q + 1);
                lemma_parse_postfix_bounds(t, ExprModel::Index(Box::new(e), args), q + 1);
            }
        }
    }
}

/// A name at `pos`, followed by the end or by a binary operator of a rank above `r`,
/// is all that an expression of rank `r` there holds.
proof fn lemma_parse_name(t: Seq<TokenModel>, pos: nat, r: nat)
    requires
        pos < t.len(),
        t[pos as int] is Ident,
        r <= 10,
        pos + 1 == t.len() || (binary_rank(t[pos + 1 as int]) matches Some(q) && r < q),
    ensures
        parse_rank(t, r, pos) == Some((ExprModel::Name(t[pos as int]->Ident_0), pos + 1)),
    decreases r,
{
    let e = ExprModel::Name(t[pos as int]->Ident_0);
    if r == 0 {
    } else if r == 1 {
        lemma_parse_name(t, pos, 0);
        assert(parse_postfix(t, e, pos + 1) == Some((e, pos + 1)));
    } else if r == 3 {
        lemma_parse_name(t, pos, 2);
    } else {
        lemma_parse_name(t, pos, (r - 1) as nat);
        assert(parse_more(t, r, e, pos + 1) == Some((e, pos + 1)));
    }
}

/// The tokens `b q c` at the end, from `pos`: an expression of a rank below that of
/// `q` holds only `b`; from that rank on it holds `b q c`.
proof fn lemma_parse_one_operator(t: Seq<TokenModel>, pos: nat, r: nat)
    requires
        pos + 3 == t.len(),
        t[pos as int] is Ident,
        t[pos + 2 as int] is Ident,
        binary_rank(t[pos + 1 as int]) is Some,
        r <= 10,
    ensures
        parse_rank(t, r, pos) == (if r < binary_rank(t[pos + 1 as int])->0 {
            Some((ExprModel::Name(t[pos as int]->Ident_0), pos + 1))
        } else {
            Some(
                (
                    ExprModel::Binary(
                        t[pos + 1 as int]->Op_0,
                        t[pos + 1 as int]->Op_1,
                        Box::new(ExprModel::Name(t[pos as int]->Ident_0)),
                        Box::new(ExprModel::Name(t[pos + 2 as int]->Ident_0)),
                    ),
                    pos + 3,
                ),
            )
        }),
    decreases r,
{
    let q = binary_rank(t[pos + 1 as int])->0;
    let b = ExprModel::Name(t[pos as int]->Ident_0);
    let c = ExprModel::Name(t[pos + 2 as int]->Ident_0);
    let bc = ExprModel::Binary(t[pos + 1 as int]->Op_0, t[pos + 1 as int]->Op_1, Box::new(b), Box::new(c));
    if r < q {
        lemma_parse_name(t, pos, r);
    } else if r == 3 {
        lemma_parse_one_operator(t, pos, 2);
    } else {
        lemma_parse_one_operator(t, pos, (r - 1) as nat);
        if r == q {
            assert(parse_rank(t, (r - 1) as nat, pos) == Some((b, pos + 1)));
            lemma_parse_name(t, pos + 2, (r - 1) as nat);
            assert(parse_rank(t, (r - 1) as nat, pos + 2) == Some((c, pos + 3)));
            assert(parse_more(t, r, bc, pos + 3) == Some((bc, pos + 3)));
            assert(parse_more(t, r, b, pos + 1) == Some((bc, pos + 3)));
        } else {
            assert(parse_rank(t, (r - 1) as nat, pos) == Some((bc, pos + 3)));
            assert(parse_more(t, r, bc, pos + 3) == Some((bc, pos + 3)));
        }
    }
}

/// The grouping of `a p b q c`, by rank: see [`lemma_binary_grouping`].
pub open spec fn grouped(a: Seq<char>, p: TokenModel, b: Seq<char>, q: TokenModel, c: Seq<char>) -> ExprModel {
    let na = Box::new(ExprModel::Name(a));
    let nb = Box::new(ExprModel::Name(b));
    let nc = Box::new(ExprModel::Name(c));
    if binary_rank(p)->0 <= binary_rank(q)->0 {
        ExprModel::Binary(q->Op_0, q->Op_1, Box::new(ExprModel::Binary(p->Op_0, p->Op_1, na, nb)), nc)
    } else {
        ExprModel::Binary(p->Op_0, p->Op_1, na, Box::new(ExprModel::Binary(q->Op_0, q->Op_1, nb, nc)))
    }
}

proof fn lemma_parse_two_operators(
    a: Seq<char>,
    p: TokenModel,
    b: Seq<char>,
    q: TokenModel,
    c: Seq<char>,
    r: nat,
)
    requires
        binary_rank(p) is Some,
        binary_rank(q) is Some,
        r <= 10,
    ensures
        ({
            let t = seq![TokenModel::Ident(a), p, TokenModel::Ident(b), q, TokenModel::Ident(c)];
            let rp = binary_rank(p)->0;
            let rq = binary_rank(q)->0;
            let na = Box::new(ExprModel::Name(a));
            let nb = Box::new(ExprModel::Name(b));
            let ab = ExprModel::Binary(p->Op_0, p->Op_1, na, nb);
            parse_rank(t, r, 0) == if r < rp {
                Some((ExprModel::Name(a), 1nat))
            } else if rp <= rq && r < rq {
                Some((ab, 3nat))
            } else {
                Some((grouped(a, p, b, q, c), 5nat))
            }
        }),
    decreases r,
{
    let t = seq![TokenModel::Ident(a), p, TokenModel::Ident(b), q, TokenModel::Ident(c)];
    let rp = binary_rank(p)->0;
    let rq = binary_rank(q)->0;
    let na = ExprModel::Name(a);
    let ab = ExprModel::Binary(p->Op_0, p->Op_1, Box::new(na), Box::new(ExprModel::Name(b)));
    let g = grouped(a, p, b, q, c);
    let nb = ExprModel::Name(b);
    let nc = ExprModel::Name(c);
    let bc = ExprModel::Binary(q->Op_0, q->Op_1, Box::new(nb), Box::new(nc));
    assert(t[0] == TokenModel::Ident(a) && t[1] == p && t[2] == TokenModel::Ident(b) && t[3] == q
        && t[4] == TokenModel::Ident(c));
    if r < rp {
        lemma_parse_name(t, 0, r);
    } else if r == 3 {
        lemma_parse_two_operators(a, p, b, q, c, 2);
    } else {
        lemma_parse_two_operators(a, p, b, q, c, (r - 1) as nat);
        if r == rp {
            assert(parse_rank(t, (r - 1) as nat, 0) == Some((na, 1nat)));
            // `p` at 1 is taken, with what follows it at a rank below `rp`
            if rp <= rq {
                lemma_parse_name(t, 2, (r - 1) as nat);
                assert(parse_rank(t, (r - 1) as nat, 2) == Some((nb, 3nat)));
                if rq == rp {
                    lemma_parse_name(t, 4, (r - 1) as nat);
                    assert(parse_rank(t, (r - 1) as nat, 4) == Some((nc, 5nat)));
                    assert(parse_more(t, r, g, 5) == Some((g, 5nat)));
                    assert(parse_more(t, r, ab, 3) == Some((g, 5nat)));
                } else {
                    assert(parse_more(t, r, ab, 3) == Some((ab, 3nat)));
                }
                assert(parse_more(t, r, na, 1) == parse_more(t, r, ab, 3));
            } else {
                lemma_parse_one_operator(t, 2, (r - 1) as nat);
                assert(parse_rank(t, (r - 1) as nat, 2) == Some((bc, 5nat)));
                assert(parse_more(t, r, g, 5) == Some((g, 5nat)));
                assert(parse_more(t, r, na, 1) == Some((g, 5nat)));
            }
        } else if rp <= rq && r < rq {
            assert(parse_rank(t, (r - 1) as nat, 0) == Some((ab, 3nat)));
            assert(parse_more(t, r, ab, 3) == Some((ab, 3nat)));
        } else if rp <= rq && r == rq {
            assert(parse_rank(t, (r - 1) as nat, 0) == Some((ab, 3nat)));
            lemma_parse_name(t, 4, (r - 1) as nat);
            assert(parse_rank(t, (r - 1) as nat, 4) == Some((nc, 5nat)));
            assert(parse_more(t, r, g, 5) == Some((g, 5nat)));
            assert(parse_more(t, r, ab, 3) == Some((g, 5nat)));
        } else {
            assert(parse_rank(t, (r - 1) as nat, 0) == Some((g, 5nat)));
            assert(parse_more(t, r, g, 5) == Some((g, 5nat)));
        }
    }
}

/// Binary operators associate to the left, and an operator of a lower rank binds
/// tighter: `a p b q c` groups as `(a p b) q c` when `p` ranks no higher than `q`,
/// and as `a p (b q c)` when it ranks higher.
pub proof fn lemma_binary_grouping(a: Seq<char>, p: TokenModel, b: Seq<char>, q: TokenModel, c: Seq<char>)
    requires
        binary_rank(p) is Some,
        binary_rank(q) is Some,
    ensures
        parse_tokens(seq![TokenModel::Ident(a), p, TokenModel::Ident(b), q, TokenModel::Ident(c)])
            == Some(grouped(a, p, b, q, c)),
{
    lemma_parse_two_operators(a, p, b, q, c, 10);
}

/// The IEC 61131-3 precedence of the binary operators, from the tightest: `**`;
/// `*`, `/`, `MOD`; `+`, `-`; `<`, `>`, `<=`, `>=`; `=`, `<>`; `AND`, `&`; `XOR`;
/// `OR`. `None` for the prefix-only `NOT`.
pub open spec fn iec_level(op: Operator) -> Option<nat> {
    if op == Operator::Pow {
        Some(1)
    } else if op == Operator::Mul || op == Operator::Div || op == Operator::Mod {
        Some(2)
    } else if op == Operator::Add || op == Operator::Sub {
        Some(3)
    } else if op == Operator::Lt || op == Operator::Gt || op == Operator::Le || op == Operator::Ge {
        Some(4)
    } else if op == Operator::Eq || op == Operator::Ne {
        Some(5)
    } else if op == Operator::And || op == Operator::Ampersand {
        Some(6)
    } else if op == Operator::Xor {
        Some(7)
    } else if op == Operator::Or {
        Some(8)
    } else {
        None
    }
}

/// Operator precedence and associativity: of `a p b q c`, the operator of the
/// tighter IEC level takes its neighbours first, and operators of one level group
/// to the left. So `t > 25.0 AND e` is `(t > 25.0) AND e`, `a OR b AND c` is
/// `a OR (b AND c)`, and `a - b - c` is `(a - b) - c`.
pub proof fn lemma_operator_precedence(
    a: Seq<char>,
    p: Operator,
    tp: Seq<char>,
    b: Seq<char>,
    q: Operator,
    tq: Seq<char>,
    c: Seq<char>,
)
    requires
        iec_level(p) is Some,
        iec_level(q) is Some,
    ensures
        ({
            let t = seq![
                TokenModel::Ident(a),
                TokenModel::Op(p, tp),
                TokenModel::Ident(b),
                TokenModel::Op(q, tq),
                TokenModel::Ident(c),
            ];
            let na = Box::new(ExprModel::Name(a));
            let nb = Box::new(ExprModel::Name(b));
            let nc = Box::new(ExprModel::Name(c));
            let left = ExprModel::Binary(q, tq, Box::new(ExprModel::Binary(p, tp, na, nb)), nc);
            let right = ExprModel::Binary(p, tp, na, Box::new(ExprModel::Binary(q, tq, nb, nc)));
            &&& iec_level(p)->0 <= iec_level(q)->0 ==> parse_tokens(t) == Some(left)
            &&& iec_level(p)->0 > iec_level(q)->0 ==> parse_tokens(t) == Some(right)
        }),
{
    let pt = TokenModel::Op(p, tp);
    let qt = TokenModel::Op(q, tq);
    assert(binary_rank(pt) is Some && binary_rank(qt) is Some);
    assert((iec_level(p)->0 <= iec_level(q)->0) == (binary_rank(pt)->0 <= binary_rank(qt)->0));
    lemma_binary_grouping(a, pt, b, qt, c);
}

/// The syntax tree of a token list that forms one whole expression.
pub fn parse_token_list(t: &Vec<Token>) -> (res: Option<Expr>)
    ensures
        match res {
            Some(e) => parse_tokens(tokens_view(t@)) == Some(e@),
            None => parse_tokens(tokens_view(t@)) is None,
        },
{
    match parse_rank_exec(t, 10, 0) {
        Some((e, p)) => if p == t.len() {
            Some(e)
        } else {
            None
        },
        None => None,
    }
}

} // verus!
