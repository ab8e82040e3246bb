use vstd::prelude::*;
use vstd::string::StrSliceExecFns;
use crate::text::{ascii_upper_eq, chars_of, upper_eq_at};

verus! {

/// The operators of Structured Text expressions.
#[derive(Debug, Clone, Copy, PartialEq, Eq, Structural)]
pub enum Operator {
    Add,
    Sub,
    Mul,
    Div,
    Mod,
    Pow,
    Eq,
    Ne,
    Lt,
    Gt,
    Le,
    Ge,
    And,
    Or,
    Xor,
    Not,
    /// `&`, which binds as `AND` does.
    Ampersand,
}

/// A lexical token of a Structured Text expression.
#[derive(Debug)]
pub enum Token {
    /// An integer literal: its digits.
    Int(String),
    /// A real literal: its text.
    Real(String),
    /// A string literal: the text between its quotes.
    Str(String),
    /// `TRUE` or `FALSE`, in any case.
    Bool(bool),
    Ident(String),
    /// An operator and its text as written.
    Op(Operator, String),
    LParen,
    RParen,
    LBracket,
    RBracket,
    Comma,
    Dot,
}

/// The mathematical model of a [`Token`].
pub enum TokenModel {
    Int(Seq<char>),
    Real(Seq<char>),
    Str(Seq<char>),
    Bool(bool),
    Ident(Seq<char>),
    Op(Operator, Seq<char>),
    LParen,
    RParen,
    LBracket,
    RBracket,
    Comma,
    Dot,
}

impl View for Token {
    type V = TokenModel;

    open spec fn view(&self) -> TokenModel {
        match self {
            Token::Int(s) => TokenModel::Int(s@),
            Token::Real(s) => TokenModel::Real(s@),
            Token::Str(s) => TokenModel::Str(s@),
            Token::Bool(b) => TokenModel::Bool(*b),
            Token::Ident(s) => TokenModel::Ident(s@),
            Token::Op(o, s) => TokenModel::Op(*o, s@),
            Token::LParen => TokenModel::LParen,
            Token::RParen => TokenModel::RParen,
            Token::LBracket => TokenModel::LBracket,
            Token::RBracket => TokenModel::RBracket,
            Token::Comma => TokenModel::Comma,
            Token::Dot => TokenModel::Dot,
        }
    }
}

/// The models of a list of tokens.
pub open spec fn tokens_view(ts: Seq<Token>) -> Seq<TokenModel> {
    Seq::new(ts.len(), |i: int| ts[i]@)
}

pub open spec fn is_space(c: char) -> bool {
    c == ' ' || c == '\t' || c == '\n' || c == '\r'
}

pub open spec fn is_letter(c: char) -> bool {
    ('a' <= c && c <= 'z') || ('A' <= c && c <= 'Z') || c == '_'
}

pub open spec fn is_digit(c: char) -> bool {
    '0' <= c && c <= '9'
}

pub open spec fn is_word_char(c: char) -> bool {
    is_letter(c) || is_digit(c)
}

/// The end of the run of word characters that starts at `i`.
pub open spec fn word_end(s: Seq<char>, i: nat) -> nat
    decreases s.len() - i,
{
    if i >= s.len() {
        i
    } else if is_word_char(s[i as int]) {
        word_end(s, i + 1)
    } else {
        i
    }
}

/// The end of the run of digits that starts at `i`.
pub open spec fn digits_end(s: Seq<char>, i: nat) -> nat
    decreases s.len() - i,
{
    if i >= s.len() {
        i
    } else if is_digit(s[i as int]) {
        digits_end(s, i + 1)
    } else {
        i
    }
}

/// The position of the first `q` at or after `i`.
pub open spec fn quote_end(s: Seq<char>, i: nat, q: char) -> Option<nat>
    decreases s.len() - i,
{
    if i >= s.len() {
        None
    } else if s[i as int] == q {
        Some(i)
    } else {
        quote_end(s, i + 1, q)
    }
}

/// Whether an exponent `e`/`E`, an optional sign and a digit start at `d`;
/// if so, the position of that digit.
pub open spec fn exponent_digit(s: Seq<char>, d: nat) -> Option<nat> {
    if d < s.len() && (s[d as int] == 'e' || s[d as int] == 'E') {
        let k: nat = if d + 1 < s.len() && (s[d + 1 as int] == '+' || s[d + 1 as int] == '-') {
            d + 2
        } else {
            d + 1
        };
        if k < s.len() && is_digit(s[k as int]) {
            Some(k)
        } else {
            None
        }
    } else {
        None
    }
}

/// The end of the number that starts at `i`, and whether it is a real literal:
/// digits, then optionally `.` and digits, then optionally an exponent.
pub open spec fn number_end(s: Seq<char>, i: nat) -> (nat, bool) {
    let d1 = digits_end(s, i);
    let (d2, frac) = if d1 + 1 < s.len() && s[d1 as int] == '.' && is_digit(s[d1 + 1 as int]) {
        (digits_end(s, d1 + 1), true)
    } else {
        (d1, false)
    };
    match exponent_digit(s, d2) {
        Some(k) => (digits_end(s, k), true),
        None => (d2, frac),
    }
}

/// The token a word stands for: a keyword operator, a boolean literal, or a name.
pub open spec fn word_token(w: Seq<char>) -> TokenModel {
    if ascii_upper_eq(w, seq!['A', 'N', 'D']) {
        TokenModel::Op(Operator::And, w)
    } else if ascii_upper_eq(w, seq!['O', 'R']) {
        TokenModel::Op(Operator::Or, w)
    } else if ascii_upper_eq(w, seq!['X', 'O', 'R']) {
        TokenModel::Op(Operator::Xor, w)
    } else if ascii_upper_eq(w, seq!['N', 'O', 'T']) {
        TokenModel::Op(Operator::Not, w)
    } else if ascii_upper_eq(w, seq!['M', 'O', 'D']) {
        TokenModel::Op(Operator::Mod, w)
    } else if ascii_upper_eq(w, seq!['T', 'R', 'U', 'E']) {
        TokenModel::Bool(true)
    } else if ascii_upper_eq(w, seq!['F', 'A', 'L', 'S', 'E']) {
        TokenModel::Bool(false)
    } else {
        TokenModel::Ident(w)
    }
}

/// The punctuation or symbolic operator at `i`, and its width.
pub open spec fn symbol_at(s: Seq<char>, i: nat) -> Option<(TokenModel, nat)> {
    if i >= s.len() {
        None
    } else {
        let c = s[i as int];
        let next_is = |d: char| i + 1 < s.len() && s[i + 1 as int] == d;
        if c == '+' {
            Some((TokenModel::Op(Operator::Add, seq!['+']), 1))
        } else if c == '-' {
            Some((TokenModel::Op(Operator::Sub, seq!['-']), 1))
        } else if c == '*' {
            if next_is('*') {
                Some((TokenModel::Op(Operator::Pow, seq!['*', '*']), 2))
            } else {
                Some((TokenModel::Op(Operator::Mul, seq!['*']), 1))
            }
        } else if c == '/' {
            Some((TokenModel::Op(Operator::Div, seq!['/']), 1))
        } else if c == '=' {
            Some((TokenModel::Op(Operator::Eq, seq!['=']), 1))
        } else if c == '<' {
            if next_is('>') {
                Some((TokenModel::Op(Operator::Ne, seq!['<', '>']), 2))
            } else if next_is('=') {
                Some((TokenModel::Op(Operator::Le, seq!['<', '=']), 2))
            } else {
                Some((TokenModel::Op(Operator::Lt, seq!['<']), 1))
            }
        } else if c == '>' {
            if next_is('=') {
                Some((TokenModel::Op(Operator::Ge, seq!['>', '=']), 2))
            } else {
                Some((TokenModel::Op(Operator::Gt, seq!['>']), 1))
            }
        } else if c == '&' {
            Some((TokenModel::Op(Operator::Ampersand, seq!['&']), 1))
        } else if c == '(' {
            Some((TokenModel::LParen, 1))
        } else if c == ')' {
            Some((TokenModel::RParen, 1))
        } else if c == '[' {
            Some((TokenModel::LBracket, 1))
        } else if c == ']' {
            Some((TokenModel::RBracket, 1))
        } else if c == ',' {
            Some((TokenModel::Comma, 1))
        } else if c == '.' {
            Some((TokenModel::Dot, 1))
        } else {
            None
        }
    }
}

/// `t` followed by the tokens of `rest`, if `rest` lexed.
pub open spec fn prepend_all(t: Seq<TokenModel>, rest: Option<Seq<TokenModel>>) -> Option<Seq<TokenModel>> {
    match rest {
        Some(r) => Some(t + r),
        None => None,
    }
}

/// The tokens of `s` from position `i` on; `None` where a character starts no token
/// or a string literal is not closed.
pub open spec fn lex_from(s: Seq<char>, i: nat) -> Option<Seq<TokenModel>>
    decreases s.len() - i,
{
    if i >= s.len() {
        Some(Seq::empty())
    } else {
        let c = s[i as int];
        if is_space(c) {
            lex_from(s, i + 1)
        } else if is_letter(c) {
            let j = word_end(s, i + 1);
            if i < j <= s.len() {
                prepend_all(seq![word_token(s.subrange(i as int, j as int))], lex_from(s, j))
            } else {
                None
            }
        } else if is_digit(c) {
            let (j, is_real) = number_end(s, i);
            let text = s.subrange(i as int, j as int);
            if i < j <= s.len() {
                prepend_all(
                    seq![if is_real { TokenModel::Real(text) } else { TokenModel::Int(text) }],
                    lex_from(s, j),
                )
            } else {
                None
            }
        } else if c == '\'' || c == '"' {
            match quote_end(s, i + 1, c) {
                Some(j) => if i + 1 <= j < s.len() {
                    prepend_all(seq![TokenModel::Str(s.subrange(i + 1 as int, j as int))], lex_from(s, j + 1))
                } else {
                    None
                },
                None => None,
            }
        } else {
            match symbol_at(s, i) {
                Some((t, w)) => if w > 0 {
                    prepend_all(seq![t], lex_from(s, i + w))
                } else {
                    None
                },
                None => None,
            }
        }
    }
}

/// The tokens of an expression's text.
pub open spec fn lex(s: Seq<char>) -> Option<Seq<TokenModel>> {
    lex_from(s, 0)
}

proof fn lemma_word_end_bounds(s: Seq<char>, i: nat)
    ensures
        i <= word_end(s, i),
        i <= s.len() ==> word_end(s, i) <= s.len(),
    decreases s.len() - i,
{
    if i < s.len() && is_word_char(s[i as int]) {
        lemma_word_end_bounds(s, i + 1);
    }
}

proof fn lemma_digits_end_bounds(s: Seq<char>, i: nat)
    ensures
        i <= digits_end(s, i),
        i <= s.len() ==> digits_end(s, i) <= s.len(),
    decreases s.len() - i,
{
    if i < s.len() && is_digit(s[i as int]) {
        lemma_digits_end_bounds(s, i + 1);
    }
}

proof fn lemma_quote_end_bounds(s: Seq<char>, i: nat, q: char)
    ensures
        quote_end(s, i, q) matches Some(j) ==> i <= j < s.len() && s[j as int] == q,
    decreases s.len() - i,
{
    if i < s.len() && s[i as int] != q {
        lemma_quote_end_bounds(s, i + 1, q);
    }
}

fn word_end_exec(s: &Vec<char>, i: usize) -> (j: usize)
    requires
        i <= s@.len(),
    ensures
        j == word_end(s@, i as nat),
        i <= j <= s@.len(),
{
    proof {
        lemma_word_end_bounds(s@, i as nat);
    }
    let mut j = i;
    while j < s.len() && (('a' <= s[j] && s[j] <= 'z') || ('A' <= s[j] && s[j] <= 'Z') || s[j]
        == '_' || ('0' <= s[j] && s[j] <= '9'))
        invariant
            i <= j <= s@.len(),
            word_end(s@, i as nat) == word_end(s@, j as nat),
        decreases s.len() - j,
    {
        j = j + 1;
    }
    j
}

fn digits_end_exec(s: &Vec<char>, i: usize) -> (j: usize)
    requires
        i <= s@.len(),
    ensures
        j == digits_end(s@, i as nat),
        i <= j <= s@.len(),
{
    proof {
        lemma_digits_end_bounds(s@, i as nat);
    }
    let mut j = i;
    while j < s.len() && '0' <= s[j] && s[j] <= '9'
        invariant
            i <= j <= s@.len(),
            digits_end(s@, i as nat) == digits_end(s@, j as nat),
        decreases s.len() - j,
    {
        j = j + 1;
    }
    j
}

fn quote_end_exec(s: &Vec<char>, i: usize, q: char) -> (r: Option<usize>)
    requires
        i <= s@.len(),
    ensures
        match r {
            Some(j) => quote_end(s@, i as nat, q) == Some(j as nat),
            None => quote_end(s@, i as nat, q) is None,
        },
{
    let mut j = i;
    while j < s.len()
        invariant
            i <= j <= s@.len(),
            quote_end(s@, i as nat, q) == quote_end(s@, j as nat, q),
        decreases s.len() - j,
    {
        if s[j] == q {
            return Some(j);
        }
        j = j + 1;
    }
    None
}

fn exponent_digit_exec(s: &Vec<char>, d: usize) -> (r: Option<usize>)
    requires
        d <= s@.len(),
    ensures
        match r {
            Some(k) => exponent_digit(s@, d as nat) == Some(k as nat) && k < s@.len(),
            None => exponent_digit(s@, d as nat) is None,
        },
{
    if d < s.len() && (s[d] == 'e' || s[d] == 'E') {
        let k: usize = if d + 1 < s.len() && (s[d + 1] == '+' || s[d + 1] == '-') {
            d + 2
        } else {
            d + 1
        };
        if k < s.len() && '0' <= s[k] && s[k] <= '9' {
            Some(k)
        } else {
            None
        }
    } else {
        None
    }
}

fn number_end_exec(s: &Vec<char>, i: usize) -> (r: (usize, bool))
    requires
        i <= s@.len(),
    ensures
        r.0 as nat == number_end(s@, i as nat).0,
        r.1 == number_end(s@, i as nat).1,
        i <= r.0 <= s@.len(),
{
    let d1 = digits_end_exec(s, i);
    let (d2, frac) = if d1 < s.len() && s.len() - d1 > 1 && s[d1] == '.' && '0' <= s[d1 + 1] && s[d1 + 1] <= '9' {
        (digits_end_exec(s, d1 + 1), true)
    } else {
        (d1, false)
    };
    match exponent_digit_exec(s, d2) {
        Some(k) => (digits_end_exec(s, k), true),
        None => (d2, frac),
    }
}

fn keyword(letters: &str) -> (v: Vec<char>)
    ensures
        v@ == letters@,
{
    chars_of(letters)
}

/// The token for the word `s[i..j]`, whose text is `src[i..j]`.
fn word_token_exec(s: &Vec<char>, src: &str, i: usize, j: usize) -> (t: Token)
    requires
        i <= j <= s@.len(),
        s@ == src@,
    ensures
        t@ == word_token(s@.subrange(i as int, j as int)),
{
    let text = String::from_str(src.substring_char(i, j));
    proof {
        reveal_strlit("AND");
        reveal_strlit("OR");
        reveal_strlit("XOR");
        reveal_strlit("NOT");
        reveal_strlit("MOD");
        reveal_strlit("TRUE");
        reveal_strlit("FALSE");
        assert("AND"@ =~= seq!['A', 'N', 'D']);
        assert("OR"@ =~= seq!['O', 'R']);
        assert("XOR"@ =~= seq!['X', 'O', 'R']);
        assert("NOT"@ =~= seq!['N', 'O', 'T']);
        assert("MOD"@ =~= seq!['M', 'O', 'D']);
        assert("TRUE"@ =~= seq!['T', 'R', 'U', 'E']);
        assert("FALSE"@ =~= seq!['F', 'A', 'L', 'S', 'E']);
    }
    if upper_eq_at(s, i, j, &keyword("AND")) {
        Token::Op(Operator::And, text)
    } else if upper_eq_at(s, i, j, &keyword("OR")) {
        Token::Op(Operator::Or, text)
    } else if upper_eq_at(s, i, j, &keyword("XOR")) {
        Token::Op(Operator::Xor, text)
    } else if upper_eq_at(s, i, j, &keyword("NOT")) {
        Token::Op(Operator::Not, text)
    } else if upper_eq_at(s, i, j, &keyword("MOD")) {
        Token::Op(Operator::Mod, text)
    } else if upper_eq_at(s, i, j, &keyword("TRUE")) {
        Token::Bool(true)
    } else if upper_eq_at(s, i, j, &keyword("FALSE")) {
        Token::Bool(false)
    } else {
        Token::Ident(text)
    }
}

/// An operator token with its text.
fn op_token(op: Operator, text: &str) -> (t: Token)
    ensures
        t@ == TokenModel::Op(op, text@),
{
    Token::Op(op, String::from_str(text))
}

fn symbol_exec(s: &Vec<char>, i: usize) -> (r: Option<(Token, usize)>)
    requires
        i < s@.len(),
    ensures
        match r {
            Some((t, w)) => symbol_at(s@, i as nat) == Some((t@, w as nat)) && 0 < w && i + w
                <= s@.len(),
            None => symbol_at(s@, i as nat) is None,
        },
{
    proof {
        reveal_strlit("+");
        reveal_strlit("-");
        reveal_strlit("*");
        reveal_strlit("**");
        reveal_strlit("/");
        reveal_strlit("=");
        reveal_strlit("<>");
        reveal_strlit("<=");
        reveal_strlit("<");
        reveal_strlit(">=");
        reveal_strlit(">");
        reveal_strlit("&");
        assert("+"@ =~= seq!['+']);
        assert("-"@ =~= seq!['-']);
        assert("*"@ =~= seq!['*']);
        assert("**"@ =~= seq!['*', '*']);
        assert("/"@ =~= seq!['/']);
        assert("="@ =~= seq!['=']);
        assert("<>"@ =~= seq!['<', '>']);
        assert("<="@ =~= seq!['<', '=']);
        assert("<"@ =~= seq!['<']);
        assert(">="@ =~= seq!['>', '=']);
        assert(">"@ =~= seq!['>']);
        assert("&"@ =~= seq!['&']);
    }
    let c = s[i];
    let has_next = s.len() - i > 1;
    if c == '+' {
        Some((op_token(Operator::Add, "+"), 1))
    } else if c == '-' {
        Some((op_token(Operator::Sub, "-"), 1))
    } else if c == '*' {
        if has_next && s[i + 1] == '*' {
            Some((op_token(Operator::Pow, "**"), 2))
        } else {
            Some((op_token(Operator::Mul, "*"), 1))
        }
    } else if c == '/' {
        Some((op_token(Operator::Div, "/"), 1))
    } else if c == '=' {
        Some((op_token(Operator::Eq, "="), 1))
    } else if c == '<' {
        if has_next && s[i + 1] == '>' {
            Some((op_token(Operator::Ne, "<>"), 2))
        } else if has_next && s[i + 1] == '=' {
            Some((op_token(Operator::Le, "<="), 2))
        } else {
            Some((op_token(Operator::Lt, "<"), 1))
        }
    } else if c == '>' {
        if has_next && s[i + 1] == '=' {
            Some((op_token(Operator::Ge, ">="), 2))
        } else {
            Some((op_token(Operator::Gt, ">"), 1))
        }
    } else if c == '&' {
        Some((op_token(Operator::Ampersand, "&"), 1))
    } else if c == '(' {
        Some((Token::LParen, 1))
    } else if c == ')' {
        Some((Token::RParen, 1))
    } else if c == '[' {
        Some((Token::LBracket, 1))
    } else if c == ']' {
        Some((Token::RBracket, 1))
    } else if c == ',' {
        Some((Token::Comma, 1))
    } else if c == '.' {
        Some((Token::Dot, 1))
    } else {
        None
    }
}

/// Splits an expression's text into tokens; `None` where it holds a character that
/// starts no token, or a string literal that is not closed.
pub fn tokenize(src: &str) -> (r: Option<Vec<Token>>)
    ensures
        match r {
            Some(ts) => lex(src@) == Some(tokens_view(ts@)),
            None => lex(src@) is None,
        },
{
    let s = chars_of(src);
    let mut toks: Vec<Token> = Vec::new();
    let mut i: usize = 0;
    while i < s.len()
        invariant
            s@ == src@,
            i <= s@.len(),
            lex(s@) == prepend_all(tokens_view(toks@), lex_from(s@, i as nat)),
        decreases s.len() - i,
    {
        let c = s[i];
        let ghost before = toks@;
        if c == ' ' || c == '\t' || c == '\n' || c == '\r' {
            i = i + 1;
        } else if ('a' <= c && c <= 'z') || ('A' <= c && c <= 'Z') || c == '_' {
            let j = word_end_exec(&s, i + 1);
            let t = word_token_exec(&s, src, i, j);
            toks.push(t);
            proof {
                assert(tokens_view(toks@) =~= tokens_view(before) + seq![t@]);
                assert(tokens_view(before) + (seq![t@] + lex_from(s@, j as nat)->0) =~= tokens_view(toks@) + lex_from(s@, j as nat)->0);
            }
            i = j;
        } else if '0' <= c && c <= '9' {
            let (j, is_real) = number_end_exec(&s, i);
            if j <= i {
                return None;
            }
            let text = String::from_str(src.substring_char(i, j));
            let t = if is_real {
                Token::Real(text)
            } else {
                Token::Int(text)
            };
            toks.push(t);
            proof {
                assert(tokens_view(toks@) =~= tokens_view(before) + seq![t@]);
                assert(tokens_view(before) + (seq![t@] + lex_from(s@, j as nat)->0) =~= tokens_view(toks@) + lex_from(s@, j as nat)->0);
            }
            i = j;
        } else if c == '\'' || c == '"' {
            match quote_end_exec(&s, i + 1, c) {
                Some(j) => {
                    proof {
                        lemma_quote_end_bounds(s@, (i + 1) as nat, c);
                    }
                    let t = Token::Str(String::from_str(src.substring_char(i + 1, j)));
                    toks.push(t);
                    proof {
                        assert(tokens_view(toks@) =~= tokens_view(before) + seq![t@]);
                        assert(tokens_view(before) + (seq![t@] + lex_from(s@, (j + 1) as nat)->0) =~= tokens_view(toks@) + lex_from(s@, (j + 1) as nat)->0);
                    }
                    i = j + 1;
                },
                None => {
                    return None;
                },
            }
        } else {
            match symbol_exec(&s, i) {
                Some((t, w)) => {
                    toks.push(t);
                    proof {
                        assert(tokens_view(toks@) =~= tokens_view(before) + seq![t@]);
                        assert(tokens_view(before) + (seq![t@] + lex_from(s@, (i + w) as nat)->0) =~= tokens_view(toks@) + lex_from(s@, (i + w) as nat)->0);
                    }
                    i = i + w;
                },
                None => {
                    return None;
                },
            }
        }
    }
    proof {
        assert(tokens_view(toks@) + Seq::<TokenModel>::empty() =~= tokens_view(toks@));
    }
    Some(toks)
}

} // verus!
