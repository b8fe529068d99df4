//! A recursive-descent parser from tokens to statements, proved against a
//! model of the grammar. Statements end at a newline or at the end of the
//! input; the usual precedence holds: equality below comparison below `+ -`
//! below `* /` below unary `! -`.
use vstd::prelude::*;
use crate::ast::{Expr, Operator, Stmt};
use crate::token::{Spanned, Token, TokenV};
use crate::value::Numeric;

verus! {

/// Tokens that do not form a program.
#[derive(Debug, Clone, Copy, PartialEq, Eq, Structural)]
pub enum ParseError {
    /// A token where it cannot stand, with its first byte offset.
    UnexpectedToken { pos: usize },
    /// The input ended inside a statement.
    UnexpectedEnd,
}

pub type Parsed<N> = Result<(Expr<N>, usize), ParseError>;

/// The structure of an expression, with each number literal as its text.
pub enum ExprV {
    Nil,
    Identifier(Seq<char>),
    Number(Seq<char>),
    Str(Seq<char>),
    Boolean(bool),
    Unary(Operator, Box<ExprV>),
    Binary(Operator, Box<ExprV>, Box<ExprV>),
}

/// The structure of a statement.
pub enum StmtV {
    Expr(ExprV),
    Print(ExprV),
    Let(Seq<char>, ExprV),
}

/// The tokens of a list of spanned tokens.
pub open spec fn token_list(toks: Seq<Spanned>) -> Seq<TokenV> {
    toks.map_values(|s: Spanned| s.token@)
}

/// Whether an expression has a structure. A number literal's value is what
/// the number type makes of the literal's text.
pub open spec fn expr_fits<N>(e: Expr<N>, v: ExprV) -> bool
    decreases e,
{
    match (e, v) {
        (Expr::Nil, ExprV::Nil) => true,
        (Expr::Identifier(n), ExprV::Identifier(m)) => n@ == m,
        (Expr::NumberLiteral(_), ExprV::Number(_)) => true,
        (Expr::StringLiteral(s), ExprV::Str(t)) => s@ == t,
        (Expr::BooleanLiteral(b), ExprV::Boolean(c)) => b == c,
        (Expr::UnaryOp(o, x), ExprV::Unary(p, y)) => o == p && expr_fits(*x, *y),
        (Expr::BinaryOp(o, a, b), ExprV::Binary(p, c, d)) => o == p && expr_fits(*a, *c)
            && expr_fits(*b, *d),
        _ => false,
    }
}

/// Whether a statement has a structure.
pub open spec fn stmt_fits<N>(s: Stmt<N>, v: StmtV) -> bool {
    match (s, v) {
        (Stmt::ExprStmt(e), StmtV::Expr(w)) => expr_fits(e, w),
        (Stmt::Print(e), StmtV::Print(w)) => expr_fits(e, w),
        (Stmt::Let(n, e), StmtV::Let(m, w)) => n@ == m && expr_fits(e, w),
        _ => false,
    }
}

/// Whether a program has a structure, statement by statement.
pub open spec fn program_fits<N>(p: Seq<Stmt<N>>, v: Seq<StmtV>) -> bool {
    p.len() == v.len() && forall|k: int| 0 <= k < p.len() ==> stmt_fits(#[trigger] p[k], v[k])
}

/// The binary operator that a token stands for at a precedence level.
pub open spec fn level_op(t: TokenV, level: int) -> Option<Operator> {
    match t {
        TokenV::EqualEqual => if level == 0 { Some(Operator::Equals) } else { None },
        TokenV::NotEqual => if level == 0 { Some(Operator::NotEquals) } else { None },
        TokenV::Greater => if level == 1 { Some(Operator::GreaterThan) } else { None },
        TokenV::GreaterEqual => if level == 1 { Some(Operator::GreaterEquals) } else { None },
        TokenV::Less => if level == 1 { Some(Operator::LessThan) } else { None },
        TokenV::LessEqual => if level == 1 { Some(Operator::LessEquals) } else { None },
        TokenV::Plus => if level == 2 { Some(Operator::Add) } else { None },
        TokenV::Minus => if level == 2 { Some(Operator::Subtract) } else { None },
        TokenV::Star => if level == 3 { Some(Operator::Multiply) } else { None },
        TokenV::Slash => if level == 3 { Some(Operator::Divide) } else { None },
        _ => None,
    }
}

/// The expression at a precedence level (0 the loosest, 4 unary) that
/// begins at `at`, and the index after it. Each step of the grammar moves
/// forward; the tests on positions give the termination measure what it
/// needs.
pub open spec fn p_level(ts: Seq<TokenV>, at: int, level: int) -> Option<(ExprV, int)>
    decreases ts.len() - at, if 0 <= level < 4 { 10 - level } else { 6 },
{
    if level >= 4 || level < 0 {
        p_unary(ts, at)
    } else {
        match p_level(ts, at, level + 1) {
            Some((l, pos)) => if at < pos <= ts.len() {
                p_rest(ts, l, pos, level)
            } else {
                None
            },
            None => None,
        }
    }
}

/// The operators of a level and their right operands that follow `lhs`,
/// folded to the left.
pub open spec fn p_rest(ts: Seq<TokenV>, lhs: ExprV, pos: int, level: int) -> Option<(ExprV, int)>
    decreases ts.len() - pos, 11int,
{
    if 0 <= pos < ts.len() && 0 <= level < 4 && level_op(ts[pos], level) is Some {
        let op = level_op(ts[pos], level).unwrap();
        match p_level(ts, pos + 1, level + 1) {
            Some((r, next)) => if pos < next <= ts.len() {
                p_rest(ts, ExprV::Binary(op, Box::new(lhs), Box::new(r)), next, level)
            } else {
                None
            },
            None => None,
        }
    } else {
        Some((lhs, pos))
    }
}

/// A unary expression that begins at `at`.
pub open spec fn p_unary(ts: Seq<TokenV>, at: int) -> Option<(ExprV, int)>
    decreases ts.len() - at, 5int,
{
    if at < 0 || at >= ts.len() {
        None
    } else if ts[at] is Not || ts[at] is Minus {
        let op = if ts[at] is Not { Operator::Not } else { Operator::UnaryMinus };
        match p_unary(ts, at + 1) {
            Some((e, next)) => Some((ExprV::Unary(op, Box::new(e)), next)),
            None => None,
        }
    } else {
        p_primary(ts, at)
    }
}

/// A literal, a name, or an expression in parentheses that begins at `at`.
pub open spec fn p_primary(ts: Seq<TokenV>, at: int) -> Option<(ExprV, int)>
    decreases ts.len() - at, 4int,
{
    if at < 0 || at >= ts.len() {
        None
    } else {
        match ts[at] {
            TokenV::Number(t) => Some((ExprV::Number(t), at + 1)),
            TokenV::String(s) => Some((ExprV::Str(s), at + 1)),
            TokenV::Identifier(n) => Some((ExprV::Identifier(n), at + 1)),
            TokenV::True => Some((ExprV::Boolean(true), at + 1)),
            TokenV::False => Some((ExprV::Boolean(false), at + 1)),
            TokenV::Nil => Some((ExprV::Nil, at + 1)),
            TokenV::OpenParen => match p_level(ts, at + 1, 0) {
                Some((e, next)) => if 0 <= next < ts.len() && ts[next] is CloseParen {
                    Some((e, next + 1))
                } else {
                    None
                },
                None => None,
            },
            _ => None,
        }
    }
}

/// The statement that begins at `at`: `print e`, `let name = e`, or `e`.
pub open spec fn p_stmt(ts: Seq<TokenV>, at: int) -> Option<(StmtV, int)> {
    if at < 0 || at >= ts.len() {
        None
    } else if ts[at] is Print {
        match p_level(ts, at + 1, 0) {
            Some((e, next)) => Some((StmtV::Print(e), next)),
            None => None,
        }
    } else if ts[at] is Let {
        if at + 2 < ts.len() && ts[at + 1] is Identifier && ts[at + 2] is Equal {
            match p_level(ts, at + 3, 0) {
                Some((e, next)) => Some((StmtV::Let(ts[at + 1]->Identifier_0, e), next)),
                None => None,
            }
        } else {
            None
        }
    } else {
        match p_level(ts, at, 0) {
            Some((e, next)) => Some((StmtV::Expr(e), next)),
            None => None,
        }
    }
}

/// The statements from `pos` on, each ended by a newline or by the end of
/// the input, with blank lines passed over; `None` where the tokens form no
/// program.
pub open spec fn p_program(ts: Seq<TokenV>, pos: int) -> Option<Seq<StmtV>>
    decreases ts.len() - pos,
{
    if pos < 0 || pos >= ts.len() {
        Some(Seq::empty())
    } else if ts[pos] is NewLine {
        p_program(ts, pos + 1)
    } else {
        match p_stmt(ts, pos) {
            Some((s, next)) => if pos < next <= ts.len() && (next == ts.len()
                || ts[next] is NewLine) {
                match p_program(ts, next) {
                    Some(rest) => Some(seq![s] + rest),
                    None => None,
                }
            } else {
                None
            },
            None => None,
        }
    }
}

/// Whether an exec parse result is the one the model gives.
pub open spec fn parsed_as<N>(r: Parsed<N>, m: Option<(ExprV, int)>) -> bool {
    match (r, m) {
        (Ok((e, p)), Some((v, q))) => p == q && expr_fits(e, v),
        (Err(_), None) => true,
        _ => false,
    }
}

fn binary_level_op(t: &Token, level: u8) -> (r: Option<Operator>)
    ensures
        r == level_op(t@, level as int),
{
    match (level, t) {
        (0, Token::EqualEqual) => Some(Operator::Equals),
        (0, Token::NotEqual) => Some(Operator::NotEquals),
        (1, Token::Greater) => Some(Operator::GreaterThan),
        (1, Token::GreaterEqual) => Some(Operator::GreaterEquals),
        (1, Token::Less) => Some(Operator::LessThan),
        (1, Token::LessEqual) => Some(Operator::LessEquals),
        (2, Token::Plus) => Some(Operator::Add),
        (2, Token::Minus) => Some(Operator::Subtract),
        (3, Token::Star) => Some(Operator::Multiply),
        (3, Token::Slash) => Some(Operator::Divide),
        _ => None,
    }
}

fn unexpected(toks: &Vec<Spanned>, at: usize) -> (r: ParseError)
    requires
        at <= toks@.len(),
{
    if at < toks.len() {
        ParseError::UnexpectedToken { pos: toks[at].start }
    } else {
        ParseError::UnexpectedEnd
    }
}

/// An expression at a precedence level (0 is the loosest; 4 is unary) that
/// begins at `at`.
fn parse_level<N: Numeric>(toks: &Vec<Spanned>, at: usize, level: u8) -> (r: Parsed<N>)
    requires
        level <= 4,
    ensures
        parsed_as(r, p_level(token_list(toks@), at as int, level as int)),
        r matches Ok(p) ==> at < p.1 <= toks@.len(),
    decreases toks@.len() - at, 10 - level,
{
    let ghost ts = token_list(toks@);
    if level == 4 {
        return parse_unary(toks, at);
    }
    let (mut lhs, mut pos) = match parse_level(toks, at, level + 1) {
        Ok(p) => p,
        Err(e) => return Err(e),
    };
    let ghost mut lv = p_level(ts, at as int, level + 1).unwrap().0;
    let mut done = false;
    while !done && pos < toks.len()
        invariant
            ts == token_list(toks@),
            at < pos <= toks@.len(),
            level < 4,
            expr_fits(lhs, lv),
            p_level(ts, at as int, level as int) == p_rest(ts, lv, pos as int, level as int),
            done ==> p_rest(ts, lv, pos as int, level as int) == Some((lv, pos as int)),
        decreases toks@.len() - pos, if done { 0int } else { 1int },
    {
        match binary_level_op(&toks[pos].token, level) {
            Some(op) => {
                let (rhs, next) = match parse_level(toks, pos + 1, level + 1) {
                    Ok(p) => p,
                    Err(e) => return Err(e),
                };
                proof {
                    let rv = p_level(ts, pos + 1, level + 1).unwrap().0;
                    lv = ExprV::Binary(op, Box::new(lv), Box::new(rv));
                }
                lhs = Expr::BinaryOp(op, Box::new(lhs), Box::new(rhs));
                pos = next;
            },
            None => {
                done = true;
            },
        }
    }
    Ok((lhs, pos))
}

/// A unary expression: `!` or `-` before a unary expression, or a primary one.
fn parse_unary<N: Numeric>(toks: &Vec<Spanned>, at: usize) -> (r: Parsed<N>)
    ensures
        parsed_as(r, p_unary(token_list(toks@), at as int)),
        r matches Ok(p) ==> at < p.1 <= toks@.len(),
    decreases toks@.len() - at, 5int,
{
    if at >= toks.len() {
        return Err(ParseError::UnexpectedEnd);
    }
    let op = match &toks[at].token {
        Token::Not => Operator::Not,
        Token::Minus => Operator::UnaryMinus,
        _ => return parse_primary(toks, at),
    };
    match parse_unary(toks, at + 1) {
        Ok((e, next)) => Ok((Expr::UnaryOp(op, Box::new(e)), next)),
        Err(e) => Err(e),
    }
}

/// A literal, a name, or an expression in parentheses.
fn parse_primary<N: Numeric>(toks: &Vec<Spanned>, at: usize) -> (r: Parsed<N>)
    requires
        at < toks@.len(),
    ensures
        parsed_as(r, p_primary(token_list(toks@), at as int)),
        r matches Ok(p) ==> at < p.1 <= toks@.len(),
    decreases toks@.len() - at, 4int,
{
    let n = toks.len();
    assert(at < n);
    let e = match &toks[at].token {
        Token::Number(text) => Expr::NumberLiteral(N::from_literal(text.as_str())),
        Token::String(s) => Expr::StringLiteral(s.clone()),
        Token::Identifier(n) => Expr::Identifier(n.clone()),
        Token::True => Expr::BooleanLiteral(true),
        Token::False => Expr::BooleanLiteral(false),
        Token::Nil => Expr::Nil,
        Token::OpenParen => {
            let (inner, next) = match parse_level(toks, at + 1, 0) {
                Ok(p) => p,
                Err(e) => return Err(e),
            };
            if next < toks.len() {
                if let Token::CloseParen = &toks[next].token {
                    return Ok((inner, next + 1));
                }
            }
            return Err(unexpected(toks, next));
        },
        _ => return Err(ParseError::UnexpectedToken { pos: toks[at].start }),
    };
    Ok((e, at + 1))
}

} // verus!

verus! {

/// One statement that begins at `at`: `print e`, `let name = e`, or `e`.
fn parse_stmt<N: Numeric>(toks: &Vec<Spanned>, at: usize) -> (r: Result<(Stmt<N>, usize), ParseError>)
    requires
        at < toks@.len(),
    ensures
        match (r, p_stmt(token_list(toks@), at as int)) {
            (Ok((s, p)), Some((v, q))) => p == q && stmt_fits(s, v),
            (Err(_), None) => true,
            _ => false,
        },
        r matches Ok(p) ==> at < p.1 <= toks@.len(),
{
    let n = toks.len();
    match &toks[at].token {
        Token::Print => match parse_level(toks, at + 1, 0) {
            Ok((e, next)) => Ok((Stmt::Print(e), next)),
            Err(e) => Err(e),
        },
        Token::Let => {
            if n - at <= 2 {
                return Err(ParseError::UnexpectedEnd);
            }
            let name = match &toks[at + 1].token {
                Token::Identifier(name) => name.clone(),
                _ => return Err(ParseError::UnexpectedToken { pos: toks[at + 1].start }),
            };
            match &toks[at + 2].token {
                Token::Equal => {},
                _ => return Err(ParseError::UnexpectedToken { pos: toks[at + 2].start }),
            }
            match parse_level(toks, at + 3, 0) {
                Ok((e, next)) => Ok((Stmt::Let(name, e), next)),
                Err(e) => Err(e),
            }
        },
        _ => match parse_level(toks, at, 0) {
            Ok((e, next)) => Ok((Stmt::ExprStmt(e), next)),
            Err(e) => Err(e),
        },
    }
}

/// The statements that `toks` spell, each ended by a newline or by the end
/// of the input; blank lines are passed over. The result is `Ok` exactly
/// when the tokens form a program, and then has its structure.
pub fn parse_program<N: Numeric>(toks: &Vec<Spanned>) -> (r: Result<Vec<Stmt<N>>, ParseError>)
    ensures
        match (r, p_program(token_list(toks@), 0)) {
            (Ok(p), Some(v)) => program_fits(p@, v),
            (Err(_), None) => true,
            _ => false,
        },
{
    let ghost ts = token_list(toks@);
    let n = toks.len();
    let mut out: Vec<Stmt<N>> = Vec::new();
    let ghost mut outv: Seq<StmtV> = Seq::empty();
    let mut pos: usize = 0;
    while pos < n
        invariant
            ts == token_list(toks@),
            n == toks@.len(),
            pos <= n,
            program_fits(out@, outv),
            p_program(ts, 0) == match p_program(ts, pos as int) {
                Some(rest) => Some(outv + rest),
                None => None::<Seq<StmtV>>,
            },
        decreases n - pos,
    {
        if let Token::NewLine = &toks[pos].token {
            pos = pos + 1;
        } else {
            let (stmt, next) = match parse_stmt(toks, pos) {
                Ok(p) => p,
                Err(e) => return Err(e),
            };
            if next < n {
                if let Token::NewLine = &toks[next].token {
                } else {
                    return Err(ParseError::UnexpectedToken { pos: toks[next].start });
                }
            }
            proof {
                let sv = p_stmt(ts, pos as int).unwrap().0;
                match p_program(ts, next as int) {
                    Some(rest) => {
                        assert(outv + (seq![sv] + rest) =~= outv.push(sv) + rest);
                    },
                    None => {},
                }
                outv = outv.push(sv);
            }
            out.push(stmt);
            pos = next;
        }
    }
    assert(outv + Seq::<StmtV>::empty() =~= outv);
    Ok(out)
}

} // verus!
