//! Properties of the lexer, stated over its model and proved.
use vstd::prelude::*;
use crate::lexer::{
    digits_end, id_char, id_end, id_start, is_digit, keyword, lex_spec, number_end, quote_from,
    scan, scan_comment, word_token, FailV, Step,
};
use crate::token::TokenV;
use crate::ast::{Expr, Operator, Stmt};
use crate::eval::{runs_as, Report, binds_after, env_after, eval_model, lookup, lookup_value, same_value, stmt_expr};
use crate::value::{conforms, fits, shape_of, ErrV, EvalError, Shape, Value};

verus! {

/// Lexing is a function of the text: equal texts give equal results.
pub proof fn lex_is_deterministic(a: Seq<char>, b: Seq<char>)
    requires
        a == b,
    ensures
        lex_spec(a) == lex_spec(b),
{
}

proof fn lemma_digits_end_bounds(s: Seq<char>, i: int)
    requires
        0 <= i <= s.len(),
    ensures
        i <= digits_end(s, i) <= s.len(),
    decreases s.len() - i,
{
    if i < s.len() && is_digit(s[i]) {
        lemma_digits_end_bounds(s, i + 1);
    }
}

/// A dot after the digits of a number belongs to the number exactly when a
/// digit follows it; otherwise the number ends before the dot, and the dot is
/// a token of its own.
pub proof fn number_dot_rule(s: Seq<char>, i: int)
    requires
        0 <= i < s.len(),
        is_digit(s[i]),
        digits_end(s, i) + 1 < s.len(),
        s[digits_end(s, i)] == '.',
    ensures
        is_digit(s[digits_end(s, i) + 1]) ==> scan(s, i) == Step::Found(
            TokenV::Number(s.subrange(i, number_end(s, i))),
            i,
            number_end(s, i),
        ) && number_end(s, i) > digits_end(s, i) + 1,
        !is_digit(s[digits_end(s, i) + 1]) ==> scan(s, i) == Step::Found(
            TokenV::Number(s.subrange(i, digits_end(s, i))),
            i,
            digits_end(s, i),
        ) && scan(s, digits_end(s, i)) == Step::Found(
            TokenV::Dot,
            digits_end(s, i),
            digits_end(s, i) + 1,
        ),
{
    let e = digits_end(s, i);
    lemma_digits_end_bounds(s, i);
    if is_digit(s[e + 1]) {
        lemma_digits_end_bounds(s, e + 2);
    }
}

proof fn lemma_no_quote(s: Seq<char>, i: int)
    requires
        0 <= i <= s.len(),
        forall|k: int| i <= k < s.len() ==> s[k] != '"',
    ensures
        quote_from(s, i) == s.len(),
    decreases s.len() - i,
{
    if i < s.len() {
        lemma_no_quote(s, i + 1);
    }
}

/// A `"` with no `"` after it gives a lexical error, never a token.
pub proof fn unterminated_string_fails(s: Seq<char>, i: int)
    requires
        0 <= i < s.len(),
        s[i] == '"',
        forall|k: int| i < k < s.len() ==> s[k] != '"',
    ensures
        scan(s, i) == Step::Fail(FailV::Unterminated(i), s.len() as int),
{
    lemma_no_quote(s, i + 1);
}

proof fn lemma_comment(s: Seq<char>, i: int)
    requires
        0 <= i,
    ensures
        scan_comment(s, i) is Done || (scan_comment(s, i) matches Step::Found(t, a, b) && t
            == TokenV::NewLine && i <= a && b == a + 1 && a < s.len() && s[a] == '\n'
            && forall|k: int| i <= k < a ==> s[k] != '\n'),
    decreases s.len() - i,
{
    if i < s.len() && s[i] != '\n' {
        lemma_comment(s, i + 1);
    }
}

/// What follows `//` up to the end of its line never becomes a token: the
/// lexer finds the end of the input, or the newline that ends the comment.
pub proof fn comment_yields_no_token(s: Seq<char>, i: int)
    requires
        0 <= i,
        i + 1 < s.len(),
        s[i] == '/',
        s[i + 1] == '/',
    ensures
        scan(s, i) is Done || (scan(s, i) matches Step::Found(t, a, b) && t == TokenV::NewLine
            && i + 2 <= a && b == a + 1 && s[a] == '\n' && forall|k: int|
            i + 2 <= k < a ==> s[k] != '\n'),
{
    lemma_comment(s, i + 2);
}

proof fn lemma_id_end_all(s: Seq<char>, i: int)
    requires
        0 <= i <= s.len(),
        forall|k: int| 0 <= k < s.len() ==> id_char(#[trigger] s[k]),
    ensures
        id_end(s, i) == s.len(),
    decreases s.len() - i,
{
    if i < s.len() {
        lemma_id_end_all(s, i + 1);
    }
}

/// A whole text shaped like an identifier is one token: its keyword if it
/// spells one, else an identifier holding the text.
pub proof fn word_is_one_token(s: Seq<char>)
    requires
        s.len() > 0,
        id_start(s[0]),
        forall|k: int| 0 <= k < s.len() ==> id_char(#[trigger] s[k]),
    ensures
        scan(s, 0) == Step::Found(word_token(s), 0, s.len() as int),
        keyword(s) is None ==> scan(s, 0) == Step::Found(
            TokenV::Identifier(s),
            0,
            s.len() as int,
        ),
        keyword(s) is Some ==> scan(s, 0) == Step::Found(keyword(s).unwrap(), 0, s.len() as int),
{
    lemma_id_end_all(s, 0);
    assert(s.subrange(0, s.len() as int) =~= s);
}

} // verus!

verus! {

/// A `let` of a number followed by an expression statement that adds its
/// name to a number: the second statement gives a number, and afterwards the
/// name is bound to the value that the first statement gave.
pub proof fn let_then_use<N>(
    prog: Seq<Stmt<N>>,
    vals: Seq<Value<N>>,
    env: Seq<(Seq<char>, Shape)>,
    binds: Seq<(Seq<char>, Value<N>)>,
    x: String,
    y: String,
    a: N,
    b: N,
)
    requires
        x@ == y@,
        prog.len() == 2,
        prog[0] == Stmt::Let(x, Expr::NumberLiteral(a)),
        prog[1] == Stmt::ExprStmt(
            Expr::BinaryOp(
                Operator::Add,
                Box::new(Expr::Identifier(y)),
                Box::new(Expr::NumberLiteral(b)),
            ),
        ),
        vals.len() == 2,
        fits(vals[0], Shape::Number),
    ensures
        eval_model(stmt_expr(prog[0]), env) == Ok::<Shape, ErrV>(Shape::Number),
        eval_model(stmt_expr(prog[1]), env_after(prog, vals, env, 1)) == Ok::<Shape, ErrV>(
            Shape::Number,
        ),
        lookup(env_after(prog, vals, env, 2), x@) == Some(shape_of(vals[0])),
        lookup_value(binds_after(prog, vals, binds, 2), x@) == Some(vals[0]),
{
    assert(binds_after(prog, vals, binds, 0) == binds);
    assert(binds_after(prog, vals, binds, 1) == binds.push((x@, vals[0])));
    assert(binds_after(prog, vals, binds, 2) == binds_after(prog, vals, binds, 1));
    assert(env_after(prog, vals, env, 0) == env);
    let e1 = env_after(prog, vals, env, 1);
    assert(e1 == env.push((x@, shape_of(vals[0]))));
    assert(e1.drop_last() == env);
    assert(lookup(e1, y@) == Some(Shape::Number));
    assert(eval_model(Expr::<N>::Identifier(y), e1) == Ok::<Shape, ErrV>(Shape::Number));
    assert(eval_model(Expr::<N>::NumberLiteral(b), e1) == Ok::<Shape, ErrV>(Shape::Number));
    assert(env_after(prog, vals, env, 2) == e1);
}

/// A name that no binding holds fails to evaluate, with that name. (A
/// failed statement leaves the bindings as they were: see `eval_stmt`.)
pub proof fn undefined_name_fails<N>(n: String, env: Seq<(Seq<char>, Shape)>)
    requires
        lookup(env, n@) is None,
    ensures
        eval_model(Expr::<N>::Identifier(n), env) == Err::<Shape, ErrV>(
            ErrV::UndefinedVariable(n@),
        ),
{
}

/// A `Print` statement hands out exactly what its expression evaluates to.
pub proof fn print_gives_expression_value<N>(e: Expr<N>, env: Seq<(Seq<char>, Shape)>)
    ensures
        eval_model(stmt_expr(Stmt::Print(e)), env) == eval_model(e, env),
{
}

/// Two evaluations of one expression against the same bindings agree:
/// both fail with the same error, or both succeed with values of the same
/// type, equal wherever no number arithmetic decides them.
pub proof fn repeated_evaluation_agrees<N>(
    e: Expr<N>,
    env: Seq<(Seq<char>, Shape)>,
    r1: Result<Value<N>, EvalError>,
    r2: Result<Value<N>, EvalError>,
)
    requires
        conforms(r1, eval_model(e, env)),
        conforms(r2, eval_model(e, env)),
    ensures
        r1 is Ok <==> r2 is Ok,
        r1 is Err ==> r1->Err_0@ == r2->Err_0@,
        r1 is Ok ==> shape_of(r1->Ok_0) is Number == shape_of(r2->Ok_0) is Number,
        r1 is Ok ==> (eval_model(e, env) matches Ok(s) && (s is Nil || s is Str || s
            == Shape::Boolean(Some(true)) || s == Shape::Boolean(Some(false))) ==> same_value(
            r1->Ok_0,
            r2->Ok_0,
        )),
{
}

} // verus!

verus! {

proof fn lemma_id_end_bounds(s: Seq<char>, i: int)
    requires
        0 <= i <= s.len(),
    ensures
        i <= id_end(s, i) <= s.len(),
    decreases s.len() - i,
{
    if i < s.len() && id_char(s[i]) {
        lemma_id_end_bounds(s, i + 1);
    }
}

proof fn lemma_quote_from_bounds(s: Seq<char>, i: int)
    requires
        0 <= i <= s.len(),
    ensures
        i <= quote_from(s, i) <= s.len(),
    decreases s.len() - i,
{
    if i < s.len() && s[i] != '"' {
        lemma_quote_from_bounds(s, i + 1);
    }
}

/// Lexing is total: at every index, the lexer finds the end of the input,
/// or a token or an error that lies ahead of the index and inside the text,
/// so that the next step starts further on.
pub proof fn scan_moves_forward(s: Seq<char>, i: int)
    requires
        0 <= i <= s.len(),
    ensures
        match scan(s, i) {
            Step::Done => true,
            Step::Found(_, a, b) => i <= a < b <= s.len(),
            Step::Fail(_, n) => i < n <= s.len(),
        },
    decreases s.len() - i,
{
    if i < s.len() {
        lemma_id_end_bounds(s, i + 1);
        lemma_digits_end_bounds(s, i + 1);
        lemma_quote_from_bounds(s, i + 1);
        let e = digits_end(s, i);
        if 0 <= e + 1 <= s.len() {
            lemma_digits_end_bounds(s, e + 1);
        }
        if i + 2 <= s.len() {
            lemma_comment(s, i + 2);
        }
        scan_moves_forward(s, i + 1);
    }
}

} // verus!

verus! {

/// After a binding of `n` to `w`, looking `n` up finds `w`, whatever was
/// bound before.
pub proof fn binding_is_visible<N>(b: Seq<(Seq<char>, Value<N>)>, n: Seq<char>, w: Value<N>)
    ensures
        lookup_value(b.push((n, w)), n) == Some(w),
{
}

} // verus!

verus! {

/// Running an empty program gives `nil`, prints nothing and binds nothing.
pub proof fn empty_program_is_nil<N>(
    env: Seq<(Seq<char>, Shape)>,
    r: Report<N>,
    fin: Seq<(Seq<char>, Shape)>,
)
    requires
        runs_as(Seq::<Stmt<N>>::empty(), env, r, fin),
    ensures
        r.result matches Ok(v) && v is Nil,
        r.printed@.len() == 0,
        fin == env,
{
}

} // verus!
