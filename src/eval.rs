//! The binding store and the tree-walking evaluator.
use vstd::prelude::*;
use vstd::string::StringExecFns;
use crate::ast::{Expr, Operator, Stmt};
use crate::lexer::{chars_of, same_text};
use crate::value::{
    binary_model, conforms, fits, shape_eq, shape_of, text_lt, truthy, unary_model, ErrV,
    EvalError, Numeric, Shape, Value,
};

verus! {

/// The shape bound to `name` in `env`: its latest binding.
pub open spec fn lookup(env: Seq<(Seq<char>, Shape)>, name: Seq<char>) -> Option<Shape>
    decreases env.len(),
{
    if env.len() == 0 {
        None
    } else if env.last().0 == name {
        Some(env.last().1)
    } else {
        lookup(env.drop_last(), name)
    }
}

/// The value bound to `name` in `b`: its latest binding.
pub open spec fn lookup_value<N>(b: Seq<(Seq<char>, Value<N>)>, name: Seq<char>) -> Option<Value<N>>
    decreases b.len(),
{
    if b.len() == 0 {
        None
    } else if b.last().0 == name {
        Some(b.last().1)
    } else {
        lookup_value(b.drop_last(), name)
    }
}

/// What evaluating `e` gives in an environment.
pub open spec fn eval_model<N>(e: Expr<N>, env: Seq<(Seq<char>, Shape)>) -> Result<Shape, ErrV>
    decreases e,
{
    match e {
        Expr::Nil => Ok(Shape::Nil),
        Expr::Identifier(n) => match lookup(env, n@) {
            Some(s) => Ok(s),
            None => Err(ErrV::UndefinedVariable(n@)),
        },
        Expr::NumberLiteral(_) => Ok(Shape::Number),
        Expr::StringLiteral(s) => Ok(Shape::Str(s@)),
        Expr::BooleanLiteral(b) => Ok(Shape::Boolean(Some(b))),
        Expr::UnaryOp(op, x) => match eval_model(*x, env) {
            Ok(v) => unary_model(op, v),
            Err(err) => Err(err),
        },
        Expr::BinaryOp(op, l, r) => match eval_model(*l, env) {
            Ok(a) => match eval_model(*r, env) {
                Ok(b) => binary_model(op, a, b),
                Err(err) => Err(err),
            },
            Err(err) => Err(err),
        },
    }
}

/// The variable bindings of one session; a later binding of a name hides
/// the earlier ones.
pub struct Context<N> {
    vars: Vec<(String, Value<N>)>,
}

impl<N: Numeric> Context<N> {
    /// The bindings, oldest first, as names and shapes.
    pub closed spec fn env(&self) -> Seq<(Seq<char>, Shape)> {
        self.vars@.map_values(|p: (String, Value<N>)| (p.0@, shape_of(p.1)))
    }

    /// The bindings, oldest first, as names and values.
    pub closed spec fn bindings(&self) -> Seq<(Seq<char>, Value<N>)> {
        self.vars@.map_values(|p: (String, Value<N>)| (p.0@, p.1))
    }

    /// A context with no bindings.
    pub fn new() -> (r: Context<N>)
        ensures
            r.env() == Seq::<(Seq<char>, Shape)>::empty(),
            r.bindings() == Seq::<(Seq<char>, Value<N>)>::empty(),
    {
        let r = Context { vars: Vec::new() };
        assert(r.env() =~= Seq::<(Seq<char>, Shape)>::empty());
        assert(r.bindings() =~= Seq::<(Seq<char>, Value<N>)>::empty());
        r
    }

    /// Binds `name` to `v`.
    pub fn bind(&mut self, name: String, v: Value<N>)
        ensures
            final(self).env() == old(self).env().push((name@, shape_of(v))),
            final(self).bindings() == old(self).bindings().push((name@, v)),
    {
        let ghost entry = (name@, shape_of(v));
        let ghost binding = (name@, v);
        self.vars.push((name, v));
        assert(self.env() =~= old(self).env().push(entry));
        assert(self.bindings() =~= old(self).bindings().push(binding));
    }

    /// The value bound to `name`, if any.
    pub fn get(&self, name: &str) -> (r: Option<Value<N>>)
        ensures
            match r {
                Some(v) => lookup(self.env(), name@) == Some(shape_of(v)) && (lookup_value(
                    self.bindings(),
                    name@,
                ) matches Some(w) && same_value(v, w)),
                None => lookup(self.env(), name@) is None && lookup_value(
                    self.bindings(),
                    name@,
                ) is None,
            },
    {
        let mut i = self.vars.len();
        assert(self.env().subrange(0, i as int) =~= self.env());
        assert(self.bindings().subrange(0, i as int) =~= self.bindings());
        while i > 0
            invariant
                i <= self.vars@.len(),
                lookup(self.env(), name@) == lookup(self.env().subrange(0, i as int), name@),
                lookup_value(self.bindings(), name@) == lookup_value(
                    self.bindings().subrange(0, i as int),
                    name@,
                ),
            decreases i,
        {
            let ghost pre = self.env().subrange(0, i as int);
            let ghost preb = self.bindings().subrange(0, i as int);
            assert(pre.drop_last() =~= self.env().subrange(0, i - 1));
            assert(preb.drop_last() =~= self.bindings().subrange(0, i - 1));
            i = i - 1;
            if same_text(self.vars[i].0.as_str(), name) {
                let v = copy_value(&self.vars[i].1);
                return Some(v);
            }
        }
        assert(self.env().subrange(0, 0) =~= Seq::<(Seq<char>, Shape)>::empty());
        assert(self.bindings().subrange(0, 0) =~= Seq::<(Seq<char>, Value<N>)>::empty());
        None
    }
}

/// Whether two values are the same: same type, same payload.
pub open spec fn same_value<N>(a: Value<N>, b: Value<N>) -> bool {
    match (a, b) {
        (Value::Nil, Value::Nil) => true,
        (Value::Number(x), Value::Number(y)) => x == y,
        (Value::String(x), Value::String(y)) => x@ == y@,
        (Value::Boolean(x), Value::Boolean(y)) => x == y,
        _ => false,
    }
}

/// A copy of a value.
pub fn copy_value<N: Numeric>(v: &Value<N>) -> (r: Value<N>)
    ensures
        same_value(r, *v),
        shape_of(r) == shape_of(*v),
{
    match v {
        Value::Nil => Value::Nil,
        Value::Number(n) => Value::Number(*n),
        Value::String(s) => Value::String(s.clone()),
        Value::Boolean(b) => Value::Boolean(*b),
    }
}

/// Whether `a` comes before `b` in lexicographic order of characters.
fn text_less(a: &str, b: &str) -> (r: bool)
    ensures
        r == text_lt(a@, b@),
{
    let x = chars_of(a);
    let y = chars_of(b);
    let mut i: usize = 0;
    assert(x@.subrange(0, x@.len() as int) =~= a@);
    assert(y@.subrange(0, y@.len() as int) =~= b@);
    loop
        invariant
            x@ == a@,
            y@ == b@,
            i <= x@.len(),
            i <= y@.len(),
            text_lt(a@, b@) == text_lt(
                x@.subrange(i as int, x@.len() as int),
                y@.subrange(i as int, y@.len() as int),
            ),
        decreases x@.len() - i,
    {
        let ghost p = x@.subrange(i as int, x@.len() as int);
        let ghost q = y@.subrange(i as int, y@.len() as int);
        if i == x.len() {
            return i < y.len();
        }
        if i == y.len() {
            return false;
        }
        if x[i] != y[i] {
            assert(p[0] == x@[i as int] && q[0] == y@[i as int]);
            return x[i] < y[i];
        }
        assert(p.drop_first() =~= x@.subrange(i + 1, x@.len() as int));
        assert(q.drop_first() =~= y@.subrange(i + 1, y@.len() as int));
        i = i + 1;
    }
}

/// Whether two values are equal; values of different types are unequal.
fn values_equal<N: Numeric>(a: &Value<N>, b: &Value<N>, Ghost(sa): Ghost<Shape>, Ghost(
    sb,
): Ghost<Shape>) -> (r: bool)
    requires
        fits(*a, sa),
        fits(*b, sb),
    ensures
        shape_eq(sa, sb) is Some ==> r == shape_eq(sa, sb).unwrap(),
{
    match (a, b) {
        (Value::Nil, Value::Nil) => true,
        (Value::Number(x), Value::Number(y)) => x.equals(*y),
        (Value::String(x), Value::String(y)) => same_text(x.as_str(), y.as_str()),
        (Value::Boolean(x), Value::Boolean(y)) => *x == *y,
        _ => false,
    }
}

fn is_truthy<N: Numeric>(v: &Value<N>) -> (r: bool)
    ensures
        truthy(shape_of(*v)) == Some(r),
{
    match v {
        Value::Nil => false,
        Value::Boolean(b) => *b,
        _ => true,
    }
}

/// A unary operator applied to a value.
fn apply_unary<N: Numeric>(op: Operator, v: Value<N>, Ghost(s): Ghost<Shape>) -> (r: Result<
    Value<N>,
    EvalError,
>)
    requires
        fits(v, s),
    ensures
        conforms(r, unary_model(op, s)),
{
    match op {
        Operator::Not => Ok(Value::Boolean(!is_truthy(&v))),
        Operator::UnaryMinus => match v {
            Value::Number(n) => Ok(Value::Number(n.negated())),
            _ => Err(EvalError::TypeMismatch(op)),
        },
        _ => Err(EvalError::InvalidOperator(op)),
    }
}

/// A binary operator applied to two values.
fn apply_binary<N: Numeric>(
    op: Operator,
    a: Value<N>,
    b: Value<N>,
    Ghost(sa): Ghost<Shape>,
    Ghost(sb): Ghost<Shape>,
) -> (r: Result<Value<N>, EvalError>)
    requires
        fits(a, sa),
        fits(b, sb),
    ensures
        conforms(r, binary_model(op, sa, sb)),
{
    match op {
        Operator::Equals => Ok(Value::Boolean(values_equal(&a, &b, Ghost(sa), Ghost(sb)))),
        Operator::NotEquals => Ok(Value::Boolean(!values_equal(&a, &b, Ghost(sa), Ghost(sb)))),
        Operator::Add => match (a, b) {
            (Value::Number(x), Value::Number(y)) => Ok(Value::Number(x.plus(y))),
            (Value::String(x), Value::String(y)) => Ok(Value::String(x.concat(y.as_str()))),
            _ => Err(EvalError::TypeMismatch(op)),
        },
        Operator::Subtract | Operator::Multiply | Operator::Divide => match (a, b) {
            (Value::Number(x), Value::Number(y)) => Ok(
                Value::Number(
                    match op {
                        Operator::Subtract => x.minus(y),
                        Operator::Multiply => x.times(y),
                        _ => x.divided_by(y),
                    },
                ),
            ),
            _ => Err(EvalError::TypeMismatch(op)),
        },
        Operator::GreaterThan | Operator::GreaterEquals | Operator::LessThan
        | Operator::LessEquals => match (a, b) {
            (Value::Number(x), Value::Number(y)) => Ok(
                Value::Boolean(
                    match op {
                        Operator::GreaterThan => y.less_than(x),
                        Operator::GreaterEquals => y.at_most(x),
                        Operator::LessThan => x.less_than(y),
                        _ => x.at_most(y),
                    },
                ),
            ),
            (Value::String(x), Value::String(y)) => Ok(
                Value::Boolean(
                    match op {
                        Operator::GreaterThan => text_less(y.as_str(), x.as_str()),
                        Operator::GreaterEquals => !text_less(x.as_str(), y.as_str()),
                        Operator::LessThan => text_less(x.as_str(), y.as_str()),
                        _ => !text_less(y.as_str(), x.as_str()),
                    },
                ),
            ),
            _ => Err(EvalError::TypeMismatch(op)),
        },
        _ => Err(EvalError::InvalidOperator(op)),
    }
}

/// Evaluates an expression against the bindings of `ctx`, left operand
/// before right, both always.
pub fn eval_expr<N: Numeric>(e: &Expr<N>, ctx: &Context<N>) -> (r: Result<Value<N>, EvalError>)
    ensures
        conforms(r, eval_model(*e, ctx.env())),
    decreases e,
{
    match e {
        Expr::Nil => Ok(Value::Nil),
        Expr::Identifier(name) => match ctx.get(name.as_str()) {
            Some(v) => Ok(v),
            None => Err(EvalError::UndefinedVariable(name.clone())),
        },
        Expr::NumberLiteral(n) => Ok(Value::Number(*n)),
        Expr::StringLiteral(s) => Ok(Value::String(s.clone())),
        Expr::BooleanLiteral(b) => Ok(Value::Boolean(*b)),
        Expr::UnaryOp(op, x) => match eval_expr(x, ctx) {
            Ok(v) => {
                let ghost s = eval_model(**x, ctx.env())->Ok_0;
                apply_unary(*op, v, Ghost(s))
            },
            Err(err) => Err(err),
        },
        Expr::BinaryOp(op, l, r) => match eval_expr(l, ctx) {
            Ok(a) => match eval_expr(r, ctx) {
                Ok(b) => {
                    let ghost sa = eval_model(**l, ctx.env())->Ok_0;
                    let ghost sb = eval_model(**r, ctx.env())->Ok_0;
                    apply_binary(*op, a, b, Ghost(sa), Ghost(sb))
                },
                Err(err) => Err(err),
            },
            Err(err) => Err(err),
        },
    }
}

} // verus!

verus! {

/// The expression that a statement evaluates.
pub open spec fn stmt_expr<N>(s: Stmt<N>) -> Expr<N> {
    match s {
        Stmt::ExprStmt(e) => e,
        Stmt::Print(e) => e,
        Stmt::Let(_, e) => e,
    }
}

/// The bindings after the first `k` statements of `prog` gave the values
/// `vals`, starting from `env`: each `let` adds one.
pub open spec fn env_after<N>(
    prog: Seq<Stmt<N>>,
    vals: Seq<Value<N>>,
    env: Seq<(Seq<char>, Shape)>,
    k: int,
) -> Seq<(Seq<char>, Shape)>
    decreases k,
{
    if k <= 0 {
        env
    } else {
        let prev = env_after(prog, vals, env, k - 1);
        match prog[k - 1] {
            Stmt::Let(n, _) => prev.push((n@, shape_of(vals[k - 1]))),
            _ => prev,
        }
    }
}

/// The name-and-value bindings after the first `k` statements of `prog`
/// gave the values `vals`, starting from `b`.
pub open spec fn binds_after<N>(
    prog: Seq<Stmt<N>>,
    vals: Seq<Value<N>>,
    b: Seq<(Seq<char>, Value<N>)>,
    k: int,
) -> Seq<(Seq<char>, Value<N>)>
    decreases k,
{
    if k <= 0 {
        b
    } else {
        let prev = binds_after(prog, vals, b, k - 1);
        match prog[k - 1] {
            Stmt::Let(n, _) => prev.push((n@, vals[k - 1])),
            _ => prev,
        }
    }
}

/// Whether two lists of bindings bind the same names, in order, to the
/// same values.
pub open spec fn same_bindings<N>(x: Seq<(Seq<char>, Value<N>)>, y: Seq<(Seq<char>, Value<N>)>) -> bool {
    &&& x.len() == y.len()
    &&& forall|k: int|
        #![trigger x[k]]
        0 <= k < x.len() ==> x[k].0 == y[k].0 && same_value(x[k].1, y[k].1)
}

/// Executes one statement. Its result is the value of its expression, which
/// a `Print` hands out to be printed and a `let` binds; a failed statement
/// changes no binding.
pub fn eval_stmt<N: Numeric>(s: &Stmt<N>, ctx: &mut Context<N>) -> (r: Result<Value<N>, EvalError>)
    ensures
        conforms(r, eval_model(stmt_expr(*s), old(ctx).env())),
        final(ctx).env() == match (*s, r) {
            (Stmt::Let(n, _), Ok(v)) => old(ctx).env().push((n@, shape_of(v))),
            _ => old(ctx).env(),
        },
        match (*s, r) {
            (Stmt::Let(n, _), Ok(v)) => {
                &&& final(ctx).bindings().len() == old(ctx).bindings().len() + 1
                &&& final(ctx).bindings().drop_last() == old(ctx).bindings()
                &&& final(ctx).bindings().last().0 == n@
                &&& same_value(final(ctx).bindings().last().1, v)
            },
            _ => final(ctx).bindings() == old(ctx).bindings(),
        },
{
    match s {
        Stmt::ExprStmt(e) => eval_expr(e, ctx),
        Stmt::Print(e) => eval_expr(e, ctx),
        Stmt::Let(name, e) => match eval_expr(e, ctx) {
            Ok(v) => {
                let bound = copy_value(&v);
                ctx.bind(name.clone(), bound);
                Ok(v)
            },
            Err(err) => Err(err),
        },
    }
}

/// What a program did: the value of each statement that ran, in order, and
/// the value of the last statement or the error that stopped the program.
pub struct Report<N> {
    pub values: Vec<Value<N>>,
    /// The values that the `print` statements that ran handed out, in order.
    pub printed: Vec<Value<N>>,
    pub result: Result<Value<N>, EvalError>,
}

/// The values of the `print` statements among the first `k` statements of
/// `prog`, which gave the values `vals`.
pub open spec fn printed_from<N>(prog: Seq<Stmt<N>>, vals: Seq<Value<N>>, k: int) -> Seq<Value<N>>
    decreases k,
{
    if k <= 0 {
        Seq::empty()
    } else {
        let prev = printed_from(prog, vals, k - 1);
        if prog[k - 1] is Print {
            prev.push(vals[k - 1])
        } else {
            prev
        }
    }
}

/// Whether two lists hold the same values, in order.
pub open spec fn same_values<N>(a: Seq<Value<N>>, b: Seq<Value<N>>) -> bool {
    a.len() == b.len() && forall|k: int| 0 <= k < a.len() ==> same_value(#[trigger] a[k], b[k])
}

proof fn lemma_printed_prefix<N>(prog: Seq<Stmt<N>>, a: Seq<Value<N>>, b: Seq<Value<N>>, k: int)
    requires
        0 <= k <= a.len(),
        k <= b.len(),
        forall|j: int| 0 <= j < k ==> a[j] == b[j],
    ensures
        printed_from(prog, b, k) == printed_from(prog, a, k),
    decreases k,
{
    if k > 0 {
        lemma_printed_prefix(prog, a, b, k - 1);
    }
}

/// Whether `r` is what running `prog` from the bindings `env` reports, and
/// `fin` the bindings it leaves: each statement that ran gave a value that
/// its expression allows in the bindings before it; the run stopped at the
/// first failure, whose error is the one the model gives; a finished run
/// gives the value of its last statement, `nil` for no statement; `fin` holds
/// what the `let`s that ran added.
pub open spec fn runs_as<N>(
    prog: Seq<Stmt<N>>,
    env: Seq<(Seq<char>, Shape)>,
    r: Report<N>,
    fin: Seq<(Seq<char>, Shape)>,
) -> bool {
    &&& r.values@.len() <= prog.len()
    &&& forall|k: int|
        0 <= k < r.values@.len() ==> conforms(
            Ok::<Value<N>, EvalError>(#[trigger] r.values@[k]),
            eval_model(stmt_expr(prog[k]), env_after(prog, r.values@, env, k)),
        )
    &&& fin == env_after(prog, r.values@, env, r.values@.len() as int)
    &&& same_values(r.printed@, printed_from(prog, r.values@, r.values@.len() as int))
    &&& match r.result {
        Ok(v) => r.values@.len() == prog.len() && (prog.len() == 0 ==> v is Nil) && (prog.len()
            > 0 ==> same_value(v, r.values@.last())),
        Err(e) => r.values@.len() < prog.len() && conforms(
            Err::<Value<N>, EvalError>(e),
            eval_model(
                stmt_expr(prog[r.values@.len() as int]),
                env_after(prog, r.values@, env, r.values@.len() as int),
            ),
        ),
    }
}

/// Executes the statements of `program` in order against `ctx`, up to the
/// first that fails. The result is the value of the last statement (`nil`
/// for an empty program), or that failure.
#[verifier::spinoff_prover]
pub fn evaluate<N: Numeric>(program: &Vec<Stmt<N>>, ctx: &mut Context<N>) -> (r: Report<N>)
    ensures
        runs_as(program@, old(ctx).env(), r, final(ctx).env()),
        same_bindings(
            final(ctx).bindings(),
            binds_after(program@, r.values@, old(ctx).bindings(), r.values@.len() as int),
        ),
{
    let ghost env0 = ctx.env();
    let ghost b0 = ctx.bindings();
    let mut values: Vec<Value<N>> = Vec::new();
    let mut printed: Vec<Value<N>> = Vec::new();
    let mut last: Value<N> = Value::Nil;
    let mut i: usize = 0;
    while i < program.len()
        invariant
            i <= program@.len(),
            values@.len() == i,
            env0 == old(ctx).env(),
            forall|k: int|
                0 <= k < i ==> conforms(
                    Ok::<Value<N>, EvalError>(#[trigger] values@[k]),
                    eval_model(stmt_expr(program@[k]), env_after(program@, values@, env0, k)),
                ),
            ctx.env() == env_after(program@, values@, env0, i as int),
            b0 == old(ctx).bindings(),
            same_values(printed@, printed_from(program@, values@, i as int)),
            same_bindings(ctx.bindings(), binds_after(program@, values@, b0, i as int)),
            i == 0 ==> last is Nil,
            i > 0 ==> same_value(last, values@.last()),
        decreases program@.len() - i,
    {
        let ghost before = values@;
        let ghost cb = ctx.bindings();
        let ghost pb = printed@;
        match eval_stmt(&program[i], ctx) {
            Ok(v) => {
                if let Stmt::Print(_) = &program[i] {
                    let shown = copy_value(&v);
                    printed.push(shown);
                }
                let kept = copy_value(&v);
                values.push(kept);
                last = v;
                proof {
                    assert forall|k: int| 0 <= k <= i implies env_after(program@, values@, env0, k)
                        == env_after(program@, before, env0, k) by {
                        lemma_env_after_prefix(program@, before, values@, env0, k);
                    }
                    lemma_binds_after_prefix(program@, before, values@, b0, i as int);
                    lemma_printed_prefix(program@, before, values@, i as int);
                    assert(same_values(printed@, printed_from(program@, values@, i + 1))) by {
                        let pp = printed_from(program@, values@, i as int);
                        let np = printed_from(program@, values@, i + 1);
                        if program@[i as int] is Print {
                            assert(np == pp.push(values@[i as int]));
                            assert forall|k: int| 0 <= k < printed@.len() implies same_value(
                                #[trigger] printed@[k],
                                np[k],
                            ) by {
                                if k < pb.len() {
                                    assert(printed@[k] == pb[k]);
                                    assert(np[k] == pp[k]);
                                }
                            }
                        } else {
                            assert(np == pp);
                            assert(printed@ == pb);
                        }
                    }
                    let bb = binds_after(program@, values@, b0, i as int);
                    let nb = binds_after(program@, values@, b0, i + 1);
                    let fb = ctx.bindings();
                    assert(bb == binds_after(program@, before, b0, i as int));
                    assert(same_bindings(cb, bb));
                    assert(same_bindings(fb, nb)) by {
                        if let Stmt::Let(n, _) = program@[i as int] {
                            assert(nb == bb.push((n@, values@[i as int])));
                            assert(values@[i as int] == kept);
                            assert(fb.drop_last() == cb);
                            assert(fb.len() == nb.len());
                            assert(fb.last().0 == n@);
                            assert(same_value(fb.last().1, kept));
                            assert forall|k: int|
                                #![trigger fb[k]]
                                0 <= k < fb.len() implies fb[k].0 == nb[k].0 && same_value(
                                    fb[k].1,
                                    nb[k].1,
                                ) by {
                                if k < cb.len() {
                                    assert(fb[k] == cb[k]);
                                    assert(nb[k] == bb[k]);
                                    assert(cb[k].0 == bb[k].0 && same_value(cb[k].1, bb[k].1));
                                } else {
                                    assert(k == fb.len() - 1);
                                    assert(fb[k] == fb.last());
                                    assert(nb[k] == (n@, kept));
                                }
                            }
                        } else {
                            assert(nb == bb);
                            assert(fb == cb);
                        }
                    }
                    assert forall|k: int|
                        0 <= k < i + 1 implies conforms(
                        Ok::<Value<N>, EvalError>(#[trigger] values@[k]),
                        eval_model(stmt_expr(program@[k]), env_after(program@, values@, env0, k)),
                    ) by {
                        if k < i {
                            assert(values@[k] == before[k]);
                        }
                    }
                }
            },
            Err(e) => {
                return Report { values, printed, result: Err(e) };
            },
        }
        i = i + 1;
    }
    Report { values, printed, result: Ok(last) }
}

/// The bindings after `k` statements depend only on the first `k` values.
proof fn lemma_binds_after_prefix<N>(
    prog: Seq<Stmt<N>>,
    a: Seq<Value<N>>,
    b: Seq<Value<N>>,
    start: Seq<(Seq<char>, Value<N>)>,
    k: int,
)
    requires
        0 <= k <= a.len(),
        k <= b.len(),
        forall|j: int| 0 <= j < k ==> a[j] == b[j],
    ensures
        binds_after(prog, b, start, k) == binds_after(prog, a, start, k),
    decreases k,
{
    if k > 0 {
        lemma_binds_after_prefix(prog, a, b, start, k - 1);
    }
}

/// The shapes bound after `k` statements depend only on the first `k` values.
proof fn lemma_env_after_prefix<N>(
    prog: Seq<Stmt<N>>,
    a: Seq<Value<N>>,
    b: Seq<Value<N>>,
    env: Seq<(Seq<char>, Shape)>,
    k: int,
)
    requires
        0 <= k <= a.len(),
        k <= b.len(),
        forall|j: int| 0 <= j < k ==> a[j] == b[j],
    ensures
        env_after(prog, b, env, k) == env_after(prog, a, env, k),
    decreases k,
{
    if k > 0 {
        lemma_env_after_prefix(prog, a, b, env, k - 1);
    }
}

} // verus!
