use ein::ast::{Expr, Operator, Stmt};
use ein::eval::{eval_expr, eval_stmt, evaluate, Context};
use ein::parser::{parse_program, ParseError};
use ein::run::{run, RunError};
use ein::lexer::lex;
use ein::token::LexError;
use ein::value::{EvalError, Numeric, Value};

#[derive(Debug, Clone, Copy, PartialEq)]
struct Num(f64);

impl Numeric for Num {
    fn plus(self, o: Num) -> Num {
        Num(self.0 + o.0)
    }
    fn minus(self, o: Num) -> Num {
        Num(self.0 - o.0)
    }
    fn times(self, o: Num) -> Num {
        Num(self.0 * o.0)
    }
    fn divided_by(self, o: Num) -> Num {
        Num(self.0 / o.0)
    }
    fn negated(self) -> Num {
        Num(-self.0)
    }
    fn equals(self, o: Num) -> bool {
        self.0 == o.0
    }
    fn less_than(self, o: Num) -> bool {
        self.0 < o.0
    }
    fn at_most(self, o: Num) -> bool {
        self.0 <= o.0
    }
    fn from_literal(text: &str) -> Num {
        Num(text.parse().unwrap())
    }
}

fn num(v: f64) -> Expr<Num> {
    Expr::NumberLiteral(Num(v))
}

fn text(s: &str) -> Expr<Num> {
    Expr::StringLiteral(s.to_string())
}

fn name(s: &str) -> Expr<Num> {
    Expr::Identifier(s.to_string())
}

fn bin(op: Operator, l: Expr<Num>, r: Expr<Num>) -> Expr<Num> {
    Expr::BinaryOp(op, Box::new(l), Box::new(r))
}

fn eval(e: &Expr<Num>) -> Result<Value<Num>, EvalError> {
    eval_expr(e, &Context::new())
}

fn run_text(src: &str) -> Result<Value<Num>, String> {
    let mut ctx = Context::new();
    match run(src, &mut ctx) {
        Ok(r) => r.report.result.map_err(|e| format!("{:?}", e)),
        Err(e) => Err(format!("{:?}", e)),
    }
}

#[test]
fn let_then_expression() {
    let program = vec![
        Stmt::Let("x".to_string(), num(1.0)),
        Stmt::ExprStmt(bin(Operator::Add, name("x"), num(2.0))),
    ];
    let mut ctx = Context::new();
    let report = evaluate(&program, &mut ctx);
    assert_eq!(report.result, Ok(Value::Number(Num(3.0))));
    assert_eq!(report.values.len(), 2);
    assert_eq!(ctx.get("x"), Some(Value::Number(Num(1.0))));
}

#[test]
fn undefined_variable() {
    let mut ctx: Context<Num> = Context::new();
    ctx.bind("y".to_string(), Value::Boolean(true));
    let r = eval_stmt(&Stmt::ExprStmt(name("x")), &mut ctx);
    assert_eq!(r, Err(EvalError::UndefinedVariable("x".to_string())));
    assert_eq!(ctx.get("x"), None);
    assert_eq!(ctx.get("y"), Some(Value::Boolean(true)));
}

#[test]
fn failed_let_binds_nothing() {
    let mut ctx: Context<Num> = Context::new();
    let r = eval_stmt(&Stmt::Let("z".to_string(), name("missing")), &mut ctx);
    assert_eq!(r, Err(EvalError::UndefinedVariable("missing".to_string())));
    assert_eq!(ctx.get("z"), None);
}

#[test]
fn print_gives_the_expression_value() {
    let e = bin(Operator::Multiply, num(4.0), num(2.5));
    let mut ctx = Context::new();
    let printed = eval_stmt(&Stmt::Print(bin(Operator::Multiply, num(4.0), num(2.5))), &mut ctx);
    assert_eq!(printed, eval(&e));
    assert_eq!(format!("{:?}", printed.unwrap()), format!("{:?}", eval(&e).unwrap()));
}

#[test]
fn evaluating_twice_is_the_same() {
    let mut ctx: Context<Num> = Context::new();
    ctx.bind("a".to_string(), Value::Number(Num(2.0)));
    let e = bin(Operator::Divide, name("a"), num(8.0));
    assert_eq!(eval_expr(&e, &ctx), eval_expr(&e, &ctx));
    assert_eq!(eval_expr(&e, &ctx), Ok(Value::Number(Num(0.25))));
}

#[test]
fn literals() {
    assert_eq!(eval(&Expr::Nil), Ok(Value::Nil));
    assert_eq!(eval(&num(1.5)), Ok(Value::Number(Num(1.5))));
    assert_eq!(eval(&text("hi")), Ok(Value::String("hi".to_string())));
    assert_eq!(eval(&Expr::BooleanLiteral(false)), Ok(Value::Boolean(false)));
}

#[test]
fn arithmetic() {
    assert_eq!(eval(&bin(Operator::Add, num(1.0), num(2.0))), Ok(Value::Number(Num(3.0))));
    assert_eq!(eval(&bin(Operator::Subtract, num(1.0), num(2.0))), Ok(Value::Number(Num(-1.0))));
    assert_eq!(eval(&bin(Operator::Multiply, num(3.0), num(2.0))), Ok(Value::Number(Num(6.0))));
    assert_eq!(eval(&bin(Operator::Divide, num(1.0), num(4.0))), Ok(Value::Number(Num(0.25))));
    assert_eq!(
        eval(&Expr::UnaryOp(Operator::UnaryMinus, Box::new(num(2.0)))),
        Ok(Value::Number(Num(-2.0)))
    );
}

#[test]
fn division_by_zero_is_infinite() {
    assert_eq!(
        eval(&bin(Operator::Divide, num(1.0), num(0.0))),
        Ok(Value::Number(Num(f64::INFINITY)))
    );
}

#[test]
fn string_concatenation_and_order() {
    assert_eq!(
        eval(&bin(Operator::Add, text("ab"), text("cd"))),
        Ok(Value::String("abcd".to_string()))
    );
    assert_eq!(eval(&bin(Operator::LessThan, text("ab"), text("b"))), Ok(Value::Boolean(true)));
    assert_eq!(eval(&bin(Operator::GreaterThan, text("ab"), text("a"))), Ok(Value::Boolean(true)));
    assert_eq!(eval(&bin(Operator::LessEquals, text("b"), text("b"))), Ok(Value::Boolean(true)));
    assert_eq!(eval(&bin(Operator::GreaterEquals, text("a"), text("b"))), Ok(Value::Boolean(false)));
}

#[test]
fn number_comparisons() {
    assert_eq!(eval(&bin(Operator::LessThan, num(1.0), num(2.0))), Ok(Value::Boolean(true)));
    assert_eq!(eval(&bin(Operator::GreaterEquals, num(1.0), num(2.0))), Ok(Value::Boolean(false)));
    assert_eq!(eval(&bin(Operator::GreaterThan, num(3.0), num(2.0))), Ok(Value::Boolean(true)));
    assert_eq!(eval(&bin(Operator::LessEquals, num(2.0), num(2.0))), Ok(Value::Boolean(true)));
}

#[test]
fn type_mismatches() {
    assert_eq!(
        eval(&bin(Operator::Add, num(1.0), text("a"))),
        Err(EvalError::TypeMismatch(Operator::Add))
    );
    assert_eq!(
        eval(&bin(Operator::LessThan, num(1.0), Expr::Nil)),
        Err(EvalError::TypeMismatch(Operator::LessThan))
    );
    assert_eq!(
        eval(&Expr::UnaryOp(Operator::UnaryMinus, Box::new(text("a")))),
        Err(EvalError::TypeMismatch(Operator::UnaryMinus))
    );
}

#[test]
fn invalid_operators() {
    assert_eq!(
        eval(&Expr::UnaryOp(Operator::Add, Box::new(num(1.0)))),
        Err(EvalError::InvalidOperator(Operator::Add))
    );
    assert_eq!(
        eval(&bin(Operator::Not, num(1.0), num(2.0))),
        Err(EvalError::InvalidOperator(Operator::Not))
    );
}

#[test]
fn equality_is_total() {
    assert_eq!(eval(&bin(Operator::Equals, num(1.0), text("1"))), Ok(Value::Boolean(false)));
    assert_eq!(eval(&bin(Operator::Equals, Expr::Nil, Expr::Nil)), Ok(Value::Boolean(true)));
    assert_eq!(eval(&bin(Operator::NotEquals, text("a"), text("a"))), Ok(Value::Boolean(false)));
    assert_eq!(eval(&bin(Operator::Equals, num(2.0), num(2.0))), Ok(Value::Boolean(true)));
}

#[test]
fn truthiness() {
    let not = |e: Expr<Num>| eval(&Expr::UnaryOp(Operator::Not, Box::new(e)));
    assert_eq!(not(Expr::Nil), Ok(Value::Boolean(true)));
    assert_eq!(not(Expr::BooleanLiteral(false)), Ok(Value::Boolean(true)));
    assert_eq!(not(Expr::BooleanLiteral(true)), Ok(Value::Boolean(false)));
    assert_eq!(not(num(0.0)), Ok(Value::Boolean(false)));
    assert_eq!(not(text("")), Ok(Value::Boolean(false)));
}

#[test]
fn evaluation_stops_at_first_failure() {
    let program = vec![
        Stmt::Let("a".to_string(), num(1.0)),
        Stmt::ExprStmt(name("nope")),
        Stmt::Let("b".to_string(), num(2.0)),
    ];
    let mut ctx = Context::new();
    let report = evaluate(&program, &mut ctx);
    assert_eq!(report.values.len(), 1);
    assert_eq!(report.result, Err(EvalError::UndefinedVariable("nope".to_string())));
    assert_eq!(ctx.get("a"), Some(Value::Number(Num(1.0))));
    assert_eq!(ctx.get("b"), None);
}

#[test]
fn empty_program_is_nil() {
    let mut ctx: Context<Num> = Context::new();
    assert_eq!(evaluate(&vec![], &mut ctx).result, Ok(Value::Nil));
}

#[test]
fn later_binding_hides_earlier() {
    let mut ctx: Context<Num> = Context::new();
    ctx.bind("v".to_string(), Value::Nil);
    ctx.bind("v".to_string(), Value::Boolean(true));
    assert_eq!(ctx.get("v"), Some(Value::Boolean(true)));
}

#[test]
fn run_source_text() {
    assert_eq!(run_text("let x = 1\nx + 2"), Ok(Value::Number(Num(3.0))));
    assert_eq!(run_text("1 + 2 * 3"), Ok(Value::Number(Num(7.0))));
    assert_eq!(run_text("(1 + 2) * 3"), Ok(Value::Number(Num(9.0))));
    assert_eq!(run_text("-2 - -3"), Ok(Value::Number(Num(1.0))));
    assert_eq!(run_text("1 < 2 == true"), Ok(Value::Boolean(true)));
    assert_eq!(run_text("\"a\" + \"b\""), Ok(Value::String("ab".to_string())));
    assert_eq!(run_text("\n\n"), Ok(Value::Nil));
}

#[test]
fn run_persists_bindings_across_calls() {
    let mut ctx = Context::new();
    assert!(run::<Num>("let n = 4", &mut ctx).is_ok());
    let r = run::<Num>("n * n", &mut ctx).unwrap();
    assert_eq!(r.report.result, Ok(Value::Number(Num(16.0))));
}

#[test]
fn run_reports_printed_values() {
    let mut ctx = Context::new();
    let r = run::<Num>("print 1 + 1\n2", &mut ctx).unwrap();
    assert!(matches!(r.program[0], Stmt::Print(_)));
    assert_eq!(r.report.values[0], Value::Number(Num(2.0)));
    assert_eq!(r.report.printed, vec![Value::Number(Num(2.0))]);
    let r = run::<Num>("print \"a\"\nlet q = 1\nprint q\nq", &mut ctx).unwrap();
    assert_eq!(r.report.printed, vec![Value::String("a".to_string()), Value::Number(Num(1.0))]);
    assert_eq!(r.report.result, Ok(Value::Number(Num(1.0))));
}

#[test]
fn run_errors() {
    let mut ctx: Context<Num> = Context::new();
    assert!(matches!(
        run::<Num>("\"abc", &mut ctx),
        Err(RunError::Lex(LexError::UnterminatedString { start: 0 }))
    ));
    assert!(matches!(run::<Num>("1 +", &mut ctx), Err(RunError::Parse(ParseError::UnexpectedEnd))));
    assert!(matches!(
        run::<Num>("1 2", &mut ctx),
        Err(RunError::Parse(ParseError::UnexpectedToken { pos: 2 }))
    ));
}

#[test]
fn parse_blank_lines() {
    let toks = lex("\n\n").unwrap();
    assert_eq!(parse_program::<Num>(&toks).unwrap().len(), 0);
    let toks = lex("print 1\n\nlet a = 2\n").unwrap();
    let p = parse_program::<Num>(&toks).unwrap();
    assert_eq!(p, vec![Stmt::Print(num(1.0)), Stmt::Let("a".to_string(), num(2.0))]);
}
