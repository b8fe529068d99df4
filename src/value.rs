//! Runtime values, evaluation errors, and the model that evaluation is
//! proved against.
use vstd::prelude::*;
use crate::ast::Operator;

verus! {

/// The arithmetic that evaluation needs from a number type. Evaluation
/// hands numbers to these methods and takes their results as they come.
pub trait Numeric: Sized + Copy {
    fn plus(self, other: Self) -> Self;

    fn minus(self, other: Self) -> Self;

    fn times(self, other: Self) -> Self;

    fn divided_by(self, other: Self) -> Self;

    fn negated(self) -> Self;

    fn equals(self, other: Self) -> bool;

    fn less_than(self, other: Self) -> bool;

    fn at_most(self, other: Self) -> bool;

    /// The number that a number literal spells: digits with at most one
    /// interior dot.
    fn from_literal(text: &str) -> Self;
}

/// A runtime value.
#[derive(Debug, Clone, PartialEq)]
pub enum Value<N> {
    Nil,
    Number(N),
    String(String),
    Boolean(bool),
}

/// An evaluation error.
#[derive(Debug, Clone, PartialEq)]
pub enum EvalError {
    /// A name that no binding holds.
    UndefinedVariable(String),
    /// An operator applied to values of types it does not take.
    TypeMismatch(Operator),
    /// A unary operator used as a binary one, or the reverse.
    InvalidOperator(Operator),
}

/// The model of an [`EvalError`].
pub enum ErrV {
    UndefinedVariable(Seq<char>),
    TypeMismatch(Operator),
    InvalidOperator(Operator),
}

impl View for EvalError {
    type V = ErrV;

    open spec fn view(&self) -> ErrV {
        match self {
            EvalError::UndefinedVariable(n) => ErrV::UndefinedVariable(n@),
            EvalError::TypeMismatch(op) => ErrV::TypeMismatch(*op),
            EvalError::InvalidOperator(op) => ErrV::InvalidOperator(*op),
        }
    }
}

/// What the model knows of a value: everything but the result of number
/// arithmetic, and of comparisons between numbers (`Boolean(None)`).
pub enum Shape {
    Nil,
    Number,
    Str(Seq<char>),
    Boolean(Option<bool>),
}

/// The shape of a value.
pub open spec fn shape_of<N>(v: Value<N>) -> Shape {
    match v {
        Value::Nil => Shape::Nil,
        Value::Number(_) => Shape::Number,
        Value::String(s) => Shape::Str(s@),
        Value::Boolean(b) => Shape::Boolean(Some(b)),
    }
}

/// Whether a value has a shape.
pub open spec fn fits<N>(v: Value<N>, s: Shape) -> bool {
    match (v, s) {
        (Value::Nil, Shape::Nil) => true,
        (Value::Number(_), Shape::Number) => true,
        (Value::String(x), Shape::Str(y)) => x@ == y,
        (Value::Boolean(b), Shape::Boolean(o)) => o is None || o == Some(b),
        _ => false,
    }
}

/// Whether a result of evaluation is one that the model allows.
pub open spec fn conforms<N>(r: Result<Value<N>, EvalError>, m: Result<Shape, ErrV>) -> bool {
    match (r, m) {
        (Ok(v), Ok(s)) => fits(v, s),
        (Err(e), Err(f)) => e@ == f,
        _ => false,
    }
}

/// Truthiness: `nil` and `false` are false, every other value is true.
pub open spec fn truthy(s: Shape) -> Option<bool> {
    match s {
        Shape::Nil => Some(false),
        Shape::Boolean(b) => b,
        _ => Some(true),
    }
}

pub open spec fn negate(o: Option<bool>) -> Option<bool> {
    match o {
        Some(b) => Some(!b),
        None => None,
    }
}

/// Structural equality of two values; values of different types are unequal.
pub open spec fn shape_eq(a: Shape, b: Shape) -> Option<bool> {
    match (a, b) {
        (Shape::Nil, Shape::Nil) => Some(true),
        (Shape::Number, Shape::Number) => None,
        (Shape::Str(x), Shape::Str(y)) => Some(x == y),
        (Shape::Boolean(Some(x)), Shape::Boolean(Some(y))) => Some(x == y),
        (Shape::Boolean(_), Shape::Boolean(_)) => None,
        _ => Some(false),
    }
}

/// Lexicographic order of texts, by character.
pub open spec fn text_lt(a: Seq<char>, b: Seq<char>) -> bool
    decreases a.len(),
{
    if a.len() == 0 {
        b.len() > 0
    } else if b.len() == 0 {
        false
    } else if a[0] != b[0] {
        a[0] < b[0]
    } else {
        text_lt(a.drop_first(), b.drop_first())
    }
}

/// A unary operator applied to a value.
pub open spec fn unary_model(op: Operator, v: Shape) -> Result<Shape, ErrV> {
    match op {
        Operator::Not => Ok(Shape::Boolean(negate(truthy(v)))),
        Operator::UnaryMinus => if v is Number {
            Ok(Shape::Number)
        } else {
            Err(ErrV::TypeMismatch(op))
        },
        _ => Err(ErrV::InvalidOperator(op)),
    }
}

/// A binary operator applied to two values.
pub open spec fn binary_model(op: Operator, a: Shape, b: Shape) -> Result<Shape, ErrV> {
    match op {
        Operator::Equals => Ok(Shape::Boolean(shape_eq(a, b))),
        Operator::NotEquals => Ok(Shape::Boolean(negate(shape_eq(a, b)))),
        Operator::Add => match (a, b) {
            (Shape::Number, Shape::Number) => Ok(Shape::Number),
            (Shape::Str(x), Shape::Str(y)) => Ok(Shape::Str(x + y)),
            _ => Err(ErrV::TypeMismatch(op)),
        },
        Operator::Subtract | Operator::Multiply | Operator::Divide => match (a, b) {
            (Shape::Number, Shape::Number) => Ok(Shape::Number),
            _ => Err(ErrV::TypeMismatch(op)),
        },
        Operator::GreaterThan | Operator::GreaterEquals | Operator::LessThan
        | Operator::LessEquals => match (a, b) {
            (Shape::Number, Shape::Number) => Ok(Shape::Boolean(None)),
            (Shape::Str(x), Shape::Str(y)) => Ok(
                Shape::Boolean(
                    Some(
                        match op {
                            Operator::GreaterThan => text_lt(y, x),
                            Operator::GreaterEquals => !text_lt(x, y),
                            Operator::LessThan => text_lt(x, y),
                            _ => !text_lt(y, x),
                        },
                    ),
                ),
            ),
            _ => Err(ErrV::TypeMismatch(op)),
        },
        _ => Err(ErrV::InvalidOperator(op)),
    }
}

} // verus!
