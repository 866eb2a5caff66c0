//! The evaluator's runtime values: a closed sum of 64-bit integers, strings
//! and booleans, together with the operator table and the textual rendering
//! used by `print`.
use crate::numtext::{dec_str, i64_to_string, parse_i64, spec_parse_i64};
use crate::token::TokenType;
use vstd::prelude::*;

verus! {

/// The tagged variant of a runtime value.
#[derive(Debug)]
pub enum ValueType {
    Integer(i64),
    String(String),
    Bool(bool),
}

/// A runtime value; a thin wrapper around its tagged variant.
#[derive(Debug)]
pub struct Value {
    pub value_type: ValueType,
}

/// Mathematical mirror of [`Value`].
pub enum ValView {
    Int(i64),
    Str(Seq<char>),
    Bool(bool),
}

impl View for Value {
    type V = ValView;

    open spec fn view(&self) -> ValView {
        match self.value_type {
            ValueType::Integer(i) => ValView::Int(i),
            ValueType::String(s) => ValView::Str(s@),
            ValueType::Bool(b) => ValView::Bool(b),
        }
    }
}

/// The kind of a value, as reported by type-mismatch errors.
#[derive(Debug, Clone, Copy, PartialEq, Eq, Structural)]
pub enum ValueKind {
    Integer,
    String,
    Bool,
}

pub open spec fn kind_of(v: ValView) -> ValueKind {
    match v {
        ValView::Int(_) => ValueKind::Integer,
        ValView::Str(_) => ValueKind::String,
        ValView::Bool(_) => ValueKind::Bool,
    }
}

/// A runtime failure of the evaluator; each is a value the caller can
/// observe rather than an abort.  `UnsupportedExpression` stands for
/// expression forms the evaluator does not execute (a prefix `+`/`-`, or a
/// malformed binary operator), and `RecursionLimit` for the call-depth
/// guard.
#[derive(Debug)]
pub enum EvalError {
    UndefinedVariable(String),
    UndefinedFunction(String),
    TypeMismatch { operator: TokenType, left: ValueKind, right: ValueKind },
    ArithmeticError,
    UnsupportedExpression,
    RecursionLimit,
}

/// Mathematical mirror of [`EvalError`].
pub enum EvalErrView {
    UndefinedVariable(Seq<char>),
    UndefinedFunction(Seq<char>),
    TypeMismatch { operator: TokenType, left: ValueKind, right: ValueKind },
    ArithmeticError,
    UnsupportedExpression,
    RecursionLimit,
}

impl View for EvalError {
    type V = EvalErrView;

    open spec fn view(&self) -> EvalErrView {
        match self {
            EvalError::UndefinedVariable(n) => EvalErrView::UndefinedVariable(n@),
            EvalError::UndefinedFunction(n) => EvalErrView::UndefinedFunction(n@),
            EvalError::TypeMismatch { operator, left, right } => EvalErrView::TypeMismatch {
                operator: *operator,
                left: *left,
                right: *right,
            },
            EvalError::ArithmeticError => EvalErrView::ArithmeticError,
            EvalError::UnsupportedExpression => EvalErrView::UnsupportedExpression,
            EvalError::RecursionLimit => EvalErrView::RecursionLimit,
        }
    }
}

/// Boolean coercion: booleans as themselves, integers true iff nonzero,
/// strings true iff non-empty.
pub open spec fn spec_truthy(v: ValView) -> bool {
    match v {
        ValView::Bool(b) => b,
        ValView::Int(i) => i != 0,
        ValView::Str(s) => s.len() != 0,
    }
}

/// The value a literal resolves to: its 64-bit integer reading when it has
/// one, the text itself otherwise.
pub open spec fn spec_literal_value(text: Seq<char>) -> ValView {
    match spec_parse_i64(text) {
        Some(n) => ValView::Int(n),
        None => ValView::Str(text),
    }
}

/// What one binary operator application yields: the operator table of the
/// language.  Operand types must match the table exactly; any other
/// combination is a type mismatch, and integer overflow or division by zero
/// is an arithmetic error.
pub open spec fn spec_binop(op: TokenType, l: ValView, r: ValView) -> Result<ValView, EvalErrView> {
    match op {
        TokenType::Plus => match (l, r) {
            (ValView::Int(a), ValView::Int(b)) => match a.checked_add(b) {
                Some(c) => Ok(ValView::Int(c)),
                None => Err(EvalErrView::ArithmeticError),
            },
            (ValView::Str(a), ValView::Str(b)) => Ok(ValView::Str(a + b)),
            _ => Err(EvalErrView::TypeMismatch { operator: op, left: kind_of(l), right: kind_of(r) }),
        },
        TokenType::Minus => match (l, r) {
            (ValView::Int(a), ValView::Int(b)) => match a.checked_sub(b) {
                Some(c) => Ok(ValView::Int(c)),
                None => Err(EvalErrView::ArithmeticError),
            },
            _ => Err(EvalErrView::TypeMismatch { operator: op, left: kind_of(l), right: kind_of(r) }),
        },
        TokenType::Asterisk => match (l, r) {
            (ValView::Int(a), ValView::Int(b)) => match a.checked_mul(b) {
                Some(c) => Ok(ValView::Int(c)),
                None => Err(EvalErrView::ArithmeticError),
            },
            _ => Err(EvalErrView::TypeMismatch { operator: op, left: kind_of(l), right: kind_of(r) }),
        },
        TokenType::Slash => match (l, r) {
            (ValView::Int(a), ValView::Int(b)) => match a.checked_div(b) {
                Some(c) => Ok(ValView::Int(c)),
                None => Err(EvalErrView::ArithmeticError),
            },
            _ => Err(EvalErrView::TypeMismatch { operator: op, left: kind_of(l), right: kind_of(r) }),
        },
        TokenType::Gt => match (l, r) {
            (ValView::Int(a), ValView::Int(b)) => Ok(ValView::Bool(a > b)),
            _ => Err(EvalErrView::TypeMismatch { operator: op, left: kind_of(l), right: kind_of(r) }),
        },
        TokenType::Lt => match (l, r) {
            (ValView::Int(a), ValView::Int(b)) => Ok(ValView::Bool(a < b)),
            _ => Err(EvalErrView::TypeMismatch { operator: op, left: kind_of(l), right: kind_of(r) }),
        },
        _ => Err(EvalErrView::UnsupportedExpression),
    }
}

/// The textual form `print` writes: integers in decimal, strings as-is,
/// booleans as `true`/`false`.
pub open spec fn render_val(v: ValView) -> Seq<char> {
    match v {
        ValView::Int(i) => dec_str(i as int),
        ValView::Str(s) => s,
        ValView::Bool(b) => if b {
            seq!['t', 'r', 'u', 'e']
        } else {
            seq!['f', 'a', 'l', 's', 'e']
        },
    }
}

impl Value {
    pub fn new(value_type: ValueType) -> (v: Value)
        ensures
            v.value_type == value_type,
    {
        Self { value_type }
    }

    /// Boolean coercion of the value.
    pub fn into_bool(&self) -> (b: bool)
        ensures
            b == spec_truthy(self@),
    {
        match &self.value_type {
            ValueType::Bool(value) => *value,
            ValueType::Integer(value) => *value != 0,
            ValueType::String(value) => !value.as_str().is_empty(),
        }
    }

    /// An explicit copy, equal to the value copied.
    pub fn duplicate(&self) -> (v: Value)
        ensures
            v == *self,
    {
        match &self.value_type {
            ValueType::Integer(i) => Value { value_type: ValueType::Integer(*i) },
            ValueType::String(s) => Value { value_type: ValueType::String(s.clone()) },
            ValueType::Bool(b) => Value { value_type: ValueType::Bool(*b) },
        }
    }

    /// The kind of the value, for type-mismatch reports.
    pub fn kind(&self) -> (k: ValueKind)
        ensures
            k == kind_of(self@),
    {
        match &self.value_type {
            ValueType::Integer(_) => ValueKind::Integer,
            ValueType::String(_) => ValueKind::String,
            ValueType::Bool(_) => ValueKind::Bool,
        }
    }

    /// The textual form `print` writes for this value.
    pub fn render(&self) -> (s: String)
        ensures
            s@ == render_val(self@),
    {
        match &self.value_type {
            ValueType::Integer(i) => i64_to_string(*i),
            ValueType::String(s) => s.clone(),
            ValueType::Bool(b) => {
                proof {
                    reveal_strlit("true");
                    reveal_strlit("false");
                    assert("true"@ =~= seq!['t', 'r', 'u', 'e']);
                    assert("false"@ =~= seq!['f', 'a', 'l', 's', 'e']);
                }
                if *b {
                    String::from_str("true")
                } else {
                    String::from_str("false")
                }
            },
        }
    }
}

/// The value a literal resolves to, by attempting an integer parse.
pub fn literal_value(text: String) -> (v: Value)
    ensures
        v@ == spec_literal_value(text@),
{
    match parse_i64(text.as_str()) {
        Some(n) => Value { value_type: ValueType::Integer(n) },
        None => Value { value_type: ValueType::String(text) },
    }
}

/// Applies one binary operator to two evaluated operands, per the operator
/// table.
pub fn apply_binop(op: TokenType, left: Value, right: Value) -> (r: Result<Value, EvalError>)
    ensures
        match r {
            Ok(v) => spec_binop(op, left@, right@) == Ok::<_, EvalErrView>(v@),
            Err(e) => spec_binop(op, left@, right@) == Err::<ValView, _>(e@),
        },
{
    let lk = left.kind();
    let rk = right.kind();
    match op {
        TokenType::Plus => match (left.value_type, right.value_type) {
            (ValueType::Integer(a), ValueType::Integer(b)) => match a.checked_add(b) {
                Some(c) => Ok(Value { value_type: ValueType::Integer(c) }),
                None => Err(EvalError::ArithmeticError),
            },
            (ValueType::String(a), ValueType::String(b)) => Ok(
                Value { value_type: ValueType::String(a.concat(b.as_str())) },
            ),
            _ => Err(EvalError::TypeMismatch { operator: op, left: lk, right: rk }),
        },
        TokenType::Minus => match (left.value_type, right.value_type) {
            (ValueType::Integer(a), ValueType::Integer(b)) => match a.checked_sub(b) {
                Some(c) => Ok(Value { value_type: ValueType::Integer(c) }),
                None => Err(EvalError::ArithmeticError),
            },
            _ => Err(EvalError::TypeMismatch { operator: op, left: lk, right: rk }),
        },
        TokenType::Asterisk => match (left.value_type, right.value_type) {
            (ValueType::Integer(a), ValueType::Integer(b)) => match a.checked_mul(b) {
                Some(c) => Ok(Value { value_type: ValueType::Integer(c) }),
                None => Err(EvalError::ArithmeticError),
            },
            _ => Err(EvalError::TypeMismatch { operator: op, left: lk, right: rk }),
        },
        TokenType::Slash => match (left.value_type, right.value_type) {
            (ValueType::Integer(a), ValueType::Integer(b)) => match a.checked_div(b) {
                Some(c) => Ok(Value { value_type: ValueType::Integer(c) }),
                None => Err(EvalError::ArithmeticError),
            },
            _ => Err(EvalError::TypeMismatch { operator: op, left: lk, right: rk }),
        },
        TokenType::Gt => match (left.value_type, right.value_type) {
            (ValueType::Integer(a), ValueType::Integer(b)) => Ok(
                Value { value_type: ValueType::Bool(a > b) },
            ),
            _ => Err(EvalError::TypeMismatch { operator: op, left: lk, right: rk }),
        },
        TokenType::Lt => match (left.value_type, right.value_type) {
            (ValueType::Integer(a), ValueType::Integer(b)) => Ok(
                Value { value_type: ValueType::Bool(a < b) },
            ),
            _ => Err(EvalError::TypeMismatch { operator: op, left: lk, right: rk }),
        },
        _ => Err(EvalError::UnsupportedExpression),
    }
}

} // verus!
