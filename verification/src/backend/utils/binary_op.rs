use vstd::prelude::*;

use crate::backend::interpreter::callable::spec_fun_id;
use crate::backend::utils::validator::{check_nums, nums_error};
use crate::error::{RuntimeError, SRuntimeError};
use crate::frontend::lexer::token::{LitVal, SLit, SToken, Token, spec_as_number, spec_lit_to_string};

verus! {

/// An operation on numbers, which the host carries out.
#[derive(Debug, Clone, Copy, PartialEq, Eq, Structural)]
pub enum NumOp {
    Add, Sub, Mul, Div,
    Greater, GreaterEqual, Less, LessEqual,
    Equal, NotEqual,
    Negate,
    /// Reads the decimal text of a number literal.
    Read,
}

/// What a binary operator comes to: a value, or an operation on the decimal
/// texts of two numbers that the host carries out.
#[derive(Debug)]
pub enum Operation {
    Value(LitVal),
    Host(NumOp, String, String),
}

/// The model of an `Operation`.
pub enum SOperation {
    Value(SLit),
    Host(NumOp, Seq<char>, Seq<char>),
}

impl View for Operation {
    type V = SOperation;

    open spec fn view(&self) -> SOperation {
        match *self {
            Operation::Value(v) => SOperation::Value(v@),
            Operation::Host(o, a, b) => SOperation::Host(o, a@, b@),
        }
    }
}

pub open spec fn op_res(r: Result<Operation, RuntimeError>) -> Result<SOperation, SRuntimeError> {
    match r {
        Ok(o) => Ok(o@),
        Err(e) => Err(e@),
    }
}

/// Both operands as numbers, or the error at `op`.
pub open spec fn spec_nums(op: SToken, x: SLit, y: SLit, o: NumOp) -> Result<SOperation, SRuntimeError> {
    match (spec_as_number(x), spec_as_number(y)) {
        (Some(a), Some(b)) => Ok(SOperation::Host(o, a, b)),
        _ => Err(nums_error(op)),
    }
}

/// `+`: joins the texts when either operand is a string, else adds numbers.
pub open spec fn spec_plus(op: SToken, x: SLit, y: SLit) -> Result<SOperation, SRuntimeError> {
    match x {
        SLit::Str(s) => Ok(SOperation::Value(SLit::Str(s + spec_lit_to_string(y)))),
        _ => match y {
            SLit::Str(s) => Ok(SOperation::Value(SLit::Str(spec_lit_to_string(x) + s))),
            _ => spec_nums(op, x, y, NumOp::Add),
        },
    }
}

/// Equality of two values that are not both numbers: nil is nil, strings
/// and booleans by content, functions by identity, and different kinds differ.
pub open spec fn spec_same(x: SLit, y: SLit) -> bool {
    match (x, y) {
        (SLit::Nil, SLit::Nil) => true,
        (SLit::Str(a), SLit::Str(b)) => a == b,
        (SLit::Bool(a), SLit::Bool(b)) => a == b,
        (SLit::Fun(f), SLit::Fun(g)) => spec_fun_id(*f) == spec_fun_id(*g),
        _ => false,
    }
}

/// `==`: the host compares two numbers; any other pair is compared here.
pub open spec fn spec_eq(x: SLit, y: SLit, negate: bool) -> SOperation {
    match (x, y) {
        (SLit::Num(a), SLit::Num(b)) => SOperation::Host(if negate { NumOp::NotEqual } else { NumOp::Equal }, a, b),
        _ => SOperation::Value(SLit::Bool(if negate { !spec_same(x, y) } else { spec_same(x, y) })),
    }
}

/// Equality on values that are not both numbers is reflexive.
pub proof fn law_same_reflexive(x: SLit)
    requires
        !(x is Num),
    ensures
        spec_same(x, x),
{
}

/// Equality on values is symmetric.
pub proof fn law_same_symmetric(x: SLit, y: SLit)
    ensures
        spec_same(x, y) == spec_same(y, x),
{
}

/// `!=` is the negation of `==`: on two numbers the host is asked the
/// opposite question about the same texts; on any other pair the answers
/// are opposite.
pub proof fn law_not_eq_negates(x: SLit, y: SLit)
    ensures
        match (spec_eq(x, y, false), spec_eq(x, y, true)) {
            (SOperation::Value(SLit::Bool(a)), SOperation::Value(SLit::Bool(b))) => a == !b,
            (SOperation::Host(NumOp::Equal, a1, b1), SOperation::Host(NumOp::NotEqual, a2, b2)) => a1 == a2 && b1 == b2,
            _ => false,
        },
{
}

/// `+` on a string and any value joins the texts, in order.
pub proof fn law_plus_joins_strings(op: SToken, x: SLit, y: SLit)
    requires
        x is Str || y is Str,
    ensures
        spec_plus(op, x, y) == Ok::<SOperation, SRuntimeError>(
            SOperation::Value(SLit::Str(spec_lit_to_string(x) + spec_lit_to_string(y))),
        ),
{
}

fn concat(a: String, b: String) -> (r: String)
    ensures
        r@ == a@ + b@,
{
    let mut a = a;
    a.append(b.as_str());
    a
}

fn nums(op: &Token, x: &LitVal, y: &LitVal, o: NumOp) -> (r: Result<Operation, RuntimeError>)
    ensures
        op_res(r) == spec_nums(op@, x@, y@, o),
{
    let (a, b) = check_nums(op, x.as_number(), y.as_number())?;
    Ok(Operation::Host(o, a, b))
}

/// `x + y`.
pub fn plus(op: &Token, x: &LitVal, y: &LitVal) -> (r: Result<Operation, RuntimeError>)
    ensures
        op_res(r) == spec_plus(op@, x@, y@),
{
    if let Some(s) = x.as_string() {
        return Ok(Operation::Value(LitVal::String(concat(s, y.to_string()))));
    }
    if let Some(s) = y.as_string() {
        return Ok(Operation::Value(LitVal::String(concat(x.to_string(), s))));
    }
    nums(op, x, y, NumOp::Add)
}

/// `x - y`.
pub fn minus(op: &Token, x: &LitVal, y: &LitVal) -> (r: Result<Operation, RuntimeError>)
    ensures
        op_res(r) == spec_nums(op@, x@, y@, NumOp::Sub),
{
    nums(op, x, y, NumOp::Sub)
}

/// `x * y`.
pub fn mult(op: &Token, x: &LitVal, y: &LitVal) -> (r: Result<Operation, RuntimeError>)
    ensures
        op_res(r) == spec_nums(op@, x@, y@, NumOp::Mul),
{
    nums(op, x, y, NumOp::Mul)
}

/// `x / y`.
pub fn div(op: &Token, x: &LitVal, y: &LitVal) -> (r: Result<Operation, RuntimeError>)
    ensures
        op_res(r) == spec_nums(op@, x@, y@, NumOp::Div),
{
    nums(op, x, y, NumOp::Div)
}

/// `x > y`.
pub fn greater(op: &Token, x: &LitVal, y: &LitVal) -> (r: Result<Operation, RuntimeError>)
    ensures
        op_res(r) == spec_nums(op@, x@, y@, NumOp::Greater),
{
    nums(op, x, y, NumOp::Greater)
}

/// `x >= y`.
pub fn greater_eq(op: &Token, x: &LitVal, y: &LitVal) -> (r: Result<Operation, RuntimeError>)
    ensures
        op_res(r) == spec_nums(op@, x@, y@, NumOp::GreaterEqual),
{
    nums(op, x, y, NumOp::GreaterEqual)
}

/// `x < y`.
pub fn less(op: &Token, x: &LitVal, y: &LitVal) -> (r: Result<Operation, RuntimeError>)
    ensures
        op_res(r) == spec_nums(op@, x@, y@, NumOp::Less),
{
    nums(op, x, y, NumOp::Less)
}

/// `x <= y`.
pub fn less_eq(op: &Token, x: &LitVal, y: &LitVal) -> (r: Result<Operation, RuntimeError>)
    ensures
        op_res(r) == spec_nums(op@, x@, y@, NumOp::LessEqual),
{
    nums(op, x, y, NumOp::LessEqual)
}

/// `x == y`.
pub fn eq(x: &LitVal, y: &LitVal) -> (r: Result<Operation, RuntimeError>)
    ensures
        op_res(r) == Ok::<SOperation, SRuntimeError>(spec_eq(x@, y@, false)),
{
    match (x, y) {
        (LitVal::Number(a), LitVal::Number(b)) => Ok(Operation::Host(NumOp::Equal, a.clone(), b.clone())),
        _ => Ok(Operation::Value(LitVal::Boolean(is_eq(x, y)))),
    }
}

/// `x != y`.
pub fn not_eq(x: &LitVal, y: &LitVal) -> (r: Result<Operation, RuntimeError>)
    ensures
        op_res(r) == Ok::<SOperation, SRuntimeError>(spec_eq(x@, y@, true)),
{
    match (x, y) {
        (LitVal::Number(a), LitVal::Number(b)) => Ok(Operation::Host(NumOp::NotEqual, a.clone(), b.clone())),
        _ => Ok(Operation::Value(LitVal::Boolean(!is_eq(x, y)))),
    }
}

/// Equality of two values that are not both numbers (two numbers are
/// compared by the host).
pub fn is_eq(x: &LitVal, y: &LitVal) -> (r: bool)
    requires
        !(x@ is Num && y@ is Num),
    ensures
        r == spec_same(x@, y@),
{
    match x {
        LitVal::Nil => match y {
            LitVal::Nil => true,
            _ => false,
        },
        LitVal::Number(_) => false,
        LitVal::String(s1) => match y {
            LitVal::String(s2) => *s1 == *s2,
            _ => false,
        },
        LitVal::Boolean(b1) => match y {
            LitVal::Boolean(b2) => *b1 == *b2,
            _ => false,
        },
        LitVal::Callable(f1) => match y {
            LitVal::Callable(f2) => f1.id() == f2.id(),
            _ => false,
        },
    }
}

} // verus!
