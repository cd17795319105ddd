use vstd::prelude::*;

use crate::error::{RuntimeError, SRuntimeError};
use crate::frontend::lexer::token::{SToken, Token};

verus! {

/// The error for an operator applied to what is not a number.
pub open spec fn nums_error(op: SToken) -> SRuntimeError {
    SRuntimeError { tkn: op, msg: "Operands must be numbers."@ }
}

/// The operand of `op` as a number, or the error that it is not one.
pub fn check_num(op: &Token, x: Option<String>) -> (r: Result<String, RuntimeError>)
    ensures
        match x {
            Some(s) => r matches Ok(v) && v@ == s@,
            None => r matches Err(e) && e@ == nums_error(op@),
        },
{
    if let Some(x) = x {
        return Ok(x);
    }
    Err(RuntimeError::new(op, "Operands must be numbers."))
}

/// Both operands of `op` as numbers, or the error that one is not.
pub fn check_nums(op: &Token, x: Option<String>, y: Option<String>) -> (r: Result<(String, String), RuntimeError>)
    ensures
        match (x, y) {
            (Some(a), Some(b)) => r matches Ok((u, v)) && u@ == a@ && v@ == b@,
            _ => r matches Err(e) && e@ == nums_error(op@),
        },
{
    if let (Some(x), Some(y)) = (x, y) {
        return Ok((x, y));
    }
    Err(RuntimeError::new(op, "Operands must be numbers."))
}

/// The operand of `op` as a string, or the error that it is not one.
pub fn check_str(op: &Token, x: Option<String>) -> (r: Result<String, RuntimeError>)
    ensures
        match x {
            Some(s) => r matches Ok(v) && v@ == s@,
            None => r matches Err(e) && e@ == (SRuntimeError { tkn: op@, msg: "Operand must be a string."@ }),
        },
{
    if let Some(x) = x {
        return Ok(x);
    }
    Err(RuntimeError::new(op, "Operand must be a string."))
}

/// Both operands of `op` as strings, or the error that one is not.
pub fn check_strs(op: &Token, x: Option<String>, y: Option<String>) -> (r: Result<(String, String), RuntimeError>)
    ensures
        match (x, y) {
            (Some(a), Some(b)) => r matches Ok((u, v)) && u@ == a@ && v@ == b@,
            _ => r matches Err(e) && e@ == (SRuntimeError { tkn: op@, msg: "Operands must be strings."@ }),
        },
{
    if let (Some(x), Some(y)) = (x, y) {
        return Ok((x, y));
    }
    Err(RuntimeError::new(op, "Operands must be strings."))
}

} // verus!
