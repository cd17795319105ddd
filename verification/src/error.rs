use vstd::prelude::*;

use crate::frontend::lexer::token::{Token, SToken};

verus! {

/// A message waiting to be reported.
pub struct LoxErr {
    pub msg: String,
}

impl LoxErr {
    /// An error with this message.
    pub fn new(msg: String) -> (r: LoxErr)
        ensures
            r.msg == msg,
    {
        LoxErr { msg }
    }
}

/// A syntax error: the token where it was found and what was expected.
#[derive(Debug)]
pub struct ParseError {
    pub tkn: Token,
    pub msg: String,
}

/// The model of a syntax error.
pub struct SParseError {
    pub tkn: SToken,
    pub msg: Seq<char>,
}

impl View for ParseError {
    type V = SParseError;

    open spec fn view(&self) -> SParseError {
        SParseError { tkn: self.tkn@, msg: self.msg@ }
    }
}

impl ParseError {
    /// An error at `tkn` with message `msg`.
    pub fn new(tkn: Token, msg: &str) -> (r: ParseError)
        ensures
            r@ == (SParseError { tkn: tkn@, msg: msg@ }),
    {
        ParseError { tkn, msg: msg.to_owned() }
    }

    /// An error at `tkn` with an owned message.
    pub fn with_msg(tkn: Token, msg: String) -> (r: ParseError)
        ensures
            r@ == (SParseError { tkn: tkn@, msg: msg@ }),
    {
        ParseError { tkn, msg }
    }
}

/// A runtime error: the token where it happened and what went wrong.
#[derive(Debug)]
pub struct RuntimeError {
    pub tkn: Token,
    pub msg: String,
}

/// The model of a runtime error.
pub struct SRuntimeError {
    pub tkn: SToken,
    pub msg: Seq<char>,
}

impl View for RuntimeError {
    type V = SRuntimeError;

    open spec fn view(&self) -> SRuntimeError {
        SRuntimeError { tkn: self.tkn@, msg: self.msg@ }
    }
}

impl RuntimeError {
    /// An error at a copy of `tkn` with message `msg`.
    pub fn new(tkn: &Token, msg: &str) -> (r: RuntimeError)
        ensures
            r@ == (SRuntimeError { tkn: tkn@, msg: msg@ }),
    {
        RuntimeError { tkn: tkn.copy(), msg: msg.to_owned() }
    }

    /// An error at a copy of `tkn` with an owned message.
    pub fn with_msg(tkn: &Token, msg: String) -> (r: RuntimeError)
        ensures
            r@ == (SRuntimeError { tkn: tkn@, msg: msg@ }),
    {
        RuntimeError { tkn: tkn.copy(), msg }
    }
}

} // verus!
