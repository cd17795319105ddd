use vstd::prelude::*;

use crate::frontend::lexer::token::{Token, SToken, tok_view, toks_view, copy_tokens, string_of};
use crate::frontend::parser::stmt::{Stmt, SStmt, stmts_view, copy_stmts};

verus! {

/// A function declared in the program. `id` tells apart the function values
/// created while the program runs: two values are the same function when their
/// ids are equal.
#[derive(Debug)]
pub struct LoxFn {
    pub id: u64,
    pub name: Option<Token>,
    pub params: Vec<Token>,
    pub body: Vec<Stmt>,
}

/// A function that the host provides: the clock.
#[derive(Debug)]
pub struct NativeFn {
    pub id: u64,
    pub arity: usize,
}

/// A value that can be called.
#[derive(Debug)]
pub enum Callable {
    Lox(LoxFn),
    Native(NativeFn),
}

/// The mathematical model of a function value.
pub enum SFun {
    Lox { id: u64, name: Option<SToken>, params: Seq<SToken>, body: Seq<SStmt> },
    Native { id: u64, arity: usize },
}

pub open spec fn fun_view(c: Callable) -> SFun
    decreases c,
{
    match c {
        Callable::Lox(f) => SFun::Lox {
            id: f.id,
            name: match f.name {
                Some(t) => Some(tok_view(t)),
                None => None,
            },
            params: toks_view(f.params),
            body: stmts_view(f.body),
        },
        Callable::Native(n) => SFun::Native { id: n.id, arity: n.arity },
    }
}

impl View for Callable {
    type V = SFun;

    open spec fn view(&self) -> SFun {
        fun_view(*self)
    }
}

pub open spec fn spec_fun_id(f: SFun) -> u64 {
    match f {
        SFun::Lox { id, .. } => id,
        SFun::Native { id, .. } => id,
    }
}

pub open spec fn spec_arity(f: SFun) -> nat {
    match f {
        SFun::Lox { params, .. } => params.len(),
        SFun::Native { arity, .. } => arity as nat,
    }
}

/// `<fn name>` for a named function, `<fn>` for an anonymous one,
/// `<native fn>` for the clock.
pub open spec fn spec_fun_to_string(f: SFun) -> Seq<char> {
    match f {
        SFun::Lox { name, .. } => match name {
            Some(t) => seq!['<', 'f', 'n', ' '] + t.lex + seq!['>'],
            None => seq!['<', 'f', 'n', '>'],
        },
        SFun::Native { .. } => seq!['<', 'n', 'a', 't', 'i', 'v', 'e', ' ', 'f', 'n', '>'],
    }
}

impl LoxFn {
    /// The function `name` with these parameters and body, told apart from the
    /// other function values by `id`.
    pub fn new(name: Token, params: Vec<Token>, body: Vec<Stmt>, id: u64) -> (r: LoxFn)
        ensures
            r.id == id,
            r.name == Some(name),
            r.params == params,
            r.body == body,
    {
        LoxFn { id, name: Some(name), params, body }
    }
}

impl Callable {
    /// A copy of the function value with the same model.
    pub fn copy(&self) -> (r: Callable)
        ensures
            r@ == self@,
        decreases self,
    {
        match self {
            Callable::Lox(f) => {
                let name = match &f.name {
                    Some(t) => Some(t.copy()),
                    None => None,
                };
                Callable::Lox(LoxFn { id: f.id, name, params: copy_tokens(&f.params), body: copy_stmts(&f.body) })
            },
            Callable::Native(n) => Callable::Native(NativeFn { id: n.id, arity: n.arity }),
        }
    }

    /// The number of arguments the function takes.
    pub fn arity(&self) -> (r: usize)
        ensures
            r == spec_arity(self@),
    {
        match self {
            Callable::Lox(f) => f.params.len(),
            Callable::Native(n) => n.arity,
        }
    }

    /// The identity of the function value.
    pub fn id(&self) -> (r: u64)
        ensures
            r == spec_fun_id(self@),
    {
        match self {
            Callable::Lox(f) => f.id,
            Callable::Native(n) => n.id,
        }
    }

    /// How the function value prints.
    pub fn to_string(&self) -> (r: String)
        ensures
            r@ == spec_fun_to_string(self@),
    {
        match self {
            Callable::Lox(f) => match &f.name {
                Some(t) => {
                    let mut s = string_of("<fn ");
                    s.append(t.lex.as_str());
                    s.append(">");
                    proof { reveal_strlit("<fn "); reveal_strlit(">"); }
                    assert(s@ =~= seq!['<', 'f', 'n', ' '] + t.lex@ + seq!['>']);
                    s
                },
                None => {
                    let s = string_of("<fn>");
                    proof { reveal_strlit("<fn>"); }
                    assert(s@ =~= seq!['<', 'f', 'n', '>']);
                    s
                },
            },
            Callable::Native(_) => {
                let s = string_of("<native fn>");
                proof { reveal_strlit("<native fn>"); }
                assert(s@ =~= seq!['<', 'n', 'a', 't', 'i', 'v', 'e', ' ', 'f', 'n', '>']);
                s
            },
        }
    }
}

} // verus!
