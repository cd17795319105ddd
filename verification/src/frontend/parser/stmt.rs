use vstd::prelude::*;

use crate::frontend::lexer::token::{Token, SToken, tok_view, toks_view, copy_tokens};
use crate::frontend::parser::expr::{Expr, SExpr, expr_view};

verus! {

/// A statement of the syntax tree.
#[derive(Debug)]
pub enum Stmt {
    Print(Expr),
    Expression(Expr),
    Block(Vec<Stmt>),
    Break,
    If { cond: Expr, then_br: Box<Stmt>, else_br: Option<Box<Stmt>> },
    While { cond: Expr, block: Box<Stmt> },
    Var { name: Token, init: Option<Expr> },
    Function { name: Token, params: Vec<Token>, body: Vec<Stmt> },
    Return { key: Token, val: Option<Expr> },
}

/// The mathematical model of a statement.
pub enum SStmt {
    Print(SExpr),
    Expression(SExpr),
    Block(Seq<SStmt>),
    Break,
    If { cond: SExpr, then_br: Box<SStmt>, else_br: Option<Box<SStmt>> },
    While { cond: SExpr, block: Box<SStmt> },
    Var { name: SToken, init: Option<SExpr> },
    Function { name: SToken, params: Seq<SToken>, body: Seq<SStmt> },
    Return { key: SToken, val: Option<SExpr> },
}

/// What a function declaration declares.
#[derive(Debug, Clone, Copy, PartialEq, Eq, Structural)]
pub enum FunType {
    Function,
    Method,
}

pub open spec fn stmt_view(s: Stmt) -> SStmt
    decreases s,
{
    match s {
        Stmt::Print(e) => SStmt::Print(expr_view(e)),
        Stmt::Expression(e) => SStmt::Expression(expr_view(e)),
        Stmt::Block(v) => SStmt::Block(stmts_view(v)),
        Stmt::Break => SStmt::Break,
        Stmt::If { cond, then_br, else_br } => SStmt::If {
            cond: expr_view(cond),
            then_br: Box::new(stmt_view(*then_br)),
            else_br: match else_br {
                Some(b) => Some(Box::new(stmt_view(*b))),
                None => None,
            },
        },
        Stmt::While { cond, block } => SStmt::While { cond: expr_view(cond), block: Box::new(stmt_view(*block)) },
        Stmt::Var { name, init } => SStmt::Var {
            name: tok_view(name),
            init: match init {
                Some(e) => Some(expr_view(e)),
                None => None,
            },
        },
        Stmt::Function { name, params, body } => SStmt::Function {
            name: tok_view(name),
            params: toks_view(params),
            body: stmts_view(body),
        },
        Stmt::Return { key, val } => SStmt::Return {
            key: tok_view(key),
            val: match val {
                Some(e) => Some(expr_view(e)),
                None => None,
            },
        },
    }
}

pub open spec fn stmts_view(v: Vec<Stmt>) -> Seq<SStmt>
    decreases v,
{
    Seq::new(v.len() as nat, |i: int| if 0 <= i < v.len() { stmt_view(v[i]) } else { arbitrary() })
}

impl View for Stmt {
    type V = SStmt;

    open spec fn view(&self) -> SStmt {
        stmt_view(*self)
    }
}

/// Copies a vector of statements, element by element.
pub fn copy_stmts(v: &Vec<Stmt>) -> (r: Vec<Stmt>)
    ensures
        stmts_view(r) == stmts_view(*v),
    decreases v,
{
    let mut out: Vec<Stmt> = Vec::new();
    let mut i: usize = 0;
    while i < v.len()
        invariant
            i <= v.len(),
            out.len() == i,
            forall|j: int| 0 <= j < i ==> stmt_view(#[trigger] out[j]) == stmt_view(v[j]),
        decreases v.len() - i,
    {
        proof { vstd::std_specs::vec::axiom_vec_index_decreases(*v, i as int); }
        out.push(v[i].copy());
        i += 1;
    }
    assert(stmts_view(out) =~= stmts_view(*v));
    out
}

impl Stmt {
    /// A copy of the statement with the same model.
    pub fn copy(&self) -> (r: Stmt)
        ensures
            r@ == self@,
        decreases self,
    {
        match self {
            Stmt::Print(e) => Stmt::Print(e.copy()),
            Stmt::Expression(e) => Stmt::Expression(e.copy()),
            Stmt::Block(v) => Stmt::Block(copy_stmts(v)),
            Stmt::Break => Stmt::Break,
            Stmt::If { cond, then_br, else_br } => {
                let e2 = match else_br {
                    Some(b) => Some(Box::new(b.copy())),
                    None => None,
                };
                Stmt::If { cond: cond.copy(), then_br: Box::new(then_br.copy()), else_br: e2 }
            },
            Stmt::While { cond, block } => Stmt::While { cond: cond.copy(), block: Box::new(block.copy()) },
            Stmt::Var { name, init } => {
                let i2 = match init {
                    Some(e) => Some(e.copy()),
                    None => None,
                };
                Stmt::Var { name: name.copy(), init: i2 }
            },
            Stmt::Function { name, params, body } => Stmt::Function {
                name: name.copy(),
                params: copy_tokens(params),
                body: copy_stmts(body),
            },
            Stmt::Return { key, val } => {
                let v2 = match val {
                    Some(e) => Some(e.copy()),
                    None => None,
                };
                Stmt::Return { key: key.copy(), val: v2 }
            },
        }
    }
}

impl FunType {
    /// The word for what is declared: `function` or `method`.
    pub fn to_string(&self) -> (r: String)
        ensures
            r@ == (match *self {
                FunType::Function => "function"@,
                FunType::Method => "method"@,
            }),
    {
        match self {
            FunType::Function => crate::frontend::lexer::token::string_of("function"),
            FunType::Method => crate::frontend::lexer::token::string_of("method"),
        }
    }
}

} // verus!
