use vstd::prelude::*;

use crate::frontend::lexer::token::{LitVal, Token, SLit, SToken, lit_view, tok_view, toks_view, copy_tokens, spec_lit_to_string, string_of};
use crate::frontend::parser::stmt::{Stmt, SStmt, stmts_view, copy_stmts};

verus! {

/// An expression of the syntax tree.
#[derive(Debug)]
pub enum Expr {
    Grouping(Box<Expr>),
    Literal(LitVal),
    Binary { left: Box<Expr>, op: Token, right: Box<Expr> },
    Unary { op: Token, right: Box<Expr> },
    Ternary { cond: Box<Expr>, first: Box<Expr>, second: Box<Expr> },
    Assign { name: Token, val: Box<Expr> },
    Variable(Token),
    Logical { left: Box<Expr>, op: Token, right: Box<Expr> },
    AnonFun { params: Vec<Token>, body: Vec<Stmt> },
    Call { callee: Box<Expr>, paren: Token, args: Vec<Expr> },
}

/// The mathematical model of an expression.
pub enum SExpr {
    Grouping(Box<SExpr>),
    Literal(SLit),
    Binary { left: Box<SExpr>, op: SToken, right: Box<SExpr> },
    Unary { op: SToken, right: Box<SExpr> },
    Ternary { cond: Box<SExpr>, first: Box<SExpr>, second: Box<SExpr> },
    Assign { name: SToken, val: Box<SExpr> },
    Variable(SToken),
    Logical { left: Box<SExpr>, op: SToken, right: Box<SExpr> },
    AnonFun { params: Seq<SToken>, body: Seq<SStmt> },
    Call { callee: Box<SExpr>, paren: SToken, args: Seq<SExpr> },
}

pub open spec fn expr_view(e: Expr) -> SExpr
    decreases e,
{
    match e {
        Expr::Grouping(x) => SExpr::Grouping(Box::new(expr_view(*x))),
        Expr::Literal(l) => SExpr::Literal(lit_view(l)),
        Expr::Binary { left, op, right } => SExpr::Binary {
            left: Box::new(expr_view(*left)),
            op: tok_view(op),
            right: Box::new(expr_view(*right)),
        },
        Expr::Unary { op, right } => SExpr::Unary { op: tok_view(op), right: Box::new(expr_view(*right)) },
        Expr::Ternary { cond, first, second } => SExpr::Ternary {
            cond: Box::new(expr_view(*cond)),
            first: Box::new(expr_view(*first)),
            second: Box::new(expr_view(*second)),
        },
        Expr::Assign { name, val } => SExpr::Assign { name: tok_view(name), val: Box::new(expr_view(*val)) },
        Expr::Variable(t) => SExpr::Variable(tok_view(t)),
        Expr::Logical { left, op, right } => SExpr::Logical {
            left: Box::new(expr_view(*left)),
            op: tok_view(op),
            right: Box::new(expr_view(*right)),
        },
        Expr::AnonFun { params, body } => SExpr::AnonFun { params: toks_view(params), body: stmts_view(body) },
        Expr::Call { callee, paren, args } => SExpr::Call {
            callee: Box::new(expr_view(*callee)),
            paren: tok_view(paren),
            args: exprs_view(args),
        },
    }
}

pub open spec fn exprs_view(v: Vec<Expr>) -> Seq<SExpr>
    decreases v,
{
    Seq::new(v.len() as nat, |i: int| if 0 <= i < v.len() { expr_view(v[i]) } else { arbitrary() })
}

/// The parts, each after a space.
pub open spec fn spaced(parts: Seq<Seq<char>>) -> Seq<char>
    decreases parts.len(),
{
    if parts.len() == 0 {
        Seq::empty()
    } else {
        spaced(parts.drop_last()) + " "@ + parts.last()
    }
}

/// `(name part part ...)`.
pub open spec fn paren(name: Seq<char>, parts: Seq<Seq<char>>) -> Seq<char> {
    "("@ + name + spaced(parts) + ")"@
}

/// The expression written out with its structure in parentheses: a literal
/// as its text, any other expression as `(what operand ...)`.
pub open spec fn spec_expand(e: SExpr) -> Seq<char>
    decreases e,
{
    match e {
        SExpr::Literal(l) => spec_lit_to_string(l),
        SExpr::Grouping(x) => paren("group"@, seq![spec_expand(*x)]),
        SExpr::Binary { left, op, right } => paren(op.lex, seq![spec_expand(*left), spec_expand(*right)]),
        SExpr::Unary { op, right } => paren(op.lex, seq![spec_expand(*right)]),
        SExpr::Ternary { cond, first, second } => paren(
            "?:"@,
            seq![spec_expand(*cond), spec_expand(*first), spec_expand(*second)],
        ),
        SExpr::Assign { name, val } => paren("="@ + name.lex, seq![spec_expand(*val)]),
        SExpr::Variable(id) => paren("var "@ + id.lex, Seq::empty()),
        SExpr::Logical { left, op, right } => paren(op.lex, seq![spec_expand(*left), spec_expand(*right)]),
        SExpr::AnonFun { .. } => paren("fun"@, Seq::empty()),
        SExpr::Call { callee, args, .. } => paren(
            "call"@,
            seq![spec_expand(*callee)] + expand_all_view(args),
        ),
    }
}

pub open spec fn expand_all_view(args: Seq<SExpr>) -> Seq<Seq<char>>
    decreases args,
{
    Seq::new(args.len(), |i: int| if 0 <= i < args.len() { spec_expand(args[i]) } else { arbitrary() })
}

pub open spec fn strs_view(v: Seq<String>) -> Seq<Seq<char>> {
    v.map_values(|s: String| s@)
}

/// `(val part part ...)`.
fn parenthesize(val: String, parts: Vec<String>) -> (r: String)
    ensures
        r@ == paren(val@, strs_view(parts@)),
{
    let mut s = string_of("(");
    s.append(val.as_str());
    let mut i: usize = 0;
    while i < parts.len()
        invariant
            i <= parts.len(),
            s@ == "("@ + val@ + spaced(strs_view(parts@).subrange(0, i as int)),
        decreases parts.len() - i,
    {
        s.append(" ");
        s.append(parts[i].as_str());
        proof {
            let sv = strs_view(parts@);
            assert(sv.subrange(0, i + 1).drop_last() =~= sv.subrange(0, i as int));
        }
        i += 1;
    }
    s.append(")");
    assert(strs_view(parts@).subrange(0, parts.len() as int) =~= strs_view(parts@));
    s
}

/// Each expression written out, in order.
fn expand_all(v: &Vec<Expr>) -> (r: Vec<String>)
    ensures
        strs_view(r@) == expand_all_view(exprs_view(*v)),
    decreases v,
{
    let ghost es = exprs_view(*v);
    let mut out: Vec<String> = Vec::new();
    let mut i: usize = 0;
    while i < v.len()
        invariant
            i <= v.len(),
            es == exprs_view(*v),
            out.len() == i,
            forall|j: int| 0 <= j < i ==> (#[trigger] out[j])@ == spec_expand(es[j]),
        decreases v.len() - i,
    {
        proof { vstd::std_specs::vec::axiom_vec_index_decreases(*v, i as int); }
        let x = v[i].expand();
        proof { assert(es[i as int] == v[i as int]@); }
        out.push(x);
        i += 1;
    }
    assert(strs_view(out@) =~= expand_all_view(es));
    out
}

impl View for Expr {
    type V = SExpr;

    open spec fn view(&self) -> SExpr {
        expr_view(*self)
    }
}

/// Copies a vector of expressions, element by element.
pub fn copy_exprs(v: &Vec<Expr>) -> (r: Vec<Expr>)
    ensures
        exprs_view(r) == exprs_view(*v),
    decreases v,
{
    let mut out: Vec<Expr> = Vec::new();
    let mut i: usize = 0;
    while i < v.len()
        invariant
            i <= v.len(),
            out.len() == i,
            forall|j: int| 0 <= j < i ==> expr_view(#[trigger] out[j]) == expr_view(v[j]),
        decreases v.len() - i,
    {
        proof { vstd::std_specs::vec::axiom_vec_index_decreases(*v, i as int); }
        out.push(v[i].copy());
        i += 1;
    }
    assert(exprs_view(out) =~= exprs_view(*v));
    out
}

impl Expr {
    /// The expression written out with its structure in parentheses. A
    /// number literal is written as the scanner holds it, in its shortest
    /// decimal form (`1.50` as `1.5`), with all the digits it was written
    /// with, also beyond those a 64-bit float keeps.
    pub fn expand(&self) -> (r: String)
        ensures
            r@ == spec_expand(self@),
        decreases self,
    {
        match self {
            Expr::Literal(v) => {
                let r = v.to_string();
                assert(self@ == SExpr::Literal(v@));
                r
            },
            Expr::Grouping(x) => {
                let parts = vec![x.expand()];
                assert(strs_view(parts@) =~= seq![spec_expand(x@)]);
                let r = parenthesize(string_of("group"), parts);
                assert(r@ == spec_expand(self@));
                r
            },
            Expr::Binary { left, op, right } => {
                let parts = vec![left.expand(), right.expand()];
                assert(strs_view(parts@) =~= seq![spec_expand(left@), spec_expand(right@)]);
                let r = parenthesize(op.lex.clone(), parts);
                assert(self@ == SExpr::Binary { left: Box::new(left@), op: op@, right: Box::new(right@) });
                assert(r@ == spec_expand(self@));
                r
            },
            Expr::Unary { op, right } => {
                let parts = vec![right.expand()];
                assert(strs_view(parts@) =~= seq![spec_expand(right@)]);
                let r = parenthesize(op.lex.clone(), parts);
                assert(self@ == SExpr::Unary { op: op@, right: Box::new(right@) });
                assert(r@ == spec_expand(self@));
                r
            },
            Expr::Ternary { cond, first, second } => {
                let parts = vec![cond.expand(), first.expand(), second.expand()];
                assert(strs_view(parts@) =~= seq![spec_expand(cond@), spec_expand(first@), spec_expand(second@)]);
                let r = parenthesize(string_of("?:"), parts);
                assert(r@ == spec_expand(self@));
                r
            },
            Expr::Assign { name, val } => {
                let parts = vec![val.expand()];
                assert(strs_view(parts@) =~= seq![spec_expand(val@)]);
                let mut head = string_of("=");
                head.append(name.lex.as_str());
                let r = parenthesize(head, parts);
                assert(self@ == SExpr::Assign { name: name@, val: Box::new(val@) });
                assert(r@ == spec_expand(self@));
                r
            },
            Expr::Variable(id) => {
                let parts: Vec<String> = Vec::new();
                assert(strs_view(parts@) =~= Seq::<Seq<char>>::empty());
                let mut head = string_of("var ");
                head.append(id.lex.as_str());
                let r = parenthesize(head, parts);
                assert(self@ == SExpr::Variable(id@));
                assert(r@ == spec_expand(self@));
                r
            },
            Expr::Logical { left, op, right } => {
                let parts = vec![left.expand(), right.expand()];
                assert(strs_view(parts@) =~= seq![spec_expand(left@), spec_expand(right@)]);
                let r = parenthesize(op.lex.clone(), parts);
                assert(self@ == SExpr::Logical { left: Box::new(left@), op: op@, right: Box::new(right@) });
                assert(r@ == spec_expand(self@));
                r
            },
            Expr::AnonFun { .. } => {
                let parts: Vec<String> = Vec::new();
                assert(strs_view(parts@) =~= Seq::<Seq<char>>::empty());
                let r = parenthesize(string_of("fun"), parts);
                assert(r@ == spec_expand(self@));
                r
            },
            Expr::Call { callee, paren, args } => {
                let mut parts = vec![callee.expand()];
                let rest = expand_all(args);
                let ghost p0 = strs_view(parts@);
                assert(p0 =~= seq![spec_expand(callee@)]);
                let mut rest = rest;
                parts.append(&mut rest);
                assert(strs_view(parts@) =~= p0 + expand_all_view(exprs_view(*args)));
                let r = parenthesize(string_of("call"), parts);
                assert(self@ == SExpr::Call { callee: Box::new(callee@), paren: paren@, args: exprs_view(*args) });
                assert(r@ == spec_expand(self@));
                r
            },
        }
    }

    /// A copy of the expression with the same model.
    pub fn copy(&self) -> (r: Expr)
        ensures
            r@ == self@,
        decreases self,
    {
        match self {
            Expr::Grouping(x) => Expr::Grouping(Box::new(x.copy())),
            Expr::Literal(l) => Expr::Literal(l.copy()),
            Expr::Binary { left, op, right } => Expr::Binary {
                left: Box::new(left.copy()),
                op: op.copy(),
                right: Box::new(right.copy()),
            },
            Expr::Unary { op, right } => Expr::Unary { op: op.copy(), right: Box::new(right.copy()) },
            Expr::Ternary { cond, first, second } => Expr::Ternary {
                cond: Box::new(cond.copy()),
                first: Box::new(first.copy()),
                second: Box::new(second.copy()),
            },
            Expr::Assign { name, val } => Expr::Assign { name: name.copy(), val: Box::new(val.copy()) },
            Expr::Variable(t) => Expr::Variable(t.copy()),
            Expr::Logical { left, op, right } => Expr::Logical {
                left: Box::new(left.copy()),
                op: op.copy(),
                right: Box::new(right.copy()),
            },
            Expr::AnonFun { params, body } => Expr::AnonFun { params: copy_tokens(params), body: copy_stmts(body) },
            Expr::Call { callee, paren, args } => Expr::Call {
                callee: Box::new(callee.copy()),
                paren: paren.copy(),
                args: copy_exprs(args),
            },
        }
    }
}

} // verus!
