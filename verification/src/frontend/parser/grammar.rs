use vstd::prelude::*;

use crate::error::SParseError;
use crate::frontend::lexer::token::{Keyword, SLit, SToken, TokenT};
use crate::frontend::parser::expr::SExpr;
use crate::frontend::parser::stmt::{FunType, SStmt};
use crate::lox::parse_report;

verus! {

// The model of the parser: one spec function per grammar rule, over the
// token sequence `t` and a state that holds the position, the loop depth and
// the syntax errors reported in place. Each rule returns its result and the
// state after it. Where a rule goes on from the state another rule returned,
// the model asks that state to be no earlier (and, where the same rule comes
// again, strictly later) than before; the parser always meets this, and the
// contracts of its methods say so.

/// The state of a parse.
pub struct PState {
    pub pos: int,
    pub depth: int,
    pub errs: Seq<Seq<char>>,
    pub perr: bool,
}

pub type PRes<T> = Result<T, SParseError>;

pub open spec fn at_eof(t: Seq<SToken>, st: PState) -> bool {
    t[st.pos].token_t == TokenT::EOF
}

pub open spec fn adv(t: Seq<SToken>, st: PState) -> PState {
    if at_eof(t, st) { st } else { PState { pos: st.pos + 1, ..st } }
}

pub open spec fn check(t: Seq<SToken>, st: PState, k: TokenT) -> bool {
    !at_eof(t, st) && t[st.pos].token_t == k
}

pub open spec fn peek(t: Seq<SToken>, st: PState) -> SToken {
    t[st.pos]
}

pub open spec fn prev(t: Seq<SToken>, st: PState) -> SToken {
    t[st.pos - 1]
}

/// Whether the current token is one of `ks` (not at the end).
pub open spec fn matches_any(t: Seq<SToken>, st: PState, ks: Seq<TokenT>) -> bool {
    !at_eof(t, st) && ks.contains(t[st.pos].token_t)
}

pub open spec fn report(st: PState, tkn: SToken, msg: Seq<char>) -> PState {
    PState { errs: st.errs.push(parse_report(tkn, msg)), perr: true, ..st }
}

pub open spec fn perr(tkn: SToken, msg: Seq<char>) -> SParseError {
    SParseError { tkn, msg }
}

pub open spec fn consume(t: Seq<SToken>, st: PState, k: TokenT, msg: Seq<char>) -> (PRes<SToken>, PState) {
    if check(t, st, k) { (Ok(t[st.pos]), adv(t, st)) } else { (Err(perr(t[st.pos], msg)), st) }
}

/// `b` does not lie before `a` and is within the tokens.
pub open spec fn fwd(t: Seq<SToken>, a: PState, b: PState) -> bool {
    a.pos <= b.pos <= t.len()
}

/// `b` lies after `a` and is within the tokens.
pub open spec fn sfwd(t: Seq<SToken>, a: PState, b: PState) -> bool {
    a.pos < b.pos <= t.len()
}

pub open spec fn fun_word(f: FunType) -> Seq<char> {
    match f {
        FunType::Function => "function"@,
        FunType::Method => "method"@,
    }
}

pub open spec fn equality_ops() -> Seq<TokenT> { seq![TokenT::BangEqual, TokenT::EqualEqual] }
pub open spec fn comparison_ops() -> Seq<TokenT> {
    seq![TokenT::Greater, TokenT::GreaterEqual, TokenT::Less, TokenT::LessEqual]
}
pub open spec fn term_ops() -> Seq<TokenT> { seq![TokenT::Plus, TokenT::Minus] }
pub open spec fn factor_ops() -> Seq<TokenT> { seq![TokenT::Slash, TokenT::Star] }
pub open spec fn unary_ops() -> Seq<TokenT> { seq![TokenT::Bang, TokenT::Minus] }
pub open spec fn literal_kinds() -> Seq<TokenT> {
    seq![TokenT::Keyword(Keyword::Nil), TokenT::Keyword(Keyword::True), TokenT::Keyword(Keyword::False), TokenT::Literal]
}

/// Which level of the operator grammar a binary rule stands for.
#[derive(Clone, Copy)]
pub enum Level { Or, And, Equality, Comparison, Term, Factor }

pub open spec fn level_ops(l: Level) -> Seq<TokenT> {
    match l {
        Level::Or => seq![TokenT::Keyword(Keyword::Or)],
        Level::And => seq![TokenT::Keyword(Keyword::And)],
        Level::Equality => equality_ops(),
        Level::Comparison => comparison_ops(),
        Level::Term => term_ops(),
        Level::Factor => factor_ops(),
    }
}

pub open spec fn level_rank(l: Level) -> int {
    match l {
        Level::Or => 27,
        Level::And => 25,
        Level::Equality => 22,
        Level::Comparison => 20,
        Level::Term => 18,
        Level::Factor => 16,
    }
}

/// The operand rule of a level.
pub open spec fn level_next(t: Seq<SToken>, st: PState, l: Level) -> (PRes<SExpr>, PState)
    decreases t.len() - st.pos, level_rank(l) - 1,
    when 0 <= st.pos <= t.len()
{
    match l {
        Level::Or => g_binary(t, st, Level::And),
        Level::And => g_ternary(t, st),
        Level::Equality => g_binary(t, st, Level::Comparison),
        Level::Comparison => g_binary(t, st, Level::Term),
        Level::Term => g_binary(t, st, Level::Factor),
        Level::Factor => g_unary(t, st),
    }
}

pub open spec fn mk_bin(l: Level, left: SExpr, op: SToken, right: SExpr) -> SExpr {
    match l {
        Level::Or | Level::And => SExpr::Logical { left: Box::new(left), op, right: Box::new(right) },
        _ => SExpr::Binary { left: Box::new(left), op, right: Box::new(right) },
    }
}

/// A binary rule: operands of the next level joined by the operators of `l`,
/// left to right; an operator with no left operand is an error.
pub open spec fn g_binary(t: Seq<SToken>, st: PState, l: Level) -> (PRes<SExpr>, PState)
    decreases t.len() - st.pos, level_rank(l),
    when 0 <= st.pos <= t.len()
{
    if st.pos >= t.len() {
        (arbitrary(), st)
    } else if matches_any(t, st, level_ops(l)) {
        let st1 = adv(t, st);
        let err = perr(prev(t, st1), "Expect expression before operator."@);
        let (_, st2) = level_next(t, st1, l);
        (Err(err), st2)
    } else {
        let (e, st1) = level_next(t, st, l);
        if fwd(t, st, st1) {
            g_binary_tail(t, st1, l, e)
        } else {
            (arbitrary(), st1)
        }
    }
}

pub open spec fn g_binary_tail(t: Seq<SToken>, st: PState, l: Level, e: PRes<SExpr>) -> (PRes<SExpr>, PState)
    decreases t.len() - st.pos, level_rank(l) - 2,
    when 0 <= st.pos <= t.len()
{
    if st.pos >= t.len() {
        (arbitrary(), st)
    } else if matches_any(t, st, level_ops(l)) {
        let st1 = adv(t, st);
        let op = prev(t, st1);
        let (r, st2) = level_next(t, st1, l);
        match r {
            Err(x) => (Err(x), st2),
            Ok(right) => match e {
                Err(x) => (Err(x), st2),
                Ok(left) => if sfwd(t, st, st2) {
                    g_binary_tail(t, st2, l, Ok(mk_bin(l, left, op, right)))
                } else {
                    (arbitrary(), st2)
                },
            },
        }
    } else {
        (e, st)
    }
}

pub open spec fn g_expression(t: Seq<SToken>, st: PState) -> (PRes<SExpr>, PState)
    decreases t.len() - st.pos, 30int,
    when 0 <= st.pos <= t.len()
{
    g_assignment(t, st)
}

pub open spec fn g_assignment(t: Seq<SToken>, st: PState) -> (PRes<SExpr>, PState)
    decreases t.len() - st.pos, 29int,
    when 0 <= st.pos <= t.len()
{
    let (e, st1) = g_anon_fun(t, st);
    match e {
        Err(x) => (Err(x), st1),
        Ok(expr) => if st1.pos < 0 || st1.pos >= t.len() {
            (arbitrary(), st1)
        } else if check(t, st1, TokenT::Equal) {
            let st2 = adv(t, st1);
            let equals = prev(t, st2);
            if sfwd(t, st, st2) {
                let (v, st3) = g_assignment(t, st2);
                match v {
                    Err(x) => (Err(x), st3),
                    Ok(val) => match expr {
                        SExpr::Variable(name) => (Ok(SExpr::Assign { name, val: Box::new(val) }), st3),
                        _ => (Ok(expr), report(st3, equals, "Invalid assignment target."@)),
                    },
                }
            } else {
                (arbitrary(), st2)
            }
        } else {
            (Ok(expr), st1)
        },
    }
}

pub open spec fn g_anon_fun(t: Seq<SToken>, st: PState) -> (PRes<SExpr>, PState)
    decreases t.len() - st.pos, 28int,
    when 0 <= st.pos <= t.len()
{
    let (e, st1) = g_binary(t, st, Level::Or);
    if st1.pos < 0 || st1.pos >= t.len() {
        (arbitrary(), st1)
    } else if check(t, st1, TokenT::Keyword(Keyword::Fun)) {
        let st2 = adv(t, st1);
        let (lp, st3) = consume(t, st2, TokenT::LeftParen, "Expect '(' after 'fun'."@);
        match lp {
            Err(x) => (Err(x), st3),
            Ok(_) => if sfwd(t, st, st3) {
                let (pb, st4) = g_parameters(t, st3, FunType::Function);
                match pb {
                    Err(x) => (Err(x), st4),
                    Ok((params, body)) => (Ok(SExpr::AnonFun { params, body }), st4),
                }
            } else {
                (arbitrary(), st3)
            },
        }
    } else {
        (e, st1)
    }
}

pub open spec fn g_ternary(t: Seq<SToken>, st: PState) -> (PRes<SExpr>, PState)
    decreases t.len() - st.pos, 23int,
    when 0 <= st.pos <= t.len()
{
    let (cond, st1) = g_binary(t, st, Level::Equality);
    if st1.pos < 0 || st1.pos >= t.len() {
        (arbitrary(), st1)
    } else if check(t, st1, TokenT::Query) {
        let st2 = adv(t, st1);
        if sfwd(t, st, st2) {
            let (f, st3) = g_expression(t, st2);
            match f {
                Err(x) => (Err(x), st3),
                Ok(first) => if st3.pos < 0 || st3.pos >= t.len() {
                    (arbitrary(), st3)
                } else {
                    let (c, st4) = consume(t, st3, TokenT::Colon, "Expect ':' after first expression."@);
                    match c {
                        Err(x) => (Err(x), st4),
                        Ok(_) => if sfwd(t, st, st4) {
                            let (s2, st5) = g_expression(t, st4);
                            match s2 {
                                Err(x) => (Err(x), st5),
                                Ok(second) => match cond {
                                    Err(x) => (Err(x), st5),
                                    Ok(c) => (Ok(SExpr::Ternary {
                                        cond: Box::new(c),
                                        first: Box::new(first),
                                        second: Box::new(second),
                                    }), st5),
                                },
                            }
                        } else {
                            (arbitrary(), st4)
                        },
                    }
                },
            }
        } else {
            (arbitrary(), st2)
        }
    } else {
        (cond, st1)
    }
}

pub open spec fn g_unary(t: Seq<SToken>, st: PState) -> (PRes<SExpr>, PState)
    decreases t.len() - st.pos, 14int,
    when 0 <= st.pos <= t.len()
{
    if st.pos >= t.len() {
        (arbitrary(), st)
    } else if matches_any(t, st, unary_ops()) {
        let st1 = adv(t, st);
        let op = prev(t, st1);
        let (r, st2) = g_unary(t, st1);
        match r {
            Err(x) => (Err(x), st2),
            Ok(right) => (Ok(SExpr::Unary { op, right: Box::new(right) }), st2),
        }
    } else {
        g_call(t, st)
    }
}

pub open spec fn g_call(t: Seq<SToken>, st: PState) -> (PRes<SExpr>, PState)
    decreases t.len() - st.pos, 13int,
    when 0 <= st.pos <= t.len()
{
    let (e, st1) = g_primary(t, st);
    if fwd(t, st, st1) {
        g_call_loop(t, st1, e)
    } else {
        (arbitrary(), st1)
    }
}

pub open spec fn g_call_loop(t: Seq<SToken>, st: PState, e: PRes<SExpr>) -> (PRes<SExpr>, PState)
    decreases t.len() - st.pos, 12int,
    when 0 <= st.pos <= t.len()
{
    if st.pos >= t.len() {
        (arbitrary(), st)
    } else if check(t, st, TokenT::LeftParen) {
        let st1 = adv(t, st);
        match e {
            Err(x) => (Err(x), st1),
            Ok(callee) => {
                let (r, st2) = g_finish_call(t, st1, callee);
                if sfwd(t, st, st2) {
                    g_call_loop(t, st2, r)
                } else {
                    (arbitrary(), st2)
                }
            },
        }
    } else {
        (e, st)
    }
}

pub open spec fn g_finish_call(t: Seq<SToken>, st: PState, callee: SExpr) -> (PRes<SExpr>, PState)
    decreases t.len() - st.pos, 32int,
    when 0 <= st.pos <= t.len()
{
    if st.pos >= t.len() {
        (arbitrary(), st)
    } else {
        let (a, st1) = if !check(t, st, TokenT::RightParen) {
            let (first, st2) = g_expression(t, st);
            match first {
                Err(x) => (Err(x), st2),
                Ok(e) => if fwd(t, st, st2) {
                    g_args(t, st2, seq![e])
                } else {
                    (arbitrary(), st2)
                },
            }
        } else {
            (Ok(Seq::empty()), st)
        };
        match a {
            Err(x) => (Err(x), st1),
            Ok(args) => if st1.pos < 0 || st1.pos >= t.len() {
                (arbitrary(), st1)
            } else {
                let st2 = if args.len() >= 255 {
                    report(st1, peek(t, st1), "Can't have more than 255 arguments"@)
                } else {
                    st1
                };
                let (p, st3) = consume(t, st2, TokenT::RightParen, "Expect ')' after arguments"@);
                match p {
                    Err(x) => (Err(x), st3),
                    Ok(paren) => (Ok(SExpr::Call { callee: Box::new(callee), paren, args }), st3),
                }
            },
        }
    }
}

/// The arguments after the first: each preceded by a comma.
pub open spec fn g_args(t: Seq<SToken>, st: PState, acc: Seq<SExpr>) -> (PRes<Seq<SExpr>>, PState)
    decreases t.len() - st.pos, 31int,
    when 0 <= st.pos <= t.len()
{
    if st.pos >= t.len() {
        (arbitrary(), st)
    } else if check(t, st, TokenT::Comma) {
        let st1 = adv(t, st);
        let (a, st2) = g_expression(t, st1);
        match a {
            Err(x) => (Err(x), st2),
            Ok(e) => if sfwd(t, st, st2) {
                g_args(t, st2, acc.push(e))
            } else {
                (arbitrary(), st2)
            },
        }
    } else {
        (Ok(acc), st)
    }
}

pub open spec fn g_primary(t: Seq<SToken>, st: PState) -> (PRes<SExpr>, PState)
    decreases t.len() - st.pos, 11int,
    when 0 <= st.pos <= t.len()
{
    if st.pos >= t.len() {
        (arbitrary(), st)
    } else if matches_any(t, st, literal_kinds()) {
        let st1 = adv(t, st);
        (Ok(SExpr::Literal(prev(t, st1).lit)), st1)
    } else if check(t, st, TokenT::Identifier) {
        let st1 = adv(t, st);
        (Ok(SExpr::Variable(prev(t, st1))), st1)
    } else if check(t, st, TokenT::LeftParen) {
        let st1 = adv(t, st);
        let (e, st2) = g_expression(t, st1);
        if st2.pos < 0 || st2.pos >= t.len() {
            (arbitrary(), st2)
        } else {
            let (c, st3) = consume(t, st2, TokenT::RightParen, "Expect ')' after expression."@);
            match c {
                Err(x) => (Err(x), st3),
                Ok(_) => match e {
                    Err(x) => (Err(x), st3),
                    Ok(inner) => (Ok(SExpr::Grouping(Box::new(inner))), st3),
                },
            }
        }
    } else {
        (Err(perr(peek(t, st), "Expect expression."@)), st)
    }
}

// Statements.

pub open spec fn g_declaration(t: Seq<SToken>, st: PState) -> (PRes<SStmt>, PState)
    decreases t.len() - st.pos, 45int,
    when 0 <= st.pos <= t.len()
{
    if st.pos >= t.len() {
        (arbitrary(), st)
    } else if check(t, st, TokenT::Keyword(Keyword::Var)) {
        g_var_decl(t, adv(t, st))
    } else if check(t, st, TokenT::Keyword(Keyword::Fun)) {
        g_fun_decl(t, adv(t, st), FunType::Function)
    } else {
        g_statement(t, st)
    }
}

pub open spec fn g_var_decl(t: Seq<SToken>, st: PState) -> (PRes<SStmt>, PState)
    decreases t.len() - st.pos, 40int,
    when 0 <= st.pos <= t.len()
{
    if st.pos >= t.len() {
        (arbitrary(), st)
    } else {
        let (n, st1) = consume(t, st, TokenT::Identifier, "Expect variable name."@);
        match n {
            Err(x) => (Err(x), st1),
            Ok(name) => {
                let (init, st2) = if st1.pos < t.len() && check(t, st1, TokenT::Equal) {
                    let (e, st3) = g_expression(t, adv(t, st1));
                    match e {
                        Err(x) => (Err(x), st3),
                        Ok(e) => (Ok(Some(e)), st3),
                    }
                } else {
                    (Ok(None), st1)
                };
                match init {
                    Err(x) => (Err(x), st2),
                    Ok(init) => if st2.pos < 0 || st2.pos >= t.len() {
                        (arbitrary(), st2)
                    } else {
                        let (c, st3) = consume(t, st2, TokenT::Semicolon, "Expect ';' after variable declaration."@);
                        match c {
                            Err(x) => (Err(x), st3),
                            Ok(_) => (Ok(SStmt::Var { name, init }), st3),
                        }
                    },
                }
            },
        }
    }
}

pub open spec fn g_fun_decl(t: Seq<SToken>, st: PState, f: FunType) -> (PRes<SStmt>, PState)
    decreases t.len() - st.pos, 46int,
    when 0 <= st.pos <= t.len()
{
    if st.pos >= t.len() {
        (arbitrary(), st)
    } else if !check(t, st, TokenT::Identifier) {
        g_statement(t, st)
    } else {
        let (n, st1) = consume(t, st, TokenT::Identifier, "Expect "@ + fun_word(f) + " name."@);
        match n {
            Err(x) => (Err(x), st1),
            Ok(name) => {
                let (lp, st2) = consume(t, st1, TokenT::LeftParen, "Expect '(' after "@ + fun_word(f) + " name."@);
                match lp {
                    Err(x) => (Err(x), st2),
                    Ok(_) => if sfwd(t, st, st2) {
                        let (pb, st3) = g_parameters(t, st2, f);
                        match pb {
                            Err(x) => (Err(x), st3),
                            Ok((params, body)) => (Ok(SStmt::Function { name, params, body }), st3),
                        }
                    } else {
                        (arbitrary(), st2)
                    },
                }
            },
        }
    }
}

pub open spec fn g_statement(t: Seq<SToken>, st: PState) -> (PRes<SStmt>, PState)
    decreases t.len() - st.pos, 44int,
    when 0 <= st.pos <= t.len()
{
    if st.pos >= t.len() {
        (arbitrary(), st)
    } else if check(t, st, TokenT::Keyword(Keyword::Print)) {
        g_print_stmt(t, adv(t, st))
    } else if check(t, st, TokenT::Keyword(Keyword::If)) {
        g_if_stmt(t, adv(t, st))
    } else if check(t, st, TokenT::Keyword(Keyword::While)) {
        g_while_stmt(t, adv(t, st))
    } else if check(t, st, TokenT::Keyword(Keyword::For)) {
        g_for_stmt(t, adv(t, st))
    } else if check(t, st, TokenT::LeftBrace) {
        g_block_stmt(t, adv(t, st))
    } else if check(t, st, TokenT::Keyword(Keyword::Break)) {
        g_break_stmt(t, adv(t, st))
    } else if check(t, st, TokenT::Keyword(Keyword::Return)) {
        g_return_stmt(t, adv(t, st))
    } else {
        g_expr_stmt(t, st)
    }
}

/// An expression followed by a semicolon.
pub open spec fn g_expr_semi(t: Seq<SToken>, st: PState) -> (PRes<SExpr>, PState)
    decreases t.len() - st.pos, 35int,
    when 0 <= st.pos <= t.len()
{
    let (e, st1) = g_expression(t, st);
    match e {
        Err(x) => (Err(x), st1),
        Ok(value) => if st1.pos < 0 || st1.pos >= t.len() {
            (arbitrary(), st1)
        } else {
            let (c, st2) = consume(t, st1, TokenT::Semicolon, "Expect ';' after value."@);
            match c {
                Err(x) => (Err(x), st2),
                Ok(_) => (Ok(value), st2),
            }
        },
    }
}

pub open spec fn g_print_stmt(t: Seq<SToken>, st: PState) -> (PRes<SStmt>, PState)
    decreases t.len() - st.pos, 40int,
    when 0 <= st.pos <= t.len()
{
    let (e, st1) = g_expr_semi(t, st);
    match e {
        Err(x) => (Err(x), st1),
        Ok(v) => (Ok(SStmt::Print(v)), st1),
    }
}

pub open spec fn g_expr_stmt(t: Seq<SToken>, st: PState) -> (PRes<SStmt>, PState)
    decreases t.len() - st.pos, 40int,
    when 0 <= st.pos <= t.len()
{
    let (e, st1) = g_expr_semi(t, st);
    match e {
        Err(x) => (Err(x), st1),
        Ok(v) => (Ok(SStmt::Expression(v)), st1),
    }
}

/// `( cond )` after `if` or `while`.
pub open spec fn g_cond(t: Seq<SToken>, st: PState, open_msg: Seq<char>, close_msg: Seq<char>) -> (PRes<SExpr>, PState)
    decreases t.len() - st.pos, 39int,
    when 0 <= st.pos <= t.len()
{
    if st.pos >= t.len() {
        (arbitrary(), st)
    } else {
        let (lp, st1) = consume(t, st, TokenT::LeftParen, open_msg);
        match lp {
            Err(x) => (Err(x), st1),
            Ok(_) => {
                let (c, st2) = g_expression(t, st1);
                match c {
                    Err(x) => (Err(x), st2),
                    Ok(cond) => if st2.pos < 0 || st2.pos >= t.len() {
                        (arbitrary(), st2)
                    } else {
                        let (rp, st3) = consume(t, st2, TokenT::RightParen, close_msg);
                        match rp {
                            Err(x) => (Err(x), st3),
                            Ok(_) => (Ok(cond), st3),
                        }
                    },
                }
            },
        }
    }
}

pub open spec fn g_if_stmt(t: Seq<SToken>, st: PState) -> (PRes<SStmt>, PState)
    decreases t.len() - st.pos, 40int,
    when 0 <= st.pos <= t.len()
{
    let (c, st1) = g_cond(t, st, "Expect '(' after 'if'."@, "Expext ')' after if condition."@);
    match c {
        Err(x) => (Err(x), st1),
        Ok(cond) => if sfwd(t, st, st1) {
            let (th, st2) = g_statement(t, st1);
            match th {
                Err(x) => (Err(x), st2),
                Ok(then_br) => if st2.pos < 0 || st2.pos >= t.len() {
                    (arbitrary(), st2)
                } else if check(t, st2, TokenT::Keyword(Keyword::Else)) {
                    let st3 = adv(t, st2);
                    if sfwd(t, st, st3) {
                        let (el, st4) = g_statement(t, st3);
                        match el {
                            Err(x) => (Err(x), st4),
                            Ok(e) => (Ok(SStmt::If { cond, then_br: Box::new(then_br), else_br: Some(Box::new(e)) }), st4),
                        }
                    } else {
                        (arbitrary(), st3)
                    }
                } else {
                    (Ok(SStmt::If { cond, then_br: Box::new(then_br), else_br: None }), st2)
                },
            }
        } else {
            (arbitrary(), st1)
        },
    }
}

/// The loop depth one deeper (it stops at the largest machine word).
pub open spec fn depth_inc(d: int) -> int {
    if d < usize::MAX { d + 1 } else { d }
}

/// The loop depth one shallower (it stops at zero).
pub open spec fn depth_dec(d: int) -> int {
    if d > 0 { d - 1 } else { d }
}

/// A loop body: the statement, parsed one loop deeper.
pub open spec fn g_loop_body(t: Seq<SToken>, st: PState) -> (PRes<SStmt>, PState)
    decreases t.len() - st.pos, 47int,
    when 0 <= st.pos <= t.len()
{
    let (b, st1) = g_statement(t, PState { depth: depth_inc(st.depth), ..st });
    match b {
        Err(x) => (Err(x), st1),
        Ok(body) => (Ok(body), PState { depth: depth_dec(st1.depth), ..st1 }),
    }
}

pub open spec fn g_while_stmt(t: Seq<SToken>, st: PState) -> (PRes<SStmt>, PState)
    decreases t.len() - st.pos, 40int,
    when 0 <= st.pos <= t.len()
{
    let (c, st1) = g_cond(t, st, "Expect '(' after 'while'."@, "Expext ')' after while condition."@);
    match c {
        Err(x) => (Err(x), st1),
        Ok(cond) => if sfwd(t, st, st1) {
            let (b, st2) = g_loop_body(t, st1);
            match b {
                Err(x) => (Err(x), st2),
                Ok(block) => (Ok(SStmt::While { cond, block: Box::new(block) }), st2),
            }
        } else {
            (arbitrary(), st1)
        },
    }
}

/// An optional expression, absent when the next token is `stop`.
pub open spec fn g_opt_expr(t: Seq<SToken>, st: PState, stop: TokenT) -> (PRes<Option<SExpr>>, PState)
    decreases t.len() - st.pos, 39int,
    when 0 <= st.pos <= t.len()
{
    if st.pos >= t.len() {
        (arbitrary(), st)
    } else if !check(t, st, stop) {
        let (e, st1) = g_expression(t, st);
        match e {
            Err(x) => (Err(x), st1),
            Ok(e) => (Ok(Some(e)), st1),
        }
    } else {
        (Ok(None), st)
    }
}

/// The desugaring of a `for` loop into a block with a `while` loop.
pub open spec fn desugar_for(init: SStmt, cond: Option<SExpr>, incr: Option<SExpr>, body: SStmt) -> SStmt {
    let body1 = match incr {
        Some(i) => SStmt::Block(seq![body, SStmt::Expression(i)]),
        None => body,
    };
    let c = match cond {
        Some(c) => c,
        None => SExpr::Literal(SLit::Bool(true)),
    };
    SStmt::Block(seq![init, SStmt::While { cond: c, block: Box::new(body1) }])
}

pub open spec fn g_for_stmt(t: Seq<SToken>, st: PState) -> (PRes<SStmt>, PState)
    decreases t.len() - st.pos, 40int,
    when 0 <= st.pos <= t.len()
{
    if st.pos >= t.len() {
        (arbitrary(), st)
    } else {
        let (lp, st1) = consume(t, st, TokenT::LeftParen, "Expect '(' after 'while'."@);
        match lp {
            Err(x) => (Err(x), st1),
            Ok(_) => if sfwd(t, st, st1) {
                let (i, st2) = g_for_init(t, st1);
                match i {
                    Err(x) => (Err(x), st2),
                    Ok(init) => if sfwd(t, st, st2) {
                        g_for_tail(t, st2, init)
                    } else {
                        (arbitrary(), st2)
                    },
                }
            } else {
                (arbitrary(), st1)
            },
        }
    }
}

/// The initializer of a `for` loop: a variable declaration or an expression statement.
pub open spec fn g_for_init(t: Seq<SToken>, st: PState) -> (PRes<SStmt>, PState)
    decreases t.len() - st.pos, 41int,
    when 0 <= st.pos <= t.len()
{
    if st.pos < t.len() && check(t, st, TokenT::Keyword(Keyword::Var)) {
        g_var_decl(t, adv(t, st))
    } else {
        g_expr_stmt(t, st)
    }
}

/// The rest of a `for` loop after its initializer.
pub open spec fn g_for_tail(t: Seq<SToken>, st: PState, init: SStmt) -> (PRes<SStmt>, PState)
    decreases t.len() - st.pos, 41int,
    when 0 <= st.pos <= t.len()
{
    let (c, st3) = g_opt_expr(t, st, TokenT::Semicolon);
    match c {
        Err(x) => (Err(x), st3),
        Ok(cond) => if st3.pos < 0 || st3.pos >= t.len() {
            (arbitrary(), st3)
        } else {
            let (s, st4) = consume(t, st3, TokenT::Semicolon, "Expect ';' after loop condition."@);
            match s {
                Err(x) => (Err(x), st4),
                Ok(_) => if sfwd(t, st, st4) {
                    let (n, st5) = g_opt_expr(t, st4, TokenT::RightParen);
                    match n {
                        Err(x) => (Err(x), st5),
                        Ok(incr) => if st5.pos < 0 || st5.pos >= t.len() {
                            (arbitrary(), st5)
                        } else {
                            let (r, st6) = consume(t, st5, TokenT::RightParen, "Expect ')' after for clauses."@);
                            match r {
                                Err(x) => (Err(x), st6),
                                Ok(_) => if sfwd(t, st, st6) {
                                    let (b, st7) = g_loop_body(t, st6);
                                    match b {
                                        Err(x) => (Err(x), st7),
                                        Ok(body) => (Ok(desugar_for(init, cond, incr, body)), st7),
                                    }
                                } else {
                                    (arbitrary(), st6)
                                },
                            }
                        },
                    }
                } else {
                    (arbitrary(), st4)
                },
            }
        },
    }
}

pub open spec fn g_break_stmt(t: Seq<SToken>, st: PState) -> (PRes<SStmt>, PState)
    decreases t.len() - st.pos, 40int,
    when 0 <= st.pos <= t.len()
{
    if st.pos >= t.len() {
        (arbitrary(), st)
    } else if st.depth == 0 {
        (Err(perr(prev(t, st), "'break' outside of loop."@)), st)
    } else {
        let (c, st1) = consume(t, st, TokenT::Semicolon, "Expect ';' after 'break'"@);
        match c {
            Err(x) => (Err(x), st1),
            Ok(_) => (Ok(SStmt::Break), st1),
        }
    }
}

pub open spec fn g_return_stmt(t: Seq<SToken>, st: PState) -> (PRes<SStmt>, PState)
    decreases t.len() - st.pos, 40int,
    when 0 <= st.pos <= t.len()
{
    let key = prev(t, st);
    let (v, st1) = g_opt_expr(t, st, TokenT::Semicolon);
    match v {
        Err(x) => (Err(x), st1),
        Ok(val) => if st1.pos < 0 || st1.pos >= t.len() {
            (arbitrary(), st1)
        } else {
            let (c, st2) = consume(t, st1, TokenT::Semicolon, "Expect ';' after return value."@);
            match c {
                Err(x) => (Err(x), st2),
                Ok(_) => (Ok(SStmt::Return { key, val }), st2),
            }
        },
    }
}

pub open spec fn g_block_stmt(t: Seq<SToken>, st: PState) -> (PRes<SStmt>, PState)
    decreases t.len() - st.pos, 52int,
    when 0 <= st.pos <= t.len()
{
    let (b, st1) = g_block(t, st);
    match b {
        Err(x) => (Err(x), st1),
        Ok(stmts) => (Ok(SStmt::Block(stmts)), st1),
    }
}

/// Declarations up to a closing brace, then the brace.
pub open spec fn g_block(t: Seq<SToken>, st: PState) -> (PRes<Seq<SStmt>>, PState)
    decreases t.len() - st.pos, 51int,
    when 0 <= st.pos <= t.len()
{
    let (b, st1) = g_block_items(t, st, Seq::empty());
    match b {
        Err(x) => (Err(x), st1),
        Ok(stmts) => if st1.pos < 0 || st1.pos >= t.len() {
            (arbitrary(), st1)
        } else {
            let (c, st2) = consume(t, st1, TokenT::RightBrace, "Expect '}' after block."@);
            match c {
                Err(x) => (Err(x), st2),
                Ok(_) => (Ok(stmts), st2),
            }
        },
    }
}

pub open spec fn g_block_items(t: Seq<SToken>, st: PState, acc: Seq<SStmt>) -> (PRes<Seq<SStmt>>, PState)
    decreases t.len() - st.pos, 50int,
    when 0 <= st.pos <= t.len()
{
    if st.pos >= t.len() {
        (arbitrary(), st)
    } else if !check(t, st, TokenT::RightBrace) {
        let (d, st1) = g_declaration(t, st);
        match d {
            Err(x) => (Err(x), st1),
            Ok(s) => if sfwd(t, st, st1) {
                g_block_items(t, st1, acc.push(s))
            } else {
                (arbitrary(), st1)
            },
        }
    } else {
        (Ok(acc), st)
    }
}

/// Parameter names, each after the first preceded by a comma. The 256th
/// and later names are reported, and parsing goes on.
pub open spec fn g_param_names(t: Seq<SToken>, st: PState, acc: Seq<SToken>) -> (PRes<Seq<SToken>>, PState)
    decreases t.len() - st.pos, 54int,
    when 0 <= st.pos <= t.len()
{
    if st.pos >= t.len() {
        (arbitrary(), st)
    } else {
        let st1 = if acc.len() >= 255 { report(st, peek(t, st), "Can't have more than 255 parameters."@) } else { st };
        let (p, st2) = consume(t, st1, TokenT::Identifier, "Expect parameter name."@);
        match p {
            Err(x) => (Err(x), st2),
            Ok(name) => if st2.pos < t.len() && check(t, st2, TokenT::Comma) {
                g_param_names(t, adv(t, st2), acc.push(name))
            } else {
                (Ok(acc.push(name)), st2)
            },
        }
    }
}

/// Parameter names come out in the order they are written: after the names
/// already in `acc`, the name at position `j` is the identifier `2 * (j -
/// acc.len())` tokens after the start, with a comma between each name and
/// the next, and the parse stops just after the last name.
pub proof fn law_param_names_in_order(t: Seq<SToken>, st: PState, acc: Seq<SToken>)
    requires
        0 <= st.pos < t.len(),
        t.last().token_t == TokenT::EOF,
    ensures
        ({
            let (r, st2) = g_param_names(t, st, acc);
            r is Ok ==> {
                let ps = r->Ok_0;
                &&& ps.len() > acc.len()
                &&& ps.subrange(0, acc.len() as int) == acc
                &&& st2.pos == st.pos + 2 * (ps.len() - acc.len()) - 1
                &&& forall|j: int| acc.len() <= j < ps.len() ==> {
                    &&& #[trigger] ps[j] == t[st.pos + 2 * (j - acc.len())]
                    &&& t[st.pos + 2 * (j - acc.len())].token_t == TokenT::Identifier
                    &&& j + 1 < ps.len() ==> t[st.pos + 2 * (j - acc.len()) + 1].token_t == TokenT::Comma
                }
            }
        }),
    decreases t.len() - st.pos,
{
    let st1 = if acc.len() >= 255 { report(st, peek(t, st), "Can't have more than 255 parameters."@) } else { st };
    let (p, st2) = consume(t, st1, TokenT::Identifier, "Expect parameter name."@);
    if p is Ok {
        let name = p->Ok_0;
        if st2.pos < t.len() && check(t, st2, TokenT::Comma) {
            let st3 = adv(t, st2);
            law_param_names_in_order(t, st3, acc.push(name));
            let (r, st4) = g_param_names(t, st3, acc.push(name));
            if r is Ok {
                let ps = r->Ok_0;
                assert(ps.subrange(0, acc.len() as int) =~= acc.push(name).subrange(0, acc.len() as int));
                assert(ps[acc.len() as int] == acc.push(name)[acc.len() as int]);
            }
        }
    }
}

pub open spec fn g_parameters(t: Seq<SToken>, st: PState, f: FunType) -> (PRes<(Seq<SToken>, Seq<SStmt>)>, PState)
    decreases t.len() - st.pos, 55int,
    when 0 <= st.pos <= t.len()
{
    if st.pos >= t.len() {
        (arbitrary(), st)
    } else {
        let (ps, st1) = if !check(t, st, TokenT::RightParen) {
            g_param_names(t, st, Seq::empty())
        } else {
            (Ok(Seq::empty()), st)
        };
        match ps {
            Err(x) => (Err(x), st1),
            Ok(params) => if st1.pos < 0 || st1.pos >= t.len() {
                (arbitrary(), st1)
            } else {
                let (rp, st2) = consume(t, st1, TokenT::RightParen, "Expect ')' after parameters."@);
                match rp {
                    Err(x) => (Err(x), st2),
                    Ok(_) => {
                        let (lb, st3) = consume(t, st2, TokenT::LeftBrace, "Expect '{' before "@ + fun_word(f) + " body."@);
                        match lb {
                            Err(x) => (Err(x), st3),
                            Ok(_) => if sfwd(t, st, st3) {
                                let (b, st4) = g_block(t, st3);
                                match b {
                                    Err(x) => (Err(x), st4),
                                    Ok(body) => (Ok((params, body)), st4),
                                }
                            } else {
                                (arbitrary(), st3)
                            },
                        }
                    },
                }
            },
        }
    }
}

} // verus!
