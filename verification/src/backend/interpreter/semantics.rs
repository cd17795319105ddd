use vstd::prelude::*;

use crate::backend::interpreter::callable::{SFun, spec_arity};
use crate::backend::interpreter::environment::{
    SScope, env_assign, env_define, env_get, undefined_error, law_get_after_assign, law_get_after_define,
    law_define_inner_only, law_define_keeps_others,
};
use crate::backend::utils::binary_op::{NumOp, SOperation, spec_eq, spec_nums, spec_plus};
use crate::backend::utils::validator::nums_error;
use crate::error::SRuntimeError;
use crate::frontend::lexer::token::{Keyword, SLit, SToken, TokenT, spec_as_number, spec_lit_to_string};
use crate::frontend::parser::expr::SExpr;
use crate::frontend::parser::stmt::SStmt;
use crate::lox::decimal;

verus! {

// The model of evaluation: a big-step semantics with fuel. Every evaluation
// of an expression and every execution of a statement spends one unit of
// fuel on what it runs inside; with no fuel left the run stops as exhausted.
// What only the host can do (arithmetic on numbers, the clock) is a request;
// the model reads the answer to the k-th request from `ans[k]` and records
// the request and its answer in the state's trace. What the program prints
// is part of the state: the lines printed so far, in order.

/// A request to the host.
#[derive(Debug)]
pub enum HostReq {
    /// An operation on the decimal texts of numbers (the second is empty for
    /// a negation or the reading of a literal); the answer is the result.
    Num(NumOp, String, String),
    /// The current time in seconds, as a number.
    Clock,
}

/// The model of a request.
pub enum SReq {
    Num(NumOp, Seq<char>, Seq<char>),
    Clock,
}

impl View for HostReq {
    type V = SReq;

    open spec fn view(&self) -> SReq {
        match *self {
            HostReq::Num(o, a, b) => SReq::Num(o, a@, b@),
            HostReq::Clock => SReq::Clock,
        }
    }
}

/// The state of a run: the scopes (innermost first), the identity the next
/// function value gets, the requests made so far with their answers, and the
/// lines printed so far.
pub struct IState {
    pub env: Seq<SScope>,
    pub next_id: u64,
    pub trace: Seq<(SReq, SLit)>,
    pub out: Seq<Seq<char>>,
}

/// How a statement ended.
pub enum SCode {
    Success,
    Return(SLit),
    Break,
}

/// Why a run stopped early.
pub enum SFault {
    Error(SRuntimeError),
    Exhausted,
}

pub type SOut<T> = Result<T, SFault>;

/// Asks the host `q`: the answer is the next one in `ans`.
pub open spec fn ask(ans: Seq<SLit>, st: IState, q: SReq) -> (SLit, IState) {
    let a = ans[st.trace.len() as int];
    (a, IState { trace: st.trace.push((q, a)), ..st })
}

pub open spec fn bump(id: u64) -> u64 {
    if id < u64::MAX { (id + 1) as u64 } else { 0 }
}

/// Only `false` and `nil` are false.
pub open spec fn truthy(v: SLit) -> bool {
    match v {
        SLit::Bool(b) => b,
        SLit::Nil => false,
        _ => true,
    }
}

/// Only `false` and `nil` count as false.
pub proof fn law_truthy(v: SLit)
    ensures
        !truthy(v) <==> (v == SLit::Nil || v == SLit::Bool(false)),
{
}

/// What a binary operator token comes to on two values.
pub open spec fn spec_binary(op: SToken, l: SLit, r: SLit) -> Result<SOperation, SRuntimeError> {
    match op.token_t {
        TokenT::Minus => spec_nums(op, l, r, NumOp::Sub),
        TokenT::Plus => spec_plus(op, l, r),
        TokenT::Slash => spec_nums(op, l, r, NumOp::Div),
        TokenT::Star => spec_nums(op, l, r, NumOp::Mul),
        TokenT::Greater => spec_nums(op, l, r, NumOp::Greater),
        TokenT::GreaterEqual => spec_nums(op, l, r, NumOp::GreaterEqual),
        TokenT::Less => spec_nums(op, l, r, NumOp::Less),
        TokenT::LessEqual => spec_nums(op, l, r, NumOp::LessEqual),
        TokenT::BangEqual => Ok(spec_eq(l, r, true)),
        TokenT::EqualEqual => Ok(spec_eq(l, r, false)),
        _ => Ok(SOperation::Value(SLit::Nil)),
    }
}

/// Carries out an operation: a value as it is, a numeric one by the host.
pub open spec fn perform(ans: Seq<SLit>, st: IState, o: SOperation) -> (SOut<SLit>, IState) {
    match o {
        SOperation::Value(v) => (Ok(v), st),
        SOperation::Host(n, a, b) => {
            let (v, st1) = ask(ans, st, SReq::Num(n, a, b));
            (Ok(v), st1)
        },
    }
}

/// The error for a call with the wrong number of arguments.
pub open spec fn arity_error(paren: SToken, arity: nat, got: nat) -> SRuntimeError {
    SRuntimeError {
        tkn: paren,
        msg: "Expected "@ + decimal(arity) + " arguments but got "@ + decimal(got),
    }
}

/// The error for a call of what is not a function.
pub open spec fn not_callable_error(paren: SToken) -> SRuntimeError {
    SRuntimeError { tkn: paren, msg: "Can only call functions and classes."@ }
}

pub open spec fn body_len(f: SFun) -> int {
    match f {
        SFun::Lox { body, .. } => body.len() as int,
        SFun::Native { .. } => 0,
    }
}

/// Binds `params[i..]` to `vals[i..]` in the innermost scope, one after the other.
pub open spec fn bind(env: Seq<SScope>, params: Seq<SToken>, vals: Seq<SLit>, i: int) -> Seq<SScope>
    decreases params.len() - i,
{
    if i < 0 || i >= params.len() {
        env
    } else {
        bind(env_define(env, params[i].lex, vals[i]), params, vals, i + 1)
    }
}

/// Binding parameters keeps the number of scopes.
pub proof fn lemma_bind_len(env: Seq<SScope>, params: Seq<SToken>, vals: Seq<SLit>, i: int)
    requires
        env.len() >= 1,
    ensures
        bind(env, params, vals, i).len() == env.len(),
    decreases params.len() - i,
{
    if 0 <= i < params.len() {
        lemma_bind_len(env_define(env, params[i].lex, vals[i]), params, vals, i + 1);
    }
}

pub open spec fn empty_scope() -> SScope {
    Seq::empty()
}

/// Evaluates `e` with `f` units of fuel.
pub open spec fn sem_eval(f: nat, ans: Seq<SLit>, st: IState, e: SExpr) -> (SOut<SLit>, IState)
    decreases f, 0int,
{
    if f == 0 {
        (Err(SFault::Exhausted), st)
    } else {
        let g = (f - 1) as nat;
        match e {
            SExpr::Literal(l) => match l {
                SLit::Num(t) => {
                    let (a, st1) = ask(ans, st, SReq::Num(NumOp::Read, t, Seq::empty()));
                    (Ok(a), st1)
                },
                _ => (Ok(l), st),
            },
            SExpr::Grouping(x) => sem_eval(g, ans, st, *x),
            SExpr::Unary { op, right } => {
                let (r, st1) = sem_eval(g, ans, st, *right);
                match r {
                    Err(x) => (Err(x), st1),
                    Ok(v) => match op.token_t {
                        TokenT::Minus => match spec_as_number(v) {
                            Some(a) => {
                                let (n, st2) = ask(ans, st1, SReq::Num(NumOp::Negate, a, Seq::empty()));
                                (Ok(n), st2)
                            },
                            None => (Err(SFault::Error(nums_error(op))), st1),
                        },
                        TokenT::Bang => (Ok(SLit::Bool(truthy(v))), st1),
                        _ => (Ok(SLit::Nil), st1),
                    },
                }
            },
            SExpr::Binary { left, op, right } => {
                let (l, st1) = sem_eval(g, ans, st, *left);
                match l {
                    Err(x) => (Err(x), st1),
                    Ok(lv) => {
                        let (r, st2) = sem_eval(g, ans, st1, *right);
                        match r {
                            Err(x) => (Err(x), st2),
                            Ok(rv) => match spec_binary(op, lv, rv) {
                                Err(x) => (Err(SFault::Error(x)), st2),
                                Ok(o) => perform(ans, st2, o),
                            },
                        }
                    },
                }
            },
            SExpr::Logical { left, op, right } => {
                let (l, st1) = sem_eval(g, ans, st, *left);
                match l {
                    Err(x) => (Err(x), st1),
                    Ok(lv) => if (op.token_t == TokenT::Keyword(Keyword::Or) && truthy(lv))
                        || (op.token_t == TokenT::Keyword(Keyword::And) && !truthy(lv)) {
                        (Ok(lv), st1)
                    } else {
                        sem_eval(g, ans, st1, *right)
                    },
                }
            },
            SExpr::Variable(name) => match env_get(st.env, name.lex) {
                Some(v) => (Ok(v), st),
                None => (Err(SFault::Error(undefined_error(name))), st),
            },
            SExpr::Assign { name, val } => {
                let (r, st1) = sem_eval(g, ans, st, *val);
                match r {
                    Err(x) => (Err(x), st1),
                    Ok(v) => match env_assign(st1.env, name.lex, v) {
                        Some(env) => (Ok(v), IState { env, ..st1 }),
                        None => (Err(SFault::Error(undefined_error(name))), st1),
                    },
                }
            },
            SExpr::AnonFun { params, body } => (
                Ok(SLit::Fun(Box::new(SFun::Lox { id: st.next_id, name: None, params, body }))),
                IState { next_id: bump(st.next_id), ..st },
            ),
            SExpr::Call { callee, paren, args } => {
                let (c, st1) = sem_eval(g, ans, st, *callee);
                match c {
                    Err(x) => (Err(x), st1),
                    Ok(cv) => {
                        let (a, st2) = sem_args(g, ans, st1, args, 0, Seq::empty());
                        match a {
                            Err(x) => (Err(x), st2),
                            Ok(vals) => match cv {
                                SLit::Fun(fb) => if spec_arity(*fb) != args.len() {
                                    (Err(SFault::Error(arity_error(paren, spec_arity(*fb), vals.len()))), st2)
                                } else {
                                    sem_call(g, ans, st2, *fb, vals)
                                },
                                _ => (Err(SFault::Error(not_callable_error(paren))), st2),
                            },
                        }
                    },
                }
            },
            SExpr::Ternary { .. } => (Ok(SLit::Nil), st),
        }
    }
}

/// Evaluates `args[i..]` in order, after the values `acc`.
pub open spec fn sem_args(f: nat, ans: Seq<SLit>, st: IState, args: Seq<SExpr>, i: int, acc: Seq<SLit>) -> (SOut<Seq<SLit>>, IState)
    decreases f, args.len() - i + 1,
{
    if i < 0 || i >= args.len() {
        (Ok(acc), st)
    } else {
        let (r, st1) = sem_eval(f, ans, st, args[i]);
        match r {
            Err(x) => (Err(x), st1),
            Ok(v) => sem_args(f, ans, st1, args, i + 1, acc.push(v)),
        }
    }
}

/// Calls a function on argument values (as many as it takes).
pub open spec fn sem_call(f: nat, ans: Seq<SLit>, st: IState, fun: SFun, vals: Seq<SLit>) -> (SOut<SLit>, IState)
    decreases f, body_len(fun) + 2,
{
    match fun {
        SFun::Native { .. } => {
            let (a, st1) = ask(ans, st, SReq::Clock);
            (Ok(a), st1)
        },
        SFun::Lox { params, body, .. } => {
            let env = bind(seq![empty_scope()] + st.env, params, vals, 0);
            let (r, st1) = sem_block(f, ans, IState { env, ..st }, body, 0);
            match r {
                Err(x) => (Err(x), st1),
                Ok(SCode::Return(v)) => (Ok(v), st1),
                Ok(_) => (Ok(SLit::Nil), st1),
            }
        },
    }
}

/// Runs `stmts[i..]` in the current (already entered) scope; on reaching the
/// end, leaves the scope. A break, a return or a fault ends the block at once.
pub open spec fn sem_block(f: nat, ans: Seq<SLit>, st: IState, stmts: Seq<SStmt>, i: int) -> (SOut<SCode>, IState)
    decreases f, stmts.len() - i + 1,
{
    if i < 0 || i >= stmts.len() {
        (Ok(SCode::Success), IState { env: st.env.drop_first(), ..st })
    } else {
        let (r, st1) = sem_exec(f, ans, st, stmts[i]);
        match r {
            Err(x) => (Err(x), st1),
            Ok(SCode::Success) => sem_block(f, ans, st1, stmts, i + 1),
            Ok(code) => (Ok(code), st1),
        }
    }
}

/// A `while` loop: each round spends one unit of fuel.
pub open spec fn sem_while(f: nat, ans: Seq<SLit>, st: IState, cond: SExpr, body: SStmt) -> (SOut<SCode>, IState)
    decreases f, 1int,
{
    if f == 0 {
        (Err(SFault::Exhausted), st)
    } else {
        let g = (f - 1) as nat;
        let (c, st1) = sem_eval(g, ans, st, cond);
        match c {
            Err(x) => (Err(x), st1),
            Ok(cv) => if truthy(cv) {
                let (r, st2) = sem_exec(g, ans, st1, body);
                match r {
                    Err(x) => (Err(x), st2),
                    Ok(SCode::Success) => sem_while(g, ans, st2, cond, body),
                    Ok(SCode::Break) => (Ok(SCode::Success), st2),
                    Ok(SCode::Return(v)) => (Ok(SCode::Return(v)), st2),
                }
            } else {
                (Ok(SCode::Success), st1)
            },
        }
    }
}

/// Executes `s` with `f` units of fuel.
pub open spec fn sem_exec(f: nat, ans: Seq<SLit>, st: IState, s: SStmt) -> (SOut<SCode>, IState)
    decreases f, 0int,
{
    if f == 0 {
        (Err(SFault::Exhausted), st)
    } else {
        let g = (f - 1) as nat;
        match s {
            SStmt::Print(e) => {
                let (r, st1) = sem_eval(g, ans, st, e);
                match r {
                    Err(x) => (Err(x), st1),
                    Ok(v) => (Ok(SCode::Success), IState { out: st1.out.push(spec_lit_to_string(v)), ..st1 }),
                }
            },
            SStmt::Expression(e) => {
                let (r, st1) = sem_eval(g, ans, st, e);
                match r {
                    Err(x) => (Err(x), st1),
                    Ok(_) => (Ok(SCode::Success), st1),
                }
            },
            SStmt::Break => (Ok(SCode::Break), st),
            SStmt::Block(stmts) => sem_block(g, ans, IState { env: seq![empty_scope()] + st.env, ..st }, stmts, 0),
            SStmt::If { cond, then_br, else_br } => {
                let (c, st1) = sem_eval(g, ans, st, cond);
                match c {
                    Err(x) => (Err(x), st1),
                    Ok(cv) => if truthy(cv) {
                        sem_exec(g, ans, st1, *then_br)
                    } else {
                        match else_br {
                            Some(e) => sem_exec(g, ans, st1, *e),
                            None => (Ok(SCode::Success), st1),
                        }
                    },
                }
            },
            SStmt::While { cond, block } => sem_while(g, ans, st, cond, *block),
            SStmt::Var { name, init } => match init {
                Some(e) => {
                    let (r, st1) = sem_eval(g, ans, st, e);
                    match r {
                        Err(x) => (Err(x), st1),
                        Ok(v) => (Ok(SCode::Success), IState { env: env_define(st1.env, name.lex, v), ..st1 }),
                    }
                },
                None => (Ok(SCode::Success), IState { env: env_define(st.env, name.lex, SLit::Nil), ..st }),
            },
            SStmt::Function { name, params, body } => {
                let fun = SFun::Lox { id: st.next_id, name: Some(name), params, body };
                (Ok(SCode::Success), IState {
                    env: env_define(st.env, name.lex, SLit::Fun(Box::new(fun))),
                    next_id: bump(st.next_id),
                    ..st
                })
            },
            SStmt::Return { key, val } => match val {
                Some(e) => {
                    let (r, st1) = sem_eval(g, ans, st, e);
                    match r {
                        Err(x) => (Err(x), st1),
                        Ok(v) => (Ok(SCode::Return(v)), st1),
                    }
                },
                None => (Ok(SCode::Return(SLit::Nil)), st),
            },
        }
    }
}

/// Runs the statements `stmts[i..]` one after the other, each with `f` units
/// of fuel: a runtime error is collected and the run goes on with the next
/// statement; exhausted fuel ends the run. Returns the errors, whether the
/// fuel ran out, and the state after.
pub open spec fn sem_program(f: nat, ans: Seq<SLit>, st: IState, stmts: Seq<SStmt>, i: int) -> (Seq<SRuntimeError>, bool, IState)
    decreases stmts.len() - i,
{
    if i < 0 || i >= stmts.len() {
        (Seq::empty(), false, st)
    } else {
        let (r, st1) = sem_exec(f, ans, st, stmts[i]);
        match r {
            Err(SFault::Exhausted) => (Seq::empty(), true, st1),
            Err(SFault::Error(e)) => {
                let (es, ex, st2) = sem_program(f, ans, st1, stmts, i + 1);
                (seq![e] + es, ex, st2)
            },
            Ok(_) => sem_program(f, ans, st1, stmts, i + 1),
        }
    }
}

/// The outcome did not come from running out of fuel.
pub open spec fn finished<T>(r: SOut<T>) -> bool {
    !(r matches Err(SFault::Exhausted))
}

/// More fuel never changes an evaluation that finished: fuel only bounds how
/// long a run may go on.
pub proof fn law_more_fuel_eval(f: nat, g: nat, ans: Seq<SLit>, st: IState, e: SExpr)
    requires
        f <= g,
        finished(sem_eval(f, ans, st, e).0),
    ensures
        sem_eval(g, ans, st, e) == sem_eval(f, ans, st, e),
    decreases f, 0int,
{
    if f > 0 {
        let f1 = (f - 1) as nat;
        let g1 = (g - 1) as nat;
        match e {
            SExpr::Grouping(x) => {
                law_more_fuel_eval(f1, g1, ans, st, *x);
            },
            SExpr::Unary { op, right } => {
                law_more_fuel_eval(f1, g1, ans, st, *right);
            },
            SExpr::Binary { left, op, right } => {
                law_more_fuel_eval(f1, g1, ans, st, *left);
                let (l, st1) = sem_eval(f1, ans, st, *left);
                if l is Ok {
                    let (r, st2) = sem_eval(f1, ans, st1, *right);
                    assert(finished(r)) by {
                        if !finished(r) {
                            assert(sem_eval(f, ans, st, e) == (r, st2));
                        }
                    }
                    law_more_fuel_eval(f1, g1, ans, st1, *right);
                }
            },
            SExpr::Logical { left, op, right } => {
                law_more_fuel_eval(f1, g1, ans, st, *left);
                let (l, st1) = sem_eval(f1, ans, st, *left);
                if l is Ok {
                    let lv = l->Ok_0;
                    if !((op.token_t == TokenT::Keyword(Keyword::Or) && truthy(lv))
                        || (op.token_t == TokenT::Keyword(Keyword::And) && !truthy(lv))) {
                        law_more_fuel_eval(f1, g1, ans, st1, *right);
                    }
                }
            },
            SExpr::Assign { name, val } => {
                law_more_fuel_eval(f1, g1, ans, st, *val);
            },
            SExpr::Call { callee, paren, args } => {
                law_more_fuel_eval(f1, g1, ans, st, *callee);
                let (c, st1) = sem_eval(f1, ans, st, *callee);
                if c is Ok {
                    lemma_more_fuel_args(f1, g1, ans, st1, args, 0, Seq::empty());
                    let (a, st2) = sem_args(f1, ans, st1, args, 0, Seq::empty());
                    if a is Ok {
                        match c->Ok_0 {
                            SLit::Fun(fb) => {
                                if spec_arity(*fb) == args.len() {
                                    lemma_more_fuel_call(f1, g1, ans, st2, *fb, a->Ok_0);
                                }
                            },
                            _ => {},
                        }
                    }
                }
            },
            _ => {},
        }
    }
}

proof fn lemma_more_fuel_args(f: nat, g: nat, ans: Seq<SLit>, st: IState, args: Seq<SExpr>, i: int, acc: Seq<SLit>)
    requires
        f <= g,
        finished(sem_args(f, ans, st, args, i, acc).0),
    ensures
        sem_args(g, ans, st, args, i, acc) == sem_args(f, ans, st, args, i, acc),
    decreases f, args.len() - i + 1,
{
    if 0 <= i < args.len() {
        law_more_fuel_eval(f, g, ans, st, args[i]);
        let (r, st1) = sem_eval(f, ans, st, args[i]);
        if r is Ok {
            lemma_more_fuel_args(f, g, ans, st1, args, i + 1, acc.push(r->Ok_0));
        }
    }
}

proof fn lemma_more_fuel_call(f: nat, g: nat, ans: Seq<SLit>, st: IState, fun: SFun, vals: Seq<SLit>)
    requires
        f <= g,
        finished(sem_call(f, ans, st, fun, vals).0),
    ensures
        sem_call(g, ans, st, fun, vals) == sem_call(f, ans, st, fun, vals),
    decreases f, body_len(fun) + 2,
{
    match fun {
        SFun::Lox { params, body, .. } => {
            let env = bind(seq![empty_scope()] + st.env, params, vals, 0);
            lemma_more_fuel_block(f, g, ans, IState { env, ..st }, body, 0);
        },
        SFun::Native { .. } => {},
    }
}

proof fn lemma_more_fuel_block(f: nat, g: nat, ans: Seq<SLit>, st: IState, stmts: Seq<SStmt>, i: int)
    requires
        f <= g,
        finished(sem_block(f, ans, st, stmts, i).0),
    ensures
        sem_block(g, ans, st, stmts, i) == sem_block(f, ans, st, stmts, i),
    decreases f, stmts.len() - i + 1,
{
    if 0 <= i < stmts.len() {
        law_more_fuel_exec(f, g, ans, st, stmts[i]);
        let (r, st1) = sem_exec(f, ans, st, stmts[i]);
        if r == Ok::<SCode, SFault>(SCode::Success) {
            lemma_more_fuel_block(f, g, ans, st1, stmts, i + 1);
        }
    }
}

proof fn lemma_more_fuel_while(f: nat, g: nat, ans: Seq<SLit>, st: IState, cond: SExpr, body: SStmt)
    requires
        f <= g,
        finished(sem_while(f, ans, st, cond, body).0),
    ensures
        sem_while(g, ans, st, cond, body) == sem_while(f, ans, st, cond, body),
    decreases f, 1int,
{
    if f > 0 {
        let f1 = (f - 1) as nat;
        let g1 = (g - 1) as nat;
        law_more_fuel_eval(f1, g1, ans, st, cond);
        let (c, st1) = sem_eval(f1, ans, st, cond);
        if c is Ok && truthy(c->Ok_0) {
            law_more_fuel_exec(f1, g1, ans, st1, body);
            let (r, st2) = sem_exec(f1, ans, st1, body);
            if r == Ok::<SCode, SFault>(SCode::Success) {
                lemma_more_fuel_while(f1, g1, ans, st2, cond, body);
            }
        }
    }
}

/// More fuel never changes the execution of a statement that finished.
pub proof fn law_more_fuel_exec(f: nat, g: nat, ans: Seq<SLit>, st: IState, s: SStmt)
    requires
        f <= g,
        finished(sem_exec(f, ans, st, s).0),
    ensures
        sem_exec(g, ans, st, s) == sem_exec(f, ans, st, s),
    decreases f, 0int,
{
    if f > 0 {
        let f1 = (f - 1) as nat;
        let g1 = (g - 1) as nat;
        match s {
            SStmt::Print(e) => {
                law_more_fuel_eval(f1, g1, ans, st, e);
            },
            SStmt::Expression(e) => {
                law_more_fuel_eval(f1, g1, ans, st, e);
            },
            SStmt::Block(stmts) => {
                lemma_more_fuel_block(f1, g1, ans, IState { env: seq![empty_scope()] + st.env, ..st }, stmts, 0);
            },
            SStmt::If { cond, then_br, else_br } => {
                law_more_fuel_eval(f1, g1, ans, st, cond);
                let (c, st1) = sem_eval(f1, ans, st, cond);
                if c is Ok {
                    if truthy(c->Ok_0) {
                        law_more_fuel_exec(f1, g1, ans, st1, *then_br);
                    } else {
                        match else_br {
                            Some(b) => {
                                law_more_fuel_exec(f1, g1, ans, st1, *b);
                            },
                            None => {},
                        }
                    }
                }
            },
            SStmt::While { cond, block } => {
                lemma_more_fuel_while(f1, g1, ans, st, cond, *block);
            },
            SStmt::Var { name, init } => {
                match init {
                    Some(e) => {
                        law_more_fuel_eval(f1, g1, ans, st, e);
                    },
                    None => {},
                }
            },
            SStmt::Return { key, val } => {
                match val {
                    Some(e) => {
                        law_more_fuel_eval(f1, g1, ans, st, e);
                    },
                    None => {},
                }
            },
            _ => {},
        }
    }
}

/// A run of statements that did not run out of fuel gives the same errors
/// and the same final state with any larger amount of fuel.
pub proof fn law_more_fuel_program(f: nat, g: nat, ans: Seq<SLit>, st: IState, stmts: Seq<SStmt>, i: int)
    requires
        f <= g,
        !sem_program(f, ans, st, stmts, i).1,
    ensures
        sem_program(g, ans, st, stmts, i) == sem_program(f, ans, st, stmts, i),
    decreases stmts.len() - i,
{
    if 0 <= i < stmts.len() {
        law_more_fuel_exec(f, g, ans, st, stmts[i]);
        let (r, st1) = sem_exec(f, ans, st, stmts[i]);
        if finished(r) {
            law_more_fuel_program(f, g, ans, st1, stmts, i + 1);
        }
    }
}

/// Whether no two of `params` share a name.
pub open spec fn distinct_names(params: Seq<SToken>) -> bool {
    forall|a: int, b: int| 0 <= a < params.len() && 0 <= b < params.len() && a != b ==> params[a].lex != params[b].lex
}

/// Binding parameters to values by position: after the binding, each
/// parameter from `i` on reads back as the value at its own position, and
/// every other name reads as it did before.
pub proof fn law_bind_by_position(env: Seq<SScope>, params: Seq<SToken>, vals: Seq<SLit>, i: int)
    requires
        env.len() >= 1,
        0 <= i <= params.len(),
        params.len() == vals.len(),
        distinct_names(params),
    ensures
        forall|j: int| i <= j < params.len() ==>
            #[trigger] env_get(bind(env, params, vals, i), params[j].lex) == Some(vals[j]),
        forall|k: Seq<char>| (forall|j: int| i <= j < params.len() ==> params[j].lex != k) ==>
            #[trigger] env_get(bind(env, params, vals, i), k) == env_get(env, k),
    decreases params.len() - i,
{
    if i < params.len() {
        let env1 = env_define(env, params[i].lex, vals[i]);
        law_define_inner_only(env, params[i].lex, vals[i]);
        law_bind_by_position(env1, params, vals, i + 1);
        law_get_after_define(env, params[i].lex, vals[i]);
        assert(bind(env, params, vals, i) == bind(env1, params, vals, i + 1));
        assert forall|k: Seq<char>| (forall|j: int| i <= j < params.len() ==> params[j].lex != k) implies
            #[trigger] env_get(bind(env, params, vals, i), k) == env_get(env, k) by {
            assert(params[i].lex != k);
            law_define_keeps_others(env, params[i].lex, vals[i], k);
        }
        assert forall|j: int| i <= j < params.len() implies
            #[trigger] env_get(bind(env, params, vals, i), params[j].lex) == Some(vals[j]) by {
            if j == i {
                assert forall|m: int| i + 1 <= m < params.len() implies params[m].lex != params[i].lex by {}
            }
        }
    }
}

/// A call binds the arguments to the parameters by position: calling a
/// function whose body returns its `j`-th parameter gives the `j`-th
/// argument.
pub proof fn law_call_binds_by_position(f: nat, ans: Seq<SLit>, st: IState, id: u64, name: Option<SToken>,
    params: Seq<SToken>, key: SToken, vals: Seq<SLit>, j: int)
    requires
        f >= 2,
        0 <= j < params.len(),
        params.len() == vals.len(),
        distinct_names(params),
    ensures
        sem_call(f, ans, st, SFun::Lox {
            id,
            name,
            params,
            body: seq![SStmt::Return { key, val: Some(SExpr::Variable(params[j])) }],
        }, vals).0 == Ok::<SLit, SFault>(vals[j]),
{
    let env = bind(seq![empty_scope()] + st.env, params, vals, 0);
    law_bind_by_position(seq![empty_scope()] + st.env, params, vals, 0);
    assert(env_get(env, params[j].lex) == Some(vals[j]));
}

/// A call of a function whose body ends without a `return` gives nil.
pub proof fn law_call_without_return_gives_nil(f: nat, ans: Seq<SLit>, st: IState, id: u64, name: Option<SToken>,
    params: Seq<SToken>, vals: Seq<SLit>)
    ensures
        sem_call(f, ans, st, SFun::Lox { id, name, params, body: Seq::empty() }, vals).0 == Ok::<SLit, SFault>(SLit::Nil),
{
}

/// How a `while` loop goes on and ends: when the condition is false the body
/// does not run and the loop ends normally; when the body ends normally the
/// loop starts again from the state the body left, with one unit of fuel
/// less; a `return` in the body ends the loop with that same return, so that
/// it leaves the enclosing function; a `break` ends only the loop; a failure
/// of the condition or of the body ends the loop with that failure.
pub proof fn law_while_exits(f: nat, ans: Seq<SLit>, st: IState, cond: SExpr, body: SStmt)
    requires
        f > 0,
    ensures
        ({
            let g = (f - 1) as nat;
            let (c, st1) = sem_eval(g, ans, st, cond);
            let (r, st2) = sem_exec(g, ans, st1, body);
            &&& (c is Ok && !truthy(c->Ok_0)) ==>
                sem_while(f, ans, st, cond, body) == (Ok::<SCode, SFault>(SCode::Success), st1)
            &&& (c is Ok && truthy(c->Ok_0) && r is Ok && r->Ok_0 is Return) ==>
                sem_while(f, ans, st, cond, body) == (Ok::<SCode, SFault>(SCode::Return(r->Ok_0->Return_0)), st2)
            &&& (c is Ok && truthy(c->Ok_0) && r == Ok::<SCode, SFault>(SCode::Break)) ==>
                sem_while(f, ans, st, cond, body) == (Ok::<SCode, SFault>(SCode::Success), st2)
            &&& (c is Ok && truthy(c->Ok_0) && r == Ok::<SCode, SFault>(SCode::Success)) ==>
                sem_while(f, ans, st, cond, body) == sem_while(g, ans, st2, cond, body)
            &&& c is Err ==> sem_while(f, ans, st, cond, body) == (Err::<SCode, SFault>(c->Err_0), st1)
            &&& (c is Ok && truthy(c->Ok_0) && r is Err) ==>
                sem_while(f, ans, st, cond, body) == (Err::<SCode, SFault>(r->Err_0), st2)
        }),
{
}

/// What asking the host `q` gives: its next answer, with the request and
/// the answer recorded.
pub open spec fn host_gives(ans: Seq<SLit>, st: IState, q: SReq) -> (SOut<SLit>, IState) {
    (Ok(ans[st.trace.len() as int]), IState { trace: st.trace.push((q, ans[st.trace.len() as int])), ..st })
}

/// A binary operator on two numbers asks the host for the operation it
/// names, on the left operand and then the right one: `-` subtracts, `+`
/// adds, `/` divides, `*` multiplies, `>`, `>=`, `<` and `<=` compare, and
/// `==` and `!=` test for equality; the result is the host's answer.
pub proof fn law_binary_on_numbers(f: nat, ans: Seq<SLit>, st: IState, left: SExpr, op: SToken, right: SExpr,
    a: Seq<char>, b: Seq<char>)
    requires
        f > 0,
        sem_eval((f - 1) as nat, ans, st, left).0 == Ok::<SLit, SFault>(SLit::Num(a)),
        sem_eval((f - 1) as nat, ans, sem_eval((f - 1) as nat, ans, st, left).1, right).0
            == Ok::<SLit, SFault>(SLit::Num(b)),
    ensures
        ({
            let g = (f - 1) as nat;
            let st2 = sem_eval(g, ans, sem_eval(g, ans, st, left).1, right).1;
            let r = sem_eval(f, ans, st, SExpr::Binary { left: Box::new(left), op, right: Box::new(right) });
            &&& op.token_t == TokenT::Minus ==> r == host_gives(ans, st2, SReq::Num(NumOp::Sub, a, b))
            &&& op.token_t == TokenT::Plus ==> r == host_gives(ans, st2, SReq::Num(NumOp::Add, a, b))
            &&& op.token_t == TokenT::Slash ==> r == host_gives(ans, st2, SReq::Num(NumOp::Div, a, b))
            &&& op.token_t == TokenT::Star ==> r == host_gives(ans, st2, SReq::Num(NumOp::Mul, a, b))
            &&& op.token_t == TokenT::Greater ==> r == host_gives(ans, st2, SReq::Num(NumOp::Greater, a, b))
            &&& op.token_t == TokenT::GreaterEqual ==> r == host_gives(ans, st2, SReq::Num(NumOp::GreaterEqual, a, b))
            &&& op.token_t == TokenT::Less ==> r == host_gives(ans, st2, SReq::Num(NumOp::Less, a, b))
            &&& op.token_t == TokenT::LessEqual ==> r == host_gives(ans, st2, SReq::Num(NumOp::LessEqual, a, b))
            &&& op.token_t == TokenT::EqualEqual ==> r == host_gives(ans, st2, SReq::Num(NumOp::Equal, a, b))
            &&& op.token_t == TokenT::BangEqual ==> r == host_gives(ans, st2, SReq::Num(NumOp::NotEqual, a, b))
        }),
{
}

/// A variable declared with a value reads back as that value.
pub proof fn law_declared_reads_back(f: nat, g: nat, ans: Seq<SLit>, st: IState, name: SToken, init: SExpr, read: SToken)
    requires
        f > 0,
        g > 0,
        read.lex == name.lex,
        sem_eval((f - 1) as nat, ans, st, init).0 is Ok,
        sem_eval((f - 1) as nat, ans, st, init).1.env.len() >= 1,
    ensures
        ({
            let (v, st1) = sem_eval((f - 1) as nat, ans, st, init);
            let (r, st2) = sem_exec(f, ans, st, SStmt::Var { name, init: Some(init) });
            &&& r == Ok::<SCode, SFault>(SCode::Success)
            &&& sem_eval(g, ans, st2, SExpr::Variable(read)) == (v, st2)
        }),
{
    let (v, st1) = sem_eval((f - 1) as nat, ans, st, init);
    law_get_after_define(st1.env, name.lex, v->Ok_0);
}

/// A successful assignment reads back as the value assigned.
pub proof fn law_assigned_reads_back(f: nat, g: nat, ans: Seq<SLit>, st: IState, name: SToken, val: SExpr, read: SToken)
    requires
        f > 0,
        g > 0,
        read.lex == name.lex,
        sem_eval(f, ans, st, SExpr::Assign { name, val: Box::new(val) }).0 is Ok,
    ensures
        ({
            let (v, st1) = sem_eval(f, ans, st, SExpr::Assign { name, val: Box::new(val) });
            sem_eval(g, ans, st1, SExpr::Variable(read)) == (v, st1)
        }),
{
    let (v, st1) = sem_eval((f - 1) as nat, ans, st, val);
    law_get_after_assign(st1.env, name.lex, v->Ok_0);
}

} // verus!
