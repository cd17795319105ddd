pub mod callable;
pub mod environment;
pub mod record;
pub mod semantics;

use vstd::prelude::*;

use crate::backend::interpreter::callable::{Callable, LoxFn, SFun, spec_arity};
use crate::backend::interpreter::environment::{Environment, SScope, env_define, lemma_assign_len};
use crate::backend::interpreter::semantics::{
    HostReq, IState, SCode, SFault, SOut, SReq, ask, bind, empty_scope, sem_args, sem_block,
    sem_call, sem_eval, sem_exec, sem_program, sem_while, spec_binary, truthy, arity_error,
};
use crate::backend::interpreter::record::{answers, extends, grows, trace_view, lemma_grows_refl};
use crate::backend::utils::binary_op::{self, NumOp, Operation, op_res};
use crate::backend::utils::validator;
use crate::error::{RuntimeError, SRuntimeError};
use crate::frontend::lexer::token::{Keyword, LitVal, SLit, Token, TokenT, string_of, copy_tokens, toks_view, spec_lit_to_string};
use crate::frontend::parser::expr::{Expr, SExpr, exprs_view, expr_view, strs_view};
use crate::frontend::parser::opt_expr_view;
use crate::frontend::parser::stmt::{SStmt, Stmt, stmts_view, stmt_view, copy_stmts};
use crate::lox::{Lox, push_decimal, runtime_report};

verus! {

broadcast use crate::backend::interpreter::record::lemma_extends_trans, crate::backend::interpreter::record::lemma_grows_trans;

/// How a statement ended.
#[derive(Debug)]
pub enum ExecCode {
    Success,
    Return(LitVal),
    Break,
}

/// Why a run stopped early: a runtime error, or no fuel left.
#[derive(Debug)]
pub enum Fault {
    Error(RuntimeError),
    Exhausted,
}

pub open spec fn fault_view(x: Fault) -> SFault {
    match x {
        Fault::Error(e) => SFault::Error(e@),
        Fault::Exhausted => SFault::Exhausted,
    }
}

pub open spec fn out_lit(r: Result<LitVal, Fault>) -> SOut<SLit> {
    match r {
        Ok(v) => Ok(v@),
        Err(x) => Err(fault_view(x)),
    }
}

pub open spec fn code_view(c: ExecCode) -> SCode {
    match c {
        ExecCode::Success => SCode::Success,
        ExecCode::Return(v) => SCode::Return(v@),
        ExecCode::Break => SCode::Break,
    }
}

pub open spec fn out_code(r: Result<ExecCode, Fault>) -> SOut<SCode> {
    match r {
        Ok(c) => Ok(code_view(c)),
        Err(x) => Err(fault_view(x)),
    }
}

pub open spec fn lits_view(v: Seq<LitVal>) -> Seq<SLit> {
    Seq::new(v.len(), |i: int| v[i]@)
}

pub open spec fn out_lits(r: Result<Vec<LitVal>, Fault>) -> SOut<Seq<SLit>> {
    match r {
        Ok(v) => Ok(lits_view(v@)),
        Err(x) => Err(fault_view(x)),
    }
}

/// `s1` comes after `s0` in a run: the record of requests only grew, by
/// answers that the host can give, and no scope was left that was there.
pub open spec fn follows<F: Fn(HostReq) -> LitVal>(host: &F, s0: Interpreter, s1: Interpreter) -> bool {
    &&& grows(host, s0.log(), s1.log())
    &&& s1.ist().env.len() >= s0.ist().env.len()
    &&& s1.program() == s0.program()
}

pub open spec fn opt_stmt_view(o: Option<Box<Stmt>>) -> Option<Box<SStmt>> {
    match o {
        Some(b) => Some(Box::new(stmt_view(*b))),
        None => None,
    }
}

/// The state `st` with the scopes `env`.
pub open spec fn with_env(st: IState, env: Seq<SScope>) -> IState {
    IState { env, ..st }
}

/// The reports of runtime errors, in order.
pub open spec fn reports(errs: Seq<SRuntimeError>) -> Seq<Seq<char>> {
    errs.map_values(|e: SRuntimeError| runtime_report(e))
}

/// `p` with the errors `errs` in front of its own.
pub open spec fn after_errors(errs: Seq<SRuntimeError>, p: (Seq<SRuntimeError>, bool, IState)) -> (Seq<SRuntimeError>, bool, IState) {
    (errs + p.0, p.1, p.2)
}

/// Runs a syntax tree. Numbers and the clock are the host's: each method that
/// may need them takes the host as a function from a request to its answer.
/// What the program prints is kept, in order, until it is taken out.
pub struct Interpreter {
    stmts: Vec<Stmt>,
    env: Environment,
    next_id: u64,
    trace: Ghost<Seq<(HostReq, LitVal)>>,
    out: Vec<String>,
}

impl Interpreter {
    /// The state of the run, in the terms of the model.
    pub closed spec fn ist(&self) -> IState {
        IState { env: self.env@, next_id: self.next_id, trace: trace_view(self.trace@), out: strs_view(self.out@) }
    }

    /// The requests made so far, with the answers the host gave.
    pub closed spec fn log(&self) -> Seq<(HostReq, LitVal)> {
        self.trace@
    }

    /// The statements `interpret` runs.
    pub closed spec fn program(&self) -> Seq<SStmt> {
        stmts_view(self.stmts)
    }

    /// Takes out the lines printed so far, in order.
    pub fn take_output(&mut self) -> (r: Vec<String>)
        ensures
            strs_view(r@) == old(self).ist().out,
            final(self).ist() == (IState { out: Seq::empty(), ..old(self).ist() }),
            final(self).log() == old(self).log(),
            final(self).program() == old(self).program(),
    {
        let mut r: Vec<String> = Vec::new();
        std::mem::swap(&mut r, &mut self.out);
        assert(strs_view(self.out@) =~= Seq::<Seq<char>>::empty());
        r
    }

    /// An interpreter with no statements, an empty global scope, and no requests made.
    pub fn empty() -> (r: Interpreter)
        ensures
            r.ist() == (IState { env: seq![empty_scope()], next_id: 1, trace: Seq::empty(), out: Seq::empty() }),
            r.log() == Seq::<(HostReq, LitVal)>::empty(),
            r.program() == Seq::<SStmt>::empty(),
    {
        let r = Interpreter {
            stmts: Vec::new(),
            env: Environment::global(),
            next_id: 1,
            trace: Ghost(Seq::empty()),
            out: Vec::new(),
        };
        assert(trace_view(r.trace@) =~= Seq::<(SReq, SLit)>::empty());
        assert(strs_view(r.out@) =~= Seq::<Seq<char>>::empty());
        assert(stmts_view(r.stmts) =~= Seq::<SStmt>::empty());
        r
    }

    /// An interpreter for `stmts`, whose global scope binds `clock` to the
    /// host's clock (a function of no arguments).
    pub fn new(stmts: Vec<Stmt>) -> (r: Interpreter)
        ensures
            r.ist() == (IState {
                env: seq![seq![("clock"@, SLit::Fun(Box::new(SFun::Native { id: 0, arity: 0 })))]],
                next_id: 1,
                trace: Seq::empty(),
                out: Seq::empty(),
            }),
            r.log() == Seq::<(HostReq, LitVal)>::empty(),
            r.program() == stmts_view(stmts),
    {
        let mut global = Environment::global();
        let clock = crate::backend::native_fn::clock();
        global.define(&string_of("clock"), clock);
        let r = Interpreter { stmts, env: global, next_id: 1, trace: Ghost(Seq::empty()), out: Vec::new() };
        assert(trace_view(r.trace@) =~= Seq::<(SReq, SLit)>::empty());
        assert(strs_view(r.out@) =~= Seq::<Seq<char>>::empty());
        assert(r.env@ =~= seq![seq![("clock"@, SLit::Fun(Box::new(SFun::Native { id: 0, arity: 0 })))]]);
        r
    }

    fn ask<F: Fn(HostReq) -> LitVal>(&mut self, host: &F, q: HostReq) -> (r: LitVal)
        requires
            forall|x: HostReq| #[trigger] host.requires((x,)),
        ensures
            final(self).env == old(self).env,
            final(self).next_id == old(self).next_id,
            final(self).stmts == old(self).stmts,
            final(self).out == old(self).out,
            final(self).log() == old(self).log().push((q, r)),
            grows(host, old(self).log(), final(self).log()),
            forall|ans: Seq<SLit>| extends(answers(final(self).log()), ans) ==>
                #[trigger] ask(ans, old(self).ist(), q@) == (r@, final(self).ist()),
    {
        let ghost q0 = q;
        let r = host(q);
        let ghost t0 = self.trace@;
        self.trace = Ghost(self.trace@.push((q0, r)));
        proof {
            assert(self.trace@.subrange(0, t0.len() as int) =~= t0);
            assert(answers(self.trace@).subrange(0, t0.len() as int) =~= answers(t0));
            assert(trace_view(self.trace@) =~= trace_view(t0).push((q0@, r@)));
            assert forall|ans: Seq<SLit>| extends(answers(self.trace@), ans) implies
                #[trigger] ask(ans, old(self).ist(), q0@) == (r@, self.ist()) by {
                assert(ans[t0.len() as int] == ans.subrange(0, answers(self.trace@).len() as int)[t0.len() as int]);
            }
        }
        r
    }

    /// Whether `val` counts as true: all values but `false` and `nil` do.
    pub fn is_truthy(&self, val: &LitVal) -> (r: bool)
        ensures
            r == truthy(val@),
    {
        match val {
            LitVal::Boolean(b) => *b,
            LitVal::Nil => false,
            _ => true,
        }
    }

    /// Evaluates `e`. Each level of nesting spends one unit of `fuel`; with
    /// none left the evaluation stops as exhausted.
    pub fn eval<F: Fn(HostReq) -> LitVal>(&mut self, host: &F, fuel: u64, e: &Expr) -> (r: Result<LitVal, Fault>)
        requires
            forall|x: HostReq| #[trigger] host.requires((x,)),
        ensures
            follows(host, *old(self), *final(self)),
            forall|ans: Seq<SLit>| extends(answers(final(self).log()), ans) ==>
                #[trigger] sem_eval(fuel as nat, ans, old(self).ist(), e@) == (out_lit(r), final(self).ist()),
        decreases fuel, 1int,
    {
        if fuel == 0 {
            proof { lemma_grows_refl(host, self.log()); }
            return Err(Fault::Exhausted);
        }
        match e {
            Expr::Literal(lit) => {
                let ghost s0 = *self;
                let r = self.eval_lit(host, fuel, lit);
                proof {
                    assert(e@ == SExpr::Literal(lit@));
                    assert forall|ans: Seq<SLit>| extends(answers(self.log()), ans) implies
                        #[trigger] sem_eval(fuel as nat, ans, s0.ist(), e@) == (out_lit(r), self.ist()) by {
                        assert(sem_eval(fuel as nat, ans, s0.ist(), SExpr::Literal(lit@)) == (out_lit(r), self.ist()));
                    }
                }
                r
            },
            Expr::Grouping(inner) => {
                let ghost s0 = *self;
                let r = self.eval_group(host, fuel, &**inner);
                proof {
                    assert(e@ == SExpr::Grouping(Box::new(inner@)));
                    assert forall|ans: Seq<SLit>| extends(answers(self.log()), ans) implies
                        #[trigger] sem_eval(fuel as nat, ans, s0.ist(), e@) == (out_lit(r), self.ist()) by {
                        assert(sem_eval(fuel as nat, ans, s0.ist(), SExpr::Grouping(Box::new(inner@))) == (out_lit(r), self.ist()));
                    }
                }
                r
            },
            Expr::Unary { op, right } => {
                let ghost s0 = *self;
                let r = self.eval_unary(host, fuel, op, &**right);
                proof {
                    assert(e@ == SExpr::Unary { op: op@, right: Box::new(right@) });
                    assert forall|ans: Seq<SLit>| extends(answers(self.log()), ans) implies
                        #[trigger] sem_eval(fuel as nat, ans, s0.ist(), e@) == (out_lit(r), self.ist()) by {
                        assert(sem_eval(fuel as nat, ans, s0.ist(), SExpr::Unary { op: op@, right: Box::new(right@) }) == (out_lit(r), self.ist()));
                    }
                }
                r
            },
            Expr::Binary { left, op, right } => {
                let ghost s0 = *self;
                let r = self.eval_bin(host, fuel, &**left, op, &**right);
                proof {
                    assert(e@ == SExpr::Binary { left: Box::new(left@), op: op@, right: Box::new(right@) });
                    assert forall|ans: Seq<SLit>| extends(answers(self.log()), ans) implies
                        #[trigger] sem_eval(fuel as nat, ans, s0.ist(), e@) == (out_lit(r), self.ist()) by {
                        assert(sem_eval(fuel as nat, ans, s0.ist(), SExpr::Binary { left: Box::new(left@), op: op@, right: Box::new(right@) }) == (out_lit(r), self.ist()));
                    }
                }
                r
            },
            Expr::Logical { left, op, right } => {
                let ghost s0 = *self;
                let r = self.eval_logic(host, fuel, &**left, op, &**right);
                proof {
                    assert(e@ == SExpr::Logical { left: Box::new(left@), op: op@, right: Box::new(right@) });
                    assert forall|ans: Seq<SLit>| extends(answers(self.log()), ans) implies
                        #[trigger] sem_eval(fuel as nat, ans, s0.ist(), e@) == (out_lit(r), self.ist()) by {
                        assert(sem_eval(fuel as nat, ans, s0.ist(), SExpr::Logical { left: Box::new(left@), op: op@, right: Box::new(right@) }) == (out_lit(r), self.ist()));
                    }
                }
                r
            },
            Expr::Variable(name) => {
                let ghost s0 = *self;
                let r = self.eval_var(host, fuel, name);
                proof {
                    assert(e@ == SExpr::Variable(name@));
                    assert forall|ans: Seq<SLit>| extends(answers(self.log()), ans) implies
                        #[trigger] sem_eval(fuel as nat, ans, s0.ist(), e@) == (out_lit(r), self.ist()) by {
                        assert(sem_eval(fuel as nat, ans, s0.ist(), SExpr::Variable(name@)) == (out_lit(r), self.ist()));
                    }
                }
                r
            },
            Expr::Assign { name, val } => {
                let ghost s0 = *self;
                let r = self.eval_assign(host, fuel, name, &**val);
                proof {
                    assert(e@ == SExpr::Assign { name: name@, val: Box::new(val@) });
                    assert forall|ans: Seq<SLit>| extends(answers(self.log()), ans) implies
                        #[trigger] sem_eval(fuel as nat, ans, s0.ist(), e@) == (out_lit(r), self.ist()) by {
                        assert(sem_eval(fuel as nat, ans, s0.ist(), SExpr::Assign { name: name@, val: Box::new(val@) }) == (out_lit(r), self.ist()));
                    }
                }
                r
            },
            Expr::AnonFun { params, body } => {
                let ghost s0 = *self;
                let r = self.eval_anon_fun(host, fuel, params, body);
                proof {
                    assert(e@ == SExpr::AnonFun { params: toks_view(*params), body: stmts_view(*body) });
                    assert forall|ans: Seq<SLit>| extends(answers(self.log()), ans) implies
                        #[trigger] sem_eval(fuel as nat, ans, s0.ist(), e@) == (out_lit(r), self.ist()) by {
                        assert(sem_eval(fuel as nat, ans, s0.ist(), SExpr::AnonFun { params: toks_view(*params), body: stmts_view(*body) }) == (out_lit(r), self.ist()));
                    }
                }
                r
            },
            Expr::Call { callee, paren, args } => {
                let ghost s0 = *self;
                let r = self.eval_call(host, fuel, &**callee, paren, args);
                proof {
                    assert(e@ == SExpr::Call { callee: Box::new(callee@), paren: paren@, args: exprs_view(*args) });
                    assert forall|ans: Seq<SLit>| extends(answers(self.log()), ans) implies
                        #[trigger] sem_eval(fuel as nat, ans, s0.ist(), e@) == (out_lit(r), self.ist()) by {
                        assert(sem_eval(fuel as nat, ans, s0.ist(), SExpr::Call { callee: Box::new(callee@), paren: paren@, args: exprs_view(*args) }) == (out_lit(r), self.ist()));
                    }
                }
                r
            },
            Expr::Ternary { .. } => {
                proof { lemma_grows_refl(host, self.log()); }
                Ok(LitVal::Nil)
            },
        }
    }

    fn eval_lit<F: Fn(HostReq) -> LitVal>(&mut self, host: &F, fuel: u64, lit: &LitVal) -> (r: Result<LitVal, Fault>)
        requires
            fuel > 0,
            forall|x: HostReq| #[trigger] host.requires((x,)),
        ensures
            follows(host, *old(self), *final(self)),
            forall|ans: Seq<SLit>| extends(answers(final(self).log()), ans) ==>
                #[trigger] sem_eval(fuel as nat, ans, old(self).ist(), SExpr::Literal(lit@)) == (out_lit(r), final(self).ist()),
        decreases fuel, 0int,
    {
        match lit {
            LitVal::Number(t) => {
                let ghost s0 = *self;
                let q = HostReq::Num(NumOp::Read, t.clone(), String::new());
                let ghost qv = q@;
                let a = self.ask(host, q);
                proof {
                    assert(qv == SReq::Num(NumOp::Read, t@, Seq::empty()));
                    assert forall|ans: Seq<SLit>| extends(answers(self.log()), ans) implies
                        #[trigger] sem_eval(fuel as nat, ans, s0.ist(), SExpr::Literal(lit@)) == (out_lit(Ok::<LitVal, Fault>(a)), self.ist()) by {
                        assert(ask(ans, s0.ist(), qv) == (a@, self.ist()));
                    }
                }
                Ok(a)
            },
            _ => {
                proof { lemma_grows_refl(host, self.log()); }
                Ok(lit.copy())
            },
        }
    }

    fn eval_group<F: Fn(HostReq) -> LitVal>(&mut self, host: &F, fuel: u64, inner: &Expr) -> (r: Result<LitVal, Fault>)
        requires
            fuel > 0,
            forall|x: HostReq| #[trigger] host.requires((x,)),
        ensures
            follows(host, *old(self), *final(self)),
            forall|ans: Seq<SLit>| extends(answers(final(self).log()), ans) ==>
                #[trigger] sem_eval(fuel as nat, ans, old(self).ist(), SExpr::Grouping(Box::new(inner@)))
                    == (out_lit(r), final(self).ist()),
        decreases fuel, 0int,
    {
        let ghost s0 = *self;
        let r = self.eval(host, fuel - 1, inner);
        proof {
            assert forall|ans: Seq<SLit>| extends(answers(self.log()), ans) implies
                #[trigger] sem_eval(fuel as nat, ans, s0.ist(), SExpr::Grouping(Box::new(inner@)))
                    == (out_lit(r), self.ist()) by {
                assert(sem_eval((fuel - 1) as nat, ans, s0.ist(), inner@) == (out_lit(r), self.ist()));
                assert(((fuel as nat) - 1) as nat == (fuel - 1) as nat);
            }
        }
        r
    }

    fn eval_var<F: Fn(HostReq) -> LitVal>(&mut self, host: &F, fuel: u64, name: &Token) -> (r: Result<LitVal, Fault>)
        requires
            fuel > 0,
        ensures
            follows(host, *old(self), *final(self)),
            forall|ans: Seq<SLit>| extends(answers(final(self).log()), ans) ==>
                #[trigger] sem_eval(fuel as nat, ans, old(self).ist(), SExpr::Variable(name@)) == (out_lit(r), final(self).ist()),
    {
        proof { lemma_grows_refl(host, self.log()); }
        match self.env.get(name) {
            Ok(v) => Ok(v),
            Err(e) => Err(Fault::Error(e)),
        }
    }

    fn eval_assign<F: Fn(HostReq) -> LitVal>(&mut self, host: &F, fuel: u64, name: &Token, val: &Expr) -> (r: Result<LitVal, Fault>)
        requires
            fuel > 0,
            forall|x: HostReq| #[trigger] host.requires((x,)),
        ensures
            follows(host, *old(self), *final(self)),
            forall|ans: Seq<SLit>| extends(answers(final(self).log()), ans) ==>
                #[trigger] sem_eval(fuel as nat, ans, old(self).ist(), SExpr::Assign { name: name@, val: Box::new(val@) })
                    == (out_lit(r), final(self).ist()),
        decreases fuel, 0int,
    {
        let ghost s0 = *self;
        let ghost se = SExpr::Assign { name: name@, val: Box::new(val@) };
        let v = match self.eval(host, fuel - 1, val) {
            Ok(v) => v,
            Err(x) => {
                proof {
                    assert forall|ans: Seq<SLit>| extends(answers(self.log()), ans) implies
                        #[trigger] sem_eval(fuel as nat, ans, s0.ist(), se) == (out_lit(Err::<LitVal, Fault>(x)), self.ist()) by {
                        assert(sem_eval((fuel - 1) as nat, ans, s0.ist(), val@) == (Err::<SLit, SFault>(fault_view(x)), self.ist()));
                    }
                }
                return Err(x);
            },
        };
        let ghost s1 = *self;
        let ghost vv = v@;
        proof { lemma_assign_len(s1.ist().env, name@.lex, vv); }
        let r = match self.env.assign(name, v.copy()) {
            Ok(()) => Ok(v),
            Err(e) => Err(Fault::Error(e)),
        };
        proof {
            assert forall|ans: Seq<SLit>| extends(answers(self.log()), ans) implies
                #[trigger] sem_eval(fuel as nat, ans, s0.ist(), se) == (out_lit(r), self.ist()) by {
                assert(sem_eval((fuel - 1) as nat, ans, s0.ist(), val@) == (Ok::<SLit, SFault>(vv), s1.ist()));
            }
        }
        r
    }

    fn eval_logic<F: Fn(HostReq) -> LitVal>(&mut self, host: &F, fuel: u64, left: &Expr, op: &Token, right: &Expr) -> (r: Result<LitVal, Fault>)
        requires
            fuel > 0,
            forall|x: HostReq| #[trigger] host.requires((x,)),
        ensures
            follows(host, *old(self), *final(self)),
            forall|ans: Seq<SLit>| extends(answers(final(self).log()), ans) ==>
                #[trigger] sem_eval(fuel as nat, ans, old(self).ist(), SExpr::Logical { left: Box::new(left@), op: op@, right: Box::new(right@) })
                    == (out_lit(r), final(self).ist()),
        decreases fuel, 0int,
    {
        let ghost s0 = *self;
        let ghost se = SExpr::Logical { left: Box::new(left@), op: op@, right: Box::new(right@) };
        let lv = match self.eval(host, fuel - 1, left) {
            Ok(v) => v,
            Err(x) => {
                proof {
                    assert forall|ans: Seq<SLit>| extends(answers(self.log()), ans) implies
                        #[trigger] sem_eval(fuel as nat, ans, s0.ist(), se) == (out_lit(Err::<LitVal, Fault>(x)), self.ist()) by {
                        assert(sem_eval((fuel - 1) as nat, ans, s0.ist(), left@) == (Err::<SLit, SFault>(fault_view(x)), self.ist()));
                    }
                }
                return Err(x);
            },
        };
        let ghost s1 = *self;
        let ghost lvv = lv@;
        let t = self.is_truthy(&lv);
        if (op.token_t == TokenT::Keyword(Keyword::Or) && t) || (op.token_t == TokenT::Keyword(Keyword::And) && !t) {
            proof {
                lemma_grows_refl(host, self.log());
                assert forall|ans: Seq<SLit>| extends(answers(self.log()), ans) implies
                    #[trigger] sem_eval(fuel as nat, ans, s0.ist(), se) == (out_lit(Ok::<LitVal, Fault>(lv)), self.ist()) by {
                    assert(sem_eval((fuel - 1) as nat, ans, s0.ist(), left@) == (Ok::<SLit, SFault>(lvv), s1.ist()));
                }
            }
            return Ok(lv);
        }
        let r = self.eval(host, fuel - 1, right);
        proof {
            assert forall|ans: Seq<SLit>| extends(answers(self.log()), ans) implies
                #[trigger] sem_eval(fuel as nat, ans, s0.ist(), se) == (out_lit(r), self.ist()) by {
                assert(extends(answers(s1.log()), ans));
                assert(sem_eval((fuel - 1) as nat, ans, s0.ist(), left@) == (Ok::<SLit, SFault>(lvv), s1.ist()));
                assert(sem_eval((fuel - 1) as nat, ans, s1.ist(), right@) == (out_lit(r), self.ist()));
            }
        }
        r
    }

    fn eval_unary<F: Fn(HostReq) -> LitVal>(&mut self, host: &F, fuel: u64, op: &Token, right: &Expr) -> (r: Result<LitVal, Fault>)
        requires
            fuel > 0,
            forall|x: HostReq| #[trigger] host.requires((x,)),
        ensures
            follows(host, *old(self), *final(self)),
            forall|ans: Seq<SLit>| extends(answers(final(self).log()), ans) ==>
                #[trigger] sem_eval(fuel as nat, ans, old(self).ist(), SExpr::Unary { op: op@, right: Box::new(right@) })
                    == (out_lit(r), final(self).ist()),
        decreases fuel, 0int,
    {
        let ghost s0 = *self;
        let ghost se = SExpr::Unary { op: op@, right: Box::new(right@) };
        let v = match self.eval(host, fuel - 1, right) {
            Ok(v) => v,
            Err(x) => {
                proof {
                    assert forall|ans: Seq<SLit>| extends(answers(self.log()), ans) implies
                        #[trigger] sem_eval(fuel as nat, ans, s0.ist(), se) == (out_lit(Err::<LitVal, Fault>(x)), self.ist()) by {
                        assert(sem_eval((fuel - 1) as nat, ans, s0.ist(), right@) == (Err::<SLit, SFault>(fault_view(x)), self.ist()));
                    }
                }
                return Err(x);
            },
        };
        let ghost s1 = *self;
        let ghost vv = v@;
        let r = match op.token_t {
            TokenT::Minus => match validator::check_num(op, v.as_number()) {
                Ok(a) => {
                    let q = HostReq::Num(NumOp::Negate, a, String::new());
                    let ghost qv = q@;
                    let n = self.ask(host, q);
                    proof {
                        assert forall|ans: Seq<SLit>| extends(answers(self.log()), ans) implies
                            #[trigger] sem_eval(fuel as nat, ans, s0.ist(), se) == (out_lit(Ok::<LitVal, Fault>(n)), self.ist()) by {
                            assert(extends(answers(s1.log()), ans));
                            assert(sem_eval((fuel - 1) as nat, ans, s0.ist(), right@) == (Ok::<SLit, SFault>(vv), s1.ist()));
                            assert(ask(ans, s1.ist(), qv) == (n@, self.ist()));
                        }
                    }
                    Ok(n)
                },
                Err(e) => Err(Fault::Error(e)),
            },
            TokenT::Bang => Ok(LitVal::Boolean(self.is_truthy(&v))),
            _ => Ok(LitVal::Nil),
        };
        proof {
            if self.log() == s1.log() {
                lemma_grows_refl(host, self.log());
                assert forall|ans: Seq<SLit>| extends(answers(self.log()), ans) implies
                    #[trigger] sem_eval(fuel as nat, ans, s0.ist(), se) == (out_lit(r), self.ist()) by {
                    assert(sem_eval((fuel - 1) as nat, ans, s0.ist(), right@) == (Ok::<SLit, SFault>(vv), s1.ist()));
                }
            }
        }
        r
    }

    fn eval_bin<F: Fn(HostReq) -> LitVal>(&mut self, host: &F, fuel: u64, left: &Expr, op: &Token, right: &Expr) -> (r: Result<LitVal, Fault>)
        requires
            fuel > 0,
            forall|x: HostReq| #[trigger] host.requires((x,)),
        ensures
            follows(host, *old(self), *final(self)),
            forall|ans: Seq<SLit>| extends(answers(final(self).log()), ans) ==>
                #[trigger] sem_eval(fuel as nat, ans, old(self).ist(), SExpr::Binary { left: Box::new(left@), op: op@, right: Box::new(right@) })
                    == (out_lit(r), final(self).ist()),
        decreases fuel, 0int,
    {
        let ghost s0 = *self;
        let ghost se = SExpr::Binary { left: Box::new(left@), op: op@, right: Box::new(right@) };
        let lv = match self.eval(host, fuel - 1, left) {
            Ok(v) => v,
            Err(x) => {
                proof {
                    assert forall|ans: Seq<SLit>| extends(answers(self.log()), ans) implies
                        #[trigger] sem_eval(fuel as nat, ans, s0.ist(), se) == (out_lit(Err::<LitVal, Fault>(x)), self.ist()) by {
                        assert(sem_eval((fuel - 1) as nat, ans, s0.ist(), left@) == (Err::<SLit, SFault>(fault_view(x)), self.ist()));
                    }
                }
                return Err(x);
            },
        };
        let ghost s1 = *self;
        let ghost lvv = lv@;
        let rv = match self.eval(host, fuel - 1, right) {
            Ok(v) => v,
            Err(x) => {
                proof {
                    assert forall|ans: Seq<SLit>| extends(answers(self.log()), ans) implies
                        #[trigger] sem_eval(fuel as nat, ans, s0.ist(), se) == (out_lit(Err::<LitVal, Fault>(x)), self.ist()) by {
                        assert(extends(answers(s1.log()), ans));
                        assert(sem_eval((fuel - 1) as nat, ans, s0.ist(), left@) == (Ok::<SLit, SFault>(lvv), s1.ist()));
                        assert(sem_eval((fuel - 1) as nat, ans, s1.ist(), right@) == (Err::<SLit, SFault>(fault_view(x)), self.ist()));
                    }
                }
                return Err(x);
            },
        };
        let ghost s2 = *self;
        let ghost rvv = rv@;
        let o = match op.token_t {
            TokenT::Minus => binary_op::minus(op, &lv, &rv),
            TokenT::Plus => binary_op::plus(op, &lv, &rv),
            TokenT::Slash => binary_op::div(op, &lv, &rv),
            TokenT::Star => binary_op::mult(op, &lv, &rv),
            TokenT::Greater => binary_op::greater(op, &lv, &rv),
            TokenT::GreaterEqual => binary_op::greater_eq(op, &lv, &rv),
            TokenT::Less => binary_op::less(op, &lv, &rv),
            TokenT::LessEqual => binary_op::less_eq(op, &lv, &rv),
            TokenT::BangEqual => binary_op::not_eq(&lv, &rv),
            TokenT::EqualEqual => binary_op::eq(&lv, &rv),
            _ => Ok(Operation::Value(LitVal::Nil)),
        };
        proof {
            assert(op_res(o) == spec_binary(op@, lvv, rvv));
        }
        let r = match o {
            Err(e) => Err(Fault::Error(e)),
            Ok(Operation::Value(v)) => Ok(v),
            Ok(Operation::Host(n, a, b)) => {
                let q = HostReq::Num(n, a, b);
                let ghost qv = q@;
                let x = self.ask(host, q);
                proof {
                    assert forall|ans: Seq<SLit>| extends(answers(self.log()), ans) implies
                        #[trigger] sem_eval(fuel as nat, ans, s0.ist(), se) == (out_lit(Ok::<LitVal, Fault>(x)), self.ist()) by {
                        assert(extends(answers(s2.log()), ans));
                        assert(extends(answers(s1.log()), ans));
                        assert(sem_eval((fuel - 1) as nat, ans, s0.ist(), left@) == (Ok::<SLit, SFault>(lvv), s1.ist()));
                        assert(sem_eval((fuel - 1) as nat, ans, s1.ist(), right@) == (Ok::<SLit, SFault>(rvv), s2.ist()));
                        assert(ask(ans, s2.ist(), qv) == (x@, self.ist()));
                    }
                }
                Ok(x)
            },
        };
        proof {
            if self.log() == s2.log() {
                lemma_grows_refl(host, self.log());
                assert forall|ans: Seq<SLit>| extends(answers(self.log()), ans) implies
                    #[trigger] sem_eval(fuel as nat, ans, s0.ist(), se) == (out_lit(r), self.ist()) by {
                    assert(extends(answers(s1.log()), ans));
                    assert(sem_eval((fuel - 1) as nat, ans, s0.ist(), left@) == (Ok::<SLit, SFault>(lvv), s1.ist()));
                    assert(sem_eval((fuel - 1) as nat, ans, s1.ist(), right@) == (Ok::<SLit, SFault>(rvv), s2.ist()));
                }
            }
        }
        r
    }

    fn eval_anon_fun<F: Fn(HostReq) -> LitVal>(&mut self, host: &F, fuel: u64, params: &Vec<Token>, body: &Vec<Stmt>) -> (r: Result<LitVal, Fault>)
        requires
            fuel > 0,
        ensures
            follows(host, *old(self), *final(self)),
            forall|ans: Seq<SLit>| extends(answers(final(self).log()), ans) ==>
                #[trigger] sem_eval(fuel as nat, ans, old(self).ist(), SExpr::AnonFun { params: toks_view(*params), body: stmts_view(*body) })
                    == (out_lit(r), final(self).ist()),
    {
        proof { lemma_grows_refl(host, self.log()); }
        let f = LoxFn { id: self.next_id, name: None, params: copy_tokens(params), body: copy_stmts(body) };
        self.next_id = if self.next_id < u64::MAX { self.next_id + 1 } else { 0 };
        Ok(LitVal::Callable(Box::new(Callable::Lox(f))))
    }

    fn eval_call<F: Fn(HostReq) -> LitVal>(&mut self, host: &F, fuel: u64, callee: &Expr, paren: &Token, args: &Vec<Expr>) -> (r: Result<LitVal, Fault>)
        requires
            fuel > 0,
            forall|x: HostReq| #[trigger] host.requires((x,)),
        ensures
            follows(host, *old(self), *final(self)),
            forall|ans: Seq<SLit>| extends(answers(final(self).log()), ans) ==>
                #[trigger] sem_eval(fuel as nat, ans, old(self).ist(), SExpr::Call { callee: Box::new(callee@), paren: paren@, args: exprs_view(*args) })
                    == (out_lit(r), final(self).ist()),
        decreases fuel, 0int,
    {
        let ghost s0 = *self;
        let ghost se = SExpr::Call { callee: Box::new(callee@), paren: paren@, args: exprs_view(*args) };
        let cv = match self.eval(host, fuel - 1, callee) {
            Ok(v) => v,
            Err(x) => {
                proof {
                    assert forall|ans: Seq<SLit>| extends(answers(self.log()), ans) implies
                        #[trigger] sem_eval(fuel as nat, ans, s0.ist(), se) == (out_lit(Err::<LitVal, Fault>(x)), self.ist()) by {
                        assert(sem_eval((fuel - 1) as nat, ans, s0.ist(), callee@) == (Err::<SLit, SFault>(fault_view(x)), self.ist()));
                    }
                }
                return Err(x);
            },
        };
        let ghost s1 = *self;
        let ghost cvv = cv@;
        let vals = match self.eval_args(host, fuel - 1, args) {
            Ok(v) => v,
            Err(x) => {
                proof {
                    assert forall|ans: Seq<SLit>| extends(answers(self.log()), ans) implies
                        #[trigger] sem_eval(fuel as nat, ans, s0.ist(), se) == (out_lit(Err::<LitVal, Fault>(x)), self.ist()) by {
                        assert(extends(answers(s1.log()), ans));
                        assert(sem_eval((fuel - 1) as nat, ans, s0.ist(), callee@) == (Ok::<SLit, SFault>(cvv), s1.ist()));
                        assert(sem_args((fuel - 1) as nat, ans, s1.ist(), exprs_view(*args), 0, Seq::empty())
                            == (Err::<Seq<SLit>, SFault>(fault_view(x)), self.ist()));
                    }
                }
                return Err(x);
            },
        };
        let ghost s2 = *self;
        let ghost vs = lits_view(vals@);
        proof {
            assert forall|ans: Seq<SLit>| extends(answers(s2.log()), ans) implies
                #[trigger] sem_eval((fuel - 1) as nat, ans, s0.ist(), callee@) == (Ok::<SLit, SFault>(cvv), s1.ist())
                    && sem_args((fuel - 1) as nat, ans, s1.ist(), exprs_view(*args), 0, Seq::empty())
                        == (Ok::<Seq<SLit>, SFault>(vs), s2.ist()) by {
                assert(extends(answers(s1.log()), ans));
            }
        }
        match cv {
            LitVal::Callable(fb) => {
                let arity = fb.arity();
                if arity != args.len() {
                    let mut m = string_of("Expected ");
                    push_decimal(&mut m, arity);
                    m.append(" arguments but got ");
                    push_decimal(&mut m, vals.len());
                    let err = RuntimeError::with_msg(paren, m);
                    proof {
                        lemma_grows_refl(host, self.log());
                        assert(err@ == arity_error(paren@, spec_arity(fb@), vs.len()));
                        assert forall|ans: Seq<SLit>| extends(answers(self.log()), ans) implies
                            #[trigger] sem_eval(fuel as nat, ans, s0.ist(), se) == (out_lit(Err::<LitVal, Fault>(Fault::Error(err))), self.ist()) by {
                            assert(sem_eval((fuel - 1) as nat, ans, s0.ist(), callee@) == (Ok::<SLit, SFault>(cvv), s1.ist()));
                        }
                    }
                    return Err(Fault::Error(err));
                }
                let r = self.call_fn(host, fuel - 1, &fb, vals);
                proof {
                    assert forall|ans: Seq<SLit>| extends(answers(self.log()), ans) implies
                        #[trigger] sem_eval(fuel as nat, ans, s0.ist(), se) == (out_lit(r), self.ist()) by {
                        assert(extends(answers(s2.log()), ans));
                        assert(sem_eval((fuel - 1) as nat, ans, s0.ist(), callee@) == (Ok::<SLit, SFault>(cvv), s1.ist()));
                        assert(sem_call((fuel - 1) as nat, ans, s2.ist(), fb@, vs) == (out_lit(r), self.ist()));
                    }
                }
                r
            },
            _ => {
                let err = RuntimeError::new(paren, "Can only call functions and classes.");
                proof {
                    lemma_grows_refl(host, self.log());
                    assert forall|ans: Seq<SLit>| extends(answers(self.log()), ans) implies
                        #[trigger] sem_eval(fuel as nat, ans, s0.ist(), se) == (out_lit(Err::<LitVal, Fault>(Fault::Error(err))), self.ist()) by {
                        assert(sem_eval((fuel - 1) as nat, ans, s0.ist(), callee@) == (Ok::<SLit, SFault>(cvv), s1.ist()));
                    }
                }
                Err(Fault::Error(err))
            },
        }
    }

    fn eval_args<F: Fn(HostReq) -> LitVal>(&mut self, host: &F, fuel: u64, args: &Vec<Expr>) -> (r: Result<Vec<LitVal>, Fault>)
        requires
            forall|x: HostReq| #[trigger] host.requires((x,)),
        ensures
            follows(host, *old(self), *final(self)),
            r matches Ok(v) ==> v.len() == args.len(),
            forall|ans: Seq<SLit>| extends(answers(final(self).log()), ans) ==>
                #[trigger] sem_args(fuel as nat, ans, old(self).ist(), exprs_view(*args), 0, Seq::empty())
                    == (out_lits(r), final(self).ist()),
        decreases fuel, 2int,
    {
        let ghost s0 = *self;
        let ghost es = exprs_view(*args);
        let mut acc: Vec<LitVal> = Vec::new();
        let mut i: usize = 0;
        proof {
            lemma_grows_refl(host, self.log());
            assert(lits_view(acc@) =~= Seq::<SLit>::empty());
        }
        while i < args.len()
            invariant
                i <= args.len(),
                acc.len() == i,
                es == exprs_view(*args),
                s0 == *old(self),
                forall|x: HostReq| #[trigger] host.requires((x,)),
                follows(host, s0, *self),
                forall|ans: Seq<SLit>| extends(answers(self.log()), ans) ==>
                    #[trigger] sem_args(fuel as nat, ans, s0.ist(), es, 0, Seq::empty())
                        == sem_args(fuel as nat, ans, self.ist(), es, i as int, lits_view(acc@)),
            decreases args.len() - i,
        {
            let ghost st_i = self.ist();
            let ghost log_i = self.log();
            let ghost acc_i = lits_view(acc@);
            let r = self.eval(host, fuel, &args[i]);
            match r {
                Ok(v) => {
                    let ghost vv = v@;
                    acc.push(v);
                    proof {
                        assert(lits_view(acc@) =~= acc_i.push(vv));
                        assert forall|ans: Seq<SLit>| extends(answers(self.log()), ans) implies
                            #[trigger] sem_args(fuel as nat, ans, s0.ist(), es, 0, Seq::empty())
                                == sem_args(fuel as nat, ans, self.ist(), es, i + 1, lits_view(acc@)) by {
                            assert(extends(answers(log_i), ans));
                            assert(es[i as int] == args[i as int]@);
                            assert(sem_eval(fuel as nat, ans, st_i, es[i as int]) == (Ok::<SLit, SFault>(vv), self.ist()));
                        }
                    }
                },
                Err(x) => {
                    proof {
                        assert forall|ans: Seq<SLit>| extends(answers(self.log()), ans) implies
                            #[trigger] sem_args(fuel as nat, ans, s0.ist(), es, 0, Seq::empty())
                                == (out_lits(Err::<Vec<LitVal>, Fault>(x)), self.ist()) by {
                            assert(extends(answers(log_i), ans));
                            assert(es[i as int] == args[i as int]@);
                            assert(sem_eval(fuel as nat, ans, st_i, es[i as int]) == (Err::<SLit, SFault>(fault_view(x)), self.ist()));
                        }
                    }
                    return Err(x);
                },
            }
            i += 1;
        }
        Ok(acc)
    }

    /// Calls `fun` on argument values, as many as it takes. A function of the
    /// program runs its body in a new scope inside the current one, with its
    /// parameters bound to the values.
    fn call_fn<F: Fn(HostReq) -> LitVal>(&mut self, host: &F, fuel: u64, fun: &Callable, vals: Vec<LitVal>) -> (r: Result<LitVal, Fault>)
        requires
            vals.len() == spec_arity(fun@),
            forall|x: HostReq| #[trigger] host.requires((x,)),
        ensures
            follows(host, *old(self), *final(self)),
            forall|ans: Seq<SLit>| extends(answers(final(self).log()), ans) ==>
                #[trigger] sem_call(fuel as nat, ans, old(self).ist(), fun@, lits_view(vals@))
                    == (out_lit(r), final(self).ist()),
        decreases fuel, 3int,
    {
        let ghost s0 = *self;
        let ghost vs = lits_view(vals@);
        match fun {
            Callable::Native(_) => {
                let q = HostReq::Clock;
                let ghost qv = q@;
                let a = self.ask(host, q);
                proof {
                    assert(qv == SReq::Clock);
                    assert forall|ans: Seq<SLit>| extends(answers(self.log()), ans) implies
                        #[trigger] sem_call(fuel as nat, ans, s0.ist(), fun@, vs) == (out_lit(Ok::<LitVal, Fault>(a)), self.ist()) by {
                        assert(ask(ans, s0.ist(), qv) == (a@, self.ist()));
                    }
                }
                Ok(a)
            },
            Callable::Lox(f) => {
                let ghost ps = toks_view(f.params);
                let mut prev = Environment::global();
                std::mem::swap(&mut prev, &mut self.env);
                proof {
                    crate::backend::interpreter::environment::lemma_env_len(prev);
                    assert(prev@ == s0.ist().env);
                }
                let mut env = Environment::enclose(prev);
                let ghost env0 = env@;
                proof {
                    assert(env0 == seq![empty_scope()] + s0.ist().env);
                }
                let mut i: usize = 0;
                while i < f.params.len()
                    invariant
                        i <= f.params.len(),
                        vals.len() == f.params.len(),
                        ps == toks_view(f.params),
                        vs == lits_view(vals@),
                        env@.len() == env0.len(),
                        env0.len() >= 2,
                        bind(env@, ps, vs, i as int) == bind(env0, ps, vs, 0),
                    decreases f.params.len() - i,
                {
                    let ghost e_i = env@;
                    env.define(&f.params[i].lex, vals[i].copy());
                    proof {
                        assert(ps[i as int].lex == f.params[i as int].lex@);
                        assert(vs[i as int] == vals[i as int]@);
                        assert(bind(e_i, ps, vs, i as int) == bind(env@, ps, vs, i + 1));
                    }
                    i += 1;
                }
                let ghost s1 = *self;
                let ghost benv = env@;
                let res = self.exec_block(host, fuel, &f.body, env);
                let r = match res {
                    Err(x) => Err(x),
                    Ok(ExecCode::Return(v)) => Ok(v),
                    Ok(_) => Ok(LitVal::Nil),
                };
                proof {
                    assert forall|ans: Seq<SLit>| extends(answers(self.log()), ans) implies
                        #[trigger] sem_call(fuel as nat, ans, s0.ist(), fun@, vs) == (out_lit(r), self.ist()) by {
                        assert(with_env(s1.ist(), benv) == IState { env: bind(seq![empty_scope()] + s0.ist().env, ps, vs, 0), ..s0.ist() });
                        assert(sem_block(fuel as nat, ans, with_env(s1.ist(), benv), stmts_view(f.body), 0) == (out_code(res), self.ist()));
                    }
                }
                r
            },
        }
    }

    /// Runs `stmts` in the scope `env`, which encloses the current one; on
    /// reaching the end, leaves that scope.
    fn exec_block<F: Fn(HostReq) -> LitVal>(&mut self, host: &F, fuel: u64, stmts: &Vec<Stmt>, env: Environment) -> (r: Result<ExecCode, Fault>)
        requires
            env@.len() >= 2,
            forall|x: HostReq| #[trigger] host.requires((x,)),
        ensures
            grows(host, old(self).log(), final(self).log()),
            final(self).ist().env.len() >= env@.len() - 1,
            final(self).program() == old(self).program(),
            forall|ans: Seq<SLit>| extends(answers(final(self).log()), ans) ==>
                #[trigger] sem_block(fuel as nat, ans, with_env(old(self).ist(), env@), stmts_view(*stmts), 0)
                    == (out_code(r), final(self).ist()),
        decreases fuel, 2int,
    {
        let ghost env_v = env@;
        self.env = env;
        let ghost s0 = *self;
        let ghost ss = stmts_view(*stmts);
        let mut i: usize = 0;
        proof { lemma_grows_refl(host, self.log()); }
        while i < stmts.len()
            invariant
                i <= stmts.len(),
                ss == stmts_view(*stmts),
                s0.ist() == with_env(old(self).ist(), env_v),
                s0.log() == old(self).log(),
                s0.program() == old(self).program(),
                env_v == env@,
                s0.ist().env.len() >= 2,
                forall|x: HostReq| #[trigger] host.requires((x,)),
                follows(host, s0, *self),
                forall|ans: Seq<SLit>| extends(answers(self.log()), ans) ==>
                    #[trigger] sem_block(fuel as nat, ans, s0.ist(), ss, 0) == sem_block(fuel as nat, ans, self.ist(), ss, i as int),
            decreases stmts.len() - i,
        {
            let ghost st_i = self.ist();
            let ghost log_i = self.log();
            let r = self.exec(host, fuel, &stmts[i]);
            proof {
                assert(ss[i as int] == stmts[i as int]@);
            }
            match r {
                Ok(ExecCode::Success) => {
                    proof {
                        assert forall|ans: Seq<SLit>| extends(answers(self.log()), ans) implies
                            #[trigger] sem_block(fuel as nat, ans, s0.ist(), ss, 0)
                                == sem_block(fuel as nat, ans, self.ist(), ss, i + 1) by {
                            assert(extends(answers(log_i), ans));
                            assert(sem_exec(fuel as nat, ans, st_i, ss[i as int]) == (Ok::<SCode, SFault>(SCode::Success), self.ist()));
                        }
                    }
                },
                Ok(code) => {
                    proof {
                        assert forall|ans: Seq<SLit>| extends(answers(self.log()), ans) implies
                            #[trigger] sem_block(fuel as nat, ans, s0.ist(), ss, 0)
                                == (out_code(Ok::<ExecCode, Fault>(code)), self.ist()) by {
                            assert(extends(answers(log_i), ans));
                            assert(sem_exec(fuel as nat, ans, st_i, ss[i as int]) == (Ok::<SCode, SFault>(code_view(code)), self.ist()));
                        }
                    }
                    return Ok(code);
                },
                Err(x) => {
                    proof {
                        assert forall|ans: Seq<SLit>| extends(answers(self.log()), ans) implies
                            #[trigger] sem_block(fuel as nat, ans, s0.ist(), ss, 0)
                                == (out_code(Err::<ExecCode, Fault>(x)), self.ist()) by {
                            assert(extends(answers(log_i), ans));
                            assert(sem_exec(fuel as nat, ans, st_i, ss[i as int]) == (Err::<SCode, SFault>(fault_view(x)), self.ist()));
                        }
                    }
                    return Err(x);
                },
            }
            i += 1;
        }
        let ghost st_end = self.ist();
        let outer = self.env.take_enc().unwrap();
        self.env = outer;
        proof {
            assert(self.ist() == IState { env: st_end.env.drop_first(), ..st_end });
        }
        Ok(ExecCode::Success)
    }

    /// Executes `stmt`. Each level of nesting, and each round of a loop,
    /// spends one unit of `fuel`; with none left the run stops as exhausted.
    fn exec<F: Fn(HostReq) -> LitVal>(&mut self, host: &F, fuel: u64, stmt: &Stmt) -> (r: Result<ExecCode, Fault>)
        requires
            forall|x: HostReq| #[trigger] host.requires((x,)),
        ensures
            follows(host, *old(self), *final(self)),
            forall|ans: Seq<SLit>| extends(answers(final(self).log()), ans) ==>
                #[trigger] sem_exec(fuel as nat, ans, old(self).ist(), stmt@) == (out_code(r), final(self).ist()),
        decreases fuel, 1int,
    {
        if fuel == 0 {
            proof { lemma_grows_refl(host, self.log()); }
            return Err(Fault::Exhausted);
        }
        let ghost s0 = *self;
        match stmt {
            Stmt::Print(val) => {
                let r = self.exec_print(host, fuel, val);
                proof {
                    assert forall|ans: Seq<SLit>| extends(answers(self.log()), ans) implies
                        #[trigger] sem_exec(fuel as nat, ans, s0.ist(), stmt@) == (out_code(r), self.ist()) by {
                        assert(sem_exec(fuel as nat, ans, s0.ist(), SStmt::Print(val@)) == (out_code(r), self.ist()));
                    }
                }
                r
            },
            Stmt::Expression(expr) => {
                let rv = self.eval(host, fuel - 1, expr);
                let ghost orv = out_lit(rv);
                let r = match rv {
                    Ok(_) => Ok(ExecCode::Success),
                    Err(x) => Err(x),
                };
                proof {
                    assert forall|ans: Seq<SLit>| extends(answers(self.log()), ans) implies
                        #[trigger] sem_exec(fuel as nat, ans, s0.ist(), stmt@) == (out_code(r), self.ist()) by {
                        assert(sem_eval((fuel - 1) as nat, ans, s0.ist(), expr@) == (orv, self.ist()));
                    }
                }
                r
            },
            Stmt::Break => {
                proof { lemma_grows_refl(host, self.log()); }
                Ok(ExecCode::Break)
            },
            Stmt::Block(stmts) => {
                let mut prev = Environment::global();
                std::mem::swap(&mut prev, &mut self.env);
                proof { crate::backend::interpreter::environment::lemma_env_len(prev); }
                let env = Environment::enclose(prev);
                let ghost benv = env@;
                let ghost s1 = *self;
                let r = self.exec_block(host, fuel - 1, stmts, env);
                proof {
                    assert(benv == seq![empty_scope()] + s0.ist().env);
                    assert(with_env(s1.ist(), benv) == IState { env: seq![empty_scope()] + s0.ist().env, ..s0.ist() });
                    assert forall|ans: Seq<SLit>| extends(answers(self.log()), ans) implies
                        #[trigger] sem_exec(fuel as nat, ans, s0.ist(), stmt@) == (out_code(r), self.ist()) by {
                        assert(sem_block((fuel - 1) as nat, ans, with_env(s1.ist(), benv), stmts_view(*stmts), 0) == (out_code(r), self.ist()));
                    }
                }
                r
            },
            Stmt::If { cond, then_br, else_br } => {
                let r = self.exec_if(host, fuel, cond, &**then_br, else_br);
                proof {
                    assert forall|ans: Seq<SLit>| extends(answers(self.log()), ans) implies
                        #[trigger] sem_exec(fuel as nat, ans, s0.ist(), stmt@) == (out_code(r), self.ist()) by {
                        assert(sem_exec(fuel as nat, ans, s0.ist(), SStmt::If { cond: cond@, then_br: Box::new(then_br@), else_br: opt_stmt_view(*else_br) })
                            == (out_code(r), self.ist()));
                    }
                }
                r
            },
            Stmt::While { cond, block } => {
                let r = self.exec_while(host, fuel - 1, cond, &**block);
                proof {
                    assert forall|ans: Seq<SLit>| extends(answers(self.log()), ans) implies
                        #[trigger] sem_exec(fuel as nat, ans, s0.ist(), stmt@) == (out_code(r), self.ist()) by {
                        assert(sem_while((fuel - 1) as nat, ans, s0.ist(), cond@, block@) == (out_code(r), self.ist()));
                    }
                }
                r
            },
            Stmt::Var { name, init } => {
                let r = self.exec_var(host, fuel, name, init);
                proof {
                    assert forall|ans: Seq<SLit>| extends(answers(self.log()), ans) implies
                        #[trigger] sem_exec(fuel as nat, ans, s0.ist(), stmt@) == (out_code(r), self.ist()) by {
                        assert(sem_exec(fuel as nat, ans, s0.ist(), SStmt::Var { name: name@, init: opt_expr_view(*init) }) == (out_code(r), self.ist()));
                    }
                }
                r
            },
            Stmt::Function { name, params, body } => {
                proof { lemma_grows_refl(host, self.log()); }
                let fun = LoxFn::new(name.copy(), copy_tokens(params), copy_stmts(body), self.next_id);
                self.next_id = if self.next_id < u64::MAX { self.next_id + 1 } else { 0 };
                self.env.define(&name.lex, LitVal::Callable(Box::new(Callable::Lox(fun))));
                Ok(ExecCode::Success)
            },
            Stmt::Return { key, val } => {
                match val {
                    Some(v) => {
                        let rv = self.eval(host, fuel - 1, v);
                        let ghost orv = out_lit(rv);
                        let r = match rv {
                            Ok(x) => Ok(ExecCode::Return(x)),
                            Err(x) => Err(x),
                        };
                        proof {
                            assert forall|ans: Seq<SLit>| extends(answers(self.log()), ans) implies
                                #[trigger] sem_exec(fuel as nat, ans, s0.ist(), stmt@) == (out_code(r), self.ist()) by {
                                assert(sem_eval((fuel - 1) as nat, ans, s0.ist(), v@) == (orv, self.ist()));
                            }
                        }
                        r
                    },
                    None => {
                        proof { lemma_grows_refl(host, self.log()); }
                        Ok(ExecCode::Return(LitVal::Nil))
                    },
                }
            },
        }
    }

    fn exec_print<F: Fn(HostReq) -> LitVal>(&mut self, host: &F, fuel: u64, val: &Expr) -> (r: Result<ExecCode, Fault>)
        requires
            fuel > 0,
            forall|x: HostReq| #[trigger] host.requires((x,)),
        ensures
            follows(host, *old(self), *final(self)),
            forall|ans: Seq<SLit>| extends(answers(final(self).log()), ans) ==>
                #[trigger] sem_exec(fuel as nat, ans, old(self).ist(), SStmt::Print(val@)) == (out_code(r), final(self).ist()),
        decreases fuel, 0int,
    {
        let ghost s0 = *self;
        let ghost pe = SStmt::Print(val@);
        let v = match self.eval(host, fuel - 1, val) {
            Ok(v) => v,
            Err(x) => {
                proof {
                    assert forall|ans: Seq<SLit>| extends(answers(self.log()), ans) implies
                        #[trigger] sem_exec(fuel as nat, ans, s0.ist(), pe) == (out_code(Err::<ExecCode, Fault>(x)), self.ist()) by {
                        assert(sem_eval((fuel - 1) as nat, ans, s0.ist(), val@) == (Err::<SLit, SFault>(fault_view(x)), self.ist()));
                    }
                }
                return Err(x);
            },
        };
        let ghost s1 = *self;
        let ghost vv = v@;
        let line = v.to_string();
        let ghost lv = line@;
        self.out.push(line);
        proof {
            lemma_grows_refl(host, self.log());
            assert(strs_view(self.out@) =~= s1.ist().out.push(lv));
            assert(self.ist() == IState { out: s1.ist().out.push(spec_lit_to_string(vv)), ..s1.ist() });
            assert forall|ans: Seq<SLit>| extends(answers(self.log()), ans) implies
                #[trigger] sem_exec(fuel as nat, ans, s0.ist(), pe) == (out_code(Ok::<ExecCode, Fault>(ExecCode::Success)), self.ist()) by {
                assert(sem_eval((fuel - 1) as nat, ans, s0.ist(), val@) == (Ok::<SLit, SFault>(vv), s1.ist()));
            }
        }
        Ok(ExecCode::Success)
    }

    /// Runs the program's statements one after the other, each with `fuel`
    /// units of fuel. A runtime error is recorded in `lox` and the run goes on
    /// with the next statement. Returns whether the fuel ran out, which ends
    /// the run. The statements are used up.
    pub fn interpret<F: Fn(HostReq) -> LitVal>(&mut self, lox: &mut Lox, host: &F, fuel: u64) -> (exhausted: bool)
        requires
            forall|x: HostReq| #[trigger] host.requires((x,)),
        ensures
            grows(host, old(self).log(), final(self).log()),
            final(self).program() == Seq::<SStmt>::empty(),
            final(lox)@.had_parse_err == old(lox)@.had_parse_err,
            old(lox)@.had_runtime_err ==> final(lox)@.had_runtime_err,
            forall|ans: Seq<SLit>| extends(answers(final(self).log()), ans) ==> {
                let p = #[trigger] sem_program(fuel as nat, ans, old(self).ist(), old(self).program(), 0);
                &&& p.1 == exhausted
                &&& p.2 == final(self).ist()
                &&& final(lox)@.errors == old(lox)@.errors + reports(p.0)
                &&& final(lox)@.had_runtime_err == (old(lox)@.had_runtime_err || p.0.len() > 0)
                &&& final(lox)@.had_parse_err == old(lox)@.had_parse_err
            },
    {
        let mut stmts: Vec<Stmt> = Vec::new();
        std::mem::swap(&mut stmts, &mut self.stmts);
        let ghost ss = stmts_view(stmts);
        let ghost s0 = *self;
        let ghost lox0 = lox@;
        let ghost mut errs: Seq<SRuntimeError> = Seq::empty();
        proof {
            lemma_grows_refl(host, self.log());
            assert(stmts_view(self.stmts) =~= Seq::<SStmt>::empty());
            assert(lox@.errors =~= lox0.errors + reports(errs));
            assert forall|ans: Seq<SLit>| extends(answers(self.log()), ans) implies
                #[trigger] sem_program(fuel as nat, ans, s0.ist(), ss, 0)
                    == after_errors(errs, sem_program(fuel as nat, ans, self.ist(), ss, 0)) by {
                let p = sem_program(fuel as nat, ans, self.ist(), ss, 0);
                assert(errs + p.0 =~= p.0);
            }
        }
        let mut i: usize = 0;
        while i < stmts.len()
            invariant
                i <= stmts.len(),
                ss == stmts_view(stmts),
                s0.ist() == old(self).ist(),
                s0.log() == old(self).log(),
                ss == old(self).program(),
                self.program() == Seq::<SStmt>::empty(),
                lox0 == old(lox)@,
                forall|x: HostReq| #[trigger] host.requires((x,)),
                follows(host, s0, *self),
                lox@.errors == lox0.errors + reports(errs),
                lox@.had_runtime_err == (lox0.had_runtime_err || errs.len() > 0),
                lox@.had_parse_err == lox0.had_parse_err,
                forall|ans: Seq<SLit>| extends(answers(self.log()), ans) ==>
                    #[trigger] sem_program(fuel as nat, ans, s0.ist(), ss, 0)
                        == after_errors(errs, sem_program(fuel as nat, ans, self.ist(), ss, i as int)),
            decreases stmts.len() - i,
        {
            let ghost st_i = self.ist();
            let ghost log_i = self.log();
            let ghost errs_i = errs;
            let r = self.exec(host, fuel, &stmts[i]);
            proof { assert(ss[i as int] == stmts[i as int]@); }
            match r {
                Err(Fault::Exhausted) => {
                    proof {
                        assert forall|ans: Seq<SLit>| extends(answers(self.log()), ans) implies ({
                            let p = #[trigger] sem_program(fuel as nat, ans, old(self).ist(), old(self).program(), 0);
                            &&& p.1 == true
                            &&& p.2 == self.ist()
                            &&& lox@.errors == old(lox)@.errors + reports(p.0)
                            &&& lox@.had_runtime_err == (old(lox)@.had_runtime_err || p.0.len() > 0)
                            &&& lox@.had_parse_err == old(lox)@.had_parse_err
                        }) by {
                            assert(extends(answers(log_i), ans));
                            assert(sem_exec(fuel as nat, ans, st_i, ss[i as int]) == (Err::<SCode, SFault>(SFault::Exhausted), self.ist()));
                            assert(errs + Seq::<SRuntimeError>::empty() =~= errs);
                        }
                    }
                    return true;
                },
                Err(Fault::Error(e)) => {
                    lox.error_runtime(&e);
                    proof {
                        errs = errs.push(e@);
                        assert(reports(errs) =~= reports(errs_i).push(runtime_report(e@)));
                        assert forall|ans: Seq<SLit>| extends(answers(self.log()), ans) implies
                            #[trigger] sem_program(fuel as nat, ans, s0.ist(), ss, 0)
                                == after_errors(errs, sem_program(fuel as nat, ans, self.ist(), ss, i + 1)) by {
                            assert(extends(answers(log_i), ans));
                            assert(sem_exec(fuel as nat, ans, st_i, ss[i as int]) == (Err::<SCode, SFault>(SFault::Error(e@)), self.ist()));
                            let p = sem_program(fuel as nat, ans, self.ist(), ss, i + 1);
                            assert(errs_i + (seq![e@] + p.0) =~= errs + p.0);
                        }
                    }
                },
                Ok(code) => {
                    proof {
                        assert forall|ans: Seq<SLit>| extends(answers(self.log()), ans) implies
                            #[trigger] sem_program(fuel as nat, ans, s0.ist(), ss, 0)
                                == after_errors(errs, sem_program(fuel as nat, ans, self.ist(), ss, i + 1)) by {
                            assert(extends(answers(log_i), ans));
                            assert(sem_exec(fuel as nat, ans, st_i, ss[i as int]) == (Ok::<SCode, SFault>(code_view(code)), self.ist()));
                        }
                    }
                },
            }
            i += 1;
        }
        proof {
            assert forall|ans: Seq<SLit>| extends(answers(self.log()), ans) implies ({
                let p = #[trigger] sem_program(fuel as nat, ans, old(self).ist(), old(self).program(), 0);
                &&& p.1 == false
                &&& p.2 == self.ist()
                &&& lox@.errors == old(lox)@.errors + reports(p.0)
                &&& lox@.had_runtime_err == (old(lox)@.had_runtime_err || p.0.len() > 0)
                &&& lox@.had_parse_err == old(lox)@.had_parse_err
            }) by {
                assert(errs + Seq::<SRuntimeError>::empty() =~= errs);
            }
        }
        false
    }

    fn exec_if<F: Fn(HostReq) -> LitVal>(&mut self, host: &F, fuel: u64, cond: &Expr, then_br: &Stmt, else_br: &Option<Box<Stmt>>) -> (r: Result<ExecCode, Fault>)
        requires
            fuel > 0,
            forall|x: HostReq| #[trigger] host.requires((x,)),
        ensures
            follows(host, *old(self), *final(self)),
            forall|ans: Seq<SLit>| extends(answers(final(self).log()), ans) ==>
                #[trigger] sem_exec(fuel as nat, ans, old(self).ist(), SStmt::If {
                    cond: cond@,
                    then_br: Box::new(then_br@),
                    else_br: opt_stmt_view(*else_br),
                }) == (out_code(r), final(self).ist()),
        decreases fuel, 0int,
    {
        let ghost s0 = *self;
        let ghost se = SStmt::If { cond: cond@, then_br: Box::new(then_br@), else_br: opt_stmt_view(*else_br) };
        let cv = match self.eval(host, fuel - 1, cond) {
            Ok(v) => v,
            Err(x) => {
                proof {
                    assert forall|ans: Seq<SLit>| extends(answers(self.log()), ans) implies
                        #[trigger] sem_exec(fuel as nat, ans, s0.ist(), se) == (out_code(Err::<ExecCode, Fault>(x)), self.ist()) by {
                        assert(sem_eval((fuel - 1) as nat, ans, s0.ist(), cond@) == (Err::<SLit, SFault>(fault_view(x)), self.ist()));
                    }
                }
                return Err(x);
            },
        };
        let ghost s1 = *self;
        let ghost cvv = cv@;
        let r = if self.is_truthy(&cv) {
            self.exec(host, fuel - 1, then_br)
        } else {
            match else_br {
                Some(b) => self.exec(host, fuel - 1, &**b),
                None => {
                    proof { lemma_grows_refl(host, self.log()); }
                    Ok(ExecCode::Success)
                },
            }
        };
        proof {
            assert forall|ans: Seq<SLit>| extends(answers(self.log()), ans) implies
                #[trigger] sem_exec(fuel as nat, ans, s0.ist(), se) == (out_code(r), self.ist()) by {
                assert(extends(answers(s1.log()), ans));
                assert(sem_eval((fuel - 1) as nat, ans, s0.ist(), cond@) == (Ok::<SLit, SFault>(cvv), s1.ist()));
                if truthy(cvv) {
                    assert(sem_exec((fuel - 1) as nat, ans, s1.ist(), then_br@) == (out_code(r), self.ist()));
                } else {
                    match *else_br {
                        Some(b) => {
                            assert(sem_exec((fuel - 1) as nat, ans, s1.ist(), b@) == (out_code(r), self.ist()));
                        },
                        None => {},
                    }
                }
            }
        }
        r
    }

    fn exec_var<F: Fn(HostReq) -> LitVal>(&mut self, host: &F, fuel: u64, name: &Token, init: &Option<Expr>) -> (r: Result<ExecCode, Fault>)
        requires
            fuel > 0,
            forall|x: HostReq| #[trigger] host.requires((x,)),
        ensures
            follows(host, *old(self), *final(self)),
            forall|ans: Seq<SLit>| extends(answers(final(self).log()), ans) ==>
                #[trigger] sem_exec(fuel as nat, ans, old(self).ist(), SStmt::Var {
                    name: name@,
                    init: opt_expr_view(*init),
                }) == (out_code(r), final(self).ist()),
        decreases fuel, 0int,
    {
        let ghost s0 = *self;
        let ghost ve = SStmt::Var { name: name@, init: opt_expr_view(*init) };
        let v = match init {
            Some(i) => match self.eval(host, fuel - 1, i) {
                Ok(v) => v,
                Err(x) => {
                    proof {
                        assert forall|ans: Seq<SLit>| extends(answers(self.log()), ans) implies
                            #[trigger] sem_exec(fuel as nat, ans, s0.ist(), ve) == (out_code(Err::<ExecCode, Fault>(x)), self.ist()) by {
                            assert(sem_eval((fuel - 1) as nat, ans, s0.ist(), i@) == (Err::<SLit, SFault>(fault_view(x)), self.ist()));
                        }
                    }
                    return Err(x);
                },
            },
            None => {
                proof { lemma_grows_refl(host, self.log()); }
                LitVal::Nil
            },
        };
        let ghost s1 = *self;
        let ghost vv = v@;
        proof {
            assert forall|ans: Seq<SLit>| extends(answers(s1.log()), ans) implies
                #[trigger] sem_exec(fuel as nat, ans, s0.ist(), ve)
                    == (Ok::<SCode, SFault>(SCode::Success), with_env(s1.ist(), env_define(s1.ist().env, name@.lex, vv))) by {
                match *init {
                    Some(i) => {
                        assert(sem_eval((fuel - 1) as nat, ans, s0.ist(), i@) == (Ok::<SLit, SFault>(vv), s1.ist()));
                    },
                    None => {},
                }
            }
        }
        self.env.define(&name.lex, v);
        Ok(ExecCode::Success)
    }

    fn exec_while<F: Fn(HostReq) -> LitVal>(&mut self, host: &F, fuel: u64, cond: &Expr, block: &Stmt) -> (r: Result<ExecCode, Fault>)
        requires
            forall|x: HostReq| #[trigger] host.requires((x,)),
        ensures
            follows(host, *old(self), *final(self)),
            forall|ans: Seq<SLit>| extends(answers(final(self).log()), ans) ==>
                #[trigger] sem_while(fuel as nat, ans, old(self).ist(), cond@, block@) == (out_code(r), final(self).ist()),
        decreases fuel, 0int,
    {
        let ghost s0 = *self;
        let mut k = fuel;
        proof { lemma_grows_refl(host, self.log()); }
        loop
            invariant
                k <= fuel,
                s0 == *old(self),
                forall|x: HostReq| #[trigger] host.requires((x,)),
                follows(host, s0, *self),
                forall|ans: Seq<SLit>| extends(answers(self.log()), ans) ==>
                    #[trigger] sem_while(fuel as nat, ans, s0.ist(), cond@, block@)
                        == sem_while(k as nat, ans, self.ist(), cond@, block@),
            decreases k,
        {
            let ghost st_k = self.ist();
            let ghost log_k = self.log();
            if k == 0 {
                return Err(Fault::Exhausted);
            }
            let g = k - 1;
            let cv = match self.eval(host, g, cond) {
                Ok(v) => v,
                Err(x) => {
                    proof {
                        assert forall|ans: Seq<SLit>| extends(answers(self.log()), ans) implies
                            #[trigger] sem_while(fuel as nat, ans, s0.ist(), cond@, block@)
                                == (out_code(Err::<ExecCode, Fault>(x)), self.ist()) by {
                            assert(extends(answers(log_k), ans));
                            assert(sem_eval(g as nat, ans, st_k, cond@) == (Err::<SLit, SFault>(fault_view(x)), self.ist()));
                        }
                    }
                    return Err(x);
                },
            };
            let ghost st_c = self.ist();
            let ghost log_c = self.log();
            let ghost cvv = cv@;
            if !self.is_truthy(&cv) {
                proof {
                    assert forall|ans: Seq<SLit>| extends(answers(self.log()), ans) implies
                        #[trigger] sem_while(fuel as nat, ans, s0.ist(), cond@, block@)
                            == (out_code(Ok::<ExecCode, Fault>(ExecCode::Success)), self.ist()) by {
                        assert(extends(answers(log_k), ans));
                        assert(sem_eval(g as nat, ans, st_k, cond@) == (Ok::<SLit, SFault>(cvv), self.ist()));
                    }
                }
                return Ok(ExecCode::Success);
            }
            let r = self.exec(host, g, block);
            match r {
                Ok(ExecCode::Success) => {
                    proof {
                        assert forall|ans: Seq<SLit>| extends(answers(self.log()), ans) implies
                            #[trigger] sem_while(fuel as nat, ans, s0.ist(), cond@, block@)
                                == sem_while(g as nat, ans, self.ist(), cond@, block@) by {
                            assert(extends(answers(log_c), ans));
                            assert(extends(answers(log_k), ans));
                            assert(sem_eval(g as nat, ans, st_k, cond@) == (Ok::<SLit, SFault>(cvv), st_c));
                            assert(sem_exec(g as nat, ans, st_c, block@) == (Ok::<SCode, SFault>(SCode::Success), self.ist()));
                        }
                    }
                },
                Ok(ExecCode::Break) => {
                    proof {
                        assert forall|ans: Seq<SLit>| extends(answers(self.log()), ans) implies
                            #[trigger] sem_while(fuel as nat, ans, s0.ist(), cond@, block@)
                                == (out_code(Ok::<ExecCode, Fault>(ExecCode::Success)), self.ist()) by {
                            assert(extends(answers(log_c), ans));
                            assert(extends(answers(log_k), ans));
                            assert(sem_eval(g as nat, ans, st_k, cond@) == (Ok::<SLit, SFault>(cvv), st_c));
                            assert(sem_exec(g as nat, ans, st_c, block@) == (Ok::<SCode, SFault>(SCode::Break), self.ist()));
                        }
                    }
                    return Ok(ExecCode::Success);
                },
                Ok(ExecCode::Return(v)) => {
                    let ghost vv = v@;
                    proof {
                        assert forall|ans: Seq<SLit>| extends(answers(self.log()), ans) implies
                            #[trigger] sem_while(fuel as nat, ans, s0.ist(), cond@, block@)
                                == (Ok::<SCode, SFault>(SCode::Return(vv)), self.ist()) by {
                            assert(extends(answers(log_c), ans));
                            assert(extends(answers(log_k), ans));
                            assert(sem_eval(g as nat, ans, st_k, cond@) == (Ok::<SLit, SFault>(cvv), st_c));
                            assert(sem_exec(g as nat, ans, st_c, block@) == (Ok::<SCode, SFault>(SCode::Return(vv)), self.ist()));
                        }
                    }
                    return Ok(ExecCode::Return(v));
                },
                Err(x) => {
                    proof {
                        assert forall|ans: Seq<SLit>| extends(answers(self.log()), ans) implies
                            #[trigger] sem_while(fuel as nat, ans, s0.ist(), cond@, block@)
                                == (out_code(Err::<ExecCode, Fault>(x)), self.ist()) by {
                            assert(extends(answers(log_c), ans));
                            assert(extends(answers(log_k), ans));
                            assert(sem_eval(g as nat, ans, st_k, cond@) == (Ok::<SLit, SFault>(cvv), st_c));
                            assert(sem_exec(g as nat, ans, st_c, block@) == (Err::<SCode, SFault>(fault_view(x)), self.ist()));
                        }
                    }
                    return Err(x);
                },
            }
            k = g;
        }
    }
}

} // verus!
