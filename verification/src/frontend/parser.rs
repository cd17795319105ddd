pub mod expr;
pub mod stmt;
pub mod grammar;

use vstd::prelude::*;

use crate::error::{ParseError, SParseError};
use crate::frontend::lexer::token::{Keyword, SToken, Token, TokenT, toks_view, copy_tokens, string_of};
use crate::lox::{Lox, SLox};
use expr::{Expr, SExpr, exprs_view};
use grammar::{
    PState, PRes, Level, at_eof, adv, check, peek, prev, matches_any, report, perr, consume, sfwd,
    level_ops, level_rank, level_next, mk_bin, desugar_for,
    g_binary, g_binary_tail, g_expression, g_assignment, g_anon_fun, g_ternary, g_unary, g_call,
    g_call_loop, g_finish_call, g_args, g_primary, g_declaration, g_var_decl, g_fun_decl, g_statement,
    g_expr_semi, g_print_stmt, g_expr_stmt, g_cond, g_if_stmt, g_loop_body, g_while_stmt, g_opt_expr,
    g_for_stmt, g_for_init, g_for_tail, g_break_stmt, g_return_stmt, g_block_stmt, g_block, g_block_items, g_param_names,
    g_parameters,
};
use stmt::{FunType, SStmt, Stmt, stmts_view};

verus! {

pub open spec fn expr_res(r: Result<Expr, ParseError>) -> PRes<SExpr> {
    match r {
        Ok(e) => Ok(e@),
        Err(x) => Err(x@),
    }
}

pub open spec fn stmt_res(r: Result<Stmt, ParseError>) -> PRes<SStmt> {
    match r {
        Ok(s) => Ok(s@),
        Err(x) => Err(x@),
    }
}

pub open spec fn stmts_res(r: Result<Vec<Stmt>, ParseError>) -> PRes<Seq<SStmt>> {
    match r {
        Ok(s) => Ok(stmts_view(s)),
        Err(x) => Err(x@),
    }
}

pub open spec fn exprs_res(r: Result<Vec<Expr>, ParseError>) -> PRes<Seq<SExpr>> {
    match r {
        Ok(s) => Ok(exprs_view(s)),
        Err(x) => Err(x@),
    }
}

pub open spec fn opt_expr_res(r: Result<Option<Expr>, ParseError>) -> PRes<Option<SExpr>> {
    match r {
        Ok(Some(e)) => Ok(Some(e@)),
        Ok(None) => Ok(None),
        Err(x) => Err(x@),
    }
}

pub open spec fn opt_expr_view(o: Option<Expr>) -> Option<SExpr> {
    match o {
        Some(e) => Some(e@),
        None => None,
    }
}

pub open spec fn tok_res(r: Result<Token, ParseError>) -> PRes<SToken> {
    match r {
        Ok(t) => Ok(t@),
        Err(x) => Err(x@),
    }
}

pub open spec fn toks_res(r: Result<Vec<Token>, ParseError>) -> PRes<Seq<SToken>> {
    match r {
        Ok(s) => Ok(toks_view(s)),
        Err(x) => Err(x@),
    }
}

pub open spec fn params_res(r: Result<(Vec<Token>, Vec<Stmt>), ParseError>) -> PRes<(Seq<SToken>, Seq<SStmt>)> {
    match r {
        Ok((p, b)) => Ok((toks_view(p), stmts_view(b))),
        Err(x) => Err(x@),
    }
}

/// Tokens as the scanner gives them: at least one, the last one the end of file.
pub open spec fn well_ended(t: Seq<SToken>) -> bool {
    t.len() > 0 && t.last().token_t == TokenT::EOF
}

/// The model of the statements `parse` returns for tokens `t` from state `st`,
/// and the state after: declarations up to the end of file; after a failed
/// declaration its error is reported and the parser skips to the next
/// statement boundary.
pub open spec fn g_parse(t: Seq<SToken>, st: PState, acc: Seq<SStmt>) -> (Seq<SStmt>, PState)
    decreases t.len() - st.pos,
    when 0 <= st.pos <= t.len()
{
    if st.pos >= t.len() || at_eof(t, st) {
        (acc, st)
    } else {
        let (d, st1) = g_declaration(t, st);
        match d {
            Ok(s) => if sfwd(t, st, st1) {
                g_parse(t, st1, acc.push(s))
            } else {
                (acc, st1)
            },
            Err(e) => {
                let st2 = g_sync(t, report(st1, e.tkn, e.msg));
                if sfwd(t, st, st2) {
                    g_parse(t, st2, acc)
                } else {
                    (acc, st2)
                }
            },
        }
    }
}

/// Skipping to the next statement boundary: past one token, then up to a
/// token after a semicolon or up to a statement keyword.
pub open spec fn g_sync(t: Seq<SToken>, st: PState) -> PState {
    if 0 <= st.pos < t.len() { g_sync_loop(t, adv(t, st)) } else { st }
}

pub open spec fn sync_stop_kind(k: TokenT) -> bool {
    match k {
        TokenT::Keyword(kw) => match kw {
            Keyword::Return | Keyword::Class | Keyword::For | Keyword::Fun | Keyword::Var
            | Keyword::If | Keyword::While => true,
            _ => false,
        },
        _ => false,
    }
}

pub open spec fn g_sync_loop(t: Seq<SToken>, st: PState) -> PState
    decreases t.len() - st.pos,
    when 0 <= st.pos <= t.len()
{
    if st.pos >= t.len() || at_eof(t, st) {
        st
    } else if prev(t, st).token_t == TokenT::Semicolon {
        st
    } else if sync_stop_kind(peek(t, st).token_t) {
        st
    } else {
        g_sync_loop(t, adv(t, st))
    }
}

/// Turns tokens into a syntax tree.
pub struct Parser {
    tkns: Vec<Token>,
    ptr: usize,
    loop_depth: usize,
    in_args: bool,
}

/// What each rule keeps: the tokens, the invariant, a position that does not
/// move back (and moves on when the rule succeeds), the loop depth after a
/// success, and the runtime-error flag.
pub open spec fn kept(p0: Parser, p1: Parser, l0: SLox, l1: SLox, ok: bool) -> bool {
    &&& p1.inv()
    &&& p1.tokens() == p0.tokens()
    &&& p0.position() <= p1.position()
    &&& ok ==> p0.position() < p1.position()
    &&& l1.had_runtime_err == l0.had_runtime_err
}

impl Parser {
    /// The tokens being parsed.
    pub closed spec fn tokens(&self) -> Seq<SToken> {
        toks_view(self.tkns)
    }

    pub closed spec fn position(&self) -> int {
        self.ptr as int
    }

    pub closed spec fn depth(&self) -> int {
        self.loop_depth as int
    }

    /// The state of the parse, in the terms of the model, with the reports
    /// held by `lox`.
    pub open spec fn pstate(&self, lox: SLox) -> PState {
        PState { pos: self.position(), depth: self.depth(), errs: lox.errors, perr: lox.had_parse_err }
    }

    /// The parser is in a state its methods accept.
    pub closed spec fn inv(&self) -> bool {
        &&& well_ended(self.tokens())
        &&& self.tkns.len() == self.tokens().len()
        &&& self.ptr < self.tkns.len()
    }

    /// A parser at the first of `tkns`, outside any loop.
    pub fn new(tkns: &Vec<Token>) -> (r: Parser)
        requires
            well_ended(toks_view(*tkns)),
        ensures
            r.inv(),
            r.tokens() == toks_view(*tkns),
            r.position() == 0,
            r.depth() == 0,
    {
        Parser { tkns: copy_tokens(tkns), ptr: 0, loop_depth: 0, in_args: false }
    }

    proof fn lemma_view(&self)
        requires
            self.inv(),
        ensures
            self.tokens()[self.position()] == self.tkns[self.ptr as int]@,
            self.ptr > 0 ==> self.tokens()[self.position() - 1] == self.tkns[self.ptr - 1]@,
            self.tokens().last() == self.tkns[self.tkns.len() - 1]@,
    {
    }

    /// Parses declarations up to the end of file. A failed declaration is
    /// reported to `lox` and the parser skips to the next statement boundary.
    /// Returns the parsed statements, or `None` when there are none.
    pub fn parse(&mut self, lox: &mut Lox) -> (r: Option<Vec<Stmt>>)
        requires
            old(self).inv(),
        ensures
            final(self).inv(),
            ({
                let (stmts, st) = g_parse(old(self).tokens(), old(self).pstate(old(lox)@), Seq::empty());
                &&& final(self).pstate(final(lox)@) == st
                &&& match r {
                    Some(v) => stmts_view(v) == stmts && stmts.len() > 0,
                    None => stmts.len() == 0,
                }
            }),
            final(lox)@.had_runtime_err == old(lox)@.had_runtime_err,
    {
        let ghost t = self.tokens();
        let ghost st0 = self.pstate(lox@);
        let mut stmts: Vec<Stmt> = Vec::new();
        assert(stmts_view(stmts) =~= Seq::<SStmt>::empty());
        while !self.eof()
            invariant
                self.inv(),
                self.tokens() == t,
                g_parse(t, st0, Seq::empty()) == g_parse(t, self.pstate(lox@), stmts_view(stmts)),
                lox@.had_runtime_err == old(lox)@.had_runtime_err,
            decreases t.len() - self.position(),
        {
            let ghost s0 = *self;
            let ghost l0 = lox@;
            let ghost acc = stmts_view(stmts);
            match self.declaration(lox) {
                Ok(stmt) => {
                    let ghost sv = stmt@;
                    stmts.push(stmt);
                    assert(stmts_view(stmts) =~= acc.push(sv));
                },
                Err(err) => {
                    self.error(lox, &err.tkn, err.msg.as_str());
                    self.sync();
                },
            }
        }
        if stmts.len() == 0 {
            None
        } else {
            Some(stmts)
        }
    }

    fn tkn_match(&mut self, tkns_t: &[TokenT]) -> (r: bool)
        requires
            old(self).inv(),
        ensures
            r == matches_any(old(self).tokens(), old(self).pstate(SLox { errors: Seq::empty(), had_parse_err: false, had_runtime_err: false }), tkns_t@),
            final(self).inv(),
            final(self).tkns == old(self).tkns,
            final(self).loop_depth == old(self).loop_depth,
            final(self).ptr == if r { old(self).ptr + 1 } else { old(self).ptr as int },
    {
        let mut i: usize = 0;
        while i < tkns_t.len()
            invariant
                *self == *old(self),
                self.inv(),
                i <= tkns_t@.len(),
                forall|j: int| 0 <= j < i ==> !self.check_spec(tkns_t@[j]),
            decreases tkns_t@.len() - i,
        {
            if self.check_cur(&tkns_t[i]) {
                self.advance();
                return true;
            }
            i += 1;
        }
        false
    }

    closed spec fn check_spec(&self, k: TokenT) -> bool {
        !(self.tokens()[self.position()].token_t == TokenT::EOF) && self.tokens()[self.position()].token_t == k
    }

    fn check_cur(&self, token_t: &TokenT) -> (r: bool)
        requires
            self.inv(),
        ensures
            r == self.check_spec(*token_t),
            r == check(self.tokens(), self.pstate(SLox { errors: Seq::empty(), had_parse_err: false, had_runtime_err: false }), *token_t),
    {
        if self.eof() {
            return false;
        }
        self.peek().token_t == *token_t
    }

    fn peek(&self) -> (r: &Token)
        requires
            self.inv(),
        ensures
            r@ == self.tokens()[self.position()],
    {
        &self.tkns[self.ptr]
    }

    fn previous(&self) -> (r: &Token)
        requires
            self.inv(),
            self.ptr > 0,
        ensures
            r@ == self.tokens()[self.position() - 1],
    {
        &self.tkns[self.ptr - 1]
    }

    fn advance(&mut self)
        requires
            old(self).inv(),
        ensures
            final(self).inv(),
            final(self).tkns == old(self).tkns,
            final(self).loop_depth == old(self).loop_depth,
            final(self).ptr == if old(self).tokens()[old(self).position()].token_t == TokenT::EOF {
                old(self).ptr as int
            } else {
                old(self).ptr + 1
            },
    {
        proof { self.lemma_view(); }
        if !self.eof() {
            self.ptr += 1;
        }
    }

    fn eof(&self) -> (r: bool)
        requires
            self.inv(),
        ensures
            r == (self.tokens()[self.position()].token_t == TokenT::EOF),
    {
        self.peek().token_t == TokenT::EOF
    }

    fn consume(&mut self, token_t: TokenT, msg: &str) -> (r: Result<Token, ParseError>)
        requires
            old(self).inv(),
        ensures
            check(old(self).tokens(), old(self).pstate(no_lox()), token_t) ==> r is Ok && final(self).ptr == old(self).ptr + 1
                && tok_res(r) == Ok::<SToken, SParseError>(old(self).tokens()[old(self).position()]),
            !check(old(self).tokens(), old(self).pstate(no_lox()), token_t) ==> r is Err && final(self).ptr == old(self).ptr
                && tok_res(r) == Err::<SToken, SParseError>(perr(old(self).tokens()[old(self).position()], msg@)),
            final(self).inv(),
            final(self).tkns == old(self).tkns,
            final(self).loop_depth == old(self).loop_depth,
    {
        if self.check_cur(&token_t) {
            let t = self.peek().copy();
            self.advance();
            return Ok(t);
        }
        let tkn = self.peek().copy();
        Err(ParseError::new(tkn, msg))
    }

    fn error(&self, lox: &mut Lox, tkn: &Token, msg: &str)
        ensures
            final(lox)@ == (SLox { errors: old(lox)@.errors.push(crate::lox::parse_report(tkn@, msg@)), had_parse_err: true, ..old(lox)@ }),
    {
        lox.error_parse(tkn, msg);
    }

    fn sync(&mut self)
        requires
            old(self).inv(),
        ensures
            final(self).inv(),
            final(self).tkns == old(self).tkns,
            final(self).loop_depth == old(self).loop_depth,
            forall|l: SLox| final(self).pstate(l) == g_sync(old(self).tokens(), old(self).pstate(l)),
            old(self).ptr <= final(self).ptr,
            old(self).tokens()[old(self).position()].token_t != TokenT::EOF ==> old(self).ptr < final(self).ptr,
    {
        self.advance();
        while !self.eof()
            invariant
                self.inv(),
                self.tkns == old(self).tkns,
                self.loop_depth == old(self).loop_depth,
                old(self).ptr <= self.ptr,
                old(self).tokens()[old(self).position()].token_t != TokenT::EOF ==> old(self).ptr < self.ptr,
                forall|l: SLox| g_sync(old(self).tokens(), old(self).pstate(l)) == g_sync_loop(self.tokens(), self.pstate(l)),
            decreases self.tokens().len() - self.position(),
        {
            if self.previous().token_t == TokenT::Semicolon {
                return;
            }
            match self.peek().token_t {
                TokenT::Keyword(kw) => match kw {
                    Keyword::Return | Keyword::Class | Keyword::For | Keyword::Fun | Keyword::Var
                    | Keyword::If | Keyword::While => return,
                    _ => self.advance(),
                },
                _ => self.advance(),
            }
        }
    }
}

fn pair(a: Stmt, b: Stmt) -> (r: Vec<Stmt>)
    ensures
        stmts_view(r) == seq![a@, b@],
{
    let mut v: Vec<Stmt> = Vec::new();
    v.push(a);
    v.push(b);
    assert(stmts_view(v) =~= seq![a@, b@]);
    v
}

/// The SLox that the token-level helpers speak of; they do not look at it.
pub open spec fn no_lox() -> SLox {
    SLox { errors: Seq::empty(), had_parse_err: false, had_runtime_err: false }
}

impl Parser {
    fn match_level(&mut self, l: Level) -> (r: bool)
        requires
            old(self).inv(),
        ensures
            r == matches_any(old(self).tokens(), old(self).pstate(no_lox()), level_ops(l)),
            final(self).inv(),
            final(self).tkns == old(self).tkns,
            final(self).loop_depth == old(self).loop_depth,
            final(self).ptr == if r { old(self).ptr + 1 } else { old(self).ptr as int },
    {
        let r = match l {
            Level::Or => {
                let a = [TokenT::Keyword(Keyword::Or)];
                assert(a@ =~= level_ops(l));
                self.tkn_match(&a)
            },
            Level::And => {
                let a = [TokenT::Keyword(Keyword::And)];
                assert(a@ =~= level_ops(l));
                self.tkn_match(&a)
            },
            Level::Equality => {
                let a = [TokenT::BangEqual, TokenT::EqualEqual];
                assert(a@ =~= level_ops(l));
                self.tkn_match(&a)
            },
            Level::Comparison => {
                let a = [TokenT::Greater, TokenT::GreaterEqual, TokenT::Less, TokenT::LessEqual];
                assert(a@ =~= level_ops(l));
                self.tkn_match(&a)
            },
            Level::Term => {
                let a = [TokenT::Plus, TokenT::Minus];
                assert(a@ =~= level_ops(l));
                self.tkn_match(&a)
            },
            Level::Factor => {
                let a = [TokenT::Slash, TokenT::Star];
                assert(a@ =~= level_ops(l));
                self.tkn_match(&a)
            },
        };
        r
    }

    fn level_next(&mut self, lox: &mut Lox, l: Level) -> (r: Result<Expr, ParseError>)
        requires
            old(self).inv(),
        ensures
            (expr_res(r), final(self).pstate(final(lox)@)) == level_next(old(self).tokens(), old(self).pstate(old(lox)@), l),
            kept(*old(self), *final(self), old(lox)@, final(lox)@, r is Ok),
        decreases old(self).tokens().len() - old(self).position(), level_rank(l) - 1,
    {
        match l {
            Level::Or => self.binary(lox, Level::And),
            Level::And => self.ternary(lox),
            Level::Equality => self.binary(lox, Level::Comparison),
            Level::Comparison => self.binary(lox, Level::Term),
            Level::Term => self.binary(lox, Level::Factor),
            Level::Factor => self.unary(lox),
        }
    }

    fn mk_bin(l: Level, left: Expr, op: Token, right: Expr) -> (r: Expr)
        ensures
            r@ == mk_bin(l, left@, op@, right@),
    {
        match l {
            Level::Or | Level::And => Expr::Logical { left: Box::new(left), op, right: Box::new(right) },
            _ => Expr::Binary { left: Box::new(left), op, right: Box::new(right) },
        }
    }

    /// One level of the binary operators (`or`, `and`, equality, comparison,
    /// term, factor): operands joined left to right.
    fn binary(&mut self, lox: &mut Lox, l: Level) -> (r: Result<Expr, ParseError>)
        requires
            old(self).inv(),
        ensures
            (expr_res(r), final(self).pstate(final(lox)@)) == g_binary(old(self).tokens(), old(self).pstate(old(lox)@), l),
            kept(*old(self), *final(self), old(lox)@, final(lox)@, r is Ok),
        decreases old(self).tokens().len() - old(self).position(), level_rank(l),
    {
        if self.match_level(l) {
            let err = Err(ParseError::new(self.previous().copy(), "Expect expression before operator."));
            let _ = self.level_next(lox, l);
            return err;
        }
        let e = self.level_next(lox, l);
        self.binary_tail(lox, l, e)
    }

    fn binary_tail(&mut self, lox: &mut Lox, l: Level, e: Result<Expr, ParseError>) -> (r: Result<Expr, ParseError>)
        requires
            old(self).inv(),
        ensures
            (expr_res(r), final(self).pstate(final(lox)@)) == g_binary_tail(old(self).tokens(), old(self).pstate(old(lox)@), l, expr_res(e)),
            kept(*old(self), *final(self), old(lox)@, final(lox)@, false),
            r is Ok ==> e is Ok,
        decreases old(self).tokens().len() - old(self).position(), level_rank(l) - 2,
    {
        let ghost t = self.tokens();
        let ghost target = g_binary_tail(t, self.pstate(lox@), l, expr_res(e));
        let mut expr = e;
        loop
            invariant
                t == old(self).tokens(),
                target == g_binary_tail(old(self).tokens(), old(self).pstate(old(lox)@), l, expr_res(e)),
                kept(*old(self), *self, old(lox)@, lox@, false),
                g_binary_tail(t, self.pstate(lox@), l, expr_res(expr)) == target,
                expr is Ok ==> e is Ok,
            decreases t.len() - self.position(),
        {
            if !self.match_level(l) {
                return expr;
            }
            let op = self.previous().copy();
            let right = self.level_next(lox, l)?;
            let left = expr?;
            expr = Ok(Self::mk_bin(l, left, op, right));
        }
    }

    /// Parses an expression.
    pub fn expression(&mut self, lox: &mut Lox) -> (r: Result<Expr, ParseError>)
        requires
            old(self).inv(),
        ensures
            (expr_res(r), final(self).pstate(final(lox)@)) == g_expression(old(self).tokens(), old(self).pstate(old(lox)@)),
            kept(*old(self), *final(self), old(lox)@, final(lox)@, r is Ok),
        decreases old(self).tokens().len() - old(self).position(), 30int,
    {
        self.assignment(lox)
    }

    #[verifier::rlimit(40)]
    fn assignment(&mut self, lox: &mut Lox) -> (r: Result<Expr, ParseError>)
        requires
            old(self).inv(),
        ensures
            (expr_res(r), final(self).pstate(final(lox)@)) == g_assignment(old(self).tokens(), old(self).pstate(old(lox)@)),
            kept(*old(self), *final(self), old(lox)@, final(lox)@, r is Ok),
        decreases old(self).tokens().len() - old(self).position(), 29int,
    {
        let expr = self.anon_fun(lox)?;
        if self.tkn_match(&[TokenT::Equal]) {
            let equals = self.previous().copy();
            let val = self.assignment(lox)?;
            match expr {
                Expr::Variable(var) => return Ok(Expr::Assign { name: var, val: Box::new(val) }),
                _ => self.error(lox, &equals, "Invalid assignment target."),
            }
        }
        Ok(expr)
    }

    #[verifier::rlimit(40)]
    fn anon_fun(&mut self, lox: &mut Lox) -> (r: Result<Expr, ParseError>)
        requires
            old(self).inv(),
        ensures
            (expr_res(r), final(self).pstate(final(lox)@)) == g_anon_fun(old(self).tokens(), old(self).pstate(old(lox)@)),
            kept(*old(self), *final(self), old(lox)@, final(lox)@, r is Ok),
        decreases old(self).tokens().len() - old(self).position(), 28int,
    {
        let expr = self.binary(lox, Level::Or);
        if self.tkn_match(&[TokenT::Keyword(Keyword::Fun)]) {
            self.consume(TokenT::LeftParen, "Expect '(' after 'fun'.")?;
            let (params, body) = self.parameters(lox, FunType::Function)?;
            return Ok(Expr::AnonFun { params, body });
        }
        expr
    }

    #[verifier::rlimit(40)]
    fn ternary(&mut self, lox: &mut Lox) -> (r: Result<Expr, ParseError>)
        requires
            old(self).inv(),
        ensures
            (expr_res(r), final(self).pstate(final(lox)@)) == g_ternary(old(self).tokens(), old(self).pstate(old(lox)@)),
            kept(*old(self), *final(self), old(lox)@, final(lox)@, r is Ok),
        decreases old(self).tokens().len() - old(self).position(), 23int,
    {
        let cond = self.binary(lox, Level::Equality);
        if self.tkn_match(&[TokenT::Query]) {
            let first = self.expression(lox)?;
            self.consume(TokenT::Colon, "Expect ':' after first expression.")?;
            let second = self.expression(lox)?;
            let c = cond?;
            return Ok(Expr::Ternary { cond: Box::new(c), first: Box::new(first), second: Box::new(second) });
        }
        cond
    }

    fn unary(&mut self, lox: &mut Lox) -> (r: Result<Expr, ParseError>)
        requires
            old(self).inv(),
        ensures
            (expr_res(r), final(self).pstate(final(lox)@)) == g_unary(old(self).tokens(), old(self).pstate(old(lox)@)),
            kept(*old(self), *final(self), old(lox)@, final(lox)@, r is Ok),
        decreases old(self).tokens().len() - old(self).position(), 14int,
    {
        if self.tkn_match(&[TokenT::Bang, TokenT::Minus]) {
            let op = self.previous().copy();
            let right = self.unary(lox)?;
            return Ok(Expr::Unary { op, right: Box::new(right) });
        }
        self.call(lox)
    }

    #[verifier::rlimit(40)]
    fn call(&mut self, lox: &mut Lox) -> (r: Result<Expr, ParseError>)
        requires
            old(self).inv(),
        ensures
            (expr_res(r), final(self).pstate(final(lox)@)) == g_call(old(self).tokens(), old(self).pstate(old(lox)@)),
            kept(*old(self), *final(self), old(lox)@, final(lox)@, r is Ok),
        decreases old(self).tokens().len() - old(self).position(), 13int,
    {
        let ghost t = self.tokens();
        let mut expr = self.primary(lox);
        let ghost target = g_call_loop(t, self.pstate(lox@), expr_res(expr));
        let ghost ok0 = expr is Ok;
        assert(target == g_call(old(self).tokens(), old(self).pstate(old(lox)@)));
        loop
            invariant
                t == old(self).tokens(),
                target == g_call(old(self).tokens(), old(self).pstate(old(lox)@)),
                kept(*old(self), *self, old(lox)@, lox@, ok0),
                g_call_loop(t, self.pstate(lox@), expr_res(expr)) == target,
                expr is Ok ==> ok0,
            decreases t.len() - self.position(),
        {
            if self.tkn_match(&[TokenT::LeftParen]) {
                let callee = expr?;
                expr = self.finish_call(lox, callee);
            } else {
                return expr;
            }
        }
    }

    #[verifier::rlimit(40)]
    fn finish_call(&mut self, lox: &mut Lox, callee: Expr) -> (r: Result<Expr, ParseError>)
        requires
            old(self).inv(),
        ensures
            (expr_res(r), final(self).pstate(final(lox)@)) == g_finish_call(old(self).tokens(), old(self).pstate(old(lox)@), callee@),
            kept(*old(self), *final(self), old(lox)@, final(lox)@, r is Ok),
        decreases old(self).tokens().len() - old(self).position(), 32int,
    {
        let mut args: Vec<Expr> = Vec::new();
        assert(exprs_view(args) =~= Seq::<SExpr>::empty());
        if !self.check_cur(&TokenT::RightParen) {
            let first = self.expression(lox)?;
            args = self.args(lox, first)?;
        }
        if args.len() >= 255 {
            let p = self.peek().copy();
            self.error(lox, &p, "Can't have more than 255 arguments");
        }
        let paren = self.consume(TokenT::RightParen, "Expect ')' after arguments")?;
        Ok(Expr::Call { callee: Box::new(callee), paren, args })
    }

    fn args(&mut self, lox: &mut Lox, first: Expr) -> (r: Result<Vec<Expr>, ParseError>)
        requires
            old(self).inv(),
        ensures
            (exprs_res(r), final(self).pstate(final(lox)@)) == g_args(old(self).tokens(), old(self).pstate(old(lox)@), seq![first@]),
            kept(*old(self), *final(self), old(lox)@, final(lox)@, false),
        decreases old(self).tokens().len() - old(self).position(), 31int,
    {
        let ghost t = self.tokens();
        let ghost target = g_args(t, self.pstate(lox@), seq![first@]);
        let mut args: Vec<Expr> = Vec::new();
        let ghost fv = first@;
        args.push(first);
        assert(exprs_view(args) =~= seq![fv]);
        loop
            invariant
                t == old(self).tokens(),
                target == g_args(old(self).tokens(), old(self).pstate(old(lox)@), seq![first@]),
                kept(*old(self), *self, old(lox)@, lox@, false),
                g_args(t, self.pstate(lox@), exprs_view(args)) == target,
            decreases t.len() - self.position(),
        {
            if !self.tkn_match(&[TokenT::Comma]) {
                return Ok(args);
            }
            let e = self.expression(lox)?;
            let ghost acc = exprs_view(args);
            let ghost ev = e@;
            args.push(e);
            assert(exprs_view(args) =~= acc.push(ev));
        }
    }

    #[verifier::rlimit(40)]
    fn primary(&mut self, lox: &mut Lox) -> (r: Result<Expr, ParseError>)
        requires
            old(self).inv(),
        ensures
            (expr_res(r), final(self).pstate(final(lox)@)) == g_primary(old(self).tokens(), old(self).pstate(old(lox)@)),
            kept(*old(self), *final(self), old(lox)@, final(lox)@, r is Ok),
        decreases old(self).tokens().len() - old(self).position(), 11int,
    {
        if self.tkn_match(&[TokenT::Keyword(Keyword::Nil), TokenT::Keyword(Keyword::True), TokenT::Keyword(Keyword::False), TokenT::Literal]) {
            return Ok(Expr::Literal(self.previous().lit.copy()));
        }
        if self.tkn_match(&[TokenT::Identifier]) {
            return Ok(Expr::Variable(self.previous().copy()));
        }
        if self.tkn_match(&[TokenT::LeftParen]) {
            let expr = self.expression(lox);
            self.consume(TokenT::RightParen, "Expect ')' after expression.")?;
            let inner = expr?;
            return Ok(Expr::Grouping(Box::new(inner)));
        }
        Err(ParseError::new(self.peek().copy(), "Expect expression."))
    }

    /// Parses a declaration: a variable, a function, or a statement.
    pub fn declaration(&mut self, lox: &mut Lox) -> (r: Result<Stmt, ParseError>)
        requires
            old(self).inv(),
        ensures
            (stmt_res(r), final(self).pstate(final(lox)@)) == g_declaration(old(self).tokens(), old(self).pstate(old(lox)@)),
            kept(*old(self), *final(self), old(lox)@, final(lox)@, r is Ok),
        decreases old(self).tokens().len() - old(self).position(), 45int,
    {
        if self.tkn_match(&[TokenT::Keyword(Keyword::Var)]) {
            return self.var_decl(lox);
        }
        if self.tkn_match(&[TokenT::Keyword(Keyword::Fun)]) {
            return self.fun_decl(lox, FunType::Function);
        }
        self.statement(lox)
    }

    #[verifier::rlimit(40)]
    fn var_decl(&mut self, lox: &mut Lox) -> (r: Result<Stmt, ParseError>)
        requires
            old(self).inv(),
        ensures
            (stmt_res(r), final(self).pstate(final(lox)@)) == g_var_decl(old(self).tokens(), old(self).pstate(old(lox)@)),
            kept(*old(self), *final(self), old(lox)@, final(lox)@, r is Ok),
        decreases old(self).tokens().len() - old(self).position(), 40int,
    {
        let name = self.consume(TokenT::Identifier, "Expect variable name.")?;
        let mut init: Option<Expr> = None;
        if self.tkn_match(&[TokenT::Equal]) {
            init = Some(self.expression(lox)?);
        }
        self.consume(TokenT::Semicolon, "Expect ';' after variable declaration.")?;
        Ok(Stmt::Var { name, init })
    }

    #[verifier::rlimit(40)]
    fn fun_decl(&mut self, lox: &mut Lox, fun_t: FunType) -> (r: Result<Stmt, ParseError>)
        requires
            old(self).inv(),
        ensures
            (stmt_res(r), final(self).pstate(final(lox)@)) == g_fun_decl(old(self).tokens(), old(self).pstate(old(lox)@), fun_t),
            kept(*old(self), *final(self), old(lox)@, final(lox)@, r is Ok),
        decreases old(self).tokens().len() - old(self).position(), 46int,
    {
        if !self.check_cur(&TokenT::Identifier) {
            return self.statement(lox);
        }
        let mut m1 = string_of("Expect ");
        m1.append(fun_t.to_string().as_str());
        m1.append(" name.");
        let name = self.consume(TokenT::Identifier, m1.as_str())?;
        let mut m2 = string_of("Expect '(' after ");
        m2.append(fun_t.to_string().as_str());
        m2.append(" name.");
        self.consume(TokenT::LeftParen, m2.as_str())?;
        let (params, body) = self.parameters(lox, fun_t)?;
        Ok(Stmt::Function { name, params, body })
    }

    /// Parses a statement.
    #[verifier::rlimit(100)]
    pub fn statement(&mut self, lox: &mut Lox) -> (r: Result<Stmt, ParseError>)
        requires
            old(self).inv(),
        ensures
            (stmt_res(r), final(self).pstate(final(lox)@)) == g_statement(old(self).tokens(), old(self).pstate(old(lox)@)),
            kept(*old(self), *final(self), old(lox)@, final(lox)@, r is Ok),
        decreases old(self).tokens().len() - old(self).position(), 44int,
    {
        if self.tkn_match(&[TokenT::Keyword(Keyword::Print)]) {
            return self.print_stmt(lox);
        }
        if self.tkn_match(&[TokenT::Keyword(Keyword::If)]) {
            return self.if_stmt(lox);
        }
        if self.tkn_match(&[TokenT::Keyword(Keyword::While)]) {
            return self.while_stmt(lox);
        }
        if self.tkn_match(&[TokenT::Keyword(Keyword::For)]) {
            return self.for_stmt(lox);
        }
        if self.tkn_match(&[TokenT::LeftBrace]) {
            return self.block_stmt(lox);
        }
        if self.tkn_match(&[TokenT::Keyword(Keyword::Break)]) {
            return self.break_stmt(lox);
        }
        if self.tkn_match(&[TokenT::Keyword(Keyword::Return)]) {
            return self.return_stmt(lox);
        }
        self.expr_stmt(lox)
    }

    fn expr_semi(&mut self, lox: &mut Lox) -> (r: Result<Expr, ParseError>)
        requires
            old(self).inv(),
        ensures
            (expr_res(r), final(self).pstate(final(lox)@)) == g_expr_semi(old(self).tokens(), old(self).pstate(old(lox)@)),
            kept(*old(self), *final(self), old(lox)@, final(lox)@, r is Ok),
        decreases old(self).tokens().len() - old(self).position(), 35int,
    {
        let value = self.expression(lox)?;
        self.consume(TokenT::Semicolon, "Expect ';' after value.")?;
        Ok(value)
    }

    fn print_stmt(&mut self, lox: &mut Lox) -> (r: Result<Stmt, ParseError>)
        requires
            old(self).inv(),
        ensures
            (stmt_res(r), final(self).pstate(final(lox)@)) == g_print_stmt(old(self).tokens(), old(self).pstate(old(lox)@)),
            kept(*old(self), *final(self), old(lox)@, final(lox)@, r is Ok),
        decreases old(self).tokens().len() - old(self).position(), 40int,
    {
        let value = self.expr_semi(lox)?;
        Ok(Stmt::Print(value))
    }

    fn expr_stmt(&mut self, lox: &mut Lox) -> (r: Result<Stmt, ParseError>)
        requires
            old(self).inv(),
        ensures
            (stmt_res(r), final(self).pstate(final(lox)@)) == g_expr_stmt(old(self).tokens(), old(self).pstate(old(lox)@)),
            kept(*old(self), *final(self), old(lox)@, final(lox)@, r is Ok),
        decreases old(self).tokens().len() - old(self).position(), 40int,
    {
        let expr = self.expr_semi(lox)?;
        Ok(Stmt::Expression(expr))
    }

    #[verifier::rlimit(40)]
    fn cond(&mut self, lox: &mut Lox, open_msg: &str, close_msg: &str) -> (r: Result<Expr, ParseError>)
        requires
            old(self).inv(),
        ensures
            (expr_res(r), final(self).pstate(final(lox)@)) == g_cond(old(self).tokens(), old(self).pstate(old(lox)@), open_msg@, close_msg@),
            kept(*old(self), *final(self), old(lox)@, final(lox)@, r is Ok),
        decreases old(self).tokens().len() - old(self).position(), 39int,
    {
        self.consume(TokenT::LeftParen, open_msg)?;
        let cond = self.expression(lox)?;
        self.consume(TokenT::RightParen, close_msg)?;
        Ok(cond)
    }

    #[verifier::rlimit(40)]
    fn if_stmt(&mut self, lox: &mut Lox) -> (r: Result<Stmt, ParseError>)
        requires
            old(self).inv(),
        ensures
            (stmt_res(r), final(self).pstate(final(lox)@)) == g_if_stmt(old(self).tokens(), old(self).pstate(old(lox)@)),
            kept(*old(self), *final(self), old(lox)@, final(lox)@, r is Ok),
        decreases old(self).tokens().len() - old(self).position(), 40int,
    {
        let cond = self.cond(lox, "Expect '(' after 'if'.", "Expext ')' after if condition.")?;
        let then = self.statement(lox)?;
        let mut else_opt: Option<Box<Stmt>> = None;
        if self.tkn_match(&[TokenT::Keyword(Keyword::Else)]) {
            else_opt = Some(Box::new(self.statement(lox)?));
        }
        Ok(Stmt::If { cond, then_br: Box::new(then), else_br: else_opt })
    }

    fn loop_body(&mut self, lox: &mut Lox) -> (r: Result<Stmt, ParseError>)
        requires
            old(self).inv(),
        ensures
            (stmt_res(r), final(self).pstate(final(lox)@)) == g_loop_body(old(self).tokens(), old(self).pstate(old(lox)@)),
            kept(*old(self), *final(self), old(lox)@, final(lox)@, r is Ok),
        decreases old(self).tokens().len() - old(self).position(), 47int,
    {
        if self.loop_depth < usize::MAX {
            self.loop_depth += 1;
        }
        let body = self.statement(lox)?;
        if self.loop_depth > 0 {
            self.loop_depth -= 1;
        }
        Ok(body)
    }

    #[verifier::rlimit(40)]
    fn while_stmt(&mut self, lox: &mut Lox) -> (r: Result<Stmt, ParseError>)
        requires
            old(self).inv(),
        ensures
            (stmt_res(r), final(self).pstate(final(lox)@)) == g_while_stmt(old(self).tokens(), old(self).pstate(old(lox)@)),
            kept(*old(self), *final(self), old(lox)@, final(lox)@, r is Ok),
        decreases old(self).tokens().len() - old(self).position(), 40int,
    {
        let cond = self.cond(lox, "Expect '(' after 'while'.", "Expext ')' after while condition.")?;
        let block = self.loop_body(lox)?;
        Ok(Stmt::While { cond, block: Box::new(block) })
    }

    fn opt_expr(&mut self, lox: &mut Lox, stop: TokenT) -> (r: Result<Option<Expr>, ParseError>)
        requires
            old(self).inv(),
        ensures
            (opt_expr_res(r), final(self).pstate(final(lox)@)) == g_opt_expr(old(self).tokens(), old(self).pstate(old(lox)@), stop),
            kept(*old(self), *final(self), old(lox)@, final(lox)@, false),
            r matches Ok(Some(_)) ==> old(self).position() < final(self).position(),
        decreases old(self).tokens().len() - old(self).position(), 39int,
    {
        if !self.check_cur(&stop) {
            let e = self.expression(lox)?;
            return Ok(Some(e));
        }
        Ok(None)
    }

    fn for_stmt(&mut self, lox: &mut Lox) -> (r: Result<Stmt, ParseError>)
        requires
            old(self).inv(),
        ensures
            (stmt_res(r), final(self).pstate(final(lox)@)) == g_for_stmt(old(self).tokens(), old(self).pstate(old(lox)@)),
            kept(*old(self), *final(self), old(lox)@, final(lox)@, r is Ok),
        decreases old(self).tokens().len() - old(self).position(), 40int,
    {
        self.consume(TokenT::LeftParen, "Expect '(' after 'while'.")?;
        let init = self.for_init(lox)?;
        self.for_tail(lox, init)
    }

    fn for_init(&mut self, lox: &mut Lox) -> (r: Result<Stmt, ParseError>)
        requires
            old(self).inv(),
        ensures
            (stmt_res(r), final(self).pstate(final(lox)@)) == g_for_init(old(self).tokens(), old(self).pstate(old(lox)@)),
            kept(*old(self), *final(self), old(lox)@, final(lox)@, r is Ok),
        decreases old(self).tokens().len() - old(self).position(), 41int,
    {
        if self.tkn_match(&[TokenT::Keyword(Keyword::Var)]) {
            self.var_decl(lox)
        } else {
            self.expr_stmt(lox)
        }
    }

    #[verifier::rlimit(100)]
    fn for_tail(&mut self, lox: &mut Lox, init: Stmt) -> (r: Result<Stmt, ParseError>)
        requires
            old(self).inv(),
        ensures
            (stmt_res(r), final(self).pstate(final(lox)@)) == g_for_tail(old(self).tokens(), old(self).pstate(old(lox)@), init@),
            kept(*old(self), *final(self), old(lox)@, final(lox)@, r is Ok),
        decreases old(self).tokens().len() - old(self).position(), 41int,
    {
        let cond = self.opt_expr(lox, TokenT::Semicolon)?;
        self.consume(TokenT::Semicolon, "Expect ';' after loop condition.")?;
        let incr = self.opt_expr(lox, TokenT::RightParen)?;
        self.consume(TokenT::RightParen, "Expect ')' after for clauses.")?;
        let body = self.loop_body(lox)?;
        let ghost bv = body@;
        let ghost iv = opt_expr_view(incr);
        let ghost cv = opt_expr_view(cond);
        let body1 = match incr {
            Some(incr) => {
                let ghost ie = incr@;
                let e = Stmt::Expression(incr);
                assert(e@ == SStmt::Expression(ie));
                let b = Stmt::Block(pair(body, e));
                assert(b@ == SStmt::Block(seq![bv, SStmt::Expression(ie)]));
                b
            },
            None => body,
        };
        let ghost b1 = body1@;
        let ghost b1x = match iv { Some(i) => SStmt::Block(seq![bv, SStmt::Expression(i)]), None => bv };
        assert(b1 == b1x);
        let c = match cond {
            Some(cond) => cond,
            None => {
                let b = crate::frontend::lexer::token::LitVal::Boolean(true);
                assert(b@ == crate::frontend::lexer::token::SLit::Bool(true));
                let l = Expr::Literal(b);
                assert(l@ == SExpr::Literal(crate::frontend::lexer::token::SLit::Bool(true)));
                l
            },
        };
        let ghost c1 = c@;
        assert(c1 == match cv { Some(x) => x, None => SExpr::Literal(crate::frontend::lexer::token::SLit::Bool(true)) });
        let w = Stmt::While { cond: c, block: Box::new(body1) };
        assert(w@ == SStmt::While { cond: c1, block: Box::new(b1) });
        let ghost initv = init@;
        let r = Stmt::Block(pair(init, w));
        assert(r@ == SStmt::Block(seq![initv, w@]));
        assert(r@ == desugar_for(initv, cv, iv, bv));
        Ok(r)
    }

    fn break_stmt(&mut self, lox: &mut Lox) -> (r: Result<Stmt, ParseError>)
        requires
            old(self).inv(),
            old(self).ptr > 0,
        ensures
            (stmt_res(r), final(self).pstate(final(lox)@)) == g_break_stmt(old(self).tokens(), old(self).pstate(old(lox)@)),
            kept(*old(self), *final(self), old(lox)@, final(lox)@, r is Ok),
    {
        if self.loop_depth == 0 {
            return Err(ParseError::new(self.previous().copy(), "'break' outside of loop."));
        }
        self.consume(TokenT::Semicolon, "Expect ';' after 'break'")?;
        Ok(Stmt::Break)
    }

    #[verifier::rlimit(40)]
    fn return_stmt(&mut self, lox: &mut Lox) -> (r: Result<Stmt, ParseError>)
        requires
            old(self).inv(),
            old(self).ptr > 0,
        ensures
            (stmt_res(r), final(self).pstate(final(lox)@)) == g_return_stmt(old(self).tokens(), old(self).pstate(old(lox)@)),
            kept(*old(self), *final(self), old(lox)@, final(lox)@, r is Ok),
        decreases old(self).tokens().len() - old(self).position(), 40int,
    {
        let key = self.previous().copy();
        let val = self.opt_expr(lox, TokenT::Semicolon)?;
        self.consume(TokenT::Semicolon, "Expect ';' after return value.")?;
        Ok(Stmt::Return { key, val })
    }

    fn block_stmt(&mut self, lox: &mut Lox) -> (r: Result<Stmt, ParseError>)
        requires
            old(self).inv(),
        ensures
            (stmt_res(r), final(self).pstate(final(lox)@)) == g_block_stmt(old(self).tokens(), old(self).pstate(old(lox)@)),
            kept(*old(self), *final(self), old(lox)@, final(lox)@, r is Ok),
        decreases old(self).tokens().len() - old(self).position(), 52int,
    {
        let stmts = self.block(lox)?;
        Ok(Stmt::Block(stmts))
    }

    fn block(&mut self, lox: &mut Lox) -> (r: Result<Vec<Stmt>, ParseError>)
        requires
            old(self).inv(),
        ensures
            (stmts_res(r), final(self).pstate(final(lox)@)) == g_block(old(self).tokens(), old(self).pstate(old(lox)@)),
            kept(*old(self), *final(self), old(lox)@, final(lox)@, r is Ok),
        decreases old(self).tokens().len() - old(self).position(), 51int,
    {
        let stmts = self.block_items(lox)?;
        self.consume(TokenT::RightBrace, "Expect '}' after block.")?;
        Ok(stmts)
    }

    #[verifier::rlimit(40)]
    fn block_items(&mut self, lox: &mut Lox) -> (r: Result<Vec<Stmt>, ParseError>)
        requires
            old(self).inv(),
        ensures
            (stmts_res(r), final(self).pstate(final(lox)@)) == g_block_items(old(self).tokens(), old(self).pstate(old(lox)@), Seq::empty()),
            kept(*old(self), *final(self), old(lox)@, final(lox)@, false),
        decreases old(self).tokens().len() - old(self).position(), 50int,
    {
        let ghost t = self.tokens();
        let mut stmts: Vec<Stmt> = Vec::new();
        assert(stmts_view(stmts) =~= Seq::<SStmt>::empty());
        let ghost target = g_block_items(t, self.pstate(lox@), Seq::empty());
        loop
            invariant
                t == old(self).tokens(),
                target == g_block_items(old(self).tokens(), old(self).pstate(old(lox)@), Seq::empty()),
                kept(*old(self), *self, old(lox)@, lox@, false),
                g_block_items(t, self.pstate(lox@), stmts_view(stmts)) == target,
            decreases t.len() - self.position(),
        {
            if self.check_cur(&TokenT::RightBrace) {
                return Ok(stmts);
            }
            let d = self.declaration(lox)?;
            let ghost acc = stmts_view(stmts);
            let ghost dv = d@;
            stmts.push(d);
            assert(stmts_view(stmts) =~= acc.push(dv));
        }
    }

    #[verifier::rlimit(40)]
    fn param_names(&mut self, lox: &mut Lox) -> (r: Result<Vec<Token>, ParseError>)
        requires
            old(self).inv(),
        ensures
            (toks_res(r), final(self).pstate(final(lox)@)) == g_param_names(old(self).tokens(), old(self).pstate(old(lox)@), Seq::empty()),
            kept(*old(self), *final(self), old(lox)@, final(lox)@, r is Ok),
    {
        let ghost t = self.tokens();
        let mut params: Vec<Token> = Vec::new();
        assert(toks_view(params) =~= Seq::<SToken>::empty());
        let ghost target = g_param_names(t, self.pstate(lox@), Seq::empty());
        loop
            invariant
                t == old(self).tokens(),
                target == g_param_names(old(self).tokens(), old(self).pstate(old(lox)@), Seq::empty()),
                kept(*old(self), *self, old(lox)@, lox@, params.len() > 0),
                g_param_names(t, self.pstate(lox@), toks_view(params)) == target,
            decreases t.len() - self.position(),
        {
            if params.len() >= 255 {
                let p = self.peek().copy();
                self.error(lox, &p, "Can't have more than 255 parameters.");
            }
            let name = self.consume(TokenT::Identifier, "Expect parameter name.")?;
            let ghost acc = toks_view(params);
            let ghost nv = name@;
            params.push(name);
            assert(toks_view(params) =~= acc.push(nv));
            if !self.tkn_match(&[TokenT::Comma]) {
                return Ok(params);
            }
        }
    }

    #[verifier::rlimit(40)]
    fn parameters(&mut self, lox: &mut Lox, fun_t: FunType) -> (r: Result<(Vec<Token>, Vec<Stmt>), ParseError>)
        requires
            old(self).inv(),
        ensures
            (params_res(r), final(self).pstate(final(lox)@)) == g_parameters(old(self).tokens(), old(self).pstate(old(lox)@), fun_t),
            kept(*old(self), *final(self), old(lox)@, final(lox)@, r is Ok),
        decreases old(self).tokens().len() - old(self).position(), 55int,
    {
        let mut params: Vec<Token> = Vec::new();
        assert(toks_view(params) =~= Seq::<SToken>::empty());
        if !self.check_cur(&TokenT::RightParen) {
            params = self.param_names(lox)?;
        }
        self.consume(TokenT::RightParen, "Expect ')' after parameters.")?;
        let mut m = string_of("Expect '{' before ");
        m.append(fun_t.to_string().as_str());
        m.append(" body.");
        self.consume(TokenT::LeftBrace, m.as_str())?;
        let body = self.block(lox)?;
        Ok((params, body))
    }
}

} // verus!
