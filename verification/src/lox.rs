use vstd::prelude::*;

use crate::backend::interpreter::Interpreter;
use crate::backend::interpreter::callable::SFun;
use crate::backend::interpreter::record::{answers, extends, grows, lemma_grows_refl};
use crate::backend::interpreter::semantics::{HostReq, IState, empty_scope, sem_eval, sem_program};
use crate::backend::interpreter::reports;
use crate::error::{LoxErr, RuntimeError, SRuntimeError};
use crate::frontend::lexer::{SScan, Scanner, spec_scan};
use crate::frontend::lexer::token::{LitVal, SLit, Token, TokenT, SToken, spec_lit_to_string, string_of, toks_view};
use crate::frontend::parser::{Parser, g_parse};
use crate::frontend::parser::grammar::g_expression;
use crate::frontend::parser::expr::strs_view;
use crate::frontend::parser::stmt::{SStmt, Stmt, stmts_view};
use crate::frontend::parser::well_ended;
use crate::backend::interpreter::{Fault, fault_view};
use crate::backend::interpreter::semantics::SFault;
use crate::frontend::parser::grammar::PState;

verus! {

broadcast use crate::backend::interpreter::record::lemma_extends_trans, crate::backend::interpreter::record::lemma_grows_trans;

/// The digit `d` (below ten) as a character.
pub open spec fn digit_char(d: nat) -> char {
    if d == 0 { '0' } else if d == 1 { '1' } else if d == 2 { '2' } else if d == 3 { '3' }
    else if d == 4 { '4' } else if d == 5 { '5' } else if d == 6 { '6' } else if d == 7 { '7' }
    else if d == 8 { '8' } else { '9' }
}

/// The decimal text of `n`, without leading zeros.
pub open spec fn decimal(n: nat) -> Seq<char>
    decreases n,
{
    if n < 10 {
        seq![digit_char(n)]
    } else {
        decimal(n / 10).push(digit_char(n % 10))
    }
}

/// The report of an error found while scanning: `[line N] Error: msg`.
pub open spec fn simple_report(ln: nat, msg: Seq<char>) -> Seq<char> {
    "[line "@ + decimal(ln) + "] Error"@ + ": "@ + msg
}

/// The report of a syntax error at `tkn`.
pub open spec fn parse_report(tkn: SToken, msg: Seq<char>) -> Seq<char> {
    if tkn.token_t == TokenT::EOF {
        "[line "@ + decimal(tkn.ln as nat) + "] Error"@ + " at end"@ + ": "@ + msg
    } else {
        "[line "@ + decimal(tkn.ln as nat) + "] Error at "@ + tkn.lex + ": "@ + msg
    }
}

/// The report of a runtime error.
pub open spec fn runtime_report(err: SRuntimeError) -> Seq<char> {
    err.msg + "\n[line "@ + decimal(err.tkn.ln as nat) + "]"@
}

/// Appends `c` to `s` with `String::push`, which vstd gives no contract: the
/// contract below, that the text of `s` afterwards is the text before followed
/// by `c`, is taken on trust from the standard library's documentation.
#[verifier::external_body]
pub(crate) fn push_char(s: &mut String, c: char)
    ensures
        final(s)@ == old(s)@.push(c),
{
    s.push(c)
}

fn digit(d: usize) -> (c: char)
    requires
        d < 10,
    ensures
        c == digit_char(d as nat),
{
    if d == 0 { '0' } else if d == 1 { '1' } else if d == 2 { '2' } else if d == 3 { '3' }
    else if d == 4 { '4' } else if d == 5 { '5' } else if d == 6 { '6' } else if d == 7 { '7' }
    else if d == 8 { '8' } else { '9' }
}

/// Appends the decimal text of `n` to `s`.
pub fn push_decimal(s: &mut String, n: usize)
    ensures
        final(s)@ == old(s)@ + decimal(n as nat),
    decreases n,
{
    if n >= 10 {
        push_decimal(s, n / 10);
    }
    push_char(s, digit(n % 10));
    proof {
        if n >= 10 {
            assert(decimal(n as nat) == decimal((n / 10) as nat).push(digit_char((n % 10) as nat)));
        } else {
            assert(decimal(n as nat) == seq![digit_char(n as nat)]);
        }
    }
    assert(s@ =~= old(s)@ + decimal(n as nat));
}

/// The exit status after a syntax error in a program.
pub const DATA_FORMAT_ERROR: i32 = 65;

/// The exit status after a runtime error.
pub const INTERNAL_SOFTWARE_ERROR: i32 = 70;

/// A line that a run writes: output of the program, or a report of an error.
#[derive(Debug)]
pub enum Output {
    Print(String),
    Report(String),
}

/// The model of a line that a run writes.
pub enum SOutput {
    Print(Seq<char>),
    Report(Seq<char>),
}

impl View for Output {
    type V = SOutput;

    open spec fn view(&self) -> SOutput {
        match *self {
            Output::Print(s) => SOutput::Print(s@),
            Output::Report(s) => SOutput::Report(s@),
        }
    }
}

pub open spec fn outputs_view(v: Seq<Output>) -> Seq<SOutput> {
    Seq::new(v.len(), |i: int| v[i]@)
}

/// Each message as a report.
pub open spec fn reports_of(msgs: Seq<Seq<char>>) -> Seq<SOutput> {
    Seq::new(msgs.len(), |i: int| SOutput::Report(msgs[i]))
}

/// Each line as program output.
pub open spec fn prints_of(lines: Seq<Seq<char>>) -> Seq<SOutput> {
    Seq::new(lines.len(), |i: int| SOutput::Print(lines[i]))
}

/// The state a program starts in: `clock` bound in the global scope.
pub open spec fn program_start() -> IState {
    IState {
        env: seq![seq![("clock"@, SLit::Fun(Box::new(SFun::Native { id: 0, arity: 0 })))]],
        next_id: 1,
        trace: Seq::empty(),
        out: Seq::empty(),
    }
}

/// The state a lone expression is evaluated in: an empty global scope.
pub open spec fn expression_start() -> IState {
    IState { env: seq![empty_scope()], next_id: 1, trace: Seq::empty(), out: Seq::empty() }
}

/// A run of `code` from the reporter `lox` when the host's answers are `ans`:
/// the status it ends with, the lines it writes, in order, and the reporter
/// after it. The reports of the scan come first; then the statements run,
/// or, when there are none, the code is read as one expression.
pub open spec fn sem_run(code: Seq<char>, fuel: nat, ans: Seq<SLit>, lox: SLox) -> (Option<i32>, Seq<SOutput>, SLox) {
    let sc = spec_scan(code, SScan { cur: 0, ln: 1, toks: Seq::empty(), errs: Seq::empty() });
    let rep = reports_of(lox.errors + sc.errs);
    let (stmts, pst) = g_parse(sc.toks, PState { pos: 0, depth: 0, errs: Seq::empty(), perr: lox.had_parse_err }, Seq::empty());
    let parsed = SLox { errors: pst.errs, had_parse_err: pst.perr, had_runtime_err: lox.had_runtime_err };
    let r = if stmts.len() > 0 {
        sem_run_program(fuel, ans, stmts, parsed)
    } else {
        sem_run_expression(fuel, ans, sc.toks, parsed)
    };
    (r.0, rep + r.1, r.2)
}

/// Running parsed statements from the reporter `lox`: with a syntax error
/// recorded the reports are written and the status is 65; otherwise the
/// statements run and what they print is written, and a runtime error, now
/// or before, writes the reports and gives status 70.
pub open spec fn sem_run_program(fuel: nat, ans: Seq<SLit>, stmts: Seq<SStmt>, lox: SLox) -> (Option<i32>, Seq<SOutput>, SLox) {
    if lox.had_parse_err {
        (Some(DATA_FORMAT_ERROR), reports_of(lox.errors),
            SLox { errors: Seq::empty(), had_parse_err: true, had_runtime_err: lox.had_runtime_err })
    } else {
        let (errs, _, st) = sem_program(fuel, ans, program_start(), stmts, 0);
        let errors = lox.errors + reports(errs);
        let printed = prints_of(st.out);
        if lox.had_runtime_err || errs.len() > 0 {
            (Some(INTERNAL_SOFTWARE_ERROR), printed + reports_of(errors),
                SLox { errors: Seq::empty(), had_parse_err: false, had_runtime_err: true })
        } else {
            (None, printed, SLox { errors, had_parse_err: false, had_runtime_err: false })
        }
    }
}

/// Reading the tokens as one expression from the reporter `lox`: its value
/// is printed; when it fails to parse or to evaluate, the reports are written.
pub open spec fn sem_run_expression(fuel: nat, ans: Seq<SLit>, toks: Seq<SToken>, lox: SLox) -> (Option<i32>, Seq<SOutput>, SLox) {
    let (e, pst) = g_expression(toks, PState { pos: 0, depth: 0, errs: lox.errors, perr: lox.had_parse_err });
    let flushed = SLox { errors: Seq::empty(), had_parse_err: pst.perr, had_runtime_err: lox.had_runtime_err };
    match e {
        Ok(x) => {
            let (v, st) = sem_eval(fuel, ans, expression_start(), x);
            let printed = prints_of(st.out);
            match v {
                Ok(val) => (None, printed.push(SOutput::Print(spec_lit_to_string(val))),
                    SLox { errors: pst.errs, had_parse_err: pst.perr, had_runtime_err: lox.had_runtime_err }),
                Err(_) => (None, printed + reports_of(pst.errs), flushed),
            }
        },
        Err(_) => (None, reports_of(pst.errs), flushed),
    }
}

/// Whether a run of `code` from the reporter `lox`, with the host's answers
/// `ans`, stopped because the fuel ran out.
pub open spec fn run_exhausted(code: Seq<char>, fuel: nat, ans: Seq<SLit>, lox: SLox) -> bool {
    let sc = spec_scan(code, SScan { cur: 0, ln: 1, toks: Seq::empty(), errs: Seq::empty() });
    let (stmts, pst) = g_parse(sc.toks, PState { pos: 0, depth: 0, errs: Seq::empty(), perr: lox.had_parse_err }, Seq::empty());
    let parsed = SLox { errors: pst.errs, had_parse_err: pst.perr, had_runtime_err: lox.had_runtime_err };
    if stmts.len() > 0 {
        program_exhausted(fuel, ans, stmts, parsed)
    } else {
        expression_exhausted(fuel, ans, sc.toks, parsed)
    }
}

/// Whether running parsed statements from `lox` stopped for want of fuel.
pub open spec fn program_exhausted(fuel: nat, ans: Seq<SLit>, stmts: Seq<SStmt>, lox: SLox) -> bool {
    !lox.had_parse_err && sem_program(fuel, ans, program_start(), stmts, 0).1
}

/// Whether evaluating the tokens as one expression stopped for want of fuel.
pub open spec fn expression_exhausted(fuel: nat, ans: Seq<SLit>, toks: Seq<SToken>, lox: SLox) -> bool {
    let (e, pst) = g_expression(toks, PState { pos: 0, depth: 0, errs: lox.errors, perr: lox.had_parse_err });
    match e {
        Ok(x) => sem_eval(fuel, ans, expression_start(), x).0 == Err::<SLit, SFault>(SFault::Exhausted),
        Err(_) => false,
    }
}

/// A program with a syntax error is not run: a run that ends with status 65
/// writes nothing but reports.
pub proof fn law_syntax_error_runs_nothing(code: Seq<char>, fuel: nat, ans: Seq<SLit>, lox: SLox)
    requires
        sem_run(code, fuel, ans, lox).0 == Some(DATA_FORMAT_ERROR),
    ensures
        forall|i: int| 0 <= i < sem_run(code, fuel, ans, lox).1.len() ==> (#[trigger] sem_run(code, fuel, ans, lox).1[i]) is Report,
{
    let sc = spec_scan(code, SScan { cur: 0, ln: 1, toks: Seq::empty(), errs: Seq::empty() });
    let rep = reports_of(lox.errors + sc.errs);
    let (stmts, pst) = g_parse(sc.toks, PState { pos: 0, depth: 0, errs: Seq::empty(), perr: lox.had_parse_err }, Seq::empty());
    let parsed = SLox { errors: pst.errs, had_parse_err: pst.perr, had_runtime_err: lox.had_runtime_err };
    if stmts.len() > 0 {
        let r = sem_run_program(fuel, ans, stmts, parsed);
        assert forall|i: int| 0 <= i < (rep + r.1).len() implies (#[trigger] (rep + r.1)[i]) is Report by {
            if i < rep.len() {
                assert((rep + r.1)[i] == rep[i]);
            } else {
                assert((rep + r.1)[i] == r.1[i - rep.len()]);
            }
        }
    } else {
        assert(sem_run_expression(fuel, ans, sc.toks, parsed).0 is None);
    }
}

/// How a run ended: the status to exit with, if any; the lines written, in
/// order; whether the run stopped because the fuel ran out; and the requests
/// sent to the host for numbers and the clock, with its answers.
pub struct RunEnd {
    pub status: Option<i32>,
    pub output: Vec<Output>,
    pub exhausted: bool,
    pub sent: Ghost<Seq<(HostReq, LitVal)>>,
}

/// Appends each line of `lines` to `out`, as reports or as program output.
fn push_lines(out: &mut Vec<Output>, lines: Vec<String>, report: bool)
    ensures
        outputs_view(final(out)@) == outputs_view(old(out)@)
            + (if report { reports_of(strs_view(lines@)) } else { prints_of(strs_view(lines@)) }),
{
    let ghost base = outputs_view(out@);
    let ghost ls = strs_view(lines@);
    let ghost whole = if report { reports_of(ls) } else { prints_of(ls) };
    let mut i: usize = 0;
    assert(outputs_view(out@) =~= base + whole.subrange(0, 0));
    while i < lines.len()
        invariant
            i <= lines.len(),
            ls == strs_view(lines@),
            whole == (if report { reports_of(ls) } else { prints_of(ls) }),
            outputs_view(out@) == base + whole.subrange(0, i as int),
        decreases lines.len() - i,
    {
        let ghost before = outputs_view(out@);
        let line = lines[i].clone();
        let o = if report { Output::Report(line) } else { Output::Print(line) };
        let ghost ov = o@;
        out.push(o);
        proof {
            assert(ov == whole[i as int]);
            assert(outputs_view(out@) =~= before.push(ov));
            assert(whole.subrange(0, i + 1) =~= whole.subrange(0, i as int).push(ov));
        }
        i += 1;
    }
    assert(whole.subrange(0, i as int) =~= whole);
}

/// The model of the error reporter.
pub struct SLox {
    pub errors: Seq<Seq<char>>,
    pub had_parse_err: bool,
    pub had_runtime_err: bool,
}

/// Collects the errors of a run, and whether a syntax or a runtime error happened.
pub struct Lox {
    errors: Vec<LoxErr>,
    had_parse_err: bool,
    had_runtime_err: bool,
}

impl View for Lox {
    type V = SLox;

    closed spec fn view(&self) -> SLox {
        SLox {
            errors: Seq::new(self.errors.len() as nat, |i: int| self.errors[i].msg@),
            had_parse_err: self.had_parse_err,
            had_runtime_err: self.had_runtime_err,
        }
    }
}

impl Lox {
    /// A reporter with no errors.
    pub fn new() -> (r: Lox)
        ensures
            r@.errors == Seq::<Seq<char>>::empty(),
            !r@.had_parse_err,
            !r@.had_runtime_err,
    {
        let r = Lox { errors: Vec::new(), had_parse_err: false, had_runtime_err: false };
        assert(r@.errors =~= Seq::<Seq<char>>::empty());
        r
    }

    /// Forgets the errors and both flags.
    pub fn reset(&mut self)
        ensures
            final(self)@.errors == Seq::<Seq<char>>::empty(),
            !final(self)@.had_parse_err,
            !final(self)@.had_runtime_err,
    {
        self.had_parse_err = false;
        self.had_runtime_err = false;
        self.errors.clear();
        assert(self@.errors =~= Seq::<Seq<char>>::empty());
    }

    fn push_msg(&mut self, msg: String)
        ensures
            final(self)@.errors == old(self)@.errors.push(msg@),
            final(self)@.had_parse_err == old(self)@.had_parse_err,
            final(self)@.had_runtime_err == old(self)@.had_runtime_err,
    {
        self.errors.push(LoxErr::new(msg));
        assert(self@.errors =~= old(self)@.errors.push(msg@));
    }

    /// Records an error found on line `ln` while scanning.
    pub fn error_simple(&mut self, ln: usize, msg: &str)
        ensures
            final(self)@.errors == old(self)@.errors.push(simple_report(ln as nat, msg@)),
            final(self)@.had_parse_err == old(self)@.had_parse_err,
            final(self)@.had_runtime_err == old(self)@.had_runtime_err,
    {
        let mut m = string_of("[line ");
        push_decimal(&mut m, ln);
        m.append("] Error");
        m.append(": ");
        m.append(msg);
        assert(m@ =~= simple_report(ln as nat, msg@));
        self.push_msg(m);
    }

    /// Records a syntax error at `tkn`, and that a syntax error happened.
    pub fn error_parse(&mut self, tkn: &Token, msg: &str)
        ensures
            final(self)@.errors == old(self)@.errors.push(parse_report(tkn@, msg@)),
            final(self)@.had_parse_err,
            final(self)@.had_runtime_err == old(self)@.had_runtime_err,
    {
        let mut m = string_of("[line ");
        push_decimal(&mut m, tkn.ln);
        if tkn.token_t == TokenT::EOF {
            m.append("] Error");
            m.append(" at end");
        } else {
            m.append("] Error at ");
            m.append(tkn.lex.as_str());
        }
        m.append(": ");
        m.append(msg);
        assert(m@ =~= parse_report(tkn@, msg@));
        self.push_msg(m);
        self.had_parse_err = true;
    }

    /// Records a runtime error, and that a runtime error happened.
    pub fn error_runtime(&mut self, err: &RuntimeError)
        ensures
            final(self)@.errors == old(self)@.errors.push(runtime_report(err@)),
            final(self)@.had_parse_err == old(self)@.had_parse_err,
            final(self)@.had_runtime_err,
    {
        let mut m = err.msg.clone();
        m.append("\n[line ");
        push_decimal(&mut m, err.tkn.ln);
        m.append("]");
        assert(m@ =~= runtime_report(err@));
        self.push_msg(m);
        self.had_runtime_err = true;
    }

    /// Hands out the recorded messages, in the order they were recorded, and
    /// forgets them; the flags stay.
    pub fn report_errors(&mut self) -> (r: Vec<String>)
        ensures
            r@.len() == old(self)@.errors.len(),
            forall|i: int| 0 <= i < r@.len() ==> #[trigger] r@[i]@ == old(self)@.errors[i],
            final(self)@.errors == Seq::<Seq<char>>::empty(),
            final(self)@.had_parse_err == old(self)@.had_parse_err,
            final(self)@.had_runtime_err == old(self)@.had_runtime_err,
    {
        let mut out: Vec<String> = Vec::new();
        let mut i: usize = 0;
        while i < self.errors.len()
            invariant
                i <= self.errors.len(),
                self.errors@ == old(self).errors@,
                out@.len() == i,
                forall|j: int| 0 <= j < i ==> #[trigger] out@[j]@ == self.errors[j].msg@,
            decreases self.errors.len() - i,
        {
            out.push(self.errors[i].msg.clone());
            i += 1;
        }
        self.errors.clear();
        assert(self@.errors =~= Seq::<Seq<char>>::empty());
        out
    }

    /// Writes the recorded messages to `out` as reports, in order, and
    /// forgets them.
    fn flush(&mut self, out: &mut Vec<Output>)
        ensures
            final(self)@.errors == Seq::<Seq<char>>::empty(),
            final(self)@.had_parse_err == old(self)@.had_parse_err,
            final(self)@.had_runtime_err == old(self)@.had_runtime_err,
            outputs_view(final(out)@) == outputs_view(old(out)@) + reports_of(old(self)@.errors),
    {
        let msgs = self.report_errors();
        assert(strs_view(msgs@) =~= old(self)@.errors);
        push_lines(out, msgs, true);
    }

    /// Runs parsed statements, unless a syntax error was recorded, and
    /// writes what they print and the reports to `out`.
    fn run_program<F: Fn(HostReq) -> LitVal>(&mut self, stmts: Vec<Stmt>, host: &F, fuel: u64, out: &mut Vec<Output>)
        -> (r: (Option<i32>, bool, Ghost<Seq<(HostReq, LitVal)>>))
        requires
            forall|x: HostReq| #[trigger] host.requires((x,)),
        ensures
            grows(host, Seq::empty(), r.2@),
            forall|ans: Seq<SLit>| extends(answers(r.2@), ans) ==> ({
                let m = #[trigger] sem_run_program(fuel as nat, ans, stmts_view(stmts), old(self)@);
                &&& m.0 == r.0
                &&& outputs_view(final(out)@) == outputs_view(old(out)@) + m.1
                &&& m.2 == final(self)@
                &&& program_exhausted(fuel as nat, ans, stmts_view(stmts), old(self)@) == r.1
            }),
    {
        let ghost lox0 = self@;
        let ghost ss = stmts_view(stmts);
        let ghost base = outputs_view(out@);
        if self.had_parse_err {
            self.flush(out);
            let sent: Ghost<Seq<(HostReq, LitVal)>> = Ghost(Seq::empty());
            proof { lemma_grows_refl(host, sent@); }
            return (Some(DATA_FORMAT_ERROR), false, sent);
        }
        let mut intr = Interpreter::new(stmts);
        let ghost i0 = intr;
        let ex = intr.interpret(self, host, fuel);
        let ghost i1 = intr;
        let lines = intr.take_output();
        push_lines(out, lines, false);
        let sent: Ghost<Seq<(HostReq, LitVal)>> = Ghost(i1.log());
        if self.had_runtime_err {
            self.flush(out);
            proof {
                assert forall|ans: Seq<SLit>| extends(answers(sent@), ans) implies ({
                    let m = #[trigger] sem_run_program(fuel as nat, ans, ss, lox0);
                    &&& m.0 == Some(INTERNAL_SOFTWARE_ERROR)
                    &&& outputs_view(out@) == base + m.1
                    &&& m.2 == self@
                    &&& program_exhausted(fuel as nat, ans, ss, lox0) == ex
                }) by {
                    assert(sem_program(fuel as nat, ans, i0.ist(), i0.program(), 0).2 == i1.ist());
                    let m = sem_run_program(fuel as nat, ans, ss, lox0);
                    assert(outputs_view(out@) =~= base + m.1);
                }
            }
            return (Some(INTERNAL_SOFTWARE_ERROR), ex, sent);
        }
        proof {
            assert forall|ans: Seq<SLit>| extends(answers(sent@), ans) implies ({
                let m = #[trigger] sem_run_program(fuel as nat, ans, ss, lox0);
                &&& m.0 == None::<i32>
                &&& outputs_view(out@) == base + m.1
                &&& m.2 == self@
                &&& program_exhausted(fuel as nat, ans, ss, lox0) == ex
            }) by {
                assert(sem_program(fuel as nat, ans, i0.ist(), i0.program(), 0).2 == i1.ist());
            }
        }
        (None, ex, sent)
    }

    /// Reads the tokens as one expression and writes its value to `out`, or
    /// the reports when it fails.
    fn run_expression<F: Fn(HostReq) -> LitVal>(&mut self, tkns: &Vec<Token>, host: &F, fuel: u64, out: &mut Vec<Output>)
        -> (r: (Option<i32>, bool, Ghost<Seq<(HostReq, LitVal)>>))
        requires
            well_ended(toks_view(*tkns)),
            forall|x: HostReq| #[trigger] host.requires((x,)),
        ensures
            grows(host, Seq::empty(), r.2@),
            forall|ans: Seq<SLit>| extends(answers(r.2@), ans) ==> ({
                let m = #[trigger] sem_run_expression(fuel as nat, ans, toks_view(*tkns), old(self)@);
                &&& m.0 == r.0
                &&& outputs_view(final(out)@) == outputs_view(old(out)@) + m.1
                &&& m.2 == final(self)@
                &&& expression_exhausted(fuel as nat, ans, toks_view(*tkns), old(self)@) == r.1
            }),
    {
        let ghost lox0 = self@;
        let ghost base = outputs_view(out@);
        let mut parser = Parser::new(tkns);
        match parser.expression(self) {
            Ok(expr) => {
                let mut intr = Interpreter::empty();
                let ghost i0 = intr;
                let v = intr.eval(host, fuel, &expr);
                let ghost i1 = intr;
                let lines = intr.take_output();
                push_lines(out, lines, false);
                let sent: Ghost<Seq<(HostReq, LitVal)>> = Ghost(i1.log());
                match v {
                    Ok(val) => {
                        let o = Output::Print(val.to_string());
                        let ghost ov = o@;
                        let ghost mid = outputs_view(out@);
                        out.push(o);
                        proof {
                            assert(outputs_view(out@) =~= mid.push(ov));
                            assert forall|ans: Seq<SLit>| extends(answers(sent@), ans) implies ({
                                let m = #[trigger] sem_run_expression(fuel as nat, ans, toks_view(*tkns), lox0);
                                &&& m.0 == None::<i32>
                                &&& outputs_view(out@) == base + m.1
                                &&& m.2 == self@
                                &&& expression_exhausted(fuel as nat, ans, toks_view(*tkns), lox0) == false
                            }) by {
                                assert(sem_eval(fuel as nat, ans, i0.ist(), expr@) == (Ok::<SLit, SFault>(val@), i1.ist()));
                                let m = sem_run_expression(fuel as nat, ans, toks_view(*tkns), lox0);
                                assert(outputs_view(out@) =~= base + m.1);
                            }
                        }
                        (None, false, sent)
                    },
                    Err(x) => {
                        let ghost xv = fault_view(x);
                        let ex = match x {
                            Fault::Exhausted => true,
                            Fault::Error(_) => false,
                        };
                        self.flush(out);
                        proof {
                            assert forall|ans: Seq<SLit>| extends(answers(sent@), ans) implies ({
                                let m = #[trigger] sem_run_expression(fuel as nat, ans, toks_view(*tkns), lox0);
                                &&& m.0 == None::<i32>
                                &&& outputs_view(out@) == base + m.1
                                &&& m.2 == self@
                                &&& expression_exhausted(fuel as nat, ans, toks_view(*tkns), lox0) == ex
                            }) by {
                                assert(sem_eval(fuel as nat, ans, i0.ist(), expr@) == (Err::<SLit, SFault>(xv), i1.ist()));
                                let m = sem_run_expression(fuel as nat, ans, toks_view(*tkns), lox0);
                                assert(outputs_view(out@) =~= base + m.1);
                            }
                        }
                        (None, ex, sent)
                    },
                }
            },
            Err(_) => {
                self.flush(out);
                let sent: Ghost<Seq<(HostReq, LitVal)>> = Ghost(Seq::empty());
                proof { lemma_grows_refl(host, sent@); }
                (None, false, sent)
            },
        }
    }

    /// Scans, parses and runs `code`, giving each top-level statement `fuel`
    /// units of fuel; the host answers for numbers and the clock. When the
    /// code holds statements, they run unless a syntax error was found; when
    /// it holds none, it is read as one expression, whose value is printed.
    /// Returns the lines written (the reports of the scan first), whether the
    /// run stopped because the fuel ran out, and the status to exit with: 65
    /// after a syntax error in a program, 70 after a runtime error; `None` to
    /// go on.
    pub fn run<F: Fn(HostReq) -> LitVal>(&mut self, code: String, host: &F, fuel: u64) -> (r: RunEnd)
        requires
            code@.len() < usize::MAX,
            forall|x: HostReq| #[trigger] host.requires((x,)),
        ensures
            grows(host, Seq::empty(), r.sent@),
            forall|ans: Seq<SLit>| extends(answers(r.sent@), ans) ==>
                #[trigger] sem_run(code@, fuel as nat, ans, old(self)@) == (r.status, outputs_view(r.output@), final(self)@)
                    && run_exhausted(code@, fuel as nat, ans, old(self)@) == r.exhausted,
    {
        let ghost lox0 = self@;
        let mut output: Vec<Output> = Vec::new();
        let mut scr = Scanner::new(code);
        let tkns = scr.scan_tokens(self);
        self.flush(&mut output);
        let ghost first = outputs_view(output@);
        proof {
            assert(first =~= reports_of(lox0.errors + spec_scan(code@, SScan { cur: 0, ln: 1, toks: Seq::empty(), errs: Seq::empty() }).errs));
        }
        let mut prs = Parser::new(&tkns);
        let stmts = prs.parse(self);
        let ghost parsed = self@;
        let (status, exhausted, sent) = match stmts {
            Some(stmts) => {
                let ghost ss = stmts_view(stmts);
                let r = self.run_program(stmts, host, fuel, &mut output);
                proof {
                    assert forall|ans: Seq<SLit>| extends(answers(r.2@), ans) implies
                        run_exhausted(code@, fuel as nat, ans, lox0) == r.1 by {
                        let _m = sem_run_program(fuel as nat, ans, ss, parsed);
                    }
                }
                r
            },
            None => {
                let r = self.run_expression(&tkns, host, fuel, &mut output);
                proof {
                    assert forall|ans: Seq<SLit>| extends(answers(r.2@), ans) implies
                        run_exhausted(code@, fuel as nat, ans, lox0) == r.1 by {
                        let _m = sem_run_expression(fuel as nat, ans, toks_view(tkns), parsed);
                    }
                }
                r
            },
        };
        RunEnd { status, output, exhausted, sent }
    }

    /// Whether a syntax error was recorded.
    pub fn had_parse_err(&self) -> (r: bool)
        ensures
            r == self@.had_parse_err,
    {
        self.had_parse_err
    }

    /// Whether a runtime error was recorded.
    pub fn had_runtime_err(&self) -> (r: bool)
        ensures
            r == self@.had_runtime_err,
    {
        self.had_runtime_err
    }

    /// The number of recorded messages.
    pub fn error_count(&self) -> (r: usize)
        ensures
            r == self@.errors.len(),
    {
        self.errors.len()
    }
}

} // verus!
