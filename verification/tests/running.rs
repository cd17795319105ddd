use lox_rust::backend::interpreter::semantics::HostReq;
use lox_rust::backend::interpreter::{Fault, Interpreter};
use lox_rust::backend::utils::binary_op::NumOp;
use lox_rust::frontend::lexer::token::LitVal;
use lox_rust::frontend::lexer::Scanner;
use lox_rust::frontend::parser::Parser;
use lox_rust::lox::{Lox, Output};

fn num(s: &str) -> f64 {
    s.parse::<f64>().unwrap()
}

fn answer(q: HostReq) -> LitVal {
    match q {
        HostReq::Num(op, a, b) => {
            let x = num(&a);
            match op {
                NumOp::Read => LitVal::Number(x.to_string()),
                NumOp::Negate => LitVal::Number((-x).to_string()),
                _ => {
                    let y = num(&b);
                    match op {
                        NumOp::Add => LitVal::Number((x + y).to_string()),
                        NumOp::Sub => LitVal::Number((x - y).to_string()),
                        NumOp::Mul => LitVal::Number((x * y).to_string()),
                        NumOp::Div => LitVal::Number((x / y).to_string()),
                        NumOp::Greater => LitVal::Boolean(x > y),
                        NumOp::GreaterEqual => LitVal::Boolean(x >= y),
                        NumOp::Less => LitVal::Boolean(x < y),
                        NumOp::LessEqual => LitVal::Boolean(x <= y),
                        NumOp::Equal => LitVal::Boolean(x == y),
                        NumOp::NotEqual => LitVal::Boolean(x != y),
                        _ => unreachable!(),
                    }
                },
            }
        },
        HostReq::Clock => LitVal::Number("1000".to_string()),
    }
}

/// The status of a run, the lines it printed and the reports it wrote.
fn run(code: &str) -> (Option<i32>, Vec<String>, Vec<String>) {
    let mut lox = Lox::new();
    let end = lox.run(code.to_string(), &answer, 100_000);
    let mut printed = Vec::new();
    let mut reported = Vec::new();
    for o in end.output {
        match o {
            Output::Print(s) => printed.push(s),
            Output::Report(s) => reported.push(s),
        }
    }
    (end.status, printed, reported)
}

fn prints(code: &str) -> Vec<String> {
    let (r, printed, reported) = run(code);
    assert_eq!(r, None, "reports: {:?}", reported);
    assert!(reported.is_empty(), "reports: {:?}", reported);
    printed
}

#[test]
fn arithmetic() {
    assert_eq!(prints("print 1 + 2;"), vec!["3"]);
    assert_eq!(prints("print 2 * 3 - 4 / 8;"), vec!["5.5"]);
    assert_eq!(prints("print 2 * -(1.50);"), vec!["-3"]);
    assert_eq!(prints("print 0.1 + 0.2;"), vec!["0.30000000000000004"]);
}

#[test]
fn literals_print_as_numbers() {
    assert_eq!(prints("print 1.50;"), vec!["1.5"]);
    assert_eq!(prints("print 007;"), vec!["7"]);
}

#[test]
fn strings_join_with_anything() {
    assert_eq!(prints("print \"a\" + \"b\";"), vec!["ab"]);
    assert_eq!(prints("print \"n: \" + 1;"), vec!["n: 1"]);
    assert_eq!(prints("print true + \"!\";"), vec!["true!"]);
    assert_eq!(prints("print \"x\" + nil;"), vec!["xnil"]);
}

#[test]
fn comparison_and_equality() {
    assert_eq!(prints("print 1 < 2;"), vec!["true"]);
    assert_eq!(prints("print 2 <= 1;"), vec!["false"]);
    assert_eq!(prints("print 1 == 1;"), vec!["true"]);
    assert_eq!(prints("print 1 != 1;"), vec!["false"]);
    assert_eq!(prints("print \"a\" == \"a\";"), vec!["true"]);
    assert_eq!(prints("print nil == false;"), vec!["false"]);
    assert_eq!(prints("print nil == nil;"), vec!["true"]);
    assert_eq!(prints("print 1 == \"1\";"), vec!["false"]);
    assert_eq!(prints("print clock == clock;"), vec!["true"]);
}

#[test]
fn logical_operators_return_an_operand() {
    assert_eq!(prints("print nil or \"yes\";"), vec!["yes"]);
    assert_eq!(prints("print 1 and 2;"), vec!["2"]);
    assert_eq!(prints("print false and 2;"), vec!["false"]);
    assert_eq!(prints("print 0 or 2;"), vec!["0"]);
}

#[test]
fn bang_gives_the_truthiness() {
    assert_eq!(prints("print !true;"), vec!["true"]);
    assert_eq!(prints("print !nil;"), vec!["false"]);
}

#[test]
fn a_leading_minus_is_a_syntax_error() {
    let (r, printed, reported) = run("print 1; print -1;");
    assert_eq!(r, Some(65));
    assert!(printed.is_empty());
    assert_eq!(reported, vec!["[line 1] Error at -: Expect expression before operator."]);
    // With no statement left the source is read as one expression, which
    // fails too; that failure is not reported again.
    let (r, printed, reported) = run("print -1;");
    assert_eq!(r, None);
    assert!(printed.is_empty());
    assert_eq!(reported, vec!["[line 1] Error at -: Expect expression before operator."]);
}

#[test]
fn ternary_gives_nil() {
    assert_eq!(prints("print true ? 1 : 2;"), vec!["nil"]);
}

#[test]
fn scopes() {
    assert_eq!(prints("var a = 1; { var a = 2; print a; } print a;"), vec!["2", "1"]);
    assert_eq!(prints("var a = 1; { a = 3; } print a;"), vec!["3"]);
    assert_eq!(prints("var a; print a;"), vec!["nil"]);
}

#[test]
fn loops() {
    assert_eq!(prints("var i = 0; while (i < 3) { print i; i = i + 1; }"), vec!["0", "1", "2"]);
    assert_eq!(prints("for (var i = 0; i < 2; i = i + 1) print i;"), vec!["0", "1"]);
}

#[test]
fn conditionals() {
    assert_eq!(prints("if (nil) print 1; else print 2;"), vec!["2"]);
    assert_eq!(prints("if (0) print 1;"), vec!["1"]);
}

#[test]
fn functions() {
    assert_eq!(prints("fun add(a, b) { return a + b; } print add(1, 2);"), vec!["3"]);
    assert_eq!(prints("fun f() {} print f();"), vec!["nil"]);
    assert_eq!(prints("fun f() {} print f;"), vec!["<fn f>"]);
    assert_eq!(prints("print clock;"), vec!["<native fn>"]);
    assert_eq!(prints("var g = fun (x) { return x * 2; }; print g(4); print g;"), vec!["8", "<fn>"]);
    assert_eq!(prints("print clock();"), vec!["1000"]);
}

#[test]
fn return_keeps_the_function_scope() {
    assert_eq!(prints("fun f() { var x = 5; return 1; } f(); print x;"), vec!["5"]);
}

#[test]
fn function_scope_is_left_at_its_end() {
    let (r, printed, reported) = run("fun g() { var y = 1; } g(); print y;");
    assert_eq!(r, Some(70));
    assert!(printed.is_empty());
    assert_eq!(reported, vec!["Undefined variable 'y'.\n[line 1]"]);
}

#[test]
fn runtime_errors_are_reported_and_the_run_goes_on() {
    let (r, printed, reported) = run("print x;\nprint 2;");
    assert_eq!(r, Some(70));
    assert_eq!(printed, vec!["2"]);
    assert_eq!(reported, vec!["Undefined variable 'x'.\n[line 1]"]);
}

#[test]
fn break_is_an_undefined_name() {
    let (r, printed, reported) = run("while (true) { print 1; break; }");
    assert_eq!(r, Some(70));
    assert_eq!(printed, vec!["1"]);
    assert_eq!(reported, vec!["Undefined variable 'break'.\n[line 1]"]);
}

#[test]
fn operand_errors() {
    let (r, _, reported) = run("print 1 * -\"a\";");
    assert_eq!(r, Some(70));
    assert_eq!(reported, vec!["Operands must be numbers.\n[line 1]"]);
    let (_, _, reported) = run("print 1 < nil;");
    assert_eq!(reported, vec!["Operands must be numbers.\n[line 1]"]);
    let (_, _, reported) = run("print 1 - true;");
    assert_eq!(reported, vec!["Operands must be numbers.\n[line 1]"]);
}

#[test]
fn call_errors() {
    let (r, _, reported) = run("fun f(a) {}\nf();");
    assert_eq!(r, Some(70));
    assert_eq!(reported, vec!["Expected 1 arguments but got 0\n[line 2]"]);
    let (_, _, reported) = run("\"x\"();");
    assert_eq!(reported, vec!["Can only call functions and classes.\n[line 1]"]);
}

#[test]
fn syntax_error_in_a_program() {
    let (r, printed, reported) = run("print 1;\nprint 2");
    assert_eq!(r, Some(65));
    assert!(printed.is_empty());
    assert_eq!(reported, vec!["[line 2] Error at end: Expect ';' after value."]);
}

#[test]
fn a_lone_expression_is_printed() {
    let (r, printed, reported) = run("1 + 2");
    assert_eq!(r, None);
    assert_eq!(printed, vec!["3"]);
    assert!(reported.is_empty());
}

#[test]
fn a_failing_lone_expression_reports() {
    let (r, printed, reported) = run("1 +");
    assert_eq!(r, None);
    assert!(printed.is_empty());
    assert_eq!(reported, vec!["[line 1] Error at end: Expect expression."]);
}

#[test]
fn scan_errors_are_reported_first() {
    let (r, printed, reported) = run("print 1; @");
    assert_eq!(r, None);
    assert_eq!(printed, vec!["1"]);
    assert_eq!(reported, vec!["[line 1] Error: Unexpected character"]);
}

#[test]
fn fuel_bounds_a_run() {
    let host = answer;
    let mut lox = Lox::new();
    let mut scr = Scanner::new("var n = 0; while (true) n = n + 1;".to_string());
    let toks = scr.scan_tokens(&mut lox);
    let mut prs = Parser::new(&toks);
    let stmts = prs.parse(&mut lox).unwrap();
    let mut intr = Interpreter::new(stmts);
    assert!(intr.interpret(&mut lox, &host, 50));
    assert!(!lox.had_runtime_err());
    // The statements are used up.
    assert!(!intr.interpret(&mut lox, &host, 50));
}

#[test]
fn eval_with_no_fuel_is_exhausted() {
    let host = answer;
    let mut lox = Lox::new();
    let mut scr = Scanner::new("1".to_string());
    let toks = scr.scan_tokens(&mut lox);
    let mut prs = Parser::new(&toks);
    let e = prs.expression(&mut lox).ok().unwrap();
    let mut intr = Interpreter::empty();
    assert!(matches!(intr.eval(&host, 0, &e), Err(Fault::Exhausted)));
    assert!(matches!(intr.eval(&host, 1, &e), Ok(LitVal::Number(n)) if n == "1"));
}

#[test]
fn truthiness() {
    let intr = Interpreter::empty();
    assert!(!intr.is_truthy(&LitVal::Nil));
    assert!(!intr.is_truthy(&LitVal::Boolean(false)));
    assert!(intr.is_truthy(&LitVal::Boolean(true)));
    assert!(intr.is_truthy(&LitVal::Number("0".to_string())));
    assert!(intr.is_truthy(&LitVal::String(String::new())));
}

fn run_with_fuel(code: &str, fuel: u64) -> (bool, Vec<String>, Vec<String>) {
    let host = answer;
    let mut lox = Lox::new();
    let mut scr = Scanner::new(code.to_string());
    let toks = scr.scan_tokens(&mut lox);
    let mut prs = Parser::new(&toks);
    let stmts = prs.parse(&mut lox).unwrap();
    let mut intr = Interpreter::new(stmts);
    let exhausted = intr.interpret(&mut lox, &host, fuel);
    let errs = lox.report_errors();
    (exhausted, intr.take_output(), errs)
}

#[test]
fn more_fuel_gives_the_same_run() {
    let code = "var i = 0; while (i < 5) { print i; i = i + 1; } print x; print \"end\";";
    let small = run_with_fuel(code, 40);
    let large = run_with_fuel(code, 100_000);
    assert!(!small.0);
    assert_eq!(small, large);
    assert_eq!(large.1, vec!["0", "1", "2", "3", "4", "end"]);
    assert_eq!(large.2, vec!["Undefined variable 'x'.\n[line 1]"]);
}

#[test]
fn too_little_fuel_stops_the_run() {
    let code = "var i = 0; while (i < 5) { print i; i = i + 1; } print \"end\";";
    let (exhausted, printed, errs) = run_with_fuel(code, 5);
    assert!(exhausted);
    assert!(errs.is_empty());
    assert!(printed.len() < 5);
}

#[test]
fn scan_reports_come_before_the_output() {
    let mut lox = Lox::new();
    let end = lox.run("print 1; @ print 2;".to_string(), &answer, 1000);
    assert_eq!(end.status, None);
    assert_eq!(end.output.len(), 3);
    assert!(matches!(&end.output[0], Output::Report(s) if s == "[line 1] Error: Unexpected character"));
    assert!(matches!(&end.output[1], Output::Print(s) if s == "1"));
    assert!(matches!(&end.output[2], Output::Print(s) if s == "2"));
}

#[test]
fn runtime_reports_come_after_the_output() {
    let mut lox = Lox::new();
    let end = lox.run("print 1; print x; print 2;".to_string(), &answer, 1000);
    assert_eq!(end.status, Some(70));
    assert_eq!(end.output.len(), 3);
    assert!(matches!(&end.output[0], Output::Print(s) if s == "1"));
    assert!(matches!(&end.output[1], Output::Print(s) if s == "2"));
    assert!(matches!(&end.output[2], Output::Report(s) if s == "Undefined variable 'x'.\n[line 1]"));
}

#[test]
fn run_says_when_the_fuel_ran_out() {
    let mut lox = Lox::new();
    let end = lox.run("while (true) print 1;".to_string(), &answer, 20);
    assert!(end.exhausted);
    assert_eq!(end.status, None);
    let mut lox = Lox::new();
    let end = lox.run("print 1;".to_string(), &answer, 20);
    assert!(!end.exhausted);
    let mut lox = Lox::new();
    let end = lox.run("1 + 2".to_string(), &answer, 0);
    assert!(end.exhausted);
    assert!(end.output.iter().all(|o| matches!(o, Output::Report(_))));
}

#[test]
fn number_literals_print_without_extra_zeros() {
    let (r, printed, reported) = run("print 1.50; print 007; print 2.0; print 00.10;");
    assert_eq!(r, None);
    assert_eq!(printed, vec!["1.5", "7", "2", "0.1"]);
    assert!(reported.is_empty());
}
