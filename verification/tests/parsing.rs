use lox_rust::frontend::lexer::token::Token;
use lox_rust::frontend::lexer::Scanner;
use lox_rust::frontend::parser::expr::Expr;
use lox_rust::frontend::parser::stmt::{FunType, Stmt};
use lox_rust::frontend::parser::Parser;
use lox_rust::lox::Lox;

fn tokens(code: &str) -> Vec<Token> {
    let mut lox = Lox::new();
    let mut scr = Scanner::new(code.to_string());
    scr.scan_tokens(&mut lox)
}

fn parse(code: &str) -> (Option<Vec<Stmt>>, Vec<String>, bool) {
    let toks = tokens(code);
    let mut lox = Lox::new();
    let mut prs = Parser::new(&toks);
    let r = prs.parse(&mut lox);
    let had = lox.had_parse_err();
    (r, lox.report_errors(), had)
}

fn expand(code: &str) -> String {
    let toks = tokens(code);
    let mut lox = Lox::new();
    let mut prs = Parser::new(&toks);
    match prs.expression(&mut lox) {
        Ok(e) => e.expand(),
        Err(e) => panic!("no expression: {}", e.msg),
    }
}

#[test]
fn precedence_of_operators() {
    assert_eq!(expand("1 + 2 * 3"), "(+ 1 (* 2 3))");
    assert_eq!(expand("(1 + 2) * 3"), "(* (group (+ 1 2)) 3)");
    assert_eq!(expand("!a == 2 * -b"), "(== (! (var a)) (* 2 (- (var b))))");
    assert_eq!(expand("1 < 2 != 3 >= 4"), "(!= (< 1 2) (>= 3 4))");
}

#[test]
fn logic_assignment_and_calls() {
    assert_eq!(expand("a = b or c and d"), "(=a (or (var b) (and (var c) (var d))))");
    assert_eq!(expand("f(1, x)(2)"), "(call (call (var f) 1 (var x)) 2)");
    assert_eq!(expand("fun (a) { return a; }"), "(fun)");
}

#[test]
fn parses_statements() {
    let (r, errs, had) = parse("var x = 1; print x; { x = 2; } if (x) print 1; else print 2;");
    assert!(errs.is_empty());
    assert!(!had);
    let stmts = r.unwrap();
    assert_eq!(stmts.len(), 4);
    assert!(matches!(stmts[0], Stmt::Var { .. }));
    assert!(matches!(stmts[1], Stmt::Print(_)));
    assert!(matches!(stmts[2], Stmt::Block(_)));
    assert!(matches!(stmts[3], Stmt::If { else_br: Some(_), .. }));
}

#[test]
fn for_loops_become_while_loops() {
    let (r, errs, _) = parse("for (var i = 0; i < 3; i = i + 1) print i;");
    assert!(errs.is_empty());
    let stmts = r.unwrap();
    assert_eq!(stmts.len(), 1);
    match &stmts[0] {
        Stmt::Block(inner) => {
            assert_eq!(inner.len(), 2);
            assert!(matches!(inner[0], Stmt::Var { .. }));
            assert!(matches!(inner[1], Stmt::While { .. }));
        },
        _ => panic!("expected a block"),
    }
}

#[test]
fn functions_and_returns() {
    let (r, errs, _) = parse("fun add(a, b) { return a + b; }");
    assert!(errs.is_empty());
    match &r.unwrap()[0] {
        Stmt::Function { name, params, body } => {
            assert_eq!(name.lex, "add");
            assert_eq!(params.len(), 2);
            assert!(matches!(body[0], Stmt::Return { val: Some(_), .. }));
        },
        _ => panic!("expected a function"),
    }
}

#[test]
fn reports_missing_semicolon_and_recovers() {
    let (r, errs, had) = parse("print 1 print 2;");
    assert!(had);
    assert_eq!(errs, vec!["[line 1] Error at print: Expect ';' after value.".to_string()]);
    // The rest of the line up to the semicolon is skipped.
    assert!(r.is_none());
    let (r, errs, _) = parse("print 1 print 2; print 3;");
    assert_eq!(errs.len(), 1);
    assert_eq!(r.unwrap().len(), 1);
}

#[test]
fn reports_error_at_end() {
    let (r, errs, had) = parse("var x = 1");
    assert!(had);
    assert_eq!(errs, vec!["[line 1] Error at end: Expect ';' after variable declaration.".to_string()]);
    assert!(r.is_none());
}

#[test]
fn invalid_assignment_target() {
    let (_, errs, had) = parse("1 = 2;");
    assert!(had);
    assert_eq!(errs, vec!["[line 1] Error at =: Invalid assignment target.".to_string()]);
}

#[test]
fn break_is_read_as_a_name() {
    let (r, errs, had) = parse("break;");
    assert!(!had);
    assert!(errs.is_empty());
    assert!(matches!(&r.unwrap()[0], Stmt::Expression(Expr::Variable(t)) if t.lex == "break"));
}

#[test]
fn no_statements_gives_none() {
    let (r, errs, had) = parse("");
    assert!(r.is_none());
    assert!(errs.is_empty());
    assert!(!had);
}

#[test]
fn function_kind_names() {
    assert_eq!(FunType::Function.to_string(), "function");
    assert_eq!(FunType::Method.to_string(), "method");
}

#[test]
fn expression_of_a_literal_is_its_text() {
    assert_eq!(expand("\"text\""), "text");
    assert_eq!(expand("nil"), "nil");
    assert_eq!(expand("true"), "true");
    assert_eq!(expand("1.50"), "1.5");
    assert_eq!(expand("1.50 + 007"), "(+ 1.5 7)");
}

#[test]
fn expression_parse_error() {
    let toks = tokens(")");
    let mut lox = Lox::new();
    let mut prs = Parser::new(&toks);
    let r = prs.expression(&mut lox);
    assert!(r.is_err());
    let e = match r {
        Err(e) => e,
        Ok(_) => unreachable!(),
    };
    assert_eq!(e.msg, "Expect expression.");
    assert_eq!(e.tkn.lex, ")");
    let _ = Expr::Literal(lox_rust::frontend::lexer::token::LitVal::Nil);
}

#[test]
fn ternary_expressions() {
    assert_eq!(expand("a ? b : c"), "(?: (var a) (var b) (var c))");
}

#[test]
fn a_for_loop_needs_an_initializer() {
    let (r, errs, had) = parse("for (;;) print 1;");
    assert!(had);
    // After each error the parser skips to the next statement boundary and
    // tries again; `print` is no boundary, so `print 1;` is skipped too.
    assert_eq!(
        errs,
        vec![
            "[line 1] Error at ;: Expect expression.".to_string(),
            "[line 1] Error at ;: Expect expression.".to_string(),
            "[line 1] Error at ): Expect expression.".to_string(),
        ]
    );
    assert!(r.is_none());
}

#[test]
fn for_loop_without_condition_loops_on_true() {
    let (r, errs, _) = parse("for (x = 0; ; x = x + 1) print x;");
    assert!(errs.is_empty());
    match &r.unwrap()[0] {
        Stmt::Block(inner) => match &inner[1] {
            Stmt::While { cond, .. } => assert_eq!(cond.expand(), "true"),
            _ => panic!("expected a loop"),
        },
        _ => panic!("expected a block"),
    }
}
