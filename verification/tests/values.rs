use lox_rust::backend::interpreter::callable::{Callable, LoxFn, NativeFn};
use lox_rust::backend::interpreter::environment::Environment;
use lox_rust::backend::native_fn::clock;
use lox_rust::backend::utils::binary_op::{self, NumOp, Operation};
use lox_rust::backend::utils::validator::{check_num, check_nums, check_str, check_strs};
use lox_rust::error::{LoxErr, ParseError, RuntimeError};
use lox_rust::frontend::lexer::token::{Keyword, LitVal, Token, TokenT};
use lox_rust::lox::{push_decimal, Lox};

fn tok(t: TokenT, lex: &str, ln: usize) -> Token {
    Token::new(t, lex.to_string(), LitVal::Nil, ln)
}

fn num(s: &str) -> LitVal {
    LitVal::Number(s.to_string())
}

fn string(s: &str) -> LitVal {
    LitVal::String(s.to_string())
}

#[test]
fn environment_define_get_assign() {
    let mut env = Environment::global();
    let x = tok(TokenT::Identifier, "x", 1);
    env.define(&"x".to_string(), num("1"));
    assert!(matches!(env.get(&x), Ok(LitVal::Number(n)) if n == "1"));
    env.define(&"x".to_string(), num("2"));
    assert!(matches!(env.get(&x), Ok(LitVal::Number(n)) if n == "2"));
    assert!(env.assign(&x, string("s")).is_ok());
    assert!(matches!(env.get(&x), Ok(LitVal::String(s)) if s == "s"));
}

#[test]
fn environment_undefined_names() {
    let mut env = Environment::global();
    let y = tok(TokenT::Identifier, "y", 4);
    let e = env.get(&y).err().unwrap();
    assert_eq!(e.msg, "Undefined variable 'y'.");
    assert_eq!(e.tkn.ln, 4);
    let e = env.assign(&y, LitVal::Nil).err().unwrap();
    assert_eq!(e.msg, "Undefined variable 'y'.");
}

#[test]
fn environment_scopes() {
    let mut outer = Environment::global();
    let x = tok(TokenT::Identifier, "x", 1);
    outer.define(&"x".to_string(), num("1"));
    let mut inner = Environment::enclose(outer);
    assert!(matches!(inner.get(&x), Ok(LitVal::Number(n)) if n == "1"));
    inner.define(&"x".to_string(), num("2"));
    assert!(matches!(inner.get(&x), Ok(LitVal::Number(n)) if n == "2"));
    let mut outer = inner.take_enc().unwrap();
    assert!(matches!(outer.get(&x), Ok(LitVal::Number(n)) if n == "1"));
    assert!(outer.take_enc().is_none());
}

#[test]
fn assign_reaches_the_enclosing_scope() {
    let mut outer = Environment::global();
    let x = tok(TokenT::Identifier, "x", 1);
    outer.define(&"x".to_string(), num("1"));
    let mut inner = Environment::enclose(outer);
    assert!(inner.assign(&x, num("9")).is_ok());
    let outer = inner.take_enc().unwrap();
    assert!(matches!(outer.get(&x), Ok(LitVal::Number(n)) if n == "9"));
}

#[test]
fn plus_on_strings_and_numbers() {
    let op = tok(TokenT::Plus, "+", 1);
    assert!(matches!(binary_op::plus(&op, &string("a"), &string("b")), Ok(Operation::Value(LitVal::String(s))) if s == "ab"));
    assert!(matches!(binary_op::plus(&op, &num("1"), &string("b")), Ok(Operation::Value(LitVal::String(s))) if s == "1b"));
    assert!(matches!(binary_op::plus(&op, &num("1"), &num("2")),
        Ok(Operation::Host(NumOp::Add, a, b)) if a == "1" && b == "2"));
    let e = binary_op::plus(&op, &num("1"), &LitVal::Nil).err().unwrap();
    assert_eq!(e.msg, "Operands must be numbers.");
}

#[test]
fn numeric_operators_hand_the_operands_to_the_host() {
    let op = tok(TokenT::Minus, "-", 1);
    assert!(matches!(binary_op::minus(&op, &num("3"), &num("2")), Ok(Operation::Host(NumOp::Sub, _, _))));
    assert!(matches!(binary_op::mult(&op, &num("3"), &num("2")), Ok(Operation::Host(NumOp::Mul, _, _))));
    assert!(matches!(binary_op::div(&op, &num("3"), &num("2")), Ok(Operation::Host(NumOp::Div, _, _))));
    assert!(matches!(binary_op::greater(&op, &num("3"), &num("2")), Ok(Operation::Host(NumOp::Greater, _, _))));
    assert!(matches!(binary_op::greater_eq(&op, &num("3"), &num("2")), Ok(Operation::Host(NumOp::GreaterEqual, _, _))));
    assert!(matches!(binary_op::less(&op, &num("3"), &num("2")), Ok(Operation::Host(NumOp::Less, _, _))));
    assert!(matches!(binary_op::less_eq(&op, &num("3"), &num("2")), Ok(Operation::Host(NumOp::LessEqual, _, _))));
    assert!(binary_op::minus(&op, &string("3"), &num("2")).is_err());
}

#[test]
fn equality_of_values() {
    assert!(matches!(binary_op::eq(&LitVal::Nil, &LitVal::Nil), Ok(Operation::Value(LitVal::Boolean(true)))));
    assert!(matches!(binary_op::eq(&string("a"), &string("b")), Ok(Operation::Value(LitVal::Boolean(false)))));
    assert!(matches!(binary_op::not_eq(&string("a"), &string("b")), Ok(Operation::Value(LitVal::Boolean(true)))));
    assert!(matches!(binary_op::eq(&num("1"), &num("1.0")), Ok(Operation::Host(NumOp::Equal, _, _))));
    assert!(matches!(binary_op::not_eq(&num("1"), &num("1.0")), Ok(Operation::Host(NumOp::NotEqual, _, _))));
    assert!(!binary_op::is_eq(&num("1"), &string("1")));
    assert!(binary_op::is_eq(&LitVal::Boolean(true), &LitVal::Boolean(true)));
    assert!(!binary_op::is_eq(&LitVal::Boolean(true), &LitVal::Nil));
}

#[test]
fn validators() {
    let op = tok(TokenT::Minus, "-", 2);
    assert_eq!(check_num(&op, Some("4".to_string())).ok().unwrap(), "4");
    assert_eq!(check_num(&op, None).err().unwrap().msg, "Operands must be numbers.");
    assert!(check_nums(&op, Some("1".to_string()), Some("2".to_string())).is_ok());
    assert_eq!(check_nums(&op, Some("1".to_string()), None).err().unwrap().msg, "Operands must be numbers.");
    assert_eq!(check_str(&op, None).err().unwrap().msg, "Operand must be a string.");
    assert_eq!(check_strs(&op, None, Some("b".to_string())).err().unwrap().msg, "Operands must be strings.");
    assert!(check_strs(&op, Some("a".to_string()), Some("b".to_string())).is_ok());
}

#[test]
fn values_as_text() {
    assert_eq!(num("2.5").to_string(), "2.5");
    assert_eq!(string("s").to_string(), "s");
    assert_eq!(LitVal::Boolean(false).to_string(), "false");
    assert_eq!(LitVal::Nil.to_string(), "nil");
    assert_eq!(num("2").as_number(), Some("2".to_string()));
    assert_eq!(string("2").as_number(), None);
    assert_eq!(string("s").as_string(), Some("s".to_string()));
    assert_eq!(LitVal::Boolean(true).as_bool(), Some(true));
    assert_eq!(LitVal::Nil.as_bool(), None);
}

#[test]
fn function_values() {
    let f = LoxFn::new(tok(TokenT::Identifier, "f", 1), vec![tok(TokenT::Identifier, "a", 1)], Vec::new(), 7);
    assert_eq!(f.id, 7);
    let c = Callable::Lox(f);
    assert_eq!(c.arity(), 1);
    assert_eq!(c.id(), 7);
    assert_eq!(c.to_string(), "<fn f>");
    let n = Callable::Native(NativeFn { id: 0, arity: 0 });
    assert_eq!(n.to_string(), "<native fn>");
    match clock() {
        LitVal::Callable(c) => {
            assert_eq!(c.arity(), 0);
            assert_eq!(c.to_string(), "<native fn>");
        },
        _ => panic!("clock is a function"),
    }
}

#[test]
fn error_records() {
    let t = tok(TokenT::Semicolon, ";", 3);
    let e = RuntimeError::new(&t, "bad");
    assert_eq!(e.msg, "bad");
    assert_eq!(e.tkn.ln, 3);
    let p = ParseError::new(t, "worse");
    assert_eq!(p.msg, "worse");
    let l = LoxErr::new("text".to_string());
    assert_eq!(l.msg, "text");
}

#[test]
fn reports_are_formatted() {
    let mut lox = Lox::new();
    lox.error_simple(12, "Unexpected character");
    lox.error_parse(&tok(TokenT::EOF, "", 3), "Expect expression.");
    lox.error_parse(&tok(TokenT::Keyword(Keyword::Var), "var", 4), "Expect variable name.");
    lox.error_runtime(&RuntimeError::new(&tok(TokenT::Identifier, "x", 5), "Undefined variable 'x'."));
    assert!(lox.had_parse_err());
    assert!(lox.had_runtime_err());
    assert_eq!(lox.error_count(), 4);
    assert_eq!(
        lox.report_errors(),
        vec![
            "[line 12] Error: Unexpected character".to_string(),
            "[line 3] Error at end: Expect expression.".to_string(),
            "[line 4] Error at var: Expect variable name.".to_string(),
            "Undefined variable 'x'.\n[line 5]".to_string(),
        ]
    );
    assert_eq!(lox.error_count(), 0);
    assert!(lox.had_parse_err());
    lox.reset();
    assert!(!lox.had_parse_err());
    assert!(!lox.had_runtime_err());
}

#[test]
fn decimals() {
    let mut s = "n=".to_string();
    push_decimal(&mut s, 0);
    assert_eq!(s, "n=0");
    push_decimal(&mut s, 1203);
    assert_eq!(s, "n=01203");
}

#[test]
fn define_leaves_other_names() {
    let mut env = Environment::global();
    let a = tok(TokenT::Identifier, "a", 1);
    let b = tok(TokenT::Identifier, "b", 1);
    env.define(&"a".to_string(), num("1"));
    env.define(&"b".to_string(), num("2"));
    env.define(&"a".to_string(), num("3"));
    assert!(matches!(env.get(&b), Ok(LitVal::Number(n)) if n == "2"));
    assert!(matches!(env.get(&a), Ok(LitVal::Number(n)) if n == "3"));
}
