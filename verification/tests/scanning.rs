use lox_rust::frontend::lexer::token::{Keyword, LitVal, TokenT};
use lox_rust::frontend::lexer::Scanner;
use lox_rust::lox::Lox;
use lox_rust::utils::{is_alpha, is_alpha_numeric, is_number};

fn scan(code: &str) -> (Vec<lox_rust::frontend::lexer::token::Token>, Vec<String>) {
    let mut lox = Lox::new();
    let mut scr = Scanner::new(code.to_string());
    let toks = scr.scan_tokens(&mut lox);
    (toks, lox.report_errors())
}

#[test]
fn character_classes() {
    assert!(is_alpha('a'));
    assert!(is_alpha('Z'));
    assert!(is_alpha('_'));
    assert!(!is_alpha('1'));
    assert!(is_number('7'));
    assert!(!is_number('x'));
    assert!(is_alpha_numeric('q'));
    assert!(is_alpha_numeric('0'));
    assert!(!is_alpha_numeric('-'));
}

#[test]
fn scans_a_declaration() {
    let (toks, errs) = scan("var answer = 42;");
    assert!(errs.is_empty());
    let kinds: Vec<TokenT> = toks.iter().map(|t| t.token_t).collect();
    assert_eq!(
        kinds,
        vec![
            TokenT::Keyword(Keyword::Var),
            TokenT::Identifier,
            TokenT::Equal,
            TokenT::Literal,
            TokenT::Semicolon,
            TokenT::EOF
        ]
    );
    assert_eq!(toks[1].lex, "answer");
    assert!(matches!(&toks[3].lit, LitVal::Number(n) if n == "42"));
    assert_eq!(toks[5].lex, "");
}

#[test]
fn scans_two_character_operators() {
    let (toks, _) = scan("!= == <= >= ! = < >");
    let kinds: Vec<TokenT> = toks.iter().map(|t| t.token_t).collect();
    assert_eq!(
        kinds,
        vec![
            TokenT::BangEqual,
            TokenT::EqualEqual,
            TokenT::LessEqual,
            TokenT::GreaterEqual,
            TokenT::Bang,
            TokenT::Equal,
            TokenT::Less,
            TokenT::Greater,
            TokenT::EOF
        ]
    );
}

#[test]
fn scans_strings_numbers_and_words() {
    let (toks, _) = scan("\"hi there\" 3.25 12. true false nil and break");
    assert!(matches!(&toks[0].lit, LitVal::String(s) if s == "hi there"));
    assert_eq!(toks[0].lex, "\"hi there\"");
    assert!(matches!(&toks[1].lit, LitVal::Number(n) if n == "3.25"));
    assert!(matches!(&toks[2].lit, LitVal::Number(n) if n == "12"));
    assert_eq!(toks[3].token_t, TokenT::Dot);
    assert!(matches!(toks[4].lit, LitVal::Boolean(true)));
    assert!(matches!(toks[5].lit, LitVal::Boolean(false)));
    assert_eq!(toks[6].token_t, TokenT::Keyword(Keyword::Nil));
    assert_eq!(toks[7].token_t, TokenT::Keyword(Keyword::And));
    // `break` is read as a plain name.
    assert_eq!(toks[8].token_t, TokenT::Identifier);
    assert_eq!(toks[9].token_t, TokenT::EOF);
}

#[test]
fn skips_comments_and_counts_lines() {
    let (toks, errs) = scan("// a comment\n/* a\nblock */ x\n\ny");
    assert!(errs.is_empty());
    assert_eq!(toks.len(), 3);
    assert_eq!(toks[0].lex, "x");
    assert_eq!(toks[0].ln, 3);
    assert_eq!(toks[1].lex, "y");
    assert_eq!(toks[1].ln, 5);
    assert_eq!(toks[2].token_t, TokenT::EOF);
    assert_eq!(toks[2].ln, 5);
}

#[test]
fn string_spanning_lines_takes_its_last_line() {
    let (toks, _) = scan("\"a\nb\" c");
    assert_eq!(toks[0].ln, 2);
    assert_eq!(toks[1].ln, 2);
}

#[test]
fn reports_unexpected_characters() {
    let (toks, errs) = scan("a @ b");
    assert_eq!(errs, vec!["[line 1] Error: Unexpected character".to_string()]);
    assert_eq!(toks.len(), 3);
}

#[test]
fn reports_one_error_per_byte_of_a_wide_character() {
    let (_, errs) = scan("é");
    assert_eq!(errs.len(), 2);
}

#[test]
fn reports_unterminated_string_and_comment() {
    let (toks, errs) = scan("\"open\nstill");
    assert_eq!(errs, vec!["[line 2] Error: Unterminated string".to_string()]);
    assert_eq!(toks.len(), 1);
    let (_, errs) = scan("/* never closed");
    assert_eq!(errs, vec!["[line 1] Error: Unterminated block comment".to_string()]);
}

#[test]
fn empty_source_gives_only_end_of_file() {
    let (toks, errs) = scan("");
    assert!(errs.is_empty());
    assert_eq!(toks.len(), 1);
    assert_eq!(toks[0].token_t, TokenT::EOF);
    assert_eq!(toks[0].ln, 1);
}

#[test]
fn token_text() {
    let (toks, _) = scan("var x");
    assert_eq!(toks[0].to_string(), "Keyword(Var) var");
    assert_eq!(toks[1].to_string(), "Identifier x");
    assert_eq!(toks[2].to_string(), "EOF ");
}

#[test]
fn number_literals_are_held_in_shortest_form() {
    let (toks, errs) = scan("1.50 007 2.0 00.10 0.0 0 120");
    assert!(errs.is_empty());
    let want = ["1.5", "7", "2", "0.1", "0", "0", "120"];
    for (i, w) in want.iter().enumerate() {
        assert!(matches!(&toks[i].lit, LitVal::Number(n) if n == w), "token {}", i);
    }
    // The lexeme keeps the spelling.
    assert_eq!(toks[0].lex, "1.50");
    assert_eq!(toks[1].lex, "007");
}
