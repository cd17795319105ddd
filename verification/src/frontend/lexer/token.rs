use vstd::prelude::*;

use crate::backend::interpreter::callable::{Callable, SFun, fun_view};

verus! {

/// Reserved words of the language.
#[derive(Debug, Clone, Copy, PartialEq, Eq, Structural)]
pub enum Keyword {
    And, Class, Else, False, Fun, For, If, Nil, Or,
    Print, Return, Super, This, True, Var, While,
    Break,
}

/// The kind of a token.
#[derive(Debug, Clone, Copy, PartialEq, Eq, Structural)]
pub enum TokenT {
    // Single-character tokens
    LeftParen, RightParen, LeftBrace, RightBrace,
    Comma, Dot, Minus, Plus, Semicolon, Slash, Star,
    Colon, Query,

    // One or two character tokens
    Bang, BangEqual,
    Equal, EqualEqual,
    Greater, GreaterEqual,
    Less, LessEqual,

    // Literals
    Keyword(Keyword), Identifier, Literal,

    EOF,
}

/// A value of the language. A number is held as its decimal text: for a
/// literal, the digits as written in their shortest form (leading zeros of the
/// integer part, trailing zeros of the fraction and a bare dot left out, so
/// `1.50` is held as `1.5`); for the result of a numeric operation, the text
/// that the host gave back. A literal with more significant digits than a
/// 64-bit float holds keeps all of them here: rounding it needs floating
/// point, which the host does when the value is computed with.
#[derive(Debug)]
pub enum LitVal {
    String(String),
    Number(String),
    Boolean(bool),
    Nil,
    Callable(Box<Callable>),
}

/// A token: its kind, its lexeme, its literal value and its line.
#[derive(Debug)]
pub struct Token {
    pub token_t: TokenT,
    pub lex: String,
    pub lit: LitVal,
    pub ln: usize,
}

/// The mathematical model of a value.
pub enum SLit {
    Str(Seq<char>),
    Num(Seq<char>),
    Bool(bool),
    Nil,
    Fun(Box<SFun>),
}

/// The mathematical model of a token.
pub struct SToken {
    pub token_t: TokenT,
    pub lex: Seq<char>,
    pub lit: SLit,
    pub ln: usize,
}

pub open spec fn lit_view(l: LitVal) -> SLit
    decreases l,
{
    match l {
        LitVal::String(s) => SLit::Str(s@),
        LitVal::Number(s) => SLit::Num(s@),
        LitVal::Boolean(b) => SLit::Bool(b),
        LitVal::Nil => SLit::Nil,
        LitVal::Callable(c) => SLit::Fun(Box::new(fun_view(*c))),
    }
}

pub open spec fn tok_view(t: Token) -> SToken
    decreases t,
{
    SToken { token_t: t.token_t, lex: t.lex@, lit: lit_view(t.lit), ln: t.ln }
}

pub open spec fn toks_view(v: Vec<Token>) -> Seq<SToken>
    decreases v,
{
    Seq::new(v.len() as nat, |i: int| if 0 <= i < v.len() { tok_view(v[i]) } else { arbitrary() })
}

impl View for LitVal {
    type V = SLit;

    open spec fn view(&self) -> SLit {
        lit_view(*self)
    }
}

impl View for Token {
    type V = SToken;

    open spec fn view(&self) -> SToken {
        tok_view(*self)
    }
}

/// The text of a value, as `print` shows it.
pub open spec fn spec_lit_to_string(l: SLit) -> Seq<char> {
    match l {
        SLit::Str(s) => s,
        SLit::Num(s) => s,
        SLit::Bool(b) => if b { seq!['t', 'r', 'u', 'e'] } else { seq!['f', 'a', 'l', 's', 'e'] },
        SLit::Nil => seq!['n', 'i', 'l'],
        SLit::Fun(f) => crate::backend::interpreter::callable::spec_fun_to_string(*f),
    }
}

pub open spec fn spec_as_number(l: SLit) -> Option<Seq<char>> {
    match l {
        SLit::Num(s) => Some(s),
        _ => None,
    }
}

pub open spec fn spec_as_string(l: SLit) -> Option<Seq<char>> {
    match l {
        SLit::Str(s) => Some(s),
        _ => None,
    }
}

pub open spec fn spec_as_bool(l: SLit) -> Option<bool> {
    match l {
        SLit::Bool(b) => Some(b),
        _ => None,
    }
}

/// A new string holding the text of `s`.
pub fn string_of(s: &str) -> (r: String)
    ensures
        r@ == s@,
{
    s.to_owned()
}

/// Copies a vector of tokens, element by element.
pub fn copy_tokens(v: &Vec<Token>) -> (r: Vec<Token>)
    ensures
        toks_view(r) == toks_view(*v),
    decreases v,
{
    let mut out: Vec<Token> = Vec::new();
    let mut i: usize = 0;
    while i < v.len()
        invariant
            i <= v.len(),
            out.len() == i,
            forall|j: int| 0 <= j < i ==> tok_view(#[trigger] out[j]) == tok_view(v[j]),
        decreases v.len() - i,
    {
        proof { vstd::std_specs::vec::axiom_vec_index_decreases(*v, i as int); }
        out.push(v[i].copy());
        i += 1;
    }
    assert(toks_view(out) =~= toks_view(*v));
    out
}

/// The name of a keyword, as `Debug` spells it.
pub open spec fn keyword_name(k: Keyword) -> Seq<char> {
    match k {
        Keyword::And => "And"@,
        Keyword::Class => "Class"@,
        Keyword::Else => "Else"@,
        Keyword::False => "False"@,
        Keyword::Fun => "Fun"@,
        Keyword::For => "For"@,
        Keyword::If => "If"@,
        Keyword::Nil => "Nil"@,
        Keyword::Or => "Or"@,
        Keyword::Print => "Print"@,
        Keyword::Return => "Return"@,
        Keyword::Super => "Super"@,
        Keyword::This => "This"@,
        Keyword::True => "True"@,
        Keyword::Var => "Var"@,
        Keyword::While => "While"@,
        Keyword::Break => "Break"@,
    }
}

/// The kind of a token, as `Debug` spells it.
pub open spec fn token_t_name(t: TokenT) -> Seq<char> {
    match t {
        TokenT::LeftParen => "LeftParen"@,
        TokenT::RightParen => "RightParen"@,
        TokenT::LeftBrace => "LeftBrace"@,
        TokenT::RightBrace => "RightBrace"@,
        TokenT::Comma => "Comma"@,
        TokenT::Dot => "Dot"@,
        TokenT::Minus => "Minus"@,
        TokenT::Plus => "Plus"@,
        TokenT::Semicolon => "Semicolon"@,
        TokenT::Slash => "Slash"@,
        TokenT::Star => "Star"@,
        TokenT::Colon => "Colon"@,
        TokenT::Query => "Query"@,
        TokenT::Bang => "Bang"@,
        TokenT::BangEqual => "BangEqual"@,
        TokenT::Equal => "Equal"@,
        TokenT::EqualEqual => "EqualEqual"@,
        TokenT::Greater => "Greater"@,
        TokenT::GreaterEqual => "GreaterEqual"@,
        TokenT::Less => "Less"@,
        TokenT::LessEqual => "LessEqual"@,
        TokenT::Identifier => "Identifier"@,
        TokenT::Literal => "Literal"@,
        TokenT::EOF => "EOF"@,
        TokenT::Keyword(k) => "Keyword("@ + keyword_name(k) + ")"@,
    }
}

/// How a token prints: its kind, a space, its lexeme.
pub open spec fn token_text(t: TokenT, lex: Seq<char>) -> Seq<char> {
    token_t_name(t) + " "@ + lex
}

fn keyword_str(k: Keyword) -> (r: String)
    ensures
        r@ == keyword_name(k),
{
    match k {
        Keyword::And => string_of("And"),
        Keyword::Class => string_of("Class"),
        Keyword::Else => string_of("Else"),
        Keyword::False => string_of("False"),
        Keyword::Fun => string_of("Fun"),
        Keyword::For => string_of("For"),
        Keyword::If => string_of("If"),
        Keyword::Nil => string_of("Nil"),
        Keyword::Or => string_of("Or"),
        Keyword::Print => string_of("Print"),
        Keyword::Return => string_of("Return"),
        Keyword::Super => string_of("Super"),
        Keyword::This => string_of("This"),
        Keyword::True => string_of("True"),
        Keyword::Var => string_of("Var"),
        Keyword::While => string_of("While"),
        Keyword::Break => string_of("Break"),
    }
}

fn token_t_str(t: TokenT) -> (r: String)
    ensures
        r@ == token_t_name(t),
{
    match t {
        TokenT::LeftParen => string_of("LeftParen"),
        TokenT::RightParen => string_of("RightParen"),
        TokenT::LeftBrace => string_of("LeftBrace"),
        TokenT::RightBrace => string_of("RightBrace"),
        TokenT::Comma => string_of("Comma"),
        TokenT::Dot => string_of("Dot"),
        TokenT::Minus => string_of("Minus"),
        TokenT::Plus => string_of("Plus"),
        TokenT::Semicolon => string_of("Semicolon"),
        TokenT::Slash => string_of("Slash"),
        TokenT::Star => string_of("Star"),
        TokenT::Colon => string_of("Colon"),
        TokenT::Query => string_of("Query"),
        TokenT::Bang => string_of("Bang"),
        TokenT::BangEqual => string_of("BangEqual"),
        TokenT::Equal => string_of("Equal"),
        TokenT::EqualEqual => string_of("EqualEqual"),
        TokenT::Greater => string_of("Greater"),
        TokenT::GreaterEqual => string_of("GreaterEqual"),
        TokenT::Less => string_of("Less"),
        TokenT::LessEqual => string_of("LessEqual"),
        TokenT::Identifier => string_of("Identifier"),
        TokenT::Literal => string_of("Literal"),
        TokenT::EOF => string_of("EOF"),
        TokenT::Keyword(k) => {
            let mut s = string_of("Keyword(");
            s.append(keyword_str(k).as_str());
            s.append(")");
            s
        },
    }
}

impl LitVal {
    /// A copy of the value with the same model.
    pub fn copy(&self) -> (r: LitVal)
        ensures
            r@ == self@,
        decreases self,
    {
        match self {
            LitVal::String(s) => LitVal::String(s.clone()),
            LitVal::Number(s) => LitVal::Number(s.clone()),
            LitVal::Boolean(b) => LitVal::Boolean(*b),
            LitVal::Nil => LitVal::Nil,
            LitVal::Callable(c) => {
                let c2 = c.copy();
                LitVal::Callable(Box::new(c2))
            },
        }
    }

    /// The text of the value: a string is itself, a number its decimal text,
    /// `true`, `false`, `nil`, and a function as `Callable::to_string` gives it.
    pub fn to_string(&self) -> (r: String)
        ensures
            r@ == spec_lit_to_string(self@),
    {
        match self {
            LitVal::String(s) => s.clone(),
            LitVal::Number(n) => n.clone(),
            LitVal::Boolean(b) => {
                if *b {
                    let r = string_of("true");
                    proof { reveal_strlit("true"); }
                    assert(r@ =~= seq!['t', 'r', 'u', 'e']);
                    r
                } else {
                    let r = string_of("false");
                    proof { reveal_strlit("false"); }
                    assert(r@ =~= seq!['f', 'a', 'l', 's', 'e']);
                    r
                }
            },
            LitVal::Nil => {
                let r = string_of("nil");
                proof { reveal_strlit("nil"); }
                assert(r@ =~= seq!['n', 'i', 'l']);
                r
            },
            LitVal::Callable(c) => c.to_string(),
        }
    }

    /// The decimal text of a number, `None` for any other value.
    pub fn as_number(&self) -> (r: Option<String>)
        ensures
            match r {
                Some(s) => spec_as_number(self@) == Some(s@),
                None => spec_as_number(self@) is None,
            },
    {
        match self {
            LitVal::Number(n) => Some(n.clone()),
            _ => None,
        }
    }

    /// The text of a string, `None` for any other value.
    pub fn as_string(&self) -> (r: Option<String>)
        ensures
            match r {
                Some(s) => spec_as_string(self@) == Some(s@),
                None => spec_as_string(self@) is None,
            },
    {
        match self {
            LitVal::String(s) => Some(s.clone()),
            _ => None,
        }
    }

    /// The boolean, `None` for any other value.
    pub fn as_bool(&self) -> (r: Option<bool>)
        ensures
            r == spec_as_bool(self@),
    {
        match self {
            LitVal::Boolean(b) => Some(*b),
            _ => None,
        }
    }
}

impl Token {
    /// A token of kind `token_t`, lexeme `lex`, literal `lit` on line `ln`.
    pub fn new(token_t: TokenT, lex: String, lit: LitVal, ln: usize) -> (r: Token)
        ensures
            r.token_t == token_t,
            r.lex == lex,
            r.lit == lit,
            r.ln == ln,
    {
        Token { token_t, lex, lit, ln }
    }

    /// The kind of the token and its lexeme, as in `Identifier foo`.
    pub fn to_string(&self) -> (r: String)
        ensures
            r@ == token_text(self.token_t, self.lex@),
    {
        let mut s = token_t_str(self.token_t);
        s.append(" ");
        s.append(self.lex.as_str());
        s
    }

    /// A copy of the token with the same model.
    pub fn copy(&self) -> (r: Token)
        ensures
            r@ == self@,
        decreases self,
    {
        Token { token_t: self.token_t, lex: self.lex.clone(), lit: self.lit.copy(), ln: self.ln }
    }
}

} // verus!
