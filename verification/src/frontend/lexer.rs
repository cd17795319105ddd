pub mod token;

use vstd::prelude::*;

use crate::lox::{Lox, push_char, simple_report};
use crate::utils;
use crate::utils::{spec_is_alpha, spec_is_alpha_numeric, spec_is_number};
use token::{Keyword, LitVal, SLit, SToken, Token, TokenT, tok_view, toks_view};

verus! {

broadcast use vstd::string::axiom_spec_iter;

// ---------------------------------------------------------------------------
// The model of scanning. The source is read as a sequence of characters; a
// character outside the ASCII range that no rule accepts is reported once per
// byte of its UTF-8 encoding.
// ---------------------------------------------------------------------------

/// The character at `i`, or `'\0'` past the end.
pub open spec fn char_at(s: Seq<char>, i: int) -> char {
    if 0 <= i < s.len() { s[i] } else { '\0' }
}

/// The number of bytes of the UTF-8 encoding of `c`.
pub open spec fn utf8_width(c: char) -> nat {
    if (c as u32) < 0x80 { 1 } else if (c as u32) < 0x800 { 2 } else if (c as u32) < 0x10000 { 3 } else { 4 }
}

/// The reserved word spelled by `id`, if any (`break` is not one of them).
pub open spec fn keyword_of(id: Seq<char>) -> Option<Keyword> {
    if id == seq!['a', 'n', 'd'] { Some(Keyword::And) }
    else if id == seq!['c', 'l', 'a', 's', 's'] { Some(Keyword::Class) }
    else if id == seq!['e', 'l', 's', 'e'] { Some(Keyword::Else) }
    else if id == seq!['f', 'a', 'l', 's', 'e'] { Some(Keyword::False) }
    else if id == seq!['f', 'o', 'r'] { Some(Keyword::For) }
    else if id == seq!['f', 'u', 'n'] { Some(Keyword::Fun) }
    else if id == seq!['i', 'f'] { Some(Keyword::If) }
    else if id == seq!['n', 'i', 'l'] { Some(Keyword::Nil) }
    else if id == seq!['o', 'r'] { Some(Keyword::Or) }
    else if id == seq!['p', 'r', 'i', 'n', 't'] { Some(Keyword::Print) }
    else if id == seq!['r', 'e', 't', 'u', 'r', 'n'] { Some(Keyword::Return) }
    else if id == seq!['s', 'u', 'p', 'e', 'r'] { Some(Keyword::Super) }
    else if id == seq!['t', 'h', 'i', 's'] { Some(Keyword::This) }
    else if id == seq!['t', 'r', 'u', 'e'] { Some(Keyword::True) }
    else if id == seq!['v', 'a', 'r'] { Some(Keyword::Var) }
    else if id == seq!['w', 'h', 'i', 'l', 'e'] { Some(Keyword::While) }
    else { None }
}

/// The state of a scan: the position, the line, the tokens so far and the
/// reports so far.
pub struct SScan {
    pub cur: int,
    pub ln: nat,
    pub toks: Seq<SToken>,
    pub errs: Seq<Seq<char>>,
}

pub open spec fn mk_tok(t: TokenT, lex: Seq<char>, lit: SLit, ln: nat) -> SToken {
    SToken { token_t: t, lex, lit, ln: ln as usize }
}

/// The end of a `//` comment: the next newline or the end of the source.
pub open spec fn skip_line(s: Seq<char>, i: int) -> int
    decreases s.len() - i,
{
    if i >= s.len() || s[i] == '\n' { i } else { skip_line(s, i + 1) }
}

/// Skips the body of a `/*` comment up to (not over) the closing `*/` or the end,
/// counting the newlines.
pub open spec fn skip_block(s: Seq<char>, i: int, ln: nat) -> (int, nat)
    decreases s.len() - i,
{
    if i >= s.len() || (char_at(s, i) == '*' && char_at(s, i + 1) == '/') {
        (i, ln)
    } else {
        skip_block(s, i + 1, if s[i] == '\n' { ln + 1 } else { ln })
    }
}

/// Skips the body of a string up to (not over) the closing quote or the end,
/// counting the newlines.
pub open spec fn skip_string(s: Seq<char>, i: int, ln: nat) -> (int, nat)
    decreases s.len() - i,
{
    if i >= s.len() || s[i] == '"' {
        (i, ln)
    } else {
        skip_string(s, i + 1, if s[i] == '\n' { ln + 1 } else { ln })
    }
}

/// Skips decimal digits.
pub open spec fn skip_digits(s: Seq<char>, i: int) -> int
    decreases s.len() - i,
{
    if i < s.len() && spec_is_number(s[i]) { skip_digits(s, i + 1) } else { i }
}

/// Skips identifier characters.
pub open spec fn skip_ident(s: Seq<char>, i: int) -> int
    decreases s.len() - i,
{
    if i < s.len() && spec_is_alpha_numeric(s[i]) { skip_ident(s, i + 1) } else { i }
}

/// The end of a number that starts at `start`: digits, then a dot and digits
/// when a digit follows the dot.
pub open spec fn number_end(s: Seq<char>, start: int) -> int {
    let j = skip_digits(s, start + 1);
    if char_at(s, j) == '.' && spec_is_number(char_at(s, j + 1)) {
        skip_digits(s, j + 1)
    } else {
        j
    }
}

pub open spec fn unexpected_reports(ln: nat, n: nat) -> Seq<Seq<char>> {
    Seq::new(n, |i: int| simple_report(ln, "Unexpected character"@))
}

/// Adds a token spelled by `s[start..cur]`.
pub open spec fn add_tok(s: Seq<char>, st: SScan, start: int, cur: int, ln: nat, t: TokenT, lit: SLit) -> SScan {
    SScan { cur, ln, toks: st.toks.push(mk_tok(t, s.subrange(start, cur), lit, ln)), errs: st.errs }
}

/// The kind of a one- or two-character operator starting with `c`, when the
/// next character is `n`: `(kind, length)`.
pub open spec fn operator(c: char, n: char) -> Option<(TokenT, int)> {
    if c == '(' { Some((TokenT::LeftParen, 1)) }
    else if c == ')' { Some((TokenT::RightParen, 1)) }
    else if c == '{' { Some((TokenT::LeftBrace, 1)) }
    else if c == '}' { Some((TokenT::RightBrace, 1)) }
    else if c == ',' { Some((TokenT::Comma, 1)) }
    else if c == '.' { Some((TokenT::Dot, 1)) }
    else if c == '-' { Some((TokenT::Minus, 1)) }
    else if c == '+' { Some((TokenT::Plus, 1)) }
    else if c == ';' { Some((TokenT::Semicolon, 1)) }
    else if c == ':' { Some((TokenT::Colon, 1)) }
    else if c == '*' { Some((TokenT::Star, 1)) }
    else if c == '?' { Some((TokenT::Query, 1)) }
    else if c == '!' { if n == '=' { Some((TokenT::BangEqual, 2)) } else { Some((TokenT::Bang, 1)) } }
    else if c == '=' { if n == '=' { Some((TokenT::EqualEqual, 2)) } else { Some((TokenT::Equal, 1)) } }
    else if c == '<' { if n == '=' { Some((TokenT::LessEqual, 2)) } else { Some((TokenT::Less, 1)) } }
    else if c == '>' { if n == '=' { Some((TokenT::GreaterEqual, 2)) } else { Some((TokenT::Greater, 1)) } }
    else { None }
}

/// The rest of a string literal that starts at `start`.
pub open spec fn string_step(s: Seq<char>, st: SScan, start: int) -> SScan {
    let (j, ln2) = skip_string(s, start + 1, st.ln);
    if j >= s.len() {
        SScan { cur: j, ln: ln2, toks: st.toks, errs: st.errs.push(simple_report(ln2, "Unterminated string"@)) }
    } else {
        add_tok(s, st, start, j + 1, ln2, TokenT::Literal, SLit::Str(s.subrange(start + 1, j)))
    }
}

/// The first position in `a..b` that is not a leading zero, the last
/// digit (`b - 1`) kept.
pub open spec fn lead_end(s: Seq<char>, a: int, b: int) -> int
    decreases b - a,
{
    if a + 1 < b && s[a] == '0' { lead_end(s, a + 1, b) } else { a }
}

/// The end of `a..b` with its trailing zeros left out.
pub open spec fn trail_end(s: Seq<char>, a: int, b: int) -> int
    decreases b - a,
{
    if a < b && s[b - 1] == '0' { trail_end(s, a, b - 1) } else { b }
}

/// The value of a number literal written out in its shortest decimal form:
/// `s[start..j]` holds the integer digits and, when `frac` holds, `s[j + 1..e]`
/// the digits after the dot. Leading zeros of the integer part and trailing
/// zeros of the fraction are left out, and so is a dot with nothing after it,
/// so that `1.50` reads `1.5`, `007` reads `7` and `2.0` reads `2`.
pub open spec fn number_text(s: Seq<char>, start: int, j: int, frac: bool, e: int) -> Seq<char> {
    let int_part = s.subrange(lead_end(s, start, j), j);
    let t = trail_end(s, j + 1, e);
    if frac && t > j + 1 {
        int_part + "."@ + s.subrange(j + 1, t)
    } else {
        int_part
    }
}

/// The rest of a number that starts at `start`. The lexeme is the number as
/// written; its value is held as `number_text`.
pub open spec fn number_step(s: Seq<char>, st: SScan, start: int) -> SScan {
    let j = skip_digits(s, start + 1);
    let frac = char_at(s, j) == '.' && spec_is_number(char_at(s, j + 1));
    let e = number_end(s, start);
    add_tok(s, st, start, e, st.ln, TokenT::Literal, SLit::Num(number_text(s, start, j, frac, e)))
}

/// The rest of an identifier or reserved word that starts at `start`.
pub open spec fn ident_step(s: Seq<char>, st: SScan, start: int) -> SScan {
    let e = skip_ident(s, start + 1);
    let id = s.subrange(start, e);
    match keyword_of(id) {
        Some(Keyword::True) => add_tok(s, st, start, e, st.ln, TokenT::Keyword(Keyword::True), SLit::Bool(true)),
        Some(Keyword::False) => add_tok(s, st, start, e, st.ln, TokenT::Keyword(Keyword::False), SLit::Bool(false)),
        Some(k) => add_tok(s, st, start, e, st.ln, TokenT::Keyword(k), SLit::Nil),
        None => add_tok(s, st, start, e, st.ln, TokenT::Identifier, SLit::Nil),
    }
}

/// Scans one lexeme starting at `st.cur`, which is before the end.
pub open spec fn scan_step(s: Seq<char>, st: SScan) -> SScan {
    let start = st.cur;
    let c = s[start];
    let cur = start + 1;
    let ln = st.ln;
    if c == ' ' || c == '\r' || c == '\t' {
        SScan { cur, ..st }
    } else if c == '\n' {
        SScan { cur, ln: ln + 1, ..st }
    } else if operator(c, char_at(s, cur)) is Some {
        let (t, n) = operator(c, char_at(s, cur)).unwrap();
        add_tok(s, st, start, start + n, ln, t, SLit::Nil)
    } else if c == '/' {
        if char_at(s, cur) == '/' {
            SScan { cur: skip_line(s, cur + 1), ..st }
        } else if char_at(s, cur) == '*' {
            let (j, ln2) = skip_block(s, cur + 1, ln);
            if j >= s.len() {
                SScan { cur: j, ln: ln2, toks: st.toks, errs: st.errs.push(simple_report(ln2, "Unterminated block comment"@)) }
            } else if j + 1 >= s.len() {
                SScan { cur: j + 1, ln: ln2, toks: st.toks, errs: st.errs.push(simple_report(ln2, "Unterminated block comment"@)) }
            } else {
                SScan { cur: j + 2, ln: ln2, ..st }
            }
        } else {
            add_tok(s, st, start, cur, ln, TokenT::Slash, SLit::Nil)
        }
    } else if c == '"' {
        string_step(s, st, start)
    } else if spec_is_number(c) {
        number_step(s, st, start)
    } else if spec_is_alpha(c) {
        ident_step(s, st, start)
    } else {
        SScan { cur, ln, toks: st.toks, errs: st.errs + unexpected_reports(ln, utf8_width(c)) }
    }
}

pub proof fn lemma_skips(s: Seq<char>, i: int, ln: nat)
    ensures
        skip_line(s, i) >= i,
        skip_block(s, i, ln).0 >= i,
        skip_string(s, i, ln).0 >= i,
        skip_digits(s, i) >= i,
        skip_ident(s, i) >= i,
        i <= s.len() ==> skip_line(s, i) <= s.len(),
        i <= s.len() ==> skip_block(s, i, ln).0 <= s.len(),
        i <= s.len() ==> skip_string(s, i, ln).0 <= s.len(),
        i <= s.len() ==> skip_digits(s, i) <= s.len(),
        i <= s.len() ==> skip_ident(s, i) <= s.len(),
        skip_block(s, i, ln).1 >= ln,
        skip_string(s, i, ln).1 >= ln,
        skip_block(s, i, ln).1 <= ln + (skip_block(s, i, ln).0 - i),
        skip_string(s, i, ln).1 <= ln + (skip_string(s, i, ln).0 - i),
    decreases s.len() - i,
{
    if i < s.len() {
        lemma_skips(s, i + 1, if s[i] == '\n' { ln + 1 } else { ln });
        lemma_skips(s, i + 1, ln);
    }
}

/// One lexeme moves the position forward, stays within the source, and adds
/// at most one line per character read.
pub proof fn lemma_step(s: Seq<char>, st: SScan)
    requires
        0 <= st.cur < s.len(),
    ensures
        st.cur < scan_step(s, st).cur <= s.len(),
        st.ln <= scan_step(s, st).ln <= st.ln + (scan_step(s, st).cur - st.cur),
{
    lemma_skips(s, st.cur + 1, st.ln);
    lemma_skips(s, st.cur + 2, st.ln);
    let j = skip_digits(s, st.cur + 1);
    lemma_skips(s, j + 1, st.ln);
}

/// Scans from `st` to the end of the source.
pub open spec fn scan_rest(s: Seq<char>, st: SScan) -> SScan
    decreases s.len() - st.cur,
{
    if st.cur < 0 || st.cur >= s.len() {
        st
    } else {
        proof { lemma_step(s, st); }
        scan_rest(s, scan_step(s, st))
    }
}

/// The result of scanning from `st`: the tokens, closed by an end-of-file
/// token on the last line, and the reports.
pub open spec fn spec_scan(s: Seq<char>, st: SScan) -> SScan {
    let f = scan_rest(s, st);
    SScan { toks: f.toks.push(mk_tok(TokenT::EOF, Seq::empty(), SLit::Nil, f.ln)), ..f }
}

/// No token in `toks` marks the end of file.
pub open spec fn no_eof(toks: Seq<SToken>) -> bool {
    forall|i: int| 0 <= i < toks.len() ==> (#[trigger] toks[i]).token_t != TokenT::EOF
}

proof fn lemma_step_no_eof(s: Seq<char>, st: SScan)
    requires
        0 <= st.cur < s.len(),
        no_eof(st.toks),
    ensures
        no_eof(scan_step(s, st).toks),
{
    let st2 = scan_step(s, st);
    let c = s[st.cur];
    let e = skip_ident(s, st.cur + 1);
    assert(st2.toks == st.toks || (st2.toks.len() == st.toks.len() + 1 && st2.toks.drop_last() == st.toks
        && st2.toks.last().token_t != TokenT::EOF)) by {
        if operator(c, char_at(s, st.cur + 1)) is Some {
            assert(st2.toks.drop_last() =~= st.toks);
        } else if c == '/' {
            if char_at(s, st.cur + 1) != '/' && char_at(s, st.cur + 1) != '*' {
                assert(st2.toks.drop_last() =~= st.toks);
            }
        } else if c == '"' {
            if skip_string(s, st.cur + 1, st.ln).0 < s.len() {
                assert(st2.toks.drop_last() =~= st.toks);
            }
        } else if spec_is_number(c) {
            assert(st2.toks.drop_last() =~= st.toks);
        } else if spec_is_alpha(c) {
            assert(st2.toks.drop_last() =~= st.toks);
        }
    }
    assert forall|i: int| 0 <= i < st2.toks.len() implies (#[trigger] st2.toks[i]).token_t != TokenT::EOF by {
        if i < st.toks.len() {
            if st2.toks != st.toks {
                assert(st2.toks[i] == st2.toks.drop_last()[i]);
            }
        }
    }
}

proof fn lemma_rest_no_eof(s: Seq<char>, st: SScan)
    requires
        no_eof(st.toks),
    ensures
        no_eof(scan_rest(s, st).toks),
    decreases s.len() - st.cur,
{
    if 0 <= st.cur < s.len() {
        lemma_step(s, st);
        lemma_step_no_eof(s, st);
        lemma_rest_no_eof(s, scan_step(s, st));
    }
}

proof fn lemma_skip_ident(s: Seq<char>, i: int)
    requires
        0 <= i <= s.len(),
    ensures
        i <= skip_ident(s, i) <= s.len(),
        forall|k: int| i <= k < skip_ident(s, i) ==> spec_is_alpha_numeric(#[trigger] s[k]),
        skip_ident(s, i) == s.len() || !spec_is_alpha_numeric(s[skip_ident(s, i)]),
    decreases s.len() - i,
{
    if i < s.len() && spec_is_alpha_numeric(s[i]) {
        lemma_skip_ident(s, i + 1);
    }
}

/// A word runs over every letter, digit and underscore after its first
/// letter: scanning from a letter adds one token, spelled by the characters
/// from there to where the scan stops; each of them is a letter, a digit or
/// an underscore, and the character where it stops, if any, is none of these.
/// A word that is not a reserved word is an identifier.
pub proof fn law_word_is_maximal(s: Seq<char>, st: SScan)
    requires
        0 <= st.cur < s.len(),
        spec_is_alpha(s[st.cur]),
    ensures
        ({
            let st2 = scan_step(s, st);
            &&& st.cur < st2.cur <= s.len()
            &&& st2.toks.len() == st.toks.len() + 1
            &&& st2.toks.drop_last() == st.toks
            &&& st2.toks.last().lex == s.subrange(st.cur, st2.cur)
            &&& forall|k: int| st.cur <= k < st2.cur ==> spec_is_alpha_numeric(#[trigger] s[k])
            &&& st2.cur == s.len() || !spec_is_alpha_numeric(s[st2.cur])
            &&& keyword_of(st2.toks.last().lex) is None ==> st2.toks.last().token_t == TokenT::Identifier
        }),
{
    lemma_skip_ident(s, st.cur + 1);
    let st2 = scan_step(s, st);
    assert(st2.toks.drop_last() =~= st.toks);
}

/// Scanning closes the tokens with one end-of-file token, and only there:
/// no token before the last one marks the end of file.
pub proof fn law_one_eof(s: Seq<char>)
    ensures
        ({
            let toks = spec_scan(s, SScan { cur: 0, ln: 1, toks: Seq::empty(), errs: Seq::empty() }).toks;
            &&& toks.len() >= 1
            &&& toks.last().token_t == TokenT::EOF
            &&& no_eof(toks.drop_last())
        }),
{
    let st0 = SScan { cur: 0, ln: 1, toks: Seq::empty(), errs: Seq::empty() };
    lemma_rest_no_eof(s, st0);
    let f = scan_rest(s, st0);
    let toks = spec_scan(s, st0).toks;
    assert(toks.drop_last() =~= f.toks);
}

/// Every token is on a line from 1 to `ln`, and the lines never go down
/// from one token to the next.
pub open spec fn lines_ok(toks: Seq<SToken>, ln: nat) -> bool {
    &&& forall|i: int| 0 <= i < toks.len() ==> 1 <= (#[trigger] toks[i]).ln <= ln
    &&& forall|i: int, j: int| 0 <= i <= j < toks.len() ==> (#[trigger] toks[i]).ln <= (#[trigger] toks[j]).ln
}

proof fn lemma_step_lines(s: Seq<char>, st: SScan)
    requires
        0 <= st.cur < s.len(),
        s.len() < usize::MAX,
        1 <= st.ln <= st.cur + 1,
        lines_ok(st.toks, st.ln),
    ensures
        1 <= scan_step(s, st).ln <= scan_step(s, st).cur + 1,
        lines_ok(scan_step(s, st).toks, scan_step(s, st).ln),
{
    lemma_step(s, st);
    let st2 = scan_step(s, st);
    let c = s[st.cur];
    lemma_skips(s, st.cur + 1, st.ln);
    if st2.toks != st.toks {
        assert(st2.toks.len() == st.toks.len() + 1 && st2.toks.drop_last() =~= st.toks
            && st.ln <= st2.toks.last().ln <= st2.ln) by {
            if operator(c, char_at(s, st.cur + 1)) is Some {
            } else if c == '/' {
            } else if c == '"' {
            } else if spec_is_number(c) {
            } else if spec_is_alpha(c) {
            }
        }
        assert forall|i: int| 0 <= i < st2.toks.len() implies 1 <= (#[trigger] st2.toks[i]).ln <= st2.ln by {
            if i < st.toks.len() {
                assert(st2.toks[i] == st2.toks.drop_last()[i]);
            }
        }
        assert forall|i: int, j: int| 0 <= i <= j < st2.toks.len() implies
            (#[trigger] st2.toks[i]).ln <= (#[trigger] st2.toks[j]).ln by {
            if j < st.toks.len() {
                assert(st2.toks[i] == st2.toks.drop_last()[i]);
                assert(st2.toks[j] == st2.toks.drop_last()[j]);
            } else if i < st.toks.len() {
                assert(st2.toks[i] == st2.toks.drop_last()[i]);
            }
        }
    }
}

proof fn lemma_rest_lines(s: Seq<char>, st: SScan)
    requires
        0 <= st.cur,
        s.len() < usize::MAX,
        1 <= st.ln <= st.cur + 1,
        lines_ok(st.toks, st.ln),
    ensures
        lines_ok(scan_rest(s, st).toks, scan_rest(s, st).ln),
        scan_rest(s, st).ln >= 1,
        scan_rest(s, st).ln <= scan_rest(s, st).cur + 1,
    decreases s.len() - st.cur,
{
    if st.cur < s.len() {
        lemma_step(s, st);
        lemma_step_lines(s, st);
        lemma_rest_lines(s, scan_step(s, st));
    }
}

/// Every token of a scan is on a line numbered from 1, and the lines of the
/// tokens never go down, the closing end of file included.
pub proof fn law_lines_ordered(s: Seq<char>)
    requires
        s.len() < usize::MAX,
    ensures
        ({
            let toks = spec_scan(s, SScan { cur: 0, ln: 1, toks: Seq::empty(), errs: Seq::empty() }).toks;
            &&& forall|i: int| 0 <= i < toks.len() ==> (#[trigger] toks[i]).ln >= 1
            &&& forall|i: int, j: int| 0 <= i <= j < toks.len() ==> (#[trigger] toks[i]).ln <= (#[trigger] toks[j]).ln
        }),
{
    let st0 = SScan { cur: 0, ln: 1, toks: Seq::empty(), errs: Seq::empty() };
    lemma_rest_lines(s, st0);
    let f = scan_rest(s, st0);
    lemma_rest_cur(s, st0);
    let toks = spec_scan(s, st0).toks;
    assert(toks.drop_last() =~= f.toks);
    assert forall|i: int| 0 <= i < toks.len() implies (#[trigger] toks[i]).ln >= 1 by {
        if i < f.toks.len() {
            assert(toks[i] == f.toks[i]);
        }
    }
    assert forall|i: int, j: int| 0 <= i <= j < toks.len() implies (#[trigger] toks[i]).ln <= (#[trigger] toks[j]).ln by {
        if j < f.toks.len() {
            assert(toks[i] == f.toks[i]);
            assert(toks[j] == f.toks[j]);
        } else if i < f.toks.len() {
            assert(toks[i] == f.toks[i]);
        }
    }
}

/// A scan from the start ends at the end of the source.
proof fn lemma_rest_cur(s: Seq<char>, st: SScan)
    requires
        0 <= st.cur <= s.len(),
    ensures
        scan_rest(s, st).cur == s.len(),
    decreases s.len() - st.cur,
{
    if st.cur < s.len() {
        lemma_step(s, st);
        lemma_rest_cur(s, scan_step(s, st));
    }
}

// ---------------------------------------------------------------------------
// The scanner.
// ---------------------------------------------------------------------------

/// The characters of `s`, in order.
fn chars_of(s: &str) -> (r: Vec<char>)
    ensures
        r@ == s@,
{
    let mut v: Vec<char> = Vec::new();
    for c in it: s.chars()
        invariant
            v@ == it.seq().take(it.index() as int),
    {
        v.push(c);
    }
    v
}

fn utf8_len(c: char) -> (r: usize)
    ensures
        r == utf8_width(c),
{
    let u = c as u32;
    if u < 0x80 { 1 } else if u < 0x800 { 2 } else if u < 0x10000 { 3 } else { 4 }
}

fn eq_chars(a: &Vec<char>, b: &[char]) -> (r: bool)
    ensures
        r == (a@ == b@),
{
    if a.len() != b.len() {
        return false;
    }
    let mut i: usize = 0;
    while i < a.len()
        invariant
            a.len() == b.len(),
            i <= a.len(),
            forall|j: int| 0 <= j < i ==> a@[j] == b@[j],
        decreases a.len() - i,
    {
        if a[i] != b[i] {
            return false;
        }
        i += 1;
    }
    assert(a@ =~= b@);
    true
}

/// The reserved word spelled by `ident`, as a token kind.
fn lookup_keyword(ident: &Vec<char>) -> (r: Option<TokenT>)
    ensures
        r == (match keyword_of(ident@) {
            Some(k) => Some(TokenT::Keyword(k)),
            None => None,
        }),
{
    let k = if eq_chars(ident, &['a', 'n', 'd']) { Some(Keyword::And) }
    else if eq_chars(ident, &['c', 'l', 'a', 's', 's']) { Some(Keyword::Class) }
    else if eq_chars(ident, &['e', 'l', 's', 'e']) { Some(Keyword::Else) }
    else if eq_chars(ident, &['f', 'a', 'l', 's', 'e']) { Some(Keyword::False) }
    else if eq_chars(ident, &['f', 'o', 'r']) { Some(Keyword::For) }
    else if eq_chars(ident, &['f', 'u', 'n']) { Some(Keyword::Fun) }
    else if eq_chars(ident, &['i', 'f']) { Some(Keyword::If) }
    else if eq_chars(ident, &['n', 'i', 'l']) { Some(Keyword::Nil) }
    else if eq_chars(ident, &['o', 'r']) { Some(Keyword::Or) }
    else if eq_chars(ident, &['p', 'r', 'i', 'n', 't']) { Some(Keyword::Print) }
    else if eq_chars(ident, &['r', 'e', 't', 'u', 'r', 'n']) { Some(Keyword::Return) }
    else if eq_chars(ident, &['s', 'u', 'p', 'e', 'r']) { Some(Keyword::Super) }
    else if eq_chars(ident, &['t', 'h', 'i', 's']) { Some(Keyword::This) }
    else if eq_chars(ident, &['t', 'r', 'u', 'e']) { Some(Keyword::True) }
    else if eq_chars(ident, &['v', 'a', 'r']) { Some(Keyword::Var) }
    else if eq_chars(ident, &['w', 'h', 'i', 'l', 'e']) { Some(Keyword::While) }
    else { None };
    match k {
        Some(k) => Some(TokenT::Keyword(k)),
        None => None,
    }
}

/// Turns source text into tokens.
pub struct Scanner {
    src: Vec<char>,
    tkns: Vec<Token>,
    start: usize,
    cur: usize,
    ln: usize,
}

impl Scanner {
    /// The characters being scanned.
    pub closed spec fn source(&self) -> Seq<char> {
        self.src@
    }

    /// The state of the scan, in the terms of the model.
    pub closed spec fn state(&self) -> SScan {
        SScan { cur: self.cur as int, ln: self.ln as nat, toks: toks_view(self.tkns), errs: Seq::empty() }
    }

    /// The scanner is in a state its methods accept.
    pub closed spec fn wf(&self) -> bool {
        &&& self.start <= self.cur <= self.src@.len()
        &&& self.src@.len() < usize::MAX
        &&& self.ln <= self.cur + 1
    }

    /// A scanner at the start of `src`, on line 1.
    pub fn new(src: String) -> (r: Scanner)
        requires
            src@.len() < usize::MAX,
        ensures
            r.wf(),
            r.source() == src@,
            r.state() == (SScan { cur: 0, ln: 1, toks: Seq::empty(), errs: Seq::empty() }),
    {
        let chars = chars_of(src.as_str());
        let r = Scanner { src: chars, tkns: Vec::new(), start: 0, cur: 0, ln: 1 };
        assert(toks_view(r.tkns) =~= Seq::<SToken>::empty());
        r
    }

    /// Scans the rest of the source. Returns the tokens read, closed by an
    /// end-of-file token, and reports each lexical error to `lox`, in order.
    pub fn scan_tokens(&mut self, lox: &mut Lox) -> (r: Vec<Token>)
        requires
            old(self).wf(),
        ensures
            toks_view(r) == spec_scan(old(self).source(), old(self).state()).toks,
            final(lox)@.errors == old(lox)@.errors + spec_scan(old(self).source(), old(self).state()).errs,
            final(lox)@.had_parse_err == old(lox)@.had_parse_err,
            final(lox)@.had_runtime_err == old(lox)@.had_runtime_err,
            final(self).wf(),
            final(self).source() == old(self).source(),
    {
        let ghost s = self.src@;
        let ghost st0 = self.state();
        let ghost errs0 = lox@.errors;
        assert(lox@.errors.subrange(errs0.len() as int, lox@.errors.len() as int) =~= Seq::<Seq<char>>::empty());
        assert(lox@.errors.subrange(0, errs0.len() as int) =~= errs0);
        while !self.is_at_end()
            invariant
                self.wf(),
                self.src@ == s,
                self.src == old(self).src,
                0 <= st0.cur <= self.cur,
                scan_rest(s, st0) == scan_rest(s, SScan { errs: lox@.errors.subrange(errs0.len() as int, lox@.errors.len() as int), ..self.state() }),
                lox@.errors.len() >= errs0.len(),
                lox@.errors.subrange(0, errs0.len() as int) == errs0,
                lox@.had_parse_err == old(lox)@.had_parse_err,
                lox@.had_runtime_err == old(lox)@.had_runtime_err,
                errs0 == old(lox)@.errors,
                st0.errs == Seq::<Seq<char>>::empty(),
            decreases s.len() - self.cur,
        {
            self.start = self.cur;
            let ghost before = SScan { errs: lox@.errors.subrange(errs0.len() as int, lox@.errors.len() as int), ..self.state() };
            let ghost e_before = lox@.errors;
            self.scan_tkn(lox);
            proof {
                lemma_step(s, before);
                assert(lox@.errors.subrange(errs0.len() as int, lox@.errors.len() as int)
                    =~= scan_step(s, before).errs);
                assert(lox@.errors.subrange(0, errs0.len() as int) =~= errs0);
            }
        }
        let ghost fin = SScan { errs: lox@.errors.subrange(errs0.len() as int, lox@.errors.len() as int), ..self.state() };
        self.add_tkn(TokenT::EOF);
        proof {
            assert(scan_rest(s, fin) == fin);
            assert(lox@.errors =~= old(lox)@.errors + spec_scan(s, st0).errs);
        }
        let mut out: Vec<Token> = Vec::new();
        std::mem::swap(&mut out, &mut self.tkns);
        assert(toks_view(self.tkns) =~= Seq::<SToken>::empty());
        out
    }

    fn scan_tkn(&mut self, lox: &mut Lox)
        requires
            old(self).wf(),
            old(self).start == old(self).cur,
            old(self).cur < old(self).src@.len(),
        ensures
            final(self).wf(),
            final(self).src == old(self).src,
            (SScan { errs: final(lox)@.errors, ..final(self).state() })
                == scan_step(old(self).src@, (SScan { errs: old(lox)@.errors, ..old(self).state() })),
            final(lox)@.had_parse_err == old(lox)@.had_parse_err,
            final(lox)@.had_runtime_err == old(lox)@.had_runtime_err,
    {
        let ghost s = self.src@;
        let ghost st = SScan { errs: lox@.errors, ..self.state() };
        proof { lemma_step(s, st); lemma_skips(s, st.cur + 1, st.ln); lemma_skips(s, st.cur + 2, st.ln); }
        let c = self.next();
        if c == ' ' || c == '\r' || c == '\t' {
        } else if c == '\n' {
            self.ln += 1;
        } else if c == '(' {
            self.add_tkn(TokenT::LeftParen);
        } else if c == ')' {
            self.add_tkn(TokenT::RightParen);
        } else if c == '{' {
            self.add_tkn(TokenT::LeftBrace);
        } else if c == '}' {
            self.add_tkn(TokenT::RightBrace);
        } else if c == ',' {
            self.add_tkn(TokenT::Comma);
        } else if c == '.' {
            self.add_tkn(TokenT::Dot);
        } else if c == '-' {
            self.add_tkn(TokenT::Minus);
        } else if c == '+' {
            self.add_tkn(TokenT::Plus);
        } else if c == ';' {
            self.add_tkn(TokenT::Semicolon);
        } else if c == ':' {
            self.add_tkn(TokenT::Colon);
        } else if c == '*' {
            self.add_tkn(TokenT::Star);
        } else if c == '?' {
            self.add_tkn(TokenT::Query);
        } else if c == '!' {
            let token_t = if self.match_nxt('=') { TokenT::BangEqual } else { TokenT::Bang };
            self.add_tkn(token_t);
        } else if c == '=' {
            let token_t = if self.match_nxt('=') { TokenT::EqualEqual } else { TokenT::Equal };
            self.add_tkn(token_t);
        } else if c == '<' {
            let token_t = if self.match_nxt('=') { TokenT::LessEqual } else { TokenT::Less };
            self.add_tkn(token_t);
        } else if c == '>' {
            let token_t = if self.match_nxt('=') { TokenT::GreaterEqual } else { TokenT::Greater };
            self.add_tkn(token_t);
        } else if c == '/' {
            if self.match_nxt('/') {
                while self.peek() != '\n' && !self.is_at_end()
                    invariant
                        self.wf(),
                        self.src@ == s,
                self.src == old(self).src,
                        self.src == old(self).src,
                        self.ln == st.ln,
                        self.tkns == old(self).tkns,
                        st.cur + 2 <= self.cur,
                        skip_line(s, self.cur as int) == skip_line(s, st.cur + 2),
                    decreases s.len() - self.cur,
                {
                    self.next();
                }
            } else if self.match_nxt('*') {
                while !(self.peek() == '*' && self.peek_nxt() == '/') && !self.is_at_end()
                    invariant
                        self.wf(),
                        self.src@ == s,
                self.src == old(self).src,
                        self.src == old(self).src,
                        self.tkns == old(self).tkns,
                        st.cur + 2 <= self.cur,
                        skip_block(s, self.cur as int, self.ln as nat) == skip_block(s, st.cur + 2, st.ln),
                    decreases s.len() - self.cur,
                {
                    if self.peek() == '\n' {
                        self.ln += 1;
                    }
                    self.next();
                }
                if !self.is_at_end() {
                    self.next();
                } else {
                    lox.error_simple(self.ln, "Unterminated block comment");
                    return;
                }
                if !self.is_at_end() {
                    self.next();
                } else {
                    lox.error_simple(self.ln, "Unterminated block comment");
                }
            } else {
                self.add_tkn(TokenT::Slash);
            }
        } else if c == '"' {
            self.string(lox);
        } else if utils::is_number(c) {
            self.number();
        } else if utils::is_alpha(c) {
            self.identifier();
        } else {
            let w = utf8_len(c);
            let mut k: usize = 0;
            while k < w
                invariant
                    k <= w,
                    w == utf8_width(c),
                    lox@.errors == st.errs + unexpected_reports(st.ln, k as nat),
                    lox@.had_parse_err == old(lox)@.had_parse_err,
                    lox@.had_runtime_err == old(lox)@.had_runtime_err,
                    self.ln == st.ln,
                decreases w - k,
            {
                lox.error_simple(self.ln, "Unexpected character");
                k += 1;
                assert(lox@.errors =~= st.errs + unexpected_reports(st.ln, k as nat));
            }
        }
    }

    fn string(&mut self, lox: &mut Lox)
        requires
            old(self).wf(),
            old(self).start + 1 == old(self).cur,
            old(self).src@[old(self).start as int] == '"',
        ensures
            final(self).wf(),
            final(self).src == old(self).src,
            (SScan { errs: final(lox)@.errors, ..final(self).state() }) == string_step(
                old(self).src@, (SScan { errs: old(lox)@.errors, ..old(self).state() }), old(self).start as int),
            final(lox)@.had_parse_err == old(lox)@.had_parse_err,
            final(lox)@.had_runtime_err == old(lox)@.had_runtime_err,
    {
        let ghost s = self.src@;
        let ghost c0 = self.cur;
        let ghost l0 = self.ln;
        proof { lemma_skips(s, c0 as int, l0 as nat); }
        while self.peek() != '"' && !self.is_at_end()
            invariant
                self.wf(),
                self.src@ == s,
                self.src == old(self).src,
                self.tkns == old(self).tkns,
                self.start == old(self).start,
                c0 <= self.cur,
                skip_string(s, self.cur as int, self.ln as nat) == skip_string(s, c0 as int, l0 as nat),
            decreases s.len() - self.cur,
        {
            if self.peek() == '\n' {
                self.ln += 1;
            }
            self.next();
        }
        if self.is_at_end() {
            lox.error_simple(self.ln, "Unterminated string");
            return;
        }
        self.next();
        let lit = self.substring(self.start + 1, self.cur - 1);
        self.add_tkn_lit(TokenT::Literal, LitVal::String(lit));
    }

    fn number(&mut self)
        requires
            old(self).wf(),
            old(self).start + 1 == old(self).cur,
            spec_is_number(old(self).src@[old(self).start as int]),
        ensures
            final(self).wf(),
            final(self).src == old(self).src,
            final(self).state() == number_step(old(self).src@, old(self).state(), old(self).start as int),
    {
        let ghost s = self.src@;
        let ghost c0 = self.cur;
        proof { lemma_skips(s, c0 as int, 0); }
        while utils::is_number(self.peek())
            invariant
                self.wf(),
                self.src@ == s,
                self.src == old(self).src,
                self.tkns == old(self).tkns,
                self.start == old(self).start,
                self.ln == old(self).ln,
                c0 <= self.cur,
                skip_digits(s, self.cur as int) == skip_digits(s, c0 as int),
            decreases s.len() - self.cur,
        {
            self.next();
        }
        let j = self.cur;
        proof { lemma_skips(s, j + 1, 0); }
        let frac = self.peek() == '.' && utils::is_number(self.peek_nxt());
        if frac {
            self.next();
            while utils::is_number(self.peek())
                invariant
                    self.wf(),
                    self.src@ == s,
                self.src == old(self).src,
                    self.tkns == old(self).tkns,
                    self.start == old(self).start,
                    self.ln == old(self).ln,
                    j + 1 <= self.cur,
                    skip_digits(s, self.cur as int) == skip_digits(s, j + 1),
                decreases s.len() - self.cur,
            {
                self.next();
            }
        }
        let lit = self.number_text(self.start, j, frac, self.cur);
        self.add_tkn_lit(TokenT::Literal, LitVal::Number(lit));
    }

    /// The value of the number literal `src[a..e]` in its shortest decimal form.
    fn number_text(&self, a: usize, j: usize, frac: bool, e: usize) -> (r: String)
        requires
            a < j <= e <= self.src@.len(),
            frac ==> j + 1 <= e,
        ensures
            r@ == number_text(self.src@, a as int, j as int, frac, e as int),
    {
        let ghost s = self.src@;
        let mut k = a;
        while k + 1 < j && self.src[k] == '0'
            invariant
                a <= k < j <= self.src@.len(),
                s == self.src@,
                lead_end(s, a as int, j as int) == lead_end(s, k as int, j as int),
            decreases j - k,
        {
            k += 1;
        }
        let mut r = self.substring(k, j);
        if frac {
            let mut t = e;
            while t > j + 1 && self.src[t - 1] == '0'
                invariant
                    j + 1 <= t <= e <= self.src@.len(),
                    s == self.src@,
                    trail_end(s, j + 1, e as int) == trail_end(s, j + 1, t as int),
                decreases t,
            {
                t -= 1;
            }
            if t > j + 1 {
                r.append(".");
                let f = self.substring(j + 1, t);
                r.append(f.as_str());
            }
        }
        r
    }

    fn identifier(&mut self)
        requires
            old(self).wf(),
            old(self).start + 1 == old(self).cur,
            spec_is_alpha(old(self).src@[old(self).start as int]),
        ensures
            final(self).wf(),
            final(self).src == old(self).src,
            final(self).state() == ident_step(old(self).src@, old(self).state(), old(self).start as int),
    {
        let ghost s = self.src@;
        let ghost c0 = self.cur;
        proof { lemma_skips(s, c0 as int, 0); }
        while utils::is_alpha_numeric(self.peek())
            invariant
                self.wf(),
                self.src@ == s,
                self.src == old(self).src,
                self.tkns == old(self).tkns,
                self.start == old(self).start,
                self.ln == old(self).ln,
                c0 <= self.cur,
                skip_ident(s, self.cur as int) == skip_ident(s, c0 as int),
            decreases s.len() - self.cur,
        {
            self.next();
        }
        let mut id: Vec<char> = Vec::new();
        let mut i = self.start;
        while i < self.cur
            invariant
                self.start <= i <= self.cur <= self.src@.len(),
                id@ == self.src@.subrange(self.start as int, i as int),
            decreases self.cur - i,
        {
            id.push(self.src[i]);
            i += 1;
            assert(id@ =~= self.src@.subrange(self.start as int, i as int));
        }
        match lookup_keyword(&id) {
            Some(tt) => match tt {
                TokenT::Keyword(Keyword::True) => self.add_tkn_lit(tt, LitVal::Boolean(true)),
                TokenT::Keyword(Keyword::False) => self.add_tkn_lit(tt, LitVal::Boolean(false)),
                _ => self.add_tkn(tt),
            },
            None => self.add_tkn(TokenT::Identifier),
        }
    }

    fn is_at_end(&self) -> (r: bool)
        ensures
            r == (self.cur >= self.src@.len()),
    {
        self.cur >= self.src.len()
    }

    fn peek(&self) -> (r: char)
        ensures
            r == char_at(self.src@, self.cur as int),
    {
        if self.is_at_end() {
            return '\0';
        }
        self.src[self.cur]
    }

    fn peek_nxt(&self) -> (r: char)
        requires
            self.cur < usize::MAX,
        ensures
            r == char_at(self.src@, self.cur + 1),
    {
        if self.cur + 1 >= self.src.len() {
            return '\0';
        }
        self.src[self.cur + 1]
    }

    fn next(&mut self) -> (r: char)
        requires
            old(self).cur < old(self).src@.len() < usize::MAX,
        ensures
            final(self).cur == old(self).cur + 1,
            r == old(self).src@[old(self).cur as int],
            final(self).src == old(self).src,
            final(self).tkns == old(self).tkns,
            final(self).start == old(self).start,
            final(self).ln == old(self).ln,
    {
        self.cur += 1;
        self.cur_char()
    }

    fn match_nxt(&mut self, exp: char) -> (r: bool)
        requires
            old(self).cur <= old(self).src@.len() < usize::MAX,
        ensures
            r == (char_at(old(self).src@, old(self).cur as int) == exp && old(self).cur < old(self).src@.len()),
            final(self).cur == if r { old(self).cur + 1 } else { old(self).cur as int },
            final(self).src == old(self).src,
            final(self).tkns == old(self).tkns,
            final(self).start == old(self).start,
            final(self).ln == old(self).ln,
    {
        if self.is_at_end() {
            return false;
        }
        if self.peek() != exp {
            return false;
        }
        self.cur += 1;
        true
    }

    fn substring(&self, a: usize, b: usize) -> (r: String)
        requires
            a <= b <= self.src@.len(),
        ensures
            r@ == self.src@.subrange(a as int, b as int),
    {
        let mut r = String::new();
        let mut i = a;
        while i < b
            invariant
                a <= i <= b,
                b <= self.src@.len(),
                r@ == self.src@.subrange(a as int, i as int),
            decreases b - i,
        {
            push_char(&mut r, self.src[i]);
            i += 1;
            assert(r@ =~= self.src@.subrange(a as int, i as int));
        }
        r
    }

    fn add_tkn(&mut self, token_t: TokenT)
        requires
            old(self).start <= old(self).cur <= old(self).src@.len(),
        ensures
            toks_view(final(self).tkns) == toks_view(old(self).tkns).push(mk_tok(
                token_t,
                if token_t == TokenT::EOF { Seq::empty() } else { old(self).src@.subrange(old(self).start as int, old(self).cur as int) },
                SLit::Nil,
                old(self).ln as nat,
            )),
            final(self).src == old(self).src,
            final(self).start == old(self).start,
            final(self).cur == old(self).cur,
            final(self).ln == old(self).ln,
    {
        self.add_tkn_lit(token_t, LitVal::Nil);
    }

    fn add_tkn_lit(&mut self, token_t: TokenT, lit: LitVal)
        requires
            old(self).start <= old(self).cur <= old(self).src@.len(),
        ensures
            toks_view(final(self).tkns) == toks_view(old(self).tkns).push(mk_tok(
                token_t,
                if token_t == TokenT::EOF { Seq::empty() } else { old(self).src@.subrange(old(self).start as int, old(self).cur as int) },
                lit@,
                old(self).ln as nat,
            )),
            final(self).src == old(self).src,
            final(self).start == old(self).start,
            final(self).cur == old(self).cur,
            final(self).ln == old(self).ln,
    {
        let txt = if token_t != TokenT::EOF {
            self.substring(self.start, self.cur)
        } else {
            String::new()
        };
        let ghost old_toks = toks_view(self.tkns);
        let t = Token::new(token_t, txt, lit, self.ln);
        self.tkns.push(t);
        assert(toks_view(self.tkns) =~= old_toks.push(tok_view(t)));
    }

    fn cur_char(&self) -> (r: char)
        requires
            0 < self.cur <= self.src@.len(),
        ensures
            r == self.src@[self.cur - 1],
    {
        self.src[self.cur - 1]
    }
}

} // verus!
