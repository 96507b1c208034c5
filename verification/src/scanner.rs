//! The lexer: consumes source text left to right, one token per step,
//! with one character of lookahead (two for the fractional part of a
//! number), tracking a line counter for diagnostics.  Lexical errors are
//! recorded and reported; they never stop the scan.
//!
//! `scan_step` is the specification of one step and `scan_from` of the
//! whole scan; `Scanner::scan_tokens` is proved to produce exactly that
//! token and error sequence, with the end-of-input marker appended.

use vstd::prelude::*;
use crate::text::{
    all_digits, dec_digits, digits_val, digits_u64, chars_string, is_digit, char_is_digit,
    str_chars, u64_text,
};
use crate::token::{Token, TokenModel, TokenType};
use crate::lox::Lox;

verus! {

/// A recorded lexical diagnostic.
#[derive(Clone, Debug)]
pub struct LexError {
    pub line: u64,
    pub message: String,
}

/// The ghost image of a lexical diagnostic.
pub struct LexErrorModel {
    pub line: int,
    pub message: Seq<char>,
}

impl View for LexError {
    type V = LexErrorModel;

    open spec fn view(&self) -> LexErrorModel {
        LexErrorModel { line: self.line as int, message: self.message@ }
    }
}

/// What one scanner step produces: at most one token, at most one
/// diagnostic, and the next cursor position and line.
pub struct ScanItem {
    pub tok: Option<TokenModel>,
    pub err: Option<LexErrorModel>,
    pub next: int,
    pub next_line: int,
}

/// What a whole scan produces, and the line the cursor ends on.
pub struct ScanOut {
    pub toks: Seq<TokenModel>,
    pub errs: Seq<LexErrorModel>,
    pub end_line: int,
}

pub open spec fn is_alpha(c: char) -> bool {
    ('a' <= c && c <= 'z') || ('A' <= c && c <= 'Z') || c == '_'
}

pub open spec fn is_alnum(c: char) -> bool {
    is_alpha(c) || is_digit(c)
}

/// The index of the first character at or after `i` that fails `p`, or
/// the end of the text.
pub open spec fn run_end(s: Seq<char>, i: int, p: spec_fn(char) -> bool) -> int
    decreases s.len() - i,
{
    if i < s.len() && p(s[i]) {
        run_end(s, i + 1, p)
    } else {
        i
    }
}

/// The characters a string literal runs over.
pub open spec fn p_not_quote() -> spec_fn(char) -> bool {
    |c: char| c != '"'
}

/// The characters a line comment runs over.
pub open spec fn p_not_nl() -> spec_fn(char) -> bool {
    |c: char| c != '\n'
}

/// The characters a digit run runs over.
pub open spec fn p_digit() -> spec_fn(char) -> bool {
    |c: char| is_digit(c)
}

/// The characters an identifier runs over.
pub open spec fn p_alnum() -> spec_fn(char) -> bool {
    |c: char| is_alnum(c)
}

pub proof fn lemma_run_end(s: Seq<char>, i: int, p: spec_fn(char) -> bool)
    requires
        0 <= i <= s.len(),
    ensures
        i <= run_end(s, i, p) <= s.len(),
        forall|k: int| i <= k < run_end(s, i, p) ==> p(#[trigger] s[k]),
        run_end(s, i, p) < s.len() ==> !p(s[run_end(s, i, p)]),
    decreases s.len() - i,
{
    if i < s.len() && p(s[i]) {
        lemma_run_end(s, i + 1, p);
    }
}

/// The number of newline characters in `s[i..j]`.
pub open spec fn nl_count(s: Seq<char>, i: int, j: int) -> int
    decreases j - i,
{
    if j <= i {
        0
    } else {
        nl_count(s, i, j - 1) + if s[j - 1] == '\n' { 1int } else { 0int }
    }
}

pub proof fn lemma_nl_count_bounds(s: Seq<char>, i: int, j: int)
    requires
        i <= j,
    ensures
        0 <= nl_count(s, i, j) <= j - i,
    decreases j - i,
{
    if j > i {
        lemma_nl_count_bounds(s, i, j - 1);
    }
}

/// The fixed keyword table: the kinds reserved identifiers scan to.
pub open spec fn keyword_of(s: Seq<char>) -> Option<TokenType> {
    if s == "and"@ { Option::Some(TokenType::And) }
    else if s == "class"@ { Option::Some(TokenType::Class) }
    else if s == "else"@ { Option::Some(TokenType::Else) }
    else if s == "false"@ { Option::Some(TokenType::False) }
    else if s == "for"@ { Option::Some(TokenType::For) }
    else if s == "fun"@ { Option::Some(TokenType::Fun) }
    else if s == "if"@ { Option::Some(TokenType::If) }
    else if s == "nil"@ { Option::Some(TokenType::Nil) }
    else if s == "or"@ { Option::Some(TokenType::Or) }
    else if s == "print"@ { Option::Some(TokenType::Print) }
    else if s == "return"@ { Option::Some(TokenType::Return) }
    else if s == "super"@ { Option::Some(TokenType::Super) }
    else if s == "this"@ { Option::Some(TokenType::This) }
    else if s == "true"@ { Option::Some(TokenType::True) }
    else if s == "var"@ { Option::Some(TokenType::Var) }
    else if s == "while"@ { Option::Some(TokenType::While) }
    else { Option::None }
}

/// The kind a lone character scans to, for the unconditional
/// single-character tokens.
pub open spec fn single_kind(c: char) -> Option<TokenType> {
    if c == '(' { Option::Some(TokenType::LeftParen) }
    else if c == ')' { Option::Some(TokenType::RightParen) }
    else if c == '{' { Option::Some(TokenType::LeftBrace) }
    else if c == '}' { Option::Some(TokenType::RightBrace) }
    else if c == ',' { Option::Some(TokenType::Comma) }
    else if c == '.' { Option::Some(TokenType::Dot) }
    else if c == '-' { Option::Some(TokenType::Minus) }
    else if c == '+' { Option::Some(TokenType::Plus) }
    else if c == ';' { Option::Some(TokenType::Semicolon) }
    else if c == '*' { Option::Some(TokenType::Star) }
    else { Option::None }
}

pub open spec fn token_item(s: Seq<char>, i: int, line: int, tty: TokenType, lexeme_end: int, literal: Option<Seq<char>>) -> ScanItem {
    ScanItem {
        tok: Option::Some(TokenModel {
            tty,
            lexeme: s.subrange(i, lexeme_end),
            literal,
            line,
        }),
        err: Option::None,
        next: lexeme_end,
        next_line: line,
    }
}

pub open spec fn quiet_item(i: int, line: int) -> ScanItem {
    ScanItem { tok: Option::None, err: Option::None, next: i, next_line: line }
}

pub open spec fn error_item(i: int, line: int, at_line: int, message: Seq<char>) -> ScanItem {
    ScanItem {
        tok: Option::None,
        err: Option::Some(LexErrorModel { line: at_line, message }),
        next: i,
        next_line: line,
    }
}

/// An operator that pairs with a following `=` into a two-character kind.
pub open spec fn two_sym_item(s: Seq<char>, i: int, line: int, alone: TokenType, with_eq: TokenType) -> ScanItem {
    if i + 1 < s.len() && s[i + 1] == '=' {
        token_item(s, i, line, with_eq, i + 2, Option::None)
    } else {
        token_item(s, i, line, alone, i + 1, Option::None)
    }
}

/// A string literal: the lexeme keeps the quotes, the payload drops
/// them; an unterminated string is one diagnostic at the line the string
/// started on.
pub open spec fn string_item(s: Seq<char>, i: int, line: int) -> ScanItem {
    let e = run_end(s, i + 1, p_not_quote());
    let nls = nl_count(s, i + 1, e);
    if e >= s.len() {
        error_item(s.len() as int, line + nls, line, "Unterminated string"@)
    } else {
        ScanItem {
            tok: Option::Some(TokenModel {
                tty: TokenType::String,
                lexeme: s.subrange(i, e + 1),
                literal: Option::Some(s.subrange(i + 1, e)),
                line: line + nls,
            }),
            err: Option::None,
            next: e + 1,
            next_line: line + nls,
        }
    }
}

/// A number: a digit run, optionally continued by `.` and another digit
/// run when a digit follows the dot.  The payload is the canonical
/// decimal text of the value; a fractional part or a value beyond `u64`
/// has no integer encoding and is one diagnostic instead.
pub open spec fn number_item(s: Seq<char>, i: int, line: int) -> ScanItem {
    let d1 = run_end(s, i, p_digit());
    let e = if d1 + 1 < s.len() && s[d1] == '.' && is_digit(s[d1 + 1]) {
        run_end(s, d1 + 1, p_digit())
    } else {
        d1
    };
    if e == d1 && digits_val(s.subrange(i, d1)) <= u64::MAX {
        token_item(s, i, line, TokenType::Number, d1,
            Option::Some(dec_digits(digits_val(s.subrange(i, d1)))))
    } else {
        error_item(e, line, line, "Malformed number"@)
    }
}

/// An identifier: a maximal alphanumeric run, looked up in the keyword
/// table.
pub open spec fn ident_item(s: Seq<char>, i: int, line: int) -> ScanItem {
    let e = run_end(s, i, p_alnum());
    let tty = match keyword_of(s.subrange(i, e)) {
        Option::Some(k) => k,
        Option::None => TokenType::Identifier,
    };
    token_item(s, i, line, tty, e, Option::None)
}

/// One scanner step at position `i`, line `line`.
pub open spec fn scan_step(s: Seq<char>, i: int, line: int) -> ScanItem
    recommends
        0 <= i < s.len(),
{
    let c = s[i];
    if single_kind(c) is Some {
        token_item(s, i, line, single_kind(c)->Some_0, i + 1, Option::None)
    } else if c == '!' {
        two_sym_item(s, i, line, TokenType::Bang, TokenType::BangEqual)
    } else if c == '=' {
        two_sym_item(s, i, line, TokenType::Equal, TokenType::EqualEqual)
    } else if c == '<' {
        two_sym_item(s, i, line, TokenType::Less, TokenType::LessEqual)
    } else if c == '>' {
        two_sym_item(s, i, line, TokenType::Greater, TokenType::GreaterEqual)
    } else if c == '/' {
        if i + 1 < s.len() && s[i + 1] == '/' {
            quiet_item(run_end(s, i + 2, p_not_nl()), line)
        } else {
            token_item(s, i, line, TokenType::Slash, i + 1, Option::None)
        }
    } else if c == ' ' || c == '\r' || c == '\t' {
        quiet_item(i + 1, line)
    } else if c == '\n' {
        quiet_item(i + 1, line + 1)
    } else if c == '"' {
        string_item(s, i, line)
    } else if is_digit(c) {
        number_item(s, i, line)
    } else if is_alpha(c) {
        ident_item(s, i, line)
    } else {
        error_item(i + 1, line, line, "Unexpected character"@)
    }
}

pub open spec fn opt_toks(o: Option<TokenModel>) -> Seq<TokenModel> {
    match o {
        Option::Some(t) => seq![t],
        Option::None => Seq::empty(),
    }
}

pub open spec fn opt_errs(o: Option<LexErrorModel>) -> Seq<LexErrorModel> {
    match o {
        Option::Some(e) => seq![e],
        Option::None => Seq::empty(),
    }
}

/// The whole scan of `s` from position `i` on line `line`: the fold of
/// `scan_step` until the end of the text.
pub open spec fn scan_from(s: Seq<char>, i: int, line: int) -> ScanOut
    decreases s.len() - i,
{
    if i >= s.len() || i < 0 {
        ScanOut { toks: Seq::empty(), errs: Seq::empty(), end_line: line }
    } else {
        let st = scan_step(s, i, line);
        let nxt = if i < st.next && st.next <= s.len() { st.next } else { i + 1 };
        let rest = scan_from(s, nxt, st.next_line);
        ScanOut {
            toks: opt_toks(st.tok) + rest.toks,
            errs: opt_errs(st.err) + rest.errs,
            end_line: rest.end_line,
        }
    }
}

/// One step always consumes at least one character and stays inside
/// the text.
pub proof fn lemma_scan_step_bounds(s: Seq<char>, i: int, line: int)
    requires
        0 <= i < s.len(),
    ensures
        i < scan_step(s, i, line).next <= s.len(),
{
    let c = s[i];
    if single_kind(c) is Some {
    } else if c == '!' || c == '=' || c == '<' || c == '>' {
    } else if c == '/' {
        if i + 1 < s.len() && s[i + 1] == '/' {
            lemma_run_end(s, i + 2, p_not_nl());
        }
    } else if c == ' ' || c == '\r' || c == '\t' || c == '\n' {
    } else if c == '"' {
        lemma_run_end(s, i + 1, p_not_quote());
    } else if is_digit(c) {
        assert(run_end(s, i, p_digit()) == run_end(s, i + 1, p_digit())) by {
            assert(p_digit()(s[i]));
        }
        lemma_run_end(s, i + 1, p_digit());
        let d1 = run_end(s, i, p_digit());
        if d1 + 1 < s.len() && s[d1] == '.' && is_digit(s[d1 + 1]) {
            lemma_run_end(s, d1 + 1, p_digit());
        }
    } else if is_alpha(c) {
        assert(run_end(s, i, p_alnum()) == run_end(s, i + 1, p_alnum())) by {
            assert(p_alnum()(s[i]));
        }
        lemma_run_end(s, i + 1, p_alnum());
    } else {
    }
}

/// Characters that the scanner copies verbatim into some lexeme: not
/// blank space, not a newline, not a string delimiter, not a slash.
pub open spec fn plain_char(c: char) -> bool {
    c != ' ' && c != '\r' && c != '\t' && c != '\n' && c != '"' && c != '/'
}

/// The source text with whitespace, newlines and comments removed:
/// what remains of the input once the scanner has discarded what no
/// token keeps.  A string literal is kept verbatim, quotes included.
pub open spec fn strip(s: Seq<char>, i: int) -> Seq<char>
    decreases s.len() - i,
{
    if i < 0 || i >= s.len() {
        Seq::empty()
    } else {
        let c = s[i];
        if c == ' ' || c == '\r' || c == '\t' || c == '\n' {
            strip(s, i + 1)
        } else if c == '/' && i + 1 < s.len() && s[i + 1] == '/' {
            let e = run_end(s, i + 2, p_not_nl());
            strip(s, if i + 2 <= e && e <= s.len() { e } else { i + 2 })
        } else if c == '"' {
            let e = run_end(s, i + 1, p_not_quote());
            if i + 1 <= e && e < s.len() {
                s.subrange(i, e + 1) + strip(s, e + 1)
            } else {
                s.subrange(i, s.len() as int)
            }
        } else {
            s.subrange(i, i + 1) + strip(s, i + 1)
        }
    }
}

/// A span of plain characters is copied verbatim.
pub proof fn lemma_strip_plain_span(s: Seq<char>, i: int, j: int)
    requires
        0 <= i <= j <= s.len(),
        forall|k: int| i <= k < j ==> plain_char(#[trigger] s[k]),
    ensures
        strip(s, i) == s.subrange(i, j) + strip(s, j),
    decreases j - i,
{
    if i == j {
        assert(s.subrange(i, i) =~= Seq::<char>::empty());
        assert(s.subrange(i, j) + strip(s, j) =~= strip(s, i));
    } else {
        lemma_strip_plain_span(s, i + 1, j);
        assert(strip(s, i) == s.subrange(i, i + 1) + strip(s, i + 1));
        assert(s.subrange(i, i + 1) + (s.subrange(i + 1, j) + strip(s, j)) =~= s.subrange(i, j)
            + strip(s, j));
    }
}

/// The lexemes of a token sequence, joined in order.
pub open spec fn cat_lexemes(ts: Seq<TokenModel>) -> Seq<char>
    decreases ts.len(),
{
    if ts.len() == 0 {
        Seq::empty()
    } else {
        ts[0].lexeme + cat_lexemes(ts.drop_first())
    }
}

proof fn lemma_cat_cons(t: TokenModel, ts: Seq<TokenModel>)
    ensures
        cat_lexemes(seq![t] + ts) == t.lexeme + cat_lexemes(ts),
{
    assert((seq![t] + ts)[0] == t);
    assert((seq![t] + ts).drop_first() =~= ts);
    assert(cat_lexemes(seq![t] + ts) == (seq![t] + ts)[0].lexeme + cat_lexemes(
        (seq![t] + ts).drop_first(),
    ));
}

/// Rejoining the lexemes of an error-free scan, in order,
/// reconstructs the source text with whitespace, newlines and
/// comments removed.
#[verifier::rlimit(100)]
pub proof fn lemma_rejoin(s: Seq<char>, i: int, line: int)
    requires
        0 <= i <= s.len(),
        scan_from(s, i, line).errs.len() == 0,
    ensures
        cat_lexemes(scan_from(s, i, line).toks) == strip(s, i),
    decreases s.len() - i,
{
    if i < s.len() {
        let c = s[i];
        let st = scan_step(s, i, line);
        lemma_scan_step_bounds(s, i, line);
        let nxt = st.next;
        let rest = scan_from(s, nxt, st.next_line);
        assert(scan_from(s, i, line).toks == opt_toks(st.tok) + rest.toks);
        assert(scan_from(s, i, line).errs == opt_errs(st.err) + rest.errs);
        assert(rest.errs.len() == 0);
        assert(st.err is None);
        lemma_rejoin(s, nxt, st.next_line);
        if single_kind(c) is Some {
            assert(strip(s, i) == s.subrange(i, i + 1) + strip(s, i + 1));
            lemma_cat_cons(st.tok->Some_0, rest.toks);
        } else if c == '!' || c == '=' || c == '<' || c == '>' {
            assert(forall|k: int| i <= k < nxt ==> plain_char(#[trigger] s[k]));
            lemma_strip_plain_span(s, i, nxt);
            lemma_cat_cons(st.tok->Some_0, rest.toks);
        } else if c == '/' {
            if i + 1 < s.len() && s[i + 1] == '/' {
                lemma_run_end(s, i + 2, p_not_nl());
                assert(opt_toks(st.tok) + rest.toks =~= rest.toks);
                assert(strip(s, i) == strip(s, nxt));
            } else {
                assert(strip(s, i) == s.subrange(i, i + 1) + strip(s, i + 1));
                lemma_cat_cons(st.tok->Some_0, rest.toks);
            }
        } else if c == ' ' || c == '\r' || c == '\t' || c == '\n' {
            assert(opt_toks(st.tok) + rest.toks =~= rest.toks);
            assert(strip(s, i) == strip(s, i + 1));
        } else if c == '"' {
            lemma_run_end(s, i + 1, p_not_quote());
            let e = run_end(s, i + 1, p_not_quote());
            assert(e < s.len());
            assert(strip(s, i) == s.subrange(i, e + 1) + strip(s, e + 1));
            lemma_cat_cons(st.tok->Some_0, rest.toks);
        } else if is_digit(c) {
            lemma_run_end(s, i, p_digit());
            assert(nxt == run_end(s, i, p_digit()));
            assert forall|k: int| i <= k < nxt implies plain_char(#[trigger] s[k]) by {
                assert(p_digit()(s[k]));
            }
            lemma_strip_plain_span(s, i, nxt);
            lemma_cat_cons(st.tok->Some_0, rest.toks);
        } else if is_alpha(c) {
            lemma_run_end(s, i, p_alnum());
            assert(nxt == run_end(s, i, p_alnum()));
            assert forall|k: int| i <= k < nxt implies plain_char(#[trigger] s[k]) by {
                assert(p_alnum()(s[k]));
            }
            lemma_strip_plain_span(s, i, nxt);
            lemma_cat_cons(st.tok->Some_0, rest.toks);
        } else {
            assert(false);
        }
    }
}

proof fn lemma_cat_push_empty_lexeme(ts: Seq<TokenModel>, t: TokenModel)
    requires
        t.lexeme.len() == 0,
    ensures
        cat_lexemes(ts.push(t)) == cat_lexemes(ts),
    decreases ts.len(),
{
    if ts.len() == 0 {
        assert(ts.push(t)[0] == t);
        assert(ts.push(t).drop_first() =~= Seq::<TokenModel>::empty());
        assert(cat_lexemes(ts.push(t)) == t.lexeme + cat_lexemes(ts.push(t).drop_first()));
        assert(t.lexeme + Seq::<char>::empty() =~= Seq::<char>::empty());
    } else {
        assert(ts.push(t).drop_first() =~= ts.drop_first().push(t));
        lemma_cat_push_empty_lexeme(ts.drop_first(), t);
    }
}

/// Rejoining the lexemes of the scanner's whole output, in order,
/// reconstructs the source text with whitespace, newlines and
/// comments removed, whenever the scan reported no error.
pub proof fn lemma_scan_tokens_rejoin(toks: Seq<TokenModel>, s: Seq<char>)
    requires
        toks == scan_from(s, 0, 1).toks.push(
            TokenModel {
                tty: TokenType::Eof,
                lexeme: Seq::empty(),
                literal: Option::None,
                line: scan_from(s, 0, 1).end_line,
            },
        ),
        scan_from(s, 0, 1).errs.len() == 0,
        s.len() >= 0,
    ensures
        cat_lexemes(toks) == strip(s, 0),
{
    lemma_rejoin(s, 0, 1);
    lemma_cat_push_empty_lexeme(
        scan_from(s, 0, 1).toks,
        TokenModel {
            tty: TokenType::Eof,
            lexeme: Seq::empty(),
            literal: Option::None,
            line: scan_from(s, 0, 1).end_line,
        },
    );
}

/// The scan itself never produces the end-of-input marker: it is
/// appended exactly once, after the scan.
pub proof fn lemma_scan_no_eof(s: Seq<char>, i: int, line: int)
    requires
        0 <= i <= s.len(),
    ensures
        forall|k: int| 0 <= k < scan_from(s, i, line).toks.len() ==> (#[trigger] scan_from(
            s,
            i,
            line,
        ).toks[k]).tty != TokenType::Eof,
    decreases s.len() - i,
{
    if i < s.len() {
        let st = scan_step(s, i, line);
        lemma_scan_step_bounds(s, i, line);
        let rest = scan_from(s, st.next, st.next_line);
        lemma_scan_no_eof(s, st.next, st.next_line);
        assert(scan_from(s, i, line).toks == opt_toks(st.tok) + rest.toks);
        match st.tok {
            Option::Some(t) => {
                assert(t.tty != TokenType::Eof);
                assert(forall|k: int| 0 <= k < rest.toks.len() ==> (opt_toks(st.tok)
                    + rest.toks)[k + 1] == (#[trigger] rest.toks[k]));
            },
            Option::None => {
                assert(forall|k: int| 0 <= k < rest.toks.len() ==> (opt_toks(st.tok)
                    + rest.toks)[k] == (#[trigger] rest.toks[k]));
            },
        }
    }
}

/// The token models of a token vector.
pub open spec fn toks_model(v: Seq<Token>) -> Seq<TokenModel> {
    v.map_values(|t: Token| t@)
}

/// The diagnostic models of an error vector.
pub open spec fn errs_model(v: Seq<LexError>) -> Seq<LexErrorModel> {
    v.map_values(|e: LexError| e@)
}

pub proof fn lemma_add_empty<A>(s: Seq<A>)
    ensures
        s + Seq::<A>::empty() == s,
{
    assert(s + Seq::<A>::empty() =~= s);
}

proof fn lemma_toks_same(v: Seq<Token>)
    ensures
        toks_model(v) == toks_model(v) + opt_toks(Option::None),
{
    lemma_add_empty(toks_model(v));
}

proof fn lemma_errs_same(v: Seq<LexError>)
    ensures
        errs_model(v) == errs_model(v) + opt_errs(Option::None),
{
    lemma_add_empty(errs_model(v));
}

/// The first characters of a short subrange, as ground facts for the
/// keyword table.
proof fn lemma_sub_idx(v: Seq<char>, from: int, to: int)
    requires
        0 <= from <= to <= v.len(),
    ensures
        v.subrange(from, to).len() == to - from,
        to - from >= 1 ==> v.subrange(from, to)[0] == v[from],
        to - from >= 2 ==> v.subrange(from, to)[1] == v[from + 1],
        to - from >= 3 ==> v.subrange(from, to)[2] == v[from + 2],
        to - from >= 4 ==> v.subrange(from, to)[3] == v[from + 3],
        to - from >= 5 ==> v.subrange(from, to)[4] == v[from + 4],
        to - from >= 6 ==> v.subrange(from, to)[5] == v[from + 5],
{
}

/// The keyword table lookup: the kind `v[from..to]` is reserved as.
pub(crate) fn keyword_kind(v: &Vec<char>, from: usize, to: usize) -> (r: Option<TokenType>)
    requires
        from <= to <= v@.len(),
    ensures
        r == keyword_of(v@.subrange(from as int, to as int)),
{
    let n = to - from;
    let ghost sub = v@.subrange(from as int, to as int);
    proof {
        reveal_strlit("and");
        reveal_strlit("class");
        reveal_strlit("else");
        reveal_strlit("false");
        reveal_strlit("for");
        reveal_strlit("fun");
        reveal_strlit("if");
        reveal_strlit("nil");
        reveal_strlit("or");
        reveal_strlit("print");
        reveal_strlit("return");
        reveal_strlit("super");
        reveal_strlit("this");
        reveal_strlit("true");
        reveal_strlit("var");
        reveal_strlit("while");
    }
    if n == 2 {
        if v[from] == 'i' && v[from + 1] == 'f' {
            proof { lemma_sub_idx(v@, from as int, to as int); assert(sub =~= "if"@); }
            return Option::Some(TokenType::If);
        }
        if v[from] == 'o' && v[from + 1] == 'r' {
            proof { lemma_sub_idx(v@, from as int, to as int); assert(sub =~= "or"@); }
            return Option::Some(TokenType::Or);
        }
    } else if n == 3 {
        if v[from] == 'a' && v[from + 1] == 'n' && v[from + 2] == 'd' {
            proof { lemma_sub_idx(v@, from as int, to as int); assert(sub =~= "and"@); }
            return Option::Some(TokenType::And);
        }
        if v[from] == 'f' && v[from + 1] == 'o' && v[from + 2] == 'r' {
            proof { lemma_sub_idx(v@, from as int, to as int); assert(sub =~= "for"@); }
            return Option::Some(TokenType::For);
        }
        if v[from] == 'f' && v[from + 1] == 'u' && v[from + 2] == 'n' {
            proof { lemma_sub_idx(v@, from as int, to as int); assert(sub =~= "fun"@); }
            return Option::Some(TokenType::Fun);
        }
        if v[from] == 'n' && v[from + 1] == 'i' && v[from + 2] == 'l' {
            proof { lemma_sub_idx(v@, from as int, to as int); assert(sub =~= "nil"@); }
            return Option::Some(TokenType::Nil);
        }
        if v[from] == 'v' && v[from + 1] == 'a' && v[from + 2] == 'r' {
            proof { lemma_sub_idx(v@, from as int, to as int); assert(sub =~= "var"@); }
            return Option::Some(TokenType::Var);
        }
    } else if n == 4 {
        if v[from] == 'e' && v[from + 1] == 'l' && v[from + 2] == 's' && v[from + 3] == 'e' {
            proof { lemma_sub_idx(v@, from as int, to as int); assert(sub =~= "else"@); }
            return Option::Some(TokenType::Else);
        }
        if v[from] == 't' && v[from + 1] == 'h' && v[from + 2] == 'i' && v[from + 3] == 's' {
            proof { lemma_sub_idx(v@, from as int, to as int); assert(sub =~= "this"@); }
            return Option::Some(TokenType::This);
        }
        if v[from] == 't' && v[from + 1] == 'r' && v[from + 2] == 'u' && v[from + 3] == 'e' {
            proof { lemma_sub_idx(v@, from as int, to as int); assert(sub =~= "true"@); }
            return Option::Some(TokenType::True);
        }
    } else if n == 5 {
        if v[from] == 'c' && v[from + 1] == 'l' && v[from + 2] == 'a' && v[from + 3] == 's'
            && v[from + 4] == 's' {
            proof { lemma_sub_idx(v@, from as int, to as int); assert(sub =~= "class"@); }
            return Option::Some(TokenType::Class);
        }
        if v[from] == 'f' && v[from + 1] == 'a' && v[from + 2] == 'l' && v[from + 3] == 's'
            && v[from + 4] == 'e' {
            proof { lemma_sub_idx(v@, from as int, to as int); assert(sub =~= "false"@); }
            return Option::Some(TokenType::False);
        }
        if v[from] == 'p' && v[from + 1] == 'r' && v[from + 2] == 'i' && v[from + 3] == 'n'
            && v[from + 4] == 't' {
            proof { lemma_sub_idx(v@, from as int, to as int); assert(sub =~= "print"@); }
            return Option::Some(TokenType::Print);
        }
        if v[from] == 's' && v[from + 1] == 'u' && v[from + 2] == 'p' && v[from + 3] == 'e'
            && v[from + 4] == 'r' {
            proof { lemma_sub_idx(v@, from as int, to as int); assert(sub =~= "super"@); }
            return Option::Some(TokenType::Super);
        }
        if v[from] == 'w' && v[from + 1] == 'h' && v[from + 2] == 'i' && v[from + 3] == 'l'
            && v[from + 4] == 'e' {
            proof { lemma_sub_idx(v@, from as int, to as int); assert(sub =~= "while"@); }
            return Option::Some(TokenType::While);
        }
    } else if n == 6 {
        if v[from] == 'r' && v[from + 1] == 'e' && v[from + 2] == 't' && v[from + 3] == 'u'
            && v[from + 4] == 'r' && v[from + 5] == 'n' {
            proof { lemma_sub_idx(v@, from as int, to as int); assert(sub =~= "return"@); }
            return Option::Some(TokenType::Return);
        }
    }
    proof {
        lemma_sub_idx(v@, from as int, to as int);
        assert(keyword_of(sub) is None);
    }
    Option::None
}

/// The scanner state: the source as characters, the span of the token
/// being scanned, the current line, and what has been produced so far.
pub struct Scanner {
    pub source: Vec<char>,
    pub start: usize,
    pub current: usize,
    pub line: u64,
    pub tokens: Vec<Token>,
    pub errors: Vec<LexError>,
}

/// One step left the scanner exactly as the step item says: the token
/// and diagnostic appended, the cursor and line moved.
pub open spec fn step_applied(pre: Scanner, post: Scanner, item: ScanItem) -> bool {
    &&& post.source@ == pre.source@
    &&& post.start == pre.start
    &&& toks_model(post.tokens@) == toks_model(pre.tokens@) + opt_toks(item.tok)
    &&& errs_model(post.errors@) == errs_model(pre.errors@) + opt_errs(item.err)
    &&& post.current as int == item.next
    &&& post.line as int == item.next_line
}

impl Scanner {
    /// The cursor is inside the text and the line counter cannot outrun
    /// it: every newline consumes a character.
    pub open spec fn wf(&self) -> bool {
        &&& self.current <= self.source@.len()
        &&& self.source@.len() < u64::MAX
        &&& 1 <= self.line
        &&& self.line as int <= 1 + self.current as int
    }

    /// A scanner that has not produced anything yet.
    pub open spec fn ready(&self) -> bool {
        &&& self.wf()
        &&& self.start == 0
        &&& self.current == 0
        &&& self.line == 1
        &&& self.tokens@.len() == 0
        &&& self.errors@.len() == 0
    }

    pub fn new(source: &str) -> (r: Scanner)
        requires
            source@.len() < u64::MAX,
        ensures
            r.ready(),
            r.source@ == source@,
    {
        Scanner {
            source: str_chars(source),
            start: 0,
            current: 0,
            line: 1,
            tokens: Vec::new(),
            errors: Vec::new(),
        }
    }

    fn is_at_end(&self) -> (r: bool)
        ensures
            r == (self.current >= self.source@.len()),
    {
        self.current >= self.source.len()
    }

    /// Consumes and returns the character under the cursor.
    fn advance(&mut self) -> (c: char)
        requires
            old(self).current < old(self).source@.len(),
        ensures
            c == old(self).source@[old(self).current as int],
            final(self).current == old(self).current + 1,
            final(self).source == old(self).source,
            final(self).start == old(self).start,
            final(self).line == old(self).line,
            final(self).tokens == old(self).tokens,
            final(self).errors == old(self).errors,
    {
        let b = self.source[self.current];
        let n = self.source.len();
        proof {
            assert(self.current < n);
        }
        self.current = self.current + 1;
        b
    }

    /// The character under the cursor, `'\0'` at the end of the text.
    fn peek(&self) -> (c: char)
        ensures
            c == if self.current < self.source@.len() {
                self.source@[self.current as int]
            } else {
                '\0'
            },
    {
        if self.is_at_end() {
            return '\0';
        }
        self.source[self.current]
    }

    /// The character after the cursor, `'\0'` at or past the end.
    fn peek_next(&self) -> (c: char)
        ensures
            c == if self.current + 1 < self.source@.len() {
                self.source@[self.current + 1]
            } else {
                '\0'
            },
    {
        let n = self.source.len();
        if self.current >= n || self.current + 1 >= n {
            return '\0';
        }
        self.source[self.current + 1]
    }

    /// One-character lookahead: consumes the character under the cursor
    /// exactly when it is `expected`.
    fn check_match(&mut self, expected: char) -> (r: bool)
        requires
            old(self).current <= old(self).source@.len(),
        ensures
            r == (old(self).current < old(self).source@.len()
                && old(self).source@[old(self).current as int] == expected),
            final(self).current as int == if r {
                old(self).current + 1
            } else {
                old(self).current as int
            },
            final(self).source == old(self).source,
            final(self).start == old(self).start,
            final(self).line == old(self).line,
            final(self).tokens == old(self).tokens,
            final(self).errors == old(self).errors,
    {
        if self.is_at_end() {
            return false;
        }
        if self.source[self.current] != expected {
            return false;
        }
        let n = self.source.len();
        proof {
            assert(self.current < n);
        }
        self.current = self.current + 1;
        true
    }

    fn is_digit(&self, c: &char) -> (r: bool)
        ensures
            r == is_digit(*c),
    {
        char_is_digit(*c)
    }

    fn is_alpha(&self, c: &char) -> (r: bool)
        ensures
            r == is_alpha(*c),
    {
        ('a' <= *c && *c <= 'z') || ('A' <= *c && *c <= 'Z') || *c == '_'
    }

    fn is_alpha_numeric(&self, c: &char) -> (r: bool)
        ensures
            r == is_alnum(*c),
    {
        self.is_alpha(c) || self.is_digit(c)
    }

    fn add_token(&mut self, tty: TokenType)
        requires
            old(self).start <= old(self).current <= old(self).source@.len(),
        ensures
            toks_model(final(self).tokens@) == toks_model(old(self).tokens@) + seq![
                TokenModel {
                    tty,
                    lexeme: old(self).source@.subrange(
                        old(self).start as int,
                        old(self).current as int,
                    ),
                    literal: Option::None,
                    line: old(self).line as int,
                },
            ],
            final(self).errors == old(self).errors,
            final(self).source == old(self).source,
            final(self).start == old(self).start,
            final(self).current == old(self).current,
            final(self).line == old(self).line,
    {
        self.add_token2(tty, Option::None);
    }

    fn add_token2(&mut self, tty: TokenType, literal: Option<String>)
        requires
            old(self).start <= old(self).current <= old(self).source@.len(),
        ensures
            toks_model(final(self).tokens@) == toks_model(old(self).tokens@) + seq![
                TokenModel {
                    tty,
                    lexeme: old(self).source@.subrange(
                        old(self).start as int,
                        old(self).current as int,
                    ),
                    literal: match literal {
                        Option::Some(s) => Option::Some(s@),
                        Option::None => Option::None,
                    },
                    line: old(self).line as int,
                },
            ],
            final(self).errors == old(self).errors,
            final(self).source == old(self).source,
            final(self).start == old(self).start,
            final(self).current == old(self).current,
            final(self).line == old(self).line,
    {
        let text = chars_string(&self.source, self.start, self.current);
        let t = Token { tty, lexeme: text, literal, line: self.line };
        let ghost pre = self.tokens@;
        self.tokens.push(t);
        proof {
            assert(toks_model(self.tokens@) =~= toks_model(pre) + seq![t@]);
        }
    }

    /// Records a diagnostic and reports it on the error stream.
    fn push_error(&mut self, at_line: u64, message: &str)
        ensures
            errs_model(final(self).errors@) == errs_model(old(self).errors@) + seq![
                LexErrorModel { line: at_line as int, message: message@ },
            ],
            final(self).tokens == old(self).tokens,
            final(self).source == old(self).source,
            final(self).start == old(self).start,
            final(self).current == old(self).current,
            final(self).line == old(self).line,
    {
        Lox::error(at_line, message);
        let e = LexError { line: at_line, message: String::from_str(message) };
        let ghost pre = self.errors@;
        self.errors.push(e);
        proof {
            assert(errs_model(self.errors@) =~= errs_model(pre) + seq![
                LexErrorModel { line: at_line as int, message: message@ },
            ]);
        }
    }

    /// Scans the rest of a string literal, the opening quote consumed.
    #[verifier::loop_isolation(false)]
    fn string(&mut self)
        requires
            old(self).wf(),
            old(self).current == old(self).start + 1,
            old(self).start < old(self).source@.len(),
        ensures
            step_applied(
                *old(self),
                *final(self),
                string_item(old(self).source@, old(self).start as int, old(self).line as int),
            ),
            final(self).wf(),
            old(self).current <= final(self).current,
    {
        let ghost pre = *old(self);
        let ghost s = pre.source@;
        let ghost i = pre.start as int;
        let ghost line0 = pre.line as int;
        let start_line = self.line;
        proof {
            lemma_run_end(s, i + 1, p_not_quote());
        }
        let ghost qe = run_end(s, i + 1, p_not_quote());
        while self.peek() != '"' && !self.is_at_end()
            invariant
                self.source == pre.source,
                self.start == pre.start,
                self.tokens == pre.tokens,
                self.errors == pre.errors,
                i + 1 <= self.current as int <= qe,
                run_end(s, self.current as int, p_not_quote()) == qe,
                self.line as int == line0 + nl_count(s, i + 1, self.current as int),
                1 <= self.line,
                self.line as int <= 1 + self.current as int,
            decreases s.len() - self.current,
        {
            proof {
                lemma_nl_count_bounds(s, i + 1, self.current as int);
            }
            if self.peek() == '\n' {
                self.line = self.line + 1;
            }
            let _c = self.advance();
        }
        if self.is_at_end() {
            self.push_error(start_line, "Unterminated string");
            proof {
                lemma_toks_same(pre.tokens@);
            }
            return;
        }
        let _q = self.advance();
        let lit = chars_string(&self.source, self.start + 1, self.current - 1);
        self.add_token2(TokenType::String, Option::Some(lit));
        proof {
            lemma_errs_same(pre.errors@);
        }
    }

    /// Scans the rest of a number, the first digit consumed.
    #[verifier::loop_isolation(false)]
    fn number(&mut self)
        requires
            old(self).wf(),
            old(self).current == old(self).start + 1,
            old(self).start < old(self).source@.len(),
            is_digit(old(self).source@[old(self).start as int]),
        ensures
            step_applied(
                *old(self),
                *final(self),
                number_item(old(self).source@, old(self).start as int, old(self).line as int),
            ),
            final(self).wf(),
            old(self).current <= final(self).current,
    {
        let ghost pre = *old(self);
        let ghost s = pre.source@;
        let ghost i = pre.start as int;
        proof {
            lemma_run_end(s, i, p_digit());
        }
        let ghost d1 = run_end(s, i, p_digit());
        while self.is_digit(&self.peek())
            invariant
                self.source == pre.source,
                self.start == pre.start,
                self.tokens == pre.tokens,
                self.errors == pre.errors,
                self.line == pre.line,
                i + 1 <= self.current as int <= d1,
                run_end(s, self.current as int, p_digit()) == d1,
            decreases s.len() - self.current,
        {
            let _c = self.advance();
        }
        if self.peek() == '.' && self.is_digit(&self.peek_next()) {
            let _dot = self.advance();
            proof {
                lemma_run_end(s, d1 + 1, p_digit());
            }
            let ghost e2 = run_end(s, d1 + 1, p_digit());
            while self.is_digit(&self.peek())
                invariant
                    self.source == pre.source,
                    self.start == pre.start,
                    self.tokens == pre.tokens,
                    self.errors == pre.errors,
                    self.line == pre.line,
                    d1 + 1 <= self.current as int <= e2,
                    run_end(s, self.current as int, p_digit()) == e2,
                decreases s.len() - self.current,
            {
                let _c = self.advance();
            }
            self.push_error(self.line, "Malformed number");
            proof {
                lemma_toks_same(pre.tokens@);
            }
        } else {
            proof {
                assert forall|k: int| 0 <= k < d1 - i implies is_digit(
                    #[trigger] s.subrange(i, d1)[k],
                ) by {
                    assert(p_digit()(s[i + k]));
                }
                assert(all_digits(s.subrange(i, d1)));
            }
            let val = digits_u64(&self.source, self.start, self.current);
            match val {
                Option::Some(x) => {
                    let lit = u64_text(x);
                    self.add_token2(TokenType::Number, Option::Some(lit));
                    proof {
                        lemma_errs_same(pre.errors@);
                    }
                },
                Option::None => {
                    self.push_error(self.line, "Malformed number");
                    proof {
                        lemma_toks_same(pre.tokens@);
                    }
                },
            }
        }
    }

    /// Scans the rest of an identifier or keyword, the first character
    /// consumed.
    #[verifier::loop_isolation(false)]
    fn identifier(&mut self)
        requires
            old(self).wf(),
            old(self).current == old(self).start + 1,
            old(self).start < old(self).source@.len(),
            is_alpha(old(self).source@[old(self).start as int]),
        ensures
            step_applied(
                *old(self),
                *final(self),
                ident_item(old(self).source@, old(self).start as int, old(self).line as int),
            ),
            final(self).wf(),
            old(self).current <= final(self).current,
    {
        let ghost pre = *old(self);
        let ghost s = pre.source@;
        let ghost i = pre.start as int;
        proof {
            lemma_run_end(s, i, p_alnum());
        }
        let ghost ae = run_end(s, i, p_alnum());
        while self.is_alpha_numeric(&self.peek())
            invariant
                self.source == pre.source,
                self.start == pre.start,
                self.tokens == pre.tokens,
                self.errors == pre.errors,
                self.line == pre.line,
                i + 1 <= self.current as int <= ae,
                run_end(s, self.current as int, p_alnum()) == ae,
            decreases s.len() - self.current,
        {
            let _c = self.advance();
        }
        let kw = keyword_kind(&self.source, self.start, self.current);
        match kw {
            Option::Some(t) => self.add_token(t),
            Option::None => self.add_token(TokenType::Identifier),
        }
        proof {
            lemma_errs_same(pre.errors@);
        }
    }

    /// One scanner step: consumes one lexeme, comment, blank or stray
    /// character, exactly as `scan_step` says.
    #[verifier::loop_isolation(false)]
    fn scan_token(&mut self)
        requires
            old(self).wf(),
            old(self).current < old(self).source@.len(),
            old(self).start == old(self).current,
        ensures
            step_applied(
                *old(self),
                *final(self),
                scan_step(old(self).source@, old(self).current as int, old(self).line as int),
            ),
            final(self).wf(),
            old(self).current < final(self).current,
    {
        let ghost pre = *old(self);
        let ghost s = pre.source@;
        let ghost i = pre.current as int;
        let c = self.advance();
        match c {
            '(' => {
                self.add_token(TokenType::LeftParen);
                proof { lemma_errs_same(pre.errors@); }
            },
            ')' => {
                self.add_token(TokenType::RightParen);
                proof { lemma_errs_same(pre.errors@); }
            },
            '{' => {
                self.add_token(TokenType::LeftBrace);
                proof { lemma_errs_same(pre.errors@); }
            },
            '}' => {
                self.add_token(TokenType::RightBrace);
                proof { lemma_errs_same(pre.errors@); }
            },
            ',' => {
                self.add_token(TokenType::Comma);
                proof { lemma_errs_same(pre.errors@); }
            },
            '.' => {
                self.add_token(TokenType::Dot);
                proof { lemma_errs_same(pre.errors@); }
            },
            '-' => {
                self.add_token(TokenType::Minus);
                proof { lemma_errs_same(pre.errors@); }
            },
            '+' => {
                self.add_token(TokenType::Plus);
                proof { lemma_errs_same(pre.errors@); }
            },
            ';' => {
                self.add_token(TokenType::Semicolon);
                proof { lemma_errs_same(pre.errors@); }
            },
            '*' => {
                self.add_token(TokenType::Star);
                proof { lemma_errs_same(pre.errors@); }
            },
            '!' => {
                if self.check_match('=') {
                    self.add_token(TokenType::BangEqual);
                } else {
                    self.add_token(TokenType::Bang);
                }
                proof { lemma_errs_same(pre.errors@); }
            },
            '=' => {
                if self.check_match('=') {
                    self.add_token(TokenType::EqualEqual);
                } else {
                    self.add_token(TokenType::Equal);
                }
                proof { lemma_errs_same(pre.errors@); }
            },
            '<' => {
                if self.check_match('=') {
                    self.add_token(TokenType::LessEqual);
                } else {
                    self.add_token(TokenType::Less);
                }
                proof { lemma_errs_same(pre.errors@); }
            },
            '>' => {
                if self.check_match('=') {
                    self.add_token(TokenType::GreaterEqual);
                } else {
                    self.add_token(TokenType::Greater);
                }
                proof { lemma_errs_same(pre.errors@); }
            },
            '/' => {
                if self.check_match('/') {
                    proof {
                        lemma_run_end(s, i + 2, p_not_nl());
                    }
                    let ghost ce = run_end(s, i + 2, p_not_nl());
                    while self.peek() != '\n' && !self.is_at_end()
                        invariant
                            self.source == pre.source,
                            self.start == pre.start,
                            self.tokens == pre.tokens,
                            self.errors == pre.errors,
                            self.line == pre.line,
                            i + 2 <= self.current as int <= ce,
                            run_end(s, self.current as int, p_not_nl()) == ce,
                        decreases s.len() - self.current,
                    {
                        let _c = self.advance();
                    }
                    proof {
                        lemma_toks_same(pre.tokens@);
                        lemma_errs_same(pre.errors@);
                    }
                } else {
                    self.add_token(TokenType::Slash);
                    proof { lemma_errs_same(pre.errors@); }
                }
            },
            ' ' | '\r' | '\t' => {
                proof {
                    lemma_toks_same(pre.tokens@);
                    lemma_errs_same(pre.errors@);
                }
            },
            '\n' => {
                self.line = self.line + 1;
                proof {
                    lemma_toks_same(pre.tokens@);
                    lemma_errs_same(pre.errors@);
                }
            },
            '"' => {
                self.string();
            },
            _ => {
                if char_is_digit(c) {
                    self.number();
                } else if self.is_alpha(&c) {
                    self.identifier();
                } else {
                    self.push_error(self.line, "Unexpected character");
                    proof {
                        lemma_toks_same(pre.tokens@);
                    }
                }
            },
        }
    }

    /// Scans the whole source: exactly the tokens and diagnostics of
    /// `scan_from`, with the end-of-input marker appended at the line
    /// the scan ended on.  The same tokens stay recorded on the scanner.
    #[verifier::loop_isolation(false)]
    pub fn scan_tokens(&mut self) -> (r: Vec<Token>)
        requires
            old(self).ready(),
        ensures
            toks_model(final(self).tokens@) == scan_from(old(self).source@, 0, 1).toks.push(
                TokenModel {
                    tty: TokenType::Eof,
                    lexeme: Seq::empty(),
                    literal: Option::None,
                    line: scan_from(old(self).source@, 0, 1).end_line,
                },
            ),
            errs_model(final(self).errors@) == scan_from(old(self).source@, 0, 1).errs,
            toks_model(r@) == toks_model(final(self).tokens@),
            final(self).source@ == old(self).source@,
    {
        let ghost pre = *old(self);
        let ghost s = pre.source@;
        while !self.is_at_end()
            invariant
                self.wf(),
                self.source@ == s,
                scan_from(s, 0, 1).toks == toks_model(self.tokens@) + scan_from(
                    s,
                    self.current as int,
                    self.line as int,
                ).toks,
                scan_from(s, 0, 1).errs == errs_model(self.errors@) + scan_from(
                    s,
                    self.current as int,
                    self.line as int,
                ).errs,
                scan_from(s, 0, 1).end_line == scan_from(
                    s,
                    self.current as int,
                    self.line as int,
                ).end_line,
            decreases s.len() - self.current,
        {
            self.start = self.current;
            let ghost cur0 = self.current as int;
            let ghost ln0 = self.line as int;
            let ghost done_toks = toks_model(self.tokens@);
            let ghost done_errs = errs_model(self.errors@);
            self.scan_token();
            proof {
                let st = scan_step(s, cur0, ln0);
                let rest = scan_from(s, self.current as int, self.line as int);
                assert(scan_from(s, cur0, ln0).toks == opt_toks(st.tok) + rest.toks);
                assert(scan_from(s, cur0, ln0).errs == opt_errs(st.err) + rest.errs);
                assert(done_toks + (opt_toks(st.tok) + rest.toks) =~= (done_toks + opt_toks(
                    st.tok,
                )) + rest.toks);
                assert(done_errs + (opt_errs(st.err) + rest.errs) =~= (done_errs + opt_errs(
                    st.err,
                )) + rest.errs);
            }
        }
        let ghost whole = scan_from(s, 0, 1);
        proof {
            lemma_add_empty(toks_model(self.tokens@));
            lemma_add_empty(errs_model(self.errors@));
            assert(whole.toks == toks_model(self.tokens@));
            assert(whole.errs == errs_model(self.errors@));
            assert(whole.end_line == self.line as int);
        }
        let eof = Token {
            tty: TokenType::Eof,
            lexeme: String::new(),
            literal: Option::None,
            line: self.line,
        };
        let ghost done = self.tokens@;
        self.tokens.push(eof);
        proof {
            assert(toks_model(self.tokens@) =~= toks_model(done).push(
                TokenModel {
                    tty: TokenType::Eof,
                    lexeme: Seq::empty(),
                    literal: Option::None,
                    line: whole.end_line,
                },
            ));
        }
        let mut out: Vec<Token> = Vec::new();
        let n = self.tokens.len();
        let mut i: usize = 0;
        while i < n
            invariant
                i <= n,
                n == self.tokens@.len(),
                out@.len() == i,
                forall|j: int| 0 <= j < i ==> #[trigger] out@[j]@ == self.tokens@[j]@,
            decreases n - i,
        {
            let t = self.tokens[i].duplicate();
            out.push(t);
            i += 1;
        }
        proof {
            assert(toks_model(out@) =~= toks_model(self.tokens@));
        }
        out
    }
}

} // verus!

