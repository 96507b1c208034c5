//! The expression/statement tree and the recursive-descent parser.
//!
//! The grammar, lowest to highest binding: `equality` (`==` `!=`),
//! `comparison` (`>` `>=` `<` `<=`), `term` (`+` `-`), `factor` (`*`
//! `/`), `unary` (prefix `!` `-`), `primary` (literals, groups,
//! identifiers).  Binary levels are left-associative.  A statement is a
//! `print` statement, a `var` declaration, or an expression statement,
//! each ended by `;`.  Parsing is fail-fast: the first missing required
//! token aborts the parse with one error and no partial result;
//! `synchronize` is the recovery operation that skips to the next
//! statement boundary, available to callers that want to resume.
//!
//! The parser's contract pins the result down three ways: `sp_program`
//! and its levels decide exactly how far each production consumes and
//! which error is raised; `eflat`/`sflat` state that the tree, read
//! left to right, spells exactly the consumed tokens; and `expr_wf`
//! states that every node respects precedence and left-associativity.
//! A well-formed tree that flattens to the consumed tokens is unique.

use vstd::prelude::*;
use crate::token::{Token, TokenModel, TokenType};

verus! {

/// An expression tree node.
#[derive(Debug)]
pub enum Expr {
    Binary(Box<BinaryExpr>),
    Grouping(Box<GroupingExpr>),
    Literal(LiteralExpr),
    Unary(Box<UnaryExpr>),
    Variable(VariableExpr),
}

#[derive(Debug)]
pub struct BinaryExpr {
    pub left: Expr,
    pub operator: Token,
    pub right: Expr,
}

#[derive(Debug)]
pub struct GroupingExpr {
    pub expression: Expr,
}

#[derive(Debug)]
pub struct LiteralExpr {
    pub value: Option<String>,
}

#[derive(Debug)]
pub struct UnaryExpr {
    pub operator: Token,
    pub right: Expr,
}

#[derive(Debug)]
pub struct VariableExpr {
    pub name: Token,
}

/// A statement tree node.  A `var` declaration binds a name to its
/// initializer (nil when absent); a variable reference is the distinct
/// `Expr::Variable` node.
#[derive(Debug)]
pub enum StmtExpr {
    Expression { expression: Expr },
    Print { expression: Expr },
    Var { name: Token, initializer: Option<Expr> },
}

impl Expr {
    /// A structurally equal copy of the tree.
    pub fn duplicate(&self) -> (r: Expr)
        ensures
            r == *self,
        decreases self,
    {
        match self {
            Expr::Binary(b) => Expr::Binary(Box::new(BinaryExpr {
                left: b.left.duplicate(),
                operator: b.operator.duplicate(),
                right: b.right.duplicate(),
            })),
            Expr::Grouping(g) => Expr::Grouping(Box::new(GroupingExpr {
                expression: g.expression.duplicate(),
            })),
            Expr::Literal(l) => Expr::Literal(LiteralExpr {
                value: match &l.value {
                    Option::Some(s) => Option::Some(s.clone()),
                    Option::None => Option::None,
                },
            }),
            Expr::Unary(u) => Expr::Unary(Box::new(UnaryExpr {
                operator: u.operator.duplicate(),
                right: u.right.duplicate(),
            })),
            Expr::Variable(v) => Expr::Variable(VariableExpr { name: v.name.duplicate() }),
        }
    }
}

impl StmtExpr {
    /// The expression a statement is about: the printed or evaluated
    /// expression, or a declaration's initializer (the nil literal when
    /// it has none).
    pub fn get_inner(&self) -> (r: Expr)
        ensures
            r == match self {
                StmtExpr::Expression { expression } => *expression,
                StmtExpr::Print { expression } => *expression,
                StmtExpr::Var { name, initializer } => match initializer {
                    Option::Some(e) => *e,
                    Option::None => Expr::Literal(LiteralExpr { value: Option::None }),
                },
            },
    {
        match self {
            StmtExpr::Expression { expression } => expression.duplicate(),
            StmtExpr::Print { expression } => expression.duplicate(),
            StmtExpr::Var { name: _, initializer } => match initializer {
                Option::Some(e) => e.duplicate(),
                Option::None => Expr::Literal(LiteralExpr { value: Option::None }),
            },
        }
    }
}

/// A parse diagnostic: fail-fast, so at most one per parse.
#[derive(Debug)]
pub struct ParseError {
    pub line: u64,
    pub message: String,
}

/// The ghost image of a parse diagnostic.
pub struct ParseErrorModel {
    pub line: int,
    pub message: Seq<char>,
}

impl View for ParseError {
    type V = ParseErrorModel;

    open spec fn view(&self) -> ParseErrorModel {
        ParseErrorModel { line: self.line as int, message: self.message@ }
    }
}

/// A token vector the parser accepts: non-empty, with the end-of-input
/// marker exactly at the end.
pub open spec fn tok_wf(toks: Seq<Token>) -> bool {
    &&& toks.len() >= 1
    &&& toks.last().tty == TokenType::Eof
    &&& forall|i: int| 0 <= i < toks.len() - 1 ==> (#[trigger] toks[i].tty) != TokenType::Eof
}

/// The line of the token at `j`, for diagnostics.
pub open spec fn line_at(toks: Seq<Token>, j: int) -> int {
    if 0 <= j < toks.len() {
        toks[j].line as int
    } else {
        0
    }
}

/// `k` when it is a real advance past `lo`, else just past `lo`; keeps
/// the descent well-founded whatever a nested level returns.
pub open spec fn bound_next(toks: Seq<Token>, lo: int, k: int) -> int {
    if lo < k && k <= toks.len() {
        k
    } else {
        lo + 1
    }
}

/// `k` when it is a real advance past `lo`, else `lo` itself.
pub open spec fn bound_same(toks: Seq<Token>, lo: int, k: int) -> int {
    if lo < k && k <= toks.len() {
        k
    } else {
        lo
    }
}

/// How far `primary` consumes from `i`, or the error it raises.
pub open spec fn sp_primary(toks: Seq<Token>, i: int) -> Result<int, ParseErrorModel>
    decreases toks.len() - i, 0int,
{
    if i < 0 || i >= toks.len() {
        Result::Err(ParseErrorModel { line: 0, message: "Expect expression"@ })
    } else if toks[i].tty == TokenType::False || toks[i].tty == TokenType::True
        || toks[i].tty == TokenType::Nil || toks[i].tty == TokenType::Number
        || toks[i].tty == TokenType::String || toks[i].tty == TokenType::Identifier {
        Result::Ok(i + 1)
    } else if toks[i].tty == TokenType::LeftParen {
        match sp_expression(toks, i + 1) {
            Result::Ok(j) => if 0 <= j < toks.len() && toks[j].tty == TokenType::RightParen {
                Result::Ok(j + 1)
            } else {
                Result::Err(
                    ParseErrorModel {
                        line: line_at(toks, j),
                        message: "Expect ')' after expression"@,
                    },
                )
            },
            Result::Err(e) => Result::Err(e),
        }
    } else {
        Result::Err(ParseErrorModel { line: line_at(toks, i), message: "Expect expression"@ })
    }
}

/// How far `unary` consumes from `i`.
pub open spec fn sp_unary(toks: Seq<Token>, i: int) -> Result<int, ParseErrorModel>
    decreases toks.len() - i, 1int,
{
    if i < 0 || i >= toks.len() {
        sp_primary(toks, i)
    } else if toks[i].tty == TokenType::Bang || toks[i].tty == TokenType::Minus {
        sp_unary(toks, i + 1)
    } else {
        sp_primary(toks, i)
    }
}

/// Same-level operators folded after one `factor` operand.
pub open spec fn sp_factor_tail(toks: Seq<Token>, j: int) -> Result<int, ParseErrorModel>
    decreases toks.len() - j, 2int,
{
    if 0 <= j < toks.len() && (toks[j].tty == TokenType::Slash || toks[j].tty
        == TokenType::Star) {
        match sp_unary(toks, j + 1) {
            Result::Ok(k) => sp_factor_tail(toks, bound_same(toks, j + 1, k)),
            Result::Err(e) => Result::Err(e),
        }
    } else {
        Result::Ok(j)
    }
}

/// How far `factor` consumes from `i`.
pub open spec fn sp_factor(toks: Seq<Token>, i: int) -> Result<int, ParseErrorModel>
    decreases toks.len() - i, 3int,
{
    match sp_unary(toks, i) {
        Result::Ok(j) => sp_factor_tail(toks, bound_same(toks, i, j)),
        Result::Err(e) => Result::Err(e),
    }
}

/// Same-level operators folded after one `term` operand.
pub open spec fn sp_term_tail(toks: Seq<Token>, j: int) -> Result<int, ParseErrorModel>
    decreases toks.len() - j, 4int,
{
    if 0 <= j < toks.len() && (toks[j].tty == TokenType::Minus || toks[j].tty
        == TokenType::Plus) {
        match sp_factor(toks, j + 1) {
            Result::Ok(k) => sp_term_tail(toks, bound_same(toks, j + 1, k)),
            Result::Err(e) => Result::Err(e),
        }
    } else {
        Result::Ok(j)
    }
}

/// How far `term` consumes from `i`.
pub open spec fn sp_term(toks: Seq<Token>, i: int) -> Result<int, ParseErrorModel>
    decreases toks.len() - i, 5int,
{
    match sp_factor(toks, i) {
        Result::Ok(j) => sp_term_tail(toks, bound_same(toks, i, j)),
        Result::Err(e) => Result::Err(e),
    }
}

/// Same-level operators folded after one `comparison` operand.
pub open spec fn sp_comparison_tail(toks: Seq<Token>, j: int) -> Result<int, ParseErrorModel>
    decreases toks.len() - j, 6int,
{
    if 0 <= j < toks.len() && (toks[j].tty == TokenType::Greater || toks[j].tty
        == TokenType::GreaterEqual || toks[j].tty == TokenType::Less || toks[j].tty
        == TokenType::LessEqual) {
        match sp_term(toks, j + 1) {
            Result::Ok(k) => sp_comparison_tail(toks, bound_same(toks, j + 1, k)),
            Result::Err(e) => Result::Err(e),
        }
    } else {
        Result::Ok(j)
    }
}

/// How far `comparison` consumes from `i`.
pub open spec fn sp_comparison(toks: Seq<Token>, i: int) -> Result<int, ParseErrorModel>
    decreases toks.len() - i, 7int,
{
    match sp_term(toks, i) {
        Result::Ok(j) => sp_comparison_tail(toks, bound_same(toks, i, j)),
        Result::Err(e) => Result::Err(e),
    }
}

/// Same-level operators folded after one `equality` operand.
pub open spec fn sp_equality_tail(toks: Seq<Token>, j: int) -> Result<int, ParseErrorModel>
    decreases toks.len() - j, 8int,
{
    if 0 <= j < toks.len() && (toks[j].tty == TokenType::BangEqual || toks[j].tty
        == TokenType::EqualEqual) {
        match sp_comparison(toks, j + 1) {
            Result::Ok(k) => sp_equality_tail(toks, bound_same(toks, j + 1, k)),
            Result::Err(e) => Result::Err(e),
        }
    } else {
        Result::Ok(j)
    }
}

/// How far `equality` consumes from `i`.
pub open spec fn sp_equality(toks: Seq<Token>, i: int) -> Result<int, ParseErrorModel>
    decreases toks.len() - i, 9int,
{
    match sp_comparison(toks, i) {
        Result::Ok(j) => sp_equality_tail(toks, bound_same(toks, i, j)),
        Result::Err(e) => Result::Err(e),
    }
}

/// How far an expression consumes from `i`: expressions start at the
/// `equality` level.
pub open spec fn sp_expression(toks: Seq<Token>, i: int) -> Result<int, ParseErrorModel>
    decreases toks.len() - i, 10int,
{
    sp_equality(toks, i)
}

/// An expression followed by a required `;`, raising `msg` when the
/// `;` is missing.
pub open spec fn sp_exprstmt(toks: Seq<Token>, i: int, msg: Seq<char>) -> Result<
    int,
    ParseErrorModel,
>
    decreases toks.len() - i, 11int,
{
    match sp_expression(toks, i) {
        Result::Ok(j) => if 0 <= j < toks.len() && toks[j].tty == TokenType::Semicolon {
            Result::Ok(j + 1)
        } else {
            Result::Err(ParseErrorModel { line: line_at(toks, j), message: msg })
        },
        Result::Err(e) => Result::Err(e),
    }
}

/// How far one statement consumes from `i`, or the error it raises.
pub open spec fn sp_statement(toks: Seq<Token>, i: int) -> Result<int, ParseErrorModel>
    decreases toks.len() - i, 12int,
{
    if i < 0 || i >= toks.len() {
        Result::Err(ParseErrorModel { line: 0, message: "Expect expression"@ })
    } else if toks[i].tty == TokenType::Print {
        sp_exprstmt(toks, i + 1, "Expect ';' after expression"@)
    } else if toks[i].tty == TokenType::Var {
        if i + 1 < toks.len() && toks[i + 1].tty == TokenType::Identifier {
            if i + 2 < toks.len() && toks[i + 2].tty == TokenType::Equal {
                sp_exprstmt(toks, i + 3, "Expect ';' after variable declaration"@)
            } else if i + 2 < toks.len() && toks[i + 2].tty == TokenType::Semicolon {
                Result::Ok(i + 3)
            } else {
                Result::Err(
                    ParseErrorModel {
                        line: line_at(toks, i + 2),
                        message: "Expect ';' after variable declaration"@,
                    },
                )
            }
        } else {
            Result::Err(
                ParseErrorModel { line: line_at(toks, i + 1), message: "Expect variable name"@ },
            )
        }
    } else {
        sp_exprstmt(toks, i, "Expect ';' after value"@)
    }
}

/// How far the statement list consumes from `i`: statements until the
/// end-of-input marker, or the first error.
pub open spec fn sp_program(toks: Seq<Token>, i: int) -> Result<int, ParseErrorModel>
    decreases toks.len() - i, 13int,
{
    if 0 <= i < toks.len() && toks[i].tty != TokenType::Eof {
        match sp_statement(toks, i) {
            Result::Ok(j) => sp_program(toks, bound_next(toks, i, j)),
            Result::Err(e) => Result::Err(e),
        }
    } else {
        Result::Ok(i)
    }
}

/// Where `synchronize` stops once started at `j`: at the end of input,
/// just after a `;`, or before a statement-starting keyword.
pub open spec fn sp_sync_from(toks: Seq<Token>, j: int) -> int
    decreases toks.len() - j,
{
    if j < 1 || j >= toks.len() {
        j
    } else if toks[j].tty == TokenType::Eof {
        j
    } else if toks[j - 1].tty == TokenType::Semicolon {
        j
    } else if toks[j].tty == TokenType::Class || toks[j].tty == TokenType::Fun || toks[j].tty
        == TokenType::Var || toks[j].tty == TokenType::For || toks[j].tty == TokenType::If
        || toks[j].tty == TokenType::While || toks[j].tty == TokenType::Print || toks[j].tty
        == TokenType::Return {
        j
    } else {
        sp_sync_from(toks, j + 1)
    }
}

/// One element of the left-to-right spelling of a tree.
pub enum FlatItem {
    FOp(TokenModel),
    FLit(Option<Seq<char>>),
    FVar(TokenModel),
    FOpen,
    FClose,
    FPrintKw,
    FVarKw,
    FEq,
    FSemi,
    FOther(TokenModel),
}

/// The ghost image of a literal payload.
pub open spec fn opt_text(o: Option<String>) -> Option<Seq<char>> {
    match o {
        Option::Some(s) => Option::Some(s@),
        Option::None => Option::None,
    }
}

/// What one token contributes to a tree's spelling.
pub open spec fn tok_flat(t: Token) -> FlatItem {
    match t.tty {
        TokenType::True => FlatItem::FLit(Option::Some("true"@)),
        TokenType::False => FlatItem::FLit(Option::Some("false"@)),
        TokenType::Nil => FlatItem::FLit(Option::None),
        TokenType::Number => FlatItem::FLit(opt_text(t.literal)),
        TokenType::String => FlatItem::FLit(opt_text(t.literal)),
        TokenType::Identifier => FlatItem::FVar(t@),
        TokenType::LeftParen => FlatItem::FOpen,
        TokenType::RightParen => FlatItem::FClose,
        TokenType::Print => FlatItem::FPrintKw,
        TokenType::Var => FlatItem::FVarKw,
        TokenType::Equal => FlatItem::FEq,
        TokenType::Semicolon => FlatItem::FSemi,
        TokenType::Minus => FlatItem::FOp(t@),
        TokenType::Plus => FlatItem::FOp(t@),
        TokenType::Slash => FlatItem::FOp(t@),
        TokenType::Star => FlatItem::FOp(t@),
        TokenType::Bang => FlatItem::FOp(t@),
        TokenType::BangEqual => FlatItem::FOp(t@),
        TokenType::EqualEqual => FlatItem::FOp(t@),
        TokenType::Greater => FlatItem::FOp(t@),
        TokenType::GreaterEqual => FlatItem::FOp(t@),
        TokenType::Less => FlatItem::FOp(t@),
        TokenType::LessEqual => FlatItem::FOp(t@),
        _ => FlatItem::FOther(t@),
    }
}

/// The spelling of the tokens `toks[a..b]`.
pub open spec fn toks_flat(toks: Seq<Token>, a: int, b: int) -> Seq<FlatItem> {
    toks.subrange(a, b).map_values(|t: Token| tok_flat(t))
}

/// The left-to-right spelling of an expression tree: exactly the
/// tokens it was parsed from.
pub open spec fn eflat(e: Expr) -> Seq<FlatItem>
    decreases e,
{
    match e {
        Expr::Binary(b) => eflat(b.left) + seq![FlatItem::FOp(b.operator@)] + eflat(b.right),
        Expr::Grouping(g) => seq![FlatItem::FOpen] + eflat(g.expression) + seq![FlatItem::FClose],
        Expr::Literal(l) => seq![FlatItem::FLit(opt_text(l.value))],
        Expr::Unary(u) => seq![FlatItem::FOp(u.operator@)] + eflat(u.right),
        Expr::Variable(v) => seq![FlatItem::FVar(v.name@)],
    }
}

/// The left-to-right spelling of a statement.
pub open spec fn sflat(st: StmtExpr) -> Seq<FlatItem> {
    match st {
        StmtExpr::Expression { expression } => eflat(expression) + seq![FlatItem::FSemi],
        StmtExpr::Print { expression } => seq![FlatItem::FPrintKw] + eflat(expression) + seq![
            FlatItem::FSemi,
        ],
        StmtExpr::Var { name, initializer } => seq![FlatItem::FVarKw, FlatItem::FVar(name@)] + (
        match initializer {
            Option::Some(e) => seq![FlatItem::FEq] + eflat(e),
            Option::None => Seq::empty(),
        }) + seq![FlatItem::FSemi],
    }
}

/// The spelling of a statement list.
pub open spec fn stmts_flat(ss: Seq<StmtExpr>) -> Seq<FlatItem>
    decreases ss.len(),
{
    if ss.len() == 0 {
        Seq::empty()
    } else {
        sflat(ss[0]) + stmts_flat(ss.drop_first())
    }
}

/// The precedence level a binary operator binds at.
pub open spec fn op_level(t: TokenType) -> int {
    match t {
        TokenType::EqualEqual => 4,
        TokenType::BangEqual => 4,
        TokenType::Greater => 3,
        TokenType::GreaterEqual => 3,
        TokenType::Less => 3,
        TokenType::LessEqual => 3,
        TokenType::Plus => 2,
        TokenType::Minus => 2,
        TokenType::Slash => 1,
        TokenType::Star => 1,
        _ => 0,
    }
}

/// Precedence well-formedness at `level`: a binary node binds no
/// looser than `level`, its left child no looser than itself (left
/// association), its right child strictly tighter; a unary operand is
/// unary or primary; a group resets to the loosest level.
pub open spec fn expr_wf(e: Expr, level: int) -> bool
    decreases e,
{
    match e {
        Expr::Binary(b) => {
            &&& 1 <= op_level(b.operator.tty) <= level
            &&& expr_wf(b.left, op_level(b.operator.tty))
            &&& expr_wf(b.right, op_level(b.operator.tty) - 1)
        },
        Expr::Grouping(g) => expr_wf(g.expression, 4),
        Expr::Literal(_) => true,
        Expr::Unary(u) => {
            &&& u.operator.tty == TokenType::Bang || u.operator.tty == TokenType::Minus
            &&& expr_wf(u.right, 0)
        },
        Expr::Variable(_) => true,
    }
}

/// Every expression of a statement is well formed at the top level.
pub open spec fn stmt_wf(st: StmtExpr) -> bool {
    match st {
        StmtExpr::Expression { expression } => expr_wf(expression, 4),
        StmtExpr::Print { expression } => expr_wf(expression, 4),
        StmtExpr::Var { name, initializer } => {
            &&& name.tty == TokenType::Identifier
            &&& match initializer {
                Option::Some(e) => expr_wf(e, 4),
                Option::None => true,
            }
        },
    }
}

/// What the scanner hands over satisfies what the parser requires:
/// scanned tokens with the end-of-input marker appended are a
/// well-formed token vector.
pub proof fn lemma_scanned_tokens_wf(v: Seq<Token>, s: Seq<char>)
    requires
        crate::scanner::toks_model(v) == crate::scanner::scan_from(s, 0, 1).toks.push(
            crate::token::TokenModel {
                tty: TokenType::Eof,
                lexeme: Seq::empty(),
                literal: Option::None,
                line: crate::scanner::scan_from(s, 0, 1).end_line,
            },
        ),
        s.len() >= 0,
    ensures
        tok_wf(v),
{
    let m = crate::scanner::toks_model(v);
    let body = crate::scanner::scan_from(s, 0, 1).toks;
    crate::scanner::lemma_scan_no_eof(s, 0, 1);
    assert(m.len() == v.len());
    assert(v.last().tty == m.last().tty);
    assert forall|i: int| 0 <= i < v.len() - 1 implies (#[trigger] v[i].tty) != TokenType::Eof by {
        assert(m[i] == v[i]@);
        assert(m[i] == body.push(
            crate::token::TokenModel {
                tty: TokenType::Eof,
                lexeme: Seq::empty(),
                literal: Option::None,
                line: crate::scanner::scan_from(s, 0, 1).end_line,
            },
        )[i]);
        assert(body[i].tty != TokenType::Eof);
    }
}

pub proof fn lemma_flat_single(toks: Seq<Token>, a: int)
    requires
        0 <= a < toks.len(),
    ensures
        toks_flat(toks, a, a + 1) == seq![tok_flat(toks[a])],
{
    assert(toks_flat(toks, a, a + 1) =~= seq![tok_flat(toks[a])]);
}

pub proof fn lemma_flat_concat(toks: Seq<Token>, a: int, b: int, c: int)
    requires
        0 <= a <= b <= c <= toks.len(),
    ensures
        toks_flat(toks, a, c) == toks_flat(toks, a, b) + toks_flat(toks, b, c),
{
    assert(toks_flat(toks, a, c) =~= toks_flat(toks, a, b) + toks_flat(toks, b, c));
}

pub proof fn lemma_stmts_flat_push(ss: Seq<StmtExpr>, st: StmtExpr)
    ensures
        stmts_flat(ss.push(st)) == stmts_flat(ss) + sflat(st),
    decreases ss.len(),
{
    if ss.len() == 0 {
        assert(ss.push(st)[0] == st);
        assert(stmts_flat(ss.push(st)) == sflat(st) + stmts_flat(ss.push(st).drop_first()));
        assert(ss.push(st).drop_first() =~= Seq::<StmtExpr>::empty());
        assert(sflat(st) + Seq::<FlatItem>::empty() =~= sflat(st));
        assert(stmts_flat(ss) + sflat(st) =~= sflat(st));
    } else {
        assert(ss.push(st).drop_first() =~= ss.drop_first().push(st));
        lemma_stmts_flat_push(ss.drop_first(), st);
        assert(stmts_flat(ss.push(st)) == sflat(ss[0]) + (stmts_flat(ss.drop_first()) + sflat(
            st,
        )));
        assert(sflat(ss[0]) + (stmts_flat(ss.drop_first()) + sflat(st)) =~= (sflat(ss[0])
            + stmts_flat(ss.drop_first())) + sflat(st));
    }
}

/// The parser state: the token vector it owns and the cursor into it.
#[derive(Debug)]
pub struct Parser {
    pub current: usize,
    pub tokens: Vec<Token>,
}

impl Parser {
    /// The cursor stays on a token; the end-of-input marker stops it
    /// from running off the end.
    pub open spec fn pwf(&self) -> bool {
        &&& tok_wf(self.tokens@)
        &&& self.current < self.tokens@.len()
    }

    pub fn new(tokens: Vec<Token>) -> (r: Parser)
        requires
            tok_wf(tokens@),
        ensures
            r.pwf(),
            r.current == 0,
            r.tokens == tokens,
    {
        Parser { current: 0, tokens }
    }

    fn peek(&self) -> (t: Token)
        requires
            self.pwf(),
        ensures
            t == self.tokens@[self.current as int],
    {
        self.tokens[self.current].duplicate()
    }

    fn previous(&self) -> (t: Token)
        requires
            self.pwf(),
            self.current >= 1,
        ensures
            t == self.tokens@[self.current - 1],
    {
        let i = self.current - 1;
        self.tokens[i].duplicate()
    }

    fn is_at_end(&self) -> (r: bool)
        requires
            self.pwf(),
        ensures
            r == (self.tokens@[self.current as int].tty == TokenType::Eof),
    {
        self.peek().tty == TokenType::Eof
    }

    fn check(&self, tty: TokenType) -> (r: bool)
        requires
            self.pwf(),
        ensures
            r == (self.tokens@[self.current as int].tty != TokenType::Eof
                && self.tokens@[self.current as int].tty == tty),
    {
        if self.is_at_end() {
            return false;
        }
        self.peek().tty == tty
    }

    /// Consumes the token under the cursor; never called on the
    /// end-of-input marker.
    fn advance(&mut self) -> (t: Token)
        requires
            old(self).pwf(),
            old(self).tokens@[old(self).current as int].tty != TokenType::Eof,
        ensures
            final(self).pwf(),
            final(self).tokens == old(self).tokens,
            final(self).current == old(self).current + 1,
            t == old(self).tokens@[old(self).current as int],
    {
        proof {
            assert(self.current != self.tokens@.len() - 1);
        }
        let t = self.peek();
        let n = self.tokens.len();
        proof {
            assert(self.current < n);
        }
        self.current = self.current + 1;
        t
    }

    /// Consumes the token under the cursor exactly when its kind is one
    /// of `types`.
    #[verifier::loop_isolation(false)]
    fn match_next(&mut self, types: &[TokenType]) -> (r: bool)
        requires
            old(self).pwf(),
        ensures
            final(self).pwf(),
            final(self).tokens == old(self).tokens,
            r == (old(self).tokens@[old(self).current as int].tty != TokenType::Eof
                && types@.contains(old(self).tokens@[old(self).current as int].tty)),
            r ==> final(self).current == old(self).current + 1,
            !r ==> final(self).current == old(self).current,
    {
        let n = types.len();
        let mut k: usize = 0;
        while k < n
            invariant
                k <= n,
                n == types@.len(),
                self == old(self),
                forall|m: int| 0 <= m < k ==> !(self.tokens@[self.current as int].tty
                    != TokenType::Eof && self.tokens@[self.current as int].tty == #[trigger] types@[m]),
            decreases n - k,
        {
            if self.check(types[k]) {
                let _t = self.advance();
                return true;
            }
            k += 1;
        }
        false
    }

    /// Requires the token under the cursor to be of kind `tty`:
    /// consumes it, or raises `message` at the token's line.
    fn consume(&mut self, tty: TokenType, message: &str) -> (r: Result<Token, ParseError>)
        requires
            old(self).pwf(),
            tty != TokenType::Eof,
        ensures
            final(self).pwf(),
            final(self).tokens == old(self).tokens,
            match r {
                Result::Ok(t) => {
                    &&& old(self).tokens@[old(self).current as int].tty == tty
                    &&& t == old(self).tokens@[old(self).current as int]
                    &&& final(self).current == old(self).current + 1
                },
                Result::Err(pe) => {
                    &&& old(self).tokens@[old(self).current as int].tty != tty
                    &&& final(self).current == old(self).current
                    &&& pe@ == (ParseErrorModel {
                        line: old(self).tokens@[old(self).current as int].line as int,
                        message: message@,
                    })
                },
            },
    {
        if self.check(tty) {
            return Result::Ok(self.advance());
        }
        let line = self.peek().line;
        Result::Err(ParseError { line, message: String::from_str(message) })
    }

    /// `primary`: literals, parenthesized groups, and identifiers; any
    /// other token is a parse failure.
    #[verifier::rlimit(50)]
    fn primary(&mut self) -> (r: Result<Expr, ParseError>)
        requires
            old(self).pwf(),
        ensures
            final(self).pwf(),
            final(self).tokens == old(self).tokens,
            old(self).current <= final(self).current,
            match r {
                Result::Ok(e) => {
                    &&& sp_primary(old(self).tokens@, old(self).current as int) == Result::<
                        int,
                        ParseErrorModel,
                    >::Ok(final(self).current as int)
                    &&& old(self).current < final(self).current
                    &&& eflat(e) == toks_flat(
                        old(self).tokens@,
                        old(self).current as int,
                        final(self).current as int,
                    )
                    &&& expr_wf(e, 0)
                },
                Result::Err(pe) => sp_primary(old(self).tokens@, old(self).current as int)
                    == Result::<int, ParseErrorModel>::Err(pe@),
            },
        decreases old(self).tokens@.len() - old(self).current, 0int,
    {
        let ghost toks = self.tokens@;
        let ghost i0 = self.current as int;
        if self.match_next(&[TokenType::False]) {
            let e = Expr::Literal(LiteralExpr { value: Option::Some(String::from_str("false")) });
            proof {
                lemma_flat_single(toks, i0);
            }
            return Result::Ok(e);
        }
        if self.match_next(&[TokenType::True]) {
            let e = Expr::Literal(LiteralExpr { value: Option::Some(String::from_str("true")) });
            proof {
                lemma_flat_single(toks, i0);
            }
            return Result::Ok(e);
        }
        if self.match_next(&[TokenType::Nil]) {
            let e = Expr::Literal(LiteralExpr { value: Option::None });
            proof {
                lemma_flat_single(toks, i0);
            }
            return Result::Ok(e);
        }
        if self.match_next(&[TokenType::Number, TokenType::String]) {
            let prev = self.previous();
            let e = Expr::Literal(LiteralExpr { value: prev.literal });
            proof {
                lemma_flat_single(toks, i0);
            }
            return Result::Ok(e);
        }
        if self.match_next(&[TokenType::Identifier]) {
            let prev = self.previous();
            let e = Expr::Variable(VariableExpr { name: prev });
            proof {
                lemma_flat_single(toks, i0);
            }
            return Result::Ok(e);
        }
        if self.match_next(&[TokenType::LeftParen]) {
            let inner = match self.expression() {
                Result::Ok(e) => e,
                Result::Err(pe) => {
                    return Result::Err(pe);
                },
            };
            let ghost j = self.current as int;
            match self.consume(TokenType::RightParen, "Expect ')' after expression") {
                Result::Ok(_t) => {},
                Result::Err(pe) => {
                    return Result::Err(pe);
                },
            }
            let e = Expr::Grouping(Box::new(GroupingExpr { expression: inner }));
            proof {
                lemma_flat_single(toks, i0);
                lemma_flat_single(toks, j);
                lemma_flat_concat(toks, i0, i0 + 1, j);
                lemma_flat_concat(toks, i0, j, j + 1);
                assert(eflat(e) =~= toks_flat(toks, i0, j + 1));
            }
            return Result::Ok(e);
        }
        let line = self.peek().line;
        Result::Err(ParseError { line, message: String::from_str("Expect expression") })
    }

    /// `unary`: a prefix `!` or `-` applied to a unary, or a primary.
    fn unary(&mut self) -> (r: Result<Expr, ParseError>)
        requires
            old(self).pwf(),
        ensures
            final(self).pwf(),
            final(self).tokens == old(self).tokens,
            old(self).current <= final(self).current,
            match r {
                Result::Ok(e) => {
                    &&& sp_unary(old(self).tokens@, old(self).current as int) == Result::<
                        int,
                        ParseErrorModel,
                    >::Ok(final(self).current as int)
                    &&& old(self).current < final(self).current
                    &&& eflat(e) == toks_flat(
                        old(self).tokens@,
                        old(self).current as int,
                        final(self).current as int,
                    )
                    &&& expr_wf(e, 0)
                },
                Result::Err(pe) => sp_unary(old(self).tokens@, old(self).current as int)
                    == Result::<int, ParseErrorModel>::Err(pe@),
            },
        decreases old(self).tokens@.len() - old(self).current, 1int,
    {
        let ghost toks = self.tokens@;
        let ghost i0 = self.current as int;
        if self.match_next(&[TokenType::Bang, TokenType::Minus]) {
            let op = self.previous();
            let right = match self.unary() {
                Result::Ok(e) => e,
                Result::Err(pe) => {
                    return Result::Err(pe);
                },
            };
            let e = Expr::Unary(Box::new(UnaryExpr { operator: op, right }));
            proof {
                lemma_flat_single(toks, i0);
                lemma_flat_concat(toks, i0, i0 + 1, self.current as int);
            }
            return Result::Ok(e);
        }
        self.primary()
    }

    /// `factor`: one `unary` operand, then same-level operators
    /// folded left-associatively.
    #[verifier::rlimit(50)]
    #[verifier::loop_isolation(false)]
    fn factor(&mut self) -> (r: Result<Expr, ParseError>)
        requires
            old(self).pwf(),
        ensures
            final(self).pwf(),
            final(self).tokens == old(self).tokens,
            old(self).current <= final(self).current,
            match r {
                Result::Ok(e) => {
                    &&& sp_factor(old(self).tokens@, old(self).current as int) == Result::<
                        int,
                        ParseErrorModel,
                    >::Ok(final(self).current as int)
                    &&& old(self).current < final(self).current
                    &&& eflat(e) == toks_flat(
                        old(self).tokens@,
                        old(self).current as int,
                        final(self).current as int,
                    )
                    &&& expr_wf(e, 1)
                },
                Result::Err(pe) => sp_factor(old(self).tokens@, old(self).current as int)
                    == Result::<int, ParseErrorModel>::Err(pe@),
            },
        decreases old(self).tokens@.len() - old(self).current, 3int,
    {
        let ghost tvec = self.tokens;
        let ghost toks = self.tokens@;
        let ghost i0 = self.current as int;
        let mut expr = match self.unary() {
            Result::Ok(e) => e,
            Result::Err(pe) => {
                return Result::Err(pe);
            },
        };
        proof {
            assert(bound_same(toks, i0, self.current as int) == self.current as int);
        }
        loop
            invariant
                self.pwf(),
                self.tokens == tvec,
                self.tokens@ == toks,
                i0 < self.current as int,
                sp_factor(toks, i0) == sp_factor_tail(toks, self.current as int),
                eflat(expr) == toks_flat(toks, i0, self.current as int),
                expr_wf(expr, 1),
            decreases toks.len() - self.current,
        {
            if !self.match_next(&[TokenType::Slash, TokenType::Star]) {
                return Result::Ok(expr);
            }
            let ghost j = self.current as int - 1;
            let op = self.previous();
            let right = match self.unary() {
                Result::Ok(e) => e,
                Result::Err(pe) => {
                    return Result::Err(pe);
                },
            };
            proof {
                assert(bound_same(toks, j + 1, self.current as int) == self.current as int);
            }
            expr = Expr::Binary(Box::new(BinaryExpr { left: expr, operator: op, right }));
            proof {
                lemma_flat_single(toks, j);
                lemma_flat_concat(toks, i0, j, j + 1);
                lemma_flat_concat(toks, i0, j + 1, self.current as int);
                assert(eflat(expr) =~= toks_flat(toks, i0, self.current as int));
            }
        }
    }

    /// `term`: one `factor` operand, then same-level operators
    /// folded left-associatively.
    #[verifier::rlimit(50)]
    #[verifier::loop_isolation(false)]
    fn term(&mut self) -> (r: Result<Expr, ParseError>)
        requires
            old(self).pwf(),
        ensures
            final(self).pwf(),
            final(self).tokens == old(self).tokens,
            old(self).current <= final(self).current,
            match r {
                Result::Ok(e) => {
                    &&& sp_term(old(self).tokens@, old(self).current as int) == Result::<
                        int,
                        ParseErrorModel,
                    >::Ok(final(self).current as int)
                    &&& old(self).current < final(self).current
                    &&& eflat(e) == toks_flat(
                        old(self).tokens@,
                        old(self).current as int,
                        final(self).current as int,
                    )
                    &&& expr_wf(e, 2)
                },
                Result::Err(pe) => sp_term(old(self).tokens@, old(self).current as int)
                    == Result::<int, ParseErrorModel>::Err(pe@),
            },
        decreases old(self).tokens@.len() - old(self).current, 5int,
    {
        let ghost tvec = self.tokens;
        let ghost toks = self.tokens@;
        let ghost i0 = self.current as int;
        let mut expr = match self.factor() {
            Result::Ok(e) => e,
            Result::Err(pe) => {
                return Result::Err(pe);
            },
        };
        proof {
            assert(bound_same(toks, i0, self.current as int) == self.current as int);
        }
        loop
            invariant
                self.pwf(),
                self.tokens == tvec,
                self.tokens@ == toks,
                i0 < self.current as int,
                sp_term(toks, i0) == sp_term_tail(toks, self.current as int),
                eflat(expr) == toks_flat(toks, i0, self.current as int),
                expr_wf(expr, 2),
            decreases toks.len() - self.current,
        {
            if !self.match_next(&[TokenType::Minus, TokenType::Plus]) {
                return Result::Ok(expr);
            }
            let ghost j = self.current as int - 1;
            let op = self.previous();
            let right = match self.factor() {
                Result::Ok(e) => e,
                Result::Err(pe) => {
                    return Result::Err(pe);
                },
            };
            proof {
                assert(bound_same(toks, j + 1, self.current as int) == self.current as int);
            }
            expr = Expr::Binary(Box::new(BinaryExpr { left: expr, operator: op, right }));
            proof {
                lemma_flat_single(toks, j);
                lemma_flat_concat(toks, i0, j, j + 1);
                lemma_flat_concat(toks, i0, j + 1, self.current as int);
                assert(eflat(expr) =~= toks_flat(toks, i0, self.current as int));
            }
        }
    }

    /// `comparison`: one `term` operand, then same-level operators
    /// folded left-associatively.
    #[verifier::rlimit(50)]
    #[verifier::loop_isolation(false)]
    fn comparison(&mut self) -> (r: Result<Expr, ParseError>)
        requires
            old(self).pwf(),
        ensures
            final(self).pwf(),
            final(self).tokens == old(self).tokens,
            old(self).current <= final(self).current,
            match r {
                Result::Ok(e) => {
                    &&& sp_comparison(old(self).tokens@, old(self).current as int) == Result::<
                        int,
                        ParseErrorModel,
                    >::Ok(final(self).current as int)
                    &&& old(self).current < final(self).current
                    &&& eflat(e) == toks_flat(
                        old(self).tokens@,
                        old(self).current as int,
                        final(self).current as int,
                    )
                    &&& expr_wf(e, 3)
                },
                Result::Err(pe) => sp_comparison(old(self).tokens@, old(self).current as int)
                    == Result::<int, ParseErrorModel>::Err(pe@),
            },
        decreases old(self).tokens@.len() - old(self).current, 7int,
    {
        let ghost tvec = self.tokens;
        let ghost toks = self.tokens@;
        let ghost i0 = self.current as int;
        let mut expr = match self.term() {
            Result::Ok(e) => e,
            Result::Err(pe) => {
                return Result::Err(pe);
            },
        };
        proof {
            assert(bound_same(toks, i0, self.current as int) == self.current as int);
        }
        loop
            invariant
                self.pwf(),
                self.tokens == tvec,
                self.tokens@ == toks,
                i0 < self.current as int,
                sp_comparison(toks, i0) == sp_comparison_tail(toks, self.current as int),
                eflat(expr) == toks_flat(toks, i0, self.current as int),
                expr_wf(expr, 3),
            decreases toks.len() - self.current,
        {
            if !self.match_next(&[TokenType::Greater, TokenType::GreaterEqual, TokenType::Less, TokenType::LessEqual]) {
                return Result::Ok(expr);
            }
            let ghost j = self.current as int - 1;
            let op = self.previous();
            let right = match self.term() {
                Result::Ok(e) => e,
                Result::Err(pe) => {
                    return Result::Err(pe);
                },
            };
            proof {
                assert(bound_same(toks, j + 1, self.current as int) == self.current as int);
            }
            expr = Expr::Binary(Box::new(BinaryExpr { left: expr, operator: op, right }));
            proof {
                lemma_flat_single(toks, j);
                lemma_flat_concat(toks, i0, j, j + 1);
                lemma_flat_concat(toks, i0, j + 1, self.current as int);
                assert(eflat(expr) =~= toks_flat(toks, i0, self.current as int));
            }
        }
    }

    /// `equality`: one `comparison` operand, then same-level operators
    /// folded left-associatively.
    #[verifier::rlimit(50)]
    #[verifier::loop_isolation(false)]
    fn equality(&mut self) -> (r: Result<Expr, ParseError>)
        requires
            old(self).pwf(),
        ensures
            final(self).pwf(),
            final(self).tokens == old(self).tokens,
            old(self).current <= final(self).current,
            match r {
                Result::Ok(e) => {
                    &&& sp_equality(old(self).tokens@, old(self).current as int) == Result::<
                        int,
                        ParseErrorModel,
                    >::Ok(final(self).current as int)
                    &&& old(self).current < final(self).current
                    &&& eflat(e) == toks_flat(
                        old(self).tokens@,
                        old(self).current as int,
                        final(self).current as int,
                    )
                    &&& expr_wf(e, 4)
                },
                Result::Err(pe) => sp_equality(old(self).tokens@, old(self).current as int)
                    == Result::<int, ParseErrorModel>::Err(pe@),
            },
        decreases old(self).tokens@.len() - old(self).current, 9int,
    {
        let ghost tvec = self.tokens;
        let ghost toks = self.tokens@;
        let ghost i0 = self.current as int;
        let mut expr = match self.comparison() {
            Result::Ok(e) => e,
            Result::Err(pe) => {
                return Result::Err(pe);
            },
        };
        proof {
            assert(bound_same(toks, i0, self.current as int) == self.current as int);
        }
        loop
            invariant
                self.pwf(),
                self.tokens == tvec,
                self.tokens@ == toks,
                i0 < self.current as int,
                sp_equality(toks, i0) == sp_equality_tail(toks, self.current as int),
                eflat(expr) == toks_flat(toks, i0, self.current as int),
                expr_wf(expr, 4),
            decreases toks.len() - self.current,
        {
            if !self.match_next(&[TokenType::BangEqual, TokenType::EqualEqual]) {
                return Result::Ok(expr);
            }
            let ghost j = self.current as int - 1;
            let op = self.previous();
            let right = match self.comparison() {
                Result::Ok(e) => e,
                Result::Err(pe) => {
                    return Result::Err(pe);
                },
            };
            proof {
                assert(bound_same(toks, j + 1, self.current as int) == self.current as int);
            }
            expr = Expr::Binary(Box::new(BinaryExpr { left: expr, operator: op, right }));
            proof {
                lemma_flat_single(toks, j);
                lemma_flat_concat(toks, i0, j, j + 1);
                lemma_flat_concat(toks, i0, j + 1, self.current as int);
                assert(eflat(expr) =~= toks_flat(toks, i0, self.current as int));
            }
        }
    }

    /// `expression`: expressions start at the `equality` level.
    fn expression(&mut self) -> (r: Result<Expr, ParseError>)
        requires
            old(self).pwf(),
        ensures
            final(self).pwf(),
            final(self).tokens == old(self).tokens,
            old(self).current <= final(self).current,
            match r {
                Result::Ok(e) => {
                    &&& sp_expression(old(self).tokens@, old(self).current as int) == Result::<
                        int,
                        ParseErrorModel,
                    >::Ok(final(self).current as int)
                    &&& old(self).current < final(self).current
                    &&& eflat(e) == toks_flat(
                        old(self).tokens@,
                        old(self).current as int,
                        final(self).current as int,
                    )
                    &&& expr_wf(e, 4)
                },
                Result::Err(pe) => sp_expression(old(self).tokens@, old(self).current as int)
                    == Result::<int, ParseErrorModel>::Err(pe@),
            },
        decreases old(self).tokens@.len() - old(self).current, 10int,
    {
        self.equality()
    }

    /// A `print` statement's tail: the expression and its required `;`.
    fn print_statement(&mut self) -> (r: Result<StmtExpr, ParseError>)
        requires
            old(self).pwf(),
        ensures
            final(self).pwf(),
            final(self).tokens == old(self).tokens,
            old(self).current <= final(self).current,
            match r {
                Result::Ok(st) => {
                    &&& sp_exprstmt(
                        old(self).tokens@,
                        old(self).current as int,
                        "Expect ';' after expression"@,
                    ) == Result::<int, ParseErrorModel>::Ok(final(self).current as int)
                    &&& old(self).current < final(self).current
                    &&& (st matches StmtExpr::Print { expression } && eflat(expression)
                        == toks_flat(
                        old(self).tokens@,
                        old(self).current as int,
                        final(self).current - 1,
                    ) && expr_wf(expression, 4))
                },
                Result::Err(pe) => sp_exprstmt(
                    old(self).tokens@,
                    old(self).current as int,
                    "Expect ';' after expression"@,
                ) == Result::<int, ParseErrorModel>::Err(pe@),
            },
        decreases old(self).tokens@.len() - old(self).current, 11int,
    {
        let expr = match self.expression() {
            Result::Ok(e) => e,
            Result::Err(pe) => {
                return Result::Err(pe);
            },
        };
        match self.consume(TokenType::Semicolon, "Expect ';' after expression") {
            Result::Ok(_t) => {},
            Result::Err(pe) => {
                return Result::Err(pe);
            },
        }
        Result::Ok(StmtExpr::Print { expression: expr })
    }

    /// An expression statement: the expression and its required `;`.
    fn expression_statement(&mut self) -> (r: Result<StmtExpr, ParseError>)
        requires
            old(self).pwf(),
        ensures
            final(self).pwf(),
            final(self).tokens == old(self).tokens,
            old(self).current <= final(self).current,
            match r {
                Result::Ok(st) => {
                    &&& sp_exprstmt(
                        old(self).tokens@,
                        old(self).current as int,
                        "Expect ';' after value"@,
                    ) == Result::<int, ParseErrorModel>::Ok(final(self).current as int)
                    &&& old(self).current < final(self).current
                    &&& (st matches StmtExpr::Expression { expression } && eflat(expression)
                        == toks_flat(
                        old(self).tokens@,
                        old(self).current as int,
                        final(self).current - 1,
                    ) && expr_wf(expression, 4))
                },
                Result::Err(pe) => sp_exprstmt(
                    old(self).tokens@,
                    old(self).current as int,
                    "Expect ';' after value"@,
                ) == Result::<int, ParseErrorModel>::Err(pe@),
            },
        decreases old(self).tokens@.len() - old(self).current, 11int,
    {
        let expr = match self.expression() {
            Result::Ok(e) => e,
            Result::Err(pe) => {
                return Result::Err(pe);
            },
        };
        match self.consume(TokenType::Semicolon, "Expect ';' after value") {
            Result::Ok(_t) => {},
            Result::Err(pe) => {
                return Result::Err(pe);
            },
        }
        Result::Ok(StmtExpr::Expression { expression: expr })
    }

    /// One statement: a `print` statement, a `var` declaration, or an
    /// expression statement.
    #[verifier::rlimit(100)]
    fn statement(&mut self) -> (r: Result<StmtExpr, ParseError>)
        requires
            old(self).pwf(),
        ensures
            final(self).pwf(),
            final(self).tokens == old(self).tokens,
            old(self).current <= final(self).current,
            match r {
                Result::Ok(st) => {
                    &&& sp_statement(old(self).tokens@, old(self).current as int) == Result::<
                        int,
                        ParseErrorModel,
                    >::Ok(final(self).current as int)
                    &&& old(self).current < final(self).current
                    &&& sflat(st) == toks_flat(
                        old(self).tokens@,
                        old(self).current as int,
                        final(self).current as int,
                    )
                    &&& stmt_wf(st)
                },
                Result::Err(pe) => sp_statement(old(self).tokens@, old(self).current as int)
                    == Result::<int, ParseErrorModel>::Err(pe@),
            },
        decreases old(self).tokens@.len() - old(self).current, 12int,
    {
        let ghost toks = self.tokens@;
        let ghost i0 = self.current as int;
        if self.match_next(&[TokenType::Print]) {
            let st = match self.print_statement() {
                Result::Ok(s) => s,
                Result::Err(pe) => {
                    return Result::Err(pe);
                },
            };
            let ghost fin = self.current as int;
            proof {
                lemma_flat_single(toks, i0);
                lemma_flat_single(toks, fin - 1);
                lemma_flat_concat(toks, i0, i0 + 1, fin - 1);
                lemma_flat_concat(toks, i0, fin - 1, fin);
                assert(sflat(st) =~= toks_flat(toks, i0, fin));
            }
            return Result::Ok(st);
        }
        if self.match_next(&[TokenType::Var]) {
            let name = match self.consume(TokenType::Identifier, "Expect variable name") {
                Result::Ok(t) => t,
                Result::Err(pe) => {
                    return Result::Err(pe);
                },
            };
            let mut initializer: Option<Expr> = Option::None;
            let ghost has_init = false;
            if self.match_next(&[TokenType::Equal]) {
                let e = match self.expression() {
                    Result::Ok(e) => e,
                    Result::Err(pe) => {
                        return Result::Err(pe);
                    },
                };
                initializer = Option::Some(e);
                proof {
                    has_init = true;
                }
            }
            let ghost fin_expr = self.current as int;
            match self.consume(TokenType::Semicolon, "Expect ';' after variable declaration") {
                Result::Ok(_t) => {},
                Result::Err(pe) => {
                    return Result::Err(pe);
                },
            }
            let st = StmtExpr::Var { name, initializer };
            let ghost fin = self.current as int;
            proof {
                lemma_flat_single(toks, i0);
                lemma_flat_single(toks, i0 + 1);
                lemma_flat_single(toks, fin - 1);
                lemma_flat_concat(toks, i0, i0 + 1, i0 + 2);
                if has_init {
                    lemma_flat_single(toks, i0 + 2);
                    lemma_flat_concat(toks, i0, i0 + 2, i0 + 3);
                    lemma_flat_concat(toks, i0, i0 + 3, fin - 1);
                }
                lemma_flat_concat(toks, i0, fin - 1, fin);
                assert(sflat(st) =~= toks_flat(toks, i0, fin));
            }
            return Result::Ok(st);
        }
        let st = match self.expression_statement() {
            Result::Ok(s) => s,
            Result::Err(pe) => {
                return Result::Err(pe);
            },
        };
        let ghost fin = self.current as int;
        proof {
            lemma_flat_single(toks, fin - 1);
            lemma_flat_concat(toks, i0, fin - 1, fin);
            assert(sflat(st) =~= toks_flat(toks, i0, fin));
        }
        Result::Ok(st)
    }

    /// The whole program: statements until the end-of-input marker.
    /// Fail-fast: the first statement that cannot be parsed aborts the
    /// parse with its error and no partial result.
    #[verifier::loop_isolation(false)]
    pub fn parse(&mut self) -> (r: Result<Vec<StmtExpr>, ParseError>)
        requires
            old(self).pwf(),
        ensures
            final(self).pwf(),
            final(self).tokens == old(self).tokens,
            old(self).current <= final(self).current,
            match r {
                Result::Ok(stmts) => {
                    &&& sp_program(old(self).tokens@, old(self).current as int) == Result::<
                        int,
                        ParseErrorModel,
                    >::Ok(final(self).current as int)
                    &&& final(self).tokens@[final(self).current as int].tty == TokenType::Eof
                    &&& stmts_flat(stmts@) == toks_flat(
                        old(self).tokens@,
                        old(self).current as int,
                        final(self).current as int,
                    )
                    &&& forall|k: int|
                        0 <= k < stmts@.len() ==> stmt_wf(#[trigger] stmts@[k])
                },
                Result::Err(pe) => sp_program(old(self).tokens@, old(self).current as int)
                    == Result::<int, ParseErrorModel>::Err(pe@),
            },
    {
        let ghost tvec = self.tokens;
        let ghost toks = self.tokens@;
        let ghost i0 = self.current as int;
        let mut statements: Vec<StmtExpr> = Vec::new();
        proof {
            assert(toks_flat(toks, i0, i0) =~= Seq::<FlatItem>::empty());
        }
        loop
            invariant
                self.pwf(),
                self.tokens == tvec,
                i0 <= self.current as int,
                sp_program(toks, i0) == sp_program(toks, self.current as int),
                stmts_flat(statements@) == toks_flat(toks, i0, self.current as int),
                forall|k: int| 0 <= k < statements@.len() ==> stmt_wf(#[trigger] statements@[k]),
            decreases toks.len() - self.current,
        {
            if self.is_at_end() {
                return Result::Ok(statements);
            }
            let ghost cur_pre = self.current as int;
            let ghost done = statements@;
            match self.statement() {
                Result::Ok(st) => {
                    proof {
                        assert(bound_next(toks, cur_pre, self.current as int) == self.current as int);
                        lemma_stmts_flat_push(done, st);
                        lemma_flat_concat(toks, i0, cur_pre, self.current as int);
                    }
                    statements.push(st);
                },
                Result::Err(pe) => {
                    return Result::Err(pe);
                },
            }
        }
    }

    /// Discards tokens up to the next statement boundary: past a `;`,
    /// or before a statement-starting keyword, or to the end of input.
    /// For use after a parse error, to resume at the next statement.
    #[verifier::loop_isolation(false)]
    pub fn synchronize(&mut self)
        requires
            old(self).pwf(),
        ensures
            final(self).pwf(),
            final(self).tokens == old(self).tokens,
            final(self).current as int == if old(self).tokens@[old(self).current as int].tty
                == TokenType::Eof {
                old(self).current as int
            } else {
                sp_sync_from(old(self).tokens@, old(self).current + 1)
            },
    {
        let ghost tvec = self.tokens;
        let ghost toks = self.tokens@;
        if self.is_at_end() {
            return;
        }
        let _t = self.advance();
        let ghost j0 = self.current as int;
        loop
            invariant
                self.pwf(),
                self.tokens == tvec,
                1 <= self.current as int,
                sp_sync_from(toks, j0) == sp_sync_from(toks, self.current as int),
            decreases toks.len() - self.current,
        {
            if self.is_at_end() {
                return;
            }
            if self.previous().tty == TokenType::Semicolon {
                return;
            }
            let p = self.peek().tty;
            if p == TokenType::Class || p == TokenType::Fun || p == TokenType::Var
                || p == TokenType::For || p == TokenType::If || p == TokenType::While
                || p == TokenType::Print || p == TokenType::Return {
                return;
            }
            let _t2 = self.advance();
        }
    }
}

} // verus!
