//! Parser for Peps token streams.
//!
//! Statements are parsed with recursive descent, while expressions use
//! precedence climbing so binary operators associate to the left. The parser
//! owns language-shape checks that depend on token context: names must be
//! exactly one emoji, and `🛑` / `⏭️` may only appear inside loop bodies.
//!
//! Blocks are delimited with `🔓` and `🔒`. Statement separators may be explicit
//! `🔚` tokens or newlines that the lexer has already turned into
//! [`TokenKind::StatementEnd`].

use vstd::prelude::*;

use crate::common::diagnostic::Diagnostic;
use crate::common::graphemes::{extended_graphemes, grapheme_count};
use crate::common::source::Span;
use crate::common::text::chars_of;
use crate::frontend::ast::{
    expr_view, for_source_view, stmt_view, stmts_view, BinaryOp, ConversionKind, Expr, ExprView, ForSource,
    ForSourceView, InputKind, Program, Stmt, StmtView, UnaryOp,
};
use crate::frontend::grammar;
use crate::frontend::grammar::{Parsed, SyntaxError};
use crate::frontend::lexer::is_ascii_char;
use crate::frontend::token::{Token, TokenKind};

verus! {

// ---------------------------------------------------------------------------
// Shape of accepted programs
// ---------------------------------------------------------------------------

/// A name that is exactly one emoji: no ASCII character and one grapheme cluster.
pub open spec fn single_emoji(name: Seq<char>) -> bool {
    &&& forall|k: int| 0 <= k < name.len() ==> !is_ascii_char(#[trigger] name[k])
    &&& extended_graphemes(name).len() == 1
}

/// Every name inside an expression is exactly one emoji.
pub open spec fn expr_ok(e: Expr) -> bool
    decreases e,
{
    match e {
        Expr::Variable { name, .. } => single_emoji(name@),
        Expr::List { elements, .. } => forall|k: int| 0 <= k < elements@.len() ==> expr_ok(#[trigger] elements@[k]),
        Expr::MapLiteral { entries, .. } => forall|k: int|
            0 <= k < entries@.len() ==> expr_ok(#[trigger] entries@[k].0) && expr_ok(entries@[k].1),
        Expr::Unary { expr, .. } => expr_ok(*expr),
        Expr::Binary { left, right, .. } => expr_ok(*left) && expr_ok(*right),
        Expr::Call { name, arguments, .. } => single_emoji(name@) && forall|k: int|
            0 <= k < arguments@.len() ==> expr_ok(#[trigger] arguments@[k]),
        Expr::Convert { expr, .. } => expr_ok(*expr),
        _ => true,
    }
}

/// The source of a `for` loop has well-formed names.
pub open spec fn for_source_ok(s: ForSource) -> bool {
    match s {
        ForSource::List { expr, .. } => expr_ok(expr),
        ForSource::Range { start, end, .. } => expr_ok(start) && expr_ok(end),
    }
}

/// A statement's names are single emoji, and `🛑` / `⏭️` occur only where a
/// loop encloses them (`in_loop`) within the same function.
pub open spec fn stmt_ok(s: Stmt, in_loop: bool) -> bool
    decreases s,
{
    match s {
        Stmt::Assign { name, expr, .. } => single_emoji(name@) && expr_ok(expr),
        Stmt::Const { name, expr, .. } => single_emoji(name@) && expr_ok(expr),
        Stmt::Append { name, expr, .. } => single_emoji(name@) && expr_ok(expr),
        Stmt::Print { expr, .. } => expr_ok(expr),
        Stmt::Return { expr, .. } => expr_ok(expr),
        Stmt::Call { expr, .. } => expr_ok(expr),
        Stmt::Break { .. } => in_loop,
        Stmt::Continue { .. } => in_loop,
        Stmt::If { condition, then_branch, else_branch, .. } => {
            &&& expr_ok(condition)
            &&& forall|k: int| 0 <= k < then_branch@.len() ==> stmt_ok(#[trigger] then_branch@[k], in_loop)
            &&& match else_branch {
                Some(b) => forall|k: int| 0 <= k < b@.len() ==> stmt_ok(#[trigger] b@[k], in_loop),
                None => true,
            }
        },
        Stmt::While { condition, body, .. } => {
            &&& expr_ok(condition)
            &&& forall|k: int| 0 <= k < body@.len() ==> stmt_ok(#[trigger] body@[k], true)
        },
        Stmt::For { variable, source, body, .. } => {
            &&& single_emoji(variable@)
            &&& for_source_ok(source)
            &&& forall|k: int| 0 <= k < body@.len() ==> stmt_ok(#[trigger] body@[k], true)
        },
        Stmt::Function { name, parameters, body, .. } => {
            &&& single_emoji(name@)
            &&& forall|k: int| 0 <= k < parameters@.len() ==> single_emoji(#[trigger] parameters@[k]@)
            &&& forall|k: int| 0 <= k < body@.len() ==> stmt_ok(#[trigger] body@[k], false)
        },
    }
}

/// Every statement of a block is well-formed.
pub open spec fn stmts_ok(stmts: Seq<Stmt>, in_loop: bool) -> bool {
    forall|k: int| 0 <= k < stmts.len() ==> stmt_ok(#[trigger] stmts[k], in_loop)
}

// ---------------------------------------------------------------------------
// Parse results against the grammar
// ---------------------------------------------------------------------------

/// A diagnostic reports the syntax error `e`: its message at its span.
pub open spec fn reports(d: Diagnostic, e: SyntaxError) -> bool {
    d.message@ == e.0 && d.span == Some(e.1)
}

/// A sequence of expressions by value.
pub open spec fn exprs_view(v: Seq<Expr>) -> Seq<ExprView> {
    Seq::new(v.len(), |k: int| expr_view(v[k]))
}

/// A sequence of map entries by value.
pub open spec fn pairs_view(v: Seq<(Expr, Expr)>) -> Seq<(ExprView, ExprView)> {
    Seq::new(v.len(), |k: int| (expr_view(v[k].0), expr_view(v[k].1)))
}

/// A sequence of names by value.
pub open spec fn names_view(v: Seq<String>) -> Seq<Seq<char>> {
    Seq::new(v.len(), |k: int| v[k]@)
}

/// The parse of an expression agrees with the grammar's result `expected`,
/// ending at position `after` on success.
pub open spec fn parsed_expr(r: Result<Expr, Diagnostic>, after: int, expected: Parsed<ExprView>) -> bool {
    match r {
        Ok(e) => expected matches Ok((v, a)) && v == expr_view(e) && a == after,
        Err(d) => expected matches Err(err) && reports(d, err),
    }
}

/// The parse of a statement agrees with the grammar's result.
pub open spec fn parsed_stmt(r: Result<Stmt, Diagnostic>, after: int, expected: Parsed<StmtView>) -> bool {
    match r {
        Ok(s) => expected matches Ok((v, a)) && v == stmt_view(s) && a == after,
        Err(d) => expected matches Err(err) && reports(d, err),
    }
}

/// The parse of a block's statements agrees with the grammar's result.
pub open spec fn parsed_stmts(r: Result<Vec<Stmt>, Diagnostic>, after: int, expected: Parsed<Seq<StmtView>>) -> bool {
    match r {
        Ok(b) => expected matches Ok((v, a)) && v == stmts_view(b@) && a == after,
        Err(d) => expected matches Err(err) && reports(d, err),
    }
}

/// The parse of a `for` source agrees with the grammar's result.
pub open spec fn parsed_source(r: Result<ForSource, Diagnostic>, after: int, expected: Parsed<ForSourceView>) -> bool {
    match r {
        Ok(s) => expected matches Ok((v, a)) && v == for_source_view(s) && a == after,
        Err(d) => expected matches Err(err) && reports(d, err),
    }
}

/// A consumed token or statement end agrees with the grammar's result.
pub open spec fn parsed_span(r: Result<Span, Diagnostic>, after: int, expected: Parsed<Span>) -> bool {
    match r {
        Ok(s) => expected matches Ok((v, a)) && v == s && a == after,
        Err(d) => expected matches Err(err) && reports(d, err),
    }
}

proof fn lemma_exprs_push(v: Seq<Expr>, e: Expr)
    ensures
        exprs_view(v.push(e)) == exprs_view(v).push(expr_view(e)),
{
    assert(exprs_view(v.push(e)) =~= exprs_view(v).push(expr_view(e)));
}

proof fn lemma_pairs_push(v: Seq<(Expr, Expr)>, e: (Expr, Expr))
    ensures
        pairs_view(v.push(e)) == pairs_view(v).push((expr_view(e.0), expr_view(e.1))),
{
    assert(pairs_view(v.push(e)) =~= pairs_view(v).push((expr_view(e.0), expr_view(e.1))));
}

proof fn lemma_stmts_push(v: Seq<Stmt>, s: Stmt)
    ensures
        stmts_view(v.push(s)) == stmts_view(v).push(stmt_view(s)),
{
    assert(stmts_view(v.push(s)) =~= stmts_view(v).push(stmt_view(s)));
}

proof fn lemma_names_push(v: Seq<String>, s: String)
    ensures
        names_view(v.push(s)) == names_view(v).push(s@),
{
    assert(names_view(v.push(s)) =~= names_view(v).push(s@));
}

/// The view of a list literal is made of the views of its elements.
proof fn lemma_list_view(elements: Vec<Expr>, span: Span)
    ensures
        expr_view(Expr::List { elements, span }) == (ExprView::List { elements: exprs_view(elements@), span }),
{
    if let ExprView::List { elements: es, .. } = expr_view(Expr::List { elements, span }) {
        assert(es =~= exprs_view(elements@));
    }
}

/// The view of a map literal is made of the views of its entries.
proof fn lemma_map_view(entries: Vec<(Expr, Expr)>, span: Span)
    ensures
        expr_view(Expr::MapLiteral { entries, span }) == (ExprView::MapLiteral { entries: pairs_view(entries@), span }),
{
    if let ExprView::MapLiteral { entries: es, .. } = expr_view(Expr::MapLiteral { entries, span }) {
        assert(es =~= pairs_view(entries@));
    }
}

/// The view of a call is made of the views of its arguments.
proof fn lemma_call_view(name: String, arguments: Vec<Expr>, span: Span)
    ensures
        expr_view(Expr::Call { name, arguments, span })
            == (ExprView::Call { name: name@, arguments: exprs_view(arguments@), span }),
{
    if let ExprView::Call { arguments: es, .. } = expr_view(Expr::Call { name, arguments, span }) {
        assert(es =~= exprs_view(arguments@));
    }
}

/// The view of an `if` is made of the views of its parts.
proof fn lemma_if_view(condition: Expr, then_branch: Vec<Stmt>, else_branch: Option<Vec<Stmt>>, span: Span)
    ensures
        stmt_view(Stmt::If { condition, then_branch, else_branch, span }) == (StmtView::If {
            condition: expr_view(condition),
            then_branch: stmts_view(then_branch@),
            else_branch: match else_branch {
                Some(b) => Some(stmts_view(b@)),
                None => None,
            },
            span,
        }),
{
    if let StmtView::If { then_branch: t, else_branch: e, .. } = stmt_view(Stmt::If { condition, then_branch, else_branch, span }) {
        assert(t =~= stmts_view(then_branch@));
        if let Some(b) = else_branch {
            assert(e->0 =~= stmts_view(b@));
        }
    }
}

/// The view of a `while` loop is made of the views of its parts.
proof fn lemma_while_view(condition: Expr, body: Vec<Stmt>, span: Span)
    ensures
        stmt_view(Stmt::While { condition, body, span })
            == (StmtView::While { condition: expr_view(condition), body: stmts_view(body@), span }),
{
    if let StmtView::While { body: b, .. } = stmt_view(Stmt::While { condition, body, span }) {
        assert(b =~= stmts_view(body@));
    }
}

/// The view of a `for` loop is made of the views of its parts.
proof fn lemma_for_view(variable: String, source: ForSource, body: Vec<Stmt>, span: Span)
    ensures
        stmt_view(Stmt::For { variable, source, body, span }) == (StmtView::For {
            variable: variable@,
            source: for_source_view(source),
            body: stmts_view(body@),
            span,
        }),
{
    if let StmtView::For { body: b, .. } = stmt_view(Stmt::For { variable, source, body, span }) {
        assert(b =~= stmts_view(body@));
    }
}

/// The view of a function definition is made of the views of its parts.
proof fn lemma_function_view(name: String, parameters: Vec<String>, body: Vec<Stmt>, span: Span)
    ensures
        stmt_view(Stmt::Function { name, parameters, body, span }) == (StmtView::Function {
            name: name@,
            parameters: names_view(parameters@),
            body: stmts_view(body@),
            span,
        }),
{
    if let StmtView::Function { parameters: p, body: b, .. } = stmt_view(Stmt::Function { name, parameters, body, span }) {
        assert(b =~= stmts_view(body@));
        assert(p =~= names_view(parameters@));
    }
}

/// The span of an expression's view is the expression's span.
proof fn lemma_view_span(e: Expr)
    ensures
        crate::frontend::ast::view_span(expr_view(e)) == crate::frontend::ast::expr_span(e),
{
}

/// Whether a name is exactly one emoji.
pub fn is_single_emoji_identifier(name: &str) -> (r: bool)
    ensures
        r == single_emoji(name@),
{
    let chars = chars_of(name);
    let mut k: usize = 0;
    while k < chars.len()
        invariant
            chars@ == name@,
            0 <= k <= chars@.len(),
            forall|m: int| 0 <= m < k ==> !is_ascii_char(#[trigger] name@[m]),
        decreases chars@.len() - k,
    {
        if (chars[k] as u32) < 128 {
            return false;
        }
        k = k + 1;
    }
    grapheme_count(name) == 1
}

// ---------------------------------------------------------------------------
// Parser state
// ---------------------------------------------------------------------------

struct Parser<'a> {
    tokens: &'a Vec<Token>,
    current: usize,
    /// Nesting count used to validate `break` and `continue` placement.
    loop_depth: usize,
}

impl<'a> Parser<'a> {
    spec fn wf(&self) -> bool {
        &&& self.tokens@.len() > 0
        &&& self.tokens@.last().kind is Eof
        &&& self.current < self.tokens@.len()
        &&& self.loop_depth <= self.current
    }

    spec fn rem(&self) -> int {
        self.tokens@.len() - self.current
    }

    spec fn in_loop(&self) -> bool {
        self.loop_depth > 0
    }

    spec fn kept(&self, old: Parser<'a>) -> bool {
        &&& self.wf()
        &&& self.tokens == old.tokens
        &&& self.loop_depth == old.loop_depth
        &&& self.current >= old.current
    }

    fn peek(&self) -> (t: &Token)
        requires
            self.wf(),
        ensures
            *t == self.tokens@[self.current as int],
    {
        &self.tokens[self.current]
    }

    fn peek_span(&self) -> (s: Span)
        requires
            self.wf(),
        ensures
            s == self.tokens@[self.current as int].span,
    {
        self.tokens[self.current].span
    }

    fn is_at_end(&self) -> (r: bool)
        requires
            self.wf(),
        ensures
            r == (self.tokens@[self.current as int].kind is Eof),
    {
        matches!(self.peek().kind, TokenKind::Eof)
    }

    fn previous_span(&self) -> (s: Span)
        requires
            self.wf(),
        ensures
            s == grammar::previous_span(self.tokens@, self.current as int),
    {
        if self.current > 0 { self.tokens[self.current - 1].span } else { self.tokens[0].span }
    }

    /// Consumes the current token (the end-of-file token is never consumed).
    fn advance(&mut self) -> (s: Span)
        requires
            old(self).wf(),
        ensures
            final(self).kept(*old(self)),
            old(self).tokens@[old(self).current as int].kind is Eof ==> final(self).current == old(self).current,
            !(old(self).tokens@[old(self).current as int].kind is Eof) ==> final(self).current == old(self).current + 1,
            final(self).current == grammar::next(old(self).tokens@, old(self).current as int),
            s == old(self).tokens@[old(self).current as int].span,
    {
        let s = self.tokens[self.current].span;
        let _n = self.tokens.len();
        if !self.is_at_end() {
            proof {
                if self.current + 1 == self.tokens@.len() {
                    assert(self.tokens@[self.current as int] == self.tokens@.last());
                }
            }
            self.current = self.current + 1;
        }
        s
    }

    fn next_kind_is_in(&self) -> (r: bool)
        requires
            self.wf(),
        ensures
            r == (self.tokens@.len() - self.current > 1 && self.tokens@[self.current + 1].kind is In),
    {
        self.tokens.len() - self.current > 1 && matches!(self.tokens[self.current + 1].kind, TokenKind::In)
    }

    /// Whether the token after the current one can start an expression.
    fn next_token_starts_expression(&self) -> (r: bool)
        requires
            self.wf(),
        ensures
            r == grammar::next_starts_expression(self.tokens@, self.current as int),
    {
        self.tokens.len() - self.current > 1 && starts_expression(&self.tokens[self.current + 1].kind)
    }

    fn skip_statement_separators(&mut self)
        requires
            old(self).wf(),
        ensures
            final(self).kept(*old(self)),
            !(final(self).tokens@[final(self).current as int].kind is StatementEnd),
            final(self).current == grammar::skip_separators(old(self).tokens@, old(self).current as int),
    {
        while matches!(self.peek().kind, TokenKind::StatementEnd)
            invariant
                self.wf(),
                self.tokens == old(self).tokens,
                self.loop_depth == old(self).loop_depth,
                self.current >= old(self).current,
                grammar::skip_separators(self.tokens@, old(self).current as int)
                    == grammar::skip_separators(self.tokens@, self.current as int),
            decreases self.rem(),
        {
            self.advance();
        }
    }

    fn expect_block_start(&mut self) -> (r: Result<Span, Diagnostic>)
        requires
            old(self).wf(),
        ensures
            r matches Ok(s) ==> old(self).tokens@[old(self).current as int].kind is BlockStart && final(self).current == old(self).current + 1
                && s == old(self).tokens@[old(self).current as int].span,
            r matches Err(d) ==> !(old(self).tokens@[old(self).current as int].kind is BlockStart)
                && reports(d, ("expected block start 🔓"@, old(self).tokens@[old(self).current as int].span)),
            final(self).kept(*old(self)),
            r is Ok ==> final(self).current == old(self).current + 1,
    {
        if matches!(self.peek().kind, TokenKind::BlockStart) {
            Ok(self.advance())
        } else {
            Err(Diagnostic::at("expected block start 🔓", self.peek_span()))
        }
    }

    fn expect_assign(&mut self) -> (r: Result<Span, Diagnostic>)
        requires
            old(self).wf(),
        ensures
            r matches Ok(s) ==> old(self).tokens@[old(self).current as int].kind is Assign && final(self).current == old(self).current + 1
                && s == old(self).tokens@[old(self).current as int].span,
            r matches Err(d) ==> !(old(self).tokens@[old(self).current as int].kind is Assign)
                && reports(d, ("expected assignment operator 🟰"@, old(self).tokens@[old(self).current as int].span)),
            final(self).kept(*old(self)),
            r is Ok ==> final(self).current == old(self).current + 1,
    {
        if matches!(self.peek().kind, TokenKind::Assign) {
            Ok(self.advance())
        } else {
            Err(Diagnostic::at("expected assignment operator 🟰", self.peek_span()))
        }
    }

    fn expect_in(&mut self) -> (r: Result<Span, Diagnostic>)
        requires
            old(self).wf(),
        ensures
            r matches Ok(s) ==> old(self).tokens@[old(self).current as int].kind is In && final(self).current == old(self).current + 1
                && s == old(self).tokens@[old(self).current as int].span,
            r matches Err(d) ==> !(old(self).tokens@[old(self).current as int].kind is In)
                && reports(d, ("expected loop in marker 🧭"@, old(self).tokens@[old(self).current as int].span)),
            final(self).kept(*old(self)),
    {
        if matches!(self.peek().kind, TokenKind::In) {
            Ok(self.advance())
        } else {
            Err(Diagnostic::at("expected loop in marker 🧭", self.peek_span()))
        }
    }

    fn expect_arrow(&mut self, message: &str) -> (r: Result<Span, Diagnostic>)
        requires
            old(self).wf(),
        ensures
            r matches Ok(s) ==> old(self).tokens@[old(self).current as int].kind is Arrow && final(self).current == old(self).current + 1
                && s == old(self).tokens@[old(self).current as int].span,
            r matches Err(d) ==> !(old(self).tokens@[old(self).current as int].kind is Arrow)
                && d.span == Some(old(self).tokens@[old(self).current as int].span) && d.message@ == message@,
            final(self).kept(*old(self)),
    {
        if matches!(self.peek().kind, TokenKind::Arrow) {
            Ok(self.advance())
        } else {
            Err(Diagnostic::at(message, self.peek_span()))
        }
    }

    fn expect_list_delimiter(&mut self, message: &str) -> (r: Result<Span, Diagnostic>)
        requires
            old(self).wf(),
        ensures
            r matches Ok(s) ==> old(self).tokens@[old(self).current as int].kind is ListDelimiter && final(self).current == old(self).current + 1
                && s == old(self).tokens@[old(self).current as int].span,
            r matches Err(d) ==> !(old(self).tokens@[old(self).current as int].kind is ListDelimiter)
                && d.span == Some(old(self).tokens@[old(self).current as int].span) && d.message@ == message@,
            final(self).kept(*old(self)),
            r is Ok ==> final(self).current == old(self).current + 1,
    {
        if matches!(self.peek().kind, TokenKind::ListDelimiter) {
            Ok(self.advance())
        } else {
            Err(Diagnostic::at(message, self.peek_span()))
        }
    }

    fn expect_statement_end(&mut self) -> (r: Result<Span, Diagnostic>)
        requires
            old(self).wf(),
        ensures
            parsed_span(r, final(self).current as int, grammar::statement_end(old(self).tokens@, old(self).current as int)),
            final(self).kept(*old(self)),
    {
        if matches!(self.peek().kind, TokenKind::Identifier(_)) {
            return Err(Diagnostic::at(
                "variable identifiers must be exactly one emoji long",
                self.peek_span(),
            ));
        }
        if matches!(self.peek().kind, TokenKind::StatementEnd) {
            let end = self.advance();
            self.skip_statement_separators();
            Ok(end)
        } else if matches!(self.peek().kind, TokenKind::BlockEnd | TokenKind::Eof | TokenKind::Else) {
            Ok(self.previous_span())
        } else {
            Err(Diagnostic::at("missing statement separator (newline or 🔚)", self.peek_span()))
        }
    }
}

/// Token kinds that can begin an expression.
fn starts_expression(kind: &TokenKind) -> (r: bool)
    ensures
        r ==> !(*kind is Eof),
        r == grammar::starts_expression(*kind),
{
    matches!(
        kind,
        TokenKind::Identifier(_) | TokenKind::Number(_) | TokenKind::Float(_) | TokenKind::StringLiteral(_)
            | TokenKind::Bool(_) | TokenKind::Minus | TokenKind::ListDelimiter | TokenKind::MapDelimiter
            | TokenKind::Call | TokenKind::Input | TokenKind::Convert | TokenKind::Not | TokenKind::ListLen
            | TokenKind::MapHas
    )
}

/// The binary operator of a token and its precedence; higher binds tighter.
fn binary_op(kind: &TokenKind) -> (r: Option<(BinaryOp, usize)>)
    ensures
        r matches Some((_, p)) ==> 1 <= p <= 6,
        r is Some ==> !(*kind is Eof),
        match r {
            Some((op, p)) => grammar::binary_operator(*kind) == Some((op, p as nat)),
            None => grammar::binary_operator(*kind) is None,
        },
{
    match kind {
        TokenKind::Or => Some((BinaryOp::Or, 1)),
        TokenKind::And => Some((BinaryOp::And, 2)),
        TokenKind::Eq => Some((BinaryOp::Eq, 3)),
        TokenKind::NotEq => Some((BinaryOp::NotEq, 3)),
        TokenKind::Lt => Some((BinaryOp::Lt, 3)),
        TokenKind::Gt => Some((BinaryOp::Gt, 3)),
        TokenKind::LtEq => Some((BinaryOp::LtEq, 3)),
        TokenKind::GtEq => Some((BinaryOp::GtEq, 3)),
        TokenKind::ListIndex => Some((BinaryOp::Index, 4)),
        TokenKind::ListAppend => Some((BinaryOp::Append, 4)),
        TokenKind::Plus => Some((BinaryOp::Add, 5)),
        TokenKind::Minus => Some((BinaryOp::Sub, 5)),
        TokenKind::Star => Some((BinaryOp::Mul, 6)),
        TokenKind::Slash => Some((BinaryOp::Div, 6)),
        _ => None,
    }
}

impl<'a> Parser<'a> {
    /// The text of the current token when it is an identifier.
    fn current_identifier(&self) -> (r: Option<String>)
        requires
            self.wf(),
        ensures
            r is Some ==> self.tokens@[self.current as int].kind is Identifier,
            match r {
                Some(name) => grammar::identifier(self.tokens@[self.current as int].kind) == Some(name@),
                None => grammar::identifier(self.tokens@[self.current as int].kind) is None,
            },
    {
        match &self.peek().kind {
            TokenKind::Identifier(name) => Some(name.clone()),
            _ => None,
        }
    }

    // -----------------------------------------------------------------------
    // Expressions
    // -----------------------------------------------------------------------

    /// Parses an expression whose binary operators bind at least as tightly as `min_precedence`.
    fn parse_expression(&mut self, min_precedence: usize) -> (r: Result<Expr, Diagnostic>)
        requires
            old(self).wf(),
        ensures
            final(self).kept(*old(self)),
            r matches Ok(e) ==> expr_ok(e) && final(self).current > old(self).current,
            parsed_expr(r, final(self).current as int, grammar::expression(old(self).tokens@, old(self).current as int, min_precedence as nat)),
        decreases old(self).rem(), 6int,
    {
        let ghost toks = self.tokens@;
        let mut left = self.parse_unary()?;
        loop
            invariant
                self.kept(*old(self)),
                self.current > old(self).current,
                expr_ok(left),
                toks == self.tokens@,
                grammar::expression(toks, old(self).current as int, min_precedence as nat)
                    == grammar::operators(toks, self.current as int, expr_view(left), min_precedence as nat),
            ensures
                self.kept(*old(self)),
                self.current > old(self).current,
                expr_ok(left),
                grammar::expression(toks, old(self).current as int, min_precedence as nat)
                    matches Ok((v, a)) && v == expr_view(left) && a == self.current,
            decreases self.rem(),
        {
            let op = binary_op(&self.peek().kind);
            match op {
                None => break,
                Some((op, precedence)) => {
                    if precedence < min_precedence {
                        break;
                    }
                    let ghost at = self.current as int;
                    self.advance();
                    let right = self.parse_expression(precedence + 1)?;
                    let ghost after_right = self.current as int;
                    let right = if matches!(op, BinaryOp::Append) {
                        self.collect_payload(right)?
                    } else {
                        right
                    };
                    proof {
                        lemma_view_span(left);
                        lemma_view_span(right);
                    }
                    let span = left.span().merge(right.span());
                    left = Expr::Binary { left: Box::new(left), op, right: Box::new(right), span };
                },
            }
        }
        Ok(left)
    }

    /// After the first operand of `📥`, gathers any further expressions into a list payload.
    fn collect_payload(&mut self, first: Expr) -> (r: Result<Expr, Diagnostic>)
        requires
            old(self).wf(),
            expr_ok(first),
        ensures
            final(self).kept(*old(self)),
            r matches Ok(e) ==> expr_ok(e),
            parsed_expr(r, final(self).current as int, grammar::payload(old(self).tokens@, old(self).current as int, expr_view(first))),
        decreases old(self).rem() + 1, 0int,
    {
        let ghost toks = self.tokens@;
        if !starts_expression(&self.peek().kind) {
            return Ok(first);
        }
        proof {
            lemma_view_span(first);
        }
        let start = first.span();
        let mut elements: Vec<Expr> = Vec::new();
        let ghost first_view = expr_view(first);
        elements.push(first);
        proof {
            assert(exprs_view(elements@) =~= seq![first_view]);
        }
        let mut end = start;
        while starts_expression(&self.peek().kind)
            invariant
                self.kept(*old(self)),
                forall|k: int| 0 <= k < elements@.len() ==> expr_ok(#[trigger] elements@[k]),
                toks == self.tokens@,
                elements@.len() > 0,
                grammar::starts_expression(toks[old(self).current as int].kind),
                first_view == expr_view(first),
                start == crate::frontend::ast::view_span(first_view),
                end == crate::frontend::ast::view_span(exprs_view(elements@).last()),
                grammar::payload_items(toks, old(self).current as int, seq![first_view])
                    == grammar::payload_items(toks, self.current as int, exprs_view(elements@)),
            decreases self.rem(),
        {
            let element = self.parse_expression(0)?;
            proof {
                lemma_view_span(element);
                lemma_exprs_push(elements@, element);
            }
            end = element.span();
            elements.push(element);
        }
        let span = start.merge(end);
        proof {
            lemma_list_view(elements, span);
        }
        Ok(Expr::List { elements, span })
    }

    fn parse_unary(&mut self) -> (r: Result<Expr, Diagnostic>)
        requires
            old(self).wf(),
        ensures
            final(self).kept(*old(self)),
            r matches Ok(e) ==> expr_ok(e) && final(self).current > old(self).current,
            parsed_expr(r, final(self).current as int, grammar::unary(old(self).tokens@, old(self).current as int)),
        decreases old(self).rem(), 5int,
    {
        if matches!(self.peek().kind, TokenKind::Minus | TokenKind::Not | TokenKind::ListLen) {
            let op = if matches!(self.peek().kind, TokenKind::Minus) {
                UnaryOp::Negate
            } else if matches!(self.peek().kind, TokenKind::Not) {
                UnaryOp::Not
            } else {
                UnaryOp::Len
            };
            let op_span = self.advance();
            let expr = self.parse_unary()?;
            proof {
                lemma_view_span(expr);
            }
            let span = op_span.merge(expr.span());
            return Ok(Expr::Unary { op, expr: Box::new(expr), span });
        }
        if matches!(self.peek().kind, TokenKind::Convert) {
            let op_span = self.advance();
            let kind = if matches!(self.peek().kind, TokenKind::Range) {
                ConversionKind::Integer
            } else if matches!(self.peek().kind, TokenKind::FloatType) {
                ConversionKind::Float
            } else {
                return Err(Diagnostic::at("expected conversion type 🔢 or 🔣", self.peek_span()));
            };
            self.advance();
            let expr = self.parse_unary()?;
            proof {
                lemma_view_span(expr);
            }
            let span = op_span.merge(expr.span());
            return Ok(Expr::Convert { kind, expr: Box::new(expr), span });
        }
        if matches!(self.peek().kind, TokenKind::MapHas) {
            let op_span = self.advance();
            let map = self.parse_unary()?;
            let key = self.parse_unary()?;
            proof {
                lemma_view_span(key);
            }
            let span = op_span.merge(key.span());
            return Ok(Expr::Binary { left: Box::new(map), op: BinaryOp::Has, right: Box::new(key), span });
        }
        self.parse_primary()
    }

    fn parse_primary(&mut self) -> (r: Result<Expr, Diagnostic>)
        requires
            old(self).wf(),
        ensures
            final(self).kept(*old(self)),
            r matches Ok(e) ==> expr_ok(e) && final(self).current > old(self).current,
            parsed_expr(r, final(self).current as int, grammar::primary(old(self).tokens@, old(self).current as int)),
        decreases old(self).rem(), 4int,
    {
        let kind = self.peek().kind.duplicate();
        let span = self.advance();
        match kind {
            TokenKind::Number(value) => Ok(Expr::Number { value, span }),
            TokenKind::Float(text) => Ok(Expr::Float { text, span }),
            TokenKind::StringLiteral(value) => Ok(Expr::String { value, span }),
            TokenKind::Bool(value) => Ok(Expr::Bool { value, span }),
            TokenKind::Identifier(name) => {
                if !is_single_emoji_identifier(name.as_str()) {
                    Err(Diagnostic::at("variable identifiers must be exactly one emoji long", span))
                } else {
                    Ok(Expr::Variable { name, span })
                }
            },
            TokenKind::ListDelimiter => self.parse_list(span),
            TokenKind::MapDelimiter => self.parse_map(span),
            TokenKind::Call => self.parse_call(span),
            TokenKind::Input => {
                let input = if matches!(self.peek().kind, TokenKind::TextType) {
                    InputKind::Text
                } else if matches!(self.peek().kind, TokenKind::Range) {
                    InputKind::Integer
                } else if matches!(self.peek().kind, TokenKind::FloatType) {
                    InputKind::Float
                } else if matches!(self.peek().kind, TokenKind::BoolType) {
                    InputKind::Bool
                } else {
                    return Err(Diagnostic::at("expected input type 🔤, 🔢, 🔣 or ☑️", self.peek_span()));
                };
                let end = self.advance();
                Ok(Expr::Input { kind: input, span: span.merge(end) })
            },
            _ => Err(Diagnostic::at("expected expression", span)),
        }
    }

    /// Parses list elements after the opening `📚`.
    fn parse_list(&mut self, start: Span) -> (r: Result<Expr, Diagnostic>)
        requires
            old(self).wf(),
        ensures
            final(self).kept(*old(self)),
            r matches Ok(e) ==> expr_ok(e) && final(self).current > old(self).current,
            parsed_expr(r, final(self).current as int, grammar::list_literal(old(self).tokens@, old(self).current as int, start)),
        decreases old(self).rem() + 1, 0int,
    {
        let ghost toks = self.tokens@;
        let ghost missing = "missing closing list delimiter 📚"@;
        let mut elements: Vec<Expr> = Vec::new();
        proof {
            assert(exprs_view(elements@) =~= Seq::<ExprView>::empty());
        }
        loop
            invariant
                self.kept(*old(self)),
                forall|k: int| 0 <= k < elements@.len() ==> expr_ok(#[trigger] elements@[k]),
                toks == self.tokens@,
                missing == "missing closing list delimiter 📚"@,
                grammar::items(toks, old(self).current as int, Seq::empty(), missing)
                    == grammar::items(toks, self.current as int, exprs_view(elements@), missing),
            ensures
                self.kept(*old(self)),
                forall|k: int| 0 <= k < elements@.len() ==> expr_ok(#[trigger] elements@[k]),
                toks[self.current as int].kind is Eof ==> grammar::items(toks, old(self).current as int, Seq::empty(), missing)
                    == Err::<(Seq<ExprView>, int), SyntaxError>((missing, toks[self.current as int].span)),
                !(toks[self.current as int].kind is Eof) ==> (grammar::items(toks, old(self).current as int, Seq::empty(), missing)
                    matches Ok((v, a)) && v == exprs_view(elements@) && a == self.current),
            decreases self.rem(),
        {
            if self.is_at_end() {
                break;
            }
            self.skip_statement_separators();
            // `📚` closes the list unless it is the first delimiter in a nested
            // list expression like `📚 📚 1️⃣ 📚 📚`.
            if matches!(self.peek().kind, TokenKind::ListDelimiter)
                && !(elements.len() == 0 && self.next_token_starts_expression())
            {
                break;
            }
            let element = self.parse_expression(0)?;
            proof {
                lemma_exprs_push(elements@, element);
            }
            elements.push(element);
        }
        if self.is_at_end() {
            return Err(Diagnostic::at("missing closing list delimiter 📚", self.peek_span()));
        }
        let end = self.advance();
        let span = start.merge(end);
        proof {
            lemma_list_view(elements, span);
        }
        Ok(Expr::List { elements, span })
    }

    /// Parses map entries after the opening `🗺️`.
    fn parse_map(&mut self, start: Span) -> (r: Result<Expr, Diagnostic>)
        requires
            old(self).wf(),
        ensures
            final(self).kept(*old(self)),
            r matches Ok(e) ==> expr_ok(e) && final(self).current > old(self).current,
            parsed_expr(r, final(self).current as int, grammar::map_literal(old(self).tokens@, old(self).current as int, start)),
        decreases old(self).rem() + 1, 0int,
    {
        let ghost toks = self.tokens@;
        let mut entries: Vec<(Expr, Expr)> = Vec::new();
        proof {
            assert(pairs_view(entries@) =~= Seq::<(ExprView, ExprView)>::empty());
        }
        loop
            invariant
                self.kept(*old(self)),
                forall|k: int| 0 <= k < entries@.len() ==> expr_ok(#[trigger] entries@[k].0) && expr_ok(entries@[k].1),
                toks == self.tokens@,
                grammar::entries(toks, old(self).current as int, Seq::empty())
                    == grammar::entries(toks, self.current as int, pairs_view(entries@)),
            ensures
                self.kept(*old(self)),
                forall|k: int| 0 <= k < entries@.len() ==> expr_ok(#[trigger] entries@[k].0) && expr_ok(entries@[k].1),
                self.tokens@[self.current as int].kind is MapDelimiter,
                grammar::entries(toks, old(self).current as int, Seq::empty())
                    matches Ok((v, a)) && v == pairs_view(entries@) && a == self.current,
            decreases self.rem(),
        {
            let ghost head = self.current as int;
            self.skip_statement_separators();
            if self.is_at_end() {
                return Err(Diagnostic::at("missing closing map delimiter 🗺️", self.peek_span()));
            }
            if matches!(self.peek().kind, TokenKind::MapDelimiter) {
                break;
            }
            let key = self.parse_expression(0)?;
            self.expect_arrow("expected map entry arrow ➡️")?;
            self.skip_statement_separators();
            let value = self.parse_expression(0)?;
            proof {
                lemma_pairs_push(entries@, (key, value));
            }
            entries.push((key, value));
        }
        let end = self.advance();
        let span = start.merge(end);
        proof {
            lemma_map_view(entries, span);
        }
        Ok(Expr::MapLiteral { entries, span })
    }

    /// Parses `name 📚 arguments 📚` after `📞`.
    fn parse_call(&mut self, start: Span) -> (r: Result<Expr, Diagnostic>)
        requires
            old(self).wf(),
        ensures
            final(self).kept(*old(self)),
            r matches Ok(e) ==> expr_ok(e) && final(self).current > old(self).current,
            parsed_expr(r, final(self).current as int, grammar::call(old(self).tokens@, old(self).current as int, start)),
        decreases old(self).rem(), 3int,
    {
        let ghost toks = self.tokens@;
        let ghost missing = "missing closing argument delimiter 📚"@;
        let name_span = self.peek_span();
        let name = match self.current_identifier() {
            Some(name) => name,
            None => {
                return Err(Diagnostic::at("expected function name after 📞", name_span));
            },
        };
        if !is_single_emoji_identifier(name.as_str()) {
            return Err(Diagnostic::at("function names must be exactly one emoji long", name_span));
        }
        self.advance();
        self.expect_list_delimiter("expected argument list 📚")?;
        let ghost opened = self.current as int;
        let mut arguments: Vec<Expr> = Vec::new();
        proof {
            assert(exprs_view(arguments@) =~= Seq::<ExprView>::empty());
        }
        loop
            invariant
                self.kept(*old(self)),
                self.current > old(self).current,
                forall|k: int| 0 <= k < arguments@.len() ==> expr_ok(#[trigger] arguments@[k]),
                toks == self.tokens@,
                missing == "missing closing argument delimiter 📚"@,
                opened == old(self).current + 2,
                opened < toks.len(),
                grammar::identifier(toks[old(self).current as int].kind) == Some(name@),
                single_emoji(name@),
                toks[old(self).current + 1].kind is ListDelimiter,
                grammar::items(toks, opened, Seq::empty(), missing)
                    == grammar::items(toks, self.current as int, exprs_view(arguments@), missing),
            ensures
                self.kept(*old(self)),
                self.current > old(self).current,
                forall|k: int| 0 <= k < arguments@.len() ==> expr_ok(#[trigger] arguments@[k]),
                toks[self.current as int].kind is Eof ==> grammar::items(toks, opened, Seq::empty(), missing)
                    == Err::<(Seq<ExprView>, int), SyntaxError>((missing, toks[self.current as int].span)),
                !(toks[self.current as int].kind is Eof) ==> (grammar::items(toks, opened, Seq::empty(), missing)
                    matches Ok((v, a)) && v == exprs_view(arguments@) && a == self.current),
            decreases self.rem(),
        {
            if self.is_at_end() {
                break;
            }
            self.skip_statement_separators();
            if matches!(self.peek().kind, TokenKind::ListDelimiter)
                && !(arguments.len() == 0 && self.next_token_starts_expression())
            {
                break;
            }
            let argument = self.parse_expression(0)?;
            proof {
                lemma_exprs_push(arguments@, argument);
            }
            arguments.push(argument);
        }
        if self.is_at_end() {
            return Err(Diagnostic::at("missing closing argument delimiter 📚", self.peek_span()));
        }
        let end = self.advance();
        let span = start.merge(end);
        proof {
            lemma_call_view(name, arguments, span);
        }
        Ok(Expr::Call { name, arguments, span })
    }
}

impl<'a> Parser<'a> {
    // -----------------------------------------------------------------------
    // Statements
    // -----------------------------------------------------------------------

    fn parse_statement(&mut self) -> (r: Result<Stmt, Diagnostic>)
        requires
            old(self).wf(),
        ensures
            final(self).kept(*old(self)),
            r matches Ok(s) ==> stmt_ok(s, old(self).in_loop()) && final(self).current > old(self).current,
            parsed_stmt(r, final(self).current as int, grammar::statement(old(self).tokens@, old(self).current as int, old(self).in_loop())),
        decreases old(self).rem(), 10int,
    {
        match &self.peek().kind {
            TokenKind::Identifier(_) => self.parse_name_statement(),
            TokenKind::Const => self.parse_const(),
            TokenKind::Print => self.parse_print(),
            TokenKind::Break => self.parse_loop_control(true),
            TokenKind::Continue => self.parse_loop_control(false),
            TokenKind::If => self.parse_if(),
            TokenKind::While => self.parse_loop(),
            TokenKind::Function => self.parse_function(),
            TokenKind::Return => self.parse_return(),
            TokenKind::Call => self.parse_call_statement(),
            TokenKind::Else => Err(Diagnostic::at("else 😐 without matching if", self.peek_span())),
            TokenKind::Eof => Err(Diagnostic::at("unexpected end of file", self.peek_span())),
            _ => Err(Diagnostic::at("expected statement", self.peek_span())),
        }
    }

    /// `name 🟰 expr` or `name 📥 payload`.
    fn parse_name_statement(&mut self) -> (r: Result<Stmt, Diagnostic>)
        requires
            old(self).wf(),
        ensures
            final(self).kept(*old(self)),
            r matches Ok(s) ==> stmt_ok(s, old(self).in_loop()) && final(self).current > old(self).current,
            parsed_stmt(r, final(self).current as int, grammar::name_statement(old(self).tokens@, old(self).current as int)),
        decreases old(self).rem(), 9int,
    {
        let name_span = self.peek_span();
        let name = match self.current_identifier() {
            Some(name) => name,
            None => {
                return Err(Diagnostic::at("expected statement", name_span));
            },
        };
        self.advance();
        if !is_single_emoji_identifier(name.as_str()) || matches!(self.peek().kind, TokenKind::Identifier(_)) {
            return Err(Diagnostic::at(
                "variable identifiers must be exactly one emoji long",
                name_span.merge(self.peek_span()),
            ));
        }
        if matches!(self.peek().kind, TokenKind::ListAppend) {
            self.advance();
            let first = self.parse_expression(0)?;
            let expr = self.collect_payload(first)?;
            let end = self.expect_statement_end()?;
            return Ok(Stmt::Append { name, expr, span: name_span.merge(end) });
        }
        self.expect_assign()?;
        let expr = self.parse_expression(0)?;
        let end = self.expect_statement_end()?;
        Ok(Stmt::Assign { name, expr, span: name_span.merge(end) })
    }

    /// `🔐 name 🟰 expr`.
    fn parse_const(&mut self) -> (r: Result<Stmt, Diagnostic>)
        requires
            old(self).wf(),
            !(old(self).tokens@[old(self).current as int].kind is Eof),
        ensures
            final(self).kept(*old(self)),
            r matches Ok(s) ==> stmt_ok(s, old(self).in_loop()) && final(self).current > old(self).current,
            parsed_stmt(r, final(self).current as int, grammar::constant(old(self).tokens@, old(self).current as int)),
        decreases old(self).rem(), 9int,
    {
        let start = self.advance();
        let name_span = self.peek_span();
        let name = match self.current_identifier() {
            Some(name) => name,
            None => {
                return Err(Diagnostic::at("expected constant name after 🔐", name_span));
            },
        };
        self.advance();
        if !is_single_emoji_identifier(name.as_str()) || matches!(self.peek().kind, TokenKind::Identifier(_)) {
            return Err(Diagnostic::at(
                "variable identifiers must be exactly one emoji long",
                name_span.merge(self.peek_span()),
            ));
        }
        self.expect_assign()?;
        let expr = self.parse_expression(0)?;
        let end = self.expect_statement_end()?;
        Ok(Stmt::Const { name, expr, span: start.merge(end) })
    }

    fn parse_print(&mut self) -> (r: Result<Stmt, Diagnostic>)
        requires
            old(self).wf(),
            !(old(self).tokens@[old(self).current as int].kind is Eof),
        ensures
            final(self).kept(*old(self)),
            r matches Ok(s) ==> stmt_ok(s, old(self).in_loop()) && final(self).current > old(self).current,
            parsed_stmt(r, final(self).current as int, grammar::print_statement(old(self).tokens@, old(self).current as int)),
        decreases old(self).rem(), 9int,
    {
        let start = self.advance();
        let expr = self.parse_expression(0)?;
        let end = self.expect_statement_end()?;
        Ok(Stmt::Print { expr, span: start.merge(end) })
    }

    fn parse_return(&mut self) -> (r: Result<Stmt, Diagnostic>)
        requires
            old(self).wf(),
            !(old(self).tokens@[old(self).current as int].kind is Eof),
        ensures
            final(self).kept(*old(self)),
            r matches Ok(s) ==> stmt_ok(s, old(self).in_loop()) && final(self).current > old(self).current,
            parsed_stmt(r, final(self).current as int, grammar::return_statement(old(self).tokens@, old(self).current as int)),
        decreases old(self).rem(), 9int,
    {
        let start = self.advance();
        let expr = self.parse_expression(0)?;
        let end = self.expect_statement_end()?;
        Ok(Stmt::Return { expr, span: start.merge(end) })
    }

    /// A standalone `📞` call.
    fn parse_call_statement(&mut self) -> (r: Result<Stmt, Diagnostic>)
        requires
            old(self).wf(),
        ensures
            final(self).kept(*old(self)),
            r matches Ok(s) ==> stmt_ok(s, old(self).in_loop()) && final(self).current > old(self).current,
            parsed_stmt(r, final(self).current as int, grammar::call_statement(old(self).tokens@, old(self).current as int)),
        decreases old(self).rem(), 9int,
    {
        let start = self.peek_span();
        let expr = self.parse_primary()?;
        let end = self.expect_statement_end()?;
        Ok(Stmt::Call { expr, span: start.merge(end) })
    }

    /// `🛑` (when `is_break`) or `⏭️`, accepted only inside a loop body.
    fn parse_loop_control(&mut self, is_break: bool) -> (r: Result<Stmt, Diagnostic>)
        requires
            old(self).wf(),
            !(old(self).tokens@[old(self).current as int].kind is Eof),
        ensures
            final(self).kept(*old(self)),
            r matches Ok(s) ==> stmt_ok(s, old(self).in_loop()) && final(self).current > old(self).current,
            parsed_stmt(r, final(self).current as int, grammar::loop_control(old(self).tokens@, old(self).current as int, is_break, old(self).in_loop())),
    {
        let start = self.advance();
        if self.loop_depth == 0 {
            if is_break {
                return Err(Diagnostic::at("break can only be used inside loops", start));
            } else {
                return Err(Diagnostic::at("continue can only be used inside loops", start));
            }
        }
        let end = self.expect_statement_end()?;
        if is_break {
            Ok(Stmt::Break { span: start.merge(end) })
        } else {
            Ok(Stmt::Continue { span: start.merge(end) })
        }
    }

    #[verifier::rlimit(40)]
    fn parse_if(&mut self) -> (r: Result<Stmt, Diagnostic>)
        requires
            old(self).wf(),
            !(old(self).tokens@[old(self).current as int].kind is Eof),
        ensures
            final(self).kept(*old(self)),
            r matches Ok(s) ==> stmt_ok(s, old(self).in_loop()) && final(self).current > old(self).current,
            parsed_stmt(r, final(self).current as int, grammar::conditional(old(self).tokens@, old(self).current as int, old(self).in_loop())),
        decreases old(self).rem(), 9int,
    {
        let start = self.advance();
        let condition = self.parse_expression(0)?;
        let then_branch = self.parse_block()?;
        let mut span = start.merge(self.previous_span());
        self.skip_statement_separators();
        let else_branch = if matches!(self.peek().kind, TokenKind::Else) {
            self.advance();
            self.expect_block_start()?;
            let branch = self.parse_block_body()?;
            span = span.merge(self.previous_span());
            Some(branch)
        } else {
            None
        };
        proof {
            lemma_if_view(condition, then_branch, else_branch, span);
        }
        Ok(Stmt::If { condition, then_branch, else_branch, span })
    }

    #[verifier::rlimit(40)]
    fn parse_loop(&mut self) -> (r: Result<Stmt, Diagnostic>)
        requires
            old(self).wf(),
            !(old(self).tokens@[old(self).current as int].kind is Eof),
        ensures
            final(self).kept(*old(self)),
            r matches Ok(s) ==> stmt_ok(s, old(self).in_loop()) && final(self).current > old(self).current,
            parsed_stmt(r, final(self).current as int, grammar::repetition(old(self).tokens@, old(self).current as int)),
        decreases old(self).rem(), 9int,
    {
        let start = self.advance();
        // `🔁 <identifier> 🧭 ...` is a for loop; every other `🔁` starts a
        // while loop whose condition begins immediately after the loop token.
        if matches!(self.peek().kind, TokenKind::Identifier(_)) && self.next_kind_is_in() {
            return self.parse_for(start);
        }
        let condition = self.parse_expression(0)?;
        let body = self.parse_loop_block()?;
        let span = start.merge(self.previous_span());
        proof {
            lemma_while_view(condition, body, span);
        }
        Ok(Stmt::While { condition, body, span })
    }

    fn parse_for(&mut self, start: Span) -> (r: Result<Stmt, Diagnostic>)
        requires
            old(self).wf(),
            old(self).loop_depth < old(self).current,
        ensures
            final(self).kept(*old(self)),
            r matches Ok(s) ==> stmt_ok(s, old(self).in_loop()) && final(self).current > old(self).current,
            parsed_stmt(r, final(self).current as int, grammar::for_loop(old(self).tokens@, old(self).current as int, start)),
        decreases old(self).rem(), 8int,
    {
        let variable_span = self.peek_span();
        let variable = match self.current_identifier() {
            Some(name) => name,
            None => {
                return Err(Diagnostic::at("expected loop variable", variable_span));
            },
        };
        self.advance();
        if !is_single_emoji_identifier(variable.as_str()) {
            return Err(Diagnostic::at("variable identifiers must be exactly one emoji long", variable_span));
        }
        self.expect_in()?;
        let source = self.parse_for_source()?;
        let body = self.parse_loop_block()?;
        let span = start.merge(self.previous_span());
        proof {
            lemma_for_view(variable, source, body, span);
        }
        Ok(Stmt::For { variable, source, body, span })
    }

    fn parse_for_source(&mut self) -> (r: Result<ForSource, Diagnostic>)
        requires
            old(self).wf(),
        ensures
            final(self).kept(*old(self)),
            r matches Ok(s) ==> for_source_ok(s) && final(self).current > old(self).current,
            parsed_source(r, final(self).current as int, grammar::for_source(old(self).tokens@, old(self).current as int)),
        decreases old(self).rem(), 7int,
    {
        // A `🔢` marker selects range syntax. Otherwise the source is a normal
        // expression, usually a list variable or list literal.
        if matches!(self.peek().kind, TokenKind::Range) {
            let start_token = self.advance();
            let start = self.parse_expression(0)?;
            self.expect_arrow("expected range end arrow ➡️")?;
            let end = self.parse_expression(0)?;
            let span = start_token.merge(end.span());
            Ok(ForSource::Range { start, end, span })
        } else {
            let expr = self.parse_expression(0)?;
            let span = expr.span();
            Ok(ForSource::List { expr, span })
        }
    }

    fn parse_function(&mut self) -> (r: Result<Stmt, Diagnostic>)
        requires
            old(self).wf(),
            !(old(self).tokens@[old(self).current as int].kind is Eof),
        ensures
            final(self).kept(*old(self)),
            r matches Ok(s) ==> stmt_ok(s, old(self).in_loop()) && final(self).current > old(self).current,
            parsed_stmt(r, final(self).current as int, grammar::function(old(self).tokens@, old(self).current as int)),
        decreases old(self).rem(), 9int,
    {
        let start = self.advance();
        let name_span = self.peek_span();
        let name = match self.current_identifier() {
            Some(name) => name,
            None => {
                return Err(Diagnostic::at("expected function name after 🧩", name_span));
            },
        };
        if !is_single_emoji_identifier(name.as_str()) {
            return Err(Diagnostic::at("function names must be exactly one emoji long", name_span));
        }
        self.advance();
        self.expect_list_delimiter("expected parameter list 📚")?;
        self.skip_statement_separators();
        let parameters = self.parse_parameters()?;
        self.expect_list_delimiter("expected closing parameter delimiter 📚")?;
        let saved_depth = self.loop_depth;
        self.loop_depth = 0;
        let body = self.parse_block();
        self.loop_depth = saved_depth;
        let body = body?;
        let span = start.merge(self.previous_span());
        proof {
            lemma_function_view(name, parameters, body, span);
        }
        Ok(Stmt::Function { name, parameters, body, span })
    }

    /// The parameter names of a function, each followed by separators.
    fn parse_parameters(&mut self) -> (r: Result<Vec<String>, Diagnostic>)
        requires
            old(self).wf(),
        ensures
            final(self).kept(*old(self)),
            r matches Ok(ps) ==> forall|k: int| 0 <= k < ps@.len() ==> single_emoji(#[trigger] ps@[k]@),
            match r {
                Ok(ps) => grammar::parameter_names(old(self).tokens@, old(self).current as int, Seq::empty())
                    matches Ok((v, a)) && v == names_view(ps@) && a == final(self).current,
                Err(d) => grammar::parameter_names(old(self).tokens@, old(self).current as int, Seq::empty())
                    matches Err(e) && reports(d, e),
            },
    {
        let ghost toks = self.tokens@;
        let mut parameters: Vec<String> = Vec::new();
        proof {
            assert(names_view(parameters@) =~= Seq::<Seq<char>>::empty());
        }
        while matches!(self.peek().kind, TokenKind::Identifier(_))
            invariant
                self.kept(*old(self)),
                forall|k: int| 0 <= k < parameters@.len() ==> single_emoji(#[trigger] parameters@[k]@),
                toks == self.tokens@,
                grammar::parameter_names(toks, old(self).current as int, Seq::empty())
                    == grammar::parameter_names(toks, self.current as int, names_view(parameters@)),
            decreases self.rem(),
        {
            let parameter_span = self.peek_span();
            let parameter = match self.current_identifier() {
                Some(parameter) => parameter,
                None => {
                    return Err(Diagnostic::at("expected parameter name", parameter_span));
                },
            };
            if !is_single_emoji_identifier(parameter.as_str()) {
                return Err(Diagnostic::at("parameter names must be exactly one emoji long", parameter_span));
            }
            self.advance();
            proof {
                lemma_names_push(parameters@, parameter);
            }
            parameters.push(parameter);
            self.skip_statement_separators();
        }
        Ok(parameters)
    }

    // -----------------------------------------------------------------------
    // Blocks
    // -----------------------------------------------------------------------

    fn parse_block(&mut self) -> (r: Result<Vec<Stmt>, Diagnostic>)
        requires
            old(self).wf(),
        ensures
            final(self).kept(*old(self)),
            r matches Ok(b) ==> stmts_ok(b@, old(self).in_loop()) && final(self).current > old(self).current,
            parsed_stmts(r, final(self).current as int, grammar::block(old(self).tokens@, old(self).current as int, old(self).in_loop())),
        decreases old(self).rem(), 12int,
    {
        self.expect_block_start()?;
        self.parse_block_body()
    }

    /// A block that forms a loop body: `🛑` and `⏭️` are allowed inside it.
    fn parse_loop_block(&mut self) -> (r: Result<Vec<Stmt>, Diagnostic>)
        requires
            old(self).wf(),
            old(self).loop_depth < old(self).current,
        ensures
            final(self).kept(*old(self)),
            r matches Ok(b) ==> stmts_ok(b@, true) && final(self).current > old(self).current,
            parsed_stmts(r, final(self).current as int, grammar::block(old(self).tokens@, old(self).current as int, true)),
        decreases old(self).rem(), 13int,
    {
        // Increment before parsing the required block so nested loops and loop
        // control statements are validated against the current context.
        self.loop_depth = self.loop_depth + 1;
        let result = self.parse_block();
        self.loop_depth = self.loop_depth - 1;
        result
    }

    /// Statements up to and including the closing `🔒`.
    fn parse_block_body(&mut self) -> (r: Result<Vec<Stmt>, Diagnostic>)
        requires
            old(self).wf(),
        ensures
            final(self).kept(*old(self)),
            r matches Ok(b) ==> stmts_ok(b@, old(self).in_loop()) && final(self).current > old(self).current,
            parsed_stmts(r, final(self).current as int, grammar::block_body(old(self).tokens@, old(self).current as int, old(self).in_loop(), Seq::empty())),
        decreases old(self).rem() + 1, 0int,
    {
        let ghost toks = self.tokens@;
        let mut statements: Vec<Stmt> = Vec::new();
        proof {
            assert(stmts_view(statements@) =~= Seq::<StmtView>::empty());
        }
        loop
            invariant
                self.kept(*old(self)),
                stmts_ok(statements@, old(self).in_loop()),
                toks == self.tokens@,
                grammar::block_body(toks, old(self).current as int, old(self).in_loop(), Seq::empty())
                    == grammar::block_body(toks, self.current as int, old(self).in_loop(), stmts_view(statements@)),
            ensures
                self.kept(*old(self)),
                stmts_ok(statements@, old(self).in_loop()),
                self.tokens@[self.current as int].kind is BlockEnd || self.tokens@[self.current as int].kind is Eof,
                toks[self.current as int].kind is Eof ==> grammar::block_body(toks, old(self).current as int, old(self).in_loop(), Seq::empty())
                    == Err::<(Seq<StmtView>, int), SyntaxError>(("missing block end 🔒"@, toks[self.current as int].span)),
                toks[self.current as int].kind is BlockEnd ==> (grammar::block_body(toks, old(self).current as int, old(self).in_loop(), Seq::empty())
                    matches Ok((v, a)) && v == stmts_view(statements@) && a == self.current + 1),
            decreases self.rem(),
        {
            self.skip_statement_separators();
            if matches!(self.peek().kind, TokenKind::BlockEnd | TokenKind::Eof) {
                break;
            }
            let statement = self.parse_statement()?;
            proof {
                lemma_stmts_push(statements@, statement);
            }
            statements.push(statement);
        }
        if self.is_at_end() {
            return Err(Diagnostic::at("missing block end 🔒", self.peek_span()));
        }
        self.advance();
        Ok(statements)
    }

    #[verifier::rlimit(40)]
    fn parse_program(&mut self) -> (r: Result<Program, Diagnostic>)
        requires
            old(self).wf(),
            old(self).loop_depth == 0,
            old(self).current == 0,
        ensures
            r matches Ok(p) ==> stmts_ok(p.statements@, false),
            match r {
                Ok(p) => grammar::program(old(self).tokens@) matches Ok((v, span)) && v == stmts_view(p.statements@) && span == p.span,
                Err(d) => grammar::program(old(self).tokens@) matches Err(e) && reports(d, e),
            },
    {
        let ghost toks = self.tokens@;
        let start = self.peek_span();
        let mut statements: Vec<Stmt> = Vec::new();
        proof {
            assert(stmts_view(statements@) =~= Seq::<StmtView>::empty());
        }
        loop
            invariant
                self.wf(),
                self.loop_depth == 0,
                stmts_ok(statements@, false),
                toks == self.tokens@,
                toks == old(self).tokens@,
                grammar::top_level(toks, 0, Seq::empty()) == grammar::top_level(toks, self.current as int, stmts_view(statements@)),
            ensures
                self.wf(),
                stmts_ok(statements@, false),
                toks[self.current as int].kind is Eof,
                grammar::top_level(toks, 0, Seq::empty()) matches Ok((v, a)) && v == stmts_view(statements@) && a == self.current,
            decreases self.rem(),
        {
            self.skip_statement_separators();
            if self.is_at_end() {
                break;
            }
            if matches!(self.peek().kind, TokenKind::BlockEnd) {
                return Err(Diagnostic::at("unexpected block end 🔒", self.peek_span()));
            }
            let statement = self.parse_statement()?;
            proof {
                lemma_stmts_push(statements@, statement);
            }
            statements.push(statement);
        }
        let end = self.peek_span();
        Ok(Program { statements, span: start.merge(end) })
    }
}

/// Build an abstract syntax tree from lexer tokens.
///
/// The input must end with the [`TokenKind::Eof`] token produced by the
/// lexer. Parsing stops on the first syntax error and wraps it in a
/// diagnostic vector to match the rest of the compiler pipeline. Every name
/// in an accepted program is exactly one emoji, and `🛑` / `⏭️` occur only
/// inside loop bodies.
pub fn parse(tokens: Vec<Token>) -> (r: Result<Program, Vec<Diagnostic>>)
    requires
        tokens@.len() > 0,
        tokens@.last().kind is Eof,
    ensures
        r matches Ok(p) ==> stmts_ok(p.statements@, false),
        r matches Err(ds) ==> ds@.len() == 1,
        match r {
            Ok(p) => grammar::program(tokens@) matches Ok((v, span)) && v == stmts_view(p.statements@) && span == p.span,
            Err(ds) => grammar::program(tokens@) matches Err(e) && reports(ds@[0], e),
        },
{
    let mut parser = Parser { tokens: &tokens, current: 0, loop_depth: 0 };
    match parser.parse_program() {
        Ok(program) => Ok(program),
        Err(diagnostic) => {
            let mut diagnostics = Vec::new();
            diagnostics.push(diagnostic);
            Err(diagnostics)
        },
    }
}

} // verus!
