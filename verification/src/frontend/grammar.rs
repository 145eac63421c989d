//! The grammar of Peps, stated as functions over token sequences.
//!
//! Each function reads the tokens from a position and gives either the tree
//! it recognises there with the position after it, or the syntax error (its
//! message and span) that stops parsing. The sequences end with an
//! end-of-file token, which is never consumed.

use vstd::prelude::*;

use crate::common::source::{merged, Span};
use crate::frontend::ast::{
    view_span, BinaryOp, ConversionKind, ExprView, ForSourceView, InputKind, StmtView, UnaryOp,
};
use crate::frontend::parser::single_emoji;
use crate::frontend::token::{Token, TokenKind};

verus! {

/// A syntax error: its message and span.
pub type SyntaxError = (Seq<char>, Span);

/// What recognising a `T` from a position gives: the `T` and the position
/// after it, or a syntax error.
pub type Parsed<T> = Result<(T, int), SyntaxError>;

// ---------------------------------------------------------------------------
// Token classes and movement
// ---------------------------------------------------------------------------

/// The tokens form a stream: nonempty and ending with end of file.
pub open spec fn stream(toks: Seq<Token>) -> bool {
    toks.len() > 0 && toks.last().kind is Eof
}

/// The position after consuming the token at `i` (end of file stays put).
pub open spec fn next(toks: Seq<Token>, i: int) -> int {
    if toks[i].kind is Eof {
        i
    } else {
        i + 1
    }
}

/// The span of the token before `i`, or of the first token.
pub open spec fn previous_span(toks: Seq<Token>, i: int) -> Span {
    if i > 0 {
        toks[i - 1].span
    } else {
        toks[0].span
    }
}

/// The position after any statement separators from `i` on.
pub open spec fn skip_separators(toks: Seq<Token>, i: int) -> int
    decreases toks.len() - i,
{
    if 0 <= i < toks.len() && toks[i].kind is StatementEnd {
        skip_separators(toks, i + 1)
    } else {
        i
    }
}

/// Skipping separators moves forward and stays within the tokens.
pub proof fn lemma_skip_separators(toks: Seq<Token>, i: int)
    ensures
        0 <= i <= toks.len() ==> i <= skip_separators(toks, i) <= toks.len(),
        skip_separators(toks, i) == i || (0 <= i < toks.len() && toks[i].kind is StatementEnd),
        0 <= skip_separators(toks, i) < toks.len() ==> !(toks[skip_separators(toks, i)].kind is StatementEnd),
    decreases toks.len() - i,
{
    if 0 <= i < toks.len() && toks[i].kind is StatementEnd {
        lemma_skip_separators(toks, i + 1);
    }
}

/// Token kinds that can begin an expression.
pub open spec fn starts_expression(kind: TokenKind) -> bool {
    kind is Identifier || kind is Number || kind is Float || kind is StringLiteral || kind is Bool
        || kind is Minus || kind is ListDelimiter || kind is MapDelimiter || kind is Call || kind is Input
        || kind is Convert || kind is Not || kind is ListLen || kind is MapHas
}

/// Whether the token after `i` can begin an expression.
pub open spec fn next_starts_expression(toks: Seq<Token>, i: int) -> bool {
    toks.len() - i > 1 && starts_expression(toks[i + 1].kind)
}

/// The binary operator of a token kind and its precedence; higher binds tighter.
pub open spec fn binary_operator(kind: TokenKind) -> Option<(BinaryOp, nat)> {
    match kind {
        TokenKind::Or => Some((BinaryOp::Or, 1)),
        TokenKind::And => Some((BinaryOp::And, 2)),
        TokenKind::Eq => Some((BinaryOp::Eq, 3)),
        TokenKind::NotEq => Some((BinaryOp::NotEq, 3)),
        TokenKind::Lt => Some((BinaryOp::Lt, 3)),
        TokenKind::Gt => Some((BinaryOp::Gt, 3)),
        TokenKind::LtEq => Some((BinaryOp::LtEq, 3)),
        TokenKind::GtEq => Some((BinaryOp::GtEq, 3)),
        TokenKind::ListIndex => Some((BinaryOp::Index, 4)),
        TokenKind::ListAppend => Some((BinaryOp::Append, 4)),
        TokenKind::Plus => Some((BinaryOp::Add, 5)),
        TokenKind::Minus => Some((BinaryOp::Sub, 5)),
        TokenKind::Star => Some((BinaryOp::Mul, 6)),
        TokenKind::Slash => Some((BinaryOp::Div, 6)),
        _ => None,
    }
}

/// The identifier text of a token kind, if it is an identifier.
pub open spec fn identifier(kind: TokenKind) -> Option<Seq<char>> {
    match kind {
        TokenKind::Identifier(name) => Some(name@),
        _ => None,
    }
}

/// A token of kind `expected` at `i` is consumed; otherwise `message` at its span.
pub open spec fn expect(toks: Seq<Token>, i: int, is_expected: bool, message: Seq<char>) -> Parsed<Span> {
    if is_expected {
        Ok((toks[i].span, i + 1))
    } else {
        Err((message, toks[i].span))
    }
}

/// The end of a simple statement: separators are consumed, and a block end,
/// `else` or end of file may follow directly. Gives the span the statement ends with.
pub open spec fn statement_end(toks: Seq<Token>, i: int) -> Parsed<Span> {
    if toks[i].kind is Identifier {
        Err(("variable identifiers must be exactly one emoji long"@, toks[i].span))
    } else if toks[i].kind is StatementEnd {
        Ok((toks[i].span, skip_separators(toks, i + 1)))
    } else if toks[i].kind is BlockEnd || toks[i].kind is Eof || toks[i].kind is Else {
        Ok((previous_span(toks, i), i))
    } else {
        Err(("missing statement separator (newline or 🔚)"@, toks[i].span))
    }
}

// ---------------------------------------------------------------------------
// Expressions
// ---------------------------------------------------------------------------

/// An expression whose binary operators bind at least as tightly as `min`;
/// binary operators associate to the left.
pub open spec fn expression(toks: Seq<Token>, i: int, min: nat) -> Parsed<ExprView>
    decreases toks.len() - i, 6int, 0int,
{
    match unary(toks, i) {
        Ok((left, j)) => if i < j < toks.len() {
            operators(toks, j, left, min)
        } else {
            Ok((left, j))
        },
        Err(e) => Err(e),
    }
}

/// The binary operators from `i` on that follow the operand `left`.
pub open spec fn operators(toks: Seq<Token>, i: int, left: ExprView, min: nat) -> Parsed<ExprView>
    decreases toks.len() - i, 5int, 0int,
{
    if !(0 <= i < toks.len()) {
        Ok((left, i))
    } else {
        match binary_operator(toks[i].kind) {
            Some((op, precedence)) => if precedence < min {
                Ok((left, i))
            } else {
                match expression(toks, i + 1, precedence + 1) {
                    Ok((right, j)) => if i + 1 < j < toks.len() {
                        let operand = if op is Append {
                            payload(toks, j, right)
                        } else {
                            Ok((right, j))
                        };
                        match operand {
                            Ok((right, k)) => if i < k < toks.len() {
                                operators(
                                    toks,
                                    k,
                                    ExprView::Binary {
                                        left: Box::new(left),
                                        op,
                                        right: Box::new(right),
                                        span: merged(view_span(left), view_span(right)),
                                    },
                                    min,
                                )
                            } else {
                                Ok((left, k))
                            },
                            Err(e) => Err(e),
                        }
                    } else {
                        Ok((left, j))
                    },
                    Err(e) => Err(e),
                }
            },
            None => Ok((left, i)),
        }
    }
}

/// After the first operand of `📥`: further expressions make a list with it.
pub open spec fn payload(toks: Seq<Token>, i: int, first: ExprView) -> Parsed<ExprView>
    decreases toks.len() - i + 1, 1int, 0int,
{
    if 0 <= i < toks.len() && starts_expression(toks[i].kind) {
        match payload_items(toks, i, seq![first]) {
            Ok((items, j)) => Ok((
                ExprView::List { elements: items, span: merged(view_span(first), view_span(items.last())) },
                j,
            )),
            Err(e) => Err(e),
        }
    } else {
        Ok((first, i))
    }
}

/// The expressions from `i` on that extend a `📥` payload.
pub open spec fn payload_items(toks: Seq<Token>, i: int, items: Seq<ExprView>) -> Parsed<Seq<ExprView>>
    decreases toks.len() - i + 1, 0int, 0int,
{
    if 0 <= i < toks.len() && starts_expression(toks[i].kind) {
        match expression(toks, i, 0) {
            Ok((e, j)) => if i < j < toks.len() {
                payload_items(toks, j, items.push(e))
            } else {
                Ok((items.push(e), j))
            },
            Err(e) => Err(e),
        }
    } else {
        Ok((items, i))
    }
}

/// A prefix operation, or a primary expression.
pub open spec fn unary(toks: Seq<Token>, i: int) -> Parsed<ExprView>
    decreases toks.len() - i, 5int, 1int,
{
    if !(0 <= i < toks.len()) {
        Err(("expected expression"@, toks[0].span))
    } else {
        let start = toks[i].span;
        match toks[i].kind {
            TokenKind::Minus | TokenKind::Not | TokenKind::ListLen => {
                let op = if toks[i].kind is Minus {
                    UnaryOp::Negate
                } else if toks[i].kind is Not {
                    UnaryOp::Not
                } else {
                    UnaryOp::Len
                };
                match unary(toks, i + 1) {
                    Ok((e, j)) => Ok((ExprView::Unary { op, expr: Box::new(e), span: merged(start, view_span(e)) }, j)),
                    Err(e) => Err(e),
                }
            },
            TokenKind::Convert => {
                let k = i + 1;
                if !(k < toks.len()) {
                    Err(("expected conversion type 🔢 or 🔣"@, start))
                } else if toks[k].kind is Range || toks[k].kind is FloatType {
                    let kind = if toks[k].kind is Range { ConversionKind::Integer } else { ConversionKind::Float };
                    match unary(toks, k + 1) {
                        Ok((e, j)) => Ok((ExprView::Convert { kind, expr: Box::new(e), span: merged(start, view_span(e)) }, j)),
                        Err(e) => Err(e),
                    }
                } else {
                    Err(("expected conversion type 🔢 or 🔣"@, toks[k].span))
                }
            },
            TokenKind::MapHas => match unary(toks, i + 1) {
                Ok((map, j)) => if i < j < toks.len() {
                    match unary(toks, j) {
                        Ok((key, k)) => Ok((
                            ExprView::Binary {
                                left: Box::new(map),
                                op: BinaryOp::Has,
                                right: Box::new(key),
                                span: merged(start, view_span(key)),
                            },
                            k,
                        )),
                        Err(e) => Err(e),
                    }
                } else {
                    Ok((map, j))
                },
                Err(e) => Err(e),
            },
            _ => primary(toks, i),
        }
    }
}

/// The input kind a type marker selects.
pub open spec fn input_kind(kind: TokenKind) -> Option<InputKind> {
    match kind {
        TokenKind::TextType => Some(InputKind::Text),
        TokenKind::Range => Some(InputKind::Integer),
        TokenKind::FloatType => Some(InputKind::Float),
        TokenKind::BoolType => Some(InputKind::Bool),
        _ => None,
    }
}

/// A literal, a name, a list or map literal, a call or an input read.
pub open spec fn primary(toks: Seq<Token>, i: int) -> Parsed<ExprView>
    decreases toks.len() - i, 4int, 0int,
{
    if !(0 <= i < toks.len()) {
        Err(("expected expression"@, toks[0].span))
    } else {
        let span = toks[i].span;
        let after = next(toks, i);
        match toks[i].kind {
            TokenKind::Number(value) => Ok((ExprView::Number { value: value@, span }, after)),
            TokenKind::Float(text) => Ok((ExprView::Float { text: text@, span }, after)),
            TokenKind::StringLiteral(value) => Ok((ExprView::String { value: value@, span }, after)),
            TokenKind::Bool(value) => Ok((ExprView::Bool { value, span }, after)),
            TokenKind::Identifier(name) => if single_emoji(name@) {
                Ok((ExprView::Variable { name: name@, span }, after))
            } else {
                Err(("variable identifiers must be exactly one emoji long"@, span))
            },
            TokenKind::ListDelimiter => list_literal(toks, i + 1, span),
            TokenKind::MapDelimiter => map_literal(toks, i + 1, span),
            TokenKind::Call => call(toks, i + 1, span),
            TokenKind::Input => if !(i + 1 < toks.len()) {
                Err(("expected input type 🔤, 🔢, 🔣 or ☑️"@, span))
            } else {
                match input_kind(toks[i + 1].kind) {
                    Some(kind) => Ok((ExprView::Input { kind, span: merged(span, toks[i + 1].span) }, i + 2)),
                    None => Err(("expected input type 🔤, 🔢, 🔣 or ☑️"@, toks[i + 1].span)),
                }
            },
            _ => Err(("expected expression"@, span)),
        }
    }
}

/// The elements and closing `📚` of a list literal, after its opening `📚`
/// (whose span is `start`).
pub open spec fn list_literal(toks: Seq<Token>, i: int, start: Span) -> Parsed<ExprView>
    decreases toks.len() - i + 1, 1int, 0int,
{
    match items(toks, i, Seq::empty(), "missing closing list delimiter 📚"@) {
        Ok((elements, k)) => Ok((ExprView::List { elements, span: merged(start, toks[k].span) }, k + 1)),
        Err(e) => Err(e),
    }
}

/// The entries and closing `🗺️` of a map literal, after its opening `🗺️`
/// (whose span is `start`).
pub open spec fn map_literal(toks: Seq<Token>, i: int, start: Span) -> Parsed<ExprView>
    decreases toks.len() - i + 1, 1int, 0int,
{
    match entries(toks, i, Seq::empty()) {
        Ok((pairs, k)) => Ok((ExprView::MapLiteral { entries: pairs, span: merged(start, toks[k].span) }, k + 1)),
        Err(e) => Err(e),
    }
}

/// The expressions of a `📚`-delimited sequence from `i` on, up to the
/// closing `📚` (whose position is given; it is not consumed). A `📚` that
/// opens the sequence and is followed by an expression starts a nested list.
pub open spec fn items(toks: Seq<Token>, i: int, acc: Seq<ExprView>, missing: Seq<char>) -> Parsed<Seq<ExprView>>
    decreases toks.len() - i + 1, 0int, 0int,
{
    if !(0 <= i < toks.len()) {
        Err((missing, toks[0].span))
    } else if toks[i].kind is Eof {
        Err((missing, toks[i].span))
    } else {
        let k = skip_separators(toks, i);
        proof {
            lemma_skip_separators(toks, i);
        }
        if !(k < toks.len()) {
            Err((missing, toks[0].span))
        } else if toks[k].kind is ListDelimiter && !(acc.len() == 0 && next_starts_expression(toks, k)) {
            Ok((acc, k))
        } else {
            match expression(toks, k, 0) {
                Ok((e, j)) => if i < j < toks.len() {
                    items(toks, j, acc.push(e), missing)
                } else {
                    Ok((acc.push(e), j))
                },
                Err(e) => Err(e),
            }
        }
    }
}

/// The entries of a map literal from `i` on, up to the closing `🗺️` (whose
/// position is given; it is not consumed).
pub open spec fn entries(toks: Seq<Token>, i: int, acc: Seq<(ExprView, ExprView)>) -> Parsed<Seq<(ExprView, ExprView)>>
    decreases toks.len() - i + 1, 0int, 0int,
{
    let k = skip_separators(toks, i);
    proof {
        lemma_skip_separators(toks, i);
    }
    if !(0 <= i && k < toks.len()) {
        Err(("missing closing map delimiter 🗺️"@, toks[0].span))
    } else if toks[k].kind is Eof {
        Err(("missing closing map delimiter 🗺️"@, toks[k].span))
    } else if toks[k].kind is MapDelimiter {
        Ok((acc, k))
    } else {
        match expression(toks, k, 0) {
            Ok((key, j)) => if k < j && j < toks.len() {
                if toks[j].kind is Arrow {
                    let m = skip_separators(toks, j + 1);
                    proof {
                        lemma_skip_separators(toks, j + 1);
                    }
                    match expression(toks, m, 0) {
                        Ok((value, n)) => if i < n < toks.len() {
                            entries(toks, n, acc.push((key, value)))
                        } else {
                            Ok((acc.push((key, value)), n))
                        },
                        Err(e) => Err(e),
                    }
                } else {
                    Err(("expected map entry arrow ➡️"@, toks[j].span))
                }
            } else {
                Ok((acc, j))
            },
            Err(e) => Err(e),
        }
    }
}

/// `name 📚 arguments 📚` after `📞` (whose span is `start`).
pub open spec fn call(toks: Seq<Token>, i: int, start: Span) -> Parsed<ExprView>
    decreases toks.len() - i, 3int, 0int,
{
    if !(0 <= i < toks.len()) {
        Err(("expected function name after 📞"@, start))
    } else {
        match identifier(toks[i].kind) {
            Some(name) => if !single_emoji(name) {
                Err(("function names must be exactly one emoji long"@, toks[i].span))
            } else if !(i + 1 < toks.len()) {
                Err(("expected argument list 📚"@, start))
            } else if !(toks[i + 1].kind is ListDelimiter) {
                Err(("expected argument list 📚"@, toks[i + 1].span))
            } else {
                match items(toks, i + 2, Seq::empty(), "missing closing argument delimiter 📚"@) {
                    Ok((arguments, k)) => Ok((ExprView::Call { name, arguments, span: merged(start, toks[k].span) }, k + 1)),
                    Err(e) => Err(e),
                }
            },
            None => Err(("expected function name after 📞"@, toks[i].span)),
        }
    }
}

// ---------------------------------------------------------------------------
// Statements
// ---------------------------------------------------------------------------

/// A statement; `in_loop` says whether a loop of the same function encloses it.
pub open spec fn statement(toks: Seq<Token>, i: int, in_loop: bool) -> Parsed<StmtView>
    decreases toks.len() - i, 10int, 0int,
{
    if !(0 <= i < toks.len()) {
        Err(("expected statement"@, toks[0].span))
    } else {
        let span = toks[i].span;
        match toks[i].kind {
            TokenKind::Identifier(_) => name_statement(toks, i),
            TokenKind::Const => constant(toks, i),
            TokenKind::Print => print_statement(toks, i),
            TokenKind::Return => return_statement(toks, i),
            TokenKind::Call => call_statement(toks, i),
            TokenKind::Break => loop_control(toks, i, true, in_loop),
            TokenKind::Continue => loop_control(toks, i, false, in_loop),
            TokenKind::If => conditional(toks, i, in_loop),
            TokenKind::While => repetition(toks, i),
            TokenKind::Function => function(toks, i),
            TokenKind::Else => Err(("else 😐 without matching if"@, span)),
            TokenKind::Eof => Err(("unexpected end of file"@, span)),
            _ => Err(("expected statement"@, span)),
        }
    }
}

/// `📢 expr`.
pub open spec fn print_statement(toks: Seq<Token>, i: int) -> Parsed<StmtView>
    decreases toks.len() - i, 9int, 0int,
{
    match simple(toks, i + 1) {
        Ok((expr, end, j)) => Ok((StmtView::Print { expr, span: merged(toks[i].span, end) }, j)),
        Err(e) => Err(e),
    }
}

/// `↩️ expr`.
pub open spec fn return_statement(toks: Seq<Token>, i: int) -> Parsed<StmtView>
    decreases toks.len() - i, 9int, 0int,
{
    match simple(toks, i + 1) {
        Ok((expr, end, j)) => Ok((StmtView::Return { expr, span: merged(toks[i].span, end) }, j)),
        Err(e) => Err(e),
    }
}

/// A standalone `📞` call.
pub open spec fn call_statement(toks: Seq<Token>, i: int) -> Parsed<StmtView>
    decreases toks.len() - i, 9int, 0int,
{
    match primary(toks, i) {
        Ok((expr, j)) => match statement_end(toks, j) {
            Ok((end, k)) => Ok((StmtView::Call { expr, span: merged(toks[i].span, end) }, k)),
            Err(e) => Err(e),
        },
        Err(e) => Err(e),
    }
}

/// `🛑` (when `is_break`) or `⏭️`, which only a loop body may hold.
pub open spec fn loop_control(toks: Seq<Token>, i: int, is_break: bool, in_loop: bool) -> Parsed<StmtView> {
    let span = toks[i].span;
    if !in_loop {
        if is_break {
            Err(("break can only be used inside loops"@, span))
        } else {
            Err(("continue can only be used inside loops"@, span))
        }
    } else {
        match statement_end(toks, i + 1) {
            Ok((end, k)) => if is_break {
                Ok((StmtView::Break { span: merged(span, end) }, k))
            } else {
                Ok((StmtView::Continue { span: merged(span, end) }, k))
            },
            Err(e) => Err(e),
        }
    }
}

/// An expression followed by the end of a statement: the expression, the
/// span the statement ends with, and the position after it.
pub open spec fn simple(toks: Seq<Token>, i: int) -> Result<(ExprView, Span, int), SyntaxError>
    decreases toks.len() - i + 1, 9int, 0int,
{
    match expression(toks, i, 0) {
        Ok((expr, j)) => match statement_end(toks, j) {
            Ok((end, k)) => Ok((expr, end, k)),
            Err(e) => Err(e),
        },
        Err(e) => Err(e),
    }
}

/// `name 🟰 expr` or `name 📥 payload`.
pub open spec fn name_statement(toks: Seq<Token>, i: int) -> Parsed<StmtView>
    decreases toks.len() - i, 9int, 0int,
{
    if !(0 <= i < toks.len()) {
        Err(("expected statement"@, toks[0].span))
    } else {
        let name_span = toks[i].span;
        match identifier(toks[i].kind) {
            Some(name) => if !(i + 1 < toks.len()) {
                Err(("expected statement"@, name_span))
            } else if !single_emoji(name) || toks[i + 1].kind is Identifier {
                Err(("variable identifiers must be exactly one emoji long"@, merged(name_span, toks[i + 1].span)))
            } else if toks[i + 1].kind is ListAppend {
                match expression(toks, i + 2, 0) {
                    Ok((first, j)) => if i + 2 < j < toks.len() {
                        match payload(toks, j, first) {
                            Ok((expr, k)) => match statement_end(toks, k) {
                                Ok((end, m)) => Ok((StmtView::Append { name, expr, span: merged(name_span, end) }, m)),
                                Err(e) => Err(e),
                            },
                            Err(e) => Err(e),
                        }
                    } else {
                        Err(("expected statement"@, name_span))
                    },
                    Err(e) => Err(e),
                }
            } else if !(toks[i + 1].kind is Assign) {
                Err(("expected assignment operator 🟰"@, toks[i + 1].span))
            } else {
                match simple(toks, i + 2) {
                    Ok((expr, end, j)) => Ok((StmtView::Assign { name, expr, span: merged(name_span, end) }, j)),
                    Err(e) => Err(e),
                }
            },
            None => Err(("expected statement"@, name_span)),
        }
    }
}

/// `🔐 name 🟰 expr`.
pub open spec fn constant(toks: Seq<Token>, i: int) -> Parsed<StmtView>
    decreases toks.len() - i, 9int, 0int,
{
    if !(0 <= i && i + 1 < toks.len()) {
        Err(("expected constant name after 🔐"@, toks[0].span))
    } else {
        let start = toks[i].span;
        let name_span = toks[i + 1].span;
        match identifier(toks[i + 1].kind) {
            Some(name) => if !(i + 2 < toks.len()) {
                Err(("expected constant name after 🔐"@, name_span))
            } else if !single_emoji(name) || toks[i + 2].kind is Identifier {
                Err(("variable identifiers must be exactly one emoji long"@, merged(name_span, toks[i + 2].span)))
            } else if !(toks[i + 2].kind is Assign) {
                Err(("expected assignment operator 🟰"@, toks[i + 2].span))
            } else {
                match simple(toks, i + 3) {
                    Ok((expr, end, j)) => Ok((StmtView::Const { name, expr, span: merged(start, end) }, j)),
                    Err(e) => Err(e),
                }
            },
            None => Err(("expected constant name after 🔐"@, name_span)),
        }
    }
}

/// `🤔 condition block [😐 block]`.
pub open spec fn conditional(toks: Seq<Token>, i: int, in_loop: bool) -> Parsed<StmtView>
    decreases toks.len() - i, 9int, 0int,
{
    let start = toks[i].span;
    match expression(toks, i + 1, 0) {
        Ok((condition, j)) => if i + 1 < j < toks.len() {
            match block(toks, j, in_loop) {
                Ok((then_branch, k)) => {
                    let span = merged(start, previous_span(toks, k));
                    let m = skip_separators(toks, k);
                    proof {
                        lemma_skip_separators(toks, k);
                    }
                    if i < k && m + 1 < toks.len() && toks[m].kind is Else {
                        if toks[m + 1].kind is BlockStart {
                            match block_body(toks, m + 2, in_loop, Seq::empty()) {
                                Ok((else_branch, n)) => Ok((
                                    StmtView::If {
                                        condition,
                                        then_branch,
                                        else_branch: Some(else_branch),
                                        span: merged(span, previous_span(toks, n)),
                                    },
                                    n,
                                )),
                                Err(e) => Err(e),
                            }
                        } else {
                            Err(("expected block start 🔓"@, toks[m + 1].span))
                        }
                    } else {
                        Ok((StmtView::If { condition, then_branch, else_branch: None, span }, m))
                    }
                },
                Err(e) => Err(e),
            }
        } else {
            Err(("expected statement"@, start))
        },
        Err(e) => Err(e),
    }
}

/// `🔁 variable 🧭 source block` or `🔁 condition block`.
pub open spec fn repetition(toks: Seq<Token>, i: int) -> Parsed<StmtView>
    decreases toks.len() - i, 9int, 0int,
{
    let start = toks[i].span;
    let k = i + 1;
    if 0 <= k && k < toks.len() && toks[k].kind is Identifier && toks.len() - k > 1 && toks[k + 1].kind is In {
        for_loop(toks, k, start)
    } else {
        match expression(toks, k, 0) {
            Ok((condition, j)) => if k < j < toks.len() {
                match block(toks, j, true) {
                    Ok((body, m)) => Ok((StmtView::While { condition, body, span: merged(start, previous_span(toks, m)) }, m)),
                    Err(e) => Err(e),
                }
            } else {
                Err(("expected statement"@, start))
            },
            Err(e) => Err(e),
        }
    }
}

/// `variable 🧭 source block` after `🔁` (whose span is `start`).
pub open spec fn for_loop(toks: Seq<Token>, i: int, start: Span) -> Parsed<StmtView>
    decreases toks.len() - i, 8int, 0int,
{
    if !(0 <= i < toks.len()) {
        Err(("expected loop variable"@, start))
    } else {
        let variable_span = toks[i].span;
        match identifier(toks[i].kind) {
            Some(variable) => if !single_emoji(variable) {
                Err(("variable identifiers must be exactly one emoji long"@, variable_span))
            } else if !(i + 1 < toks.len()) {
                Err(("expected loop in marker 🧭"@, variable_span))
            } else if !(toks[i + 1].kind is In) {
                Err(("expected loop in marker 🧭"@, toks[i + 1].span))
            } else {
                match for_source(toks, i + 2) {
                    Ok((source, j)) => if i + 2 < j < toks.len() {
                        match block(toks, j, true) {
                            Ok((body, m)) => Ok((
                                StmtView::For { variable, source, body, span: merged(start, previous_span(toks, m)) },
                                m,
                            )),
                            Err(e) => Err(e),
                        }
                    } else {
                        Err(("expected loop variable"@, start))
                    },
                    Err(e) => Err(e),
                }
            },
            None => Err(("expected loop variable"@, variable_span)),
        }
    }
}

/// What a `for` loop walks through: `🔢 start ➡️ end`, or a list expression.
pub open spec fn for_source(toks: Seq<Token>, i: int) -> Parsed<ForSourceView>
    decreases toks.len() - i, 7int, 0int,
{
    if 0 <= i < toks.len() && toks[i].kind is Range {
        match expression(toks, i + 1, 0) {
            Ok((first, j)) => if i + 1 < j < toks.len() {
                if toks[j].kind is Arrow {
                    match expression(toks, j + 1, 0) {
                        Ok((last, k)) => Ok((
                            ForSourceView::Range { start: first, end: last, span: merged(toks[i].span, view_span(last)) },
                            k,
                        )),
                        Err(e) => Err(e),
                    }
                } else {
                    Err(("expected range end arrow ➡️"@, toks[j].span))
                }
            } else {
                Err(("expected range end arrow ➡️"@, toks[i].span))
            },
            Err(e) => Err(e),
        }
    } else {
        match expression(toks, i, 0) {
            Ok((expr, j)) => Ok((ForSourceView::List { expr, span: view_span(expr) }, j)),
            Err(e) => Err(e),
        }
    }
}

/// The parameter names of a function from `i` on, each followed by separators.
pub open spec fn parameter_names(toks: Seq<Token>, i: int, acc: Seq<Seq<char>>) -> Result<(Seq<Seq<char>>, int), SyntaxError>
    decreases toks.len() - i,
{
    if 0 <= i < toks.len() {
        match identifier(toks[i].kind) {
            Some(name) => if !single_emoji(name) {
                Err(("parameter names must be exactly one emoji long"@, toks[i].span))
            } else {
                proof {
                    lemma_skip_separators(toks, i + 1);
                }
                parameter_names(toks, skip_separators(toks, i + 1), acc.push(name))
            },
            None => Ok((acc, i)),
        }
    } else {
        Ok((acc, i))
    }
}

/// `🧩 name 📚 parameters 📚 block`; `🛑` and `⏭️` in its body need a loop of their own.
pub open spec fn function(toks: Seq<Token>, i: int) -> Parsed<StmtView>
    decreases toks.len() - i, 9int, 0int,
{
    if !(0 <= i && i + 1 < toks.len()) {
        Err(("expected function name after 🧩"@, toks[0].span))
    } else {
        let start = toks[i].span;
        let name_span = toks[i + 1].span;
        match identifier(toks[i + 1].kind) {
            Some(name) => if !single_emoji(name) {
                Err(("function names must be exactly one emoji long"@, name_span))
            } else if !(i + 2 < toks.len()) {
                Err(("expected parameter list 📚"@, name_span))
            } else if !(toks[i + 2].kind is ListDelimiter) {
                Err(("expected parameter list 📚"@, toks[i + 2].span))
            } else {
                proof {
                    lemma_skip_separators(toks, i + 3);
                }
                match parameter_names(toks, skip_separators(toks, i + 3), Seq::empty()) {
                    Ok((parameters, k)) => if !(0 <= k < toks.len()) {
                        Err(("expected closing parameter delimiter 📚"@, start))
                    } else if !(toks[k].kind is ListDelimiter) {
                        Err(("expected closing parameter delimiter 📚"@, toks[k].span))
                    } else if i < k < toks.len() - 1 {
                        match block(toks, k + 1, false) {
                            Ok((body, m)) => Ok((
                                StmtView::Function { name, parameters, body, span: merged(start, previous_span(toks, m)) },
                                m,
                            )),
                            Err(e) => Err(e),
                        }
                    } else {
                        Err(("expected closing parameter delimiter 📚"@, start))
                    },
                    Err(e) => Err(e),
                }
            },
            None => Err(("expected function name after 🧩"@, name_span)),
        }
    }
}

/// `🔓 statements 🔒`.
pub open spec fn block(toks: Seq<Token>, i: int, in_loop: bool) -> Parsed<Seq<StmtView>>
    decreases toks.len() - i, 12int, 0int,
{
    if !(0 <= i < toks.len()) {
        Err(("expected block start 🔓"@, toks[0].span))
    } else if toks[i].kind is BlockStart {
        block_body(toks, i + 1, in_loop, Seq::empty())
    } else {
        Err(("expected block start 🔓"@, toks[i].span))
    }
}

/// The statements from `i` on up to and including the closing `🔒`.
pub open spec fn block_body(toks: Seq<Token>, i: int, in_loop: bool, acc: Seq<StmtView>) -> Parsed<Seq<StmtView>>
    decreases toks.len() - i + 1, 0int, 0int,
{
    let k = skip_separators(toks, i);
    proof {
        lemma_skip_separators(toks, i);
    }
    if !(0 <= i && k < toks.len()) {
        Err(("missing block end 🔒"@, toks[0].span))
    } else if toks[k].kind is Eof {
        Err(("missing block end 🔒"@, toks[k].span))
    } else if toks[k].kind is BlockEnd {
        Ok((acc, k + 1))
    } else {
        match statement(toks, k, in_loop) {
            Ok((s, j)) => if i < j < toks.len() {
                block_body(toks, j, in_loop, acc.push(s))
            } else {
                Ok((acc.push(s), j))
            },
            Err(e) => Err(e),
        }
    }
}

/// The top-level statements from `i` on, up to end of file.
pub open spec fn top_level(toks: Seq<Token>, i: int, acc: Seq<StmtView>) -> Parsed<Seq<StmtView>>
    decreases toks.len() - i + 1,
{
    let k = skip_separators(toks, i);
    proof {
        lemma_skip_separators(toks, i);
    }
    if !(0 <= i && k < toks.len()) || toks[k].kind is Eof {
        Ok((acc, k))
    } else if toks[k].kind is BlockEnd {
        Err(("unexpected block end 🔒"@, toks[k].span))
    } else {
        match statement(toks, k, false) {
            Ok((s, j)) => if i < j < toks.len() {
                top_level(toks, j, acc.push(s))
            } else {
                Ok((acc.push(s), j))
            },
            Err(e) => Err(e),
        }
    }
}

/// A whole program: its statements and its span, or the first syntax error.
pub open spec fn program(toks: Seq<Token>) -> Result<(Seq<StmtView>, Span), SyntaxError> {
    match top_level(toks, 0, Seq::empty()) {
        Ok((stmts, k)) => Ok((stmts, merged(toks[0].span, toks[k].span))),
        Err(e) => Err(e),
    }
}


// ---------------------------------------------------------------------------
// Precedence and associativity
// ---------------------------------------------------------------------------

/// `➕` or `➖`.
pub open spec fn additive(kind: TokenKind) -> bool {
    kind is Plus || kind is Minus
}

/// `✖️` or `➗`.
pub open spec fn multiplicative(kind: TokenKind) -> bool {
    kind is Star || kind is Slash
}

/// The arithmetic operation an arithmetic operator token writes.
pub open spec fn arithmetic_op(kind: TokenKind) -> BinaryOp {
    match kind {
        TokenKind::Plus => BinaryOp::Add,
        TokenKind::Minus => BinaryOp::Sub,
        TokenKind::Star => BinaryOp::Mul,
        _ => BinaryOp::Div,
    }
}

/// The number literal token at `k`, as an expression.
pub open spec fn number_at(toks: Seq<Token>, k: int) -> ExprView {
    ExprView::Number { value: toks[k].kind->Number_0@, span: toks[k].span }
}

/// The binary expression `left op right`, spanning both operands.
pub open spec fn joined_expr(left: ExprView, op: BinaryOp, right: ExprView) -> ExprView {
    ExprView::Binary { left: Box::new(left), op, right: Box::new(right), span: merged(view_span(left), view_span(right)) }
}

/// Three numbers joined by two arithmetic operators from `i` on, followed by
/// the end of the statement.
pub open spec fn arithmetic_chain(toks: Seq<Token>, i: int) -> bool {
    &&& 0 <= i
    &&& i + 5 < toks.len()
    &&& toks[i].kind is Number
    &&& toks[i + 2].kind is Number
    &&& toks[i + 4].kind is Number
    &&& additive(toks[i + 1].kind) || multiplicative(toks[i + 1].kind)
    &&& additive(toks[i + 3].kind) || multiplicative(toks[i + 3].kind)
    &&& toks[i + 5].kind is StatementEnd || toks[i + 5].kind is Eof
}

/// Operators of one level, and a multiplication or division before an
/// addition or subtraction, group to the left: `a ➖ b ➕ c` is
/// `(a ➖ b) ➕ c`, `a ✖️ b ➗ c` is `(a ✖️ b) ➗ c` and `a ✖️ b ➕ c` is
/// `(a ✖️ b) ➕ c`.
pub proof fn law_arithmetic_groups_left(toks: Seq<Token>, i: int)
    requires
        arithmetic_chain(toks, i),
        !(additive(toks[i + 1].kind) && multiplicative(toks[i + 3].kind)),
    ensures
        expression(toks, i, 0) == Ok::<(ExprView, int), SyntaxError>((
            joined_expr(
                joined_expr(number_at(toks, i), arithmetic_op(toks[i + 1].kind), number_at(toks, i + 2)),
                arithmetic_op(toks[i + 3].kind),
                number_at(toks, i + 4),
            ),
            i + 5,
        )),
{
    let a = number_at(toks, i);
    let b = number_at(toks, i + 2);
    let c = number_at(toks, i + 4);
    let (op1, p1) = binary_operator(toks[i + 1].kind)->Some_0;
    let (op3, p3) = binary_operator(toks[i + 3].kind)->Some_0;
    assert(p3 <= p1);
    assert(primary(toks, i) == Ok::<(ExprView, int), SyntaxError>((a, i + 1)));
    assert(unary(toks, i) == Ok::<(ExprView, int), SyntaxError>((a, i + 1)));
    assert(primary(toks, i + 2) == Ok::<(ExprView, int), SyntaxError>((b, i + 3)));
    assert(unary(toks, i + 2) == Ok::<(ExprView, int), SyntaxError>((b, i + 3)));
    assert(operators(toks, i + 3, b, p1 + 1) == Ok::<(ExprView, int), SyntaxError>((b, i + 3)));
    assert(expression(toks, i + 2, p1 + 1) == Ok::<(ExprView, int), SyntaxError>((b, i + 3)));
    let ab = ExprView::Binary { left: Box::new(a), op: op1, right: Box::new(b), span: merged(view_span(a), view_span(b)) };
    assert(primary(toks, i + 4) == Ok::<(ExprView, int), SyntaxError>((c, i + 5)));
    assert(unary(toks, i + 4) == Ok::<(ExprView, int), SyntaxError>((c, i + 5)));
    assert(operators(toks, i + 5, c, p3 + 1) == Ok::<(ExprView, int), SyntaxError>((c, i + 5)));
    assert(expression(toks, i + 4, p3 + 1) == Ok::<(ExprView, int), SyntaxError>((c, i + 5)));
    let abc = ExprView::Binary { left: Box::new(ab), op: op3, right: Box::new(c), span: merged(view_span(ab), view_span(c)) };
    assert(operators(toks, i + 5, abc, 0) == Ok::<(ExprView, int), SyntaxError>((abc, i + 5)));
    assert(operators(toks, i + 3, ab, 0) == Ok::<(ExprView, int), SyntaxError>((abc, i + 5)));
    assert(operators(toks, i + 1, a, 0) == Ok::<(ExprView, int), SyntaxError>((abc, i + 5)));
}

/// An addition or subtraction before a multiplication or division groups to
/// the right: `a ➕ b ✖️ c` is `a ➕ (b ✖️ c)`.
pub proof fn law_multiplication_binds_tighter(toks: Seq<Token>, i: int)
    requires
        arithmetic_chain(toks, i),
        additive(toks[i + 1].kind),
        multiplicative(toks[i + 3].kind),
    ensures
        expression(toks, i, 0) == Ok::<(ExprView, int), SyntaxError>((
            joined_expr(
                number_at(toks, i),
                arithmetic_op(toks[i + 1].kind),
                joined_expr(number_at(toks, i + 2), arithmetic_op(toks[i + 3].kind), number_at(toks, i + 4)),
            ),
            i + 5,
        )),
{
    let a = number_at(toks, i);
    let b = number_at(toks, i + 2);
    let c = number_at(toks, i + 4);
    let (op1, p1) = binary_operator(toks[i + 1].kind)->Some_0;
    let (op3, p3) = binary_operator(toks[i + 3].kind)->Some_0;
    assert(p3 > p1);
    assert(primary(toks, i) == Ok::<(ExprView, int), SyntaxError>((a, i + 1)));
    assert(unary(toks, i) == Ok::<(ExprView, int), SyntaxError>((a, i + 1)));
    assert(primary(toks, i + 2) == Ok::<(ExprView, int), SyntaxError>((b, i + 3)));
    assert(unary(toks, i + 2) == Ok::<(ExprView, int), SyntaxError>((b, i + 3)));
    assert(primary(toks, i + 4) == Ok::<(ExprView, int), SyntaxError>((c, i + 5)));
    assert(unary(toks, i + 4) == Ok::<(ExprView, int), SyntaxError>((c, i + 5)));
    assert(operators(toks, i + 5, c, p3 + 1) == Ok::<(ExprView, int), SyntaxError>((c, i + 5)));
    assert(expression(toks, i + 4, p3 + 1) == Ok::<(ExprView, int), SyntaxError>((c, i + 5)));
    let bc = ExprView::Binary { left: Box::new(b), op: op3, right: Box::new(c), span: merged(view_span(b), view_span(c)) };
    assert(operators(toks, i + 5, bc, p1 + 1) == Ok::<(ExprView, int), SyntaxError>((bc, i + 5)));
    assert(operators(toks, i + 3, b, p1 + 1) == Ok::<(ExprView, int), SyntaxError>((bc, i + 5)));
    assert(expression(toks, i + 2, p1 + 1) == Ok::<(ExprView, int), SyntaxError>((bc, i + 5)));
    let abc = ExprView::Binary { left: Box::new(a), op: op1, right: Box::new(bc), span: merged(view_span(a), view_span(bc)) };
    assert(operators(toks, i + 5, abc, 0) == Ok::<(ExprView, int), SyntaxError>((abc, i + 5)));
    assert(operators(toks, i + 1, a, 0) == Ok::<(ExprView, int), SyntaxError>((abc, i + 5)));
}

} // verus!
