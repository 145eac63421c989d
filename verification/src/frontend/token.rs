//! Token types emitted by the emoji-aware lexer.

use vstd::prelude::*;

use crate::common::numeric::Int;
use crate::common::source::Span;

verus! {

/// A lexical token with its location in the source.
#[derive(Debug, Clone, PartialEq)]
pub struct Token {
    /// The token category and any literal payload.
    pub kind: TokenKind,
    /// Source span covered by this token.
    pub span: Span,
}

/// Token categories recognized by the Peps lexer.
#[derive(Debug, Clone, PartialEq)]
pub enum TokenKind {
    /// One user-visible identifier: an emoji, or a run of ASCII word characters.
    Identifier(String),
    /// Integer literal written with keycap digits.
    Number(Int),
    /// Floating-point literal, as ASCII decimal text such as `12.34`.
    Float(String),
    /// Text literal.
    StringLiteral(String),
    /// Boolean literal.
    Bool(bool),
    /// Print statement keyword `📢`.
    Print,
    /// If statement keyword `🤔`.
    If,
    /// Else branch keyword `😐`.
    Else,
    /// Loop keyword `🔁`.
    While,
    /// Break statement keyword `🛑`.
    Break,
    /// Continue statement keyword `⏭️`.
    Continue,
    /// For-each membership keyword `🧭`.
    In,
    /// Numeric range keyword `🔢`, also the integer type marker.
    Range,
    /// Logical and operator `🤝`.
    And,
    /// Logical or operator `🔀`.
    Or,
    /// Logical not operator `🚫`.
    Not,
    /// Length operator `📏`.
    ListLen,
    /// Index and lookup operator `🔎`.
    ListIndex,
    /// Append and merge operator `📥`.
    ListAppend,
    /// Function definition keyword `🧩`.
    Function,
    /// Function call keyword `📞`.
    Call,
    /// Return keyword `↩️`.
    Return,
    /// Typed input keyword `⌨️`.
    Input,
    /// Text type marker `🔤`.
    TextType,
    /// Float type marker `🔣`.
    FloatType,
    /// Boolean type marker `☑️`.
    BoolType,
    /// Explicit conversion keyword `🔄`.
    Convert,
    /// Constant declaration keyword `🔐`.
    Const,
    /// Map literal delimiter `🗺️`.
    MapDelimiter,
    /// Map key existence operator `🔑`.
    MapHas,
    /// Assignment operator `🟰`.
    Assign,
    /// Addition operator `➕`.
    Plus,
    /// Subtraction or numeric negation operator `➖`.
    Minus,
    /// Multiplication operator `✖️`.
    Star,
    /// Division operator `➗`.
    Slash,
    /// Equality comparison operator `🟰🟰`.
    Eq,
    /// Inequality comparison operator `❌🟰`.
    NotEq,
    /// Less-than comparison operator `◀️`.
    Lt,
    /// Greater-than comparison operator `▶️`.
    Gt,
    /// Less-than-or-equal comparison operator `◀️🟰`.
    LtEq,
    /// Greater-than-or-equal comparison operator `▶️🟰`.
    GtEq,
    /// Range end and map entry arrow `➡️`.
    Arrow,
    /// Block opening delimiter `🔓`.
    BlockStart,
    /// Block closing delimiter `🔒`.
    BlockEnd,
    /// Statement separator, produced from `🔚` or a newline.
    StatementEnd,
    /// List delimiter `📚`.
    ListDelimiter,
    /// End-of-file marker appended by the lexer.
    Eof,
}

/// The mathematical content of a token kind: payloads by their values.
pub enum KindView {
    /// An identifier with its characters.
    Ident(Seq<char>),
    /// An integer literal with its value.
    Num(int),
    /// A float literal with its decimal text.
    Flt(Seq<char>),
    /// A text literal with its characters.
    Text(Seq<char>),
    /// Any kind without a text or number payload.
    Other(TokenKind),
}

impl TokenKind {
    /// The kind with its payload taken by value.
    pub open spec fn view(&self) -> KindView {
        match self {
            TokenKind::Identifier(s) => KindView::Ident(s@),
            TokenKind::Number(n) => KindView::Num(n@),
            TokenKind::Float(t) => KindView::Flt(t@),
            TokenKind::StringLiteral(s) => KindView::Text(s@),
            _ => KindView::Other(*self),
        }
    }

    /// Whether the kind carries no text or number payload.
    pub open spec fn is_plain(&self) -> bool {
        !(self is Identifier || self is Number || self is Float || self is StringLiteral)
    }

    /// A copy of this kind.
    pub fn duplicate(&self) -> (r: TokenKind)
        ensures
            r.view() == self.view(),
    {
        match self {
            TokenKind::Identifier(s) => TokenKind::Identifier(s.clone()),
            TokenKind::Number(n) => TokenKind::Number(n.duplicate()),
            TokenKind::Float(t) => TokenKind::Float(t.clone()),
            TokenKind::StringLiteral(s) => TokenKind::StringLiteral(s.clone()),
            TokenKind::Bool(b) => TokenKind::Bool(*b),
            TokenKind::Print => TokenKind::Print,
            TokenKind::If => TokenKind::If,
            TokenKind::Else => TokenKind::Else,
            TokenKind::While => TokenKind::While,
            TokenKind::Break => TokenKind::Break,
            TokenKind::Continue => TokenKind::Continue,
            TokenKind::In => TokenKind::In,
            TokenKind::Range => TokenKind::Range,
            TokenKind::And => TokenKind::And,
            TokenKind::Or => TokenKind::Or,
            TokenKind::Not => TokenKind::Not,
            TokenKind::ListLen => TokenKind::ListLen,
            TokenKind::ListIndex => TokenKind::ListIndex,
            TokenKind::ListAppend => TokenKind::ListAppend,
            TokenKind::Function => TokenKind::Function,
            TokenKind::Call => TokenKind::Call,
            TokenKind::Return => TokenKind::Return,
            TokenKind::Input => TokenKind::Input,
            TokenKind::TextType => TokenKind::TextType,
            TokenKind::FloatType => TokenKind::FloatType,
            TokenKind::BoolType => TokenKind::BoolType,
            TokenKind::Convert => TokenKind::Convert,
            TokenKind::Const => TokenKind::Const,
            TokenKind::MapDelimiter => TokenKind::MapDelimiter,
            TokenKind::MapHas => TokenKind::MapHas,
            TokenKind::Assign => TokenKind::Assign,
            TokenKind::Plus => TokenKind::Plus,
            TokenKind::Minus => TokenKind::Minus,
            TokenKind::Star => TokenKind::Star,
            TokenKind::Slash => TokenKind::Slash,
            TokenKind::Eq => TokenKind::Eq,
            TokenKind::NotEq => TokenKind::NotEq,
            TokenKind::Lt => TokenKind::Lt,
            TokenKind::Gt => TokenKind::Gt,
            TokenKind::LtEq => TokenKind::LtEq,
            TokenKind::GtEq => TokenKind::GtEq,
            TokenKind::Arrow => TokenKind::Arrow,
            TokenKind::BlockStart => TokenKind::BlockStart,
            TokenKind::BlockEnd => TokenKind::BlockEnd,
            TokenKind::StatementEnd => TokenKind::StatementEnd,
            TokenKind::ListDelimiter => TokenKind::ListDelimiter,
            TokenKind::Eof => TokenKind::Eof,
        }
    }
}

/// The mathematical content of a token.
pub struct TokenView {
    /// The kind with payloads by value.
    pub kind: KindView,
    /// Source span.
    pub span: Span,
}

impl Token {
    /// Create a token from its kind and source span.
    pub fn new(kind: TokenKind, span: Span) -> (t: Token)
        ensures
            t.kind == kind,
            t.span == span,
    {
        Token { kind, span }
    }

    /// The token with its payload taken by value.
    pub open spec fn view(&self) -> TokenView {
        TokenView { kind: self.kind.view(), span: self.span }
    }
}

} // verus!
