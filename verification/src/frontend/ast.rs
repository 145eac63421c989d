//! Abstract syntax tree produced by the parser.

use vstd::prelude::*;

use crate::common::numeric::Int;
use crate::common::source::Span;

verus! {

/// A parsed Peps program: its top-level statements in source order.
#[derive(Debug, PartialEq)]
pub struct Program {
    /// Top-level statements.
    pub statements: Vec<Stmt>,
    /// Span of the whole program.
    pub span: Span,
}

/// A statement.
#[derive(Debug, PartialEq)]
#[allow(inconsistent_fields)]
pub enum Stmt {
    /// `name 🟰 expr`: declares a variable or updates the nearest visible one.
    Assign { name: String, expr: Expr, span: Span },
    /// `🔐 name 🟰 expr`: declares a read-only binding.
    Const { name: String, expr: Expr, span: Span },
    /// `name 📥 expr`: appends to a list or merges into a map variable.
    Append { name: String, expr: Expr, span: Span },
    /// `📢 expr`: prints a value.
    Print { expr: Expr, span: Span },
    /// `🛑`: leaves the nearest loop.
    Break { span: Span },
    /// `⏭️`: continues with the next iteration of the nearest loop.
    Continue { span: Span },
    /// `🤔 condition 🔓 ... 🔒 [😐 🔓 ... 🔒]`.
    If { condition: Expr, then_branch: Vec<Stmt>, else_branch: Option<Vec<Stmt>>, span: Span },
    /// `🔁 condition 🔓 ... 🔒`.
    While { condition: Expr, body: Vec<Stmt>, span: Span },
    /// `🔁 variable 🧭 source 🔓 ... 🔒`.
    For { variable: String, source: ForSource, body: Vec<Stmt>, span: Span },
    /// `🧩 name 📚 parameters 📚 🔓 ... 🔒`: a top-level function definition.
    Function { name: String, parameters: Vec<String>, body: Vec<Stmt>, span: Span },
    /// `↩️ expr`: returns from the current function.
    Return { expr: Expr, span: Span },
    /// A standalone call whose result is discarded.
    Call { expr: Expr, span: Span },
}

/// What a `for` loop iterates over.
#[derive(Debug, PartialEq)]
pub enum ForSource {
    /// Every item of a list.
    List { expr: Expr, span: Span },
    /// The integers from `start` up to, but excluding, `end`.
    Range { start: Expr, end: Expr, span: Span },
}

/// The value type requested by `⌨️`.
#[derive(Debug, Clone, Copy, PartialEq, Eq)]
pub enum InputKind {
    /// `🔤`: text.
    Text,
    /// `🔢`: an integer.
    Integer,
    /// `🔣`: a float.
    Float,
    /// `☑️`: a boolean.
    Bool,
}

/// The target type of `🔄`.
#[derive(Debug, Clone, Copy, PartialEq, Eq)]
pub enum ConversionKind {
    /// `🔢`: convert text to an integer.
    Integer,
    /// `🔣`: convert text or an integer to a float.
    Float,
}

/// Prefix operators.
#[derive(Debug, Clone, Copy, PartialEq, Eq)]
pub enum UnaryOp {
    /// `➖`: numeric negation.
    Negate,
    /// `🚫`: logical not.
    Not,
    /// `📏`: length of text, a list or a map.
    Len,
}

/// Binary operators.
#[derive(Debug, Clone, Copy, PartialEq, Eq)]
pub enum BinaryOp {
    /// `➕`: addition or text concatenation.
    Add,
    /// `➖`: subtraction.
    Sub,
    /// `✖️`: multiplication.
    Mul,
    /// `➗`: division.
    Div,
    /// `🟰🟰`: equality.
    Eq,
    /// `❌🟰`: inequality.
    NotEq,
    /// `◀️`: less than.
    Lt,
    /// `▶️`: greater than.
    Gt,
    /// `◀️🟰`: less than or equal.
    LtEq,
    /// `▶️🟰`: greater than or equal.
    GtEq,
    /// `🤝`: logical and (short-circuit).
    And,
    /// `🔀`: logical or (short-circuit).
    Or,
    /// `🔎`: list or text index, or map lookup.
    Index,
    /// `📥`: list append or map merge.
    Append,
    /// `🔑`: map key existence.
    Has,
}

/// An expression.
#[derive(Debug, PartialEq)]
#[allow(inconsistent_fields)]
pub enum Expr {
    /// An integer literal.
    Number { value: Int, span: Span },
    /// A float literal as decimal text.
    Float { text: String, span: Span },
    /// A text literal.
    String { value: String, span: Span },
    /// A boolean literal.
    Bool { value: bool, span: Span },
    /// A name: a variable, or an emoji literal when nothing of that name is visible.
    Variable { name: String, span: Span },
    /// A list literal.
    List { elements: Vec<Expr>, span: Span },
    /// A map literal: key-value pairs in source order.
    MapLiteral { entries: Vec<(Expr, Expr)>, span: Span },
    /// A prefix operation.
    Unary { op: UnaryOp, expr: Box<Expr>, span: Span },
    /// A binary operation.
    Binary { left: Box<Expr>, op: BinaryOp, right: Box<Expr>, span: Span },
    /// `📞 name 📚 arguments 📚`.
    Call { name: String, arguments: Vec<Expr>, span: Span },
    /// `⌨️ kind`: reads a typed value.
    Input { kind: InputKind, span: Span },
    /// `🔄 kind expr`: explicit numeric conversion.
    Convert { kind: ConversionKind, expr: Box<Expr>, span: Span },
}

impl InputKind {
    /// The name used in prompts and diagnostics.
    pub open spec fn spec_name(self) -> Seq<char> {
        match self {
            InputKind::Text => "text"@,
            InputKind::Integer => "integer"@,
            InputKind::Float => "float"@,
            InputKind::Bool => "boolean"@,
        }
    }

    /// The name used in prompts and diagnostics.
    pub fn name(&self) -> (r: &'static str)
        ensures
            r@ == self.spec_name(),
    {
        match self {
            InputKind::Text => "text",
            InputKind::Integer => "integer",
            InputKind::Float => "float",
            InputKind::Bool => "boolean",
        }
    }
}

/// The span of an expression.
pub open spec fn expr_span(e: Expr) -> Span {
    match e {
        Expr::Number { span, .. } => span,
        Expr::Float { span, .. } => span,
        Expr::String { span, .. } => span,
        Expr::Bool { span, .. } => span,
        Expr::Variable { span, .. } => span,
        Expr::List { span, .. } => span,
        Expr::MapLiteral { span, .. } => span,
        Expr::Unary { span, .. } => span,
        Expr::Binary { span, .. } => span,
        Expr::Call { span, .. } => span,
        Expr::Input { span, .. } => span,
        Expr::Convert { span, .. } => span,
    }
}

impl Expr {
    /// The span of this expression.
    pub fn span(&self) -> (s: Span)
        ensures
            s == expr_span(*self),
    {
        match self {
            Expr::Number { span, .. } => *span,
            Expr::Float { span, .. } => *span,
            Expr::String { span, .. } => *span,
            Expr::Bool { span, .. } => *span,
            Expr::Variable { span, .. } => *span,
            Expr::List { span, .. } => *span,
            Expr::MapLiteral { span, .. } => *span,
            Expr::Unary { span, .. } => *span,
            Expr::Binary { span, .. } => *span,
            Expr::Call { span, .. } => *span,
            Expr::Input { span, .. } => *span,
            Expr::Convert { span, .. } => *span,
        }
    }
}

// ---------------------------------------------------------------------------
// Views: the same trees with their payloads taken by value
// ---------------------------------------------------------------------------

/// An expression with its payloads taken by value.
pub enum ExprView {
    Number { value: int, span: Span },
    Float { text: Seq<char>, span: Span },
    String { value: Seq<char>, span: Span },
    Bool { value: bool, span: Span },
    Variable { name: Seq<char>, span: Span },
    List { elements: Seq<ExprView>, span: Span },
    MapLiteral { entries: Seq<(ExprView, ExprView)>, span: Span },
    Unary { op: UnaryOp, expr: Box<ExprView>, span: Span },
    Binary { left: Box<ExprView>, op: BinaryOp, right: Box<ExprView>, span: Span },
    Call { name: Seq<char>, arguments: Seq<ExprView>, span: Span },
    Input { kind: InputKind, span: Span },
    Convert { kind: ConversionKind, expr: Box<ExprView>, span: Span },
}

/// The source of a `for` loop with its payloads taken by value.
pub enum ForSourceView {
    List { expr: ExprView, span: Span },
    Range { start: ExprView, end: ExprView, span: Span },
}

/// A statement with its payloads taken by value.
pub enum StmtView {
    Assign { name: Seq<char>, expr: ExprView, span: Span },
    Const { name: Seq<char>, expr: ExprView, span: Span },
    Append { name: Seq<char>, expr: ExprView, span: Span },
    Print { expr: ExprView, span: Span },
    Break { span: Span },
    Continue { span: Span },
    If { condition: ExprView, then_branch: Seq<StmtView>, else_branch: Option<Seq<StmtView>>, span: Span },
    While { condition: ExprView, body: Seq<StmtView>, span: Span },
    For { variable: Seq<char>, source: ForSourceView, body: Seq<StmtView>, span: Span },
    Function { name: Seq<char>, parameters: Seq<Seq<char>>, body: Seq<StmtView>, span: Span },
    Return { expr: ExprView, span: Span },
    Call { expr: ExprView, span: Span },
}

/// The span of an expression view.
pub open spec fn view_span(e: ExprView) -> Span {
    match e {
        ExprView::Number { span, .. } => span,
        ExprView::Float { span, .. } => span,
        ExprView::String { span, .. } => span,
        ExprView::Bool { span, .. } => span,
        ExprView::Variable { span, .. } => span,
        ExprView::List { span, .. } => span,
        ExprView::MapLiteral { span, .. } => span,
        ExprView::Unary { span, .. } => span,
        ExprView::Binary { span, .. } => span,
        ExprView::Call { span, .. } => span,
        ExprView::Input { span, .. } => span,
        ExprView::Convert { span, .. } => span,
    }
}

/// A stand-in expression at `span`, for positions outside a sequence.
pub open spec fn placeholder(span: Span) -> ExprView {
    ExprView::Bool { value: false, span }
}

/// An expression with its payloads taken by value.
pub open spec fn expr_view(e: Expr) -> ExprView
    decreases e,
{
    match e {
        Expr::Number { value, span } => ExprView::Number { value: value@, span },
        Expr::Float { text, span } => ExprView::Float { text: text@, span },
        Expr::String { value, span } => ExprView::String { value: value@, span },
        Expr::Bool { value, span } => ExprView::Bool { value, span },
        Expr::Variable { name, span } => ExprView::Variable { name: name@, span },
        Expr::List { elements, span } => ExprView::List {
            elements: Seq::new(elements@.len(), |k: int| if 0 <= k < elements@.len() { expr_view(elements@[k]) } else { placeholder(span) }),
            span,
        },
        Expr::MapLiteral { entries, span } => ExprView::MapLiteral {
            entries: Seq::new(entries@.len(), |k: int| if 0 <= k < entries@.len() {
                (expr_view(entries@[k].0), expr_view(entries@[k].1))
            } else {
                (placeholder(span), placeholder(span))
            }),
            span,
        },
        Expr::Unary { op, expr, span } => ExprView::Unary { op, expr: Box::new(expr_view(*expr)), span },
        Expr::Binary { left, op, right, span } => ExprView::Binary {
            left: Box::new(expr_view(*left)),
            op,
            right: Box::new(expr_view(*right)),
            span,
        },
        Expr::Call { name, arguments, span } => ExprView::Call {
            name: name@,
            arguments: Seq::new(arguments@.len(), |k: int| if 0 <= k < arguments@.len() { expr_view(arguments@[k]) } else { placeholder(span) }),
            span,
        },
        Expr::Input { kind, span } => ExprView::Input { kind, span },
        Expr::Convert { kind, expr, span } => ExprView::Convert { kind, expr: Box::new(expr_view(*expr)), span },
    }
}

/// A `for` source with its payloads taken by value.
pub open spec fn for_source_view(s: ForSource) -> ForSourceView {
    match s {
        ForSource::List { expr, span } => ForSourceView::List { expr: expr_view(expr), span },
        ForSource::Range { start, end, span } => ForSourceView::Range { start: expr_view(start), end: expr_view(end), span },
    }
}

/// A statement with its payloads taken by value.
pub open spec fn stmt_view(s: Stmt) -> StmtView
    decreases s,
{
    match s {
        Stmt::Assign { name, expr, span } => StmtView::Assign { name: name@, expr: expr_view(expr), span },
        Stmt::Const { name, expr, span } => StmtView::Const { name: name@, expr: expr_view(expr), span },
        Stmt::Append { name, expr, span } => StmtView::Append { name: name@, expr: expr_view(expr), span },
        Stmt::Print { expr, span } => StmtView::Print { expr: expr_view(expr), span },
        Stmt::Break { span } => StmtView::Break { span },
        Stmt::Continue { span } => StmtView::Continue { span },
        Stmt::If { condition, then_branch, else_branch, span } => StmtView::If {
            condition: expr_view(condition),
            then_branch: Seq::new(then_branch@.len(), |k: int| if 0 <= k < then_branch@.len() { stmt_view(then_branch@[k]) } else { StmtView::Break { span } }),
            else_branch: match else_branch {
                Some(b) => Some(Seq::new(b@.len(), |k: int| if 0 <= k < b@.len() { stmt_view(b@[k]) } else { StmtView::Break { span } })),
                None => None,
            },
            span,
        },
        Stmt::While { condition, body, span } => StmtView::While {
            condition: expr_view(condition),
            body: Seq::new(body@.len(), |k: int| if 0 <= k < body@.len() { stmt_view(body@[k]) } else { StmtView::Break { span } }),
            span,
        },
        Stmt::For { variable, source, body, span } => StmtView::For {
            variable: variable@,
            source: for_source_view(source),
            body: Seq::new(body@.len(), |k: int| if 0 <= k < body@.len() { stmt_view(body@[k]) } else { StmtView::Break { span } }),
            span,
        },
        Stmt::Function { name, parameters, body, span } => StmtView::Function {
            name: name@,
            parameters: Seq::new(parameters@.len(), |k: int| parameters@[k]@),
            body: Seq::new(body@.len(), |k: int| if 0 <= k < body@.len() { stmt_view(body@[k]) } else { StmtView::Break { span } }),
            span,
        },
        Stmt::Return { expr, span } => StmtView::Return { expr: expr_view(expr), span },
        Stmt::Call { expr, span } => StmtView::Call { expr: expr_view(expr), span },
    }
}

/// The statements of a block with their payloads taken by value.
pub open spec fn stmts_view(stmts: Seq<Stmt>) -> Seq<StmtView> {
    Seq::new(stmts.len(), |k: int| stmt_view(stmts[k]))
}

} // verus!
