//! The diagnostics the checker reports, stated as functions.
//!
//! Each function gives the diagnostics (message and span) that checking a
//! piece of a program adds, in the order the checker reports them. Types come
//! from the static rules in [`crate::middle_end::typing`]: where an operand has
//! no type, its own diagnostics stand and nothing more is said of the whole.

use vstd::prelude::*;

use crate::common::source::Span;
use crate::common::text::decimal;
use crate::frontend::ast::{expr_span, BinaryOp, ConversionKind, Expr, ForSource, Stmt, UnaryOp};
use crate::middle_end::semantic::{binary_message, op_text, stmts_return};
use crate::middle_end::types::Type;
use crate::middle_end::typing::{
    agreed_type, arity_from, assigned_type, block_check, collected_functions, element_type, env_lookup, expr_type,
    for_source_type, function_listed, list_type, numeric_type, parameter_bindings, program_env, pushed, raw_type,
    repeated_parameter, stmt_check, top_functions, top_statements, value_type, with_local, Env,
};

verus! {

/// A diagnostic by value: its message and its span.
pub type Report = (Seq<char>, Option<Span>);

/// The diagnostic `message` at `span`.
pub open spec fn at(message: Seq<char>, span: Span) -> Report {
    (message, Some(span))
}

/// One diagnostic.
pub open spec fn one(message: Seq<char>, span: Span) -> Seq<Report> {
    seq![at(message, span)]
}

/// No diagnostic.
pub open spec fn none() -> Seq<Report> {
    Seq::empty()
}

/// The message for a raw text literal where it is not allowed.
pub open spec fn raw_text_message() -> Seq<char> {
    "Raw string literals can only be assigned to variables in Peps v0."@
}

// ---------------------------------------------------------------------------
// Expressions
// ---------------------------------------------------------------------------

/// The diagnostics of an expression under the ordinary rules.
pub open spec fn expr_reports(env: Env, e: Expr) -> Seq<Report>
    decreases e, 3int, 0int,
{
    match e {
        Expr::String { span, .. } => one(raw_text_message(), span),
        Expr::List { .. } => list_reports(env, e, false, false),
        Expr::MapLiteral { .. } => map_reports(env, e),
        Expr::Call { name, arguments, span } => args_reports(env, arguments@, 0) + match arity_from(env.functions, name@, 0) {
            None => one("function "@ + name@ + " is not defined"@, span),
            Some(a) => if a != arguments@.len() {
                one(
                    "function "@ + name@ + " expects "@ + decimal(a) + " arguments but received "@ + decimal(arguments@.len()),
                    span,
                )
            } else {
                none()
            },
        },
        Expr::Unary { .. } => unary_reports(env, e, false),
        Expr::Binary { .. } => binary_reports(env, e),
        Expr::Convert { kind, expr, span } => raw_reports(env, *expr) + match raw_type(env, *expr).0 {
            None => none(),
            Some(ty) => match kind {
                ConversionKind::Integer => if ty is Str || ty is Unknown {
                    none()
                } else {
                    one("integer conversion requires text"@, span)
                },
                ConversionKind::Float => if ty is Str || ty is Num || ty is Unknown {
                    none()
                } else {
                    one("float conversion requires text or an integer"@, span)
                },
            },
        },
        _ => none(),
    }
}

/// The diagnostics of the call arguments from index `k` on.
pub open spec fn args_reports(env: Env, args: Seq<Expr>, k: int) -> Seq<Report>
    decreases args, 1int, args.len() - k,
{
    if k < 0 || k >= args.len() {
        none()
    } else {
        expr_reports(env, args[k]) + args_reports(env, args, k + 1)
    }
}

/// The diagnostics of an expression where raw text literals are allowed.
pub open spec fn raw_reports(env: Env, e: Expr) -> Seq<Report>
    decreases e, 4int, 0int,
{
    match e {
        Expr::String { .. } => none(),
        Expr::List { .. } => list_reports(env, e, true, false),
        Expr::Unary { .. } => unary_reports(env, e, true),
        _ => expr_reports(env, e),
    }
}

/// The diagnostics of a prefix operation.
pub open spec fn unary_reports(env: Env, e: Expr, raw: bool) -> Seq<Report>
    decreases e, 2int, 0int,
{
    match e {
        Expr::Unary { op, expr, span } => {
            let wide = raw || op is Len;
            let operand = if wide { raw_reports(env, *expr) } else { expr_reports(env, *expr) };
            let ty = if wide { raw_type(env, *expr).0 } else { expr_type(env, *expr).0 };
            operand + match ty {
                None => none(),
                Some(t) => match op {
                    UnaryOp::Negate => if numeric_type(t) {
                        none()
                    } else {
                        one("numeric negation requires a numeric operand"@, span)
                    },
                    UnaryOp::Not => if t is Bool || t is Unknown {
                        none()
                    } else {
                        one("logical not requires a bool operand"@, span)
                    },
                    UnaryOp::Len => if t is List || t is TextMap || t is Str || t is Unknown {
                        none()
                    } else {
                        one("list length requires text, a list, or a map operand"@, span)
                    },
                },
            }
        },
        _ => none(),
    }
}

/// The diagnostics of an operand, raw text literals allowed when `raw`.
pub open spec fn operand_reports(env: Env, e: Expr, raw: bool) -> Seq<Report>
    decreases e, 5int, 0int,
{
    if raw { raw_reports(env, e) } else { expr_reports(env, e) }
}

/// The type of an operand, raw text literals allowed when `raw`.
pub open spec fn operand_type(env: Env, e: Expr, raw: bool) -> Option<Type> {
    if raw { raw_type(env, e).0 } else { expr_type(env, e).0 }
}

/// The diagnostics of a binary operation.
pub open spec fn binary_reports(env: Env, e: Expr) -> Seq<Report>
    decreases e, 2int, 0int,
{
    match e {
        Expr::Binary { left, op, right, span } => match op {
            BinaryOp::Append => expr_reports(env, *left) + match expr_type(env, *left).0 {
                None => none(),
                Some(Type::Unknown) => expr_reports(env, *right),
                Some(Type::List(element)) => append_rhs_reports(env, *right, *element, span),
                Some(Type::TextMap(value)) => merge_rhs_reports(env, *right, *value, span),
                Some(_) => one("list append requires a list value on the left"@, span),
            },
            _ => {
                let raw_left = op is Index || op is Add;
                let raw_right = op is Index || op is Add || op is Has;
                operand_reports(env, *left, raw_left) + match operand_type(env, *left, raw_left) {
                    None => none(),
                    Some(l) => operand_reports(env, *right, raw_right) + match operand_type(env, *right, raw_right) {
                        None => none(),
                        Some(r) => match binary_message(op, l, r) {
                            Some(m) => one(m, span),
                            None => none(),
                        },
                    },
                }
            },
        },
        _ => none(),
    }
}

/// The diagnostics of the right-hand side of `📥` on a list of `expected` elements.
pub open spec fn append_rhs_reports(env: Env, e: Expr, expected: Type, span: Span) -> Seq<Report>
    decreases e, 4int, 1int,
{
    let text_into_text = expected is Str && e is String;
    let list_into_text = expected is Str && e is List;
    let reports = if text_into_text {
        none()
    } else if list_into_text {
        list_reports(env, e, true, true)
    } else {
        expr_reports(env, e)
    };
    let right = if text_into_text {
        Some(Type::Str)
    } else if list_into_text {
        list_type(env, e, true, true).0
    } else {
        expr_type(env, e).0
    };
    reports + match right {
        None => none(),
        Some(ty) => if expected is Unknown || ty is Unknown || ty == expected || ty == Type::List(Box::new(expected)) {
            none()
        } else {
            one("list append requires a value or list matching the list element type"@, span)
        },
    }
}

/// The diagnostics of the right-hand side of `📥` on a map of `value` values.
pub open spec fn merge_rhs_reports(env: Env, e: Expr, value: Type, span: Span) -> Seq<Report>
    decreases e, 4int, 1int,
{
    expr_reports(env, e) + match expr_type(env, e).0 {
        None => none(),
        Some(ty) => {
            let compatible = match ty {
                Type::Unknown => true,
                Type::TextMap(inner) => value is Unknown || *inner is Unknown || *inner == value,
                _ => false,
            };
            if compatible {
                none()
            } else {
                one("map merge requires a map with the same value type"@, span)
            }
        },
    }
}

/// The diagnostics of a list literal.
pub open spec fn list_reports(env: Env, e: Expr, raw: bool, emoji: bool) -> Seq<Report>
    decreases e, 2int, 0int,
{
    match e {
        Expr::List { elements, span } => if elements@.len() == 0 {
            one("empty lists are not supported in Peps v0 because their element type cannot be inferred"@, span)
        } else {
            elements_reports(env, elements@, 0, None, raw, emoji)
        },
        _ => none(),
    }
}

/// The diagnostics of one list element (before its type is compared).
pub open spec fn element_reports(env: Env, element: Expr, raw: bool, emoji: bool) -> Seq<Report>
    decreases element, 3int, 1int,
{
    match element {
        Expr::String { span, .. } => if raw { none() } else { one(raw_text_message(), span) },
        Expr::Variable { name, .. } => if emoji && env_lookup(env, name@) is None {
            none()
        } else {
            expr_reports(env, element)
        },
        _ => expr_reports(env, element),
    }
}

/// The diagnostics of the list elements from index `k` on, given the element
/// type agreed so far; checking stops at the first element that fails.
pub open spec fn elements_reports(env: Env, es: Seq<Expr>, k: int, agreed: Option<Type>, raw: bool, emoji: bool) -> Seq<Report>
    decreases es, 1int, es.len() - k,
{
    if k < 0 || k >= es.len() {
        none()
    } else {
        match es[k] {
            Expr::List { span, .. } => one("nested lists are not supported in Peps v0"@, span),
            _ => {
                let reports = element_reports(env, es[k], raw, emoji);
                reports + match element_type(env, es[k], raw, emoji).0 {
                    None => none(),
                    Some(t) => match agreed_type(agreed, t) {
                        None => one("list elements must all have the same type"@, expr_span(es[k])),
                        Some(a) => elements_reports(env, es, k + 1, Some(a), raw, emoji),
                    },
                }
            },
        }
    }
}

/// The diagnostics of a map literal.
pub open spec fn map_reports(env: Env, e: Expr) -> Seq<Report>
    decreases e, 2int, 0int,
{
    match e {
        Expr::MapLiteral { entries, span } => if entries@.len() == 0 {
            one("empty maps are not supported in Peps v0 because their value type cannot be inferred"@, span)
        } else {
            entries_reports(env, entries@, 0, None)
        },
        _ => none(),
    }
}

/// The diagnostics of a map value (before its type is compared).
pub open spec fn value_reports(env: Env, value: Expr) -> Seq<Report>
    decreases value, 4int, 2int,
{
    match value {
        Expr::String { .. } => none(),
        Expr::Variable { .. } => none(),
        _ => raw_reports(env, value),
    }
}

/// The diagnostics of the map entries from index `k` on, given the value type
/// agreed so far; checking stops at the first entry that fails.
pub open spec fn entries_reports(env: Env, entries: Seq<(Expr, Expr)>, k: int, agreed: Option<Type>) -> Seq<Report>
    decreases entries, 1int, entries.len() - k,
{
    if k < 0 || k >= entries.len() {
        none()
    } else {
        let key = entries[k].0;
        let value = entries[k].1;
        raw_reports(env, key) + match raw_type(env, key).0 {
            None => none(),
            Some(kt) => if !(kt is Str || kt is Unknown) {
                one("map keys must be text"@, expr_span(key))
            } else {
                value_reports(env, value) + match value_type(env, value).0 {
                    None => none(),
                    Some(t) => match agreed_type(agreed, t) {
                        None => one("map values must all have the same type"@, expr_span(value)),
                        Some(a) => entries_reports(env, entries, k + 1, Some(a)),
                    },
                }
            },
        }
    }
}

/// The diagnostics of the right-hand side of an assignment or constant.
pub open spec fn assigned_reports(env: Env, e: Expr) -> Seq<Report> {
    match e {
        Expr::String { .. } => none(),
        Expr::Variable { .. } => none(),
        Expr::List { .. } => list_reports(env, e, true, true),
        _ => expr_reports(env, e),
    }
}

// ---------------------------------------------------------------------------
// Statements
// ---------------------------------------------------------------------------

/// The diagnostics of a condition of an `if` or a `while` (`kind` names it).
pub open spec fn condition_reports(env: Env, condition: Expr, kind: Seq<char>, span: Span) -> Seq<Report> {
    expr_reports(env, condition) + match expr_type(env, condition).0 {
        Some(t) => if t is Bool || t is Unknown { none() } else { one(kind + " condition must be bool"@ + ""@, span) },
        None => none(),
    }
}

/// The diagnostics of the source of a `for` loop.
pub open spec fn source_reports(env: Env, source: ForSource) -> Seq<Report> {
    match source {
        ForSource::List { expr, span } => expr_reports(env, expr) + match expr_type(env, expr).0 {
            Some(Type::List(_)) => none(),
            Some(Type::Unknown) => none(),
            Some(_) => one("for-each source must be a list"@, span),
            None => none(),
        },
        ForSource::Range { start, end, span } => {
            let s = expr_type(env, start).0;
            let e = expr_type(env, end).0;
            expr_reports(env, start) + expr_reports(env, end) + if (s == Some(Type::Num) || s == Some(Type::Unknown))
                && (e == Some(Type::Num) || e == Some(Type::Unknown)) {
                none()
            } else {
                one("range bounds must be integers"@, span)
            }
        },
    }
}

/// The diagnostics of `name 📥 expr`.
pub open spec fn append_reports(env: Env, name: Seq<char>, expr: Expr, span: Span) -> Seq<Report> {
    match env_lookup(env, name) {
        None => one("list append target "@ + name + " is not declared"@, span),
        Some((target, constant)) => if constant {
            one("constant "@ + name + " cannot be updated with 📥"@, span)
        } else {
            match target {
                Type::Unknown => expr_reports(env, expr),
                Type::List(element) => append_rhs_reports(env, expr, *element, span),
                Type::TextMap(value) => merge_rhs_reports(env, expr, *value, span),
                _ => one("list append requires a list variable on the left"@, span),
            }
        },
    }
}

/// The diagnostics of a statement checked in `env`.
pub open spec fn stmt_reports(env: Env, s: Stmt, in_loop: bool) -> Seq<Report>
    decreases s, 0int, 0int,
{
    match s {
        Stmt::Assign { name, expr, span } => assigned_reports(env, expr) + match assigned_type(env, expr).0 {
            None => none(),
            Some(_) => match env_lookup(env, name@) {
                Some((_, constant)) => if constant {
                    one("constant "@ + name@ + " cannot be reassigned"@, span)
                } else {
                    none()
                },
                None => none(),
            },
        },
        Stmt::Const { name, expr, span } => assigned_reports(env, expr) + match assigned_type(env, expr).0 {
            None => none(),
            Some(_) => if env_lookup(env, name@) is Some {
                one("constant "@ + name@ + " cannot reuse a visible name"@, span)
            } else {
                none()
            },
        },
        Stmt::Append { name, expr, span } => append_reports(env, name@, expr, span),
        Stmt::Print { expr, .. } => expr_reports(env, expr),
        Stmt::Return { expr, .. } => expr_reports(env, expr),
        Stmt::Call { expr, .. } => expr_reports(env, expr),
        Stmt::Break { span } => if in_loop { none() } else { one("break can only be used inside loops"@, span) },
        Stmt::Continue { span } => if in_loop { none() } else { one("continue can only be used inside loops"@, span) },
        Stmt::Function { span, .. } => one("function definitions are only allowed at the top level"@, span),
        Stmt::If { condition, then_branch, else_branch, span } => {
            let first = condition_reports(env, condition, "if"@, span) + block_reports(env, then_branch@, in_loop);
            match else_branch {
                Some(b) => first + block_reports(block_check(env, then_branch@, in_loop).0, b@, in_loop),
                None => first,
            }
        },
        Stmt::While { condition, body, span } => condition_reports(env, condition, "while"@, span)
            + block_reports(env, body@, true),
        Stmt::For { variable, source, body, span } => {
            let available = env_lookup(env, variable@) is None;
            let taken = if available { none() } else { one("loop variable "@ + variable@ + " is already declared"@, span) };
            taken + source_reports(env, source) + match for_source_type(env, source).0 {
                Some(t) => if available {
                    stmts_reports(with_local(pushed(env), variable@, t, false), body@, 0, true)
                } else {
                    none()
                },
                None => none(),
            }
        },
    }
}

/// The diagnostics of a block checked in its own scope.
pub open spec fn block_reports(env: Env, stmts: Seq<Stmt>, in_loop: bool) -> Seq<Report>
    decreases stmts, 1int, 0int,
{
    stmts_reports(pushed(env), stmts, 0, in_loop)
}

/// The diagnostics of the statements from index `k` on, each checked in the
/// environment the ones before it leave.
pub open spec fn stmts_reports(env: Env, stmts: Seq<Stmt>, k: int, in_loop: bool) -> Seq<Report>
    decreases stmts, 0int, stmts.len() - k,
{
    if k < 0 || k >= stmts.len() {
        none()
    } else {
        stmt_reports(env, stmts[k], in_loop) + stmts_reports(stmt_check(env, stmts[k], in_loop).0, stmts, k + 1, in_loop)
    }
}

// ---------------------------------------------------------------------------
// Functions and programs
// ---------------------------------------------------------------------------

/// The diagnostics of the first `n` parameters of the function `name`.
pub open spec fn parameter_reports(symbols: Map<Seq<char>, Type>, name: Seq<char>, parameters: Seq<String>, n: int, span: Span) -> Seq<Report>
    decreases n,
{
    if n <= 0 || n > parameters.len() {
        none()
    } else {
        let p = parameters[n - 1]@;
        parameter_reports(symbols, name, parameters, n - 1, span) + if repeated_parameter(parameters, n - 1) {
            one("function "@ + name + " has duplicate parameter "@ + p, span)
        } else if symbols.contains_key(p) {
            one("parameter "@ + p + " conflicts with a top-level variable"@, span)
        } else {
            none()
        }
    }
}

/// The diagnostics of the function `name` checked in `env`.
pub open spec fn function_reports(env: Env, name: Seq<char>, parameters: Seq<String>, body: Seq<Stmt>, span: Span) -> Seq<Report> {
    let start = Env {
        symbols: env.symbols,
        constants: env.constants,
        scopes: seq![parameter_bindings(env.symbols, parameters, parameters.len() as int)],
        functions: env.functions,
    };
    parameter_reports(env.symbols, name, parameters, parameters.len() as int, span) + stmts_reports(start, body, 0, false)
        + if stmts_return(body) {
        none()
    } else {
        one("function "@ + name + " does not return a value on every path"@, span)
    }
}

/// The diagnostics of defining the functions among the first `n` statements:
/// one for each name defined again.
pub open spec fn collection_reports(stmts: Seq<Stmt>, n: int) -> Seq<Report>
    decreases n,
{
    if n <= 0 || n > stmts.len() {
        none()
    } else {
        collection_reports(stmts, n - 1) + match stmts[n - 1] {
            Stmt::Function { name, span, .. } => if function_listed(collected_functions(stmts, n - 1).0, name@) {
                one("function "@ + name@ + " is already defined"@, span)
            } else {
                none()
            },
            _ => none(),
        }
    }
}

/// The diagnostics of the first `n` top-level statements that are not
/// function definitions.
pub open spec fn top_statement_reports(env: Env, stmts: Seq<Stmt>, n: int) -> Seq<Report>
    decreases n,
{
    if n <= 0 || n > stmts.len() {
        none()
    } else {
        top_statement_reports(env, stmts, n - 1) + match stmts[n - 1] {
            Stmt::Function { .. } => none(),
            s => stmt_reports(top_statements(env, stmts, n - 1).0, s, false),
        }
    }
}

/// The diagnostics of the functions among the first `n` statements.
pub open spec fn top_function_reports(env: Env, stmts: Seq<Stmt>, n: int) -> Seq<Report>
    decreases n,
{
    if n <= 0 || n > stmts.len() {
        none()
    } else {
        top_function_reports(env, stmts, n - 1) + match stmts[n - 1] {
            Stmt::Function { name, parameters, body, span } => function_reports(
                top_functions(env, stmts, n - 1).0,
                name@,
                parameters@,
                body@,
                span,
            ),
            _ => none(),
        }
    }
}

/// The diagnostics of a program, in the order the checker reports them:
/// functions defined twice, then the top-level statements, then the
/// function bodies.
pub open spec fn program_reports(stmts: Seq<Stmt>) -> Seq<Report> {
    let n = stmts.len() as int;
    let after_statements = top_statements(program_env(stmts), stmts, n).0;
    collection_reports(stmts, n) + top_statement_reports(program_env(stmts), stmts, n)
        + top_function_reports(after_statements, stmts, n)
}

} // verus!
