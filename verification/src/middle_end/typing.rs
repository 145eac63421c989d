//! The static rules of Peps, stated as functions.
//!
//! An [`Env`] holds what the checker knows at a point of the program: the
//! top-level names with their types, which of them are constants, the
//! block-local bindings innermost last, and the functions with their arities.
//! Each typing function gives the type an expression has there (or none) and
//! whether the expression is free of errors. The statement functions give the
//! environment after a statement and whether it is free of errors, and
//! [`program_accepted`] says which programs the checker accepts.

use vstd::prelude::*;

use crate::frontend::ast::{BinaryOp, ConversionKind, Expr, ForSource, InputKind, Stmt, UnaryOp};
use crate::middle_end::semantic::stmts_return;
use crate::middle_end::types::Type;

verus! {

/// What the checker knows at a point of the program.
pub struct Env {
    /// Top-level variables and constants with their types.
    pub symbols: Map<Seq<char>, Type>,
    /// Names of top-level constants.
    pub constants: Seq<Seq<char>>,
    /// Block-local bindings (name, type, constant), innermost scope last.
    pub scopes: Seq<Seq<(Seq<char>, Type, bool)>>,
    /// Function names and arities, in source order.
    pub functions: Seq<(Seq<char>, nat)>,
}

// ---------------------------------------------------------------------------
// Names
// ---------------------------------------------------------------------------

/// The first index at or after `from` of a binding called `name`.
pub open spec fn binding_position(scope: Seq<(Seq<char>, Type, bool)>, name: Seq<char>, from: int) -> Option<int>
    decreases scope.len() - from,
{
    if from < 0 || from >= scope.len() {
        None
    } else if scope[from].0 == name {
        Some(from)
    } else {
        binding_position(scope, name, from + 1)
    }
}

/// The type and constness of the innermost local binding called `name`.
pub open spec fn scopes_lookup(scopes: Seq<Seq<(Seq<char>, Type, bool)>>, name: Seq<char>) -> Option<(Type, bool)>
    decreases scopes.len(),
{
    if scopes.len() == 0 {
        None
    } else {
        match binding_position(scopes.last(), name, 0) {
            Some(i) => Some((scopes.last()[i].1, scopes.last()[i].2)),
            None => scopes_lookup(scopes.drop_last(), name),
        }
    }
}

/// The type and constness of the visible binding called `name`: local
/// scopes first, then the top level.
pub open spec fn env_lookup(env: Env, name: Seq<char>) -> Option<(Type, bool)> {
    match scopes_lookup(env.scopes, name) {
        Some(found) => Some(found),
        None => if env.symbols.contains_key(name) {
            Some((env.symbols[name], env.constants.contains(name)))
        } else {
            None
        },
    }
}

/// The arity of the first function at or after `from` called `name`.
pub open spec fn arity_from(functions: Seq<(Seq<char>, nat)>, name: Seq<char>, from: int) -> Option<nat>
    decreases functions.len() - from,
{
    if from < 0 || from >= functions.len() {
        None
    } else if functions[from].0 == name {
        Some(functions[from].1)
    } else {
        arity_from(functions, name, from + 1)
    }
}

/// The type of a name: its binding's, or an emoji literal when none is visible.
pub open spec fn name_type(env: Env, name: Seq<char>) -> Type {
    match env_lookup(env, name) {
        Some(found) => found.0,
        None => Type::Emoji,
    }
}

// ---------------------------------------------------------------------------
// Expressions
// ---------------------------------------------------------------------------

/// The type of an input read.
pub open spec fn input_type(kind: InputKind) -> Type {
    match kind {
        InputKind::Text => Type::Str,
        InputKind::Integer => Type::Num,
        InputKind::Float => Type::Float,
        InputKind::Bool => Type::Bool,
    }
}

/// Whether a type can take part in numeric operations.
pub open spec fn numeric_type(ty: Type) -> bool {
    ty is Num || ty is Float || ty is Unknown
}

/// The type of an expression under the ordinary rules (a raw text literal is
/// an error here), and whether it is free of errors.
pub open spec fn expr_type(env: Env, e: Expr) -> (Option<Type>, bool)
    decreases e, 3int, 0int,
{
    match e {
        Expr::Number { .. } => (Some(Type::Num), true),
        Expr::Float { .. } => (Some(Type::Float), true),
        Expr::String { .. } => (None, false),
        Expr::Bool { .. } => (Some(Type::Bool), true),
        Expr::Variable { name, .. } => (Some(name_type(env, name@)), true),
        Expr::List { .. } => list_type(env, e, false, false),
        Expr::MapLiteral { .. } => map_type(env, e),
        Expr::Call { name, arguments, .. } => match arity_from(env.functions, name@, 0) {
            Some(arity) => if arity == arguments@.len() {
                (Some(Type::Unknown), arguments_clean(env, arguments@, 0))
            } else {
                (None, false)
            },
            None => (None, false),
        },
        Expr::Unary { .. } => unary_type(env, e, false),
        Expr::Binary { .. } => binary_type(env, e),
        Expr::Input { kind, .. } => (Some(input_type(kind)), true),
        Expr::Convert { kind, expr, .. } => {
            let (operand, clean) = raw_type(env, *expr);
            match operand {
                Some(ty) => match kind {
                    ConversionKind::Integer => if ty is Str || ty is Unknown {
                        (Some(Type::Num), clean)
                    } else {
                        (None, false)
                    },
                    ConversionKind::Float => if ty is Str || ty is Num || ty is Unknown {
                        (Some(Type::Float), clean)
                    } else {
                        (None, false)
                    },
                },
                None => (None, false),
            }
        },
    }
}

/// Whether the call arguments from index `k` on are free of errors.
pub open spec fn arguments_clean(env: Env, arguments: Seq<Expr>, k: int) -> bool
    decreases arguments, 1int, arguments.len() - k,
{
    if k < 0 || k >= arguments.len() {
        true
    } else {
        expr_type(env, arguments[k]).1 && arguments_clean(env, arguments, k + 1)
    }
}

/// The type of an expression where raw text literals are allowed.
pub open spec fn raw_type(env: Env, e: Expr) -> (Option<Type>, bool)
    decreases e, 4int, 0int,
{
    match e {
        Expr::String { .. } => (Some(Type::Str), true),
        Expr::List { .. } => list_type(env, e, true, false),
        Expr::Unary { .. } => unary_type(env, e, true),
        _ => expr_type(env, e),
    }
}

/// The type of a prefix operation; `raw` allows raw text literals in the
/// operand of `-` and `!`.
pub open spec fn unary_type(env: Env, e: Expr, raw: bool) -> (Option<Type>, bool)
    decreases e, 2int, 0int,
{
    match e {
        Expr::Unary { op, expr, .. } => {
            let (operand, clean) = if raw || op is Len {
                raw_type(env, *expr)
            } else {
                expr_type(env, *expr)
            };
            match operand {
                Some(ty) => match op {
                    UnaryOp::Negate => if numeric_type(ty) {
                        (Some(ty), clean)
                    } else {
                        (None, false)
                    },
                    UnaryOp::Not => if ty is Bool || ty is Unknown {
                        (Some(Type::Bool), clean)
                    } else {
                        (None, false)
                    },
                    UnaryOp::Len => if ty is List || ty is TextMap || ty is Str || ty is Unknown {
                        (Some(Type::Num), clean)
                    } else {
                        (None, false)
                    },
                },
                None => (None, false),
            }
        },
        _ => (None, true),
    }
}

/// The type that indexing a value of type `left` with one of type `right` gives.
pub open spec fn index_type(left: Type, right: Type) -> Option<Type> {
    match (left, right) {
        (Type::List(element), Type::Num) => Some(*element),
        (Type::List(element), Type::Unknown) => Some(*element),
        (Type::TextMap(value), Type::Str) => Some(*value),
        (Type::TextMap(value), Type::Unknown) => Some(*value),
        (Type::Str, Type::Num) => Some(Type::Str),
        (Type::Str, Type::Unknown) => Some(Type::Str),
        (Type::Unknown, Type::Num) => Some(Type::Unknown),
        (Type::Unknown, Type::Str) => Some(Type::Unknown),
        (Type::Unknown, Type::Unknown) => Some(Type::Unknown),
        _ => None,
    }
}

/// The type of `+ - * /` on operands of types `left` and `right`.
pub open spec fn arithmetic_type(op: BinaryOp, left: Type, right: Type) -> Option<Type> {
    if left is Unknown || right is Unknown {
        Some(Type::Unknown)
    } else if numeric_type(left) && numeric_type(right) {
        if left is Float || right is Float {
            Some(Type::Float)
        } else {
            Some(Type::Num)
        }
    } else if op is Add && left is Str && right is Str {
        Some(Type::Str)
    } else {
        None
    }
}

/// Whether operands of types `left` and `right` can be compared with `==`.
pub open spec fn comparable(left: Type, right: Type) -> bool {
    if left is Unknown || right is Unknown {
        true
    } else if left is List || right is List || left is TextMap || right is TextMap {
        false
    } else {
        left == right || (numeric_type(left) && numeric_type(right))
    }
}

/// The type of a binary operation.
pub open spec fn binary_type(env: Env, e: Expr) -> (Option<Type>, bool)
    decreases e, 2int, 0int,
{
    match e {
        Expr::Binary { left, op, right, .. } => match op {
            BinaryOp::Index => {
                let (l, lc) = raw_type(env, *left);
                let (r, rc) = raw_type(env, *right);
                match (l, r) {
                    (Some(lt), Some(rt)) => match index_type(lt, rt) {
                        Some(ty) => (Some(ty), lc && rc),
                        None => (None, false),
                    },
                    _ => (None, false),
                }
            },
            BinaryOp::Append => {
                let (l, lc) = expr_type(env, *left);
                match l {
                    Some(Type::Unknown) => {
                        let (r, rc) = expr_type(env, *right);
                        match r {
                            Some(_) => (Some(Type::Unknown), lc && rc),
                            None => (None, false),
                        }
                    },
                    Some(Type::List(element)) => {
                        let (ok, rc) = append_rhs(env, *right, *element);
                        if ok {
                            (Some(Type::List(element)), lc && rc)
                        } else {
                            (None, false)
                        }
                    },
                    Some(Type::TextMap(value)) => {
                        let (ok, rc) = merge_rhs(env, *right, *value);
                        if ok {
                            (Some(Type::TextMap(value)), lc && rc)
                        } else {
                            (None, false)
                        }
                    },
                    _ => (None, false),
                }
            },
            BinaryOp::And | BinaryOp::Or => {
                let (l, lc) = expr_type(env, *left);
                let (r, rc) = expr_type(env, *right);
                match (l, r) {
                    (Some(lt), Some(rt)) => if (lt is Bool || lt is Unknown) && (rt is Bool || rt is Unknown) {
                        (Some(Type::Bool), lc && rc)
                    } else {
                        (None, false)
                    },
                    _ => (None, false),
                }
            },
            BinaryOp::Add | BinaryOp::Sub | BinaryOp::Mul | BinaryOp::Div => {
                let (l, lc) = if op is Add { raw_type(env, *left) } else { expr_type(env, *left) };
                let (r, rc) = if op is Add { raw_type(env, *right) } else { expr_type(env, *right) };
                match (l, r) {
                    (Some(lt), Some(rt)) => match arithmetic_type(op, lt, rt) {
                        Some(ty) => (Some(ty), lc && rc),
                        None => (None, false),
                    },
                    _ => (None, false),
                }
            },
            BinaryOp::Lt | BinaryOp::Gt | BinaryOp::LtEq | BinaryOp::GtEq => {
                let (l, lc) = expr_type(env, *left);
                let (r, rc) = expr_type(env, *right);
                match (l, r) {
                    (Some(lt), Some(rt)) => if numeric_type(lt) && numeric_type(rt) {
                        (Some(Type::Bool), lc && rc)
                    } else {
                        (None, false)
                    },
                    _ => (None, false),
                }
            },
            BinaryOp::Eq | BinaryOp::NotEq => {
                let (l, lc) = expr_type(env, *left);
                let (r, rc) = expr_type(env, *right);
                match (l, r) {
                    (Some(lt), Some(rt)) => if comparable(lt, rt) {
                        (Some(Type::Bool), lc && rc)
                    } else {
                        (None, false)
                    },
                    _ => (None, false),
                }
            },
            BinaryOp::Has => {
                let (l, lc) = expr_type(env, *left);
                let (r, rc) = raw_type(env, *right);
                match (l, r) {
                    (Some(lt), Some(rt)) => if (lt is TextMap || lt is Unknown) && (rt is Str || rt is Unknown) {
                        (Some(Type::Bool), lc && rc)
                    } else {
                        (None, false)
                    },
                    _ => (None, false),
                }
            },
        },
        _ => (None, true),
    }
}

/// The type of a list element; `raw` allows raw text literals and `emoji`
/// reads a name that nothing visible carries as an emoji literal.
pub open spec fn element_type(env: Env, element: Expr, raw: bool, emoji: bool) -> (Option<Type>, bool)
    decreases element, 3int, 1int,
{
    match element {
        Expr::String { .. } => if raw {
            (Some(Type::Str), true)
        } else {
            (None, false)
        },
        Expr::Variable { name, .. } => if emoji && env_lookup(env, name@) is None {
            (Some(Type::Emoji), true)
        } else {
            expr_type(env, element)
        },
        _ => expr_type(env, element),
    }
}

/// The element type agreed so far after one more element of type `ty`:
/// `Unknown` gives way to a known type, and two known types must agree.
pub open spec fn agreed_type(so_far: Option<Type>, ty: Type) -> Option<Type> {
    match so_far {
        Some(expected) => if expected is Unknown && !(ty is Unknown) {
            Some(ty)
        } else if !(ty is Unknown) && expected != ty {
            None
        } else {
            Some(expected)
        },
        None => Some(ty),
    }
}

/// The list elements from index `k` on, given the element type agreed so far
/// and whether the earlier elements were free of errors.
pub open spec fn elements_type(
    env: Env,
    elements: Seq<Expr>,
    k: int,
    so_far: Option<Type>,
    clean: bool,
    raw: bool,
    emoji: bool,
) -> (Option<Type>, bool)
    decreases elements, 1int, elements.len() - k,
{
    if k < 0 || k >= elements.len() {
        match so_far {
            Some(ty) => (Some(Type::List(Box::new(ty))), clean),
            None => (None, false),
        }
    } else if elements[k] is List {
        (None, false)
    } else {
        let (ty, c) = element_type(env, elements[k], raw, emoji);
        match ty {
            Some(ty) => match agreed_type(so_far, ty) {
                Some(agreed) => elements_type(env, elements, k + 1, Some(agreed), clean && c, raw, emoji),
                None => (None, false),
            },
            None => (None, false),
        }
    }
}

/// The type of a list literal: all elements of one type, none of them a list.
pub open spec fn list_type(env: Env, e: Expr, raw: bool, emoji: bool) -> (Option<Type>, bool)
    decreases e, 2int, 0int,
{
    match e {
        Expr::List { elements, .. } => if elements@.len() == 0 {
            (None, false)
        } else {
            elements_type(env, elements@, 0, None, true, raw, emoji)
        },
        _ => (None, true),
    }
}

/// The type of a map value.
pub open spec fn value_type(env: Env, value: Expr) -> (Option<Type>, bool)
    decreases value, 4int, 1int,
{
    match value {
        Expr::String { .. } => (Some(Type::Str), true),
        Expr::Variable { name, .. } => (Some(name_type(env, name@)), true),
        _ => raw_type(env, value),
    }
}

/// The map entries from index `k` on, given the value type agreed so far and
/// whether the earlier entries were free of errors.
pub open spec fn entries_type(
    env: Env,
    entries: Seq<(Expr, Expr)>,
    k: int,
    so_far: Option<Type>,
    clean: bool,
) -> (Option<Type>, bool)
    decreases entries, 1int, entries.len() - k,
{
    if k < 0 || k >= entries.len() {
        match so_far {
            Some(ty) => (Some(Type::TextMap(Box::new(ty))), clean),
            None => (None, false),
        }
    } else {
        let (key, kc) = raw_type(env, entries[k].0);
        match key {
            Some(key_ty) => if key_ty is Str || key_ty is Unknown {
                let (value, vc) = value_type(env, entries[k].1);
                match value {
                    Some(ty) => match agreed_type(so_far, ty) {
                        Some(agreed) => entries_type(env, entries, k + 1, Some(agreed), clean && kc && vc),
                        None => (None, false),
                    },
                    None => (None, false),
                }
            } else {
                (None, false)
            },
            None => (None, false),
        }
    }
}

/// The type of a map literal: text keys and values of one type.
pub open spec fn map_type(env: Env, e: Expr) -> (Option<Type>, bool)
    decreases e, 2int, 0int,
{
    match e {
        Expr::MapLiteral { entries, .. } => if entries@.len() == 0 {
            (None, false)
        } else {
            entries_type(env, entries@, 0, None, true)
        },
        _ => (None, true),
    }
}

/// Whether `e` can be appended to a list of `expected` elements (one element
/// or a list of them), and whether it is free of errors.
pub open spec fn append_rhs(env: Env, e: Expr, expected: Type) -> (bool, bool)
    decreases e, 4int, 0int,
{
    let (right, clean) = if expected is Str && e is String {
        (Some(Type::Str), true)
    } else if expected is Str && e is List {
        list_type(env, e, true, true)
    } else {
        expr_type(env, e)
    };
    match right {
        Some(ty) => if expected is Unknown || ty is Unknown || ty == expected || ty == Type::List(Box::new(expected)) {
            (true, clean)
        } else {
            (false, false)
        },
        None => (false, false),
    }
}

/// Whether `e` can be merged into a map of `value` values, and whether it is
/// free of errors.
pub open spec fn merge_rhs(env: Env, e: Expr, value: Type) -> (bool, bool)
    decreases e, 4int, 0int,
{
    let (right, clean) = expr_type(env, e);
    match right {
        Some(ty) => {
            let compatible = match ty {
                Type::Unknown => true,
                Type::TextMap(inner) => value is Unknown || *inner is Unknown || *inner == value,
                _ => false,
            };
            if compatible {
                (true, clean)
            } else {
                (false, false)
            }
        },
        None => (false, false),
    }
}

/// The type of the right-hand side of an assignment or constant declaration,
/// where raw text, names and lists of emoji literals are allowed.
pub open spec fn assigned_type(env: Env, e: Expr) -> (Option<Type>, bool) {
    match e {
        Expr::String { .. } => (Some(Type::Str), true),
        Expr::Variable { name, .. } => (Some(name_type(env, name@)), true),
        Expr::List { .. } => list_type(env, e, true, true),
        _ => expr_type(env, e),
    }
}

// ---------------------------------------------------------------------------
// Emoji literals
// ---------------------------------------------------------------------------

/// The spans (start, end) of the names in `e` that no binding in `env`
/// carries: the names read as emoji literals.
pub open spec fn expr_emoji(env: Env, e: Expr) -> Set<(usize, usize)>
    decreases e, 0int, 0int,
{
    match e {
        Expr::Variable { name, span } => if env_lookup(env, name@) is None {
            set![(span.start, span.end)]
        } else {
            Set::empty()
        },
        Expr::List { elements, .. } => exprs_emoji(env, elements@, 0),
        Expr::Call { arguments, .. } => exprs_emoji(env, arguments@, 0),
        Expr::MapLiteral { entries, .. } => entries_emoji(env, entries@, 0),
        Expr::Unary { expr, .. } => expr_emoji(env, *expr),
        Expr::Convert { expr, .. } => expr_emoji(env, *expr),
        Expr::Binary { left, right, .. } => expr_emoji(env, *left).union(expr_emoji(env, *right)),
        _ => Set::empty(),
    }
}

/// The emoji literal spans of the expressions from index `k` on.
pub open spec fn exprs_emoji(env: Env, es: Seq<Expr>, k: int) -> Set<(usize, usize)>
    decreases es, 1int, es.len() - k,
{
    if k < 0 || k >= es.len() {
        Set::empty()
    } else {
        expr_emoji(env, es[k]).union(exprs_emoji(env, es, k + 1))
    }
}

/// The emoji literal spans of the keys and values from index `k` on.
pub open spec fn entries_emoji(env: Env, entries: Seq<(Expr, Expr)>, k: int) -> Set<(usize, usize)>
    decreases entries, 1int, entries.len() - k,
{
    if k < 0 || k >= entries.len() {
        Set::empty()
    } else {
        expr_emoji(env, entries[k].0).union(expr_emoji(env, entries[k].1)).union(entries_emoji(env, entries, k + 1))
    }
}

/// The emoji literal spans of the source of a `for` loop.
pub open spec fn for_source_emoji(env: Env, source: ForSource) -> Set<(usize, usize)> {
    match source {
        ForSource::List { expr, .. } => expr_emoji(env, expr),
        ForSource::Range { start, end, .. } => expr_emoji(env, start).union(expr_emoji(env, end)),
    }
}

/// The emoji literal spans of a statement checked in `env`.
pub open spec fn stmt_emoji(env: Env, s: Stmt, in_loop: bool) -> Set<(usize, usize)>
    decreases s, 0int, 0int,
{
    match s {
        Stmt::Assign { expr, .. } => expr_emoji(env, expr),
        Stmt::Const { expr, .. } => expr_emoji(env, expr),
        Stmt::Append { expr, .. } => expr_emoji(env, expr),
        Stmt::Print { expr, .. } => expr_emoji(env, expr),
        Stmt::Return { expr, .. } => expr_emoji(env, expr),
        Stmt::Call { expr, .. } => expr_emoji(env, expr),
        Stmt::If { condition, then_branch, else_branch, .. } => {
            let before_else = block_check(env, then_branch@, in_loop).0;
            let branches = block_emoji(env, then_branch@, in_loop);
            expr_emoji(env, condition).union(match else_branch {
                Some(b) => branches.union(block_emoji(before_else, b@, in_loop)),
                None => branches,
            })
        },
        Stmt::While { condition, body, .. } => expr_emoji(env, condition).union(block_emoji(env, body@, true)),
        Stmt::For { variable, source, body, .. } => for_source_emoji(env, source).union(
            match for_source_type(env, source).0 {
                Some(t) => stmts_emoji(with_local(pushed(env), variable@, t, false), body@, 0, true),
                None => Set::empty(),
            },
        ),
        _ => Set::empty(),
    }
}

/// The emoji literal spans of a block checked in its own scope.
pub open spec fn block_emoji(env: Env, stmts: Seq<Stmt>, in_loop: bool) -> Set<(usize, usize)>
    decreases stmts, 1int, 0int,
{
    stmts_emoji(pushed(env), stmts, 0, in_loop)
}

/// The emoji literal spans of the statements from index `k` on, each checked
/// in the environment the ones before it leave.
pub open spec fn stmts_emoji(env: Env, stmts: Seq<Stmt>, k: int, in_loop: bool) -> Set<(usize, usize)>
    decreases stmts, 0int, stmts.len() - k,
{
    if k < 0 || k >= stmts.len() {
        Set::empty()
    } else {
        stmt_emoji(env, stmts[k], in_loop).union(stmts_emoji(stmt_check(env, stmts[k], in_loop).0, stmts, k + 1, in_loop))
    }
}

// ---------------------------------------------------------------------------
// Statements
// ---------------------------------------------------------------------------

/// `env` with a new, empty innermost scope.
pub open spec fn pushed(env: Env) -> Env {
    Env { symbols: env.symbols, constants: env.constants, scopes: env.scopes.push(Seq::empty()), functions: env.functions }
}

/// `env` without its innermost scope.
pub open spec fn popped(env: Env) -> Env {
    Env { symbols: env.symbols, constants: env.constants, scopes: env.scopes.drop_last(), functions: env.functions }
}

/// `env` with a binding added to its innermost scope (if it has one).
pub open spec fn with_local(env: Env, name: Seq<char>, ty: Type, constant: bool) -> Env {
    if env.scopes.len() == 0 {
        env
    } else {
        Env {
            symbols: env.symbols,
            constants: env.constants,
            scopes: env.scopes.update(env.scopes.len() - 1, env.scopes.last().push((name, ty, constant))),
            functions: env.functions,
        }
    }
}

/// A scope where every binding called `name` has type `ty`.
pub open spec fn retyped(scope: Seq<(Seq<char>, Type, bool)>, name: Seq<char>, ty: Type) -> Seq<(Seq<char>, Type, bool)> {
    scope.map_values(|b: (Seq<char>, Type, bool)| if b.0 == name { (b.0, ty, b.2) } else { b })
}

/// The scopes after retyping `name` in the innermost of the first `n` scopes
/// that binds it, if one does.
pub open spec fn retyped_scopes(
    scopes: Seq<Seq<(Seq<char>, Type, bool)>>,
    name: Seq<char>,
    ty: Type,
    n: int,
) -> Option<Seq<Seq<(Seq<char>, Type, bool)>>>
    decreases n,
{
    if n <= 0 || n > scopes.len() {
        None
    } else if binding_position(scopes[n - 1], name, 0) is Some {
        Some(scopes.update(n - 1, retyped(scopes[n - 1], name, ty)))
    } else {
        retyped_scopes(scopes, name, ty, n - 1)
    }
}

/// `env` after assigning a value of type `ty` to the visible variable `name`:
/// the innermost local binding changes type, or else the top-level one.
pub open spec fn reassigned(env: Env, name: Seq<char>, ty: Type) -> Env {
    match retyped_scopes(env.scopes, name, ty, env.scopes.len() as int) {
        Some(scopes) => Env { symbols: env.symbols, constants: env.constants, scopes, functions: env.functions },
        None => Env {
            symbols: env.symbols.insert(name, ty),
            constants: env.constants,
            scopes: env.scopes,
            functions: env.functions,
        },
    }
}

/// Whether a condition is a boolean free of errors.
pub open spec fn condition_clean(env: Env, condition: Expr) -> bool {
    let (ty, clean) = expr_type(env, condition);
    match ty {
        Some(t) => clean && (t is Bool || t is Unknown),
        None => false,
    }
}

/// The type of the items a `for` loop walks through.
pub open spec fn for_source_type(env: Env, source: ForSource) -> (Option<Type>, bool) {
    match source {
        ForSource::List { expr, .. } => {
            let (ty, clean) = expr_type(env, expr);
            match ty {
                Some(Type::List(element)) => (Some(*element), clean),
                Some(Type::Unknown) => (Some(Type::Unknown), clean),
                _ => (None, false),
            }
        },
        ForSource::Range { start, end, .. } => {
            let (s, sc) = expr_type(env, start);
            let (e, ec) = expr_type(env, end);
            if (s == Some(Type::Num) || s == Some(Type::Unknown)) && (e == Some(Type::Num) || e == Some(Type::Unknown)) {
                (Some(Type::Num), sc && ec)
            } else {
                (None, false)
            }
        },
    }
}

/// Whether appending `expr` to the variable `name` (`name 📥 expr`) is free of errors.
pub open spec fn append_clean(env: Env, name: Seq<char>, expr: Expr) -> bool {
    match env_lookup(env, name) {
        Some((target, constant)) => !constant && match target {
            Type::Unknown => expr_type(env, expr).1,
            Type::List(element) => append_rhs(env, expr, *element).1,
            Type::TextMap(value) => merge_rhs(env, expr, *value).1,
            _ => false,
        },
        None => false,
    }
}

/// The environment after a statement, and whether the statement is free of
/// errors (`in_loop` says whether a loop of the same function encloses it).
pub open spec fn stmt_check(env: Env, s: Stmt, in_loop: bool) -> (Env, bool)
    decreases s, 0int, 0int,
{
    match s {
        Stmt::Assign { name, expr, .. } => {
            let (ty, clean) = assigned_type(env, expr);
            match ty {
                Some(t) => match env_lookup(env, name@) {
                    Some((_, constant)) => if constant {
                        (env, false)
                    } else {
                        (reassigned(env, name@, t), clean)
                    },
                    None => if env.scopes.len() == 0 {
                        (
                            Env {
                                symbols: env.symbols.insert(name@, t),
                                constants: env.constants,
                                scopes: env.scopes,
                                functions: env.functions,
                            },
                            clean,
                        )
                    } else {
                        (with_local(env, name@, t, false), clean)
                    },
                },
                None => (env, false),
            }
        },
        Stmt::Const { name, expr, .. } => {
            let (ty, clean) = assigned_type(env, expr);
            match ty {
                Some(t) => if env_lookup(env, name@) is Some {
                    (env, false)
                } else if env.scopes.len() == 0 {
                    (
                        Env {
                            symbols: env.symbols.insert(name@, t),
                            constants: env.constants.push(name@),
                            scopes: env.scopes,
                            functions: env.functions,
                        },
                        clean,
                    )
                } else {
                    (with_local(env, name@, t, true), clean)
                },
                None => (env, false),
            }
        },
        Stmt::Append { name, expr, .. } => (env, append_clean(env, name@, expr)),
        Stmt::Print { expr, .. } => (env, expr_type(env, expr).1),
        Stmt::Return { expr, .. } => (env, expr_type(env, expr).1),
        Stmt::Call { expr, .. } => (env, expr_type(env, expr).1),
        Stmt::Break { .. } => (env, in_loop),
        Stmt::Continue { .. } => (env, in_loop),
        Stmt::Function { .. } => (env, false),
        Stmt::If { condition, then_branch, else_branch, .. } => {
            let cc = condition_clean(env, condition);
            let (after_then, tc) = block_check(env, then_branch@, in_loop);
            match else_branch {
                Some(b) => {
                    let (after_else, ec) = block_check(after_then, b@, in_loop);
                    (after_else, cc && tc && ec)
                },
                None => (after_then, cc && tc),
            }
        },
        Stmt::While { condition, body, .. } => {
            let cc = condition_clean(env, condition);
            let (after, bc) = block_check(env, body@, true);
            (after, cc && bc)
        },
        Stmt::For { variable, source, body, .. } => {
            let available = env_lookup(env, variable@) is None;
            let (item, sc) = for_source_type(env, source);
            match item {
                Some(t) => if available {
                    let (after, bc) = stmts_check(with_local(pushed(env), variable@, t, false), body@, 0, true);
                    (popped(after), sc && bc)
                } else {
                    (env, false)
                },
                None => (env, false),
            }
        },
    }
}

/// The environment after a block in its own scope, and whether it is free of errors.
pub open spec fn block_check(env: Env, stmts: Seq<Stmt>, in_loop: bool) -> (Env, bool)
    decreases stmts, 1int, 0int,
{
    let (after, clean) = stmts_check(pushed(env), stmts, 0, in_loop);
    (popped(after), clean)
}

/// The environment after the statements from index `k` on, and whether they
/// are free of errors.
pub open spec fn stmts_check(env: Env, stmts: Seq<Stmt>, k: int, in_loop: bool) -> (Env, bool)
    decreases stmts, 0int, stmts.len() - k,
{
    if k < 0 || k >= stmts.len() {
        (env, true)
    } else {
        let (next, c) = stmt_check(env, stmts[k], in_loop);
        let (after, rest) = stmts_check(next, stmts, k + 1, in_loop);
        (after, c && rest)
    }
}

// ---------------------------------------------------------------------------
// Functions and programs
// ---------------------------------------------------------------------------

/// Parameter `p` repeats an earlier parameter's name.
pub open spec fn repeated_parameter(parameters: Seq<String>, p: int) -> bool {
    exists|j: int| 0 <= j < p && parameters[j]@ == parameters[p]@
}

/// The bindings of the first `n` parameters: each one neither repeated nor a
/// top-level name, with an unknown type.
pub open spec fn parameter_bindings(symbols: Map<Seq<char>, Type>, parameters: Seq<String>, n: int) -> Seq<(Seq<char>, Type, bool)>
    decreases n,
{
    if n <= 0 || n > parameters.len() {
        Seq::empty()
    } else {
        let before = parameter_bindings(symbols, parameters, n - 1);
        if repeated_parameter(parameters, n - 1) || symbols.contains_key(parameters[n - 1]@) {
            before
        } else {
            before.push((parameters[n - 1]@, Type::Unknown, false))
        }
    }
}

/// Whether none of the first `n` parameters repeats a name or reuses a top-level name.
pub open spec fn parameters_clean(symbols: Map<Seq<char>, Type>, parameters: Seq<String>, n: int) -> bool
    decreases n,
{
    if n <= 0 || n > parameters.len() {
        true
    } else {
        &&& parameters_clean(symbols, parameters, n - 1)
        &&& !repeated_parameter(parameters, n - 1)
        &&& !symbols.contains_key(parameters[n - 1]@)
    }
}

/// The environment after checking a function body (the top-level types are
/// restored), and whether the function is free of errors.
pub open spec fn function_check(env: Env, parameters: Seq<String>, body: Seq<Stmt>) -> (Env, bool) {
    let start = Env {
        symbols: env.symbols,
        constants: env.constants,
        scopes: seq![parameter_bindings(env.symbols, parameters, parameters.len() as int)],
        functions: env.functions,
    };
    let (after, clean) = stmts_check(start, body, 0, false);
    (
        Env { symbols: env.symbols, constants: after.constants, scopes: Seq::empty(), functions: env.functions },
        parameters_clean(env.symbols, parameters, parameters.len() as int) && clean && stmts_return(body),
    )
}

/// Whether a function called `name` is among `functions`.
pub open spec fn function_listed(functions: Seq<(Seq<char>, nat)>, name: Seq<char>) -> bool {
    exists|f: int| 0 <= f < functions.len() && (#[trigger] functions[f]).0 == name
}

/// The functions of the first `n` statements, each name once, and whether
/// no name was defined twice.
pub open spec fn collected_functions(stmts: Seq<Stmt>, n: int) -> (Seq<(Seq<char>, nat)>, bool)
    decreases n,
{
    if n <= 0 || n > stmts.len() {
        (Seq::empty(), true)
    } else {
        let (functions, clean) = collected_functions(stmts, n - 1);
        match stmts[n - 1] {
            Stmt::Function { name, parameters, .. } => if function_listed(functions, name@) {
                (functions, false)
            } else {
                (functions.push((name@, parameters@.len())), clean)
            },
            _ => (functions, clean),
        }
    }
}

/// The environment after the first `n` top-level statements that are not
/// function definitions, and whether they are free of errors.
pub open spec fn top_statements(env: Env, stmts: Seq<Stmt>, n: int) -> (Env, bool)
    decreases n,
{
    if n <= 0 || n > stmts.len() {
        (env, true)
    } else {
        let (before, clean) = top_statements(env, stmts, n - 1);
        match stmts[n - 1] {
            Stmt::Function { .. } => (before, clean),
            s => {
                let (after, c) = stmt_check(before, s, false);
                (after, clean && c)
            },
        }
    }
}

/// The environment after checking the functions among the first `n`
/// statements, and whether they are free of errors.
pub open spec fn top_functions(env: Env, stmts: Seq<Stmt>, n: int) -> (Env, bool)
    decreases n,
{
    if n <= 0 || n > stmts.len() {
        (env, true)
    } else {
        let (before, clean) = top_functions(env, stmts, n - 1);
        match stmts[n - 1] {
            Stmt::Function { parameters, body, .. } => {
                let (after, c) = function_check(before, parameters@, body@);
                (after, clean && c)
            },
            _ => (before, clean),
        }
    }
}

/// The environment in which the top-level statements of a program are checked.
pub open spec fn program_env(stmts: Seq<Stmt>) -> Env {
    Env {
        symbols: Map::empty(),
        constants: Seq::empty(),
        scopes: Seq::empty(),
        functions: collected_functions(stmts, stmts.len() as int).0,
    }
}

/// The top-level types that checking a program leaves.
pub open spec fn program_symbols(stmts: Seq<Stmt>) -> Map<Seq<char>, Type> {
    top_statements(program_env(stmts), stmts, stmts.len() as int).0.symbols
}

/// Whether the checker accepts a program: function names are distinct,
/// every top-level statement and every function is free of errors.
pub open spec fn program_accepted(stmts: Seq<Stmt>) -> bool {
    let n = stmts.len() as int;
    let (after_statements, statements_clean) = top_statements(program_env(stmts), stmts, n);
    &&& collected_functions(stmts, n).1
    &&& statements_clean
    &&& top_functions(after_statements, stmts, n).1
}

/// The emoji literal spans of a function body checked in `env`.
pub open spec fn function_emoji(env: Env, parameters: Seq<String>, body: Seq<Stmt>) -> Set<(usize, usize)> {
    let start = Env {
        symbols: env.symbols,
        constants: env.constants,
        scopes: seq![parameter_bindings(env.symbols, parameters, parameters.len() as int)],
        functions: env.functions,
    };
    stmts_emoji(start, body, 0, false)
}

/// The emoji literal spans of the first `n` top-level statements that are not
/// function definitions.
pub open spec fn top_statements_emoji(env: Env, stmts: Seq<Stmt>, n: int) -> Set<(usize, usize)>
    decreases n,
{
    if n <= 0 || n > stmts.len() {
        Set::empty()
    } else {
        let before = top_statements_emoji(env, stmts, n - 1);
        match stmts[n - 1] {
            Stmt::Function { .. } => before,
            s => before.union(stmt_emoji(top_statements(env, stmts, n - 1).0, s, false)),
        }
    }
}

/// The emoji literal spans of the functions among the first `n` statements.
pub open spec fn top_functions_emoji(env: Env, stmts: Seq<Stmt>, n: int) -> Set<(usize, usize)>
    decreases n,
{
    if n <= 0 || n > stmts.len() {
        Set::empty()
    } else {
        let before = top_functions_emoji(env, stmts, n - 1);
        match stmts[n - 1] {
            Stmt::Function { parameters, body, .. } => before.union(
                function_emoji(top_functions(env, stmts, n - 1).0, parameters@, body@),
            ),
            _ => before,
        }
    }
}

/// The spans (start, end) of the names in a program that are read as emoji
/// literals: those that no binding visible where they stand carries.
pub open spec fn program_emoji(stmts: Seq<Stmt>) -> Set<(usize, usize)> {
    let n = stmts.len() as int;
    let after_statements = top_statements(program_env(stmts), stmts, n).0;
    top_statements_emoji(program_env(stmts), stmts, n).union(top_functions_emoji(after_statements, stmts, n))
}

// ---------------------------------------------------------------------------
// Laws of the static rules
// ---------------------------------------------------------------------------

/// A constant cannot be reassigned: assigning to a visible constant is an error.
pub proof fn law_constant_not_reassigned(env: Env, name: String, expr: Expr, span: crate::common::source::Span, in_loop: bool)
    requires
        env_lookup(env, name@) matches Some((_, constant)) && constant,
    ensures
        !stmt_check(env, Stmt::Assign { name, expr, span }, in_loop).1,
        stmt_check(env, Stmt::Assign { name, expr, span }, in_loop).0 == env,
{
}

/// A constant cannot be updated with `📥` either.
pub proof fn law_constant_not_appended(env: Env, name: String, expr: Expr, span: crate::common::source::Span, in_loop: bool)
    requires
        env_lookup(env, name@) matches Some((_, constant)) && constant,
    ensures
        !stmt_check(env, Stmt::Append { name, expr, span }, in_loop).1,
{
}

/// A constant cannot reuse a visible variable or constant name.
pub proof fn law_constant_name_fresh(env: Env, name: String, expr: Expr, span: crate::common::source::Span, in_loop: bool)
    requires
        env_lookup(env, name@) is Some,
    ensures
        !stmt_check(env, Stmt::Const { name, expr, span }, in_loop).1,
        stmt_check(env, Stmt::Const { name, expr, span }, in_loop).0 == env,
{
}

/// A loop variable cannot reuse a visible name.
pub proof fn law_loop_variable_fresh(
    env: Env,
    variable: String,
    source: ForSource,
    body: Vec<Stmt>,
    span: crate::common::source::Span,
    in_loop: bool,
)
    requires
        env_lookup(env, variable@) is Some,
    ensures
        !stmt_check(env, Stmt::For { variable, source, body, span }, in_loop).1,
{
}

/// `🛑` and `⏭️` are errors outside a loop, and free of errors inside one.
pub proof fn law_jumps_need_a_loop(env: Env, span: crate::common::source::Span, in_loop: bool)
    ensures
        stmt_check(env, Stmt::Break { span }, in_loop) == (env, in_loop),
        stmt_check(env, Stmt::Continue { span }, in_loop) == (env, in_loop),
{
}

/// A function free of errors returns a value on every path, and none of its
/// parameters reuses a top-level name or another parameter's name.
pub proof fn law_checked_function_returns(env: Env, parameters: Seq<String>, body: Seq<Stmt>)
    requires
        function_check(env, parameters, body).1,
    ensures
        stmts_return(body),
        forall|p: int| 0 <= p < parameters.len() ==> !repeated_parameter(parameters, p)
            && !env.symbols.contains_key((#[trigger] parameters[p])@),
{
    lemma_parameters_clean(env.symbols, parameters, parameters.len() as int);
}

proof fn lemma_parameters_clean(symbols: Map<Seq<char>, Type>, parameters: Seq<String>, n: int)
    requires
        0 <= n <= parameters.len(),
        parameters_clean(symbols, parameters, n),
    ensures
        forall|p: int| 0 <= p < n ==> !repeated_parameter(parameters, p) && !symbols.contains_key((#[trigger] parameters[p])@),
    decreases n,
{
    if n > 0 {
        lemma_parameters_clean(symbols, parameters, n - 1);
        assert(!repeated_parameter(parameters, n - 1) && !symbols.contains_key(parameters[n - 1]@));
    }
}

/// Empty list and map literals are errors: their element type cannot be inferred.
pub proof fn law_empty_collections_rejected(
    env: Env,
    elements: Vec<Expr>,
    entries: Vec<(Expr, Expr)>,
    span: crate::common::source::Span,
    raw: bool,
    emoji: bool,
)
    requires
        elements@.len() == 0,
        entries@.len() == 0,
    ensures
        list_type(env, Expr::List { elements, span }, raw, emoji) == (None::<Type>, false),
        map_type(env, Expr::MapLiteral { entries, span }) == (None::<Type>, false),
{
}

// ---------------------------------------------------------------------------
// Block scopes
// ---------------------------------------------------------------------------

/// Whether some binding of the scope carries `name`.
pub open spec fn binds(scope: Seq<(Seq<char>, Type, bool)>, name: Seq<char>) -> bool {
    exists|i: int| 0 <= i < scope.len() && (#[trigger] scope[i]).0 == name
}

/// `after` has the scopes of `before`, each binding the same names, and the
/// same top-level names.
pub open spec fn same_names(before: Env, after: Env) -> bool {
    &&& after.scopes.len() == before.scopes.len()
    &&& after.symbols.dom() == before.symbols.dom()
    &&& forall|c: int, x: Seq<char>| 0 <= c < before.scopes.len()
        ==> #[trigger] binds(after.scopes[c], x) == binds(before.scopes[c], x)
}

/// `after` has the scopes of `before` and the same top-level names; the
/// scopes but the innermost bind the same names, and the innermost one may
/// bind more.
pub open spec fn outer_names_kept(before: Env, after: Env) -> bool {
    &&& after.scopes.len() == before.scopes.len()
    &&& after.symbols.dom() == before.symbols.dom()
    &&& forall|c: int, x: Seq<char>| 0 <= c < before.scopes.len() - 1
        ==> #[trigger] binds(after.scopes[c], x) == binds(before.scopes[c], x)
}

/// A name has a first position from `from` on exactly when a binding from there on carries it.
pub proof fn lemma_position_binds(scope: Seq<(Seq<char>, Type, bool)>, name: Seq<char>, from: int)
    requires
        0 <= from <= scope.len(),
    ensures
        (binding_position(scope, name, from) is Some)
            == (exists|j: int| from <= j < scope.len() && (#[trigger] scope[j]).0 == name),
    decreases scope.len() - from,
{
    if from < scope.len() {
        lemma_position_binds(scope, name, from + 1);
        if scope[from].0 != name && binding_position(scope, name, from) is None {
            assert forall|j: int| from <= j < scope.len() implies (#[trigger] scope[j]).0 != name by {
                if j > from {
                }
            }
        }
    }
}

/// Retyping keeps the names a scope binds.
pub proof fn lemma_retyped_binds(scope: Seq<(Seq<char>, Type, bool)>, name: Seq<char>, ty: Type, x: Seq<char>)
    ensures
        binds(retyped(scope, name, ty), x) == binds(scope, x),
{
    let r = retyped(scope, name, ty);
    if binds(scope, x) {
        let i = choose|i: int| 0 <= i < scope.len() && (#[trigger] scope[i]).0 == x;
        assert(r[i].0 == x);
    }
    if binds(r, x) {
        let i = choose|i: int| 0 <= i < r.len() && (#[trigger] r[i]).0 == x;
        assert(scope[i].0 == x);
    }
}

/// No local binding is visible exactly when no scope binds the name.
pub proof fn lemma_scopes_lookup_none(scopes: Seq<Seq<(Seq<char>, Type, bool)>>, name: Seq<char>)
    ensures
        (scopes_lookup(scopes, name) is None) == (forall|c: int| 0 <= c < scopes.len() ==> !binds(#[trigger] scopes[c], name)),
    decreases scopes.len(),
{
    if scopes.len() > 0 {
        let rest = scopes.drop_last();
        lemma_scopes_lookup_none(rest, name);
        lemma_position_binds(scopes.last(), name, 0);
        if scopes_lookup(scopes, name) is None {
            assert forall|c: int| 0 <= c < scopes.len() implies !binds(#[trigger] scopes[c], name) by {
                if c < scopes.len() - 1 {
                    assert(rest[c] == scopes[c]);
                }
            }
        } else if binding_position(scopes.last(), name, 0) is None {
            let c = choose|c: int| 0 <= c < rest.len() && binds(#[trigger] rest[c], name);
            assert(rest[c] == scopes[c]);
        }
    }
}

/// The scope retyped by an assignment, if any, keeps the names of every scope.
proof fn lemma_retyped_scopes_names(scopes: Seq<Seq<(Seq<char>, Type, bool)>>, name: Seq<char>, ty: Type, n: int)
    requires
        0 <= n <= scopes.len(),
    ensures
        retyped_scopes(scopes, name, ty, n) matches Some(updated) ==> updated.len() == scopes.len()
            && forall|c: int, x: Seq<char>| 0 <= c < scopes.len() ==> #[trigger] binds(updated[c], x) == binds(scopes[c], x),
        retyped_scopes(scopes, name, ty, n) is None ==> forall|c: int| 0 <= c < n ==> !binds(#[trigger] scopes[c], name),
    decreases n,
{
    if n > 0 {
        lemma_position_binds(scopes[n - 1], name, 0);
        if binding_position(scopes[n - 1], name, 0) is Some {
            let updated = scopes.update(n - 1, retyped(scopes[n - 1], name, ty));
            assert forall|c: int, x: Seq<char>| 0 <= c < scopes.len() implies #[trigger] binds(updated[c], x) == binds(scopes[c], x) by {
                if c == n - 1 {
                    lemma_retyped_binds(scopes[n - 1], name, ty, x);
                }
            }
        } else {
            lemma_retyped_scopes_names(scopes, name, ty, n - 1);
        }
    }
}

/// Inside a block, a statement keeps the names of the outer scopes and of the top level.
proof fn lemma_stmt_names(env: Env, s: Stmt, in_loop: bool)
    requires
        env.scopes.len() > 0,
    ensures
        outer_names_kept(env, stmt_check(env, s, in_loop).0),
    decreases s, 0int, 0int,
{
    match s {
        Stmt::Assign { name, expr, .. } => {
            lemma_retyped_scopes_names(env.scopes, name@, Type::Unknown, env.scopes.len() as int);
            if let (Some(t), _) = assigned_type(env, expr) {
                lemma_retyped_scopes_names(env.scopes, name@, t, env.scopes.len() as int);
                lemma_scopes_lookup_none(env.scopes, name@);
                let after = stmt_check(env, s, in_loop).0;
                if env_lookup(env, name@) is None {
                    assert forall|c: int, x: Seq<char>| 0 <= c < env.scopes.len() - 1
                        implies #[trigger] binds(after.scopes[c], x) == binds(env.scopes[c], x) by {
                        assert(after.scopes[c] == env.scopes[c]);
                    }
                }
                assert(after.symbols.dom() =~= env.symbols.dom());
            }
        },
        Stmt::Const { name, expr, .. } => {
            if let (Some(t), _) = assigned_type(env, expr) {
                let after = stmt_check(env, s, in_loop).0;
                if env_lookup(env, name@) is None {
                    assert forall|c: int, x: Seq<char>| 0 <= c < env.scopes.len() - 1
                        implies #[trigger] binds(after.scopes[c], x) == binds(env.scopes[c], x) by {
                        assert(after.scopes[c] == env.scopes[c]);
                    }
                }
            }
        },
        Stmt::If { condition, then_branch, else_branch, .. } => {
            lemma_block_names(env, then_branch@, in_loop);
            let after_then = block_check(env, then_branch@, in_loop).0;
            if let Some(b) = else_branch {
                lemma_block_names(after_then, b@, in_loop);
            }
        },
        Stmt::While { condition, body, .. } => {
            lemma_block_names(env, body@, true);
        },
        Stmt::For { variable, source, body, .. } => {
            if let (Some(t), _) = for_source_type(env, source) {
                if env_lookup(env, variable@) is None {
                    let start = with_local(pushed(env), variable@, t, false);
                    lemma_stmts_names(start, body@, 0, true);
                    let after = stmts_check(start, body@, 0, true).0;
                    assert forall|c: int, x: Seq<char>| 0 <= c < env.scopes.len() - 1
                        implies #[trigger] binds(popped(after).scopes[c], x) == binds(env.scopes[c], x) by {
                        assert(popped(after).scopes[c] == after.scopes[c]);
                        assert(start.scopes[c] == env.scopes[c]);
                    }
                }
            }
        },
        _ => {},
    }
}

/// A block keeps the names of every enclosing scope and of the top level.
proof fn lemma_block_names(env: Env, stmts: Seq<Stmt>, in_loop: bool)
    ensures
        same_names(env, block_check(env, stmts, in_loop).0),
    decreases stmts, 1int, 0int,
{
    let start = pushed(env);
    lemma_stmts_names(start, stmts, 0, in_loop);
    let after = stmts_check(start, stmts, 0, in_loop).0;
    assert forall|c: int, x: Seq<char>| 0 <= c < env.scopes.len()
        implies #[trigger] binds(popped(after).scopes[c], x) == binds(env.scopes[c], x) by {
        assert(popped(after).scopes[c] == after.scopes[c]);
        assert(start.scopes[c] == env.scopes[c]);
    }
}

/// Statements inside a block keep the names of the outer scopes and of the top level.
proof fn lemma_stmts_names(env: Env, stmts: Seq<Stmt>, k: int, in_loop: bool)
    requires
        env.scopes.len() > 0,
    ensures
        outer_names_kept(env, stmts_check(env, stmts, k, in_loop).0),
    decreases stmts, 0int, stmts.len() - k,
{
    if 0 <= k < stmts.len() {
        lemma_stmt_names(env, stmts[k], in_loop);
        let next = stmt_check(env, stmts[k], in_loop).0;
        lemma_stmts_names(next, stmts, k + 1, in_loop);
    }
}

/// A name that is not visible before a block is not visible after it: the
/// bindings a block makes end with the block.
pub proof fn law_block_bindings_end(env: Env, stmts: Seq<Stmt>, in_loop: bool, name: Seq<char>)
    requires
        env_lookup(env, name) is None,
    ensures
        env_lookup(block_check(env, stmts, in_loop).0, name) is None,
{
    lemma_block_names(env, stmts, in_loop);
    let after = block_check(env, stmts, in_loop).0;
    lemma_scopes_lookup_none(env.scopes, name);
    lemma_scopes_lookup_none(after.scopes, name);
    assert forall|c: int| 0 <= c < after.scopes.len() implies !binds(#[trigger] after.scopes[c], name) by {
        assert(binds(after.scopes[c], name) == binds(env.scopes[c], name));
    }
}


/// Whether a type is a plain value type: a number, a float, text, a boolean
/// or an emoji.
pub open spec fn scalar_type(ty: Type) -> bool {
    ty is Num || ty is Float || ty is Str || ty is Bool || ty is Emoji
}

/// `🟰🟰` and `❌🟰` accept two operands of one scalar type, or two numbers:
/// the comparison is a boolean, clean when both operands are.
pub proof fn law_equality_accepts_matching_scalars(env: Env, e: Expr, lt: Type, rt: Type)
    requires
        e is Binary,
        e->Binary_op is Eq || e->Binary_op is NotEq,
        expr_type(env, *e->Binary_left).0 == Some(lt),
        expr_type(env, *e->Binary_right).0 == Some(rt),
        scalar_type(lt),
        scalar_type(rt),
        lt == rt || ((lt is Num || lt is Float) && (rt is Num || rt is Float)),
    ensures
        binary_type(env, e) == (Some(Type::Bool), expr_type(env, *e->Binary_left).1 && expr_type(env, *e->Binary_right).1),
{
}

/// `🟰🟰` and `❌🟰` refuse a list or a map against anything known, and two
/// different scalar types that are not both numbers.
pub proof fn law_equality_refuses_mismatches(env: Env, e: Expr, lt: Type, rt: Type)
    requires
        e is Binary,
        e->Binary_op is Eq || e->Binary_op is NotEq,
        expr_type(env, *e->Binary_left).0 == Some(lt),
        expr_type(env, *e->Binary_right).0 == Some(rt),
        !(lt is Unknown),
        !(rt is Unknown),
        (lt is List || lt is TextMap || rt is List || rt is TextMap)
            || (scalar_type(lt) && scalar_type(rt) && lt != rt && !((lt is Num || lt is Float) && (rt is Num || rt is Float))),
    ensures
        binary_type(env, e) == (None::<Type>, false),
{
}

} // verus!
