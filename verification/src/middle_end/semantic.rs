//! Semantic checker for declaration rules, type inference, and lexical scopes.
//!
//! The checker walks the parsed program once. Function signatures are
//! collected first, so calls may refer to functions defined later in the
//! source. Top-level statements are checked next, then each function body in
//! its own scope, with the top-level types restored afterwards so that one
//! body's assignments never leak into another's checking.

use vstd::prelude::*;

use crate::common::diagnostic::Diagnostic;
use crate::common::source::Span;
use crate::common::text::{owned, push_decimal, push_str};
use crate::frontend::ast::{expr_span, BinaryOp, ConversionKind, Expr, ForSource, InputKind, Program, Stmt, UnaryOp};
use crate::middle_end::symbol_table::SymbolTable;
use crate::middle_end::types::Type;
use crate::middle_end::reports::{
    append_reports, append_rhs_reports, args_reports, collection_reports, top_statement_reports, top_function_reports, element_reports, elements_reports, value_reports, entries_reports, parameter_reports, assigned_reports, block_reports, condition_reports, expr_reports, function_reports,
    list_reports, map_reports, merge_rhs_reports, none, one, program_reports, raw_reports, source_reports, stmt_reports,
    stmts_reports, unary_reports, binary_reports, Report,
};
use crate::middle_end::typing::{
    append_rhs, arguments_clean, arithmetic_type, comparable, index_type, program_emoji, top_functions_emoji, top_statements_emoji, block_emoji, entries_emoji, function_emoji, stmt_emoji, stmts_emoji, expr_emoji, exprs_emoji, for_source_emoji, arity_from, assigned_type, binding_position, element_type, elements_type, entries_type,
    env_lookup, expr_type, list_type, map_type, merge_rhs, name_type, raw_type, scopes_lookup, unary_type,
    binary_type, value_type, agreed_type, lemma_position_binds, numeric_type, append_clean, function_check, parameter_bindings, parameters_clean,
    repeated_parameter, stmt_check, collected_functions, function_listed, program_accepted, program_env,
    program_symbols, top_functions, top_statements, block_check, stmts_check, condition_clean, for_source_type, popped, pushed, reassigned, retyped, retyped_scopes, with_local, Env,
};

verus! {

// ---------------------------------------------------------------------------
// What accepted programs satisfy
// ---------------------------------------------------------------------------

/// Whether control flow through a statement is guaranteed to reach `↩️`:
/// a return does, and so does an `if` whose two branches both do. A loop may
/// run zero times, so it never counts.
pub open spec fn stmt_returns(s: Stmt) -> bool
    decreases s,
{
    match s {
        Stmt::Return { .. } => true,
        Stmt::If { then_branch, else_branch, .. } => match else_branch {
            Some(b) => {
                &&& exists|k: int| 0 <= k < then_branch@.len() && stmt_returns(#[trigger] then_branch@[k])
                &&& exists|k: int| 0 <= k < b@.len() && stmt_returns(#[trigger] b@[k])
            },
            None => false,
        },
        _ => false,
    }
}

/// Whether control flow through a block is guaranteed to reach `↩️`.
pub open spec fn stmts_return(stmts: Seq<Stmt>) -> bool {
    exists|k: int| 0 <= k < stmts.len() && stmt_returns(#[trigger] stmts[k])
}

/// Whether a statement is a function definition or holds one in a nested block.
pub open spec fn has_function(s: Stmt) -> bool
    decreases s,
{
    match s {
        Stmt::Function { .. } => true,
        Stmt::If { then_branch, else_branch, .. } => {
            ||| exists|k: int| 0 <= k < then_branch@.len() && has_function(#[trigger] then_branch@[k])
            ||| match else_branch {
                Some(b) => exists|k: int| 0 <= k < b@.len() && has_function(#[trigger] b@[k]),
                None => false,
            }
        },
        Stmt::While { body, .. } => exists|k: int| 0 <= k < body@.len() && has_function(#[trigger] body@[k]),
        Stmt::For { body, .. } => exists|k: int| 0 <= k < body@.len() && has_function(#[trigger] body@[k]),
        _ => false,
    }
}

/// Whether `🛑` and `⏭️` occur only inside a loop of the same function
/// (`in_loop` says whether one encloses the statement).
pub open spec fn jumps_in_loops(s: Stmt, in_loop: bool) -> bool
    decreases s,
{
    match s {
        Stmt::Break { .. } => in_loop,
        Stmt::Continue { .. } => in_loop,
        Stmt::If { then_branch, else_branch, .. } => {
            &&& forall|k: int| 0 <= k < then_branch@.len() ==> jumps_in_loops(#[trigger] then_branch@[k], in_loop)
            &&& match else_branch {
                Some(b) => forall|k: int| 0 <= k < b@.len() ==> jumps_in_loops(#[trigger] b@[k], in_loop),
                None => true,
            }
        },
        Stmt::While { body, .. } => forall|k: int| 0 <= k < body@.len() ==> jumps_in_loops(#[trigger] body@[k], true),
        Stmt::For { body, .. } => forall|k: int| 0 <= k < body@.len() ==> jumps_in_loops(#[trigger] body@[k], true),
        Stmt::Function { body, .. } => forall|k: int| 0 <= k < body@.len() ==> jumps_in_loops(#[trigger] body@[k], false),
        _ => true,
    }
}

/// Function definitions stand at the top level only: no block, and no
/// function body, holds one.
pub open spec fn functions_at_top_level(stmts: Seq<Stmt>) -> bool {
    forall|k: int| 0 <= k < stmts.len() ==> match #[trigger] stmts[k] {
        Stmt::Function { body, .. } => forall|j: int| 0 <= j < body@.len() ==> !has_function(#[trigger] body@[j]),
        s => !has_function(s),
    }
}

/// No two top-level functions share a name.
pub open spec fn function_names_distinct(stmts: Seq<Stmt>) -> bool {
    forall|i: int, j: int| 0 <= i < j < stmts.len() ==> match (#[trigger] stmts[i], #[trigger] stmts[j]) {
        (Stmt::Function { name: a, .. }, Stmt::Function { name: b, .. }) => a@ != b@,
        _ => true,
    }
}

/// Every top-level function returns a value on every path.
pub open spec fn functions_return(stmts: Seq<Stmt>) -> bool {
    forall|k: int| 0 <= k < stmts.len() ==> match #[trigger] stmts[k] {
        Stmt::Function { body, .. } => stmts_return(body@),
        _ => true,
    }
}

/// The rules on program structure that every accepted program satisfies.
pub open spec fn well_structured(stmts: Seq<Stmt>) -> bool {
    &&& functions_at_top_level(stmts)
    &&& function_names_distinct(stmts)
    &&& functions_return(stmts)
    &&& forall|k: int| 0 <= k < stmts.len() ==> jumps_in_loops(#[trigger] stmts[k], false)
}

/// Every name that a top-level assignment or constant declares is in `symbols`.
pub open spec fn declares_top_level(stmts: Seq<Stmt>, symbols: Map<Seq<char>, Type>) -> bool {
    forall|k: int| 0 <= k < stmts.len() ==> match #[trigger] stmts[k] {
        Stmt::Assign { name, .. } => symbols.contains_key(name@),
        Stmt::Const { name, .. } => symbols.contains_key(name@),
        _ => true,
    }
}

/// Whether a statement declares a top-level name (an assignment or a constant).
pub open spec fn declared_name(s: Stmt) -> Option<Seq<char>> {
    match s {
        Stmt::Assign { name, .. } => Some(name@),
        Stmt::Const { name, .. } => Some(name@),
        _ => None,
    }
}

/// Structure facts about the non-function statements among the first `k`.
pub open spec fn statements_checked(stmts: Seq<Stmt>, k: int, symbols: Map<Seq<char>, Type>) -> bool {
    forall|j: int| 0 <= j < k ==> match #[trigger] stmts[j] {
        Stmt::Function { .. } => true,
        s => {
            &&& jumps_in_loops(s, false)
            &&& !has_function(s)
            &&& declared_name(s) is Some ==> symbols.contains_key(declared_name(s)->0)
        },
    }
}

/// Structure facts about the function bodies among the first `k` statements.
pub open spec fn functions_checked(stmts: Seq<Stmt>, k: int) -> bool {
    forall|j: int| 0 <= j < k ==> match #[trigger] stmts[j] {
        Stmt::Function { body, .. } => {
            &&& stmts_return(body@)
            &&& forall|b: int| 0 <= b < body@.len() ==> jumps_in_loops(#[trigger] body@[b], false)
            &&& forall|b: int| 0 <= b < body@.len() ==> !has_function(#[trigger] body@[b])
        },
        _ => true,
    }
}

/// No two of the first `k` statements are functions with the same name.
pub open spec fn names_distinct_before(stmts: Seq<Stmt>, k: int) -> bool {
    forall|i: int, j: int| 0 <= i < j < k ==> match (#[trigger] stmts[i], #[trigger] stmts[j]) {
        (Stmt::Function { name: a, .. }, Stmt::Function { name: b, .. }) => a@ != b@,
        _ => true,
    }
}

// ---------------------------------------------------------------------------
// Checked programs
// ---------------------------------------------------------------------------

/// A successfully checked program and the semantic metadata needed downstream.
#[derive(Debug)]
pub struct CheckedProgram {
    /// The parsed program that was checked.
    pub program: Program,
    /// Top-level declarations discovered during semantic analysis.
    pub symbols: SymbolTable,
    /// Byte spans (start, end) of unresolved identifiers that should be treated
    /// as emoji literals instead of variables; each occurs once.
    pub emoji_literals: Vec<(usize, usize)>,
}

/// Whether control flow through a sequence is guaranteed to encounter return.
pub fn statements_definitely_return(statements: &Vec<Stmt>) -> (r: bool)
    ensures
        r == stmts_return(statements@),
    decreases statements,
{
    let mut k: usize = 0;
    while k < statements.len()
        invariant
            0 <= k <= statements@.len(),
            forall|j: int| 0 <= j < k ==> !stmt_returns(#[trigger] statements@[j]),
        decreases statements@.len() - k,
    {
        if statement_definitely_returns(&statements[k]) {
            return true;
        }
        k = k + 1;
    }
    false
}

/// Whether control flow through one statement is guaranteed to encounter return.
pub fn statement_definitely_returns(statement: &Stmt) -> (r: bool)
    ensures
        r == stmt_returns(*statement),
    decreases statement,
{
    match statement {
        Stmt::Return { .. } => true,
        Stmt::If { then_branch, else_branch: Some(else_branch), .. } => {
            statements_definitely_return(then_branch) && statements_definitely_return(else_branch)
        },
        _ => false,
    }
}

/// Whether a static type can take part in numeric operations.
fn is_numeric(ty: &Type) -> (r: bool)
    ensures
        r == numeric_type(*ty),
{
    matches!(ty, Type::Num | Type::Float | Type::Unknown)
}

/// The symbol shown for a binary operator in diagnostics.
pub open spec fn op_text(op: BinaryOp) -> Seq<char> {
    match op {
        BinaryOp::Add => "➕"@,
        BinaryOp::Sub => "➖"@,
        BinaryOp::Mul => "✖️"@,
        BinaryOp::Div => "➗"@,
        BinaryOp::Append => "📥"@,
        BinaryOp::And => "🤝"@,
        BinaryOp::Or => "🔀"@,
        BinaryOp::Index => "🔎"@,
        BinaryOp::Eq => "🟰🟰"@,
        BinaryOp::NotEq => "❌🟰"@,
        BinaryOp::Lt => "◀️"@,
        BinaryOp::Gt => "▶️"@,
        BinaryOp::LtEq => "◀️🟰"@,
        BinaryOp::GtEq => "▶️🟰"@,
        BinaryOp::Has => "🔑"@,
    }
}

/// The types of the operands of a binary operation `e` as the checker infers
/// them, each with whether it is free of errors.
pub open spec fn binary_operands(env: Env, e: Expr) -> ((Option<Type>, bool), (Option<Type>, bool)) {
    match e {
        Expr::Binary { left, op, right, .. } => {
            let raw_left = op is Index || op is Add;
            let raw_right = op is Index || op is Add || op is Has;
            (
                if raw_left { raw_type(env, *left) } else { expr_type(env, *left) },
                if raw_right { raw_type(env, *right) } else { expr_type(env, *right) },
            )
        },
        _ => ((None, false), (None, false)),
    }
}

/// The diagnostic message of a binary operator `op` (other than `📥`) on
/// operands of types `l` and `r`, or `None` where it accepts them.
pub open spec fn binary_message(op: BinaryOp, l: Type, r: Type) -> Option<Seq<char>> {
    match op {
        BinaryOp::Index => if index_type(l, r) is Some {
            None
        } else {
            Some(match l {
                Type::List(_) => "list index requires a num index"@,
                Type::TextMap(_) => "map lookup requires a text key"@,
                Type::Str => "text index requires a num index"@,
                _ => "list index requires a list value on the left"@,
            })
        },
        BinaryOp::And | BinaryOp::Or => if (l is Bool || l is Unknown) && (r is Bool || r is Unknown) {
            None
        } else {
            Some("logical operator "@ + op_text(op) + " requires bool operands"@)
        },
        BinaryOp::Add | BinaryOp::Sub | BinaryOp::Mul | BinaryOp::Div => if arithmetic_type(op, l, r) is Some {
            None
        } else if op is Add && (l is Str || r is Str) {
            Some("string concatenation requires both operands to be text"@)
        } else {
            Some("arithmetic operator "@ + op_text(op) + " requires num operands"@)
        },
        BinaryOp::Lt | BinaryOp::Gt | BinaryOp::LtEq | BinaryOp::GtEq => if numeric_type(l) && numeric_type(r) {
            None
        } else {
            Some("ordering comparison requires numeric operands"@)
        },
        BinaryOp::Eq | BinaryOp::NotEq => if l is Unknown || r is Unknown {
            None
        } else if l is List || r is List {
            Some("list equality is not supported in Peps v0"@)
        } else if l is TextMap || r is TextMap {
            Some("map equality is not supported in Peps v0"@)
        } else if comparable(l, r) {
            None
        } else {
            Some("equality comparison requires operands of the same type"@)
        },
        BinaryOp::Has => if !(l is TextMap || l is Unknown) {
            Some("map key existence requires a map value"@)
        } else if !(r is Str || r is Unknown) {
            Some("map key existence requires a text key"@)
        } else {
            None
        },
        BinaryOp::Append => None,
    }
}

/// Return the display symbol used in diagnostics for a binary operator.
pub fn op_symbol(op: BinaryOp) -> (r: &'static str)
    ensures
        r@ == op_text(op),
{
    match op {
        BinaryOp::Add => "➕",
        BinaryOp::Sub => "➖",
        BinaryOp::Mul => "✖️",
        BinaryOp::Div => "➗",
        BinaryOp::Append => "📥",
        BinaryOp::And => "🤝",
        BinaryOp::Or => "🔀",
        BinaryOp::Index => "🔎",
        BinaryOp::Eq => "🟰🟰",
        BinaryOp::NotEq => "❌🟰",
        BinaryOp::Lt => "◀️",
        BinaryOp::Gt => "▶️",
        BinaryOp::LtEq => "◀️🟰",
        BinaryOp::GtEq => "▶️🟰",
        BinaryOp::Has => "🔑",
    }
}

/// `first`, then `second`, then `third`, as one text.
fn joined(first: &str, second: &str, third: &str) -> (r: String)
    ensures
        r@ == first@ + second@ + third@,
{
    let mut r = owned(first);
    push_str(&mut r, second);
    push_str(&mut r, third);
    r
}

// ---------------------------------------------------------------------------
// The checker
// ---------------------------------------------------------------------------

/// A block-local binding.
struct Binding {
    name: String,
    ty: Type,
    constant: bool,
}

impl Binding {
    fn duplicate(&self) -> (r: Binding)
        ensures
            r.name@ == self.name@,
            r.ty == self.ty,
            r.constant == self.constant,
    {
        Binding { name: self.name.clone(), ty: self.ty.duplicate(), constant: self.constant }
    }
}

struct Checker {
    /// Top-level variables and constants.
    symbols: SymbolTable,
    /// Names of top-level constants.
    constants: Vec<String>,
    /// Bindings declared in nested lexical scopes, innermost last.
    local_scopes: Vec<Vec<Binding>>,
    /// Semantic errors collected during the pass.
    diagnostics: Vec<Diagnostic>,
    /// Unresolved identifier spans that are valid emoji literal expressions.
    emoji_literals: Vec<(usize, usize)>,
    /// Function names and arities collected before checking statements.
    functions: Vec<(String, usize)>,
}

/// The view of a local binding: its name, type and constness.
spec fn binding_view(b: Binding) -> (Seq<char>, Type, bool) {
    (b.name@, b.ty, b.constant)
}

/// The view of a local scope.
spec fn scope_view(scope: Seq<Binding>) -> Seq<(Seq<char>, Type, bool)> {
    scope.map_values(|b: Binding| binding_view(b))
}

/// What the checker knows, as an environment of the static rules.
spec fn env_of(c: Checker) -> Env {
    Env {
        symbols: c.symbols@,
        constants: c.constants@.map_values(|n: String| n@),
        scopes: c.local_scopes@.map_values(|v: Vec<Binding>| scope_view(v@)),
        functions: c.functions@.map_values(|f: (String, usize)| (f.0@, f.1 as nat)),
    }
}

/// The diagnostics of a checker, by value.
pub open spec fn diags_view(ds: Seq<Diagnostic>) -> Seq<Report> {
    ds.map_values(|d: Diagnostic| (d.message@, d.span))
}

/// The spans recorded as emoji literals.
spec fn emoji_set(c: Checker) -> Set<(usize, usize)> {
    Set::new(|p: (usize, usize)| c.emoji_literals@.contains(p))
}

/// `a` and `b` know the same names.
spec fn same_env(a: Checker, b: Checker) -> bool {
    &&& a.symbols@ == b.symbols@
    &&& a.constants@ == b.constants@
    &&& a.local_scopes@ == b.local_scopes@
    &&& a.functions@ == b.functions@
}

/// Whether parameter `p` repeats the name of an earlier one.
fn repeats_earlier(parameters: &Vec<String>, p: usize) -> (r: bool)
    requires
        p < parameters@.len(),
    ensures
        r == repeated_parameter(parameters@, p as int),
{
    let mut j: usize = 0;
    while j < p
        invariant
            p < parameters@.len(),
            0 <= j <= p,
            forall|i: int| 0 <= i < j ==> (#[trigger] parameters@[i])@ != parameters@[p as int]@,
        decreases p - j,
    {
        if parameters[j] == parameters[p] {
            return true;
        }
        j = j + 1;
    }
    false
}

/// Skipping positions that hold other names does not change the first position of `name`.
proof fn lemma_binding_position_skip(scope: Seq<(Seq<char>, Type, bool)>, name: Seq<char>, k: int)
    requires
        0 <= k <= scope.len(),
        forall|j: int| 0 <= j < k ==> (#[trigger] scope[j]).0 != name,
    ensures
        binding_position(scope, name, 0) == binding_position(scope, name, k),
    decreases k,
{
    if k > 0 {
        lemma_binding_position_skip(scope, name, k - 1);
    }
}

/// Skipping functions of other names does not change the arity found for `name`.
proof fn lemma_arity_skip(functions: Seq<(Seq<char>, nat)>, name: Seq<char>, k: int)
    requires
        0 <= k <= functions.len(),
        forall|j: int| 0 <= j < k ==> (#[trigger] functions[j]).0 != name,
    ensures
        arity_from(functions, name, 0) == arity_from(functions, name, k),
    decreases k,
{
    if k > 0 {
        lemma_arity_skip(functions, name, k - 1);
    }
}

impl Checker {
    /// Record a diagnostic.
    fn report(&mut self, message: &str, span: Span)
        ensures
            diags_view(final(self).diagnostics@) == diags_view(old(self).diagnostics@) + one(message@, span),
            final(self).diagnostics@.len() == old(self).diagnostics@.len() + 1,
            final(self).diagnostics@.drop_last() == old(self).diagnostics@,
            final(self).diagnostics@.last().message@ == message@,
            final(self).diagnostics@.last().span == Some(span),
            same_env(*old(self), *final(self)),
            final(self).emoji_literals@ == old(self).emoji_literals@,
    {
        self.diagnostics.push(Diagnostic::at(message, span));
    }

    /// Record that the identifier at `span` is an emoji literal.
    fn record_emoji_literal(&mut self, span: Span)
        ensures
            final(self).diagnostics@ == old(self).diagnostics@,
            same_env(*old(self), *final(self)),
            final(self).emoji_literals@ == if old(self).emoji_literals@.contains((span.start, span.end)) {
                old(self).emoji_literals@
            } else {
                old(self).emoji_literals@.push((span.start, span.end))
            },
            emoji_set(*final(self)) == emoji_set(*old(self)).insert((span.start, span.end)),
    {
        let mut k: usize = 0;
        while k < self.emoji_literals.len()
            invariant
                0 <= k <= self.emoji_literals@.len(),
                self.emoji_literals@ == old(self).emoji_literals@,
                forall|j: int| 0 <= j < k ==> #[trigger] self.emoji_literals@[j] != (span.start, span.end),
            decreases self.emoji_literals@.len() - k,
        {
            if self.emoji_literals[k].0 == span.start && self.emoji_literals[k].1 == span.end {
                proof {
                    assert(self.emoji_literals@[k as int] == (span.start, span.end));
                    assert(emoji_set(*self) =~= emoji_set(*old(self)).insert((span.start, span.end)));
                }
                return;
            }
            k = k + 1;
        }
        self.emoji_literals.push((span.start, span.end));
        proof {
            let grown = self.emoji_literals@;
            let before = old(self).emoji_literals@;
            assert(grown[before.len() as int] == (span.start, span.end));
            assert forall|p: (usize, usize)| #[trigger] before.contains(p) implies grown.contains(p) by {
                let j = choose|j: int| 0 <= j < before.len() && before[j] == p;
                assert(grown[j] == p);
            }
            assert forall|p: (usize, usize)| #[trigger] grown.contains(p) implies before.contains(p) || p == (span.start, span.end) by {
                let j = choose|j: int| 0 <= j < grown.len() && grown[j] == p;
                if j < before.len() {
                    assert(before[j] == p);
                }
            }
            assert(emoji_set(*self) =~= emoji_set(*old(self)).insert((span.start, span.end)));
        }
    }

    /// The arity of a collected function.
    fn function_arity(&self, name: &str) -> (r: Option<usize>)
        ensures
            match r {
                Some(a) => arity_from(env_of(*self).functions, name@, 0) == Some(a as nat),
                None => arity_from(env_of(*self).functions, name@, 0) is None,
            },
    {
        let ghost functions = env_of(*self).functions;
        let key = owned(name);
        let mut k: usize = 0;
        while k < self.functions.len()
            invariant
                0 <= k <= self.functions@.len(),
                key@ == name@,
                functions == env_of(*self).functions,
                forall|j: int| 0 <= j < k ==> (#[trigger] functions[j]).0 != name@,
            decreases self.functions@.len() - k,
        {
            if self.functions[k].0 == key {
                proof {
                    lemma_arity_skip(functions, name@, k as int);
                }
                return Some(self.functions[k].1);
            }
            assert(functions[k as int].0 != name@);
            k = k + 1;
        }
        proof {
            lemma_arity_skip(functions, name@, k as int);
        }
        None
    }

    /// Whether `name` is a top-level constant.
    fn is_top_level_constant(&self, name: &str) -> (r: bool)
        ensures
            r == env_of(*self).constants.contains(name@),
    {
        let ghost constants = env_of(*self).constants;
        let key = owned(name);
        let mut k: usize = 0;
        while k < self.constants.len()
            invariant
                0 <= k <= self.constants@.len(),
                key@ == name@,
                constants == env_of(*self).constants,
                forall|j: int| 0 <= j < k ==> (#[trigger] constants[j]) != name@,
            decreases self.constants@.len() - k,
        {
            if self.constants[k] == key {
                assert(constants[k as int] == name@);
                return true;
            }
            assert(constants[k as int] != name@);
            k = k + 1;
        }
        false
    }

    /// Look up a name in local scopes first, then top-level declarations:
    /// its type and whether it is a constant.
    fn lookup(&self, name: &str) -> (r: Option<(Type, bool)>)
        ensures
            r == env_lookup(env_of(*self), name@),
            self.local_scopes@.len() == 0 ==> match r {
                Some(found) => self.symbols@.contains_key(name@),
                None => !self.symbols@.contains_key(name@),
            },
    {
        let ghost scopes = env_of(*self).scopes;
        let key = owned(name);
        let mut s: usize = self.local_scopes.len();
        assert(scopes.subrange(0, s as int) =~= scopes);
        while s > 0
            invariant
                s <= self.local_scopes@.len(),
                key@ == name@,
                scopes == env_of(*self).scopes,
                scopes_lookup(scopes, name@) == scopes_lookup(scopes.subrange(0, s as int), name@),
            decreases s,
        {
            s = s - 1;
            let scope = &self.local_scopes[s];
            let ghost view = scopes[s as int];
            assert(view == scope_view(scope@));
            assert(scopes.subrange(0, s as int + 1).drop_last() =~= scopes.subrange(0, s as int));
            assert(scopes.subrange(0, s as int + 1).last() == view);
            let mut k: usize = 0;
            while k < scope.len()
                invariant
                    0 <= k <= scope@.len(),
                    s < self.local_scopes@.len(),
                    key@ == name@,
                    view == scope_view(scope@),
                    forall|j: int| 0 <= j < k ==> (#[trigger] view[j]).0 != name@,
                    scopes == env_of(*self).scopes,
                    scopes_lookup(scopes, name@) == scopes_lookup(scopes.subrange(0, s as int + 1), name@),
                    scopes.subrange(0, s as int + 1).last() == view,
                    scopes.subrange(0, s as int + 1).drop_last() == scopes.subrange(0, s as int),
                    scopes.subrange(0, s as int + 1).len() > 0,
                decreases scope@.len() - k,
            {
                if scope[k].name == key {
                    proof {
                        lemma_binding_position_skip(view, name@, k as int);
                    }
                    return Some((scope[k].ty.duplicate(), scope[k].constant));
                }
                assert(view[k as int].0 != name@);
                k = k + 1;
            }
            proof {
                lemma_binding_position_skip(view, name@, k as int);
            }
        }
        match self.symbols.get(name) {
            Some(ty) => Some((ty.duplicate(), self.is_top_level_constant(name))),
            None => None,
        }
    }

    /// The type of the nearest visible binding called `name`.
    fn lookup_type(&self, name: &str) -> (r: Option<Type>)
        ensures
            r == match env_lookup(env_of(*self), name@) {
                Some(found) => Some(found.0),
                None => None,
            },
    {
        match self.lookup(name) {
            Some((ty, _)) => Some(ty),
            None => None,
        }
    }

    /// Start a new block-local scope.
    fn push_scope(&mut self)
        ensures
            final(self).local_scopes@.len() == old(self).local_scopes@.len() + 1,
            final(self).diagnostics@ == old(self).diagnostics@,
            final(self).symbols@ == old(self).symbols@,
            final(self).functions@ == old(self).functions@,
            final(self).constants@ == old(self).constants@,
            env_of(*final(self)) == pushed(env_of(*old(self))),
            final(self).emoji_literals@ == old(self).emoji_literals@,
    {
        self.local_scopes.push(Vec::new());
        proof {
            let n = old(self).local_scopes@.len() as int;
            assert(self.local_scopes@[n]@ == Seq::<Binding>::empty());
            assert(scope_view(self.local_scopes@[n]@) =~= Seq::<(Seq<char>, Type, bool)>::empty());
            assert(env_of(*self).scopes =~= pushed(env_of(*old(self))).scopes);
        }
    }

    /// End the innermost block-local scope.
    fn pop_scope(&mut self)
        requires
            old(self).local_scopes@.len() > 0,
        ensures
            final(self).local_scopes@.len() == old(self).local_scopes@.len() - 1,
            final(self).diagnostics@ == old(self).diagnostics@,
            final(self).symbols@ == old(self).symbols@,
            final(self).functions@ == old(self).functions@,
            final(self).constants@ == old(self).constants@,
            env_of(*final(self)) == popped(env_of(*old(self))),
            final(self).emoji_literals@ == old(self).emoji_literals@,
    {
        self.local_scopes.pop();
        proof {
            assert(env_of(*self).scopes =~= popped(env_of(*old(self))).scopes);
        }
    }

    /// Insert a binding into the innermost local scope.
    fn insert_local(&mut self, name: &str, ty: Type, constant: bool)
        ensures
            final(self).local_scopes@.len() == old(self).local_scopes@.len(),
            final(self).diagnostics@ == old(self).diagnostics@,
            final(self).symbols@ == old(self).symbols@,
            final(self).functions@ == old(self).functions@,
            final(self).constants@ == old(self).constants@,
            env_of(*final(self)) == with_local(env_of(*old(self)), name@, ty, constant),
            final(self).emoji_literals@ == old(self).emoji_literals@,
    {
        let ghost ty_view = ty;
        match self.local_scopes.pop() {
            Some(mut scope) => {
                let ghost before = scope@;
                scope.push(Binding { name: owned(name), ty, constant });
                self.local_scopes.push(scope);
                proof {
                    let old_env = env_of(*old(self));
                    assert(scope_view(scope@) =~= scope_view(before).push((name@, ty_view, constant)));
                    assert(old_env.scopes.last() == scope_view(before));
                    assert(env_of(*self).scopes =~= with_local(old_env, name@, ty_view, constant).scopes);
                }
            },
            None => {},
        }
    }

    /// Replace the type of the nearest visible binding after reassignment.
    fn replace_visible_binding(&mut self, name: &str, ty: Type)
        ensures
            final(self).local_scopes@.len() == old(self).local_scopes@.len(),
            final(self).diagnostics@ == old(self).diagnostics@,
            old(self).symbols@.dom().subset_of(final(self).symbols@.dom()),
            old(self).local_scopes@.len() == 0 ==> final(self).symbols@ == old(self).symbols@.insert(name@, ty),
            final(self).functions@ == old(self).functions@,
            final(self).constants@ == old(self).constants@,
            env_of(*final(self)) == reassigned(env_of(*old(self)), name@, ty),
            final(self).emoji_literals@ == old(self).emoji_literals@,
    {
        let ghost scopes = env_of(*old(self)).scopes;
        let ghost new_ty = ty;
        let key = owned(name);
        let mut s: usize = self.local_scopes.len();
        while s > 0
            invariant
                s <= self.local_scopes@.len(),
                self.local_scopes@ == old(self).local_scopes@,
                self.diagnostics@ == old(self).diagnostics@,
                self.symbols@ == old(self).symbols@,
                self.functions@ == old(self).functions@,
                self.constants@ == old(self).constants@,
                self.emoji_literals@ == old(self).emoji_literals@,
                key@ == name@,
                new_ty == ty,
                scopes == env_of(*old(self)).scopes,
                retyped_scopes(scopes, name@, ty, scopes.len() as int) == retyped_scopes(scopes, name@, ty, s as int),
            decreases s,
        {
            s = s - 1;
            let ghost view = scopes[s as int];
            let mut found = false;
            let mut replaced: Vec<Binding> = Vec::new();
            let mut k: usize = 0;
            let count = self.local_scopes[s].len();
            while k < count
                invariant
                    0 <= k <= count,
                    s < self.local_scopes@.len(),
                    count == self.local_scopes@[s as int]@.len(),
                    self.local_scopes@ == old(self).local_scopes@,
                    scopes == env_of(*old(self)).scopes,
                    view == scopes[s as int],
                    view == scope_view(self.local_scopes@[s as int]@),
                    key@ == name@,
                    new_ty == ty,
                    scope_view(replaced@) == retyped(view.subrange(0, k as int), name@, ty),
                    found == exists|j: int| 0 <= j < k && (#[trigger] view[j]).0 == name@,
                decreases count - k,
            {
                let binding = self.local_scopes[s][k].duplicate();
                let ghost before = replaced@;
                if binding.name == key {
                    found = true;
                    replaced.push(Binding { name: binding.name, ty: ty.duplicate(), constant: binding.constant });
                } else {
                    replaced.push(binding);
                }
                proof {
                    assert(view[k as int] == binding_view(self.local_scopes@[s as int]@[k as int]));
                    assert(view.subrange(0, k as int + 1) =~= view.subrange(0, k as int).push(view[k as int]));
                    assert(scope_view(replaced@) =~= scope_view(before).push(binding_view(replaced@[k as int])));
                    assert(scope_view(replaced@) =~= retyped(view.subrange(0, k as int + 1), name@, ty));
                    if found {
                        if view[k as int].0 != name@ {
                            let j = choose|j: int| 0 <= j < k && (#[trigger] view[j]).0 == name@;
                            assert(view[j].0 == name@);
                        }
                    }
                }
                k = k + 1;
            }
            proof {
                lemma_position_binds(view, name@, 0);
                assert(view.subrange(0, count as int) =~= view);
            }
            if found {
                self.local_scopes.set(s, replaced);
                proof {
                    let j = choose|j: int| 0 <= j < count && (#[trigger] view[j]).0 == name@;
                    assert(env_of(*self).scopes =~= scopes.update(s as int, retyped(view, name@, ty)));
                }
                return;
            }
        }
        self.symbols.insert(key, ty);
    }

    /// Check one statement and recursively walk any nested block it owns.
    #[verifier::rlimit(60)]
    fn check_statement(&mut self, statement: &Stmt, in_loop: bool)
        ensures
            diags_view(final(self).diagnostics@) == diags_view(old(self).diagnostics@) + stmt_reports(env_of(*old(self)), *statement, in_loop),
            (env_of(*final(self)), final(self).diagnostics@.len() == old(self).diagnostics@.len())
                == stmt_check(env_of(*old(self)), *statement, in_loop),
            final(self).diagnostics@.len() == old(self).diagnostics@.len()
                ==> emoji_set(*final(self)) == emoji_set(*old(self)).union(stmt_emoji(env_of(*old(self)), *statement, in_loop)),
            final(self).diagnostics@.len() >= old(self).diagnostics@.len(),
            final(self).local_scopes@.len() == old(self).local_scopes@.len(),
            final(self).functions@ == old(self).functions@,
            old(self).symbols@.dom().subset_of(final(self).symbols@.dom()),
            final(self).diagnostics@.len() == old(self).diagnostics@.len() ==> {
                &&& jumps_in_loops(*statement, in_loop)
                &&& !has_function(*statement)
                &&& (old(self).local_scopes@.len() == 0 && declared_name(*statement) is Some)
                    ==> final(self).symbols@.contains_key(declared_name(*statement)->0)
            },
        decreases statement,
    {
        match statement {
            Stmt::Assign { name, expr, span } => {
                if let Some(assigned_type) = self.infer_assignment_rhs(expr) {
                    match self.lookup(name.as_str()) {
                        Some((_, constant)) => {
                            if constant {
                                let message = joined("constant ", name.as_str(), " cannot be reassigned");
                                self.report(message.as_str(), *span);
                            } else {
                                self.replace_visible_binding(name.as_str(), assigned_type);
                            }
                        },
                        None => {
                            if self.local_scopes.len() == 0 {
                                self.symbols.insert(name.clone(), assigned_type);
                            } else {
                                self.insert_local(name.as_str(), assigned_type, false);
                            }
                        },
                    }
                }
            },
            Stmt::Const { name, expr, span } => {
                if let Some(constant_type) = self.infer_assignment_rhs(expr) {
                    if self.lookup(name.as_str()).is_some() {
                        let message = joined("constant ", name.as_str(), " cannot reuse a visible name");
                        self.report(message.as_str(), *span);
                    } else if self.local_scopes.len() == 0 {
                        self.symbols.insert(name.clone(), constant_type);
                        self.constants.push(name.clone());
                        proof {
                            assert(env_of(*self).constants =~= env_of(*old(self)).constants.push(name@));
                        }
                    } else {
                        self.insert_local(name.as_str(), constant_type, true);
                    }
                }
            },
            Stmt::Append { name, expr, span } => {
                self.check_append_statement(name.as_str(), expr, *span);
            },
            Stmt::Print { expr, .. } => {
                self.infer_expr(expr);
            },
            Stmt::Break { span } => {
                if !in_loop {
                    self.report("break can only be used inside loops", *span);
                }
            },
            Stmt::Continue { span } => {
                if !in_loop {
                    self.report("continue can only be used inside loops", *span);
                }
            },
            Stmt::Function { span, .. } => {
                self.report("function definitions are only allowed at the top level", *span);
            },
            Stmt::Return { expr, .. } => {
                self.infer_expr(expr);
            },
            Stmt::Call { expr, .. } => {
                self.infer_expr(expr);
            },
            Stmt::If { condition, then_branch, else_branch, span } => {
                self.check_condition(condition, "if", *span);
                self.check_block(then_branch, in_loop);
                match else_branch {
                    Some(else_branch) => {
                        self.check_block(else_branch, in_loop);
                    },
                    None => {},
                }
            },
            Stmt::While { condition, body, span } => {
                self.check_condition(condition, "while", *span);
                self.check_block(body, true);
            },
            Stmt::For { variable, source, body, span } => {
                let variable_available = self.check_loop_variable_available(variable.as_str(), *span);
                let loop_type = self.infer_for_source(source);
                if variable_available {
                    if let Some(loop_type) = loop_type {
                        self.push_scope();
                        self.insert_local(variable.as_str(), loop_type, false);
                        self.check_statements(body, true);
                        self.pop_scope();
                    }
                }
            },
        }
    }

    /// Check the statements of a block in a fresh scope.
    fn check_block(&mut self, statements: &Vec<Stmt>, in_loop: bool)
        ensures
            diags_view(final(self).diagnostics@) == diags_view(old(self).diagnostics@) + block_reports(env_of(*old(self)), statements@, in_loop),
            (env_of(*final(self)), final(self).diagnostics@.len() == old(self).diagnostics@.len())
                == block_check(env_of(*old(self)), statements@, in_loop),
            final(self).diagnostics@.len() == old(self).diagnostics@.len()
                ==> emoji_set(*final(self)) == emoji_set(*old(self)).union(block_emoji(env_of(*old(self)), statements@, in_loop)),
            final(self).diagnostics@.len() >= old(self).diagnostics@.len(),
            final(self).local_scopes@.len() == old(self).local_scopes@.len(),
            final(self).functions@ == old(self).functions@,
            old(self).symbols@.dom().subset_of(final(self).symbols@.dom()),
            final(self).diagnostics@.len() == old(self).diagnostics@.len() ==> {
                &&& forall|k: int| 0 <= k < statements@.len() ==> jumps_in_loops(#[trigger] statements@[k], in_loop)
                &&& forall|k: int| 0 <= k < statements@.len() ==> !has_function(#[trigger] statements@[k])
            },
        decreases statements, 1int,
    {
        self.push_scope();
        self.check_statements(statements, in_loop);
        self.pop_scope();
    }

    /// Check the statements of a block in the current scope.
    fn check_statements(&mut self, statements: &Vec<Stmt>, in_loop: bool)
        ensures
            diags_view(final(self).diagnostics@) == diags_view(old(self).diagnostics@) + stmts_reports(env_of(*old(self)), statements@, 0, in_loop),
            (env_of(*final(self)), final(self).diagnostics@.len() == old(self).diagnostics@.len())
                == stmts_check(env_of(*old(self)), statements@, 0, in_loop),
            final(self).diagnostics@.len() == old(self).diagnostics@.len()
                ==> emoji_set(*final(self)) == emoji_set(*old(self)).union(stmts_emoji(env_of(*old(self)), statements@, 0, in_loop)),
            final(self).diagnostics@.len() >= old(self).diagnostics@.len(),
            final(self).local_scopes@.len() == old(self).local_scopes@.len(),
            final(self).functions@ == old(self).functions@,
            old(self).symbols@.dom().subset_of(final(self).symbols@.dom()),
            final(self).diagnostics@.len() == old(self).diagnostics@.len() ==> {
                &&& forall|k: int| 0 <= k < statements@.len() ==> jumps_in_loops(#[trigger] statements@[k], in_loop)
                &&& forall|k: int| 0 <= k < statements@.len() ==> !has_function(#[trigger] statements@[k])
            },
        decreases statements, 0int,
    {
        let mut k: usize = 0;
        while k < statements.len()
            invariant
                0 <= k <= statements@.len(),
                self.diagnostics@.len() >= old(self).diagnostics@.len(),
                self.local_scopes@.len() == old(self).local_scopes@.len(),
                self.functions@ == old(self).functions@,
                old(self).symbols@.dom().subset_of(self.symbols@.dom()),
                self.diagnostics@.len() == old(self).diagnostics@.len() ==> {
                    &&& forall|j: int| 0 <= j < k ==> jumps_in_loops(#[trigger] statements@[j], in_loop)
                    &&& forall|j: int| 0 <= j < k ==> !has_function(#[trigger] statements@[j])
                },
                stmts_check(env_of(*old(self)), statements@, 0, in_loop) == (
                    stmts_check(env_of(*self), statements@, k as int, in_loop).0,
                    self.diagnostics@.len() == old(self).diagnostics@.len()
                        && stmts_check(env_of(*self), statements@, k as int, in_loop).1,
                ),
                self.diagnostics@.len() == old(self).diagnostics@.len() ==> emoji_set(*self).union(
                    stmts_emoji(env_of(*self), statements@, k as int, in_loop),
                ) == emoji_set(*old(self)).union(stmts_emoji(env_of(*old(self)), statements@, 0, in_loop)),
                diags_view(old(self).diagnostics@) + stmts_reports(env_of(*old(self)), statements@, 0, in_loop)
                    == diags_view(self.diagnostics@) + stmts_reports(env_of(*self), statements@, k as int, in_loop),
            decreases statements@.len() - k,
        {
            let ghost before = *self;
            self.check_statement(&statements[k], in_loop);
            proof {
                if self.diagnostics@.len() == old(self).diagnostics@.len() {
                    assert(emoji_set(*self).union(stmts_emoji(env_of(*self), statements@, k + 1, in_loop))
                        =~= emoji_set(before).union(stmts_emoji(env_of(before), statements@, k as int, in_loop)));
                }
                assert(diags_view(before.diagnostics@) + stmts_reports(env_of(before), statements@, k as int, in_loop)
                    =~= diags_view(self.diagnostics@) + stmts_reports(env_of(*self), statements@, k + 1, in_loop));
            }
            k = k + 1;
        }
        proof {
            assert(stmts_emoji(env_of(*self), statements@, k as int, in_loop) =~= Set::empty());
            assert(diags_view(self.diagnostics@) + stmts_reports(env_of(*self), statements@, k as int, in_loop)
                =~= diags_view(self.diagnostics@));
        }
    }

    /// Check a function body in its own scope, then restore the top-level types.
    fn check_function(&mut self, name: &String, parameters: &Vec<String>, body: &Vec<Stmt>, span: Span)
        requires
            old(self).local_scopes@.len() == 0,
        ensures
            diags_view(final(self).diagnostics@) == diags_view(old(self).diagnostics@) + function_reports(env_of(*old(self)), name@, parameters@, body@, span),
            final(self).diagnostics@.len() >= old(self).diagnostics@.len(),
            final(self).local_scopes@.len() == 0,
            final(self).functions@ == old(self).functions@,
            final(self).symbols@ == old(self).symbols@,
            final(self).diagnostics@.len() == old(self).diagnostics@.len() ==> {
                &&& stmts_return(body@)
                &&& forall|k: int| 0 <= k < body@.len() ==> jumps_in_loops(#[trigger] body@[k], false)
                &&& forall|k: int| 0 <= k < body@.len() ==> !has_function(#[trigger] body@[k])
            },
            (env_of(*final(self)), final(self).diagnostics@.len() == old(self).diagnostics@.len())
                == function_check(env_of(*old(self)), parameters@, body@),
            final(self).diagnostics@.len() == old(self).diagnostics@.len()
                ==> emoji_set(*final(self)) == emoji_set(*old(self)).union(function_emoji(env_of(*old(self)), parameters@, body@)),
    {
        // Reassignments are visible throughout this body, but checking one
        // function must not make another function's inferred global types
        // depend on source order. Runtime calls determine those mutations.
        let globals_before_body = self.symbols.duplicate();
        let ghost env = env_of(*old(self));
        self.push_scope();
        proof {
            assert(env_of(*self).scopes =~= seq![parameter_bindings(env.symbols, parameters@, 0)]);
        }
        let mut p: usize = 0;
        while p < parameters.len()
            invariant
                0 <= p <= parameters@.len(),
                self.local_scopes@.len() == 1,
                self.diagnostics@.len() >= old(self).diagnostics@.len(),
                self.functions@ == old(self).functions@,
                self.symbols@ == old(self).symbols@,
                self.constants@ == old(self).constants@,
                self.emoji_literals@ == old(self).emoji_literals@,
                env == env_of(*old(self)),
                env_of(*self).scopes == seq![parameter_bindings(env.symbols, parameters@, p as int)],
                (self.diagnostics@.len() == old(self).diagnostics@.len())
                    == parameters_clean(env.symbols, parameters@, p as int),
                diags_view(self.diagnostics@) == diags_view(old(self).diagnostics@)
                    + parameter_reports(env.symbols, name@, parameters@, p as int, span),
            decreases parameters@.len() - p,
        {
            let parameter = &parameters[p];
            let ghost before = self.diagnostics@;
            if repeats_earlier(parameters, p) {
                let mut message = joined("function ", name.as_str(), " has duplicate parameter ");
                push_str(&mut message, parameter.as_str());
                self.report(message.as_str(), span);
            } else if self.symbols.contains(parameter.as_str()) {
                let message = joined("parameter ", parameter.as_str(), " conflicts with a top-level variable");
                self.report(message.as_str(), span);
            } else {
                self.insert_local(parameter.as_str(), Type::Unknown, false);
                proof {
                    assert(env_of(*self).scopes =~= seq![parameter_bindings(env.symbols, parameters@, p as int + 1)]);
                }
            }
            proof {
                assert(diags_view(self.diagnostics@) =~= diags_view(old(self).diagnostics@)
                    + parameter_reports(env.symbols, name@, parameters@, p as int + 1, span));
            }
            p = p + 1;
        }
        proof {
            assert(env_of(*self) == Env {
                symbols: env.symbols,
                constants: env.constants,
                scopes: seq![parameter_bindings(env.symbols, parameters@, parameters@.len() as int)],
                functions: env.functions,
            });
        }
        self.check_statements(body, false);
        self.pop_scope();
        self.symbols = globals_before_body;
        proof {
            assert(env_of(*self).scopes =~= Seq::<Seq<(Seq<char>, Type, bool)>>::empty());
            assert(env_of(*self) == function_check(env, parameters@, body@).0);
        }

        if !statements_definitely_return(body) {
            let message = joined("function ", name.as_str(), " does not return a value on every path");
            self.report(message.as_str(), span);
        }
    }

    /// Reject loop variables that would shadow visible bindings.
    fn check_loop_variable_available(&mut self, variable: &str, span: Span) -> (r: bool)
        ensures
            diags_view(final(self).diagnostics@) == diags_view(old(self).diagnostics@) + (if env_lookup(env_of(*old(self)), variable@) is None {
                none()
            } else {
                one("loop variable "@ + variable@ + " is already declared"@, span)
            }),
            r == (env_lookup(env_of(*old(self)), variable@) is None),
            r == (final(self).diagnostics@.len() == old(self).diagnostics@.len()),
            same_env(*old(self), *final(self)),
            final(self).emoji_literals@ == old(self).emoji_literals@,
            final(self).diagnostics@.len() >= old(self).diagnostics@.len(),
            !r ==> final(self).diagnostics@.len() > old(self).diagnostics@.len(),
            final(self).local_scopes@.len() == old(self).local_scopes@.len(),
            final(self).functions@ == old(self).functions@,
            final(self).symbols@ == old(self).symbols@,
    {
        if self.lookup(variable).is_some() {
            let message = joined("loop variable ", variable, " is already declared");
            self.report(message.as_str(), span);
            false
        } else {
            true
        }
    }

    /// Infer the item type produced by a `for` source.
    fn infer_for_source(&mut self, source: &ForSource) -> (r: Option<Type>)
        ensures
            diags_view(final(self).diagnostics@) == diags_view(old(self).diagnostics@) + source_reports(env_of(*old(self)), *source),
            (r, final(self).diagnostics@.len() == old(self).diagnostics@.len())
                == for_source_type(env_of(*old(self)), *source),
            same_env(*old(self), *final(self)),
            final(self).diagnostics@.len() == old(self).diagnostics@.len()
                ==> emoji_set(*final(self)) == emoji_set(*old(self)).union(for_source_emoji(env_of(*old(self)), *source)),
            final(self).diagnostics@.len() >= old(self).diagnostics@.len(),
            r is None ==> final(self).diagnostics@.len() > old(self).diagnostics@.len(),
            final(self).local_scopes@.len() == old(self).local_scopes@.len(),
            final(self).functions@ == old(self).functions@,
            final(self).symbols@ == old(self).symbols@,
    {
        match source {
            ForSource::List { expr, span } => match self.infer_expr(expr) {
                Some(Type::List(element_type)) => Some(*element_type),
                Some(Type::Unknown) => Some(Type::Unknown),
                Some(_) => {
                    self.report("for-each source must be a list", *span);
                    None
                },
                None => None,
            },
            ForSource::Range { start, end, span } => {
                let start_type = self.infer_expr(start);
                let end_type = self.infer_expr(end);
                if matches!(start_type, Some(Type::Num) | Some(Type::Unknown))
                    && matches!(end_type, Some(Type::Num) | Some(Type::Unknown)) {
                    Some(Type::Num)
                } else {
                    self.report("range bounds must be integers", *span);
                    None
                }
            },
        }
    }

    /// Ensure a control-flow condition is boolean.
    fn check_condition(&mut self, condition: &Expr, kind: &str, span: Span)
        ensures
            diags_view(final(self).diagnostics@) == diags_view(old(self).diagnostics@) + condition_reports(env_of(*old(self)), *condition, kind@, span),
            (final(self).diagnostics@.len() == old(self).diagnostics@.len())
                == condition_clean(env_of(*old(self)), *condition),
            same_env(*old(self), *final(self)),
            final(self).diagnostics@.len() == old(self).diagnostics@.len()
                ==> emoji_set(*final(self)) == emoji_set(*old(self)).union(expr_emoji(env_of(*old(self)), *condition)),
            final(self).diagnostics@.len() >= old(self).diagnostics@.len(),
            final(self).local_scopes@.len() == old(self).local_scopes@.len(),
            final(self).functions@ == old(self).functions@,
            final(self).symbols@ == old(self).symbols@,
    {
        if let Some(ty) = self.infer_expr(condition) {
            if !matches!(ty, Type::Bool | Type::Unknown) {
                let message = joined(kind, " condition must be bool", "");
                self.report(message.as_str(), span);
            }
        }
    }

    /// Validate append-assignment syntax against an existing list or map variable.
    fn check_append_statement(&mut self, name: &str, expr: &Expr, span: Span)
        ensures
            diags_view(final(self).diagnostics@) == diags_view(old(self).diagnostics@) + append_reports(env_of(*old(self)), name@, *expr, span),
            (final(self).diagnostics@.len() == old(self).diagnostics@.len())
                == append_clean(env_of(*old(self)), name@, *expr),
            same_env(*old(self), *final(self)),
            final(self).diagnostics@.len() == old(self).diagnostics@.len()
                ==> emoji_set(*final(self)) == emoji_set(*old(self)).union(expr_emoji(env_of(*old(self)), *expr)),
            final(self).diagnostics@.len() >= old(self).diagnostics@.len(),
            final(self).local_scopes@.len() == old(self).local_scopes@.len(),
            final(self).functions@ == old(self).functions@,
            final(self).symbols@ == old(self).symbols@,
    {
        let (target_ty, constant) = match self.lookup(name) {
            Some(found) => found,
            None => {
                let message = joined("list append target ", name, " is not declared");
                self.report(message.as_str(), span);
                return;
            },
        };
        if constant {
            let message = joined("constant ", name, " cannot be updated with 📥");
            self.report(message.as_str(), span);
            return;
        }
        match target_ty {
            Type::Unknown => {
                self.infer_expr(expr);
            },
            Type::List(element_type) => {
                self.check_append_rhs(expr, &element_type, span);
            },
            Type::TextMap(value_type) => {
                self.check_merge_rhs(expr, &value_type, span);
            },
            _ => {
                self.report("list append requires a list variable on the left", span);
            },
        }
    }

    /// Infer an assignment right-hand side using declaration-only literal rules.
    fn infer_assignment_rhs(&mut self, expr: &Expr) -> (r: Option<Type>)
        ensures
            diags_view(final(self).diagnostics@) == diags_view(old(self).diagnostics@) + assigned_reports(env_of(*old(self)), *expr),
            (r, final(self).diagnostics@.len() == old(self).diagnostics@.len()) == assigned_type(env_of(*old(self)), *expr),
            final(self).diagnostics@.len() >= old(self).diagnostics@.len(),
            r is None ==> final(self).diagnostics@.len() > old(self).diagnostics@.len(),
            same_env(*old(self), *final(self)),
            final(self).diagnostics@.len() == old(self).diagnostics@.len()
                ==> emoji_set(*final(self)) == emoji_set(*old(self)).union(expr_emoji(env_of(*old(self)), *expr)),
    {
        match expr {
            Expr::String { .. } => Some(Type::Str),
            Expr::Variable { name, span } => self.infer_name(name.as_str(), *span),
            Expr::List { .. } => self.infer_list(expr, true, true),
            _ => self.infer_expr(expr),
        }
    }

    /// The type of a name: its binding's type, or an emoji literal when no
    /// binding of that name is visible.
    fn infer_name(&mut self, name: &str, span: Span) -> (r: Option<Type>)
        ensures
            final(self).diagnostics@ == old(self).diagnostics@,
            r == Some(name_type(env_of(*old(self)), name@)),
            same_env(*old(self), *final(self)),
            emoji_set(*final(self)) == if env_lookup(env_of(*old(self)), name@) is None {
                emoji_set(*old(self)).insert((span.start, span.end))
            } else {
                emoji_set(*old(self))
            },
    {
        match self.lookup_type(name) {
            Some(ty) => Some(ty),
            None => {
                self.record_emoji_literal(span);
                Some(Type::Emoji)
            },
        }
    }

    /// Infer an expression type under normal expression rules.
    fn infer_expr(&mut self, expr: &Expr) -> (r: Option<Type>)
        ensures
            diags_view(final(self).diagnostics@) == diags_view(old(self).diagnostics@) + expr_reports(env_of(*old(self)), *expr),
            (r, final(self).diagnostics@.len() == old(self).diagnostics@.len()) == expr_type(env_of(*old(self)), *expr),
            *expr matches Expr::String { span, .. } ==> {
                &&& final(self).diagnostics@.len() == old(self).diagnostics@.len() + 1
                &&& final(self).diagnostics@.last().message@ == "Raw string literals can only be assigned to variables in Peps v0."@
                &&& final(self).diagnostics@.last().span == Some(span)
            },
            final(self).diagnostics@.len() >= old(self).diagnostics@.len(),
            r is None ==> final(self).diagnostics@.len() > old(self).diagnostics@.len(),
            same_env(*old(self), *final(self)),
            final(self).diagnostics@.len() == old(self).diagnostics@.len()
                ==> emoji_set(*final(self)) == emoji_set(*old(self)).union(expr_emoji(env_of(*old(self)), *expr)),
        decreases expr, 3int,
    {
        match expr {
            Expr::Number { .. } => Some(Type::Num),
            Expr::Float { .. } => Some(Type::Float),
            Expr::String { span, .. } => {
                self.report("Raw string literals can only be assigned to variables in Peps v0.", *span);
                None
            },
            Expr::Bool { .. } => Some(Type::Bool),
            Expr::Variable { name, span } => self.infer_name(name.as_str(), *span),
            Expr::List { .. } => self.infer_list(expr, false, false),
            Expr::MapLiteral { .. } => self.infer_map(expr),
            Expr::Call { name, arguments, span } => {
                let mut k: usize = 0;
                proof {
                    assert(decreases_to!(*expr => *arguments));
                }
                while k < arguments.len()
                    invariant
                        0 <= k <= arguments@.len(),
                        decreases_to!(*expr => *arguments),
                        self.diagnostics@.len() >= old(self).diagnostics@.len(),
                        same_env(*old(self), *self),
                        arguments_clean(env_of(*old(self)), arguments@, 0)
                            == (self.diagnostics@.len() == old(self).diagnostics@.len()
                                && arguments_clean(env_of(*old(self)), arguments@, k as int)),
                        self.diagnostics@.len() == old(self).diagnostics@.len() ==> emoji_set(*self).union(
                            exprs_emoji(env_of(*old(self)), arguments@, k as int),
                        ) == emoji_set(*old(self)).union(exprs_emoji(env_of(*old(self)), arguments@, 0)),
                        diags_view(old(self).diagnostics@) + args_reports(env_of(*old(self)), arguments@, 0)
                            == diags_view(self.diagnostics@) + args_reports(env_of(*old(self)), arguments@, k as int),
                    decreases arguments@.len() - k,
                {
                    proof {
                        assert(decreases_to!(*arguments => arguments[k as int]));
                    }
                    let ghost before = *self;
                    self.infer_expr(&arguments[k]);
                    proof {
                        let env = env_of(*old(self));
                        if self.diagnostics@.len() == old(self).diagnostics@.len() {
                            assert(emoji_set(*self).union(exprs_emoji(env, arguments@, k + 1))
                                =~= emoji_set(before).union(exprs_emoji(env, arguments@, k as int)));
                        }
                        assert(diags_view(before.diagnostics@) + args_reports(env, arguments@, k as int)
                            =~= diags_view(self.diagnostics@) + args_reports(env, arguments@, k + 1));
                    }
                    k = k + 1;
                }
                proof {
                    assert(exprs_emoji(env_of(*old(self)), arguments@, k as int) =~= Set::empty());
                    assert(diags_view(self.diagnostics@) + args_reports(env_of(*old(self)), arguments@, k as int)
                        =~= diags_view(self.diagnostics@));
                }
                match self.function_arity(name.as_str()) {
                    None => {
                        let message = joined("function ", name.as_str(), " is not defined");
                        self.report(message.as_str(), *span);
                        None
                    },
                    Some(arity) => {
                        if arity != arguments.len() {
                            let mut message = joined("function ", name.as_str(), " expects ");
                            push_decimal(&mut message, arity);
                            push_str(&mut message, " arguments but received ");
                            push_decimal(&mut message, arguments.len());
                            self.report(message.as_str(), *span);
                            None
                        } else {
                            Some(Type::Unknown)
                        }
                    },
                }
            },
            Expr::Unary { .. } => self.infer_unary(expr, false),
            Expr::Binary { .. } => self.infer_binary(expr),
            Expr::Input { kind, .. } => match kind {
                InputKind::Text => Some(Type::Str),
                InputKind::Integer => Some(Type::Num),
                InputKind::Float => Some(Type::Float),
                InputKind::Bool => Some(Type::Bool),
            },
            Expr::Convert { kind, expr: operand, span } => {
                let ty = self.infer_expr_allow_raw_strings(operand)?;
                match kind {
                    ConversionKind::Integer => {
                        if matches!(ty, Type::Str | Type::Unknown) {
                            Some(Type::Num)
                        } else {
                            self.report("integer conversion requires text", *span);
                            None
                        }
                    },
                    ConversionKind::Float => {
                        if matches!(ty, Type::Str | Type::Num | Type::Unknown) {
                            Some(Type::Float)
                        } else {
                            self.report("float conversion requires text or an integer", *span);
                            None
                        }
                    },
                }
            },
        }
    }

    /// Infer an expression type in a context where raw string literals are legal.
    fn infer_expr_allow_raw_strings(&mut self, expr: &Expr) -> (r: Option<Type>)
        ensures
            diags_view(final(self).diagnostics@) == diags_view(old(self).diagnostics@) + raw_reports(env_of(*old(self)), *expr),
            (r, final(self).diagnostics@.len() == old(self).diagnostics@.len()) == raw_type(env_of(*old(self)), *expr),
            final(self).diagnostics@.len() >= old(self).diagnostics@.len(),
            r is None ==> final(self).diagnostics@.len() > old(self).diagnostics@.len(),
            same_env(*old(self), *final(self)),
            final(self).diagnostics@.len() == old(self).diagnostics@.len()
                ==> emoji_set(*final(self)) == emoji_set(*old(self)).union(expr_emoji(env_of(*old(self)), *expr)),
        decreases expr, 4int,
    {
        match expr {
            Expr::String { .. } => Some(Type::Str),
            Expr::List { .. } => self.infer_list(expr, true, false),
            Expr::Unary { .. } => self.infer_unary(expr, true),
            _ => self.infer_expr(expr),
        }
    }

    /// Infer the type of a prefix operation (`expr` is the `Unary` node).
    fn infer_unary(&mut self, expr: &Expr, allow_raw_strings: bool) -> (r: Option<Type>)
        requires
            expr is Unary,
        ensures
            diags_view(final(self).diagnostics@) == diags_view(old(self).diagnostics@) + unary_reports(env_of(*old(self)), *expr, allow_raw_strings),
            (r, final(self).diagnostics@.len() == old(self).diagnostics@.len()) == unary_type(env_of(*old(self)), *expr, allow_raw_strings),
            final(self).diagnostics@.len() >= old(self).diagnostics@.len(),
            r is None ==> final(self).diagnostics@.len() > old(self).diagnostics@.len(),
            same_env(*old(self), *final(self)),
            final(self).diagnostics@.len() == old(self).diagnostics@.len()
                ==> emoji_set(*final(self)) == emoji_set(*old(self)).union(expr_emoji(env_of(*old(self)), *expr)),
        decreases expr, 2int,
    {
        match expr {
            Expr::Unary { op, expr: operand, span } => {
                match op {
                    UnaryOp::Negate => {
                        let ty = if allow_raw_strings {
                            self.infer_expr_allow_raw_strings(operand)?
                        } else {
                            self.infer_expr(operand)?
                        };
                        if is_numeric(&ty) {
                            Some(ty)
                        } else {
                            self.report("numeric negation requires a numeric operand", *span);
                            None
                        }
                    },
                    UnaryOp::Not => {
                        let ty = if allow_raw_strings {
                            self.infer_expr_allow_raw_strings(operand)?
                        } else {
                            self.infer_expr(operand)?
                        };
                        if matches!(ty, Type::Bool | Type::Unknown) {
                            Some(Type::Bool)
                        } else {
                            self.report("logical not requires a bool operand", *span);
                            None
                        }
                    },
                    UnaryOp::Len => {
                        let ty = self.infer_expr_allow_raw_strings(operand)?;
                        if matches!(ty, Type::List(_) | Type::TextMap(_) | Type::Str | Type::Unknown) {
                            Some(Type::Num)
                        } else {
                            self.report("list length requires text, a list, or a map operand", *span);
                            None
                        }
                    },
                }
            },
            _ => None,
        }
    }

    /// Infer the type of a binary operation (`expr` is the `Binary` node).
    #[verifier::rlimit(60)]
    fn infer_binary(&mut self, expr: &Expr) -> (r: Option<Type>)
        requires
            expr is Binary,
        ensures
            diags_view(final(self).diagnostics@) == diags_view(old(self).diagnostics@) + binary_reports(env_of(*old(self)), *expr),
            (r, final(self).diagnostics@.len() == old(self).diagnostics@.len()) == binary_type(env_of(*old(self)), *expr),
            final(self).diagnostics@.len() >= old(self).diagnostics@.len(),
            r is None ==> final(self).diagnostics@.len() > old(self).diagnostics@.len(),
            same_env(*old(self), *final(self)),
            final(self).diagnostics@.len() == old(self).diagnostics@.len()
                ==> emoji_set(*final(self)) == emoji_set(*old(self)).union(expr_emoji(env_of(*old(self)), *expr)),
            ({
                let ((l, lc), (r, rc)) = binary_operands(env_of(*old(self)), *expr);
                *expr matches Expr::Binary { op, .. } && lc && rc && l is Some && r is Some
                    && binary_message(op, l->Some_0, r->Some_0) is Some
            }) ==> {
                let ((l, _), (r, _)) = binary_operands(env_of(*old(self)), *expr);
                &&& final(self).diagnostics@.len() == old(self).diagnostics@.len() + 1
                &&& final(self).diagnostics@.last().message@ == binary_message(expr->Binary_op, l->Some_0, r->Some_0)->Some_0
                &&& final(self).diagnostics@.last().span == Some(expr->Binary_span)
            },
        decreases expr, 2int,
    {
        let (left, op, right, span) = match expr {
            Expr::Binary { left, op, right, span } => (left, *op, right, *span),
            _ => {
                return None;
            },
        };
        match op {
            BinaryOp::Index => {
                let left_ty = self.infer_expr_allow_raw_strings(left)?;
                let right_ty = self.infer_expr_allow_raw_strings(right)?;
                match (left_ty, right_ty) {
                    (Type::List(element_type), Type::Num) => Some(*element_type),
                    (Type::List(element_type), Type::Unknown) => Some(*element_type),
                    (Type::TextMap(value_type), Type::Str) => Some(*value_type),
                    (Type::TextMap(value_type), Type::Unknown) => Some(*value_type),
                    (Type::Str, Type::Num) => Some(Type::Str),
                    (Type::Str, Type::Unknown) => Some(Type::Str),
                    (Type::Unknown, Type::Num) => Some(Type::Unknown),
                    (Type::Unknown, Type::Str) => Some(Type::Unknown),
                    (Type::Unknown, Type::Unknown) => Some(Type::Unknown),
                    (Type::List(_), _) => {
                        self.report("list index requires a num index", span);
                        None
                    },
                    (Type::TextMap(_), _) => {
                        self.report("map lookup requires a text key", span);
                        None
                    },
                    (Type::Str, _) => {
                        self.report("text index requires a num index", span);
                        None
                    },
                    _ => {
                        self.report("list index requires a list value on the left", span);
                        None
                    },
                }
            },
            BinaryOp::Append => {
                let left_ty = self.infer_expr(left)?;
                match left_ty {
                    Type::Unknown => {
                        self.infer_expr(right)?;
                        Some(Type::Unknown)
                    },
                    Type::List(element_type) => {
                        self.check_append_rhs(right, &element_type, span)?;
                        Some(Type::List(element_type))
                    },
                    Type::TextMap(value_type) => {
                        self.check_merge_rhs(right, &value_type, span)?;
                        Some(Type::TextMap(value_type))
                    },
                    _ => {
                        self.report("list append requires a list value on the left", span);
                        None
                    },
                }
            },
            BinaryOp::And | BinaryOp::Or => {
                let left_ty = self.infer_expr(left)?;
                let right_ty = self.infer_expr(right)?;
                if matches!(left_ty, Type::Bool | Type::Unknown) && matches!(right_ty, Type::Bool | Type::Unknown) {
                    Some(Type::Bool)
                } else {
                    let message = joined("logical operator ", op_symbol(op), " requires bool operands");
                    self.report(message.as_str(), span);
                    None
                }
            },
            BinaryOp::Add | BinaryOp::Sub | BinaryOp::Mul | BinaryOp::Div => {
                let is_add = matches!(op, BinaryOp::Add);
                let left_ty = if is_add {
                    self.infer_expr_allow_raw_strings(left)?
                } else {
                    self.infer_expr(left)?
                };
                let right_ty = if is_add {
                    self.infer_expr_allow_raw_strings(right)?
                } else {
                    self.infer_expr(right)?
                };
                if matches!(left_ty, Type::Unknown) || matches!(right_ty, Type::Unknown) {
                    Some(Type::Unknown)
                } else if is_numeric(&left_ty) && is_numeric(&right_ty) {
                    if matches!(left_ty, Type::Float) || matches!(right_ty, Type::Float) {
                        Some(Type::Float)
                    } else {
                        Some(Type::Num)
                    }
                } else if is_add && matches!(left_ty, Type::Str) && matches!(right_ty, Type::Str) {
                    Some(Type::Str)
                } else if is_add && (matches!(left_ty, Type::Str) || matches!(right_ty, Type::Str)) {
                    self.report("string concatenation requires both operands to be text", span);
                    None
                } else {
                    let message = joined("arithmetic operator ", op_symbol(op), " requires num operands");
                    self.report(message.as_str(), span);
                    None
                }
            },
            BinaryOp::Lt | BinaryOp::Gt | BinaryOp::LtEq | BinaryOp::GtEq => {
                let left_ty = self.infer_expr(left)?;
                let right_ty = self.infer_expr(right)?;
                if is_numeric(&left_ty) && is_numeric(&right_ty) {
                    Some(Type::Bool)
                } else {
                    self.report("ordering comparison requires numeric operands", span);
                    None
                }
            },
            BinaryOp::Eq | BinaryOp::NotEq => {
                let left_ty = self.infer_expr(left)?;
                let right_ty = self.infer_expr(right)?;
                if matches!(left_ty, Type::Unknown) || matches!(right_ty, Type::Unknown) {
                    Some(Type::Bool)
                } else if matches!(left_ty, Type::List(_)) || matches!(right_ty, Type::List(_)) {
                    self.report("list equality is not supported in Peps v0", span);
                    None
                } else if matches!(left_ty, Type::TextMap(_)) || matches!(right_ty, Type::TextMap(_)) {
                    self.report("map equality is not supported in Peps v0", span);
                    None
                } else if left_ty.same(&right_ty) || (is_numeric(&left_ty) && is_numeric(&right_ty)) {
                    Some(Type::Bool)
                } else {
                    self.report("equality comparison requires operands of the same type", span);
                    None
                }
            },
            BinaryOp::Has => {
                let map_ty = self.infer_expr(left)?;
                let key_ty = self.infer_expr_allow_raw_strings(right)?;
                if !matches!(map_ty, Type::TextMap(_) | Type::Unknown) {
                    self.report("map key existence requires a map value", span);
                    None
                } else if !matches!(key_ty, Type::Str | Type::Unknown) {
                    self.report("map key existence requires a text key", span);
                    None
                } else {
                    Some(Type::Bool)
                }
            },
        }
    }

    /// Infer a homogeneous list type and reject unsupported list shapes
    /// (`expr` is the `List` node).
    #[verifier::rlimit(60)]
    fn infer_list(&mut self, expr: &Expr, allow_raw_strings: bool, allow_emoji_literals: bool) -> (r: Option<Type>)
        requires
            expr is List,
        ensures
            diags_view(final(self).diagnostics@) == diags_view(old(self).diagnostics@) + list_reports(env_of(*old(self)), *expr, allow_raw_strings, allow_emoji_literals),
            (r, final(self).diagnostics@.len() == old(self).diagnostics@.len()) == list_type(env_of(*old(self)), *expr, allow_raw_strings, allow_emoji_literals),
            *expr matches Expr::List { elements, span } ==> elements@.len() == 0 ==> {
                &&& final(self).diagnostics@.len() == old(self).diagnostics@.len() + 1
                &&& final(self).diagnostics@.last().message@
                    == "empty lists are not supported in Peps v0 because their element type cannot be inferred"@
                &&& final(self).diagnostics@.last().span == Some(span)
            },
            final(self).diagnostics@.len() >= old(self).diagnostics@.len(),
            r is None ==> final(self).diagnostics@.len() > old(self).diagnostics@.len(),
            same_env(*old(self), *final(self)),
            final(self).diagnostics@.len() == old(self).diagnostics@.len()
                ==> emoji_set(*final(self)) == emoji_set(*old(self)).union(expr_emoji(env_of(*old(self)), *expr)),
        decreases expr, 2int,
    {
        let (elements, span) = match expr {
            Expr::List { elements, span } => (elements, *span),
            _ => {
                return None;
            },
        };
        if elements.len() == 0 {
            self.report(
                "empty lists are not supported in Peps v0 because their element type cannot be inferred",
                span,
            );
            return None;
        }
        let mut agreed: Option<Type> = None;
        let mut k: usize = 0;
        proof {
            assert(decreases_to!(*expr => *elements));
        }
        assert(list_reports(env_of(*old(self)), *expr, allow_raw_strings, allow_emoji_literals)
            == elements_reports(env_of(*old(self)), elements@, 0, None, allow_raw_strings, allow_emoji_literals));
        while k < elements.len()
            invariant
                decreases_to!(*expr => *elements),
                *expr == (Expr::List { elements: *elements, span }),
                0 <= k <= elements@.len(),
                elements@.len() > 0,
                k > 0 ==> agreed is Some,
                self.diagnostics@.len() >= old(self).diagnostics@.len(),
                same_env(*old(self), *self),
                list_type(env_of(*old(self)), *expr, allow_raw_strings, allow_emoji_literals) == elements_type(
                    env_of(*old(self)),
                    elements@,
                    k as int,
                    agreed,
                    self.diagnostics@.len() == old(self).diagnostics@.len(),
                    allow_raw_strings,
                    allow_emoji_literals,
                ),
                self.diagnostics@.len() == old(self).diagnostics@.len() ==> emoji_set(*self).union(
                    exprs_emoji(env_of(*old(self)), elements@, k as int),
                ) == emoji_set(*old(self)).union(exprs_emoji(env_of(*old(self)), elements@, 0)),
                diags_view(old(self).diagnostics@) + list_reports(env_of(*old(self)), *expr, allow_raw_strings, allow_emoji_literals)
                    == diags_view(self.diagnostics@) + elements_reports(env_of(*old(self)), elements@, k as int, agreed, allow_raw_strings, allow_emoji_literals),
            decreases elements@.len() - k,
        {
            let ghost before = *self;
            let ghost agreed_before = agreed;
            let ghost rest = elements_reports(env_of(*old(self)), elements@, k as int, agreed, allow_raw_strings, allow_emoji_literals);
            let element = &elements[k];
            proof {
                assert(decreases_to!(*elements => elements[k as int]));
            }
            if let Expr::List { span: inner_span, .. } = element {
                self.report("nested lists are not supported in Peps v0", *inner_span);
                proof {
                    assert(diags_view(self.diagnostics@) =~= diags_view(before.diagnostics@) + rest);
                }
                return None;
            }
            let ghost env = env_of(*old(self));
            let ghost clean_before = self.diagnostics@.len() == old(self).diagnostics@.len();
            assert(env_of(*self) == env);
            assert(!(elements@[k as int] is List));
            assert(rest == element_reports(env, elements@[k as int], allow_raw_strings, allow_emoji_literals)
                + match element_type(env, elements@[k as int], allow_raw_strings, allow_emoji_literals).0 {
                    None => none(),
                    Some(t) => match agreed_type(agreed, t) {
                        None => one("list elements must all have the same type"@, expr_span(elements@[k as int])),
                        Some(a) => elements_reports(env, elements@, k + 1, Some(a), allow_raw_strings, allow_emoji_literals),
                    },
                });
            assert(elements_type(env, elements@, k as int, agreed, clean_before, allow_raw_strings, allow_emoji_literals)
                == match element_type(env, elements@[k as int], allow_raw_strings, allow_emoji_literals) {
                    (Some(t), c) => match agreed_type(agreed, t) {
                        Some(a) => elements_type(env, elements@, k + 1, Some(a), clean_before && c, allow_raw_strings, allow_emoji_literals),
                        None => (None, false),
                    },
                    (None, _) => (None, false),
                });
            let ty = match element {
                Expr::String { span: text_span, .. } => {
                    if allow_raw_strings {
                        Type::Str
                    } else {
                        self.report("Raw string literals can only be assigned to variables in Peps v0.", *text_span);
                        proof {
                            assert(diags_view(self.diagnostics@) =~= diags_view(before.diagnostics@) + rest);
                        }
                        return None;
                    }
                },
                Expr::Variable { name, span: name_span } => {
                    if allow_emoji_literals && self.lookup(name.as_str()).is_none() {
                        self.record_emoji_literal(*name_span);
                        Type::Emoji
                    } else {
                        match self.infer_expr(element) {
                            Some(t) => t,
                            None => {
                                proof {
                                    assert(diags_view(self.diagnostics@) =~= diags_view(before.diagnostics@) + rest);
                                }
                                return None;
                            },
                        }
                    }
                },
                _ => match self.infer_expr(element) {
                    Some(t) => t,
                    None => {
                        proof {
                            assert(diags_view(self.diagnostics@) =~= diags_view(before.diagnostics@) + rest);
                        }
                        return None;
                    },
                },
            };
            let ghost element_done = self.diagnostics@;
            match agreed {
                Some(expected) => {
                    if matches!(expected, Type::Unknown) && !matches!(ty, Type::Unknown) {
                        agreed = Some(ty);
                    } else if !matches!(ty, Type::Unknown) && !expected.same(&ty) {
                        self.report("list elements must all have the same type", element.span());
                        proof {
                            assert(diags_view(self.diagnostics@) =~= diags_view(before.diagnostics@) + rest);
                        }
                        return None;
                    } else {
                        agreed = Some(expected);
                    }
                },
                None => {
                    agreed = Some(ty);
                },
            }
            proof {
                if self.diagnostics@.len() == old(self).diagnostics@.len() {
                    let env = env_of(*old(self));
                    assert(emoji_set(*self) =~= emoji_set(before).union(expr_emoji(env, elements@[k as int])));
                    assert(emoji_set(*self).union(exprs_emoji(env, elements@, k + 1))
                        =~= emoji_set(before).union(exprs_emoji(env, elements@, k as int)));
                }
                assert(diags_view(before.diagnostics@) + rest =~= diags_view(self.diagnostics@)
                    + elements_reports(env_of(*old(self)), elements@, k + 1, agreed, allow_raw_strings, allow_emoji_literals));
            }
            k = k + 1;
        }
        proof {
            assert(exprs_emoji(env_of(*old(self)), elements@, k as int) =~= Set::empty());
            assert(diags_view(self.diagnostics@) + elements_reports(env_of(*old(self)), elements@, k as int, agreed, allow_raw_strings, allow_emoji_literals) =~= diags_view(self.diagnostics@));
        }
        match agreed {
            Some(ty) => Some(Type::List(Box::new(ty))),
            None => None,
        }
    }

    /// Infer a map literal's type: text keys and one value type
    /// (`expr` is the `MapLiteral` node).
    #[verifier::rlimit(60)]
    fn infer_map(&mut self, expr: &Expr) -> (r: Option<Type>)
        requires
            expr is MapLiteral,
        ensures
            diags_view(final(self).diagnostics@) == diags_view(old(self).diagnostics@) + map_reports(env_of(*old(self)), *expr),
            (r, final(self).diagnostics@.len() == old(self).diagnostics@.len()) == map_type(env_of(*old(self)), *expr),
            final(self).diagnostics@.len() >= old(self).diagnostics@.len(),
            r is None ==> final(self).diagnostics@.len() > old(self).diagnostics@.len(),
            same_env(*old(self), *final(self)),
            final(self).diagnostics@.len() == old(self).diagnostics@.len()
                ==> emoji_set(*final(self)) == emoji_set(*old(self)).union(expr_emoji(env_of(*old(self)), *expr)),
        decreases expr, 2int,
    {
        let (entries, span) = match expr {
            Expr::MapLiteral { entries, span } => (entries, *span),
            _ => {
                return None;
            },
        };
        if entries.len() == 0 {
            self.report(
                "empty maps are not supported in Peps v0 because their value type cannot be inferred",
                span,
            );
            return None;
        }
        let mut agreed: Option<Type> = None;
        let mut k: usize = 0;
        proof {
            assert(decreases_to!(*expr => *entries));
        }
        assert(map_reports(env_of(*old(self)), *expr) == entries_reports(env_of(*old(self)), entries@, 0, None));
        while k < entries.len()
            invariant
                decreases_to!(*expr => *entries),
                0 <= k <= entries@.len(),
                entries@.len() > 0,
                k > 0 ==> agreed is Some,
                self.diagnostics@.len() >= old(self).diagnostics@.len(),
                same_env(*old(self), *self),
                map_type(env_of(*old(self)), *expr) == entries_type(
                    env_of(*old(self)),
                    entries@,
                    k as int,
                    agreed,
                    self.diagnostics@.len() == old(self).diagnostics@.len(),
                ),
                self.diagnostics@.len() == old(self).diagnostics@.len() ==> emoji_set(*self).union(
                    entries_emoji(env_of(*old(self)), entries@, k as int),
                ) == emoji_set(*old(self)).union(entries_emoji(env_of(*old(self)), entries@, 0)),
                diags_view(old(self).diagnostics@) + map_reports(env_of(*old(self)), *expr)
                    == diags_view(self.diagnostics@) + entries_reports(env_of(*old(self)), entries@, k as int, agreed),
            decreases entries@.len() - k,
        {
            let ghost before = *self;
            let ghost rest = entries_reports(env_of(*old(self)), entries@, k as int, agreed);
            let key = &entries[k].0;
            let value = &entries[k].1;
            proof {
                assert(decreases_to!(*entries => entries[k as int]));
                assert(decreases_to!(entries[k as int] => entries[k as int].0));
                assert(decreases_to!(entries[k as int] => entries[k as int].1));
            }
            let ghost env = env_of(*old(self));
            let ghost clean_before = self.diagnostics@.len() == old(self).diagnostics@.len();
            assert(env_of(*self) == env);
            assert(rest == raw_reports(env, *key) + match raw_type(env, *key).0 {
                None => none(),
                Some(kt) => if !(kt is Str || kt is Unknown) {
                    one("map keys must be text"@, expr_span(*key))
                } else {
                    value_reports(env, *value) + match value_type(env, *value).0 {
                        None => none(),
                        Some(t) => match agreed_type(agreed, t) {
                            None => one("map values must all have the same type"@, expr_span(*value)),
                            Some(a) => entries_reports(env, entries@, k + 1, Some(a)),
                        },
                    }
                },
            });
            assert(value_reports(env, *value) == match *value {
                Expr::String { .. } => none(),
                Expr::Variable { .. } => none(),
                _ => raw_reports(env, *value),
            });
            let key_ty = match self.infer_expr_allow_raw_strings(key) {
                Some(t) => t,
                None => {
                    proof {
                        assert(diags_view(self.diagnostics@) =~= diags_view(before.diagnostics@) + rest);
                    }
                    return None;
                },
            };
            let ghost after_key = *self;
            if !matches!(key_ty, Type::Str | Type::Unknown) {
                self.report("map keys must be text", key.span());
                proof {
                    assert(diags_view(self.diagnostics@) =~= diags_view(before.diagnostics@) + rest);
                }
                return None;
            }
            assert(env_of(*self) == env);
            assert(value_type(env, *value) == match *value {
                Expr::String { .. } => (Some(Type::Str), true),
                Expr::Variable { name, .. } => (Some(name_type(env, name@)), true),
                _ => raw_type(env, *value),
            });
            let ty = match value {
                Expr::String { .. } => Type::Str,
                Expr::Variable { name, span: name_span } => match self.infer_name(name.as_str(), *name_span) {
                    Some(t) => t,
                    None => {
                        return None;
                    },
                },
                _ => match self.infer_expr_allow_raw_strings(value) {
                    Some(t) => t,
                    None => {
                        proof {
                            assert(diags_view(self.diagnostics@) =~= diags_view(before.diagnostics@) + rest);
                        }
                        return None;
                    },
                },
            };
            match agreed {
                Some(expected) => {
                    if matches!(expected, Type::Unknown) && !matches!(ty, Type::Unknown) {
                        agreed = Some(ty);
                    } else if !matches!(ty, Type::Unknown) && !expected.same(&ty) {
                        self.report("map values must all have the same type", value.span());
                        proof {
                            assert(diags_view(self.diagnostics@) =~= diags_view(before.diagnostics@) + rest);
                        }
                        return None;
                    } else {
                        agreed = Some(expected);
                    }
                },
                None => {
                    agreed = Some(ty);
                },
            }
            proof {
                if self.diagnostics@.len() == old(self).diagnostics@.len() {
                    let env = env_of(*old(self));
                    assert(emoji_set(after_key) =~= emoji_set(before).union(expr_emoji(env, entries@[k as int].0)));
                    assert(emoji_set(*self) =~= emoji_set(after_key).union(expr_emoji(env, entries@[k as int].1)));
                    assert(emoji_set(*self).union(entries_emoji(env, entries@, k + 1))
                        =~= emoji_set(before).union(entries_emoji(env, entries@, k as int)));
                }
                assert(diags_view(before.diagnostics@) + rest =~= diags_view(self.diagnostics@)
                    + entries_reports(env_of(*old(self)), entries@, k + 1, agreed));
            }
            k = k + 1;
        }
        proof {
            assert(entries_emoji(env_of(*old(self)), entries@, k as int) =~= Set::empty());
            assert(diags_view(self.diagnostics@) + entries_reports(env_of(*old(self)), entries@, k as int, agreed) =~= diags_view(self.diagnostics@));
        }
        match agreed {
            Some(ty) => Some(Type::TextMap(Box::new(ty))),
            None => None,
        }
    }

    /// Check the right-hand side of a list append against the element type.
    fn check_append_rhs(&mut self, expr: &Expr, expected_type: &Type, span: Span) -> (r: Option<()>)
        ensures
            diags_view(final(self).diagnostics@) == diags_view(old(self).diagnostics@) + append_rhs_reports(env_of(*old(self)), *expr, *expected_type, span),
            (r is Some, final(self).diagnostics@.len() == old(self).diagnostics@.len())
                == append_rhs(env_of(*old(self)), *expr, *expected_type),
            final(self).diagnostics@.len() >= old(self).diagnostics@.len(),
            r is None ==> final(self).diagnostics@.len() > old(self).diagnostics@.len(),
            same_env(*old(self), *final(self)),
            final(self).diagnostics@.len() == old(self).diagnostics@.len()
                ==> emoji_set(*final(self)) == emoji_set(*old(self)).union(expr_emoji(env_of(*old(self)), *expr)),
        decreases expr, 4int,
    {
        let right_ty = match (expected_type, expr) {
            (Type::Str, Expr::String { .. }) => Type::Str,
            (Type::Str, Expr::List { .. }) => self.infer_list(expr, true, true)?,
            _ => self.infer_expr(expr)?,
        };
        let matches_list = match &right_ty {
            Type::List(inner) => (**inner).same(expected_type),
            _ => false,
        };
        if matches!(expected_type, Type::Unknown) || matches!(right_ty, Type::Unknown)
            || right_ty.same(expected_type) || matches_list {
            Some(())
        } else {
            self.report("list append requires a value or list matching the list element type", span);
            None
        }
    }

    /// Check the right-hand side of a map merge against the value type.
    fn check_merge_rhs(&mut self, expr: &Expr, value_type: &Type, span: Span) -> (r: Option<()>)
        ensures
            diags_view(final(self).diagnostics@) == diags_view(old(self).diagnostics@) + merge_rhs_reports(env_of(*old(self)), *expr, *value_type, span),
            (r is Some, final(self).diagnostics@.len() == old(self).diagnostics@.len())
                == merge_rhs(env_of(*old(self)), *expr, *value_type),
            final(self).diagnostics@.len() >= old(self).diagnostics@.len(),
            r is None ==> final(self).diagnostics@.len() > old(self).diagnostics@.len(),
            same_env(*old(self), *final(self)),
            final(self).diagnostics@.len() == old(self).diagnostics@.len()
                ==> emoji_set(*final(self)) == emoji_set(*old(self)).union(expr_emoji(env_of(*old(self)), *expr)),
        decreases expr, 4int,
    {
        let right_ty = self.infer_expr(expr)?;
        let compatible = match &right_ty {
            Type::Unknown => true,
            Type::TextMap(inner) => matches!(value_type, Type::Unknown) || matches!(**inner, Type::Unknown)
                || (**inner).same(value_type),
            _ => false,
        };
        if compatible {
            Some(())
        } else {
            self.report("map merge requires a map with the same value type", span);
            None
        }
    }
}

/// Validate declarations and infer static types for a parsed Peps program.
///
/// On success this returns the same program with a populated symbol table
/// and the unresolved identifier spans that the compiler should lower as emoji
/// literals. On failure it returns every diagnostic collected while walking the
/// tree: functions defined twice, then the top-level statements, then the
/// function bodies, each in program order.
pub fn check(program: Program) -> (r: Result<CheckedProgram, Vec<Diagnostic>>)
    ensures
        match r {
            Ok(checked) => {
                &&& checked.program == program
                &&& well_structured(program.statements@)
                &&& declares_top_level(program.statements@, checked.symbols@)
            },
            Err(diagnostics) => diagnostics@.len() > 0,
        },
        r is Ok <==> program_accepted(program.statements@),
        r matches Ok(checked) ==> checked.symbols@ == program_symbols(program.statements@),
        r matches Err(diagnostics) ==> diags_view(diagnostics@) == program_reports(program.statements@),
        r matches Ok(checked) ==> forall|p: (usize, usize)|
            #[trigger] checked.emoji_literals@.contains(p) <==> program_emoji(program.statements@).contains(p),
{
    let mut checker = Checker {
        symbols: SymbolTable::new(),
        constants: Vec::new(),
        local_scopes: Vec::new(),
        diagnostics: Vec::new(),
        emoji_literals: Vec::new(),
        functions: Vec::new(),
    };
    let statements = &program.statements;

    // Function signatures are available before any body or top-level call is
    // checked, which enables both forward calls and recursion.
    let mut k: usize = 0;
    while k < statements.len()
        invariant
            0 <= k <= statements@.len(),
            checker.local_scopes@.len() == 0,
            checker.symbols@ == Map::<Seq<char>, Type>::empty(),
            checker.constants@.len() == 0,
            checker.emoji_literals@.len() == 0,
            (env_of(checker).functions, checker.diagnostics@.len() == 0) == collected_functions(statements@, k as int),
            diags_view(checker.diagnostics@) == collection_reports(statements@, k as int),
            checker.diagnostics@.len() == 0 ==> names_distinct_before(statements@, k as int),
            checker.diagnostics@.len() == 0 ==> forall|i: int| 0 <= i < k ==>
                match #[trigger] statements@[i] {
                    Stmt::Function { name, .. } => exists|f: int| 0 <= f < checker.functions@.len()
                        && (#[trigger] checker.functions@[f]).0@ == name@,
                    _ => true,
                },
        decreases statements@.len() - k,
    {
        let ghost reports_before = diags_view(checker.diagnostics@);
        proof {
            assert(collection_reports(statements@, k + 1) == collection_reports(statements@, k as int)
                + match statements@[k as int] {
                    Stmt::Function { name, span, .. } => if function_listed(collected_functions(statements@, k as int).0, name@) {
                        one("function "@ + name@ + " is already defined"@, span)
                    } else {
                        none()
                    },
                    _ => none(),
                });
        }
        if let Stmt::Function { name, parameters, span, .. } = &statements[k] {
            proof {
                let view = env_of(checker).functions;
                assert forall|f: int| 0 <= f < view.len() implies (#[trigger] view[f]).0 == checker.functions@[f].0@ by {}
            }
            let ghost collected_before = collected_functions(statements@, k as int);
            match checker.function_arity_position(name.as_str()) {
                Some(f) => {
                    proof {
                        let view = env_of(checker).functions;
                        assert(view[f as int].0 == name@);
                        assert(function_listed(view, name@));
                        assert(collected_functions(statements@, k as int + 1) == (collected_before.0, false));
                    }
                    let message = joined("function ", name.as_str(), " is already defined");
                    checker.report(message.as_str(), *span);
                    proof {
                        assert(diags_view(checker.diagnostics@) =~= collection_reports(statements@, k + 1));
                    }
                },
                None => {
                    let ghost before = checker.functions@;
                    let ghost view_before = env_of(checker).functions;
                    proof {
                        if function_listed(view_before, name@) {
                            let f = choose|f: int| 0 <= f < view_before.len() && (#[trigger] view_before[f]).0 == name@;
                            assert(before[f].0@ == name@);
                        }
                        assert(collected_functions(statements@, k as int + 1)
                            == (view_before.push((name@, parameters@.len())), collected_before.1));
                    }
                    checker.functions.push((name.clone(), parameters.len()));
                    proof {
                        assert(!function_listed(collected_before.0, name@));
                        assert(diags_view(checker.diagnostics@) =~= collection_reports(statements@, k + 1));
                        assert(env_of(checker).functions =~= view_before.push((name@, parameters@.len())));
                        assert(checker.functions@[before.len() as int].0@ == name@);
                        if checker.diagnostics@.len() == 0 {
                            assert forall|i: int, j: int| 0 <= i < j < k + 1 implies
                                match (#[trigger] statements@[i], #[trigger] statements@[j]) {
                                    (Stmt::Function { name: a, .. }, Stmt::Function { name: b, .. }) => a@ != b@,
                                    _ => true,
                                } by {
                                if j == k {
                                    if let Stmt::Function { name: a, .. } = statements@[i] {
                                        let f = choose|f: int| 0 <= f < before.len() && (#[trigger] before[f]).0@ == a@;
                                        assert(before[f] == checker.functions@[f]);
                                    }
                                }
                            }
                            assert forall|i: int| 0 <= i < k + 1 implies
                                match #[trigger] statements@[i] {
                                    Stmt::Function { name, .. } => exists|f: int| 0 <= f < checker.functions@.len()
                                        && (#[trigger] checker.functions@[f]).0@ == name@,
                                    _ => true,
                                } by {
                                if i < k {
                                    if let Stmt::Function { name: a, .. } = statements@[i] {
                                        let f = choose|f: int| 0 <= f < before.len() && (#[trigger] before[f]).0@ == a@;
                                        assert(before[f] == checker.functions@[f]);
                                    }
                                } else {
                                    assert(checker.functions@[before.len() as int].0@ == name@);
                                }
                            }
                        }
                    }
                },
            }
        } else {
            proof {
                assert(diags_view(checker.diagnostics@) =~= collection_reports(statements@, k + 1));
            }
        }
        k = k + 1;
    }
    let ghost functions_collected = checker.functions@;
    let ghost stmts = statements@;
    let ghost n = stmts.len() as int;
    let ghost functions_clean = collected_functions(stmts, n).1;
    proof {
        assert(env_of(checker).constants =~= Seq::<Seq<char>>::empty());
        assert(env_of(checker).scopes =~= Seq::<Seq<(Seq<char>, Type, bool)>>::empty());
        assert(env_of(checker) == program_env(stmts));
        assert(emoji_set(checker) =~= top_statements_emoji(program_env(stmts), stmts, 0));
    }

    let mut k: usize = 0;
    while k < statements.len()
        invariant
            0 <= k <= statements@.len(),
            checker.local_scopes@.len() == 0,
            checker.functions@ == functions_collected,
            checker.diagnostics@.len() == 0 ==> names_distinct_before(statements@, statements@.len() as int),
            checker.diagnostics@.len() == 0 ==> statements_checked(statements@, k as int, checker.symbols@),
            stmts == statements@,
            n == stmts.len(),
            functions_clean == collected_functions(stmts, n).1,
            env_of(checker) == top_statements(program_env(stmts), stmts, k as int).0,
            (checker.diagnostics@.len() == 0) == (functions_clean && top_statements(program_env(stmts), stmts, k as int).1),
            checker.diagnostics@.len() == 0 ==> emoji_set(checker) == top_statements_emoji(program_env(stmts), stmts, k as int),
            diags_view(checker.diagnostics@) == collection_reports(stmts, n) + top_statement_reports(program_env(stmts), stmts, k as int),
        decreases statements@.len() - k,
    {
        let statement = &statements[k];
        proof {
            assert(top_statement_reports(program_env(stmts), stmts, k + 1) == top_statement_reports(program_env(stmts), stmts, k as int)
                + match stmts[k as int] {
                    Stmt::Function { .. } => none(),
                    s => stmt_reports(top_statements(program_env(stmts), stmts, k as int).0, s, false),
                });
        }
        if !matches!(statement, Stmt::Function { .. }) {
            let ghost symbols_before = checker.symbols@;
            checker.check_statement(statement, false);
            proof {
                assert(diags_view(checker.diagnostics@) =~= collection_reports(stmts, n) + top_statement_reports(program_env(stmts), stmts, k + 1));
                if checker.diagnostics@.len() == 0 {
                    assert forall|j: int| 0 <= j < k + 1 implies match #[trigger] statements@[j] {
                        Stmt::Function { .. } => true,
                        s => {
                            &&& jumps_in_loops(s, false)
                            &&& !has_function(s)
                            &&& declared_name(s) is Some ==> checker.symbols@.contains_key(declared_name(s)->0)
                        },
                    } by {
                        if j < k {
                            match statements@[j] {
                                Stmt::Function { .. } => {},
                                s => {
                                    if declared_name(s) is Some {
                                        assert(symbols_before.contains_key(declared_name(s)->0));
                                    }
                                },
                            }
                        }
                    }
                }
            }
        } else {
            proof {
                assert(diags_view(checker.diagnostics@) =~= collection_reports(stmts, n) + top_statement_reports(program_env(stmts), stmts, k + 1));
            }
        }
        k = k + 1;
    }
    let ghost symbols_after_statements = checker.symbols@;
    let ghost after_statements = top_statements(program_env(stmts), stmts, n);
    proof {
        if checker.diagnostics@.len() == 0 {
            assert(emoji_set(checker) =~= top_statements_emoji(program_env(stmts), stmts, n).union(
                top_functions_emoji(after_statements.0, stmts, 0),
            ));
        }
    }

    let mut k: usize = 0;
    while k < statements.len()
        invariant
            0 <= k <= statements@.len(),
            checker.local_scopes@.len() == 0,
            checker.functions@ == functions_collected,
            checker.symbols@ == symbols_after_statements,
            checker.diagnostics@.len() == 0 ==> names_distinct_before(statements@, statements@.len() as int),
            checker.diagnostics@.len() == 0 ==> statements_checked(statements@, statements@.len() as int, checker.symbols@),
            checker.diagnostics@.len() == 0 ==> functions_checked(statements@, k as int),
            stmts == statements@,
            n == stmts.len(),
            functions_clean == collected_functions(stmts, n).1,
            after_statements == top_statements(program_env(stmts), stmts, n),
            env_of(checker) == top_functions(after_statements.0, stmts, k as int).0,
            (checker.diagnostics@.len() == 0)
                == (functions_clean && after_statements.1 && top_functions(after_statements.0, stmts, k as int).1),
            checker.diagnostics@.len() == 0 ==> emoji_set(checker) == top_statements_emoji(program_env(stmts), stmts, n).union(
                top_functions_emoji(after_statements.0, stmts, k as int),
            ),
            diags_view(checker.diagnostics@) == collection_reports(stmts, n) + top_statement_reports(program_env(stmts), stmts, n)
                + top_function_reports(after_statements.0, stmts, k as int),
        decreases statements@.len() - k,
    {
        proof {
            assert(top_function_reports(after_statements.0, stmts, k + 1) == top_function_reports(after_statements.0, stmts, k as int)
                + match stmts[k as int] {
                    Stmt::Function { name, parameters, body, span } => function_reports(
                        top_functions(after_statements.0, stmts, k as int).0,
                        name@,
                        parameters@,
                        body@,
                        span,
                    ),
                    _ => none(),
                });
        }
        if let Stmt::Function { name, parameters, body, span } = &statements[k] {
            checker.check_function(name, parameters, body, *span);
        }
        proof {
            assert(diags_view(checker.diagnostics@) =~= collection_reports(stmts, n) + top_statement_reports(program_env(stmts), stmts, n)
                + top_function_reports(after_statements.0, stmts, k + 1));
        }
        k = k + 1;
    }

    if checker.diagnostics.len() == 0 {
        proof {
            let stmts = program.statements@;
            assert forall|j: int| 0 <= j < stmts.len() implies jumps_in_loops(#[trigger] stmts[j], false) by {
                match stmts[j] {
                    Stmt::Function { body, .. } => {},
                    _ => {},
                }
            }
            assert forall|j: int| 0 <= j < stmts.len() implies match #[trigger] stmts[j] {
                Stmt::Function { body, .. } => forall|b: int| 0 <= b < body@.len() ==> !has_function(#[trigger] body@[b]),
                s => !has_function(s),
            } by {
                match stmts[j] {
                    Stmt::Function { body, .. } => {},
                    _ => {},
                }
            }
            assert forall|j: int| 0 <= j < stmts.len() implies match #[trigger] stmts[j] {
                Stmt::Function { body, .. } => stmts_return(body@),
                _ => true,
            } by {
                match stmts[j] {
                    Stmt::Function { body, .. } => {},
                    _ => {},
                }
            }
            assert forall|j: int| 0 <= j < stmts.len() implies match #[trigger] stmts[j] {
                Stmt::Assign { name, .. } => checker.symbols@.contains_key(name@),
                Stmt::Const { name, .. } => checker.symbols@.contains_key(name@),
                _ => true,
            } by {
                match stmts[j] {
                    Stmt::Assign { .. } => {},
                    Stmt::Const { .. } => {},
                    _ => {},
                }
            }
        }
        proof {
            assert(emoji_set(checker) =~= program_emoji(program.statements@));
            assert forall|p: (usize, usize)| #[trigger] checker.emoji_literals@.contains(p)
                <==> program_emoji(program.statements@).contains(p) by {
                assert(emoji_set(checker).contains(p) == checker.emoji_literals@.contains(p));
            }
        }
        Ok(CheckedProgram { program, symbols: checker.symbols, emoji_literals: checker.emoji_literals })
    } else {
        proof {
            assert(diags_view(checker.diagnostics@) == program_reports(program.statements@));
        }
        Err(checker.diagnostics)
    }
}

impl Checker {
    /// Where `name` stands among the collected functions, if it does.
    fn function_arity_position(&self, name: &str) -> (r: Option<usize>)
        ensures
            match r {
                Some(f) => f < self.functions@.len() && self.functions@[f as int].0@ == name@,
                None => forall|f: int| 0 <= f < self.functions@.len() ==> (#[trigger] self.functions@[f]).0@ != name@,
            },
    {
        let key = owned(name);
        let mut f: usize = 0;
        while f < self.functions.len()
            invariant
                key@ == name@,
                0 <= f <= self.functions@.len(),
                forall|g: int| 0 <= g < f ==> (#[trigger] self.functions@[g]).0@ != name@,
            decreases self.functions@.len() - f,
        {
            if self.functions[f].0 == key {
                return Some(f);
            }
            f = f + 1;
        }
        None
    }
}

} // verus!
