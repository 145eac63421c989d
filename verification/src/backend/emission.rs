//! The code the compiler emits, stated as functions.
//!
//! A [`Gen`] is what the compiler knows while it emits code: the code so far,
//! the names in scope and where they are stored, the loops being compiled,
//! the function entries and the calls still waiting for their targets.
//! Each function below gives the state after compiling a piece of a program,
//! or `None` where compiling it fails; [`compiled`] gives the code of a whole
//! checked program.

use vstd::prelude::*;

use crate::backend::bytecode::{Instruction, Value};
use crate::common::source::Span;
use crate::common::text::decimal;
use crate::frontend::ast::{BinaryOp, ConversionKind, Expr, ForSource, InputKind, Stmt, UnaryOp};
use crate::middle_end::types::Type;

verus! {

/// A constant operand with its payload taken by value.
pub enum ConstView {
    Num(int),
    Float(Seq<char>),
    Str(Seq<char>),
    Bool(bool),
    Emoji(Seq<char>),
}

/// An instruction with its payloads taken by value.
pub enum InstrView {
    LoadConst(ConstView),
    Input(InputKind),
    Convert(ConversionKind),
    LoadVar(Seq<char>),
    StoreVar(Seq<char>),
    LoadLocal(Seq<char>),
    StoreLocal(Seq<char>),
    Add,
    Sub,
    Mul,
    Div,
    Eq,
    NotEq,
    Lt,
    Gt,
    LtEq,
    GtEq,
    MakeList(usize),
    MakeMap(usize),
    ListLen,
    ListGet,
    MapHas,
    ListAppend,
    Print,
    Pop,
    Call { target: usize, arity: usize },
    Return,
    Jump(usize),
    JumpIfFalse(usize),
}

/// A constant with its payload taken by value.
pub open spec fn const_view(v: Value) -> ConstView {
    match v {
        Value::Num(n) => ConstView::Num(n@),
        Value::Float(t) => ConstView::Float(t@),
        Value::Str(t) => ConstView::Str(t@),
        Value::Bool(b) => ConstView::Bool(b),
        Value::Emoji(t) => ConstView::Emoji(t@),
    }
}

/// An instruction with its payloads taken by value.
pub open spec fn instr_view(i: Instruction) -> InstrView {
    match i {
        Instruction::LoadConst(v) => InstrView::LoadConst(const_view(v)),
        Instruction::Input(k) => InstrView::Input(k),
        Instruction::Convert(k) => InstrView::Convert(k),
        Instruction::LoadVar(n) => InstrView::LoadVar(n@),
        Instruction::StoreVar(n) => InstrView::StoreVar(n@),
        Instruction::LoadLocal(n) => InstrView::LoadLocal(n@),
        Instruction::StoreLocal(n) => InstrView::StoreLocal(n@),
        Instruction::Add => InstrView::Add,
        Instruction::Sub => InstrView::Sub,
        Instruction::Mul => InstrView::Mul,
        Instruction::Div => InstrView::Div,
        Instruction::Eq => InstrView::Eq,
        Instruction::NotEq => InstrView::NotEq,
        Instruction::Lt => InstrView::Lt,
        Instruction::Gt => InstrView::Gt,
        Instruction::LtEq => InstrView::LtEq,
        Instruction::GtEq => InstrView::GtEq,
        Instruction::MakeList(n) => InstrView::MakeList(n),
        Instruction::MakeMap(n) => InstrView::MakeMap(n),
        Instruction::ListLen => InstrView::ListLen,
        Instruction::ListGet => InstrView::ListGet,
        Instruction::MapHas => InstrView::MapHas,
        Instruction::ListAppend => InstrView::ListAppend,
        Instruction::Print => InstrView::Print,
        Instruction::Pop => InstrView::Pop,
        Instruction::Call { target, arity } => InstrView::Call { target, arity },
        Instruction::Return => InstrView::Return,
        Instruction::Jump(t) => InstrView::Jump(t),
        Instruction::JumpIfFalse(t) => InstrView::JumpIfFalse(t),
    }
}

/// A sequence of instructions with their payloads taken by value.
pub open spec fn code_view(code: Seq<Instruction>) -> Seq<InstrView> {
    code.map_values(|i: Instruction| instr_view(i))
}

/// Where a source name is stored at run time.
pub enum Place {
    /// A top-level variable, under its own name.
    Global(Seq<char>),
    /// A variable of the current call frame, under a generated name.
    Local(Seq<char>),
}

/// What the compiler knows while it emits code.
pub struct Gen {
    /// The code emitted so far.
    pub code: Seq<InstrView>,
    /// Spans (start, end) of the names that are emoji literals.
    pub emoji: Seq<(usize, usize)>,
    /// The top-level names found by the checker.
    pub symbols: Map<Seq<char>, Type>,
    /// The number that the next `for` loop's generated names carry.
    pub loop_counter: usize,
    /// The number that the next generated frame-local name carries.
    pub local_counter: usize,
    /// For each loop being compiled, innermost last: its `break` jumps and its `continue` jumps.
    pub loops: Seq<(Seq<usize>, Seq<usize>)>,
    /// The names declared in each scope with their storage, innermost scope last.
    pub scopes: Seq<Seq<(Seq<char>, Place)>>,
    /// Function names with the index of their first instruction.
    pub functions: Seq<(Seq<char>, usize)>,
    /// Calls waiting for their target: the call's index and the callee's name.
    pub pending: Seq<(usize, Seq<char>)>,
    /// Whether a function body is being compiled.
    pub in_function: bool,
}

// ---------------------------------------------------------------------------
// Emitting and patching
// ---------------------------------------------------------------------------

/// The index of the next instruction.
pub open spec fn here(g: Gen) -> usize {
    g.code.len() as usize
}

/// A jump or a call target that is filled in later.
pub open spec fn unresolved() -> usize {
    usize::MAX
}

/// `g` with `i` appended to the code.
pub open spec fn emit(g: Gen, i: InstrView) -> Gen {
    Gen { code: g.code.push(i), ..g }
}

/// `g` with the jump at `index` pointed at `target`; any other instruction stays.
pub open spec fn patch(g: Gen, index: usize, target: usize) -> Gen {
    if index < g.code.len() {
        match g.code[index as int] {
            InstrView::Jump(_) => Gen { code: g.code.update(index as int, InstrView::Jump(target)), ..g },
            InstrView::JumpIfFalse(_) => Gen { code: g.code.update(index as int, InstrView::JumpIfFalse(target)), ..g },
            _ => g,
        }
    } else {
        g
    }
}

/// `g` with every jump of `jumps` from position `k` on pointed at `target`.
pub open spec fn patch_all(g: Gen, jumps: Seq<usize>, target: usize, k: int) -> Gen
    decreases jumps.len() - k,
{
    if k < 0 || k >= jumps.len() {
        g
    } else {
        patch_all(patch(g, jumps[k], target), jumps, target, k + 1)
    }
}

/// A call to `name` with `arity` arguments, waiting for its target.
pub open spec fn emit_call(g: Gen, name: Seq<char>, arity: usize) -> Gen {
    Gen {
        code: g.code.push(InstrView::Call { target: unresolved(), arity }),
        pending: g.pending.push((here(g), name)),
        ..g
    }
}

/// A counter after one more use; it stays at its maximum.
pub open spec fn bumped(n: usize) -> usize {
    if n == usize::MAX { n } else { (n + 1) as usize }
}

// ---------------------------------------------------------------------------
// Names
// ---------------------------------------------------------------------------

/// `prefix`, the decimal digits of `n`, then `suffix`.
pub open spec fn numbered(prefix: Seq<char>, n: usize, suffix: Seq<char>) -> Seq<char> {
    prefix + decimal(n as nat) + suffix
}

/// The storage name of the frame-local variable numbered `n`.
pub open spec fn local_name(n: usize) -> Seq<char> {
    "__peps_local_"@ + decimal(n as nat)
}

/// The first position at or after `from` of a declaration of `name`.
pub open spec fn place_position(scope: Seq<(Seq<char>, Place)>, name: Seq<char>, from: int) -> Option<int>
    decreases scope.len() - from,
{
    if from < 0 || from >= scope.len() {
        None
    } else if scope[from].0 == name {
        Some(from)
    } else {
        place_position(scope, name, from + 1)
    }
}

/// The storage of `name` in the innermost scope that declares it.
pub open spec fn scopes_place(scopes: Seq<Seq<(Seq<char>, Place)>>, name: Seq<char>) -> Option<Place>
    decreases scopes.len(),
{
    if scopes.len() == 0 {
        None
    } else {
        match place_position(scopes.last(), name, 0) {
            Some(i) => Some(scopes.last()[i].1),
            None => scopes_place(scopes.drop_last(), name),
        }
    }
}

/// The storage of the visible `name`: a scope's first, else a top-level name's own.
pub open spec fn resolve(g: Gen, name: Seq<char>) -> Option<Place> {
    match scopes_place(g.scopes, name) {
        Some(p) => Some(p),
        None => if g.symbols.contains_key(name) { Some(Place::Global(name)) } else { None },
    }
}

/// `g` with `name` declared at `p` in the innermost scope.
pub open spec fn bind(g: Gen, name: Seq<char>, p: Place) -> Gen {
    if g.scopes.len() == 0 {
        g
    } else {
        Gen { scopes: g.scopes.drop_last().push(g.scopes.last().push((name, p))), ..g }
    }
}

/// A fresh frame-local storage name.
pub open spec fn new_local(g: Gen) -> (Gen, Place) {
    (Gen { local_counter: bumped(g.local_counter), ..g }, Place::Local(local_name(g.local_counter)))
}

/// Declare `name`: at the top level under its own name, elsewhere frame-local.
pub open spec fn declare(g: Gen, name: Seq<char>) -> (Gen, Place) {
    if g.scopes.len() == 1 {
        (bind(g, name, Place::Global(name)), Place::Global(name))
    } else {
        let (g1, p) = new_local(g);
        (bind(g1, name, p), p)
    }
}

/// Declare `name` frame-local.
pub open spec fn declare_local(g: Gen, name: Seq<char>) -> (Gen, Place) {
    let (g1, p) = new_local(g);
    (bind(g1, name, p), p)
}

/// The instruction that pushes the value stored at `p`.
pub open spec fn load(p: Place) -> InstrView {
    match p {
        Place::Global(n) => InstrView::LoadVar(n),
        Place::Local(n) => InstrView::LoadLocal(n),
    }
}

/// The instruction that pops a value into `p`.
pub open spec fn store(p: Place) -> InstrView {
    match p {
        Place::Global(n) => InstrView::StoreVar(n),
        Place::Local(n) => InstrView::StoreLocal(n),
    }
}

/// `g` with a new innermost scope.
pub open spec fn push_scope(g: Gen) -> Gen {
    Gen { scopes: g.scopes.push(Seq::empty()), ..g }
}

/// `g` without its innermost scope.
pub open spec fn pop_scope(g: Gen) -> Gen {
    if g.scopes.len() == 0 { g } else { Gen { scopes: g.scopes.drop_last(), ..g } }
}

/// Whether the name at `span` is an emoji literal.
pub open spec fn is_emoji(g: Gen, span: Span) -> bool {
    exists|k: int| 0 <= k < g.emoji.len() && #[trigger] g.emoji[k] == (span.start, span.end)
}

// ---------------------------------------------------------------------------
// Loops
// ---------------------------------------------------------------------------

/// `g` compiling one more loop.
pub open spec fn begin_loop(g: Gen) -> Gen {
    Gen { loops: g.loops.push((Seq::empty(), Seq::empty())), ..g }
}

/// A `break`: a jump that waits for the end of the innermost loop.
pub open spec fn add_break(g: Gen) -> Option<Gen> {
    if g.loops.len() == 0 {
        None
    } else {
        let (breaks, continues) = g.loops.last();
        let g1 = emit(g, InstrView::Jump(unresolved()));
        Some(Gen { loops: g.loops.drop_last().push((breaks.push(here(g)), continues)), ..g1 })
    }
}

/// A `continue`: a jump that waits for the step of the innermost loop.
pub open spec fn add_continue(g: Gen) -> Option<Gen> {
    if g.loops.len() == 0 {
        None
    } else {
        let (breaks, continues) = g.loops.last();
        let g1 = emit(g, InstrView::Jump(unresolved()));
        Some(Gen { loops: g.loops.drop_last().push((breaks, continues.push(here(g)))), ..g1 })
    }
}

/// Leave the innermost loop: its `continue` jumps go to `next`, its `break` jumps to `after`.
pub open spec fn end_loop(g: Gen, next: usize, after: usize) -> Gen {
    if g.loops.len() == 0 {
        g
    } else {
        let (breaks, continues) = g.loops.last();
        let g1 = Gen { loops: g.loops.drop_last(), ..g };
        patch_all(patch_all(g1, continues, next, 0), breaks, after, 0)
    }
}

// ---------------------------------------------------------------------------
// Expressions
// ---------------------------------------------------------------------------

/// The instruction of a binary operator other than `🤝` and `🔀`.
pub open spec fn binary_instruction(op: BinaryOp) -> InstrView {
    match op {
        BinaryOp::Append => InstrView::ListAppend,
        BinaryOp::Add => InstrView::Add,
        BinaryOp::Sub => InstrView::Sub,
        BinaryOp::Mul => InstrView::Mul,
        BinaryOp::Div => InstrView::Div,
        BinaryOp::Index => InstrView::ListGet,
        BinaryOp::Has => InstrView::MapHas,
        BinaryOp::Eq => InstrView::Eq,
        BinaryOp::NotEq => InstrView::NotEq,
        BinaryOp::Lt => InstrView::Lt,
        BinaryOp::Gt => InstrView::Gt,
        BinaryOp::LtEq => InstrView::LtEq,
        _ => InstrView::GtEq,
    }
}

/// The boolean constant `b`.
pub open spec fn load_bool(b: bool) -> InstrView {
    InstrView::LoadConst(ConstView::Bool(b))
}

/// After a condition: `false` where it holds, `true` where it does not.
pub open spec fn negation(g: Gen) -> Gen {
    let g1 = emit(g, InstrView::JumpIfFalse(unresolved()));
    let g2 = emit(g1, load_bool(false));
    let g3 = emit(g2, InstrView::Jump(unresolved()));
    let g4 = patch(g3, here(g), here(g3));
    let g5 = emit(g4, load_bool(true));
    patch(g5, here(g2), here(g5))
}

/// The state after compiling `e`, which leaves its value on the stack.
pub open spec fn gen_expr(g: Gen, e: Expr) -> Option<Gen>
    decreases e, 0int, 0int,
{
    match e {
        Expr::Number { value, .. } => Some(emit(g, InstrView::LoadConst(ConstView::Num(value@)))),
        Expr::Float { text, .. } => Some(emit(g, InstrView::LoadConst(ConstView::Float(text@)))),
        Expr::Input { kind, .. } => Some(emit(g, InstrView::Input(kind))),
        Expr::String { value, .. } => Some(emit(g, InstrView::LoadConst(ConstView::Str(value@)))),
        Expr::Bool { value, .. } => Some(emit(g, load_bool(value))),
        Expr::Variable { name, span } => if is_emoji(g, span) {
            Some(emit(g, InstrView::LoadConst(ConstView::Emoji(name@))))
        } else {
            match resolve(g, name@) {
                Some(p) => Some(emit(g, load(p))),
                None => None,
            }
        },
        Expr::List { elements, .. } => match gen_exprs(g, elements@, 0) {
            Some(g1) => Some(emit(g1, InstrView::MakeList(elements@.len() as usize))),
            None => None,
        },
        Expr::MapLiteral { entries, .. } => match gen_entries(g, entries@, 0) {
            Some(g1) => Some(emit(g1, InstrView::MakeMap(entries@.len() as usize))),
            None => None,
        },
        Expr::Unary { op, expr, .. } => match op {
            UnaryOp::Negate => match *expr {
                Expr::Number { value, .. } => Some(emit(g, InstrView::LoadConst(ConstView::Num(0 - value@)))),
                Expr::Float { text, .. } => Some(emit(g, InstrView::LoadConst(ConstView::Float("-"@ + text@)))),
                _ => match gen_expr(emit(g, InstrView::LoadConst(ConstView::Num(0))), *expr) {
                    Some(g1) => Some(emit(g1, InstrView::Sub)),
                    None => None,
                },
            },
            UnaryOp::Len => match gen_expr(g, *expr) {
                Some(g1) => Some(emit(g1, InstrView::ListLen)),
                None => None,
            },
            UnaryOp::Not => match gen_expr(g, *expr) {
                Some(g1) => Some(negation(g1)),
                None => None,
            },
        },
        Expr::Binary { left, op, right, .. } => match gen_expr(g, *left) {
            None => None,
            Some(g1) => match op {
                BinaryOp::And => {
                    let g2 = emit(g1, InstrView::JumpIfFalse(unresolved()));
                    match gen_expr(g2, *right) {
                        None => None,
                        Some(g3) => {
                            let g4 = emit(g3, InstrView::JumpIfFalse(unresolved()));
                            let g5 = emit(g4, load_bool(true));
                            let g6 = emit(g5, InstrView::Jump(unresolved()));
                            let g7 = patch(patch(g6, here(g1), here(g6)), here(g3), here(g6));
                            let g8 = emit(g7, load_bool(false));
                            Some(patch(g8, here(g5), here(g8)))
                        },
                    }
                },
                BinaryOp::Or => {
                    let g2 = emit(g1, InstrView::JumpIfFalse(unresolved()));
                    let g3 = emit(g2, load_bool(true));
                    let g4 = emit(g3, InstrView::Jump(unresolved()));
                    let g5 = patch(g4, here(g1), here(g4));
                    match gen_expr(g5, *right) {
                        None => None,
                        Some(g6) => {
                            let g7 = emit(g6, InstrView::JumpIfFalse(unresolved()));
                            let g8 = emit(g7, load_bool(true));
                            let g9 = emit(g8, InstrView::Jump(unresolved()));
                            let g10 = patch(g9, here(g6), here(g9));
                            let g11 = emit(g10, load_bool(false));
                            Some(patch(patch(g11, here(g3), here(g11)), here(g8), here(g11)))
                        },
                    }
                },
                _ => match gen_expr(g1, *right) {
                    Some(g2) => Some(emit(g2, binary_instruction(op))),
                    None => None,
                },
            },
        },
        Expr::Call { name, arguments, .. } => match gen_exprs(g, arguments@, 0) {
            Some(g1) => Some(emit_call(g1, name@, arguments@.len() as usize)),
            None => None,
        },
        Expr::Convert { kind, expr, .. } => match gen_expr(g, *expr) {
            Some(g1) => Some(emit(g1, InstrView::Convert(kind))),
            None => None,
        },
    }
}

/// The state after compiling `es` from position `k` on, in order.
pub open spec fn gen_exprs(g: Gen, es: Seq<Expr>, k: int) -> Option<Gen>
    decreases es, 1int, es.len() - k,
{
    if k < 0 || k >= es.len() {
        Some(g)
    } else {
        match gen_expr(g, es[k]) {
            Some(g1) => gen_exprs(g1, es, k + 1),
            None => None,
        }
    }
}

/// The state after compiling the keys and values of `entries` from position `k` on.
pub open spec fn gen_entries(g: Gen, entries: Seq<(Expr, Expr)>, k: int) -> Option<Gen>
    decreases entries, 1int, entries.len() - k,
{
    if k < 0 || k >= entries.len() {
        Some(g)
    } else {
        match gen_expr(g, entries[k].0) {
            Some(g1) => match gen_expr(g1, entries[k].1) {
                Some(g2) => gen_entries(g2, entries, k + 1),
                None => None,
            },
            None => None,
        }
    }
}

// ---------------------------------------------------------------------------
// Statements
// ---------------------------------------------------------------------------

/// The state after compiling `s`.
pub open spec fn gen_stmt(g: Gen, s: Stmt) -> Option<Gen>
    decreases s, 0int, 0int,
{
    match s {
        Stmt::Assign { name, expr, .. } => gen_assign(g, name@, expr),
        Stmt::Const { name, expr, .. } => gen_assign(g, name@, expr),
        Stmt::Append { name, expr, .. } => match resolve(g, name@) {
            None => None,
            Some(p) => match gen_expr(emit(g, load(p)), expr) {
                Some(g1) => Some(emit(emit(g1, InstrView::ListAppend), store(p))),
                None => None,
            },
        },
        Stmt::Print { expr, .. } => match gen_expr(g, expr) {
            Some(g1) => Some(emit(g1, InstrView::Print)),
            None => None,
        },
        Stmt::Break { .. } => add_break(g),
        Stmt::Continue { .. } => add_continue(g),
        Stmt::Function { .. } => Some(g),
        Stmt::Return { expr, .. } => match gen_expr(g, expr) {
            Some(g1) => Some(emit(g1, InstrView::Return)),
            None => None,
        },
        Stmt::Call { expr, .. } => match gen_expr(g, expr) {
            Some(g1) => Some(emit(g1, InstrView::Pop)),
            None => None,
        },
        Stmt::If { condition, then_branch, else_branch, .. } => match gen_expr(g, condition) {
            None => None,
            Some(g1) => {
                let g2 = emit(g1, InstrView::JumpIfFalse(unresolved()));
                match gen_block(g2, then_branch@) {
                    None => None,
                    Some(g3) => match else_branch {
                        None => Some(patch(g3, here(g1), here(g3))),
                        Some(else_branch) => {
                            let g4 = emit(g3, InstrView::Jump(unresolved()));
                            let g5 = patch(g4, here(g1), here(g4));
                            match gen_block(g5, else_branch@) {
                                Some(g6) => Some(patch(g6, here(g3), here(g6))),
                                None => None,
                            }
                        },
                    },
                }
            },
        },
        Stmt::While { condition, body, .. } => match gen_expr(g, condition) {
            None => None,
            Some(g1) => {
                let g2 = begin_loop(emit(g1, InstrView::JumpIfFalse(unresolved())));
                match gen_block(g2, body@) {
                    None => None,
                    Some(g3) => {
                        let g4 = emit(g3, InstrView::Jump(here(g)));
                        Some(end_loop(patch(g4, here(g1), here(g4)), here(g), here(g4)))
                    },
                }
            },
        },
        Stmt::For { variable, source, body, .. } => match source {
            ForSource::List { expr, .. } => gen_for_list(g, variable@, expr, body@),
            ForSource::Range { start, end, .. } => gen_for_range(g, variable@, start, end, body@),
        },
    }
}

/// The state after compiling `name 🟰 expr` or `🔐 name 🟰 expr`: the value goes
/// to the visible `name`, or to `name` declared in the innermost scope.
pub open spec fn gen_assign(g: Gen, name: Seq<char>, expr: Expr) -> Option<Gen> {
    match gen_expr(g, expr) {
        None => None,
        Some(g1) => match resolve(g1, name) {
            Some(p) => Some(emit(g1, store(p))),
            None => {
                let (g2, p) = declare(g1, name);
                Some(emit(g2, store(p)))
            },
        },
    }
}

/// The state after compiling `ss` from position `k` on, in the current scope.
pub open spec fn gen_stmts(g: Gen, ss: Seq<Stmt>, k: int) -> Option<Gen>
    decreases ss, 1int, ss.len() - k,
{
    if k < 0 || k >= ss.len() {
        Some(g)
    } else {
        match gen_stmt(g, ss[k]) {
            Some(g1) => gen_stmts(g1, ss, k + 1),
            None => None,
        }
    }
}

/// The state after compiling the block `ss` in a scope of its own.
pub open spec fn gen_block(g: Gen, ss: Seq<Stmt>) -> Option<Gen>
    decreases ss, 2int, 0int,
{
    match gen_stmts(push_scope(g), ss, 0) {
        Some(g1) => Some(pop_scope(g1)),
        None => None,
    }
}

/// The instruction that pushes the loop slot `name`: a variable of the call
/// frame inside a function, a top-level variable elsewhere.
pub open spec fn load_slot(g: Gen, name: Seq<char>) -> InstrView {
    if g.in_function { InstrView::LoadLocal(name) } else { InstrView::LoadVar(name) }
}

/// The instruction that pops a value into the loop slot `name`.
pub open spec fn store_slot(g: Gen, name: Seq<char>) -> InstrView {
    if g.in_function { InstrView::StoreLocal(name) } else { InstrView::StoreVar(name) }
}

/// Declare the variable of a `for` loop: frame-local inside a function, under
/// its own name at the top level.
pub open spec fn loop_variable(g: Gen, name: Seq<char>) -> (Gen, Place) {
    if g.in_function {
        declare(g, name)
    } else {
        (bind(g, name, Place::Global(name)), Place::Global(name))
    }
}

/// The step that ends each iteration of a `for` loop: the index grows by one
/// and control goes back to `start`.
pub open spec fn loop_step(g: Gen, index: Seq<char>, start: usize) -> Gen {
    let g1 = emit(g, load_slot(g, index));
    let g2 = emit(g1, InstrView::LoadConst(ConstView::Num(1)));
    let g3 = emit(g2, InstrView::Add);
    let g4 = emit(g3, store_slot(g, index));
    emit(g4, InstrView::Jump(start))
}

/// The test at the top of each iteration of a `for` loop: `index ◀️ bound`.
pub open spec fn loop_test(g: Gen, index: Seq<char>, bound: Seq<char>) -> Gen {
    let g1 = emit(g, load_slot(g, index));
    let g2 = emit(g1, load_slot(g, bound));
    let g3 = emit(g2, InstrView::Lt);
    emit(g3, InstrView::JumpIfFalse(unresolved()))
}

/// The rest of a `for` loop once its variable is loaded at `entry`: the body,
/// the step, and the loop's jumps patched; the loop's scope ends.
pub open spec fn loop_rest(g: Gen, body: Seq<Stmt>, index: Seq<char>, start: usize, test: usize) -> Option<Gen>
    decreases body, 3int, 0int,
{
    match gen_stmts(begin_loop(g), body, 0) {
        None => None,
        Some(g1) => {
            let g2 = loop_step(g1, index, start);
            Some(pop_scope(end_loop(patch(g2, test, here(g2)), here(g1), here(g2))))
        },
    }
}

/// The generated name `__peps_for_<id>_<role>`.
pub open spec fn for_name(id: usize, role: Seq<char>) -> Seq<char> {
    numbered("__peps_for_"@, id, role)
}

/// The state after compiling `🔁 variable 🧭 source 🔓 body 🔒` over a list.
pub open spec fn gen_for_list(g: Gen, variable: Seq<char>, source: Expr, body: Seq<Stmt>) -> Option<Gen>
    decreases body, 4int, 0int,
{
    let id = g.loop_counter;
    let list = for_name(id, "_list"@);
    let index = for_name(id, "_index"@);
    let len = for_name(id, "_len"@);
    match gen_expr(Gen { loop_counter: bumped(id), ..g }, source) {
        None => None,
        Some(g1) => {
            let (g2, p) = loop_variable(push_scope(g1), variable);
            let g3 = emit(g2, store_slot(g, list));
            let g4 = emit(g3, InstrView::LoadConst(ConstView::Num(0)));
            let g5 = emit(g4, store_slot(g, index));
            let g6 = emit(g5, load_slot(g, list));
            let g7 = emit(g6, InstrView::ListLen);
            let g8 = emit(g7, store_slot(g, len));
            let g9 = loop_test(g8, index, len);
            let g10 = emit(g9, load_slot(g, list));
            let g11 = emit(g10, load_slot(g, index));
            let g12 = emit(g11, InstrView::ListGet);
            let g13 = emit(g12, store(p));
            loop_rest(g13, body, index, here(g8), (here(g9) - 1) as usize)
        },
    }
}

/// The state after compiling `🔁 variable 🧭 start 🔜 end 🔓 body 🔒`.
pub open spec fn gen_for_range(g: Gen, variable: Seq<char>, start: Expr, end: Expr, body: Seq<Stmt>) -> Option<Gen>
    decreases body, 4int, 0int,
{
    let id = g.loop_counter;
    let index = for_name(id, "_index"@);
    let bound = for_name(id, "_end"@);
    match gen_expr(Gen { loop_counter: bumped(id), ..g }, start) {
        None => None,
        Some(g1) => match gen_expr(emit(g1, store_slot(g, index)), end) {
            None => None,
            Some(g2) => {
                let g3 = emit(g2, store_slot(g, bound));
                let (g4, p) = loop_variable(push_scope(g3), variable);
                let g5 = loop_test(g4, index, bound);
                let g6 = emit(g5, load_slot(g, index));
                let g7 = emit(g6, store(p));
                loop_rest(g7, body, index, here(g4), (here(g5) - 1) as usize)
            },
        },
    }
}

// ---------------------------------------------------------------------------
// Functions and programs
// ---------------------------------------------------------------------------

/// The parameters from position `k` on declared frame-local, their storage
/// appended to `places`.
pub open spec fn declare_parameters(g: Gen, parameters: Seq<Seq<char>>, k: int, places: Seq<Place>) -> (Gen, Seq<Place>)
    decreases parameters.len() - k,
{
    if k < 0 || k >= parameters.len() {
        (g, places)
    } else {
        let (g1, p) = declare_local(g, parameters[k]);
        declare_parameters(g1, parameters, k + 1, places.push(p))
    }
}

/// Stores into the first `k` places, the last first: the arguments come off
/// the stack in reverse order.
pub open spec fn store_parameters(g: Gen, places: Seq<Place>, k: int) -> Gen
    decreases k,
{
    if k <= 0 || k > places.len() {
        g
    } else {
        store_parameters(emit(g, store(places[k - 1])), places, k - 1)
    }
}

/// The state after compiling the function `name`: its entry is recorded, its
/// parameters are taken from the stack, and its body follows.
pub open spec fn gen_function(g: Gen, name: Seq<char>, parameters: Seq<Seq<char>>, body: Seq<Stmt>) -> Option<Gen> {
    let g1 = Gen {
        functions: g.functions.push((name, here(g))),
        scopes: if g.scopes.len() > 1 { g.scopes.subrange(0, 1) } else { g.scopes },
        loops: Seq::empty(),
        in_function: true,
        ..g
    };
    let (g2, places) = declare_parameters(push_scope(g1), parameters, 0, Seq::empty());
    match gen_stmts(store_parameters(g2, places, places.len() as int), body, 0) {
        Some(g3) => Some(pop_scope(g3)),
        None => None,
    }
}

/// The state after compiling the top-level statements other than functions,
/// from position `k` on.
pub open spec fn gen_top(g: Gen, ss: Seq<Stmt>, k: int) -> Option<Gen>
    decreases ss.len() - k,
{
    if k < 0 || k >= ss.len() {
        Some(g)
    } else if ss[k] is Function {
        gen_top(g, ss, k + 1)
    } else {
        match gen_stmt(g, ss[k]) {
            Some(g1) => gen_top(g1, ss, k + 1),
            None => None,
        }
    }
}

/// The parameter names of a function, by value.
pub open spec fn parameter_names(parameters: Seq<String>) -> Seq<Seq<char>> {
    parameters.map_values(|p: String| p@)
}

/// The state after compiling the functions among `ss`, from position `k` on.
pub open spec fn gen_functions(g: Gen, ss: Seq<Stmt>, k: int) -> Option<Gen>
    decreases ss.len() - k,
{
    if k < 0 || k >= ss.len() {
        Some(g)
    } else {
        match ss[k] {
            Stmt::Function { name, parameters, body, .. } => match gen_function(g, name@, parameter_names(parameters@), body@) {
                Some(g1) => gen_functions(g1, ss, k + 1),
                None => None,
            },
            _ => gen_functions(g, ss, k + 1),
        }
    }
}

/// The entry of the first function at or after `from` called `name`.
pub open spec fn entry_from(functions: Seq<(Seq<char>, usize)>, name: Seq<char>, from: int) -> Option<usize>
    decreases functions.len() - from,
{
    if from < 0 || from >= functions.len() {
        None
    } else if functions[from].0 == name {
        Some(functions[from].1)
    } else {
        entry_from(functions, name, from + 1)
    }
}

/// `g` with the call at `index` pointed at `target`; any other instruction stays.
pub open spec fn point_call(g: Gen, index: usize, target: usize) -> Gen {
    if index < g.code.len() {
        match g.code[index as int] {
            InstrView::Call { arity, .. } => Gen { code: g.code.update(index as int, InstrView::Call { target, arity }), ..g },
            _ => g,
        }
    } else {
        g
    }
}

/// The state after pointing the waiting calls from position `k` on at their
/// functions' entries; `None` where a callee was never compiled.
pub open spec fn resolve_calls(g: Gen, k: int) -> Option<Gen>
    decreases g.pending.len() - k,
{
    if k < 0 || k >= g.pending.len() {
        Some(g)
    } else {
        match entry_from(g.functions, g.pending[k].1, 0) {
            Some(t) => resolve_calls(point_call(g, g.pending[k].0, t), k + 1),
            None => None,
        }
    }
}

/// Whether a function is defined among `ss`.
pub open spec fn defines_function(ss: Seq<Stmt>) -> bool {
    exists|k: int| 0 <= k < ss.len() && #[trigger] ss[k] is Function
}

/// The state before compiling a program.
pub open spec fn initial(symbols: Map<Seq<char>, Type>, emoji: Seq<(usize, usize)>) -> Gen {
    Gen {
        code: Seq::empty(),
        emoji,
        symbols,
        loop_counter: 0,
        local_counter: 0,
        loops: Seq::empty(),
        scopes: seq![Seq::empty()],
        functions: Seq::empty(),
        pending: Seq::empty(),
        in_function: false,
    }
}

/// The state after compiling the program `ss`: the top-level statements, then
/// (where there are functions) a jump over the function bodies that follow,
/// then every call pointed at its function.
pub open spec fn gen_program(g: Gen, ss: Seq<Stmt>) -> Option<Gen> {
    match gen_top(g, ss, 0) {
        None => None,
        Some(g1) => if defines_function(ss) {
            let g2 = emit(g1, InstrView::Jump(unresolved()));
            match gen_functions(g2, ss, 0) {
                Some(g3) => resolve_calls(patch(g3, here(g1), here(g3)), 0),
                None => None,
            }
        } else {
            resolve_calls(g1, 0)
        },
    }
}

/// The code of the checked program `ss` with top-level names `symbols` and
/// emoji literals at the spans `emoji`, or `None` where it cannot be compiled.
pub open spec fn compiled(ss: Seq<Stmt>, symbols: Map<Seq<char>, Type>, emoji: Seq<(usize, usize)>) -> Option<Seq<InstrView>> {
    match gen_program(initial(symbols, emoji), ss) {
        Some(g) => Some(g.code),
        None => None,
    }
}

} // verus!
