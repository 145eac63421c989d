//! Bytecode compiler for semantically checked Peps programs.
//!
//! Top-level statements are emitted first. Function bodies follow behind a
//! jump that skips them, and calls are pointed at their entries once every
//! body has been emitted.

use vstd::prelude::*;

use crate::backend::bytecode::{Instruction, Value};
use crate::backend::emission;
use crate::backend::emission::{
    code_view, compiled, gen_block, gen_entries, gen_expr, gen_exprs, gen_for_list, gen_for_range, gen_function, gen_stmt,
    gen_stmts, instr_view, place_position, scopes_place, Gen, Place,
};
use crate::common::diagnostic::Diagnostic;
use crate::common::numeric::Int;
use crate::common::source::Span;
use crate::common::text::{owned, push_decimal, push_str};
use crate::frontend::ast::{BinaryOp, Expr, ForSource, Stmt, UnaryOp};
use crate::middle_end::semantic::CheckedProgram;
use crate::middle_end::symbol_table::SymbolTable;

verus! {

/// Where a source name is stored at run time.
enum Binding {
    /// A top-level variable, stored under its own name.
    Global(String),
    /// A variable of the current call frame, stored under a generated name.
    Local(String),
}

impl Binding {
    fn duplicate(&self) -> (r: Binding)
        ensures
            place_of(r) == place_of(*self),
    {
        match self {
            Binding::Global(name) => Binding::Global(name.clone()),
            Binding::Local(name) => Binding::Local(name.clone()),
        }
    }
}

/// The jumps of a loop body that still wait for their targets.
struct LoopContext {
    break_jumps: Vec<usize>,
    continue_jumps: Vec<usize>,
}

struct Compiler {
    instructions: Vec<Instruction>,
    emoji_literals: Vec<(usize, usize)>,
    /// Top-level names found by the semantic checker.
    symbols: SymbolTable,
    loop_counter: usize,
    local_counter: usize,
    loop_stack: Vec<LoopContext>,
    /// Source names mapped to their storage in each lexical scope; the first
    /// scope holds the top-level names declared while compiling.
    scopes: Vec<Vec<(String, Binding)>>,
    /// Function names and the index of their first instruction.
    functions: Vec<(String, usize)>,
    /// Call instructions waiting for their target, with the callee's name.
    pending_calls: Vec<(usize, String)>,
    /// Indices of the jumps emitted with a placeholder target and not yet patched.
    open: Ghost<Set<int>>,
    /// Whether a function body is being compiled.
    in_function: bool,
}

// ---------------------------------------------------------------------------
// Control transfers of the emitted code
// ---------------------------------------------------------------------------

/// The instruction at which a jump or a call continues, if `i` is one.
pub open spec fn transfer_target(i: Instruction) -> Option<usize> {
    match i {
        Instruction::Jump(t) => Some(t),
        Instruction::JumpIfFalse(t) => Some(t),
        Instruction::Call { target, .. } => Some(target),
        _ => None,
    }
}

/// Every jump and call of `code` continues at one of its instructions or at its end.
pub open spec fn transfers_within(code: Seq<Instruction>) -> bool {
    forall|k: int| 0 <= k < code.len() ==> match transfer_target(#[trigger] code[k]) {
        Some(t) => t <= code.len(),
        None => true,
    }
}

/// A jump of `i` (if it is one) continues at an index no larger than `n`.
spec fn jump_settled(i: Instruction, n: int) -> bool {
    match i {
        Instruction::Jump(t) => t <= n,
        Instruction::JumpIfFalse(t) => t <= n,
        _ => true,
    }
}

/// A call of `i` (if it is one) continues at an index no larger than `n`.
spec fn call_settled(i: Instruction, n: int) -> bool {
    match i {
        Instruction::Call { target, .. } => target <= n,
        _ => true,
    }
}

/// The call at index `k` waits in `pending` for its target.
spec fn call_pending(pending: Seq<(usize, String)>, k: int) -> bool {
    exists|p: int| 0 <= p < pending.len() && (#[trigger] pending[p]).0 == k
}

proof fn lemma_call_pending_push(pending: Seq<(usize, String)>, entry: (usize, String), k: int)
    requires
        call_pending(pending, k) || entry.0 == k,
    ensures
        call_pending(pending.push(entry), k),
{
    let grown = pending.push(entry);
    if entry.0 == k {
        assert(grown[pending.len() as int].0 == k);
    } else {
        let p = choose|p: int| 0 <= p < pending.len() && (#[trigger] pending[p]).0 == k;
        assert(grown[p] == pending[p]);
    }
}

/// Index `k` is a `break` or `continue` jump of the innermost loop.
spec fn loop_jump_listed(stack: Seq<LoopContext>, k: int) -> bool {
    &&& stack.len() > 0
    &&& 0 <= k <= usize::MAX
    &&& stack.last().break_jumps@.contains(k as usize) || stack.last().continue_jumps@.contains(k as usize)
}

/// `after` has the loops of `before`, and the innermost one has gained jumps at most.
spec fn loops_extended(before: Seq<LoopContext>, after: Seq<LoopContext>) -> bool {
    &&& after.len() == before.len()
    &&& forall|c: int| 0 <= c < before.len() - 1 ==> #[trigger] after[c] == before[c]
    &&& before.len() > 0 ==> {
        &&& forall|x: usize| before.last().break_jumps@.contains(x) ==> #[trigger] after.last().break_jumps@.contains(x)
        &&& forall|x: usize| before.last().continue_jumps@.contains(x) ==> #[trigger] after.last().continue_jumps@.contains(x)
    }
}

impl Compiler {
    /// Every jump is settled unless it is open, every unsettled call is pending,
    /// and every pending call and recorded function entry lies within the code.
    spec fn inv(&self) -> bool {
        let code = self.instructions@;
        &&& forall|k: int| 0 <= k < code.len() && !self.open@.contains(k)
            ==> jump_settled(#[trigger] code[k], code.len() as int)
        &&& forall|k: int| 0 <= k < code.len() && !call_settled(#[trigger] code[k], code.len() as int)
            ==> call_pending(self.pending_calls@, k)
        &&& forall|p: int| 0 <= p < self.pending_calls@.len() ==> {
            let i = (#[trigger] self.pending_calls@[p]).0 as int;
            0 <= i < code.len() && code[i] is Call
        }
        &&& forall|f: int| 0 <= f < self.functions@.len() ==> (#[trigger] self.functions@[f]).1 <= code.len()
    }
}

/// The storage that `b` names.
spec fn place_of(b: Binding) -> Place {
    match b {
        Binding::Global(n) => Place::Global(n@),
        Binding::Local(n) => Place::Local(n@),
    }
}

/// The storage that `r` names, if any.
spec fn place_opt(r: Option<Binding>) -> Option<Place> {
    match r {
        Some(b) => Some(place_of(b)),
        None => None,
    }
}

/// The declarations of a scope, by value.
spec fn scope_view(s: Seq<(String, Binding)>) -> Seq<(Seq<char>, Place)> {
    s.map_values(|e: (String, Binding)| (e.0@, place_of(e.1)))
}

/// The pending jumps of a loop, by value.
spec fn loop_view(l: LoopContext) -> (Seq<usize>, Seq<usize>) {
    (l.break_jumps@, l.continue_jumps@)
}

/// What the compiler knows, by value.
spec fn state(c: Compiler) -> Gen {
    Gen {
        code: code_view(c.instructions@),
        emoji: c.emoji_literals@,
        symbols: c.symbols@,
        loop_counter: c.loop_counter,
        local_counter: c.local_counter,
        loops: c.loop_stack@.map_values(|l: LoopContext| loop_view(l)),
        scopes: c.scopes@.map_values(|v: Vec<(String, Binding)>| scope_view(v@)),
        functions: c.functions@.map_values(|f: (String, usize)| (f.0@, f.1)),
        pending: c.pending_calls@.map_values(|q: (usize, String)| (q.0, q.1@)),
        in_function: c.in_function,
    }
}

/// What compiling an expression keeps: the invariant, the loops, and no new open jump.
spec fn expression_progress(before: Compiler, after: Compiler) -> bool {
    &&& after.inv()
    &&& after.loop_stack@ == before.loop_stack@
    &&& after.open@.subset_of(before.open@)
    &&& after.instructions@.len() >= before.instructions@.len()
    &&& after.scopes@.len() == before.scopes@.len()
}

/// What compiling a statement keeps: the invariant, the enclosing loops, and
/// no new open jump but `break` / `continue` jumps of the innermost loop.
spec fn statement_progress(before: Compiler, after: Compiler) -> bool {
    &&& after.inv()
    &&& loops_extended(before.loop_stack@, after.loop_stack@)
    &&& forall|k: int| #[trigger] after.open@.contains(k) ==> before.open@.contains(k) || loop_jump_listed(after.loop_stack@, k)
    &&& after.instructions@.len() >= before.instructions@.len()
    &&& after.scopes@.len() == before.scopes@.len()
}

/// The bookkeeping of `a` and `b` other than their code and scopes agrees.
spec fn same_bookkeeping(a: Compiler, b: Compiler) -> bool {
    &&& a.open@ == b.open@
    &&& a.loop_stack@ == b.loop_stack@
    &&& a.pending_calls@ == b.pending_calls@
    &&& a.functions@ == b.functions@
}

proof fn lemma_loops_extended_refl(s: Seq<LoopContext>)
    ensures
        loops_extended(s, s),
{
}

proof fn lemma_loops_extended_trans(a: Seq<LoopContext>, b: Seq<LoopContext>, c: Seq<LoopContext>)
    requires
        loops_extended(a, b),
        loops_extended(b, c),
    ensures
        loops_extended(a, c),
        forall|k: int| loop_jump_listed(b, k) ==> #[trigger] loop_jump_listed(c, k),
{
    assert forall|c2: int| 0 <= c2 < a.len() - 1 implies #[trigger] c[c2] == a[c2] by {
        assert(b[c2] == a[c2]);
    }
}

/// Two steps of compiling statements make one.
proof fn lemma_statement_steps(a: Compiler, b: Compiler, c: Compiler)
    requires
        statement_progress(a, b),
        statement_progress(b, c),
    ensures
        statement_progress(a, c),
{
    lemma_loops_extended_trans(a.loop_stack@, b.loop_stack@, c.loop_stack@);
}

/// Two steps of compiling expressions make one.
proof fn lemma_expression_steps(a: Compiler, b: Compiler, c: Compiler)
    requires
        expression_progress(a, b),
        expression_progress(b, c),
    ensures
        expression_progress(a, c),
{
}

/// `prefix` followed by the decimal digits of `n` and then `suffix`.
fn numbered(prefix: &str, n: usize, suffix: &str) -> (r: String)
    ensures
        r@ == emission::numbered(prefix@, n, suffix@),
{
    let mut r = owned(prefix);
    push_decimal(&mut r, n);
    push_str(&mut r, suffix);
    r
}

/// Skipping positions that hold other names does not change the first position of `name`.
proof fn lemma_place_position_skip(scope: Seq<(Seq<char>, Place)>, name: Seq<char>, k: int)
    requires
        0 <= k <= scope.len(),
        forall|j: int| 0 <= j < k ==> (#[trigger] scope[j]).0 != name,
    ensures
        place_position(scope, name, 0) == place_position(scope, name, k),
    decreases k,
{
    if k > 0 {
        lemma_place_position_skip(scope, name, k - 1);
    }
}

impl Compiler {
    /// Append one instruction.
    fn emit(&mut self, instruction: Instruction)
        requires
            old(self).inv(),
            jump_settled(instruction, (old(self).instructions@.len() + 1) as int),
            call_settled(instruction, (old(self).instructions@.len() + 1) as int),
        ensures
            final(self).inv(),
            final(self).instructions@ == old(self).instructions@.push(instruction),
            final(self).scopes@.len() == old(self).scopes@.len(),
            same_bookkeeping(*old(self), *final(self)),
            state(*final(self)) == emission::emit(state(*old(self)), instr_view(instruction)),
    {
        self.instructions.push(instruction);
        proof {
            assert(code_view(self.instructions@) =~= code_view(old(self).instructions@).push(instr_view(instruction)));
        }
    }

    /// Emit a call whose target is patched once every function has been compiled.
    fn emit_call(&mut self, name: &String, arity: usize)
        requires
            old(self).inv(),
        ensures
            final(self).inv(),
            final(self).instructions@.len() == old(self).instructions@.len() + 1,
            final(self).scopes@.len() == old(self).scopes@.len(),
            final(self).open@ == old(self).open@,
            final(self).loop_stack@ == old(self).loop_stack@,
            state(*final(self)) == emission::emit_call(state(*old(self)), name@, arity),
    {
        let index = self.instructions.len();
        self.instructions.push(Instruction::Call { target: usize::MAX, arity });
        let ghost before = self.pending_calls@;
        let entry = (index, name.clone());
        let ghost waiting = entry;
        self.pending_calls.push(entry);
        proof {
            let code = self.instructions@;
            assert forall|k: int| 0 <= k < code.len() && !call_settled(#[trigger] code[k], code.len() as int)
                implies call_pending(self.pending_calls@, k) by {
                if k < index {
                    assert(code[k] == old(self).instructions@[k]);
                }
                lemma_call_pending_push(before, waiting, k);
            }
            assert forall|p: int| 0 <= p < self.pending_calls@.len() implies {
                let i = (#[trigger] self.pending_calls@[p]).0 as int;
                0 <= i < code.len() && code[i] is Call
            } by {
                if p < before.len() {
                    assert(self.pending_calls@[p] == before[p]);
                }
            }
            assert(code_view(self.instructions@) =~= code_view(old(self).instructions@).push(
                instr_view(Instruction::Call { target: usize::MAX, arity }),
            ));
            assert(state(*self).pending =~= state(*old(self)).pending.push((index, name@)));
        }
    }

    /// Emit a jump with a placeholder target and return its index.
    fn emit_placeholder_jump(&mut self) -> (index: usize)
        requires
            old(self).inv(),
        ensures
            final(self).inv(),
            index == old(self).instructions@.len(),
            final(self).instructions@.len() == old(self).instructions@.len() + 1,
            final(self).instructions@[index as int] is Jump,
            final(self).scopes@.len() == old(self).scopes@.len(),
            final(self).open@ == old(self).open@.insert(index as int),
            final(self).loop_stack@ == old(self).loop_stack@,
            state(*final(self)) == emission::emit(state(*old(self)), emission::InstrView::Jump(emission::unresolved())),
    {
        let index = self.instructions.len();
        self.instructions.push(Instruction::Jump(usize::MAX));
        self.open = Ghost(self.open@.insert(index as int));
        proof {
            assert(code_view(self.instructions@) =~= code_view(old(self).instructions@).push(instr_view(Instruction::Jump(usize::MAX))));
        }
        index
    }

    /// Emit a conditional jump with a placeholder target and return its index.
    fn emit_placeholder_jump_if_false(&mut self) -> (index: usize)
        requires
            old(self).inv(),
        ensures
            final(self).inv(),
            index == old(self).instructions@.len(),
            final(self).instructions@.len() == old(self).instructions@.len() + 1,
            final(self).scopes@.len() == old(self).scopes@.len(),
            final(self).open@ == old(self).open@.insert(index as int),
            final(self).loop_stack@ == old(self).loop_stack@,
            state(*final(self)) == emission::emit(state(*old(self)), emission::InstrView::JumpIfFalse(emission::unresolved())),
    {
        let index = self.instructions.len();
        self.instructions.push(Instruction::JumpIfFalse(usize::MAX));
        self.open = Ghost(self.open@.insert(index as int));
        proof {
            assert(code_view(self.instructions@) =~= code_view(old(self).instructions@).push(instr_view(Instruction::JumpIfFalse(usize::MAX))));
        }
        index
    }

    /// Point the jump at `index` to `target`.
    fn patch_jump(&mut self, index: usize, target: usize)
        requires
            old(self).inv(),
            target <= old(self).instructions@.len(),
        ensures
            final(self).inv(),
            final(self).instructions@.len() == old(self).instructions@.len(),
            final(self).scopes@.len() == old(self).scopes@.len(),
            final(self).open@ == old(self).open@.remove(index as int),
            final(self).loop_stack@ == old(self).loop_stack@,
            state(*final(self)) == emission::patch(state(*old(self)), index, target),
    {
        self.open = Ghost(self.open@.remove(index as int));
        if index < self.instructions.len() {
            let patched = match &self.instructions[index] {
                Instruction::Jump(_) => Some(Instruction::Jump(target)),
                Instruction::JumpIfFalse(_) => Some(Instruction::JumpIfFalse(target)),
                _ => None,
            };
            if let Some(instruction) = patched {
                self.instructions.set(index, instruction);
                proof {
                    assert(code_view(self.instructions@) =~= code_view(old(self).instructions@).update(index as int, instr_view(instruction)));
                }
            }
        }
    }

    /// Start collecting `break` and `continue` jumps for a loop body.
    fn begin_loop(&mut self)
        requires
            old(self).inv(),
        ensures
            final(self).inv(),
            final(self).instructions@ == old(self).instructions@,
            final(self).scopes@.len() == old(self).scopes@.len(),
            final(self).open@ == old(self).open@,
            final(self).loop_stack@.len() == old(self).loop_stack@.len() + 1,
            final(self).loop_stack@.drop_last() == old(self).loop_stack@,
            final(self).loop_stack@.last().break_jumps@.len() == 0,
            final(self).loop_stack@.last().continue_jumps@.len() == 0,
            state(*final(self)) == emission::begin_loop(state(*old(self))),
    {
        self.loop_stack.push(LoopContext { break_jumps: Vec::new(), continue_jumps: Vec::new() });
        proof {
            assert(self.loop_stack@.drop_last() =~= old(self).loop_stack@);
            assert(state(*self).loops =~= state(*old(self)).loops.push((Seq::empty(), Seq::empty())));
        }
    }

    /// Patch loop `continue` and `break` jumps, then leave the current loop context.
    fn end_loop(&mut self, continue_target: usize, break_target: usize)
        requires
            old(self).inv(),
            old(self).loop_stack@.len() > 0,
            continue_target <= old(self).instructions@.len(),
            break_target <= old(self).instructions@.len(),
        ensures
            final(self).in_function == old(self).in_function,
            final(self).inv(),
            final(self).instructions@.len() == old(self).instructions@.len(),
            final(self).scopes@.len() == old(self).scopes@.len(),
            final(self).loop_stack@ == old(self).loop_stack@.drop_last(),
            forall|k: int| #[trigger] final(self).open@.contains(k)
                ==> old(self).open@.contains(k) && !loop_jump_listed(old(self).loop_stack@, k),
            state(*final(self)) == emission::end_loop(state(*old(self)), continue_target, break_target),
    {
        if let Some(context) = self.loop_stack.pop() {
            let ghost stack = self.loop_stack@;
            let ghost popped = state(*self);
            proof {
                assert(popped.loops =~= state(*old(self)).loops.drop_last());
                assert(loop_view(context) == state(*old(self)).loops.last());
            }
            let mut k: usize = 0;
            while k < context.continue_jumps.len()
                invariant
                    0 <= k <= context.continue_jumps@.len(),
                    self.inv(),
                    self.instructions@.len() == old(self).instructions@.len(),
                    self.scopes@.len() == old(self).scopes@.len(),
                    self.loop_stack@ == stack,
                    self.open@.subset_of(old(self).open@),
                    self.in_function == old(self).in_function,
                    forall|j: int| 0 <= j < k ==> !self.open@.contains(#[trigger] context.continue_jumps@[j] as int),
                    continue_target <= old(self).instructions@.len(),
                    emission::patch_all(state(*self), context.continue_jumps@, continue_target, k as int)
                        == emission::patch_all(popped, context.continue_jumps@, continue_target, 0),
                decreases context.continue_jumps@.len() - k,
            {
                self.patch_jump(context.continue_jumps[k], continue_target);
                k = k + 1;
            }
            let mut k: usize = 0;
            while k < context.break_jumps.len()
                invariant
                    0 <= k <= context.break_jumps@.len(),
                    self.inv(),
                    self.instructions@.len() == old(self).instructions@.len(),
                    self.scopes@.len() == old(self).scopes@.len(),
                    self.loop_stack@ == stack,
                    self.open@.subset_of(old(self).open@),
                    self.in_function == old(self).in_function,
                    forall|j: int| 0 <= j < context.continue_jumps@.len()
                        ==> !self.open@.contains(#[trigger] context.continue_jumps@[j] as int),
                    forall|j: int| 0 <= j < k ==> !self.open@.contains(#[trigger] context.break_jumps@[j] as int),
                    break_target <= old(self).instructions@.len(),
                    emission::patch_all(state(*self), context.break_jumps@, break_target, k as int)
                        == emission::patch_all(
                            emission::patch_all(popped, context.continue_jumps@, continue_target, 0),
                            context.break_jumps@,
                            break_target,
                            0,
                        ),
                decreases context.break_jumps@.len() - k,
            {
                self.patch_jump(context.break_jumps[k], break_target);
                k = k + 1;
            }
            proof {
                assert(old(self).loop_stack@.last() == context);
                assert forall|k: int| #[trigger] self.open@.contains(k)
                    implies old(self).open@.contains(k) && !loop_jump_listed(old(self).loop_stack@, k) by {
                    if 0 <= k <= usize::MAX && context.break_jumps@.contains(k as usize) {
                        let j = choose|j: int| 0 <= j < context.break_jumps@.len() && context.break_jumps@[j] == k as usize;
                        assert(!self.open@.contains(context.break_jumps@[j] as int));
                    }
                    if 0 <= k <= usize::MAX && context.continue_jumps@.contains(k as usize) {
                        let j = choose|j: int| 0 <= j < context.continue_jumps@.len() && context.continue_jumps@[j] == k as usize;
                        assert(!self.open@.contains(context.continue_jumps@[j] as int));
                    }
                }
            }
        }
    }

    /// Emit a placeholder jump that will later target the end of the current loop.
    fn emit_loop_break(&mut self, span: Span) -> (r: Result<(), Diagnostic>)
        requires
            old(self).inv(),
        ensures
            final(self).in_function == old(self).in_function,
            final(self).instructions@.len() >= old(self).instructions@.len(),
            final(self).scopes@.len() == old(self).scopes@.len(),
            r is Ok ==> statement_progress(*old(self), *final(self)),
            match emission::add_break(state(*old(self))) {
                Some(g) => r is Ok && state(*final(self)) == g,
                None => r is Err,
            },
    {
        match self.loop_stack.pop() {
            Some(mut context) => {
                let ghost before = context;
                let jump = self.emit_placeholder_jump();
                context.break_jumps.push(jump);
                self.loop_stack.push(context);
                proof {
                    assert(state(*self).loops =~= state(*old(self)).loops.drop_last().push(
                        (state(*old(self)).loops.last().0.push(jump), state(*old(self)).loops.last().1),
                    ));
                    assert(context.break_jumps@[before.break_jumps@.len() as int] == jump);
                    assert forall|x: usize| before.break_jumps@.contains(x) implies #[trigger] context.break_jumps@.contains(x) by {
                        let j = choose|j: int| 0 <= j < before.break_jumps@.len() && before.break_jumps@[j] == x;
                        assert(context.break_jumps@[j] == x);
                    }
                    assert(loop_jump_listed(self.loop_stack@, jump as int));
                }
                Ok(())
            },
            None => Err(Diagnostic::at("break used outside a loop", span)),
        }
    }

    /// Emit a placeholder jump that will later target the current loop increment.
    fn emit_loop_continue(&mut self, span: Span) -> (r: Result<(), Diagnostic>)
        requires
            old(self).inv(),
        ensures
            final(self).in_function == old(self).in_function,
            final(self).instructions@.len() >= old(self).instructions@.len(),
            final(self).scopes@.len() == old(self).scopes@.len(),
            r is Ok ==> statement_progress(*old(self), *final(self)),
            match emission::add_continue(state(*old(self))) {
                Some(g) => r is Ok && state(*final(self)) == g,
                None => r is Err,
            },
    {
        match self.loop_stack.pop() {
            Some(mut context) => {
                let ghost before = context;
                let jump = self.emit_placeholder_jump();
                context.continue_jumps.push(jump);
                self.loop_stack.push(context);
                proof {
                    assert(state(*self).loops =~= state(*old(self)).loops.drop_last().push(
                        (state(*old(self)).loops.last().0, state(*old(self)).loops.last().1.push(jump)),
                    ));
                    assert(context.continue_jumps@[before.continue_jumps@.len() as int] == jump);
                    assert forall|x: usize| before.continue_jumps@.contains(x) implies #[trigger] context.continue_jumps@.contains(x) by {
                        let j = choose|j: int| 0 <= j < before.continue_jumps@.len() && before.continue_jumps@[j] == x;
                        assert(context.continue_jumps@[j] == x);
                    }
                    assert(loop_jump_listed(self.loop_stack@, jump as int));
                }
                Ok(())
            },
            None => Err(Diagnostic::at("continue used outside a loop", span)),
        }
    }

    /// Return a unique numeric suffix for generated loop variables.
    fn next_loop_id(&mut self) -> (id: usize)
        requires
            old(self).inv(),
        ensures
            final(self).inv(),
            same_bookkeeping(*old(self), *final(self)),
            final(self).instructions@ == old(self).instructions@,
            final(self).scopes@.len() == old(self).scopes@.len(),
            id == old(self).loop_counter,
            state(*final(self)) == (Gen { loop_counter: emission::bumped(id), ..state(*old(self)) }),
    {
        let id = self.loop_counter;
        self.loop_counter = self.loop_counter.saturating_add(1);
        id
    }

    /// Look up the storage for the nearest visible binding of `name`.
    fn resolve_name(&self, name: &str) -> (r: Option<Binding>)
        ensures
            place_opt(r) == emission::resolve(state(*self), name@),
    {
        let ghost scopes = state(*self).scopes;
        let key = owned(name);
        let mut s: usize = self.scopes.len();
        assert(scopes.subrange(0, s as int) =~= scopes);
        while s > 0
            invariant
                s <= self.scopes@.len(),
                key@ == name@,
                scopes == state(*self).scopes,
                scopes_place(scopes, name@) == scopes_place(scopes.subrange(0, s as int), name@),
            decreases s,
        {
            s = s - 1;
            let scope = &self.scopes[s];
            let ghost view = scopes[s as int];
            assert(view == scope_view(scope@));
            assert(scopes.subrange(0, s as int + 1).drop_last() =~= scopes.subrange(0, s as int));
            assert(scopes.subrange(0, s as int + 1).last() == view);
            let mut k: usize = 0;
            while k < scope.len()
                invariant
                    0 <= k <= scope@.len(),
                    s < self.scopes@.len(),
                    key@ == name@,
                    view == scope_view(scope@),
                    forall|j: int| 0 <= j < k ==> (#[trigger] view[j]).0 != name@,
                    scopes == state(*self).scopes,
                    scopes_place(scopes, name@) == scopes_place(scopes.subrange(0, s as int + 1), name@),
                    scopes.subrange(0, s as int + 1).last() == view,
                    scopes.subrange(0, s as int + 1).drop_last() == scopes.subrange(0, s as int),
                    scopes.subrange(0, s as int + 1).len() > 0,
                decreases scope@.len() - k,
            {
                if scope[k].0 == key {
                    proof {
                        lemma_place_position_skip(view, name@, k as int);
                    }
                    return Some(scope[k].1.duplicate());
                }
                assert(view[k as int].0 != name@);
                k = k + 1;
            }
            proof {
                lemma_place_position_skip(view, name@, k as int);
            }
        }
        if self.symbols.contains(name) {
            Some(Binding::Global(key))
        } else {
            None
        }
    }

    /// A fresh storage name for a frame-local variable.
    fn new_local_binding(&mut self) -> (b: Binding)
        requires
            old(self).inv(),
        ensures
            final(self).inv(),
            same_bookkeeping(*old(self), *final(self)),
            final(self).instructions@ == old(self).instructions@,
            final(self).scopes@ == old(self).scopes@,
            (state(*final(self)), place_of(b)) == emission::new_local(state(*old(self))),
    {
        let id = self.local_counter;
        self.local_counter = self.local_counter.saturating_add(1);
        let mut name = owned("__peps_local_");
        push_decimal(&mut name, id);
        Binding::Local(name)
    }

    /// Declare a source name in the current scope and return its storage.
    fn declare_name(&mut self, name: &str) -> (b: Binding)
        requires
            old(self).inv(),
        ensures
            final(self).inv(),
            same_bookkeeping(*old(self), *final(self)),
            final(self).instructions@ == old(self).instructions@,
            final(self).scopes@.len() == old(self).scopes@.len(),
            (state(*final(self)), place_of(b)) == emission::declare(state(*old(self)), name@),
    {
        let binding = if self.scopes.len() == 1 {
            Binding::Global(owned(name))
        } else {
            self.new_local_binding()
        };
        self.bind(name, binding.duplicate());
        binding
    }

    /// Declare a frame-local name in the current scope and return its storage.
    fn declare_local_name(&mut self, name: &str) -> (b: Binding)
        requires
            old(self).inv(),
        ensures
            final(self).inv(),
            same_bookkeeping(*old(self), *final(self)),
            final(self).instructions@ == old(self).instructions@,
            final(self).scopes@.len() == old(self).scopes@.len(),
            (state(*final(self)), place_of(b)) == emission::declare_local(state(*old(self)), name@),
    {
        let binding = self.new_local_binding();
        self.bind(name, binding.duplicate());
        binding
    }

    /// Record `binding` for `name` in the innermost scope.
    fn bind(&mut self, name: &str, binding: Binding)
        requires
            old(self).inv(),
        ensures
            final(self).inv(),
            same_bookkeeping(*old(self), *final(self)),
            final(self).instructions@ == old(self).instructions@,
            final(self).scopes@.len() == old(self).scopes@.len(),
            state(*final(self)) == emission::bind(state(*old(self)), name@, place_of(binding)),
    {
        let ghost p = place_of(binding);
        if let Some(mut scope) = self.scopes.pop() {
            let entry = (owned(name), binding);
            let ghost before = scope@;
            scope.push(entry);
            self.scopes.push(scope);
            proof {
                let g = state(*old(self));
                assert(scope_view(scope@) =~= scope_view(before).push((name@, p)));
                assert(scope_view(before) == g.scopes.last());
                assert(state(*self).scopes =~= g.scopes.drop_last().push(g.scopes.last().push((name@, p))));
            }
        }
    }

    /// Emit the instruction that pushes the value stored at `binding`.
    fn emit_load(&mut self, binding: &Binding)
        requires
            old(self).inv(),
        ensures
            final(self).inv(),
            same_bookkeeping(*old(self), *final(self)),
            final(self).instructions@.len() == old(self).instructions@.len() + 1,
            final(self).scopes@.len() == old(self).scopes@.len(),
            state(*final(self)) == emission::emit(state(*old(self)), emission::load(place_of(*binding))),
    {
        match binding {
            Binding::Global(name) => self.emit(Instruction::LoadVar(name.clone())),
            Binding::Local(name) => self.emit(Instruction::LoadLocal(name.clone())),
        }
    }

    /// Emit the instruction that pops a value into `binding`.
    fn emit_store(&mut self, binding: &Binding)
        requires
            old(self).inv(),
        ensures
            final(self).inv(),
            same_bookkeeping(*old(self), *final(self)),
            final(self).instructions@.len() == old(self).instructions@.len() + 1,
            final(self).scopes@.len() == old(self).scopes@.len(),
            state(*final(self)) == emission::emit(state(*old(self)), emission::store(place_of(*binding))),
    {
        match binding {
            Binding::Global(name) => self.emit(Instruction::StoreVar(name.clone())),
            Binding::Local(name) => self.emit(Instruction::StoreLocal(name.clone())),
        }
    }

    /// Emit the instruction that pops a value into the loop slot `name`.
    fn emit_slot_store(&mut self, name: &String)
        requires
            old(self).inv(),
        ensures
            final(self).inv(),
            same_bookkeeping(*old(self), *final(self)),
            final(self).instructions@.len() == old(self).instructions@.len() + 1,
            final(self).scopes@.len() == old(self).scopes@.len(),
            state(*final(self)) == emission::emit(state(*old(self)), emission::store_slot(state(*old(self)), name@)),
    {
        if self.in_function {
            self.emit(Instruction::StoreLocal(name.clone()));
        } else {
            self.emit(Instruction::StoreVar(name.clone()));
        }
    }

    /// Emit the instruction that pushes the loop slot `name`.
    fn emit_slot_load(&mut self, name: &String)
        requires
            old(self).inv(),
        ensures
            final(self).inv(),
            same_bookkeeping(*old(self), *final(self)),
            final(self).instructions@.len() == old(self).instructions@.len() + 1,
            final(self).scopes@.len() == old(self).scopes@.len(),
            state(*final(self)) == emission::emit(state(*old(self)), emission::load_slot(state(*old(self)), name@)),
    {
        if self.in_function {
            self.emit(Instruction::LoadLocal(name.clone()));
        } else {
            self.emit(Instruction::LoadVar(name.clone()));
        }
    }

    /// Declare the variable of a `for` loop in the innermost scope.
    fn declare_loop_variable(&mut self, name: &str) -> (b: Binding)
        requires
            old(self).inv(),
        ensures
            final(self).inv(),
            same_bookkeeping(*old(self), *final(self)),
            final(self).instructions@ == old(self).instructions@,
            final(self).scopes@.len() == old(self).scopes@.len(),
            (state(*final(self)), place_of(b)) == emission::loop_variable(state(*old(self)), name@),
    {
        if self.in_function {
            self.declare_name(name)
        } else {
            let binding = Binding::Global(owned(name));
            self.bind(name, binding.duplicate());
            binding
        }
    }

    /// Start a lexical block scope.
    fn push_scope(&mut self)
        ensures
            old(self).inv() ==> final(self).inv(),
            same_bookkeeping(*old(self), *final(self)),
            final(self).instructions@ == old(self).instructions@,
            final(self).scopes@.len() == old(self).scopes@.len() + 1,
            state(*final(self)) == emission::push_scope(state(*old(self))),
    {
        self.scopes.push(Vec::new());
        proof {
            assert(scope_view(Seq::<(String, Binding)>::empty()) =~= Seq::empty());
            assert(state(*self).scopes =~= state(*old(self)).scopes.push(Seq::empty()));
        }
    }

    /// End the innermost lexical block scope.
    fn pop_scope(&mut self)
        requires
            old(self).scopes@.len() > 0,
        ensures
            old(self).inv() ==> final(self).inv(),
            same_bookkeeping(*old(self), *final(self)),
            final(self).instructions@ == old(self).instructions@,
            final(self).scopes@.len() == old(self).scopes@.len() - 1,
            state(*final(self)) == emission::pop_scope(state(*old(self))),
    {
        self.scopes.pop();
        proof {
            assert(state(*self).scopes =~= state(*old(self)).scopes.drop_last());
        }
    }

    /// Whether the identifier at `span` was classified as an emoji literal.
    fn is_emoji_literal(&self, start: usize, end: usize) -> (r: bool)
        ensures
            r == exists|k: int| 0 <= k < self.emoji_literals@.len() && #[trigger] self.emoji_literals@[k] == (start, end),
    {
        let mut k: usize = 0;
        while k < self.emoji_literals.len()
            invariant
                0 <= k <= self.emoji_literals@.len(),
                forall|j: int| 0 <= j < k ==> #[trigger] self.emoji_literals@[j] != (start, end),
            decreases self.emoji_literals@.len() - k,
        {
            if self.emoji_literals[k].0 == start && self.emoji_literals[k].1 == end {
                return true;
            }
            k = k + 1;
        }
        false
    }

    /// Compile the statements of a block in a fresh scope.
    fn compile_block(&mut self, statements: &Vec<Stmt>) -> (r: Result<(), Diagnostic>)
        requires
            old(self).inv(),
        ensures
            final(self).in_function == old(self).in_function,
            final(self).instructions@.len() >= old(self).instructions@.len(),
            final(self).scopes@.len() == old(self).scopes@.len(),
            r is Ok ==> statement_progress(*old(self), *final(self)),
            match gen_block(state(*old(self)), statements@) {
                Some(g) => r is Ok && state(*final(self)) == g,
                None => r is Err,
            },
        decreases statements, 1int,
    {
        self.push_scope();
        let result = self.compile_statements(statements);
        self.pop_scope();
        result
    }

    /// Compile the statements of a block in the current scope.
    fn compile_statements(&mut self, statements: &Vec<Stmt>) -> (r: Result<(), Diagnostic>)
        requires
            old(self).inv(),
        ensures
            final(self).in_function == old(self).in_function,
            final(self).instructions@.len() >= old(self).instructions@.len(),
            final(self).scopes@.len() == old(self).scopes@.len(),
            r is Ok ==> statement_progress(*old(self), *final(self)),
            match gen_stmts(state(*old(self)), statements@, 0) {
                Some(g) => r is Ok && state(*final(self)) == g,
                None => r is Err,
            },
        decreases statements, 0int,
    {
        proof {
            lemma_loops_extended_refl(self.loop_stack@);
        }
        let mut k: usize = 0;
        while k < statements.len()
            invariant
                0 <= k <= statements@.len(),
                self.instructions@.len() >= old(self).instructions@.len(),
                self.scopes@.len() == old(self).scopes@.len(),
                statement_progress(*old(self), *self),
                self.in_function == old(self).in_function,
                gen_stmts(state(*self), statements@, k as int) == gen_stmts(state(*old(self)), statements@, 0),
            decreases statements@.len() - k,
        {
            let ghost before = *self;
            let step = self.compile_statement(&statements[k]);
            if step.is_err() {
                proof {
                    assert(gen_stmts(state(before), statements@, k as int) is None);
                }
                return step;
            }
            proof {
                lemma_statement_steps(*old(self), before, *self);
            }
            k = k + 1;
        }
        Ok(())
    }

    /// Compile one statement and append its bytecode to the instruction stream.
    fn compile_statement(&mut self, statement: &Stmt) -> (r: Result<(), Diagnostic>)
        requires
            old(self).inv(),
        ensures
            final(self).in_function == old(self).in_function,
            final(self).instructions@.len() >= old(self).instructions@.len(),
            final(self).scopes@.len() == old(self).scopes@.len(),
            r is Ok ==> statement_progress(*old(self), *final(self)),
            match gen_stmt(state(*old(self)), *statement) {
                Some(g) => r is Ok && state(*final(self)) == g,
                None => r is Err,
            },
        decreases statement,
    {
        proof {
            lemma_loops_extended_refl(self.loop_stack@);
        }
        match statement {
            Stmt::Assign { name, expr, .. } | Stmt::Const { name, expr, .. } => {
                self.compile_expr(expr)?;
                let binding = match self.resolve_name(name.as_str()) {
                    Some(binding) => binding,
                    None => self.declare_name(name.as_str()),
                };
                self.emit_store(&binding);
            },
            Stmt::Append { name, expr, span } => {
                let binding = match self.resolve_name(name.as_str()) {
                    Some(binding) => binding,
                    None => {
                        return Err(Diagnostic::at("append target was not declared", *span));
                    },
                };
                self.emit_load(&binding);
                self.compile_expr(expr)?;
                self.emit(Instruction::ListAppend);
                self.emit_store(&binding);
            },
            Stmt::Print { expr, .. } => {
                self.compile_expr(expr)?;
                self.emit(Instruction::Print);
            },
            Stmt::Break { span } => self.emit_loop_break(*span)?,
            Stmt::Continue { span } => self.emit_loop_continue(*span)?,
            Stmt::Function { .. } => {},
            Stmt::Return { expr, .. } => {
                self.compile_expr(expr)?;
                self.emit(Instruction::Return);
            },
            Stmt::Call { expr, .. } => {
                self.compile_expr(expr)?;
                self.emit(Instruction::Pop);
            },
            Stmt::If { condition, then_branch, else_branch, .. } => {
                self.compile_expr(condition)?;
                let jump_if_false = self.emit_placeholder_jump_if_false();
                let ghost guarded = *self;
                self.compile_block(then_branch)?;
                proof {
                    lemma_statement_steps(guarded, guarded, *self);
                }
                match else_branch {
                    Some(else_branch) => {
                        let jump_after_else = self.emit_placeholder_jump();
                        let else_start = self.instructions.len();
                        self.patch_jump(jump_if_false, else_start);
                        let ghost before_else = *self;
                        self.compile_block(else_branch)?;
                        proof {
                            lemma_loops_extended_trans(guarded.loop_stack@, before_else.loop_stack@, self.loop_stack@);
                        }
                        let after_else = self.instructions.len();
                        self.patch_jump(jump_after_else, after_else);
                    },
                    None => {
                        let after_then = self.instructions.len();
                        self.patch_jump(jump_if_false, after_then);
                    },
                }
                proof {
                    lemma_loops_extended_trans(old(self).loop_stack@, guarded.loop_stack@, self.loop_stack@);
                }
            },
            Stmt::While { condition, body, .. } => {
                let loop_start = self.instructions.len();
                self.compile_expr(condition)?;
                let jump_if_false = self.emit_placeholder_jump_if_false();
                self.begin_loop();
                let ghost in_loop = *self;
                self.compile_block(body)?;
                self.emit(Instruction::Jump(loop_start));
                let after_loop = self.instructions.len();
                self.patch_jump(jump_if_false, after_loop);
                let ghost before_end = *self;
                self.end_loop(loop_start, after_loop);
                proof {
                    assert(self.loop_stack@ =~= old(self).loop_stack@) by {
                        assert forall|c: int| 0 <= c < old(self).loop_stack@.len()
                            implies self.loop_stack@[c] == old(self).loop_stack@[c] by {
                            assert(before_end.loop_stack@[c] == in_loop.loop_stack@[c]);
                        }
                    }
                }
            },
            Stmt::For { variable, source, body, .. } => match source {
                ForSource::List { expr, .. } => self.compile_for_list(variable.as_str(), expr, body)?,
                ForSource::Range { start, end, .. } => self.compile_for_range(variable.as_str(), start, end, body)?,
            },
        }
        Ok(())
    }

    /// Compile the body of a top-level function; its entry is recorded under its name.
    fn compile_function(&mut self, name: &String, parameters: &Vec<String>, body: &Vec<Stmt>) -> (r: Result<(), Diagnostic>)
        requires
            old(self).inv(),
            old(self).loop_stack@.len() == 0,
        ensures
            final(self).instructions@.len() >= old(self).instructions@.len(),
            r is Ok ==> {
                &&& final(self).inv()
                &&& final(self).loop_stack@.len() == 0
                &&& final(self).open@.subset_of(old(self).open@)
            },
            match gen_function(state(*old(self)), name@, emission::parameter_names(parameters@), body@) {
                Some(g) => r is Ok && state(*final(self)) == g,
                None => r is Err,
            },
    {
        let ghost g0 = state(*self);
        let entry = self.instructions.len();
        self.functions.push((name.clone(), entry));
        self.scopes.truncate(1);
        self.push_scope();
        self.loop_stack = Vec::new();
        self.in_function = true;
        let ghost start = *self;
        let ghost names = emission::parameter_names(parameters@);
        proof {
            let g1 = Gen {
                functions: g0.functions.push((name@, emission::here(g0))),
                scopes: if g0.scopes.len() > 1 { g0.scopes.subrange(0, 1) } else { g0.scopes },
                loops: Seq::empty(),
                in_function: true,
                ..g0
            };
            assert(state(start).functions =~= g1.functions);
            assert(state(start).scopes =~= emission::push_scope(g1).scopes);
            assert(state(start).loops =~= Seq::<(Seq<usize>, Seq<usize>)>::empty());
            assert(state(start) == emission::push_scope(g1));
        }

        let mut bindings: Vec<Binding> = Vec::new();
        let mut p: usize = 0;
        assert(bindings@.map_values(|b: Binding| place_of(b)) =~= Seq::<Place>::empty());
        while p < parameters.len()
            invariant
                0 <= p <= parameters@.len(),
                self.instructions@.len() == entry,
                self.scopes@.len() > 0,
                self.inv(),
                same_bookkeeping(start, *self),
                names == emission::parameter_names(parameters@),
                emission::declare_parameters(state(*self), names, p as int, bindings@.map_values(|b: Binding| place_of(b)))
                    == emission::declare_parameters(state(start), names, 0, Seq::empty()),
            decreases parameters@.len() - p,
        {
            let ghost placed = bindings@.map_values(|b: Binding| place_of(b));
            let binding = self.declare_local_name(parameters[p].as_str());
            bindings.push(binding);
            proof {
                assert(bindings@.map_values(|b: Binding| place_of(b)) =~= placed.push(place_of(binding)));
            }
            p = p + 1;
        }
        let ghost declared = state(*self);
        let ghost places = bindings@.map_values(|b: Binding| place_of(b));
        let mut p: usize = bindings.len();
        while p > 0
            invariant
                p <= bindings@.len(),
                self.instructions@.len() >= entry,
                self.scopes@.len() > 0,
                self.inv(),
                same_bookkeeping(start, *self),
                places == bindings@.map_values(|b: Binding| place_of(b)),
                emission::store_parameters(state(*self), places, p as int)
                    == emission::store_parameters(declared, places, places.len() as int),
            decreases p,
        {
            p = p - 1;
            self.emit_store(&bindings[p]);
        }
        let result = self.compile_statements(body);
        self.pop_scope();
        result
    }

    /// Compile a `for` loop over a list using generated list, index, and length locals.
    #[verifier::rlimit(60)]
    fn compile_for_list(&mut self, variable: &str, source: &Expr, body: &Vec<Stmt>) -> (r: Result<(), Diagnostic>)
        requires
            old(self).inv(),
        ensures
            final(self).in_function == old(self).in_function,
            final(self).instructions@.len() >= old(self).instructions@.len(),
            final(self).scopes@.len() == old(self).scopes@.len(),
            r is Ok ==> statement_progress(*old(self), *final(self)),
            match gen_for_list(state(*old(self)), variable@, *source, body@) {
                Some(g) => r is Ok && state(*final(self)) == g,
                None => r is Err,
            },
        decreases body, 2int,
    {
        let id = self.next_loop_id();
        let list_name = numbered("__peps_for_", id, "_list");
        let index_name = numbered("__peps_for_", id, "_index");
        let len_name = numbered("__peps_for_", id, "_len");

        self.compile_expr(source)?;
        self.push_scope();
        let variable_name = self.declare_loop_variable(variable);
        self.emit_slot_store(&list_name);
        self.emit(Instruction::LoadConst(Value::Num(Int::from_usize(0))));
        self.emit_slot_store(&index_name);
        self.emit_slot_load(&list_name);
        self.emit(Instruction::ListLen);
        self.emit_slot_store(&len_name);

        let loop_start = self.instructions.len();
        self.emit_slot_load(&index_name);
        self.emit_slot_load(&len_name);
        self.emit(Instruction::Lt);
        let jump_if_false = self.emit_placeholder_jump_if_false();

        self.emit_slot_load(&list_name);
        self.emit_slot_load(&index_name);
        self.emit(Instruction::ListGet);
        self.emit_store(&variable_name);
        self.begin_loop();
        let ghost in_loop = *self;

        let result = self.compile_statements(body);
        if result.is_err() {
            self.pop_scope();
            return result;
        }

        let continue_target = self.instructions.len();
        self.emit_slot_load(&index_name);
        self.emit(Instruction::LoadConst(Value::Num(Int::from_usize(1))));
        self.emit(Instruction::Add);
        self.emit_slot_store(&index_name);
        self.emit(Instruction::Jump(loop_start));

        let after_loop = self.instructions.len();
        self.patch_jump(jump_if_false, after_loop);
        let ghost before_end = *self;
        self.end_loop(continue_target, after_loop);
        self.pop_scope();
        proof {
            assert(self.loop_stack@ =~= old(self).loop_stack@) by {
                assert forall|c: int| 0 <= c < old(self).loop_stack@.len()
                    implies self.loop_stack@[c] == old(self).loop_stack@[c] by {
                    assert(before_end.loop_stack@[c] == in_loop.loop_stack@[c]);
                }
            }
            lemma_loops_extended_refl(self.loop_stack@);
        }
        Ok(())
    }

    /// Compile a numeric range loop with an exclusive upper bound.
    #[verifier::rlimit(60)]
    fn compile_for_range(&mut self, variable: &str, start: &Expr, end: &Expr, body: &Vec<Stmt>) -> (r: Result<(), Diagnostic>)
        requires
            old(self).inv(),
        ensures
            final(self).in_function == old(self).in_function,
            final(self).instructions@.len() >= old(self).instructions@.len(),
            final(self).scopes@.len() == old(self).scopes@.len(),
            r is Ok ==> statement_progress(*old(self), *final(self)),
            match gen_for_range(state(*old(self)), variable@, *start, *end, body@) {
                Some(g) => r is Ok && state(*final(self)) == g,
                None => r is Err,
            },
        decreases body, 2int,
    {
        let id = self.next_loop_id();
        let index_name = numbered("__peps_for_", id, "_index");
        let end_name = numbered("__peps_for_", id, "_end");

        self.compile_expr(start)?;
        self.emit_slot_store(&index_name);
        self.compile_expr(end)?;
        self.emit_slot_store(&end_name);
        self.push_scope();
        let variable_name = self.declare_loop_variable(variable);

        let loop_start = self.instructions.len();
        self.emit_slot_load(&index_name);
        self.emit_slot_load(&end_name);
        self.emit(Instruction::Lt);
        let jump_if_false = self.emit_placeholder_jump_if_false();

        self.emit_slot_load(&index_name);
        self.emit_store(&variable_name);
        self.begin_loop();
        let ghost in_loop = *self;

        let result = self.compile_statements(body);
        if result.is_err() {
            self.pop_scope();
            return result;
        }

        let continue_target = self.instructions.len();
        self.emit_slot_load(&index_name);
        self.emit(Instruction::LoadConst(Value::Num(Int::from_usize(1))));
        self.emit(Instruction::Add);
        self.emit_slot_store(&index_name);
        self.emit(Instruction::Jump(loop_start));

        let after_loop = self.instructions.len();
        self.patch_jump(jump_if_false, after_loop);
        let ghost before_end = *self;
        self.end_loop(continue_target, after_loop);
        self.pop_scope();
        proof {
            assert(self.loop_stack@ =~= old(self).loop_stack@) by {
                assert forall|c: int| 0 <= c < old(self).loop_stack@.len()
                    implies self.loop_stack@[c] == old(self).loop_stack@[c] by {
                    assert(before_end.loop_stack@[c] == in_loop.loop_stack@[c]);
                }
            }
            lemma_loops_extended_refl(self.loop_stack@);
        }
        Ok(())
    }

    /// Compile an expression so its value is left on the VM stack.
    fn compile_expr(&mut self, expr: &Expr) -> (r: Result<(), Diagnostic>)
        requires
            old(self).inv(),
        ensures
            final(self).in_function == old(self).in_function,
            final(self).instructions@.len() >= old(self).instructions@.len(),
            final(self).scopes@.len() == old(self).scopes@.len(),
            r is Ok ==> expression_progress(*old(self), *final(self)),
            match gen_expr(state(*old(self)), *expr) {
                Some(g) => r is Ok && state(*final(self)) == g,
                None => r is Err,
            },
        decreases expr,
    {
        let ghost goal = gen_expr(state(*old(self)), *expr);
        match expr {
            Expr::Number { value, .. } => self.emit(Instruction::LoadConst(Value::Num(value.duplicate()))),
            Expr::Float { text, .. } => self.emit(Instruction::LoadConst(Value::Float(text.clone()))),
            Expr::Input { kind, .. } => self.emit(Instruction::Input(*kind)),
            Expr::String { value, .. } => self.emit(Instruction::LoadConst(Value::Str(value.clone()))),
            Expr::Bool { value, .. } => self.emit(Instruction::LoadConst(Value::Bool(*value))),
            Expr::Variable { name, span } => {
                if self.is_emoji_literal(span.start, span.end) {
                    self.emit(Instruction::LoadConst(Value::Emoji(name.clone())));
                } else {
                    match self.resolve_name(name.as_str()) {
                        Some(binding) => self.emit_load(&binding),
                        None => {
                            return Err(Diagnostic::at("variable was not declared", *span));
                        },
                    }
                }
            },
            Expr::List { elements, .. } => {
                let mut k: usize = 0;
                proof {
                    assert(decreases_to!(*expr => *elements));
                }
                let ghost start = state(*self);
                while k < elements.len()
                    invariant
                        0 <= k <= elements@.len(),
                        decreases_to!(*expr => *elements),
                        goal == gen_expr(state(*old(self)), *expr),
                        goal == match gen_exprs(start, elements@, 0) {
                            Some(g1) => Some(emission::emit(g1, emission::InstrView::MakeList(elements@.len() as usize))),
                            None => None,
                        },
                        gen_exprs(state(*self), elements@, k as int) == gen_exprs(start, elements@, 0),
                        self.instructions@.len() >= old(self).instructions@.len(),
                        self.scopes@.len() == old(self).scopes@.len(),
                        expression_progress(*old(self), *self),
                        self.in_function == old(self).in_function,
                    decreases elements@.len() - k,
                {
                    proof {
                        assert(decreases_to!(*elements => elements[k as int]));
                    }
                    let ghost before = *self;
                    let step = self.compile_expr(&elements[k]);
                    if step.is_err() {
                        proof {
                            assert(gen_exprs(state(before), elements@, k as int) is None);
                        }
                        return step;
                    }
                    proof {
                        lemma_expression_steps(*old(self), before, *self);
                    }
                    k = k + 1;
                }
                self.emit(Instruction::MakeList(elements.len()));
            },
            Expr::MapLiteral { entries, .. } => {
                let mut k: usize = 0;
                proof {
                    assert(decreases_to!(*expr => *entries));
                }
                let ghost start = state(*self);
                while k < entries.len()
                    invariant
                        0 <= k <= entries@.len(),
                        decreases_to!(*expr => *entries),
                        goal == gen_expr(state(*old(self)), *expr),
                        goal == match gen_entries(start, entries@, 0) {
                            Some(g1) => Some(emission::emit(g1, emission::InstrView::MakeMap(entries@.len() as usize))),
                            None => None,
                        },
                        gen_entries(state(*self), entries@, k as int) == gen_entries(start, entries@, 0),
                        self.instructions@.len() >= old(self).instructions@.len(),
                        self.scopes@.len() == old(self).scopes@.len(),
                        expression_progress(*old(self), *self),
                        self.in_function == old(self).in_function,
                    decreases entries@.len() - k,
                {
                    proof {
                        assert(decreases_to!(*entries => entries[k as int]));
                        assert(decreases_to!(entries[k as int] => entries[k as int].0));
                        assert(decreases_to!(entries[k as int] => entries[k as int].1));
                    }
                    let ghost before = *self;
                    let step = self.compile_expr(&entries[k].0);
                    if step.is_err() {
                        proof {
                            assert(gen_entries(state(before), entries@, k as int) is None);
                        }
                        return step;
                    }
                    let ghost middle = *self;
                    let step = self.compile_expr(&entries[k].1);
                    if step.is_err() {
                        proof {
                            assert(gen_entries(state(before), entries@, k as int) is None);
                        }
                        return step;
                    }
                    proof {
                        lemma_expression_steps(before, middle, *self);
                        lemma_expression_steps(*old(self), before, *self);
                    }
                    k = k + 1;
                }
                self.emit(Instruction::MakeMap(entries.len()));
            },
            Expr::Unary { op, expr: operand, .. } => match op {
                UnaryOp::Negate => match &**operand {
                    Expr::Number { value, .. } => {
                        let negated = Int::from_usize(0).sub(value);
                        self.emit(Instruction::LoadConst(Value::Num(negated)));
                    },
                    Expr::Float { text, .. } => {
                        let mut negated = owned("-");
                        push_str(&mut negated, text.as_str());
                        self.emit(Instruction::LoadConst(Value::Float(negated)));
                    },
                    _ => {
                        self.emit(Instruction::LoadConst(Value::Num(Int::from_usize(0))));
                        self.compile_expr(operand)?;
                        self.emit(Instruction::Sub);
                    },
                },
                UnaryOp::Len => {
                    self.compile_expr(operand)?;
                    self.emit(Instruction::ListLen);
                },
                UnaryOp::Not => {
                    self.compile_expr(operand)?;
                    let jump_if_false = self.emit_placeholder_jump_if_false();
                    self.emit(Instruction::LoadConst(Value::Bool(false)));
                    let jump_end = self.emit_placeholder_jump();
                    let true_branch = self.instructions.len();
                    self.patch_jump(jump_if_false, true_branch);
                    self.emit(Instruction::LoadConst(Value::Bool(true)));
                    let after = self.instructions.len();
                    self.patch_jump(jump_end, after);
                },
            },
            Expr::Binary { left, op, right, .. } => match op {
                BinaryOp::And => {
                    self.compile_expr(left)?;
                    let left_false = self.emit_placeholder_jump_if_false();
                    self.compile_expr(right)?;
                    let right_false = self.emit_placeholder_jump_if_false();
                    self.emit(Instruction::LoadConst(Value::Bool(true)));
                    let jump_end = self.emit_placeholder_jump();
                    let false_branch = self.instructions.len();
                    self.patch_jump(left_false, false_branch);
                    self.patch_jump(right_false, false_branch);
                    self.emit(Instruction::LoadConst(Value::Bool(false)));
                    let after = self.instructions.len();
                    self.patch_jump(jump_end, after);
                },
                BinaryOp::Or => {
                    self.compile_expr(left)?;
                    let left_false = self.emit_placeholder_jump_if_false();
                    self.emit(Instruction::LoadConst(Value::Bool(true)));
                    let jump_end_left = self.emit_placeholder_jump();
                    let eval_right = self.instructions.len();
                    self.patch_jump(left_false, eval_right);
                    self.compile_expr(right)?;
                    let right_false = self.emit_placeholder_jump_if_false();
                    self.emit(Instruction::LoadConst(Value::Bool(true)));
                    let jump_end_right = self.emit_placeholder_jump();
                    let false_branch = self.instructions.len();
                    self.patch_jump(right_false, false_branch);
                    self.emit(Instruction::LoadConst(Value::Bool(false)));
                    let after = self.instructions.len();
                    self.patch_jump(jump_end_left, after);
                    self.patch_jump(jump_end_right, after);
                },
                _ => {
                    self.compile_expr(left)?;
                    self.compile_expr(right)?;
                    let instruction = match op {
                        BinaryOp::Append => Instruction::ListAppend,
                        BinaryOp::Add => Instruction::Add,
                        BinaryOp::Sub => Instruction::Sub,
                        BinaryOp::Mul => Instruction::Mul,
                        BinaryOp::Div => Instruction::Div,
                        BinaryOp::Index => Instruction::ListGet,
                        BinaryOp::Has => Instruction::MapHas,
                        BinaryOp::Eq => Instruction::Eq,
                        BinaryOp::NotEq => Instruction::NotEq,
                        BinaryOp::Lt => Instruction::Lt,
                        BinaryOp::Gt => Instruction::Gt,
                        BinaryOp::LtEq => Instruction::LtEq,
                        _ => Instruction::GtEq,
                    };
                    self.emit(instruction);
                },
            },
            Expr::Call { name, arguments, .. } => {
                let mut k: usize = 0;
                proof {
                    assert(decreases_to!(*expr => *arguments));
                }
                let ghost start = state(*self);
                while k < arguments.len()
                    invariant
                        0 <= k <= arguments@.len(),
                        decreases_to!(*expr => *arguments),
                        goal == gen_expr(state(*old(self)), *expr),
                        goal == match gen_exprs(start, arguments@, 0) {
                            Some(g1) => Some(emission::emit_call(g1, name@, arguments@.len() as usize)),
                            None => None,
                        },
                        gen_exprs(state(*self), arguments@, k as int) == gen_exprs(start, arguments@, 0),
                        self.instructions@.len() >= old(self).instructions@.len(),
                        self.scopes@.len() == old(self).scopes@.len(),
                        expression_progress(*old(self), *self),
                        self.in_function == old(self).in_function,
                    decreases arguments@.len() - k,
                {
                    proof {
                        assert(decreases_to!(*arguments => arguments[k as int]));
                    }
                    let ghost before = *self;
                    let step = self.compile_expr(&arguments[k]);
                    if step.is_err() {
                        proof {
                            assert(gen_exprs(state(before), arguments@, k as int) is None);
                        }
                        return step;
                    }
                    proof {
                        lemma_expression_steps(*old(self), before, *self);
                    }
                    k = k + 1;
                }
                self.emit_call(name, arguments.len());
            },
            Expr::Convert { kind, expr: operand, .. } => {
                self.compile_expr(operand)?;
                self.emit(Instruction::Convert(*kind));
            },
        }
        Ok(())
    }

    /// The entry of the function called `name`, if one was compiled.
    fn function_entry(&self, name: &String) -> (r: Option<usize>)
        ensures
            r matches Some(t) ==> exists|f: int| 0 <= f < self.functions@.len() && (#[trigger] self.functions@[f]).1 == t,
            r == emission::entry_from(state(*self).functions, name@, 0),
    {
        let ghost functions = state(*self).functions;
        let mut k: usize = 0;
        while k < self.functions.len()
            invariant
                0 <= k <= self.functions@.len(),
                functions == state(*self).functions,
                emission::entry_from(functions, name@, 0) == emission::entry_from(functions, name@, k as int),
            decreases self.functions@.len() - k,
        {
            if self.functions[k].0 == *name {
                return Some(self.functions[k].1);
            }
            k = k + 1;
        }
        None
    }
}

/// Compile a semantically checked Peps program into bytecode instructions.
///
/// The code is [`compiled`]: the top-level statements, then (where there are
/// functions) a jump over the function bodies, each call pointed at its
/// function's first instruction. A checked program naming a variable or
/// function that was never declared, or jumping out of a loop where there is
/// none, is refused with one diagnostic. In the compiled code every jump and
/// call continues at one of its instructions or at its end.
pub fn compile(checked: CheckedProgram) -> (r: Result<Vec<Instruction>, Vec<Diagnostic>>)
    ensures
        r matches Err(ds) ==> ds@.len() == 1,
        r matches Ok(code) ==> transfers_within(code@),
        r is Ok <==> compiled(checked.program.statements@, checked.symbols@, checked.emoji_literals@) is Some,
        r matches Ok(code) ==> compiled(checked.program.statements@, checked.symbols@, checked.emoji_literals@)
            == Some(code_view(code@)),
{
    let ghost table_view = checked.symbols@;
    let ghost emoji_view = checked.emoji_literals@;
    let CheckedProgram { program, symbols, emoji_literals } = checked;
    let mut global_scope: Vec<Vec<(String, Binding)>> = Vec::new();
    global_scope.push(Vec::new());
    let mut compiler = Compiler {
        instructions: Vec::new(),
        emoji_literals,
        symbols,
        loop_counter: 0,
        local_counter: 0,
        loop_stack: Vec::new(),
        scopes: global_scope,
        functions: Vec::new(),
        pending_calls: Vec::new(),
        open: Ghost(Set::empty()),
        in_function: false,
    };
    proof {
        let g = state(compiler);
        assert(g.code =~= Seq::<emission::InstrView>::empty());
        assert(scope_view(compiler.scopes@[0]@) =~= Seq::empty());
        assert(g.scopes =~= seq![Seq::<(Seq<char>, Place)>::empty()]);
        assert(g.loops =~= Seq::<(Seq<usize>, Seq<usize>)>::empty());
        assert(g.functions =~= Seq::<(Seq<char>, usize)>::empty());
        assert(g.pending =~= Seq::<(usize, Seq<char>)>::empty());
        assert(g == emission::initial(table_view, emoji_view));
    }
    match compile_program(&mut compiler, &program.statements) {
        Ok(()) => Ok(compiler.instructions),
        Err(diagnostic) => {
            let mut diagnostics = Vec::new();
            diagnostics.push(diagnostic);
            Err(diagnostics)
        },
    }
}

fn compile_program(compiler: &mut Compiler, statements: &Vec<Stmt>) -> (r: Result<(), Diagnostic>)
    requires
        old(compiler).scopes@.len() == 1,
        old(compiler).inv(),
        old(compiler).loop_stack@.len() == 0,
        old(compiler).open@ == Set::<int>::empty(),
    ensures
        r is Ok ==> transfers_within(final(compiler).instructions@),
        match emission::gen_program(state(*old(compiler)), statements@) {
            Some(g) => r is Ok && state(*final(compiler)) == g,
            None => r is Err,
        },
{
    let ghost g0 = state(*compiler);
    let mut k: usize = 0;
    let mut has_functions = false;
    while k < statements.len()
        invariant
            0 <= k <= statements@.len(),
            compiler.scopes@.len() == 1,
            compiler.inv(),
            compiler.loop_stack@.len() == 0,
            compiler.open@ == Set::<int>::empty(),
            g0 == state(*old(compiler)),
            emission::gen_top(state(*compiler), statements@, k as int) == emission::gen_top(g0, statements@, 0),
            has_functions <==> exists|j: int| 0 <= j < k && #[trigger] statements@[j] is Function,
        decreases statements@.len() - k,
    {
        if matches!(&statements[k], Stmt::Function { .. }) {
            has_functions = true;
        } else {
            let ghost before = state(*compiler);
            let step = compiler.compile_statement(&statements[k]);
            if step.is_err() {
                proof {
                    assert(emission::gen_top(before, statements@, k as int) is None);
                }
                return step;
            }
            proof {
                assert(compiler.open@ =~= Set::<int>::empty());
            }
        }
        k = k + 1;
    }
    let ghost g1 = state(*compiler);
    proof {
        assert(has_functions == emission::defines_function(statements@));
    }
    if has_functions {
        let skip_functions = compiler.emit_placeholder_jump();
        let ghost g2 = state(*compiler);
        let mut k: usize = 0;
        while k < statements.len()
            invariant
                0 <= k <= statements@.len(),
                compiler.inv(),
                compiler.loop_stack@.len() == 0,
                compiler.open@.subset_of(Set::<int>::empty().insert(skip_functions as int)),
                emission::gen_functions(state(*compiler), statements@, k as int) == emission::gen_functions(g2, statements@, 0),
                g0 == state(*old(compiler)),
                emission::gen_top(g0, statements@, 0) == Some(g1),
                emission::defines_function(statements@),
                g2 == emission::emit(g1, emission::InstrView::Jump(emission::unresolved())),
            decreases statements@.len() - k,
        {
            if let Stmt::Function { name, parameters, body, .. } = &statements[k] {
                let ghost before = state(*compiler);
                let step = compiler.compile_function(name, parameters, body);
                if step.is_err() {
                    proof {
                        assert(emission::gen_functions(before, statements@, k as int) is None);
                    }
                    return step;
                }
            }
            k = k + 1;
        }
        let end = compiler.instructions.len();
        compiler.patch_jump(skip_functions, end);
        proof {
            assert(compiler.open@ =~= Set::<int>::empty());
        }
    }
    let ghost resolving = state(*compiler);
    proof {
        assert(emission::gen_program(state(*old(compiler)), statements@) == emission::resolve_calls(resolving, 0));
    }
    let ghost pending = compiler.pending_calls@;
    let ghost length = compiler.instructions@.len();
    let mut p: usize = 0;
    while p < compiler.pending_calls.len()
        invariant
            0 <= p <= pending.len(),
            compiler.pending_calls@ == pending,
            compiler.instructions@.len() == length,
            forall|f: int| 0 <= f < compiler.functions@.len() ==> (#[trigger] compiler.functions@[f]).1 <= length,
            forall|q: int| 0 <= q < pending.len() ==> {
                let i = (#[trigger] pending[q]).0 as int;
                0 <= i < length && compiler.instructions@[i] is Call
            },
            forall|i: int| 0 <= i < length ==> jump_settled(#[trigger] compiler.instructions@[i], length as int),
            forall|i: int| 0 <= i < length && !call_settled(#[trigger] compiler.instructions@[i], length as int)
                ==> exists|q: int| p <= q < pending.len() && (#[trigger] pending[q]).0 == i,
            emission::resolve_calls(state(*compiler), p as int) == emission::resolve_calls(resolving, 0),
            emission::gen_program(state(*old(compiler)), statements@) == emission::resolve_calls(resolving, 0),
        decreases pending.len() - p,
    {
        let index = compiler.pending_calls[p].0;
        let target = match compiler.function_entry(&compiler.pending_calls[p].1) {
            Some(target) => target,
            None => {
                return Err(Diagnostic::new("call to a function that was not compiled"));
            },
        };
        let ghost before_point = state(*compiler);
        if index < compiler.instructions.len() {
            let arity = match &compiler.instructions[index] {
                Instruction::Call { arity, .. } => Some(*arity),
                _ => None,
            };
            if let Some(arity) = arity {
                let ghost before = compiler.instructions@;
                compiler.instructions.set(index, Instruction::Call { target, arity });
                proof {
                    assert(code_view(compiler.instructions@) =~= code_view(before).update(
                        index as int,
                        instr_view(Instruction::Call { target, arity }),
                    ));
                    assert forall|i: int| 0 <= i < length && !call_settled(#[trigger] compiler.instructions@[i], length as int)
                        implies exists|q: int| p + 1 <= q < pending.len() && (#[trigger] pending[q]).0 == i by {
                        assert(i != index);
                        assert(compiler.instructions@[i] == before[i]);
                        let q = choose|q: int| p <= q < pending.len() && (#[trigger] pending[q]).0 == i;
                        assert(q != p);
                    }
                }
            }
        }
        proof {
            assert(state(*compiler) == emission::point_call(before_point, index, target));
        }
        p = p + 1;
    }
    proof {
        let code = compiler.instructions@;
        assert forall|i: int| 0 <= i < code.len() implies match transfer_target(#[trigger] code[i]) {
            Some(t) => t <= code.len(),
            None => true,
        } by {
            assert(jump_settled(code[i], length as int));
            assert(call_settled(code[i], length as int));
        }
    }
    Ok(())
}

} // verus!
