//! The layout of compiled control flow, stated directly: where the jumps of
//! an `if` and a `while` lead.
//!
//! Compiling a statement only appends code: what was emitted before stays as it
//! was, and the jumps waiting for an enclosing loop to end are jumps emitted
//! by that statement. From this, the targets of a statement's own jumps follow.

use vstd::prelude::*;

use crate::backend::emission::{
    add_break, add_continue, begin_loop, emit, end_loop, gen_block, gen_entries, gen_expr, gen_exprs,
    gen_for_list, gen_for_range, gen_stmt, store_parameters, Place, declare_parameters, gen_function,
    place_position, declare_local, gen_stmts, here, loop_rest, loop_step, loop_test, loop_variable,
    gen_assign, load, load_slot, negation, patch, patch_all, pop_scope, push_scope, resolve, store, store_slot,
    declare, Gen, InstrView,
};
use crate::backend::bytecode::{Instruction, Value};
use crate::backend::emission::{instr_view, load_bool, ConstView};
use crate::common::source::Span;
use crate::frontend::ast::{BinaryOp, Expr, ForSource, InputKind, Stmt, UnaryOp};
use crate::runtime::float::{FloatReply, FloatRequest};
use crate::runtime::value::RuntimeValue;
use crate::runtime::vm::{bool_run, law_jump_if_false_step, law_jump_step, law_load_bool_step, steps_through, Machine};

verus! {

/// `b` extends the list of jump positions `a`, and the added positions are
/// jumps of `r` emitted from position `lo` on.
pub open spec fn jumps_added(a: Seq<usize>, b: Seq<usize>, lo: int, r: Gen) -> bool {
    &&& a.len() <= b.len()
    &&& forall|k: int| 0 <= k < a.len() ==> #[trigger] b[k] == a[k]
    &&& forall|k: int| a.len() <= k < b.len() ==> lo <= #[trigger] b[k] < r.code.len() && r.code[b[k] as int] is Jump
}

/// How many of the jumps that loop `l` of `r` waits for with `side` (its
/// `break` jumps for `0`, its `continue` jumps for `1`) were already waiting in `g`.
pub open spec fn kept(g: Gen, l: int, side: int) -> int {
    if l < g.loops.len() {
        if side == 0 { g.loops[l].0.len() as int } else { g.loops[l].1.len() as int }
    } else {
        0
    }
}

/// `r` follows `g` by appending code: the code of `g` is kept, the loops of
/// `g` are still open, every jump that waits for a loop and is not one of
/// `g`'s is a jump emitted after `g`, and no such jump is both a `break` and a
/// `continue` of its loop.
pub open spec fn grows(g: Gen, r: Gen) -> bool {
    &&& forall|l: int, i: int, j: int| 0 <= l < r.loops.len() && kept(g, l, 0) <= i < r.loops[l].0.len()
        && kept(g, l, 1) <= j < r.loops[l].1.len() ==> #[trigger] r.loops[l].0[i] != #[trigger] r.loops[l].1[j]
    &&& g.code.len() <= r.code.len()
    &&& forall|i: int| 0 <= i < g.code.len() ==> #[trigger] r.code[i] == g.code[i]
    &&& g.loops.len() <= r.loops.len()
    &&& forall|l: int| 0 <= l < g.loops.len() ==> jumps_added((#[trigger] g.loops[l]).0, r.loops[l].0, g.code.len() as int, r)
        && jumps_added(g.loops[l].1, r.loops[l].1, g.code.len() as int, r)
    &&& forall|l: int| g.loops.len() <= l < r.loops.len() ==> jumps_added(Seq::empty(), (#[trigger] r.loops[l]).0, g.code.len() as int, r)
        && jumps_added(Seq::empty(), r.loops[l].1, g.code.len() as int, r)
}

proof fn lemma_grows_refl(g: Gen)
    ensures
        grows(g, g),
{
}

proof fn lemma_grows_trans(a: Gen, b: Gen, c: Gen)
    requires
        grows(a, b),
        grows(b, c),
    ensures
        grows(a, c),
{
    assert forall|l: int| 0 <= l < a.loops.len() implies jumps_added((#[trigger] a.loops[l]).0, c.loops[l].0, a.code.len() as int, c)
        && jumps_added(a.loops[l].1, c.loops[l].1, a.code.len() as int, c) by {
        assert(jumps_added(a.loops[l].0, b.loops[l].0, a.code.len() as int, b));
        assert(jumps_added(b.loops[l].0, c.loops[l].0, b.code.len() as int, c));
        assert(jumps_added(a.loops[l].1, b.loops[l].1, a.code.len() as int, b));
        assert(jumps_added(b.loops[l].1, c.loops[l].1, b.code.len() as int, c));
        assert forall|k: int| a.loops[l].0.len() <= k < c.loops[l].0.len() implies a.code.len() <= #[trigger] c.loops[l].0[k]
            < c.code.len() && c.code[c.loops[l].0[k] as int] is Jump by {
            if k < b.loops[l].0.len() {
                assert(c.loops[l].0[k] == b.loops[l].0[k]);
            }
        }
        assert forall|k: int| a.loops[l].1.len() <= k < c.loops[l].1.len() implies a.code.len() <= #[trigger] c.loops[l].1[k]
            < c.code.len() && c.code[c.loops[l].1[k] as int] is Jump by {
            if k < b.loops[l].1.len() {
                assert(c.loops[l].1[k] == b.loops[l].1[k]);
            }
        }
    }
    assert forall|l: int| a.loops.len() <= l < c.loops.len() implies jumps_added(Seq::empty(), (#[trigger] c.loops[l]).0, a.code.len() as int, c)
        && jumps_added(Seq::empty(), c.loops[l].1, a.code.len() as int, c) by {
        if l < b.loops.len() {
            assert(jumps_added(Seq::empty(), b.loops[l].0, a.code.len() as int, b));
            assert(jumps_added(b.loops[l].0, c.loops[l].0, b.code.len() as int, c));
            assert(jumps_added(Seq::empty(), b.loops[l].1, a.code.len() as int, b));
            assert(jumps_added(b.loops[l].1, c.loops[l].1, b.code.len() as int, c));
            assert forall|k: int| 0 <= k < c.loops[l].0.len() implies a.code.len() <= #[trigger] c.loops[l].0[k]
                < c.code.len() && c.code[c.loops[l].0[k] as int] is Jump by {
                if k < b.loops[l].0.len() {
                    assert(c.loops[l].0[k] == b.loops[l].0[k]);
                }
            }
            assert forall|k: int| 0 <= k < c.loops[l].1.len() implies a.code.len() <= #[trigger] c.loops[l].1[k]
                < c.code.len() && c.code[c.loops[l].1[k] as int] is Jump by {
                if k < b.loops[l].1.len() {
                    assert(c.loops[l].1[k] == b.loops[l].1[k]);
                }
            }
        } else {
            assert(jumps_added(Seq::empty(), c.loops[l].0, b.code.len() as int, c));
            assert(jumps_added(Seq::empty(), c.loops[l].1, b.code.len() as int, c));
        }
    }
}

/// Appending an instruction keeps growth.
proof fn lemma_emit(a: Gen, y: Gen, i: InstrView)
    requires
        grows(a, y),
    ensures
        grows(a, emit(y, i)),
        emit(y, i).loops == y.loops,
{
    let z = emit(y, i);
    assert forall|l: int| 0 <= l < a.loops.len() implies jumps_added((#[trigger] a.loops[l]).0, z.loops[l].0, a.code.len() as int, z)
        && jumps_added(a.loops[l].1, z.loops[l].1, a.code.len() as int, z) by {
        assert(jumps_added(a.loops[l].0, y.loops[l].0, a.code.len() as int, y));
        assert(jumps_added(a.loops[l].1, y.loops[l].1, a.code.len() as int, y));
    }
    assert forall|l: int| a.loops.len() <= l < z.loops.len() implies jumps_added(Seq::empty(), (#[trigger] z.loops[l]).0, a.code.len() as int, z)
        && jumps_added(Seq::empty(), z.loops[l].1, a.code.len() as int, z) by {
        assert(jumps_added(Seq::empty(), y.loops[l].0, a.code.len() as int, y));
        assert(jumps_added(Seq::empty(), y.loops[l].1, a.code.len() as int, y));
    }
}

/// Patching a jump emitted after `a` keeps growth.
proof fn lemma_patch(a: Gen, y: Gen, index: usize, target: usize)
    requires
        grows(a, y),
        index >= a.code.len(),
    ensures
        grows(a, patch(y, index, target)),
        patch(y, index, target).loops == y.loops,
        patch(y, index, target).code.len() == y.code.len(),
        forall|i: int| 0 <= i < y.code.len() && i != index ==> #[trigger] patch(y, index, target).code[i] == y.code[i],
        forall|i: int| 0 <= i < y.code.len() && y.code[i] is Jump ==> #[trigger] patch(y, index, target).code[i] is Jump,
{
    let z = patch(y, index, target);
    assert forall|l: int| 0 <= l < a.loops.len() implies jumps_added((#[trigger] a.loops[l]).0, z.loops[l].0, a.code.len() as int, z)
        && jumps_added(a.loops[l].1, z.loops[l].1, a.code.len() as int, z) by {
        assert(jumps_added(a.loops[l].0, y.loops[l].0, a.code.len() as int, y));
        assert(jumps_added(a.loops[l].1, y.loops[l].1, a.code.len() as int, y));
    }
    assert forall|l: int| a.loops.len() <= l < z.loops.len() implies jumps_added(Seq::empty(), (#[trigger] z.loops[l]).0, a.code.len() as int, z)
        && jumps_added(Seq::empty(), z.loops[l].1, a.code.len() as int, z) by {
        assert(jumps_added(Seq::empty(), y.loops[l].0, a.code.len() as int, y));
        assert(jumps_added(Seq::empty(), y.loops[l].1, a.code.len() as int, y));
    }
}

/// Patching jumps emitted after `a` keeps growth; a listed jump points at
/// `target` afterwards, and every position not listed is left as it was.
proof fn lemma_patch_all(a: Gen, y: Gen, jumps: Seq<usize>, target: usize, k: int)
    requires
        grows(a, y),
        0 <= k,
        forall|m: int| k <= m < jumps.len() ==> #[trigger] jumps[m] >= a.code.len(),
    ensures
        grows(a, patch_all(y, jumps, target, k)),
        patch_all(y, jumps, target, k).loops == y.loops,
        patch_all(y, jumps, target, k).code.len() == y.code.len(),
        forall|i: int| 0 <= i < y.code.len() && !jumps.subrange(k, jumps.len() as int).contains(i as usize)
            ==> #[trigger] patch_all(y, jumps, target, k).code[i] == y.code[i],
        forall|i: int| 0 <= i < y.code.len() && y.code[i] is Jump ==> #[trigger] patch_all(y, jumps, target, k).code[i] is Jump,
        forall|m: int| k <= m < jumps.len() && jumps[m] < y.code.len() && y.code[jumps[m] as int] is Jump
            ==> patch_all(y, jumps, target, k).code[#[trigger] jumps[m] as int] == InstrView::Jump(target),
    decreases jumps.len() - k,
{
    if k < jumps.len() {
        let y1 = patch(y, jumps[k], target);
        lemma_patch(a, y, jumps[k], target);
        lemma_patch_all(a, y1, jumps, target, k + 1);
        let z = patch_all(y, jumps, target, k);
        assert(z == patch_all(y1, jumps, target, k + 1));
        assert forall|i: int| 0 <= i < y.code.len() && !jumps.subrange(k, jumps.len() as int).contains(i as usize)
            implies #[trigger] z.code[i] == y.code[i] by {
            assert(jumps.subrange(k, jumps.len() as int)[0] == jumps[k]);
            if jumps.subrange(k + 1, jumps.len() as int).contains(i as usize) {
                let w = choose|w: int| 0 <= w < jumps.subrange(k + 1, jumps.len() as int).len()
                    && #[trigger] jumps.subrange(k + 1, jumps.len() as int)[w] == i as usize;
                assert(jumps.subrange(k, jumps.len() as int)[w + 1] == i as usize);
            }
        }
        assert forall|m: int| k <= m < jumps.len() && jumps[m] < y.code.len() && y.code[jumps[m] as int] is Jump
            implies z.code[#[trigger] jumps[m] as int] == InstrView::Jump(target) by {
            if m == k {
                if jumps.subrange(k + 1, jumps.len() as int).contains(jumps[k]) {
                    let w = choose|w: int| 0 <= w < jumps.subrange(k + 1, jumps.len() as int).len()
                        && #[trigger] jumps.subrange(k + 1, jumps.len() as int)[w] == jumps[k];
                    assert(jumps[k + 1 + w] == jumps[k]);
                    assert(y1.code[jumps[k + 1 + w] as int] is Jump);
                } else {
                    assert(y1.code[jumps[k] as int] == InstrView::Jump(target));
                }
            } else {
                assert(y1.code[jumps[m] as int] is Jump);
            }
        }
    }
}

/// Patching jumps keeps the length of the code and the loops.
proof fn lemma_patch_all_shape(y: Gen, jumps: Seq<usize>, target: usize, k: int)
    ensures
        patch_all(y, jumps, target, k).loops == y.loops,
        patch_all(y, jumps, target, k).code.len() == y.code.len(),
    decreases jumps.len() - k,
{
    if 0 <= k < jumps.len() {
        lemma_patch_all_shape(patch(y, jumps[k], target), jumps, target, k + 1);
    }
}

/// Ending a loop keeps the length of the code and drops the innermost loop.
proof fn lemma_end_loop_shape(y: Gen, next: usize, after: usize)
    requires
        y.loops.len() > 0,
    ensures
        end_loop(y, next, after).loops == y.loops.drop_last(),
        end_loop(y, next, after).code.len() == y.code.len(),
{
    let (breaks, continues) = y.loops.last();
    let g1 = Gen { loops: y.loops.drop_last(), ..y };
    lemma_patch_all_shape(g1, continues, next, 0);
    lemma_patch_all_shape(patch_all(g1, continues, next, 0), breaks, after, 0);
}

/// Patching one jump keeps the length of the code and the loops.
proof fn lemma_patch_shape(y: Gen, index: usize, target: usize)
    ensures
        patch(y, index, target).loops == y.loops,
        patch(y, index, target).code.len() == y.code.len(),
{
}

/// Changes to anything but the code and the loops keep growth.
proof fn lemma_same(a: Gen, y: Gen, z: Gen)
    requires
        grows(a, y),
        z.code == y.code,
        z.loops == y.loops,
    ensures
        grows(a, z),
{
}

/// A loop begun after `a` keeps growth.
proof fn lemma_begin_loop(a: Gen, y: Gen)
    requires
        grows(a, y),
    ensures
        grows(a, begin_loop(y)),
        begin_loop(y).code == y.code,
        begin_loop(y).loops.len() == y.loops.len() + 1,
{
    let z = begin_loop(y);
    assert forall|l: int| 0 <= l < a.loops.len() implies jumps_added((#[trigger] a.loops[l]).0, z.loops[l].0, a.code.len() as int, z)
        && jumps_added(a.loops[l].1, z.loops[l].1, a.code.len() as int, z) by {
        assert(z.loops[l] == y.loops[l]);
        assert(jumps_added(a.loops[l].0, y.loops[l].0, a.code.len() as int, y));
        assert(jumps_added(a.loops[l].1, y.loops[l].1, a.code.len() as int, y));
    }
    assert forall|l: int| a.loops.len() <= l < z.loops.len() implies jumps_added(Seq::empty(), (#[trigger] z.loops[l]).0, a.code.len() as int, z)
        && jumps_added(Seq::empty(), z.loops[l].1, a.code.len() as int, z) by {
        if l < y.loops.len() {
            assert(z.loops[l] == y.loops[l]);
            assert(jumps_added(Seq::empty(), y.loops[l].0, a.code.len() as int, y));
            assert(jumps_added(Seq::empty(), y.loops[l].1, a.code.len() as int, y));
        }
    }
}

/// Ending a loop begun after `a` keeps growth.
proof fn lemma_end_loop(a: Gen, y: Gen, next: usize, after: usize)
    requires
        grows(a, y),
        y.loops.len() > a.loops.len(),
    ensures
        grows(a, end_loop(y, next, after)),
        end_loop(y, next, after).loops == y.loops.drop_last(),
        end_loop(y, next, after).code.len() == y.code.len(),
{
    let (breaks, continues) = y.loops.last();
    let g1 = Gen { loops: y.loops.drop_last(), ..y };
    assert(grows(a, g1)) by {
        assert forall|l: int| 0 <= l < a.loops.len() implies jumps_added((#[trigger] a.loops[l]).0, g1.loops[l].0, a.code.len() as int, g1)
            && jumps_added(a.loops[l].1, g1.loops[l].1, a.code.len() as int, g1) by {
            assert(g1.loops[l] == y.loops[l]);
            assert(jumps_added(a.loops[l].0, y.loops[l].0, a.code.len() as int, y));
            assert(jumps_added(a.loops[l].1, y.loops[l].1, a.code.len() as int, y));
        }
        assert forall|l: int| a.loops.len() <= l < g1.loops.len() implies jumps_added(Seq::empty(), (#[trigger] g1.loops[l]).0, a.code.len() as int, g1)
            && jumps_added(Seq::empty(), g1.loops[l].1, a.code.len() as int, g1) by {
            assert(g1.loops[l] == y.loops[l]);
            assert(jumps_added(Seq::empty(), y.loops[l].0, a.code.len() as int, y));
            assert(jumps_added(Seq::empty(), y.loops[l].1, a.code.len() as int, y));
        }
    }
    let last = y.loops.len() - 1;
    assert(jumps_added(Seq::empty(), y.loops[last].0, a.code.len() as int, y));
    assert(jumps_added(Seq::empty(), y.loops[last].1, a.code.len() as int, y));
    assert forall|m: int| 0 <= m < continues.len() implies #[trigger] continues[m] >= a.code.len() by {}
    assert forall|m: int| 0 <= m < breaks.len() implies #[trigger] breaks[m] >= a.code.len() by {}
    lemma_patch_all(a, g1, continues, next, 0);
    lemma_patch_all(a, patch_all(g1, continues, next, 0), breaks, after, 0);
}

/// A `break` or a `continue` keeps growth.
proof fn lemma_loop_jump(a: Gen, y: Gen, is_break: bool)
    requires
        grows(a, y),
        y.loops.len() > 0,
        y.code.len() < usize::MAX,
    ensures
        grows(a, if is_break { add_break(y)->Some_0 } else { add_continue(y)->Some_0 }),
        (if is_break { add_break(y)->Some_0 } else { add_continue(y)->Some_0 }).loops.len() == y.loops.len(),
{
    let z = if is_break { add_break(y)->Some_0 } else { add_continue(y)->Some_0 };
    let last = y.loops.len() - 1;
    assert forall|l: int| 0 <= l < a.loops.len() implies jumps_added((#[trigger] a.loops[l]).0, z.loops[l].0, a.code.len() as int, z)
        && jumps_added(a.loops[l].1, z.loops[l].1, a.code.len() as int, z) by {
        assert(jumps_added(a.loops[l].0, y.loops[l].0, a.code.len() as int, y));
        assert(jumps_added(a.loops[l].1, y.loops[l].1, a.code.len() as int, y));
        if l == last {
            assert forall|k: int| a.loops[l].0.len() <= k < z.loops[l].0.len() implies a.code.len() <= #[trigger] z.loops[l].0[k]
                < z.code.len() && z.code[z.loops[l].0[k] as int] is Jump by {
                if k < y.loops[l].0.len() {
                    assert(z.loops[l].0[k] == y.loops[l].0[k]);
                }
            }
            assert forall|k: int| a.loops[l].1.len() <= k < z.loops[l].1.len() implies a.code.len() <= #[trigger] z.loops[l].1[k]
                < z.code.len() && z.code[z.loops[l].1[k] as int] is Jump by {
                if k < y.loops[l].1.len() {
                    assert(z.loops[l].1[k] == y.loops[l].1[k]);
                }
            }
        } else {
            assert(z.loops[l] == y.loops[l]);
        }
    }
    assert forall|l: int| a.loops.len() <= l < z.loops.len() implies jumps_added(Seq::empty(), (#[trigger] z.loops[l]).0, a.code.len() as int, z)
        && jumps_added(Seq::empty(), z.loops[l].1, a.code.len() as int, z) by {
        assert(jumps_added(Seq::empty(), y.loops[l].0, a.code.len() as int, y));
        assert(jumps_added(Seq::empty(), y.loops[l].1, a.code.len() as int, y));
        if l == last {
            assert forall|k: int| 0 <= k < z.loops[l].0.len() implies a.code.len() <= #[trigger] z.loops[l].0[k]
                < z.code.len() && z.code[z.loops[l].0[k] as int] is Jump by {
                if k < y.loops[l].0.len() {
                    assert(z.loops[l].0[k] == y.loops[l].0[k]);
                }
            }
            assert forall|k: int| 0 <= k < z.loops[l].1.len() implies a.code.len() <= #[trigger] z.loops[l].1[k]
                < z.code.len() && z.code[z.loops[l].1[k] as int] is Jump by {
                if k < y.loops[l].1.len() {
                    assert(z.loops[l].1[k] == y.loops[l].1[k]);
                }
            }
        } else {
            assert(z.loops[l] == y.loops[l]);
        }
    }
}


/// The growth of code through the steps of a negation.
proof fn lemma_negation(a: Gen, y: Gen)
    requires
        grows(a, y),
        y.code.len() + 4 < usize::MAX,
    ensures
        grows(a, negation(y)),
        negation(y).loops == y.loops,
        negation(y).code.len() == y.code.len() + 4,
{
    let g1 = emit(y, InstrView::JumpIfFalse(usize::MAX));
    lemma_emit(a, y, InstrView::JumpIfFalse(usize::MAX));
    let g2 = emit(g1, InstrView::LoadConst(crate::backend::emission::ConstView::Bool(false)));
    lemma_emit(a, g1, InstrView::LoadConst(crate::backend::emission::ConstView::Bool(false)));
    let g3 = emit(g2, InstrView::Jump(usize::MAX));
    lemma_emit(a, g2, InstrView::Jump(usize::MAX));
    lemma_patch(a, g3, here(y), here(g3));
    let g4 = patch(g3, here(y), here(g3));
    let g5 = emit(g4, InstrView::LoadConst(crate::backend::emission::ConstView::Bool(true)));
    lemma_emit(a, g4, InstrView::LoadConst(crate::backend::emission::ConstView::Bool(true)));
    lemma_patch(a, g5, here(g2), here(g5));
}

/// Compiling an expression only appends code and leaves the loops as they were.
proof fn lemma_expr_grows(g: Gen, e: Expr)
    ensures
        gen_expr(g, e) matches Some(r) ==> {
            &&& r.code.len() >= g.code.len()
            &&& r.loops == g.loops
            &&& r.code.len() < usize::MAX ==> grows(g, r)
        },
    decreases e, 0int, 0int,
{
    lemma_grows_refl(g);
    match e {
        Expr::List { elements, .. } => {
            lemma_exprs_grows(g, elements@, 0);
            if let Some(g1) = gen_exprs(g, elements@, 0) {
                if g1.code.len() + 1 < usize::MAX {
                    lemma_emit(g, g1, InstrView::MakeList(elements@.len() as usize));
                }
            }
        },
        Expr::MapLiteral { entries, .. } => {
            lemma_entries_grows(g, entries@, 0);
            if let Some(g1) = gen_entries(g, entries@, 0) {
                if g1.code.len() + 1 < usize::MAX {
                    lemma_emit(g, g1, InstrView::MakeMap(entries@.len() as usize));
                }
            }
        },
        Expr::Unary { op, expr, .. } => match op {
            UnaryOp::Negate => match *expr {
                Expr::Number { .. } => {},
                Expr::Float { .. } => {},
                _ => {
                    let g0 = emit(g, InstrView::LoadConst(crate::backend::emission::ConstView::Num(0)));
                    lemma_emit(g, g, InstrView::LoadConst(crate::backend::emission::ConstView::Num(0)));
                    lemma_expr_grows(g0, *expr);
                    if let Some(g1) = gen_expr(g0, *expr) {
                        if g1.code.len() + 1 < usize::MAX {
                            lemma_grows_trans(g, g0, g1);
                            lemma_emit(g, g1, InstrView::Sub);
                        }
                    }
                },
            },
            UnaryOp::Len => {
                lemma_expr_grows(g, *expr);
                if let Some(g1) = gen_expr(g, *expr) {
                    if g1.code.len() + 1 < usize::MAX {
                        lemma_emit(g, g1, InstrView::ListLen);
                    }
                }
            },
            UnaryOp::Not => {
                lemma_expr_grows(g, *expr);
                if let Some(g1) = gen_expr(g, *expr) {
                    if g1.code.len() + 4 < usize::MAX {
                        lemma_negation(g, g1);
                    }
                }
            },
        },
        Expr::Binary { left, op, right, .. } => {
            lemma_expr_grows(g, *left);
            if let Some(g1) = gen_expr(g, *left) {
                match op {
                    BinaryOp::And => {
                        let g2 = emit(g1, InstrView::JumpIfFalse(usize::MAX));
                        lemma_expr_grows(g2, *right);
                        if let Some(g3) = gen_expr(g2, *right) {
                            if g3.code.len() + 4 < usize::MAX {
                                lemma_emit(g, g1, InstrView::JumpIfFalse(usize::MAX));
                                lemma_grows_trans(g, g2, g3);
                                let g4 = emit(g3, InstrView::JumpIfFalse(usize::MAX));
                                lemma_emit(g, g3, InstrView::JumpIfFalse(usize::MAX));
                                let g5 = emit(g4, InstrView::LoadConst(crate::backend::emission::ConstView::Bool(true)));
                                lemma_emit(g, g4, InstrView::LoadConst(crate::backend::emission::ConstView::Bool(true)));
                                let g6 = emit(g5, InstrView::Jump(usize::MAX));
                                lemma_emit(g, g5, InstrView::Jump(usize::MAX));
                                lemma_patch(g, g6, here(g1), here(g6));
                                let g6a = patch(g6, here(g1), here(g6));
                                lemma_patch(g, g6a, here(g3), here(g6));
                                let g7 = patch(g6a, here(g3), here(g6));
                                let g8 = emit(g7, InstrView::LoadConst(crate::backend::emission::ConstView::Bool(false)));
                                lemma_emit(g, g7, InstrView::LoadConst(crate::backend::emission::ConstView::Bool(false)));
                                lemma_patch(g, g8, here(g5), here(g8));
                            }
                        }
                    },
                    BinaryOp::Or => {
                        let g2 = emit(g1, InstrView::JumpIfFalse(usize::MAX));
                        let g3 = emit(g2, InstrView::LoadConst(crate::backend::emission::ConstView::Bool(true)));
                        let g4 = emit(g3, InstrView::Jump(usize::MAX));
                        let g5 = patch(g4, here(g1), here(g4));
                        lemma_expr_grows(g5, *right);
                        if let Some(g6) = gen_expr(g5, *right) {
                            if g6.code.len() + 5 < usize::MAX {
                                lemma_emit(g, g1, InstrView::JumpIfFalse(usize::MAX));
                                lemma_emit(g, g2, InstrView::LoadConst(crate::backend::emission::ConstView::Bool(true)));
                                lemma_emit(g, g3, InstrView::Jump(usize::MAX));
                                lemma_patch(g, g4, here(g1), here(g4));
                                lemma_grows_trans(g, g5, g6);
                                let g7 = emit(g6, InstrView::JumpIfFalse(usize::MAX));
                                lemma_emit(g, g6, InstrView::JumpIfFalse(usize::MAX));
                                let g8 = emit(g7, InstrView::LoadConst(crate::backend::emission::ConstView::Bool(true)));
                                lemma_emit(g, g7, InstrView::LoadConst(crate::backend::emission::ConstView::Bool(true)));
                                let g9 = emit(g8, InstrView::Jump(usize::MAX));
                                lemma_emit(g, g8, InstrView::Jump(usize::MAX));
                                lemma_patch(g, g9, here(g6), here(g9));
                                let g10 = patch(g9, here(g6), here(g9));
                                let g11 = emit(g10, InstrView::LoadConst(crate::backend::emission::ConstView::Bool(false)));
                                lemma_emit(g, g10, InstrView::LoadConst(crate::backend::emission::ConstView::Bool(false)));
                                lemma_patch(g, g11, here(g3), here(g11));
                                lemma_patch(g, patch(g11, here(g3), here(g11)), here(g8), here(g11));
                            }
                        }
                    },
                    _ => {
                        lemma_expr_grows(g1, *right);
                        if let Some(g2) = gen_expr(g1, *right) {
                            if g2.code.len() + 1 < usize::MAX {
                                lemma_grows_trans(g, g1, g2);
                                lemma_emit(g, g2, crate::backend::emission::binary_instruction(op));
                            }
                        }
                    },
                }
            }
        },
        Expr::Call { name, arguments, .. } => {
            lemma_exprs_grows(g, arguments@, 0);
            if let Some(g1) = gen_exprs(g, arguments@, 0) {
                if g1.code.len() + 1 < usize::MAX {
                    let i = InstrView::Call { target: usize::MAX, arity: arguments@.len() as usize };
                    lemma_emit(g, g1, i);
                    lemma_same(g, emit(g1, i), crate::backend::emission::emit_call(g1, name@, arguments@.len() as usize));
                }
            }
        },
        Expr::Convert { kind, expr, .. } => {
            lemma_expr_grows(g, *expr);
            if let Some(g1) = gen_expr(g, *expr) {
                if g1.code.len() + 1 < usize::MAX {
                    lemma_emit(g, g1, InstrView::Convert(kind));
                }
            }
        },
        _ => {
            if let Some(r) = gen_expr(g, e) {
                assert(r.code.len() == g.code.len() + 1);
                assert(r == emit(g, r.code.last()));
                lemma_emit(g, g, r.code.last());
            }
        },
    }
}

/// Compiling expressions in order only appends code.
proof fn lemma_exprs_grows(g: Gen, es: Seq<Expr>, k: int)
    ensures
        gen_exprs(g, es, k) matches Some(r) ==> {
            &&& r.code.len() >= g.code.len()
            &&& r.loops == g.loops
            &&& r.code.len() < usize::MAX ==> grows(g, r)
        },
    decreases es, 1int, es.len() - k,
{
    lemma_grows_refl(g);
    if 0 <= k < es.len() {
        lemma_expr_grows(g, es[k]);
        if let Some(g1) = gen_expr(g, es[k]) {
            lemma_exprs_grows(g1, es, k + 1);
            if let Some(r) = gen_exprs(g1, es, k + 1) {
                if r.code.len() < usize::MAX {
                    lemma_grows_trans(g, g1, r);
                }
            }
        }
    }
}

/// Compiling map entries in order only appends code.
proof fn lemma_entries_grows(g: Gen, entries: Seq<(Expr, Expr)>, k: int)
    ensures
        gen_entries(g, entries, k) matches Some(r) ==> {
            &&& r.code.len() >= g.code.len()
            &&& r.loops == g.loops
            &&& r.code.len() < usize::MAX ==> grows(g, r)
        },
    decreases entries, 1int, entries.len() - k,
{
    lemma_grows_refl(g);
    if 0 <= k < entries.len() {
        lemma_expr_grows(g, entries[k].0);
        if let Some(g1) = gen_expr(g, entries[k].0) {
            lemma_expr_grows(g1, entries[k].1);
            if let Some(g2) = gen_expr(g1, entries[k].1) {
                lemma_entries_grows(g2, entries, k + 1);
                if let Some(r) = gen_entries(g2, entries, k + 1) {
                    if r.code.len() < usize::MAX {
                        lemma_grows_trans(g, g1, g2);
                        lemma_grows_trans(g, g2, r);
                    }
                }
            }
        }
    }
}


/// The growth of code through the step that ends an iteration of a `for` loop.
proof fn lemma_loop_step(a: Gen, y: Gen, index: Seq<char>, start: usize)
    requires
        grows(a, y),
        y.code.len() + 5 < usize::MAX,
    ensures
        grows(a, loop_step(y, index, start)),
        loop_step(y, index, start).loops == y.loops,
        loop_step(y, index, start).code.len() == y.code.len() + 5,
{
    let g1 = emit(y, load_slot(y, index));
    lemma_emit(a, y, load_slot(y, index));
    let g2 = emit(g1, InstrView::LoadConst(crate::backend::emission::ConstView::Num(1)));
    lemma_emit(a, g1, InstrView::LoadConst(crate::backend::emission::ConstView::Num(1)));
    let g3 = emit(g2, InstrView::Add);
    lemma_emit(a, g2, InstrView::Add);
    let g4 = emit(g3, store_slot(y, index));
    lemma_emit(a, g3, store_slot(y, index));
    lemma_emit(a, g4, InstrView::Jump(start));
}

/// The growth of code through the test of a `for` loop.
proof fn lemma_loop_test(a: Gen, y: Gen, index: Seq<char>, bound: Seq<char>)
    requires
        grows(a, y),
        y.code.len() + 4 < usize::MAX,
    ensures
        grows(a, loop_test(y, index, bound)),
        loop_test(y, index, bound).loops == y.loops,
        loop_test(y, index, bound).code.len() == y.code.len() + 4,
{
    let g1 = emit(y, load_slot(y, index));
    lemma_emit(a, y, load_slot(y, index));
    let g2 = emit(g1, load_slot(y, bound));
    lemma_emit(a, g1, load_slot(y, bound));
    let g3 = emit(g2, InstrView::Lt);
    lemma_emit(a, g2, InstrView::Lt);
    lemma_emit(a, g3, InstrView::JumpIfFalse(usize::MAX));
}

/// Compiling a statement only appends code; the loops it finds open stay
/// open, with any jump it adds to them emitted by it.
proof fn lemma_stmt_grows(g: Gen, s: Stmt)
    ensures
        gen_stmt(g, s) matches Some(r) ==> {
            &&& r.code.len() >= g.code.len()
            &&& r.loops.len() == g.loops.len()
            &&& r.code.len() < usize::MAX ==> grows(g, r)
        },
    decreases s, 0int, 1int,
{
    lemma_grows_refl(g);
    match s {
        Stmt::Assign { name, expr, .. } => {
            lemma_assign_grows(g, name@, expr);
        },
        Stmt::Const { name, expr, .. } => {
            lemma_assign_grows(g, name@, expr);
        },
        Stmt::Append { name, expr, .. } => {
            if let Some(p) = resolve(g, name@) {
                let g0 = emit(g, load(p));
                lemma_emit(g, g, load(p));
                lemma_expr_grows(g0, expr);
                if let Some(g1) = gen_expr(g0, expr) {
                    if g1.code.len() + 2 < usize::MAX {
                        lemma_grows_trans(g, g0, g1);
                        lemma_emit(g, g1, InstrView::ListAppend);
                        lemma_emit(g, emit(g1, InstrView::ListAppend), store(p));
                    }
                }
            }
        },
        Stmt::Print { expr, .. } => {
            lemma_expr_grows(g, expr);
            if let Some(g1) = gen_expr(g, expr) {
                if g1.code.len() + 1 < usize::MAX {
                    lemma_emit(g, g1, InstrView::Print);
                }
            }
        },
        Stmt::Return { expr, .. } => {
            lemma_expr_grows(g, expr);
            if let Some(g1) = gen_expr(g, expr) {
                if g1.code.len() + 1 < usize::MAX {
                    lemma_emit(g, g1, InstrView::Return);
                }
            }
        },
        Stmt::Call { expr, .. } => {
            lemma_expr_grows(g, expr);
            if let Some(g1) = gen_expr(g, expr) {
                if g1.code.len() + 1 < usize::MAX {
                    lemma_emit(g, g1, InstrView::Pop);
                }
            }
        },
        Stmt::Break { .. } => {
            if g.loops.len() > 0 && g.code.len() + 1 < usize::MAX {
                lemma_loop_jump(g, g, true);
            }
        },
        Stmt::Continue { .. } => {
            if g.loops.len() > 0 && g.code.len() + 1 < usize::MAX {
                lemma_loop_jump(g, g, false);
            }
        },
        Stmt::Function { .. } => {},
        Stmt::If { .. } => {
            lemma_if_grows(g, s);
        },
        Stmt::While { .. } => {
            lemma_while_grows(g, s);
        },
        Stmt::For { variable, source, body, .. } => match source {
            ForSource::List { expr, .. } => {
                lemma_for_list_grows(g, variable@, expr, body@);
            },
            ForSource::Range { start, end, .. } => {
                lemma_for_range_grows(g, variable@, start, end, body@);
            },
        },
    }
}

/// Compiling an `if` only appends code.
#[verifier::rlimit(40)]
proof fn lemma_if_grows(g: Gen, s: Stmt)
    requires
        s is If,
    ensures
        gen_stmt(g, s) matches Some(r) ==> {
            &&& r.code.len() >= g.code.len()
            &&& r.loops.len() == g.loops.len()
            &&& r.code.len() < usize::MAX ==> grows(g, r)
        },
    decreases s, 0int, 0int,
{
    lemma_grows_refl(g);
    match s {
        Stmt::If { condition, then_branch, else_branch, .. } => {
            lemma_expr_grows(g, condition);
            if let Some(g1) = gen_expr(g, condition) {
                let g2 = emit(g1, InstrView::JumpIfFalse(usize::MAX));
                lemma_block_grows(g2, then_branch@);
                if let Some(g3) = gen_block(g2, then_branch@) {
                    lemma_patch_shape(g3, here(g1), here(g3));
                    match else_branch {
                        None => {
                            if g3.code.len() < usize::MAX {
                                lemma_emit(g, g1, InstrView::JumpIfFalse(usize::MAX));
                                lemma_grows_trans(g, g2, g3);
                                lemma_patch(g, g3, here(g1), here(g3));
                            }
                        },
                        Some(else_branch) => {
                            let g4 = emit(g3, InstrView::Jump(usize::MAX));
                            let g5 = patch(g4, here(g1), here(g4));
                            lemma_patch_shape(g4, here(g1), here(g4));
                            lemma_block_grows(g5, else_branch@);
                            if let Some(g6) = gen_block(g5, else_branch@) {
                                lemma_patch_shape(g6, here(g3), here(g6));
                                if g6.code.len() < usize::MAX {
                                    lemma_emit(g, g1, InstrView::JumpIfFalse(usize::MAX));
                                    lemma_grows_trans(g, g2, g3);
                                    lemma_emit(g, g3, InstrView::Jump(usize::MAX));
                                    lemma_patch(g, g4, here(g1), here(g4));
                                    lemma_grows_trans(g, g5, g6);
                                    lemma_patch(g, g6, here(g3), here(g6));
                                }
                            }
                        },
                    }
                }
            }
        },
        _ => {},
    }
}

/// Compiling a `while` only appends code.
#[verifier::rlimit(40)]
proof fn lemma_while_grows(g: Gen, s: Stmt)
    requires
        s is While,
    ensures
        gen_stmt(g, s) matches Some(r) ==> {
            &&& r.code.len() >= g.code.len()
            &&& r.loops.len() == g.loops.len()
            &&& r.code.len() < usize::MAX ==> grows(g, r)
        },
    decreases s, 0int, 0int,
{
    lemma_grows_refl(g);
    match s {
        Stmt::While { condition, body, .. } => {
            lemma_expr_grows(g, condition);
            if let Some(g1) = gen_expr(g, condition) {
                let e1 = emit(g1, InstrView::JumpIfFalse(usize::MAX));
                let g2 = begin_loop(e1);
                lemma_block_grows(g2, body@);
                if let Some(g3) = gen_block(g2, body@) {
                    let w4 = emit(g3, InstrView::Jump(here(g)));
                    lemma_patch_shape(w4, here(g1), here(w4));
                    lemma_end_loop_shape(patch(w4, here(g1), here(w4)), here(g), here(w4));
                    assert(gen_stmt(g, s) == Some(end_loop(patch(w4, here(g1), here(w4)), here(g), here(w4))));
                    if g3.code.len() + 1 < usize::MAX {
                        lemma_emit(g, g1, InstrView::JumpIfFalse(usize::MAX));
                        lemma_begin_loop(g, e1);
                        lemma_grows_trans(g, g2, g3);
                        let g4 = emit(g3, InstrView::Jump(here(g)));
                        lemma_emit(g, g3, InstrView::Jump(here(g)));
                        lemma_patch(g, g4, here(g1), here(g4));
                        lemma_end_loop(g, patch(g4, here(g1), here(g4)), here(g), here(g4));
                    }
                }
            }
        },
        _ => {},
    }
}

/// Compiling an assignment only appends code.
proof fn lemma_assign_grows(g: Gen, name: Seq<char>, expr: Expr)
    ensures
        gen_assign(g, name, expr) matches Some(r) ==> {
            &&& r.code.len() >= g.code.len()
            &&& r.loops.len() == g.loops.len()
            &&& r.code.len() < usize::MAX ==> grows(g, r)
        },
{
    lemma_expr_grows(g, expr);
    if let Some(g1) = gen_expr(g, expr) {
        if g1.code.len() + 1 < usize::MAX {
            match resolve(g1, name) {
                Some(p) => {
                    lemma_emit(g, g1, store(p));
                },
                None => {
                    let (g2, p) = declare(g1, name);
                    lemma_same(g, g1, g2);
                    lemma_emit(g, g2, store(p));
                },
            }
        }
    }
}

/// Compiling statements in order only appends code.
proof fn lemma_stmts_grows(g: Gen, ss: Seq<Stmt>, k: int)
    ensures
        gen_stmts(g, ss, k) matches Some(r) ==> {
            &&& r.code.len() >= g.code.len()
            &&& r.loops.len() == g.loops.len()
            &&& r.code.len() < usize::MAX ==> grows(g, r)
        },
    decreases ss, 1int, ss.len() - k,
{
    lemma_grows_refl(g);
    if 0 <= k < ss.len() {
        lemma_stmt_grows(g, ss[k]);
        if let Some(g1) = gen_stmt(g, ss[k]) {
            lemma_stmts_grows(g1, ss, k + 1);
            if let Some(r) = gen_stmts(g1, ss, k + 1) {
                if r.code.len() < usize::MAX {
                    lemma_grows_trans(g, g1, r);
                }
            }
        }
    }
}

/// Compiling a block only appends code.
proof fn lemma_block_grows(g: Gen, ss: Seq<Stmt>)
    ensures
        gen_block(g, ss) matches Some(r) ==> {
            &&& r.code.len() >= g.code.len()
            &&& r.loops.len() == g.loops.len()
            &&& r.code.len() < usize::MAX ==> grows(g, r)
        },
    decreases ss, 2int, 0int,
{
    let g0 = push_scope(g);
    lemma_grows_refl(g);
    lemma_same(g, g, g0);
    lemma_stmts_grows(g0, ss, 0);
    if let Some(g1) = gen_stmts(g0, ss, 0) {
        if g1.code.len() < usize::MAX {
            lemma_grows_trans(g, g0, g1);
            lemma_same(g, g1, pop_scope(g1));
        }
    }
}

/// The body and step of a `for` loop only append code.
proof fn lemma_loop_rest_grows(a: Gen, g: Gen, body: Seq<Stmt>, index: Seq<char>, start: usize, test: usize)
    requires
        g.code.len() >= a.code.len(),
        g.code.len() < usize::MAX ==> grows(a, g) && test >= a.code.len(),
    ensures
        loop_rest(g, body, index, start, test) matches Some(r) ==> {
            &&& r.code.len() >= g.code.len()
            &&& r.loops.len() == g.loops.len()
            &&& r.code.len() < usize::MAX ==> grows(a, r)
        },
    decreases body, 3int, 0int,
{
    let g0 = begin_loop(g);
    lemma_stmts_grows(g0, body, 0);
    if let Some(g1) = gen_stmts(g0, body, 0) {
        let s2 = loop_step(g1, index, start);
        assert(s2.loops == g1.loops && s2.code.len() == g1.code.len() + 5);
        let s3 = patch(s2, test, here(s2));
        assert(s3.loops == s2.loops && s3.code.len() == s2.code.len());
        lemma_end_loop_shape(s3, here(g1), here(s2));
        if g1.code.len() + 5 < usize::MAX {
            lemma_begin_loop(a, g);
            lemma_grows_trans(a, g0, g1);
            let g2 = loop_step(g1, index, start);
            lemma_loop_step(a, g1, index, start);
            lemma_patch(a, g2, test, here(g2));
            let g3 = patch(g2, test, here(g2));
            lemma_end_loop(a, g3, here(g1), here(g2));
            let g4 = end_loop(g3, here(g1), here(g2));
            lemma_same(a, g4, pop_scope(g4));
        }
    }
}

/// Compiling a `for` loop over a list only appends code.
proof fn lemma_for_list_grows(g: Gen, variable: Seq<char>, source: Expr, body: Seq<Stmt>)
    ensures
        gen_for_list(g, variable, source, body) matches Some(r) ==> {
            &&& r.code.len() >= g.code.len()
            &&& r.loops.len() == g.loops.len()
            &&& r.code.len() < usize::MAX ==> grows(g, r)
        },
    decreases body, 4int, 0int,
{
    let id = g.loop_counter;
    let list = crate::backend::emission::for_name(id, "_list"@);
    let index = crate::backend::emission::for_name(id, "_index"@);
    let len = crate::backend::emission::for_name(id, "_len"@);
    let g0 = Gen { loop_counter: crate::backend::emission::bumped(id), ..g };
    lemma_grows_refl(g);
    lemma_same(g, g, g0);
    lemma_expr_grows(g0, source);
    if let Some(g1) = gen_expr(g0, source) {
        let (g2, p) = loop_variable(push_scope(g1), variable);
        let g3 = emit(g2, store_slot(g, list));
        let g4 = emit(g3, InstrView::LoadConst(crate::backend::emission::ConstView::Num(0)));
        let g5 = emit(g4, store_slot(g, index));
        let g6 = emit(g5, load_slot(g, list));
        let g7 = emit(g6, InstrView::ListLen);
        let g8 = emit(g7, store_slot(g, len));
        let g9 = loop_test(g8, index, len);
        let g10 = emit(g9, load_slot(g, list));
        let g11 = emit(g10, load_slot(g, index));
        let g12 = emit(g11, InstrView::ListGet);
        let g13 = emit(g12, store(p));
        if g13.code.len() < usize::MAX {
            lemma_grows_trans(g, g0, g1);
            lemma_same(g, g1, g2);
            lemma_emit(g, g2, store_slot(g, list));
            lemma_emit(g, g3, InstrView::LoadConst(crate::backend::emission::ConstView::Num(0)));
            lemma_emit(g, g4, store_slot(g, index));
            lemma_emit(g, g5, load_slot(g, list));
            lemma_emit(g, g6, InstrView::ListLen);
            lemma_emit(g, g7, store_slot(g, len));
            lemma_loop_test(g, g8, index, len);
            lemma_emit(g, g9, load_slot(g, list));
            lemma_emit(g, g10, load_slot(g, index));
            lemma_emit(g, g11, InstrView::ListGet);
            lemma_emit(g, g12, store(p));
        }
        lemma_loop_rest_grows(g, g13, body, index, here(g8), (here(g9) - 1) as usize);
    }
}

/// Compiling a `for` loop over a range only appends code.
proof fn lemma_for_range_grows(g: Gen, variable: Seq<char>, start: Expr, end: Expr, body: Seq<Stmt>)
    ensures
        gen_for_range(g, variable, start, end, body) matches Some(r) ==> {
            &&& r.code.len() >= g.code.len()
            &&& r.loops.len() == g.loops.len()
            &&& r.code.len() < usize::MAX ==> grows(g, r)
        },
    decreases body, 4int, 0int,
{
    let id = g.loop_counter;
    let index = crate::backend::emission::for_name(id, "_index"@);
    let bound = crate::backend::emission::for_name(id, "_end"@);
    let g0 = Gen { loop_counter: crate::backend::emission::bumped(id), ..g };
    lemma_grows_refl(g);
    lemma_same(g, g, g0);
    lemma_expr_grows(g0, start);
    if let Some(g1) = gen_expr(g0, start) {
        let e1 = emit(g1, store_slot(g, index));
        lemma_expr_grows(e1, end);
        if let Some(g2) = gen_expr(e1, end) {
            let g3 = emit(g2, store_slot(g, bound));
            let (g4, p) = loop_variable(push_scope(g3), variable);
            let g5 = loop_test(g4, index, bound);
            let g6 = emit(g5, load_slot(g, index));
            let g7 = emit(g6, store(p));
            if g7.code.len() < usize::MAX {
                lemma_grows_trans(g, g0, g1);
                lemma_emit(g, g1, store_slot(g, index));
                lemma_grows_trans(g, e1, g2);
                lemma_emit(g, g2, store_slot(g, bound));
                lemma_same(g, g3, g4);
                lemma_loop_test(g, g4, index, bound);
                lemma_emit(g, g5, load_slot(g, index));
                lemma_emit(g, g6, store(p));
            }
            lemma_loop_rest_grows(g, g7, body, index, here(g4), (here(g5) - 1) as usize);
        }
    }
}


/// The jumps of a compiled `if`. Its condition's code ends at `p`, where a
/// conditional jump stands. Without an else branch that jump leads to the end
/// of the `if`, just past the then-branch. With one, the then-branch ends in a
/// jump at `q`, the conditional jump leads just past it to the else branch,
/// and the jump at `q` leads to the end of the `if`, just past the else branch.
pub proof fn law_if_layout(g: Gen, s: Stmt)
    requires
        s is If,
        gen_stmt(g, s) is Some,
        gen_stmt(g, s)->Some_0.code.len() < usize::MAX,
    ensures
        match s {
            Stmt::If { condition, then_branch, else_branch, .. } => {
                let r = gen_stmt(g, s)->Some_0;
                let g1 = gen_expr(g, condition)->Some_0;
                let p = here(g1) as int;
                let q = here(gen_block(emit(g1, InstrView::JumpIfFalse(usize::MAX)), then_branch@)->Some_0) as int;
                &&& g.code.len() <= p < q <= r.code.len()
                &&& match else_branch {
                    None => r.code[p] == InstrView::JumpIfFalse(here(r)) && q == r.code.len(),
                    Some(_) => r.code[p] == InstrView::JumpIfFalse((q + 1) as usize)
                        && r.code[q] == InstrView::Jump(here(r)) && q < r.code.len(),
                }
            },
            _ => true,
        },
{
    match s {
        Stmt::If { condition, then_branch, else_branch, .. } => {
            let r = gen_stmt(g, s)->Some_0;
            lemma_expr_grows(g, condition);
            let g1 = gen_expr(g, condition)->Some_0;
            let g2 = emit(g1, InstrView::JumpIfFalse(usize::MAX));
            lemma_block_grows(g2, then_branch@);
            let g3 = gen_block(g2, then_branch@)->Some_0;
            lemma_patch_shape(g3, here(g1), here(g3));
            match else_branch {
                None => {
                    assert(r == patch(g3, here(g1), here(g3)));
                    assert(g3.code[here(g1) as int] == g2.code[here(g1) as int]);
                },
                Some(else_branch) => {
                    let g4 = emit(g3, InstrView::Jump(usize::MAX));
                    let g5 = patch(g4, here(g1), here(g4));
                    lemma_patch_shape(g4, here(g1), here(g4));
                    lemma_block_grows(g5, else_branch@);
                    let g6 = gen_block(g5, else_branch@)->Some_0;
                    lemma_patch_shape(g6, here(g3), here(g6));
                    assert(r == patch(g6, here(g3), here(g6)));
                    assert(g3.code[here(g1) as int] == g2.code[here(g1) as int]);
                    assert(g4.code[here(g1) as int] == g3.code[here(g1) as int]);
                    assert(g6.code[here(g1) as int] == g5.code[here(g1) as int]);
                    assert(g6.code[here(g3) as int] == g5.code[here(g3) as int]);
                },
            }
        },
        _ => {},
    }
}

/// The jumps of a compiled `while`. Its condition's code starts at the
/// statement's first position `c` and ends at `p`, where a conditional jump
/// stands; the body follows and ends in a jump at `q`. The conditional jump
/// leads just past that jump, out of the loop; the jump at `q` leads back to
/// the condition at `c`; every `🛑` of the loop (and of no loop within it) is
/// a jump inside the body that leads out of the loop as well, and every `⏭️`
/// of the loop is a jump inside the body that leads back to the condition.
pub proof fn law_while_layout(g: Gen, s: Stmt)
    requires
        s is While,
        gen_stmt(g, s) is Some,
        gen_stmt(g, s)->Some_0.code.len() < usize::MAX,
    ensures
        match s {
            Stmt::While { condition, body, .. } => {
                let r = gen_stmt(g, s)->Some_0;
                let g1 = gen_expr(g, condition)->Some_0;
                let p = here(g1) as int;
                let g3 = gen_block(begin_loop(emit(g1, InstrView::JumpIfFalse(usize::MAX))), body@)->Some_0;
                let q = here(g3) as int;
                let breaks = g3.loops.last().0;
                let continues = g3.loops.last().1;
                &&& g.code.len() <= p < q
                &&& r.code.len() == q + 1
                &&& r.code[p] == InstrView::JumpIfFalse(here(r))
                &&& r.code[q] == InstrView::Jump(here(g))
                &&& forall|k: int| 0 <= k < breaks.len() ==> p < #[trigger] breaks[k] < q
                    && r.code[breaks[k] as int] == InstrView::Jump(here(r))
                &&& forall|k: int| 0 <= k < continues.len() ==> p < #[trigger] continues[k] < q
                    && r.code[continues[k] as int] == InstrView::Jump(here(g))
            },
            _ => true,
        },
{
    match s {
        Stmt::While { condition, body, .. } => {
            let r = gen_stmt(g, s)->Some_0;
            lemma_expr_grows(g, condition);
            let g1 = gen_expr(g, condition)->Some_0;
            let e1 = emit(g1, InstrView::JumpIfFalse(usize::MAX));
            let g2 = begin_loop(e1);
            lemma_block_grows(g2, body@);
            let g3 = gen_block(g2, body@)->Some_0;
            let g4 = emit(g3, InstrView::Jump(here(g)));
            let y = patch(g4, here(g1), here(g4));
            lemma_patch_shape(g4, here(g1), here(g4));
            lemma_end_loop_shape(y, here(g), here(g4));
            assert(r == end_loop(y, here(g), here(g4)));
            lemma_grows_refl(g);
            lemma_emit(g, g1, InstrView::JumpIfFalse(usize::MAX));
            lemma_begin_loop(g, e1);
            lemma_grows_trans(g, g2, g3);
            lemma_emit(g, g3, InstrView::Jump(here(g)));
            lemma_patch(g, g4, here(g1), here(g4));
            let last = g2.loops.len() - 1;
            assert(g2.loops[last] == (Seq::<usize>::empty(), Seq::<usize>::empty()));
            assert(jumps_added(g2.loops[last].0, g3.loops[last].0, g2.code.len() as int, g3));
            assert(jumps_added(g2.loops[last].1, g3.loops[last].1, g2.code.len() as int, g3));
            let (breaks, continues) = y.loops.last();
            assert(y.loops.last() == g3.loops.last());
            let z = Gen { loops: y.loops.drop_last(), ..y };
            assert(grows(g, z)) by {
                lemma_end_loop(g, y, here(g), here(g4));
                lemma_same(g, y, Gen { loops: y.loops, ..z });
                assert forall|l: int| 0 <= l < g.loops.len() implies jumps_added((#[trigger] g.loops[l]).0, z.loops[l].0, g.code.len() as int, z)
                    && jumps_added(g.loops[l].1, z.loops[l].1, g.code.len() as int, z) by {
                    assert(z.loops[l] == y.loops[l]);
                }
                assert forall|l: int| g.loops.len() <= l < z.loops.len() implies jumps_added(Seq::empty(), (#[trigger] z.loops[l]).0, g.code.len() as int, z)
                    && jumps_added(Seq::empty(), z.loops[l].1, g.code.len() as int, z) by {
                    assert(z.loops[l] == y.loops[l]);
                }
            }
            assert forall|m: int| 0 <= m < continues.len() implies #[trigger] continues[m] >= g.code.len() by {}
            assert forall|m: int| 0 <= m < breaks.len() implies #[trigger] breaks[m] >= g.code.len() by {}
            lemma_patch_all(g, z, continues, here(g), 0);
            let z1 = patch_all(z, continues, here(g), 0);
            lemma_patch_all(g, z1, breaks, here(g4), 0);
            assert(r == patch_all(z1, breaks, here(g4), 0));
            let p = here(g1) as int;
            let q = here(g3) as int;
            assert(!continues.subrange(0, continues.len() as int).contains(p as usize)) by {
                assert(continues.subrange(0, continues.len() as int) =~= continues);
                assert forall|k: int| 0 <= k < continues.len() implies #[trigger] continues[k] != p as usize by {}
            }
            assert(!breaks.subrange(0, breaks.len() as int).contains(p as usize)) by {
                assert(breaks.subrange(0, breaks.len() as int) =~= breaks);
                assert forall|k: int| 0 <= k < breaks.len() implies #[trigger] breaks[k] != p as usize by {}
            }
            assert(!continues.subrange(0, continues.len() as int).contains(q as usize)) by {
                assert(continues.subrange(0, continues.len() as int) =~= continues);
                assert forall|k: int| 0 <= k < continues.len() implies #[trigger] continues[k] != q as usize by {}
            }
            assert(!breaks.subrange(0, breaks.len() as int).contains(q as usize)) by {
                assert(breaks.subrange(0, breaks.len() as int) =~= breaks);
                assert forall|k: int| 0 <= k < breaks.len() implies #[trigger] breaks[k] != q as usize by {}
            }
            assert(e1.code[p] == InstrView::JumpIfFalse(usize::MAX));
            assert(g3.code[p] == e1.code[p]);
            assert(g4.code[p] == g3.code[p]);
            assert(y.code[p] == InstrView::JumpIfFalse(here(g4)));
            assert(y.code[q] == InstrView::Jump(here(g)));
            assert forall|k: int| 0 <= k < breaks.len() implies p < #[trigger] breaks[k] < q
                && r.code[breaks[k] as int] == InstrView::Jump(here(r)) by {
                assert(g3.code[breaks[k] as int] is Jump);
                assert(g4.code[breaks[k] as int] == g3.code[breaks[k] as int]);
                assert(y.code[breaks[k] as int] == g4.code[breaks[k] as int]);
                assert(z1.code[breaks[k] as int] is Jump);
            }
            assert forall|k: int| 0 <= k < continues.len() implies p < #[trigger] continues[k] < q
                && r.code[continues[k] as int] == InstrView::Jump(here(g)) by {
                assert(g3.code[continues[k] as int] is Jump);
                assert(g4.code[continues[k] as int] == g3.code[continues[k] as int]);
                assert(y.code[continues[k] as int] == g4.code[continues[k] as int]);
                assert(z.code[continues[k] as int] is Jump);
                assert(z1.code[continues[k] as int] == InstrView::Jump(here(g)));
                assert(!breaks.subrange(0, breaks.len() as int).contains(continues[k])) by {
                    assert(breaks.subrange(0, breaks.len() as int) =~= breaks);
                    assert forall|i: int| 0 <= i < breaks.len() implies #[trigger] breaks[i] != continues[k] by {
                        assert(kept(g2, last, 0) == 0 && kept(g2, last, 1) == 0);
                        assert(g3.loops[last].0[i] != g3.loops[last].1[k]);
                    }
                }
            }
        },
        _ => {},
    }
}


/// A function's entry takes its arguments off the stack. A call pushes its
/// arguments first to last, so the last is on top; the entry stores them
/// last first: the `m`-th store (counting from zero) writes the place of
/// parameter `k - 1 - m`, which is what argument `k - 1 - m` is popped into.
/// So parameter `i` receives argument `i`, the code before stays as it was,
/// and nothing else is emitted.
pub proof fn law_parameters_receive_arguments_in_order(g: Gen, places: Seq<Place>, k: int)
    requires
        0 <= k <= places.len(),
    ensures
        store_parameters(g, places, k).code.len() == g.code.len() + k,
        forall|i: int| 0 <= i < g.code.len() ==> #[trigger] store_parameters(g, places, k).code[i] == g.code[i],
        forall|m: int| 0 <= m < k ==> #[trigger] store_parameters(g, places, k).code[g.code.len() + m]
            == store(places[k - 1 - m]),
    decreases k,
{
    if k > 0 {
        let g1 = emit(g, store(places[k - 1]));
        law_parameters_receive_arguments_in_order(g1, places, k - 1);
        let r = store_parameters(g, places, k);
        assert(r == store_parameters(g1, places, k - 1));
        assert forall|m: int| 0 <= m < k implies #[trigger] r.code[g.code.len() + m] == store(places[k - 1 - m]) by {
            if m == 0 {
                assert(r.code[g.code.len() as int] == g1.code[g.code.len() as int]);
            } else {
                assert(r.code[g1.code.len() + (m - 1)] == store(places[k - 1 - 1 - (m - 1)]));
            }
        }
    }
}


/// `c` holds the code of `r` from its start, and fits a machine's count.
pub open spec fn runs_code(c: Seq<Instruction>, r: Gen) -> bool {
    &&& r.code.len() <= c.len() < usize::MAX
    &&& forall|i: int| 0 <= i < r.code.len() ==> instr_view(#[trigger] c[i]) == r.code[i]
}

/// The code of the left operand ends at `p`, and the code of the right
/// operand starts `gap` instructions later and ends at `q`.
pub open spec fn operands_at(g: Gen, left: Expr, right: Expr, gap: int, p: int, q: int) -> bool {
    &&& gen_expr(g, left) is Some
    &&& here(gen_expr(g, left)->Some_0) == p
    &&& exists|g2: Gen| #![trigger gen_expr(g2, right)] here(g2) == p + gap && gen_expr(g2, right) is Some
        && here(gen_expr(g2, right)->Some_0) == q
}

/// `🔀` is "or", evaluated left to right with a short circuit. Its left
/// operand's code leaves a boolean at `p`: `✅` ends the whole expression with
/// `✅` without running the right operand; `❌` is taken off and the right
/// operand's code runs from `p + 3` to `q`; the boolean it leaves ends the
/// expression as itself. So `l 🔀 r` leaves `l || r`.
pub proof fn law_or_value(
    g: Gen,
    left: Expr,
    right: Expr,
    span: Span,
    c: Seq<Instruction>,
    reader: spec_fn(InputKind, Result<String, String>) -> bool,
    host: spec_fn(FloatRequest, FloatReply) -> bool,
)
    requires
        gen_expr(g, Expr::Binary { left: Box::new(left), op: BinaryOp::Or, right: Box::new(right), span }) is Some,
        runs_code(c, gen_expr(g, Expr::Binary { left: Box::new(left), op: BinaryOp::Or, right: Box::new(right), span })->Some_0),
    ensures
        exists|p: int, q: int| #![trigger operands_at(g, left, right, 3, p, q)] {
            &&& operands_at(g, left, right, 3, p, q)
            &&& here(gen_expr(g, Expr::Binary { left: Box::new(left), op: BinaryOp::Or, right: Box::new(right), span })->Some_0) == q + 4
            &&& bool_run(c, reader, host, p, true, 3, q + 4, Some(true))
            &&& bool_run(c, reader, host, p, false, 1, p + 3, None)
            &&& bool_run(c, reader, host, q, true, 3, q + 4, Some(true))
            &&& bool_run(c, reader, host, q, false, 2, q + 4, Some(false))
        },
{
    let e = Expr::Binary { left: Box::new(left), op: BinaryOp::Or, right: Box::new(right), span };
    let r = gen_expr(g, e)->Some_0;
    lemma_expr_grows(g, left);
    let g1 = gen_expr(g, left)->Some_0;
    let p = here(g1) as int;
    let g2 = emit(g1, InstrView::JumpIfFalse(usize::MAX));
    let g3 = emit(g2, load_bool(true));
    let g4 = emit(g3, InstrView::Jump(usize::MAX));
    let g5 = patch(g4, here(g1), here(g4));
    lemma_expr_grows(g5, right);
    let g6 = gen_expr(g5, right)->Some_0;
    let q = here(g6) as int;
    let g7 = emit(g6, InstrView::JumpIfFalse(usize::MAX));
    let g8 = emit(g7, load_bool(true));
    let g9 = emit(g8, InstrView::Jump(usize::MAX));
    let g10 = patch(g9, here(g6), here(g9));
    let g11 = emit(g10, load_bool(false));
    let g12 = patch(g11, here(g3), here(g11));
    assert(r == patch(g12, here(g8), here(g11)));
    assert(g1.code.len() == p && g5.code.len() == p + 3);
    assert(g6.code.len() == q && r.code.len() == q + 4);
    assert(g5.code[p] == InstrView::JumpIfFalse((p + 3) as usize));
    assert(g5.code[p + 1] == load_bool(true));
    assert(g5.code[p + 2] == InstrView::Jump(usize::MAX));
    assert(g6.code[p] == g5.code[p]);
    assert(g6.code[p + 1] == g5.code[p + 1]);
    assert(g6.code[p + 2] == g5.code[p + 2]);
    assert(g10.code[q] == InstrView::JumpIfFalse((q + 3) as usize));
    assert(r.code[p] == InstrView::JumpIfFalse((p + 3) as usize));
    assert(r.code[p + 1] == load_bool(true));
    assert(r.code[p + 2] == InstrView::Jump((q + 4) as usize));
    assert(r.code[q] == InstrView::JumpIfFalse((q + 3) as usize));
    assert(r.code[q + 1] == load_bool(true));
    assert(r.code[q + 2] == InstrView::Jump((q + 4) as usize));
    assert(r.code[q + 3] == load_bool(false));
    assert(instr_view(c[p]) == r.code[p]);
    assert(instr_view(c[p + 1]) == r.code[p + 1]);
    assert(instr_view(c[p + 2]) == r.code[p + 2]);
    assert(instr_view(c[q]) == r.code[q]);
    assert(instr_view(c[q + 1]) == r.code[q + 1]);
    assert(instr_view(c[q + 2]) == r.code[q + 2]);
    assert(instr_view(c[q + 3]) == r.code[q + 3]);
    assert(operands_at(g, left, right, 3, p, q)) by {
        assert(here(g5) == p + 3 && gen_expr(g5, right) is Some && here(gen_expr(g5, right)->Some_0) == q);
    }
    assert(bool_run(c, reader, host, p, true, 3, q + 4, Some(true))) by {
        assert forall|trace: Seq<Machine>| #![trigger steps_through(c, reader, host, trace)]
            trace.len() == 4 && steps_through(c, reader, host, trace) && trace[0].ip == p
                && trace[0].stack@.len() > 0 && trace[0].stack@.last() == RuntimeValue::Bool(true)
            implies trace[3].ip == q + 4 && trace[3].stack@ == trace[0].stack@.drop_last().push(RuntimeValue::Bool(true)) by {
            assert(trace[0].ip < c.len() && crate::runtime::vm::step_allows(c, reader, host, trace[0], Ok(trace[1])));
            law_jump_if_false_step(c, reader, host, trace[0], trace[1], (p + 3) as usize, true);
            assert(trace[1].ip < c.len() && crate::runtime::vm::step_allows(c, reader, host, trace[1], Ok(trace[2])));
            law_load_bool_step(c, reader, host, trace[1], trace[2], true);
            assert(trace[2].ip < c.len() && crate::runtime::vm::step_allows(c, reader, host, trace[2], Ok(trace[3])));
            law_jump_step(c, reader, host, trace[2], trace[3], (q + 4) as usize);
        }
    }
    assert(bool_run(c, reader, host, p, false, 1, p + 3, None)) by {
        assert forall|trace: Seq<Machine>| #![trigger steps_through(c, reader, host, trace)]
            trace.len() == 2 && steps_through(c, reader, host, trace) && trace[0].ip == p
                && trace[0].stack@.len() > 0 && trace[0].stack@.last() == RuntimeValue::Bool(false)
            implies trace[1].ip == p + 3 && trace[1].stack@ == trace[0].stack@.drop_last() by {
            assert(trace[0].ip < c.len() && crate::runtime::vm::step_allows(c, reader, host, trace[0], Ok(trace[1])));
            law_jump_if_false_step(c, reader, host, trace[0], trace[1], (p + 3) as usize, false);
        }
    }
    assert(bool_run(c, reader, host, q, true, 3, q + 4, Some(true))) by {
        assert forall|trace: Seq<Machine>| #![trigger steps_through(c, reader, host, trace)]
            trace.len() == 4 && steps_through(c, reader, host, trace) && trace[0].ip == q
                && trace[0].stack@.len() > 0 && trace[0].stack@.last() == RuntimeValue::Bool(true)
            implies trace[3].ip == q + 4 && trace[3].stack@ == trace[0].stack@.drop_last().push(RuntimeValue::Bool(true)) by {
            assert(trace[0].ip < c.len() && crate::runtime::vm::step_allows(c, reader, host, trace[0], Ok(trace[1])));
            law_jump_if_false_step(c, reader, host, trace[0], trace[1], (q + 3) as usize, true);
            assert(trace[1].ip < c.len() && crate::runtime::vm::step_allows(c, reader, host, trace[1], Ok(trace[2])));
            law_load_bool_step(c, reader, host, trace[1], trace[2], true);
            assert(trace[2].ip < c.len() && crate::runtime::vm::step_allows(c, reader, host, trace[2], Ok(trace[3])));
            law_jump_step(c, reader, host, trace[2], trace[3], (q + 4) as usize);
        }
    }
    assert(bool_run(c, reader, host, q, false, 2, q + 4, Some(false))) by {
        assert forall|trace: Seq<Machine>| #![trigger steps_through(c, reader, host, trace)]
            trace.len() == 3 && steps_through(c, reader, host, trace) && trace[0].ip == q
                && trace[0].stack@.len() > 0 && trace[0].stack@.last() == RuntimeValue::Bool(false)
            implies trace[2].ip == q + 4 && trace[2].stack@ == trace[0].stack@.drop_last().push(RuntimeValue::Bool(false)) by {
            assert(trace[0].ip < c.len() && crate::runtime::vm::step_allows(c, reader, host, trace[0], Ok(trace[1])));
            law_jump_if_false_step(c, reader, host, trace[0], trace[1], (q + 3) as usize, false);
            assert(trace[1].ip < c.len() && crate::runtime::vm::step_allows(c, reader, host, trace[1], Ok(trace[2])));
            law_load_bool_step(c, reader, host, trace[1], trace[2], false);
        }
    }
}


/// `🤝` is "and", evaluated left to right with a short circuit. Its left
/// operand's code leaves a boolean at `p`: `❌` ends the whole expression with
/// `❌` without running the right operand; `✅` is taken off and the right
/// operand's code runs from `p + 1` to `q`; the boolean it leaves ends the
/// expression as itself. So `l 🤝 r` leaves `l && r`.
pub proof fn law_and_value(
    g: Gen,
    left: Expr,
    right: Expr,
    span: Span,
    c: Seq<Instruction>,
    reader: spec_fn(InputKind, Result<String, String>) -> bool,
    host: spec_fn(FloatRequest, FloatReply) -> bool,
)
    requires
        gen_expr(g, Expr::Binary { left: Box::new(left), op: BinaryOp::And, right: Box::new(right), span }) is Some,
        runs_code(c, gen_expr(g, Expr::Binary { left: Box::new(left), op: BinaryOp::And, right: Box::new(right), span })->Some_0),
    ensures
        exists|p: int, q: int| #![trigger operands_at(g, left, right, 1, p, q)] {
            &&& operands_at(g, left, right, 1, p, q)
            &&& here(gen_expr(g, Expr::Binary { left: Box::new(left), op: BinaryOp::And, right: Box::new(right), span })->Some_0) == q + 4
            &&& bool_run(c, reader, host, p, false, 2, q + 4, Some(false))
            &&& bool_run(c, reader, host, p, true, 1, p + 1, None)
            &&& bool_run(c, reader, host, q, true, 3, q + 4, Some(true))
            &&& bool_run(c, reader, host, q, false, 2, q + 4, Some(false))
        },
{
    let e = Expr::Binary { left: Box::new(left), op: BinaryOp::And, right: Box::new(right), span };
    let r = gen_expr(g, e)->Some_0;
    lemma_expr_grows(g, left);
    let g1 = gen_expr(g, left)->Some_0;
    let p = here(g1) as int;
    let g2 = emit(g1, InstrView::JumpIfFalse(usize::MAX));
    lemma_expr_grows(g2, right);
    let g3 = gen_expr(g2, right)->Some_0;
    let q = here(g3) as int;
    let g4 = emit(g3, InstrView::JumpIfFalse(usize::MAX));
    let g5 = emit(g4, load_bool(true));
    let g6 = emit(g5, InstrView::Jump(usize::MAX));
    let g6a = patch(g6, here(g1), here(g6));
    let g7 = patch(g6a, here(g3), here(g6));
    let g8 = emit(g7, load_bool(false));
    assert(r == patch(g8, here(g5), here(g8)));
    assert(g1.code.len() == p && g2.code.len() == p + 1);
    assert(g3.code.len() == q && r.code.len() == q + 4);
    assert(g3.code[p] == g2.code[p]);
    assert(g6.code[p] == InstrView::JumpIfFalse(usize::MAX));
    assert(g6a.code[p] == InstrView::JumpIfFalse((q + 3) as usize));
    assert(g7.code[q] == InstrView::JumpIfFalse((q + 3) as usize));
    assert(r.code[p] == InstrView::JumpIfFalse((q + 3) as usize));
    assert(r.code[q] == InstrView::JumpIfFalse((q + 3) as usize));
    assert(r.code[q + 1] == load_bool(true));
    assert(r.code[q + 2] == InstrView::Jump((q + 4) as usize));
    assert(r.code[q + 3] == load_bool(false));
    assert(instr_view(c[p]) == r.code[p]);
    assert(instr_view(c[q]) == r.code[q]);
    assert(instr_view(c[q + 1]) == r.code[q + 1]);
    assert(instr_view(c[q + 2]) == r.code[q + 2]);
    assert(instr_view(c[q + 3]) == r.code[q + 3]);
    assert(operands_at(g, left, right, 1, p, q)) by {
        assert(here(g2) == p + 1 && gen_expr(g2, right) is Some && here(gen_expr(g2, right)->Some_0) == q);
    }
    assert(bool_run(c, reader, host, p, false, 2, q + 4, Some(false))) by {
        assert forall|trace: Seq<Machine>| #![trigger steps_through(c, reader, host, trace)]
            trace.len() == 3 && steps_through(c, reader, host, trace) && trace[0].ip == p
                && trace[0].stack@.len() > 0 && trace[0].stack@.last() == RuntimeValue::Bool(false)
            implies trace[2].ip == q + 4 && trace[2].stack@ == trace[0].stack@.drop_last().push(RuntimeValue::Bool(false)) by {
            assert(trace[0].ip < c.len() && crate::runtime::vm::step_allows(c, reader, host, trace[0], Ok(trace[1])));
            law_jump_if_false_step(c, reader, host, trace[0], trace[1], (q + 3) as usize, false);
            assert(trace[1].ip < c.len() && crate::runtime::vm::step_allows(c, reader, host, trace[1], Ok(trace[2])));
            law_load_bool_step(c, reader, host, trace[1], trace[2], false);
        }
    }
    assert(bool_run(c, reader, host, p, true, 1, p + 1, None)) by {
        assert forall|trace: Seq<Machine>| #![trigger steps_through(c, reader, host, trace)]
            trace.len() == 2 && steps_through(c, reader, host, trace) && trace[0].ip == p
                && trace[0].stack@.len() > 0 && trace[0].stack@.last() == RuntimeValue::Bool(true)
            implies trace[1].ip == p + 1 && trace[1].stack@ == trace[0].stack@.drop_last() by {
            assert(trace[0].ip < c.len() && crate::runtime::vm::step_allows(c, reader, host, trace[0], Ok(trace[1])));
            law_jump_if_false_step(c, reader, host, trace[0], trace[1], (q + 3) as usize, true);
        }
    }
    assert(bool_run(c, reader, host, q, true, 3, q + 4, Some(true))) by {
        assert forall|trace: Seq<Machine>| #![trigger steps_through(c, reader, host, trace)]
            trace.len() == 4 && steps_through(c, reader, host, trace) && trace[0].ip == q
                && trace[0].stack@.len() > 0 && trace[0].stack@.last() == RuntimeValue::Bool(true)
            implies trace[3].ip == q + 4 && trace[3].stack@ == trace[0].stack@.drop_last().push(RuntimeValue::Bool(true)) by {
            assert(trace[0].ip < c.len() && crate::runtime::vm::step_allows(c, reader, host, trace[0], Ok(trace[1])));
            law_jump_if_false_step(c, reader, host, trace[0], trace[1], (q + 3) as usize, true);
            assert(trace[1].ip < c.len() && crate::runtime::vm::step_allows(c, reader, host, trace[1], Ok(trace[2])));
            law_load_bool_step(c, reader, host, trace[1], trace[2], true);
            assert(trace[2].ip < c.len() && crate::runtime::vm::step_allows(c, reader, host, trace[2], Ok(trace[3])));
            law_jump_step(c, reader, host, trace[2], trace[3], (q + 4) as usize);
        }
    }
    assert(bool_run(c, reader, host, q, false, 2, q + 4, Some(false))) by {
        assert forall|trace: Seq<Machine>| #![trigger steps_through(c, reader, host, trace)]
            trace.len() == 3 && steps_through(c, reader, host, trace) && trace[0].ip == q
                && trace[0].stack@.len() > 0 && trace[0].stack@.last() == RuntimeValue::Bool(false)
            implies trace[2].ip == q + 4 && trace[2].stack@ == trace[0].stack@.drop_last().push(RuntimeValue::Bool(false)) by {
            assert(trace[0].ip < c.len() && crate::runtime::vm::step_allows(c, reader, host, trace[0], Ok(trace[1])));
            law_jump_if_false_step(c, reader, host, trace[0], trace[1], (q + 3) as usize, false);
            assert(trace[1].ip < c.len() && crate::runtime::vm::step_allows(c, reader, host, trace[1], Ok(trace[2])));
            law_load_bool_step(c, reader, host, trace[1], trace[2], false);
        }
    }
}


/// The bindings that parameters `params[k..]` receive at `places` (counted
/// from `base`).
pub open spec fn parameter_bindings(params: Seq<Seq<char>>, k: int, places: Seq<Place>, base: int) -> Seq<(Seq<char>, Place)> {
    Seq::new((params.len() - k) as nat, |t: int| (params[k + t], places[base + t]))
}

/// Declaring the parameters binds each, in order, in the innermost scope,
/// and emits nothing.
proof fn lemma_declare_parameters(g: Gen, params: Seq<Seq<char>>, k: int, acc: Seq<Place>)
    requires
        0 <= k <= params.len(),
        g.scopes.len() > 0,
    ensures
        declare_parameters(g, params, k, acc).1.len() == acc.len() + params.len() - k,
        declare_parameters(g, params, k, acc).1.subrange(0, acc.len() as int) == acc,
        declare_parameters(g, params, k, acc).0.code == g.code,
        declare_parameters(g, params, k, acc).0.loops == g.loops,
        declare_parameters(g, params, k, acc).0.scopes.len() == g.scopes.len(),
        declare_parameters(g, params, k, acc).0.scopes.last() == g.scopes.last()
            + parameter_bindings(params, k, declare_parameters(g, params, k, acc).1, acc.len() as int),
    decreases params.len() - k,
{
    let (g2, ps) = declare_parameters(g, params, k, acc);
    if k == params.len() {
        assert(parameter_bindings(params, k, ps, acc.len() as int) =~= Seq::<(Seq<char>, Place)>::empty());
        assert(g.scopes.last() + Seq::<(Seq<char>, Place)>::empty() =~= g.scopes.last());
        assert(acc.subrange(0, acc.len() as int) =~= acc);
    } else {
        let (g1, p) = declare_local(g, params[k]);
        assert(g1.scopes.last() == g.scopes.last().push((params[k], p)));
        lemma_declare_parameters(g1, params, k + 1, acc.push(p));
        assert(ps == declare_parameters(g1, params, k + 1, acc.push(p)).1);
        assert(ps.subrange(0, acc.len() + 1int) == acc.push(p));
        assert(ps.subrange(0, acc.len() as int) =~= acc) by {
            assert forall|t: int| 0 <= t < acc.len() implies ps[t] == acc[t] by {
                assert(ps.subrange(0, acc.len() + 1int)[t] == ps[t]);
            }
        }
        assert(ps[acc.len() as int] == p) by {
            assert(ps.subrange(0, acc.len() + 1int)[acc.len() as int] == ps[acc.len() as int]);
        }
        assert(g2.scopes.last() =~= g.scopes.last() + parameter_bindings(params, k, ps, acc.len() as int)) by {
            let left = g1.scopes.last() + parameter_bindings(params, k + 1, ps, acc.len() + 1int);
            assert(left =~= g.scopes.last() + parameter_bindings(params, k, ps, acc.len() as int));
        }
    }
}

/// Storing the parameters emits only: the scopes and loops stay.
proof fn lemma_store_parameters_scopes(g: Gen, places: Seq<Place>, k: int)
    ensures
        store_parameters(g, places, k).scopes == g.scopes,
    decreases k,
{
    if 0 < k <= places.len() {
        lemma_store_parameters_scopes(emit(g, store(places[k - 1])), places, k - 1);
    }
}

/// A name declared once in a scope is found where it was declared.
proof fn lemma_place_position_found(scope: Seq<(Seq<char>, Place)>, name: Seq<char>, from: int, at: int)
    requires
        0 <= from <= at < scope.len(),
        scope[at].0 == name,
        forall|i: int| from <= i < at ==> (#[trigger] scope[i]).0 != name,
    ensures
        place_position(scope, name, from) == Some(at),
    decreases at - from,
{
    if from < at {
        lemma_place_position_found(scope, name, from + 1, at);
    }
}

/// A function's body is compiled where each parameter name stands for the
/// place that the entry's store of the matching argument writes: for
/// parameters `p0 .. pn-1` (all different) the entry emits `n` stores and
/// nothing else, the store that takes argument `j` off the stack (the
/// `(n - 1 - j)`-th, as the last argument is on top) writes into the place
/// that `pj` names in the body. So on entry each parameter holds its own
/// argument.
pub proof fn law_function_parameters_hold_their_arguments(g: Gen, name: Seq<char>, params: Seq<Seq<char>>, body: Seq<Stmt>)
    requires
        gen_function(g, name, params, body) is Some,
        params.no_duplicates(),
    ensures
        exists|gb: Gen| #![trigger gen_stmts(gb, body, 0)] {
            &&& gb.code.len() == g.code.len() + params.len()
            &&& forall|i: int| 0 <= i < g.code.len() ==> #[trigger] gb.code[i] == g.code[i]
            &&& gen_stmts(gb, body, 0) is Some
            &&& pop_scope(gen_stmts(gb, body, 0)->Some_0) == gen_function(g, name, params, body)->Some_0
            &&& forall|j: int| 0 <= j < params.len() ==> resolve(gb, #[trigger] params[j]) is Some
                && gb.code[g.code.len() + params.len() - 1 - j] == store(resolve(gb, params[j])->Some_0)
        },
{
    let g1 = Gen {
        functions: g.functions.push((name, here(g))),
        scopes: if g.scopes.len() > 1 { g.scopes.subrange(0, 1) } else { g.scopes },
        loops: Seq::empty(),
        in_function: true,
        ..g
    };
    let g0 = push_scope(g1);
    lemma_declare_parameters(g0, params, 0, Seq::empty());
    let (g2, places) = declare_parameters(g0, params, 0, Seq::empty());
    let n = params.len() as int;
    assert(places.len() == n);
    let gb = store_parameters(g2, places, n);
    lemma_store_parameters_scopes(g2, places, n);
    law_parameters_receive_arguments_in_order(g2, places, n);
    assert(g0.scopes.last() =~= Seq::<(Seq<char>, Place)>::empty());
    let scope = gb.scopes.last();
    assert(scope =~= parameter_bindings(params, 0, places, 0));
    assert forall|j: int| 0 <= j < n implies resolve(gb, #[trigger] params[j]) is Some
        && gb.code[g.code.len() + n - 1 - j] == store(resolve(gb, params[j])->Some_0) by {
        assert(scope[j] == (params[j], places[j]));
        assert forall|i: int| 0 <= i < j implies (#[trigger] scope[i]).0 != params[j] by {
            assert(scope[i].0 == params[i]);
            assert(params[i] != params[j]);
        }
        lemma_place_position_found(scope, params[j], 0, j);
        assert(gb.code[g2.code.len() + (n - 1 - j)] == store(places[n - 1 - (n - 1 - j)]));
    }
    assert(gen_stmts(gb, body, 0) is Some);
}

} // verus!
