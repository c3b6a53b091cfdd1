//! What holds of every lowering: the shape of what an expression lowers to,
//! the order of its instructions, and the transparency of the unary plus.

use crate::ast::{Exp, Stmt, UnaryOp};
use crate::ir::{
    exp_lowered, exp_lowered_with, first_untranslatable, lower_exp, lower_stmt, unary_ir_op,
    values_needed,
    Lowered,
};
use crate::program::{TypeTag, ValueKind};
use koopa::ir::{Function, Program, Value};
use vstd::prelude::*;

verus! {

/// What holds of a lowered expression whose handles differ from each other:
/// it creates at least one value; its values are exactly those of the
/// handles, all of type `i32`; its result is the value created last; its
/// instructions are binary operations among the handles, none twice, and the
/// last of them is the result; without instructions the result is a constant.
pub proof fn lemma_lower_exp(e: Exp, ids: Seq<Value>)
    requires
        ids.len() == values_needed(e),
        ids.no_duplicates(),
    ensures
        values_needed(e) >= 1,
        forall|i: int| 0 <= i < ids.len() ==> lower_exp(e, ids).values.contains_key(#[trigger] ids[i]),
        forall|v: Value| #[trigger]
            lower_exp(e, ids).values.contains_key(v) ==> ids.contains(v) && lower_exp(
                e,
                ids,
            ).values[v].ty == TypeTag::Int32,
        lower_exp(e, ids).result == ids.last(),
        lower_exp(e, ids).insts.no_duplicates(),
        forall|i: int|
            0 <= i < lower_exp(e, ids).insts.len() ==> ids.contains(
                #[trigger] lower_exp(e, ids).insts[i],
            ),
        lower_exp(e, ids).insts.len() > 0 ==> lower_exp(e, ids).insts.last() == lower_exp(
            e,
            ids,
        ).result,
        lower_exp(e, ids).insts.len() == 0 ==> lower_exp(e, ids).values[lower_exp(
            e,
            ids,
        ).result].kind is Integer,
        forall|i: int|
            0 <= i < lower_exp(e, ids).insts.len() ==> lower_exp(e, ids).values.contains_key(
                #[trigger] lower_exp(e, ids).insts[i],
            ) && lower_exp(e, ids).values[lower_exp(e, ids).insts[i]].kind is Binary,
    decreases e,
{
    match e {
        Exp::Number { value } => {
            assert(ids[0] == ids.last());
        },
        Exp::UnaryExp { unary_op, exp } => {
            if unary_ir_op(unary_op) is None {
                lemma_lower_exp(*exp, ids);
            } else {
                let n = values_needed(*exp) as int;
                let inner = ids.subrange(0, n);
                lemma_lower_exp(*exp, inner);
                let operand = lower_exp(*exp, inner);
                let low = lower_exp(e, ids);
                assert forall|i: int| 0 <= i < ids.len() implies low.values.contains_key(
                    #[trigger] ids[i],
                ) by {
                    if i < n {
                        assert(inner[i] == ids[i]);
                    }
                }
                assert forall|v: Value| #[trigger] low.values.contains_key(v) implies ids.contains(
                    v,
                ) && low.values[v].ty == TypeTag::Int32 by {
                    if v != ids[n] && v != ids[n + 1] {
                        assert(operand.values.contains_key(v));
                        let k = choose|k: int| 0 <= k < inner.len() && inner[k] == v;
                        assert(ids[k] == v);
                    }
                }
                assert forall|i: int| 0 <= i < low.insts.len() implies ids.contains(
                    #[trigger] low.insts[i],
                ) by {
                    if i < operand.insts.len() {
                        let k = choose|k: int| 0 <= k < inner.len() && inner[k] == operand.insts[i];
                        assert(ids[k] == low.insts[i]);
                    }
                }
                assert forall|i: int, j: int|
                    0 <= i < low.insts.len() && 0 <= j < low.insts.len() && i != j implies low.insts[i]
                    != low.insts[j] by {
                    if i < operand.insts.len() {
                        let k = choose|k: int| 0 <= k < inner.len() && inner[k] == operand.insts[i];
                        assert(ids[k] == low.insts[i]);
                    }
                    if j < operand.insts.len() {
                        let k = choose|k: int| 0 <= k < inner.len() && inner[k] == operand.insts[j];
                        assert(ids[k] == low.insts[j]);
                    }
                }
                assert forall|i: int| 0 <= i < low.insts.len() implies low.values.contains_key(
                    #[trigger] low.insts[i],
                ) && low.values[low.insts[i]].kind is Binary by {
                    if i < operand.insts.len() {
                        let k = choose|k: int| 0 <= k < inner.len() && inner[k] == operand.insts[i];
                        assert(ids[k] == low.insts[i]);
                    }
                }
            }
        },
        Exp::BinaryExp { binary_op, lhs, rhs } => {
            let n = values_needed(*lhs) as int;
            let m = values_needed(*rhs) as int;
            let ids_l = ids.subrange(0, n);
            let ids_r = ids.subrange(n, n + m);
            lemma_lower_exp(*lhs, ids_l);
            lemma_lower_exp(*rhs, ids_r);
            let left = lower_exp(*lhs, ids_l);
            let right = lower_exp(*rhs, ids_r);
            let low = lower_exp(e, ids);
            assert forall|i: int| 0 <= i < ids.len() implies low.values.contains_key(
                #[trigger] ids[i],
            ) by {
                if i < n {
                    assert(ids_l[i] == ids[i]);
                } else if i < n + m {
                    assert(ids_r[i - n] == ids[i]);
                }
            }
            assert forall|v: Value| #[trigger] low.values.contains_key(v) implies ids.contains(v)
                && low.values[v].ty == TypeTag::Int32 by {
                if v != ids[n + m] {
                    if right.values.contains_key(v) {
                        let k = choose|k: int| 0 <= k < ids_r.len() && ids_r[k] == v;
                        assert(ids[k + n] == v);
                    } else {
                        assert(left.values.contains_key(v));
                        let k = choose|k: int| 0 <= k < ids_l.len() && ids_l[k] == v;
                        assert(ids[k] == v);
                    }
                }
            }
            lemma_insts_of_binary(ids, n, m, left.insts, right.insts);
            assert forall|i: int| 0 <= i < low.insts.len() implies low.values.contains_key(
                #[trigger] low.insts[i],
            ) && low.values[low.insts[i]].kind is Binary by {
                if i < left.insts.len() {
                    let x = left.insts[i];
                    let k = choose|k: int| 0 <= k < ids_l.len() && ids_l[k] == x;
                    assert(ids[k] == x);
                    if right.values.contains_key(x) {
                        let j = choose|j: int| 0 <= j < ids_r.len() && ids_r[j] == x;
                        assert(ids[n + j] == x);
                    }
                } else if i < left.insts.len() + right.insts.len() {
                    let x = right.insts[i - left.insts.len()];
                    assert(low.insts[i] == x);
                    let k = choose|k: int| 0 <= k < ids_r.len() && ids_r[k] == x;
                    assert(ids[n + k] == x);
                }
            }
        },
    }
}

/// The instructions of a binary expression, drawn from two ranges of handles
/// that differ from each other and the handle after them, are among the
/// handles, none twice.
proof fn lemma_insts_of_binary(ids: Seq<Value>, n: int, m: int, left: Seq<Value>, right: Seq<Value>)
    requires
        0 <= n,
        0 <= m,
        ids.len() == n + m + 1,
        ids.no_duplicates(),
        left.no_duplicates(),
        right.no_duplicates(),
        forall|i: int| 0 <= i < left.len() ==> ids.subrange(0, n).contains(#[trigger] left[i]),
        forall|i: int| 0 <= i < right.len() ==> ids.subrange(n, n + m).contains(#[trigger] right[i]),
    ensures
        (left + right + seq![ids[n + m]]).no_duplicates(),
        forall|i: int|
            0 <= i < (left + right + seq![ids[n + m]]).len() ==> ids.contains(
                #[trigger] (left + right + seq![ids[n + m]])[i],
            ),
{
    let all = left + right + seq![ids[n + m]];
    let ids_l = ids.subrange(0, n);
    let ids_r = ids.subrange(n, n + m);
    let place = |i: int|
        if i < left.len() {
            choose|k: int| 0 <= k < ids_l.len() && ids_l[k] == left[i]
        } else if i < left.len() + right.len() {
            n + choose|k: int| 0 <= k < ids_r.len() && ids_r[k] == right[i - left.len()]
        } else {
            n + m
        };
    assert forall|i: int| 0 <= i < all.len() implies 0 <= place(i) < ids.len() && ids[place(i)]
        == #[trigger] all[i] && (i < left.len() ==> place(i) < n) && (left.len() <= i < left.len()
        + right.len() ==> n <= place(i) < n + m) by {
        if i < left.len() {
            let k = choose|k: int| 0 <= k < ids_l.len() && ids_l[k] == left[i];
            assert(ids_l[k] == ids[k]);
        } else if i < left.len() + right.len() {
            let k = choose|k: int| 0 <= k < ids_r.len() && ids_r[k] == right[i - left.len()];
            assert(ids_r[k] == ids[n + k]);
        }
    }
    assert forall|i: int| 0 <= i < all.len() implies ids.contains(#[trigger] all[i]) by {
        assert(ids[place(i)] == all[i]);
    }
    assert forall|i: int, j: int| 0 <= i < all.len() && 0 <= j < all.len() && i != j implies all[i]
        != all[j] by {
        assert(ids[place(i)] == all[i]);
        assert(ids[place(j)] == all[j]);
        if i < left.len() && j < left.len() {
            assert(left[i] != left[j]);
        } else if left.len() <= i < left.len() + right.len() && left.len() <= j < left.len()
            + right.len() {
            assert(right[i - left.len()] != right[j - left.len()]);
        } else {
            assert(place(i) != place(j));
        }
    }
}

/// Whether a value is ready to be used by the instruction at index `at` of a
/// lowered expression: it is a constant, or an instruction that stands
/// earlier in the list.
pub open spec fn operand_ready(low: Lowered, operand: Value, at: int) -> bool {
    &&& low.values.contains_key(operand)
    &&& low.values[operand].kind is Integer || exists|j: int|
        0 <= j < at && #[trigger] low.insts[j] == operand
}

/// Whether the instruction at index `at` of a lowered expression is a binary
/// operation whose operands are ready, the left one before the right one where
/// both are instructions.
pub open spec fn operands_before_use(low: Lowered, at: int) -> bool {
    &&& low.values.contains_key(low.insts[at])
    &&& low.values[low.insts[at]].kind matches ValueKind::Binary { op, lhs, rhs }
    &&& operand_ready(low, lhs, at)
    &&& operand_ready(low, rhs, at)
    &&& forall|j: int, k: int|
        0 <= j < low.insts.len() && 0 <= k < low.insts.len() && low.insts[j] == lhs && low.insts[k]
            == rhs ==> j < k
}

/// Evaluation order: in the instruction list of a lowered expression, every
/// instruction is a binary operation, and each of its operands is a constant
/// or the result of an instruction that stands strictly before it; where both
/// operands are instructions, the left one stands before the right one.
pub proof fn lemma_operands_before_use(e: Exp, ids: Seq<Value>)
    requires
        ids.len() == values_needed(e),
        ids.no_duplicates(),
    ensures
        forall|i: int|
            0 <= i < lower_exp(e, ids).insts.len() ==> #[trigger] operands_before_use(
                lower_exp(e, ids),
                i,
            ),
    decreases e,
{
    let low = lower_exp(e, ids);
    lemma_lower_exp(e, ids);
    match e {
        Exp::Number { value } => {
            assert(low.insts.len() == 0);
        },
        Exp::UnaryExp { unary_op, exp } => {
            if unary_ir_op(unary_op) is None {
                lemma_operands_before_use(*exp, ids);
                assert(low == lower_exp(*exp, ids));
                assert(forall|i: int|
                    0 <= i < low.insts.len() ==> #[trigger] operands_before_use(low, i));
            } else {
                let n = values_needed(*exp) as int;
                let inner = ids.subrange(0, n);
                let operand = lower_exp(*exp, inner);
                lemma_lower_exp(*exp, inner);
                lemma_operands_before_use(*exp, inner);
                assert forall|v: Value| #[trigger] operand.values.contains_key(v) implies v
                    != ids[n] && v != ids[n + 1] by {
                    let k = choose|k: int| 0 <= k < inner.len() && inner[k] == v;
                    assert(ids[k] == v);
                }
                assert forall|i: int| 0 <= i < low.insts.len() implies #[trigger] operands_before_use(
                    low,
                    i,
                ) by {
                    if i < operand.insts.len() {
                        lemma_ready_in_context(operand, low, 0, i);
                    } else {
                        assert(operand_ready(low, ids[n], i));
                        assert(operand.values.contains_key(operand.result));
                        if operand.insts.len() > 0 {
                            assert(low.insts[operand.insts.len() - 1] == operand.result);
                        }
                        assert(operand_ready(low, operand.result, i));
                        assert(forall|j: int| 0 <= j < low.insts.len() ==> low.insts[j] != ids[n]) by {
                            assert forall|j: int| 0 <= j < low.insts.len() implies low.insts[j]
                                != ids[n] by {
                                if j < operand.insts.len() {
                                    assert(operand.values.contains_key(operand.insts[j])) by {
                                        let k = choose|k: int|
                                            0 <= k < inner.len() && inner[k] == operand.insts[j];
                                        assert(operand.values.contains_key(inner[k]));
                                    }
                                }
                            }
                        }
                    }
                }
            }
        },
        Exp::BinaryExp { binary_op, lhs, rhs } => {
            let n = values_needed(*lhs) as int;
            let m = values_needed(*rhs) as int;
            let ids_l = ids.subrange(0, n);
            let ids_r = ids.subrange(n, n + m);
            let left = lower_exp(*lhs, ids_l);
            let right = lower_exp(*rhs, ids_r);
            lemma_lower_exp(*lhs, ids_l);
            lemma_lower_exp(*rhs, ids_r);
            lemma_operands_before_use(*lhs, ids_l);
            lemma_operands_before_use(*rhs, ids_r);
            assert forall|v: Value| #[trigger] left.values.contains_key(v) implies v != ids[n + m]
                && !right.values.contains_key(v) by {
                let k = choose|k: int| 0 <= k < ids_l.len() && ids_l[k] == v;
                assert(ids[k] == v);
                if right.values.contains_key(v) {
                    let j = choose|j: int| 0 <= j < ids_r.len() && ids_r[j] == v;
                    assert(ids[n + j] == v);
                }
            }
            assert forall|v: Value| #[trigger] right.values.contains_key(v) implies v != ids[n
                + m] by {
                let k = choose|k: int| 0 <= k < ids_r.len() && ids_r[k] == v;
                assert(ids[n + k] == v);
            }
            let a = left.insts.len() as int;
            let b = right.insts.len() as int;
            assert forall|i: int| 0 <= i < low.insts.len() implies #[trigger] operands_before_use(
                low,
                i,
            ) by {
                if i < a {
                    lemma_ready_in_context(left, low, 0, i);
                } else if i < a + b {
                    assert(low.insts[i] == right.insts[i - a]);
                    lemma_ready_in_context(right, low, a, i - a);
                } else {
                    assert(left.values.contains_key(left.result));
                    assert(right.values.contains_key(right.result));
                    if a > 0 {
                        assert(low.insts[a - 1] == left.result);
                    }
                    if b > 0 {
                        assert(low.insts[a + b - 1] == right.result);
                    }
                    assert(operand_ready(low, left.result, i));
                    assert(operand_ready(low, right.result, i));
                    assert forall|j: int, k: int|
                        0 <= j < low.insts.len() && 0 <= k < low.insts.len() && low.insts[j]
                            == left.result && low.insts[k] == right.result implies j < k by {
                        if j >= a && j < a + b {
                            assert(right.values.contains_key(right.insts[j - a]));
                        }
                        if k < a {
                            assert(left.values.contains_key(left.insts[k]));
                        }
                    }
                }
            }
        },
    }
}

/// An instruction whose operands are ready in a part of an expression has
/// them ready in the whole, where the part's values are kept and its
/// instructions stand in the whole from index `offset` on.
proof fn lemma_ready_in_context(part: Lowered, whole: Lowered, offset: int, at: int)
    requires
        0 <= offset,
        0 <= at < part.insts.len(),
        offset + part.insts.len() <= whole.insts.len(),
        forall|j: int| 0 <= j < part.insts.len() ==> whole.insts[offset + j] == #[trigger] part.insts[j],
        forall|v: Value| #[trigger]
            part.values.contains_key(v) ==> whole.values.contains_key(v) && whole.values[v]
                == part.values[v],
        forall|j: int|
            0 <= j < whole.insts.len() ==> (#[trigger] whole.values[whole.insts[j]]).kind is Binary,
        whole.insts.no_duplicates(),
        operands_before_use(part, at),
    ensures
        operands_before_use(whole, offset + at),
{
    let v = part.insts[at];
    assert(whole.insts[offset + at] == v);
    if let ValueKind::Binary { op, lhs, rhs } = part.values[v].kind {
        assert(operand_ready(whole, lhs, offset + at)) by {
            if !(part.values[lhs].kind is Integer) {
                let j = choose|j: int| 0 <= j < at && #[trigger] part.insts[j] == lhs;
                assert(whole.insts[offset + j] == lhs);
            }
        }
        assert(operand_ready(whole, rhs, offset + at)) by {
            if !(part.values[rhs].kind is Integer) {
                let j = choose|j: int| 0 <= j < at && #[trigger] part.insts[j] == rhs;
                assert(whole.insts[offset + j] == rhs);
            }
        }
        assert forall|j: int, k: int|
            0 <= j < whole.insts.len() && 0 <= k < whole.insts.len() && whole.insts[j] == lhs
                && whole.insts[k] == rhs implies j < k by {
            if !(part.values[lhs].kind is Integer) {
                let pj = choose|pj: int| 0 <= pj < at && #[trigger] part.insts[pj] == lhs;
                assert(whole.insts[offset + pj] == lhs);
                assert(j == offset + pj);
                if !(part.values[rhs].kind is Integer) {
                    let pk = choose|pk: int| 0 <= pk < at && #[trigger] part.insts[pk] == rhs;
                    assert(whole.insts[offset + pk] == rhs);
                    assert(k == offset + pk);
                    assert(pj < pk);
                } else {
                    assert(whole.values[whole.insts[k]].kind is Binary);
                }
            } else {
                assert(whole.values[whole.insts[j]].kind is Binary);
            }
        }
    }
}

/// What holds of a lowered statement whose handles differ from each other:
/// its instructions differ from each other; the last one is the return, and
/// it is the only one; the return has an operand exactly when the expression
/// has instructions, and the operand is then the instruction that stands just
/// before the return.
pub proof fn lemma_lower_stmt(stmt: Stmt, ids: Seq<Value>)
    requires
        ids.len() == values_needed(stmt.exp) + 1,
        ids.no_duplicates(),
    ensures
        lower_stmt(stmt, ids).insts.no_duplicates(),
        lower_stmt(stmt, ids).insts.len() >= 1,
        lower_stmt(stmt, ids).insts.last() == ids.last(),
        forall|i: int|
            0 <= i < lower_stmt(stmt, ids).insts.len() - 1 ==> (#[trigger] lower_stmt(
                stmt,
                ids,
            ).values[lower_stmt(stmt, ids).insts[i]]).kind is Binary,
        lower_stmt(stmt, ids).values[ids.last()].kind == (ValueKind::Return {
            operand: if lower_stmt(stmt, ids).insts.len() >= 2 {
                Some(lower_stmt(stmt, ids).insts[lower_stmt(stmt, ids).insts.len() - 2])
            } else {
                None
            },
        }),
{
    let n = values_needed(stmt.exp) as int;
    let inner = ids.subrange(0, n);
    lemma_lower_exp(stmt.exp, inner);
    let exp = lower_exp(stmt.exp, inner);
    let low = lower_stmt(stmt, ids);
    let insts = low.insts;
    assert forall|i: int, j: int| 0 <= i < insts.len() && 0 <= j < insts.len() && i != j implies insts[i]
        != insts[j] by {
        if i < exp.insts.len() {
            let k = choose|k: int| 0 <= k < inner.len() && inner[k] == exp.insts[i];
            assert(ids[k] == insts[i]);
        }
        if j < exp.insts.len() {
            let k = choose|k: int| 0 <= k < inner.len() && inner[k] == exp.insts[j];
            assert(ids[k] == insts[j]);
        }
    }
    assert forall|i: int| 0 <= i < insts.len() - 1 implies (#[trigger] low.values[insts[i]]).kind is Binary by {
        let k = choose|k: int| 0 <= k < inner.len() && inner[k] == exp.insts[i];
        assert(ids[k] == insts[i]);
        assert(exp.values.contains_key(exp.insts[i]));
    }
    if exp.insts.len() > 0 {
        assert(insts[insts.len() - 2] == exp.insts.last());
    }
}

/// The expression `+e`.
pub open spec fn unary_plus(e: Exp) -> Exp {
    Exp::UnaryExp { unary_op: UnaryOp::Plus, exp: Box::new(e) }
}

/// A unary plus is a structural no-op: `+e` needs the values that `e` needs,
/// fails where `e` fails, and lowers under any handles to what `e` lowers to,
/// with the same result and the same instructions.
pub proof fn lemma_unary_plus_is_its_operand(e: Exp, ids: Seq<Value>)
    ensures
        values_needed(unary_plus(e)) == values_needed(e),
        first_untranslatable(unary_plus(e)) == first_untranslatable(e),
        lower_exp(unary_plus(e), ids) == lower_exp(e, ids),
{
}

/// Whatever the lowering of `e` may do to a program and return, the lowering
/// of `+e` may do and return, and the other way round: the same program, the
/// same value and the same list of instructions.
pub proof fn lemma_unary_plus_builds_its_operand(
    before: Program,
    after: Program,
    func: Function,
    e: Exp,
    value: Value,
    insts: Seq<Value>,
)
    ensures
        exp_lowered(before, after, func, unary_plus(e), value, insts) <==> exp_lowered(
            before,
            after,
            func,
            e,
            value,
            insts,
        ),
{
    if exp_lowered(before, after, func, unary_plus(e), value, insts) {
        let ids = choose|ids: Seq<Value>|
            exp_lowered_with(before, after, func, unary_plus(e), ids, value, insts);
        assert(exp_lowered_with(before, after, func, e, ids, value, insts));
    }
    if exp_lowered(before, after, func, e, value, insts) {
        let ids = choose|ids: Seq<Value>|
            exp_lowered_with(before, after, func, e, ids, value, insts);
        assert(exp_lowered_with(before, after, func, unary_plus(e), ids, value, insts));
    }
}

} // verus!
