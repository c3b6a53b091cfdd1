//! The proof that the code generated for a built program is the code that
//! the selection gives for the syntax tree.
//!
//! The instructions of an expression are generated in the order of its list.
//! By induction over the expression, generating that list from a state in
//! which none of its values has a register gives the selected code; each
//! operation finds its operands either in the registers of earlier
//! operations or as constants that it loads on the spot.
//!
//! The selection knows no state at a failure, so the lemmas read the outcomes
//! of the generation through `finished` and `reached`, which keep the state
//! of a success and only the error of a failure.

use crate::ast::{Exp, FuncDef};
use crate::codegen::backend::{lemma_allocate, RegisterMap};
use crate::codegen::inst::{Inst, Reg};
use crate::codegen::{
    as_operand, gen_blocks, gen_function, gen_insts, gen_value, FunctionCode, GenState,
};
use crate::error::CompileError;
use crate::ir::laws::lemma_lower_exp;
use crate::ir::{binary_ir_op, lower_exp, lower_stmt, lowered_function, unary_ir_op, values_needed};
use crate::pipeline::{
    constant_of, select_exp, select_function, select_operand, select_operation, Selection,
};
use crate::program::{BlockModel, FunctionModel, ValueKind, ValueModel};
use koopa::ir::{BasicBlock, Function, Value};
use vstd::prelude::*;

verus! {

/// An outcome as a result that holds the state only on success.
pub open spec fn finished<S, R>(outcome: (S, Result<R, CompileError>)) -> Result<
    (S, R),
    CompileError,
> {
    match outcome.1 {
        Ok(r) => Ok((outcome.0, r)),
        Err(e) => Err(e),
    }
}

/// The state that a generation reached, if it did not fail.
pub open spec fn reached(outcome: (GenState, Result<(), CompileError>)) -> Result<
    GenState,
    CompileError,
> {
    match outcome.1 {
        Ok(_) => Ok(outcome.0),
        Err(e) => Err(e),
    }
}

/// Generating a list of instructions is generating its first part and then
/// its second part.
proof fn lemma_gen_insts_append(
    values: Map<Value, ValueModel>,
    state: GenState,
    first: Seq<Value>,
    second: Seq<Value>,
    depth: nat,
)
    ensures
        reached(gen_insts(values, state, first + second, depth)) == match reached(gen_insts(
            values,
            state,
            first,
            depth,
        )) {
            Err(e) => Err(e),
            Ok(after) => reached(gen_insts(values, after, second, depth)),
        },
    decreases first.len(),
{
    if first.len() == 0 {
        assert(first + second =~= second);
    } else {
        assert((first + second).first() == first.first());
        assert((first + second).drop_first() =~= first.drop_first() + second);
        match finished(gen_value(values, state, first.first(), depth)) {
            Err(_) => {},
            Ok((after, _)) => {
                lemma_gen_insts_append(values, after, first.drop_first(), second, depth);
            },
        }
    }
}

/// Generating a list of one instruction is generating that instruction.
proof fn lemma_gen_insts_one(
    values: Map<Value, ValueModel>,
    state: GenState,
    value: Value,
    depth: nat,
)
    ensures
        reached(gen_insts(values, state, seq![value], depth)) == match finished(gen_value(
            values,
            state,
            value,
            depth,
        )) {
            Err(e) => Err::<GenState, CompileError>(e),
            Ok((after, _)) => Ok(after),
        },
{
    assert(seq![value].first() == value);
    assert(seq![value].drop_first() =~= Seq::<Value>::empty());
    match finished(gen_value(values, state, value, depth)) {
        Err(_) => {},
        Ok((after, _)) => {
            assert(reached(gen_insts(values, after, Seq::<Value>::empty(), depth)) == Ok::<
                GenState,
                CompileError,
            >(after));
        },
    }
}

/// The selection that a generation state stands for.
pub open spec fn selection_of(state: GenState) -> Selection {
    Selection { next: state.regs.next, code: state.code }
}

/// Whether `after` is the state `before` with registers given only to values
/// among `ids`.
pub open spec fn only_assigned(before: GenState, after: GenState, ids: Seq<Value>) -> bool {
    &&& forall|v: Value| #[trigger]
        before.regs.assigned.contains_key(v) ==> after.regs.assigned.contains_key(v)
            && after.regs.assigned[v] == before.regs.assigned[v]
    &&& forall|v: Value| #[trigger]
        after.regs.assigned.contains_key(v) ==> before.regs.assigned.contains_key(v)
            || ids.contains(v)
}

/// Whether the values of a function agree with a lowered expression on its
/// handles.
pub open spec fn holds_lowered(values: Map<Value, ValueModel>, e: Exp, ids: Seq<Value>) -> bool {
    forall|i: int|
        0 <= i < ids.len() ==> values.contains_key(#[trigger] ids[i]) && values[ids[i]]
            == lower_exp(e, ids).values[ids[i]]
}

/// An expression is a constant exactly when it has no instructions; its one
/// value is then that constant.
proof fn lemma_constant(e: Exp, ids: Seq<Value>)
    requires
        ids.len() == values_needed(e),
        ids.no_duplicates(),
    ensures
        constant_of(e) is Some <==> lower_exp(e, ids).insts.len() == 0,
        constant_of(e) matches Some(n) ==> ids.len() == 1 && lower_exp(e, ids).values[ids[0]].kind
            == ValueKind::Integer(n),
    decreases e,
{
    match e {
        Exp::Number { value } => {},
        Exp::UnaryExp { unary_op, exp } => {
            if unary_ir_op(unary_op) is None {
                lemma_constant(*exp, ids);
            }
        },
        Exp::BinaryExp { binary_op, lhs, rhs } => {},
    }
}

/// Taking an operand generates what the selection says: nothing for zero and
/// for the result of an operation, one load for another constant.
proof fn lemma_take_operand(
    e: Exp,
    ids: Seq<Value>,
    values: Map<Value, ValueModel>,
    state: GenState,
    holder: Option<Reg>,
    depth: nat,
)
    requires
        ids.len() == values_needed(e),
        ids.no_duplicates(),
        holds_lowered(values, e, ids),
        state.regs.consistent(),
        depth >= 1,
        match constant_of(e) {
            Some(_) => !state.regs.assigned.contains_key(ids.last()),
            None => holder is Some && state.regs.lookup(ids.last()) == holder,
        },
    ensures
        finished(as_operand(gen_value(values, state, ids.last(), depth))) matches Ok((after, reg)) && {
            &&& selection_of(after) == select_operand(e, holder, selection_of(state)).0
            &&& reg == select_operand(e, holder, selection_of(state)).1
            &&& after.regs.consistent()
            &&& only_assigned(state, after, ids)
            &&& reg == Reg::Zero || (reg matches Reg::Temp(n) && n < after.regs.next)
        },
{
    lemma_constant(e, ids);
    lemma_lower_exp(e, ids);
    let value = ids.last();
    match constant_of(e) {
        Some(n) => {
            assert(ids[0] == value);
            assert(values[value].kind == ValueKind::Integer(n));
            if n != 0 {
                lemma_allocate(state.regs, value, None);
                let after = GenState {
                    regs: state.regs.allocate(value, None).0,
                    code: state.code.push(Inst::Li { rd: Reg::Temp(state.regs.next as usize), imm: n }),
                };
                assert(finished(gen_value(values, state, value, depth)) == Ok::<
                    (GenState, Option<Reg>),
                    CompileError,
                >((after, Some(Reg::Temp(state.regs.next as usize)))));
                assert(ids.contains(value));
                assert(only_assigned(state, after, ids));
            } else {
                assert(finished(gen_value(values, state, value, depth)) == Ok::<
                    (GenState, Option<Reg>),
                    CompileError,
                >((state, Some(Reg::Zero))));
            }
        },
        None => {
            assert(finished(gen_value(values, state, value, depth)) == Ok::<
                (GenState, Option<Reg>),
                CompileError,
            >((state, holder)));
        },
    }
}

/// An operation whose operands were taken generates what the selection says.
proof fn lemma_operation(
    values: Map<Value, ValueModel>,
    state: GenState,
    value: Value,
    after_lhs: GenState,
    l: Reg,
    after_rhs: GenState,
    r: Reg,
    depth: nat,
)
    requires
        depth >= 1,
        values.contains_key(value),
        values[value].kind is Binary,
        !state.regs.assigned.contains_key(value),
        !after_rhs.regs.assigned.contains_key(value),
        after_rhs.regs.consistent(),
        finished(as_operand(gen_value(values, state, values[value].kind->lhs, (depth - 1) as nat))) == Ok::<
            (GenState, Reg),
            CompileError,
        >((after_lhs, l)),
        finished(as_operand(gen_value(values, after_lhs, values[value].kind->rhs, (depth - 1) as nat)))
            == Ok::<(GenState, Reg), CompileError>((after_rhs, r)),
    ensures
        match select_operation(values[value].kind->op, l, r, selection_of(after_rhs)) {
            Err(e) => finished(gen_value(values, state, value, depth)) == Err::<
                (GenState, Option<Reg>),
                CompileError,
            >(e),
            Ok((sel, holder)) => finished(gen_value(values, state, value, depth)) matches Ok((after, reg)) && {
                &&& selection_of(after) == sel
                &&& reg == holder
                &&& holder is Some
                &&& after.regs.lookup(value) == holder
                &&& after.regs.consistent()
                &&& only_assigned(after_rhs, after, seq![value])
            },
        },
{
    lemma_allocate(after_rhs.regs, value, Some(r));
    assert(seq![value][0] == value);
    match select_operation(values[value].kind->op, l, r, selection_of(after_rhs)) {
        Err(e) => {},
        Ok((sel, holder)) => {
            let after = finished(gen_value(values, state, value, depth))->Ok_0.0;
            assert(after.regs == after_rhs.regs.allocate(value, Some(r)).0);
            assert forall|v: Value| #[trigger] after.regs.assigned.contains_key(v) implies after_rhs.regs.assigned.contains_key(
                v,
            ) || seq![value].contains(v) by {
                if v == value {
                    assert(seq![value][0] == v);
                }
            }
        },
    }
}

/// Whether `outcome`, the outcome of generating the instructions of the
/// lowered expression `e` from `state`, is what the selection says.
pub open spec fn exp_selected(
    e: Exp,
    ids: Seq<Value>,
    state: GenState,
    outcome: Result<GenState, CompileError>,
) -> bool {
    match select_exp(e, selection_of(state)) {
        Err(err) => outcome == Err::<GenState, CompileError>(err),
        Ok((sel, holder)) => outcome matches Ok(after) && {
            &&& selection_of(after) == sel
            &&& after.regs.consistent()
            &&& only_assigned(state, after, ids)
            &&& match constant_of(e) {
                Some(_) => holder is None && after == state,
                None => holder is Some && after.regs.lookup(ids.last()) == holder,
            }
        },
    }
}

/// Handles that hold no register yet.
pub open spec fn unassigned(state: GenState, ids: Seq<Value>) -> bool {
    forall|i: int| 0 <= i < ids.len() ==> !state.regs.assigned.contains_key(#[trigger] ids[i])
}

/// Generating the instructions of a lowered expression, none of whose values
/// has a register yet, gives what the selection says of the expression.
proof fn lemma_select_exp(
    e: Exp,
    ids: Seq<Value>,
    values: Map<Value, ValueModel>,
    state: GenState,
    depth: nat,
)
    requires
        ids.len() == values_needed(e),
        ids.no_duplicates(),
        holds_lowered(values, e, ids),
        state.regs.consistent(),
        unassigned(state, ids),
        depth >= 2,
    ensures
        exp_selected(e, ids, state, reached(gen_insts(values, state, lower_exp(e, ids).insts, depth))),
    decreases e,
{
    let low = lower_exp(e, ids);
    lemma_lower_exp(e, ids);
    lemma_constant(e, ids);
    match e {
        Exp::Number { value } => {
            assert(low.insts.len() == 0);
        },
        Exp::UnaryExp { unary_op, exp } => {
            if unary_ir_op(unary_op) is None {
                lemma_select_exp(*exp, ids, values, state, depth);
            } else {
                let n = values_needed(*exp) as int;
                let inner = ids.subrange(0, n);
                let zero = ids[n];
                let v = ids[n + 1];
                let operand = lower_exp(*exp, inner);
                lemma_lower_exp(*exp, inner);
                lemma_constant(*exp, inner);
                assert(holds_lowered(values, *exp, inner)) by {
                    assert forall|i: int| 0 <= i < inner.len() implies values.contains_key(
                        #[trigger] inner[i],
                    ) && values[inner[i]] == operand.values[inner[i]] by {
                        assert(inner[i] == ids[i]);
                    }
                }
                assert(unassigned(state, inner)) by {
                    assert forall|i: int| 0 <= i < inner.len() implies !state.regs.assigned.contains_key(
                        #[trigger] inner[i],
                    ) by {
                        assert(inner[i] == ids[i]);
                    }
                }
                assert(!inner.contains(zero) && !inner.contains(v)) by {
                    if inner.contains(zero) {
                        let k = choose|k: int| 0 <= k < inner.len() && inner[k] == zero;
                        assert(ids[k] == zero);
                    }
                    if inner.contains(v) {
                        let k = choose|k: int| 0 <= k < inner.len() && inner[k] == v;
                        assert(ids[k] == v);
                    }
                }
                lemma_select_exp(*exp, inner, values, state, depth);
                assert(low.insts =~= operand.insts + seq![v]);
                lemma_gen_insts_append(values, state, operand.insts, seq![v], depth);
                match select_exp(*exp, selection_of(state)) {
                    Err(_) => {},
                    Ok((sel, holder)) => {
                        let first = reached(gen_insts(values, state, operand.insts, depth))->Ok_0;
                        lemma_gen_insts_one(values, first, v, depth);
                        assert(values[v] == low.values[v]);
                        assert(values[zero] == low.values[zero]);
                        assert(finished(gen_value(values, first, zero, (depth - 1) as nat)) == Ok::<
                            (GenState, Option<Reg>),
                            CompileError,
                        >((first, Some(Reg::Zero))));
                        assert(inner.last() == operand.result);
                        lemma_take_operand(*exp, inner, values, first, holder, (depth - 1) as nat);
                        let taken = finished(as_operand(
                            gen_value(values, first, operand.result, (depth - 1) as nat),
                        ))->Ok_0;
                        lemma_operation(values, first, v, first, Reg::Zero, taken.0, taken.1, depth);
                        match select_operation(
                            unary_ir_op(unary_op)->0,
                            Reg::Zero,
                            taken.1,
                            selection_of(taken.0),
                        ) {
                            Err(_) => {},
                            Ok(_) => {
                                let last = finished(gen_value(values, first, v, depth))->Ok_0.0;
                                lemma_only_assigned(state, first, taken.0, last, ids, inner, v);
                            },
                        }
                    },
                }
            }
        },
        Exp::BinaryExp { binary_op, lhs, rhs } => {
            let n = values_needed(*lhs) as int;
            let m = values_needed(*rhs) as int;
            let ids_l = ids.subrange(0, n);
            let ids_r = ids.subrange(n, n + m);
            let v = ids[n + m];
            let left = lower_exp(*lhs, ids_l);
            let right = lower_exp(*rhs, ids_r);
            lemma_lower_exp(*lhs, ids_l);
            lemma_lower_exp(*rhs, ids_r);
            lemma_constant(*lhs, ids_l);
            lemma_constant(*rhs, ids_r);
            assert forall|i: int| 0 <= i < ids_l.len() implies !right.values.contains_key(
                #[trigger] ids_l[i],
            ) by {
                if right.values.contains_key(ids_l[i]) {
                    let k = choose|k: int| 0 <= k < ids_r.len() && ids_r[k] == ids_l[i];
                    assert(ids[n + k] == ids[i]);
                }
            }
            assert(holds_lowered(values, *lhs, ids_l)) by {
                assert forall|i: int| 0 <= i < ids_l.len() implies values.contains_key(
                    #[trigger] ids_l[i],
                ) && values[ids_l[i]] == left.values[ids_l[i]] by {
                    assert(ids_l[i] == ids[i]);
                }
            }
            assert(holds_lowered(values, *rhs, ids_r)) by {
                assert forall|i: int| 0 <= i < ids_r.len() implies values.contains_key(
                    #[trigger] ids_r[i],
                ) && values[ids_r[i]] == right.values[ids_r[i]] by {
                    assert(ids_r[i] == ids[n + i]);
                }
            }
            assert(unassigned(state, ids_l)) by {
                assert forall|i: int| 0 <= i < ids_l.len() implies !state.regs.assigned.contains_key(
                    #[trigger] ids_l[i],
                ) by {
                    assert(ids_l[i] == ids[i]);
                }
            }
            assert(!ids_l.contains(v) && !ids_r.contains(v)) by {
                if ids_l.contains(v) {
                    let k = choose|k: int| 0 <= k < ids_l.len() && ids_l[k] == v;
                    assert(ids[k] == v);
                }
                if ids_r.contains(v) {
                    let k = choose|k: int| 0 <= k < ids_r.len() && ids_r[k] == v;
                    assert(ids[n + k] == v);
                }
            }
            assert forall|i: int| 0 <= i < ids_r.len() implies !ids_l.contains(#[trigger] ids_r[i]) by {
                if ids_l.contains(ids_r[i]) {
                    let k = choose|k: int| 0 <= k < ids_l.len() && ids_l[k] == ids_r[i];
                    assert(ids[k] == ids[n + i]);
                }
            }
            lemma_select_exp(*lhs, ids_l, values, state, depth);
            assert(low.insts =~= left.insts + (right.insts + seq![v]));
            lemma_gen_insts_append(values, state, left.insts, right.insts + seq![v], depth);
            match select_exp(*lhs, selection_of(state)) {
                Err(_) => {},
                Ok((sel_l, left_holder)) => {
                    let first = reached(gen_insts(values, state, left.insts, depth))->Ok_0;
                    assert(unassigned(first, ids_r)) by {
                        assert forall|i: int| 0 <= i < ids_r.len() implies !first.regs.assigned.contains_key(
                            #[trigger] ids_r[i],
                        ) by {
                            assert(ids_r[i] == ids[n + i]);
                        }
                    }
                    lemma_select_exp(*rhs, ids_r, values, first, depth);
                    lemma_gen_insts_append(values, first, right.insts, seq![v], depth);
                    match select_exp(*rhs, selection_of(first)) {
                        Err(_) => {},
                        Ok((sel_r, right_holder)) => {
                            let second = reached(gen_insts(values, first, right.insts, depth))->Ok_0;
                            lemma_gen_insts_one(values, second, v, depth);
                            assert(values[v] == low.values[v]);
                            assert(ids_l.last() == left.result);
                            assert(ids_r.last() == right.result);
                            assert(ids_l.contains(left.result)) by {
                                assert(ids_l[n - 1] == left.result);
                            }
                            assert(ids_r.contains(right.result)) by {
                                assert(ids_r[m - 1] == right.result);
                            }
                            lemma_take_operand(
                                *lhs,
                                ids_l,
                                values,
                                second,
                                left_holder,
                                (depth - 1) as nat,
                            );
                            let left_taken = finished(as_operand(
                                gen_value(values, second, left.result, (depth - 1) as nat),
                            ))->Ok_0;
                            lemma_take_operand(
                                *rhs,
                                ids_r,
                                values,
                                left_taken.0,
                                right_holder,
                                (depth - 1) as nat,
                            );
                            let right_taken = finished(as_operand(
                                gen_value(values, left_taken.0, right.result, (depth - 1) as nat),
                            ))->Ok_0;
                            lemma_operation(
                                values,
                                second,
                                v,
                                left_taken.0,
                                left_taken.1,
                                right_taken.0,
                                right_taken.1,
                                depth,
                            );
                            match select_operation(
                                binary_ir_op(binary_op)->0,
                                left_taken.1,
                                right_taken.1,
                                selection_of(right_taken.0),
                            ) {
                                Err(_) => {},
                                Ok(_) => {
                                    let last = finished(gen_value(values, second, v, depth))->Ok_0.0;
                                    assert(only_assigned(state, last, ids)) by {
                                        assert forall|x: Value| #[trigger]
                                            last.regs.assigned.contains_key(
                                                x,
                                            ) implies state.regs.assigned.contains_key(x)
                                            || ids.contains(x) by {
                                            if !state.regs.assigned.contains_key(x) {
                                                if x == v {
                                                    assert(ids[n + m] == x);
                                                } else if ids_l.contains(x) {
                                                    let k = choose|k: int|
                                                        0 <= k < ids_l.len() && ids_l[k] == x;
                                                    assert(ids[k] == x);
                                                } else {
                                                    assert(seq![v].contains(x) || ids_r.contains(
                                                        x,
                                                    ));
                                                    if seq![v].contains(x) {
                                                        let k = choose|k: int|
                                                            0 <= k < seq![v].len() && seq![v][k]
                                                                == x;
                                                    } else {
                                                        let k = choose|k: int|
                                                            0 <= k < ids_r.len() && ids_r[k] == x;
                                                        assert(ids[n + k] == x);
                                                    }
                                                }
                                            }
                                        }
                                    }
                                },
                            }
                        },
                    }
                },
            }
        },
    }
}

/// Registers given in three steps, to values among `inner` and to `last`, are
/// given to values among `ids`, which holds them all.
proof fn lemma_only_assigned(
    state: GenState,
    first: GenState,
    taken: GenState,
    after: GenState,
    ids: Seq<Value>,
    inner: Seq<Value>,
    last: Value,
)
    requires
        only_assigned(state, first, inner),
        only_assigned(first, taken, inner),
        only_assigned(taken, after, seq![last]),
        forall|i: int| 0 <= i < inner.len() ==> ids.contains(#[trigger] inner[i]),
        ids.contains(last),
    ensures
        only_assigned(state, after, ids),
{
    assert forall|x: Value| #[trigger] after.regs.assigned.contains_key(x) implies state.regs.assigned.contains_key(
        x,
    ) || ids.contains(x) by {
        if !state.regs.assigned.contains_key(x) {
            if seq![last].contains(x) {
                let k = choose|k: int| 0 <= k < seq![last].len() && seq![last][k] == x;
            } else {
                assert(inner.contains(x));
                let k = choose|k: int| 0 <= k < inner.len() && inner[k] == x;
                assert(ids.contains(inner[k]));
            }
        }
    }
}

/// The values of a lowered statement are exactly those of its handles.
proof fn lemma_stmt_values(def: FuncDef, ids: Seq<Value>)
    requires
        ids.len() == values_needed(def.block.stmt.exp) + 1,
        ids.no_duplicates(),
    ensures
        lower_stmt(def.block.stmt, ids).values.dom() =~= ids.to_set(),
        lower_stmt(def.block.stmt, ids).values.dom().finite(),
        lower_stmt(def.block.stmt, ids).values.dom().len() == ids.len(),
{
    let stmt = def.block.stmt;
    let n = values_needed(stmt.exp) as int;
    let inner = ids.subrange(0, n);
    let exp = lower_exp(stmt.exp, inner);
    let values = lower_stmt(stmt, ids).values;
    lemma_lower_exp(stmt.exp, inner);
    assert forall|v: Value| values.contains_key(v) <==> ids.to_set().contains(v) by {
        if values.contains_key(v) {
            if v != ids[n] {
                let k = choose|k: int| 0 <= k < inner.len() && inner[k] == v;
                assert(ids[k] == v);
            }
        }
        if ids.to_set().contains(v) {
            let k = choose|k: int| 0 <= k < ids.len() && ids[k] == v;
            if k < n {
                assert(inner[k] == v);
            }
        }
    }
    assert(values.dom() =~= ids.to_set());
    ids.unique_seq_to_set();
    vstd::seq_lib::seq_to_set_is_finite(ids);
}

/// The code that is generated for a lowered function definition is the code
/// that the selection gives for the definition.
pub(crate) proof fn lemma_select_function(
    def: FuncDef,
    func: Function,
    entry: BasicBlock,
    ids: Seq<Value>,
    functions: Map<Function, FunctionModel>,
)
    requires
        def.ident.name@.len() > 0,
        ids.len() == values_needed(def.block.stmt.exp) + 1,
        ids.no_duplicates(),
        functions.contains_key(func),
        functions[func] == lowered_function(def, entry, ids),
    ensures
        match select_function(def) {
            Err(e) => finished(gen_function(functions, func, RegisterMap::empty())) == Err::<
                (RegisterMap, FunctionCode),
                CompileError,
            >(e),
            Ok(code) => finished(gen_function(functions, func, RegisterMap::empty())) matches Ok((_, generated))
                && generated == code,
        },
{
    reveal_strlit("@");
    let stmt = def.block.stmt;
    let model = functions[func];
    let n = values_needed(stmt.exp) as int;
    let inner = ids.subrange(0, n);
    let ret = ids[n];
    let exp = lower_exp(stmt.exp, inner);
    let values = model.values;
    let depth = values.dom().len();
    let start = GenState { regs: RegisterMap::empty(), code: Seq::empty() };
    lemma_stmt_values(def, ids);
    lemma_lower_exp(stmt.exp, inner);
    lemma_constant(stmt.exp, inner);
    assert(model.name.skip(1) =~= def.ident.name@);
    assert(!inner.contains(ret)) by {
        if inner.contains(ret) {
            let k = choose|k: int| 0 <= k < inner.len() && inner[k] == ret;
            assert(ids[k] == ret);
        }
    }
    assert(holds_lowered(values, stmt.exp, inner)) by {
        assert forall|i: int| 0 <= i < inner.len() implies values.contains_key(#[trigger] inner[i])
            && values[inner[i]] == exp.values[inner[i]] by {
            assert(inner[i] == ids[i]);
        }
    }
    lemma_select_exp(stmt.exp, inner, values, start, depth);
    let insts = lower_stmt(stmt, ids).insts;
    assert(insts =~= exp.insts + seq![ret]);
    lemma_gen_insts_append(values, start, exp.insts, seq![ret], depth);
    assert(model.layout.first().insts == insts);
    assert(model.layout.drop_first() =~= Seq::<BlockModel>::empty());
    match select_exp(stmt.exp, selection_of(start)) {
        Err(_) => {},
        Ok((sel, holder)) => {
            let first = reached(gen_insts(values, start, exp.insts, depth))->Ok_0;
            lemma_gen_insts_one(values, first, ret, depth);
            assert(!first.regs.assigned.contains_key(ret));
            if exp.insts.len() > 0 {
                assert(inner.last() == exp.result);
                assert(values[ret].kind == ValueKind::Return { operand: Some(exp.result) });
                assert(finished(gen_value(values, first, exp.result, (depth - 1) as nat)) == Ok::<
                    (GenState, Option<Reg>),
                    CompileError,
                >((first, holder)));
            } else {
                assert(values[ret].kind == ValueKind::Return { operand: None });
            }
            let last = finished(gen_value(values, first, ret, depth))->Ok_0.0;
            assert(reached(gen_blocks(values, last, model.layout.drop_first(), depth)) == Ok::<
                GenState,
                CompileError,
            >(last));
        },
    }
}

} // verus!
