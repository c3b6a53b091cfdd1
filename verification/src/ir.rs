//! The builder of the intermediate program: from the syntax tree to values,
//! instructions, a basic block and a function.
//!
//! Lowering an expression gives the value that stands for it and the list of
//! the instructions that compute it, in evaluation order. Constants are values
//! but no instructions. What is built is stated by the spec functions of this
//! module as a function of the tree and of the handles that the program gives
//! to the new values; the executable functions are proved to build exactly
//! that, for some choice of handles that were never used before.

pub mod laws;

use crate::ast::{BinaryOp, Block, CompUnit, Exp, FuncDef, Number, Stmt, UnaryOp};
use crate::ir::laws::{lemma_lower_exp, lemma_lower_stmt};
use crate::error::CompileError;
use crate::program::{
    empty_program, extend_insts, extend_unique, func_type_tag,
    function_replaced, has_block, new_binary, new_block, new_function, new_integer, new_return,
    program_functions, program_layout, push_block, BlockModel, FunctionModel, IrOp,
    TypeTag, ValueKind, ValueModel,
};
use koopa::ir::{BasicBlock, Function, Program, Value};
use vstd::prelude::*;

verus! {

/// The binary operator by which a unary operator is expressed, with zero as
/// the left operand, or `None` where there is none: `-e` is `0 - e`, `!e` is
/// `0 == e`, and `+e` is `e` itself, for which no operation is built.
pub open spec fn unary_ir_op(op: UnaryOp) -> Option<IrOp> {
    match op {
        UnaryOp::Plus => None,
        UnaryOp::Minus => Some(IrOp::Sub),
        UnaryOp::Not => Some(IrOp::Eq),
    }
}

/// The operator of the intermediate program for a source operator, or `None`
/// where there is none.
pub open spec fn binary_ir_op(op: BinaryOp) -> Option<IrOp> {
    match op {
        BinaryOp::Add => Some(IrOp::Add),
        BinaryOp::Sub => Some(IrOp::Sub),
        BinaryOp::Mul => Some(IrOp::Mul),
        BinaryOp::Div => Some(IrOp::Div),
        BinaryOp::Mod => Some(IrOp::Mod),
        BinaryOp::Less => Some(IrOp::Lt),
        BinaryOp::Greater => Some(IrOp::Gt),
        BinaryOp::LessEqual => Some(IrOp::Le),
        BinaryOp::GreaterEqual => Some(IrOp::Ge),
        BinaryOp::Equal => Some(IrOp::Eq),
        BinaryOp::NotEqual => Some(IrOp::NotEq),
        BinaryOp::And => Some(IrOp::And),
        BinaryOp::Or => Some(IrOp::Or),
        BinaryOp::ShiftLeft => None,
        BinaryOp::ShiftRight => None,
    }
}

impl From<&UnaryOp> for Option<IrOp> {
    fn from(value: &UnaryOp) -> (op: Option<IrOp>) {
        match value {
            UnaryOp::Plus => None,
            UnaryOp::Minus => Some(IrOp::Sub),
            UnaryOp::Not => Some(IrOp::Eq),
        }
    }
}

impl vstd::std_specs::convert::FromSpecImpl<&UnaryOp> for Option<IrOp> {
    open spec fn obeys_from_spec() -> bool {
        true
    }

    open spec fn from_spec(value: &UnaryOp) -> Option<IrOp> {
        unary_ir_op(*value)
    }
}

impl TryFrom<&BinaryOp> for IrOp {
    type Error = ();

    fn try_from(value: &BinaryOp) -> (op: Result<IrOp, ()>) {
        match value {
            BinaryOp::Add => Ok(IrOp::Add),
            BinaryOp::Sub => Ok(IrOp::Sub),
            BinaryOp::Mul => Ok(IrOp::Mul),
            BinaryOp::Div => Ok(IrOp::Div),
            BinaryOp::Mod => Ok(IrOp::Mod),
            BinaryOp::Less => Ok(IrOp::Lt),
            BinaryOp::Greater => Ok(IrOp::Gt),
            BinaryOp::LessEqual => Ok(IrOp::Le),
            BinaryOp::GreaterEqual => Ok(IrOp::Ge),
            BinaryOp::Equal => Ok(IrOp::Eq),
            BinaryOp::NotEqual => Ok(IrOp::NotEq),
            BinaryOp::And => Ok(IrOp::And),
            BinaryOp::Or => Ok(IrOp::Or),
            _ => Err(()),
        }
    }
}

impl vstd::std_specs::convert::TryFromSpecImpl<&BinaryOp> for IrOp {
    open spec fn obeys_try_from_spec() -> bool {
        true
    }

    open spec fn try_from_spec(value: &BinaryOp) -> Result<IrOp, ()> {
        match binary_ir_op(*value) {
            Some(op) => Ok(op),
            None => Err(()),
        }
    }
}

/// An integer constant as the data-flow graph records it.
pub open spec fn integer_model(n: i32) -> ValueModel {
    ValueModel { kind: ValueKind::Integer(n), ty: TypeTag::Int32 }
}

/// A binary operation as the data-flow graph records it.
pub open spec fn binary_model(op: IrOp, lhs: Value, rhs: Value) -> ValueModel {
    ValueModel { kind: ValueKind::Binary { op, lhs, rhs }, ty: TypeTag::Int32 }
}

/// A return as the data-flow graph records it.
pub open spec fn return_model(operand: Option<Value>) -> ValueModel {
    ValueModel { kind: ValueKind::Return { operand }, ty: TypeTag::Unit }
}

/// What lowering an expression adds to a function.
pub struct Lowered {
    /// The new values, by handle.
    pub values: Map<Value, ValueModel>,
    /// The value that stands for the expression.
    pub result: Value,
    /// The instructions that compute the result, in evaluation order.
    pub insts: Seq<Value>,
}

/// What lowering a statement adds to a function.
pub struct LoweredStmt {
    /// The new values, by handle.
    pub values: Map<Value, ValueModel>,
    /// The instructions of the statement, in execution order.
    pub insts: Seq<Value>,
}

/// The number of values that lowering an expression creates: one for a
/// literal, none for a unary plus, a zero and an operation for another unary
/// operator, one for a binary operator.
pub open spec fn values_needed(e: Exp) -> nat
    decreases e,
{
    match e {
        Exp::Number { value } => 1,
        Exp::UnaryExp { unary_op, exp } => if unary_ir_op(unary_op) is None {
            values_needed(*exp)
        } else {
            values_needed(*exp) + 2
        },
        Exp::BinaryExp { binary_op, lhs, rhs } => values_needed(*lhs) + values_needed(*rhs) + 1,
    }
}

/// The first binary operator without a lowering that the evaluation of an
/// expression meets: left operand, right operand, then the operator itself.
pub open spec fn first_untranslatable(e: Exp) -> Option<BinaryOp>
    decreases e,
{
    match e {
        Exp::Number { value } => None,
        Exp::UnaryExp { unary_op, exp } => first_untranslatable(*exp),
        Exp::BinaryExp { binary_op, lhs, rhs } => {
            if first_untranslatable(*lhs) is Some {
                first_untranslatable(*lhs)
            } else if first_untranslatable(*rhs) is Some {
                first_untranslatable(*rhs)
            } else if binary_ir_op(binary_op) is None {
                Some(binary_op)
            } else {
                None
            }
        },
    }
}

/// Lowering an expression, where `ids` are the handles of the new values in
/// the order of their creation.
///
/// A literal is one constant and no instruction. A unary plus is its operand.
/// Another unary operator is its operand, a constant zero, and one operation
/// on zero and the operand's result. A binary operator is its left operand,
/// its right operand, and one operation on their results. The operation is the
/// result and the last instruction.
pub open spec fn lower_exp(e: Exp, ids: Seq<Value>) -> Lowered
    decreases e,
{
    match e {
        Exp::Number { value } => Lowered {
            values: Map::empty().insert(ids[0], integer_model(value.value)),
            result: ids[0],
            insts: Seq::empty(),
        },
        Exp::UnaryExp { unary_op, exp } => if unary_ir_op(unary_op) is None {
            lower_exp(*exp, ids)
        } else {
            let n = values_needed(*exp) as int;
            let operand = lower_exp(*exp, ids.subrange(0, n));
            Lowered {
                values: operand.values.insert(ids[n], integer_model(0)).insert(
                    ids[n + 1],
                    binary_model(unary_ir_op(unary_op)->0, ids[n], operand.result),
                ),
                result: ids[n + 1],
                insts: operand.insts.push(ids[n + 1]),
            }
        },
        Exp::BinaryExp { binary_op, lhs, rhs } => {
            let n = values_needed(*lhs) as int;
            let m = values_needed(*rhs) as int;
            let left = lower_exp(*lhs, ids.subrange(0, n));
            let right = lower_exp(*rhs, ids.subrange(n, n + m));
            Lowered {
                values: left.values.union_prefer_right(right.values).insert(
                    ids[n + m],
                    binary_model(binary_ir_op(binary_op)->0, left.result, right.result),
                ),
                result: ids[n + m],
                insts: left.insts + right.insts + seq![ids[n + m]],
            }
        },
    }
}

/// Lowering a return statement, where `ids` are the handles of the new values
/// in the order of their creation: the expression, then one return whose
/// operand is the last instruction of the expression, if it has any.
pub open spec fn lower_stmt(stmt: Stmt, ids: Seq<Value>) -> LoweredStmt {
    let n = values_needed(stmt.exp) as int;
    let exp = lower_exp(stmt.exp, ids.subrange(0, n));
    let operand = if exp.insts.len() > 0 {
        Some(exp.insts.last())
    } else {
        None
    };
    LoweredStmt { values: exp.values.insert(ids[n], return_model(operand)), insts: exp.insts.push(ids[n]) }
}

/// Handles that differ from each other and from every handle of `values`.
pub open spec fn fresh_ids(ids: Seq<Value>, values: Map<Value, ValueModel>) -> bool {
    &&& ids.no_duplicates()
    &&& forall|i: int| 0 <= i < ids.len() ==> !values.contains_key(#[trigger] ids[i])
}

/// Whether `after` is `before` with the values of function `func` extended by
/// `added` and nothing else changed.
pub open spec fn values_added(
    before: Program,
    after: Program,
    func: Function,
    added: Map<Value, ValueModel>,
) -> bool {
    function_replaced(
        before,
        after,
        func,
        FunctionModel {
            values: program_functions(before)[func].values.union_prefer_right(added),
            ..program_functions(before)[func]
        },
    )
}

/// Whether `after` is `before` with expression `e` lowered into function
/// `func` under the handles `ids`, with the given result and instructions.
pub open spec fn exp_lowered_with(
    before: Program,
    after: Program,
    func: Function,
    e: Exp,
    ids: Seq<Value>,
    value: Value,
    insts: Seq<Value>,
) -> bool {
    &&& ids.len() == values_needed(e)
    &&& fresh_ids(ids, program_functions(before)[func].values)
    &&& values_added(before, after, func, lower_exp(e, ids).values)
    &&& value == lower_exp(e, ids).result
    &&& insts == lower_exp(e, ids).insts
}

/// Whether `after` is `before` with expression `e` lowered into function
/// `func` under handles that `before` did not use.
pub open spec fn exp_lowered(
    before: Program,
    after: Program,
    func: Function,
    e: Exp,
    value: Value,
    insts: Seq<Value>,
) -> bool {
    exists|ids: Seq<Value>| exp_lowered_with(before, after, func, e, ids, value, insts)
}

/// Whether `after` is `before` with statement `stmt` lowered into function
/// `func` under the handles `ids`, with the given instructions.
pub open spec fn stmt_lowered_with(
    before: Program,
    after: Program,
    func: Function,
    stmt: Stmt,
    ids: Seq<Value>,
    insts: Seq<Value>,
) -> bool {
    &&& ids.len() == values_needed(stmt.exp) + 1
    &&& fresh_ids(ids, program_functions(before)[func].values)
    &&& values_added(before, after, func, lower_stmt(stmt, ids).values)
    &&& insts == lower_stmt(stmt, ids).insts
}

/// Whether `after` is `before` with statement `stmt` lowered into function
/// `func` under handles that `before` did not use.
pub open spec fn stmt_lowered(
    before: Program,
    after: Program,
    func: Function,
    stmt: Stmt,
    insts: Seq<Value>,
) -> bool {
    exists|ids: Seq<Value>| stmt_lowered_with(before, after, func, stmt, ids, insts)
}

/// Two extensions of a function's values in a row are one extension by both.
proof fn lemma_values_added_twice(
    first: Program,
    second: Program,
    third: Program,
    func: Function,
    added: Map<Value, ValueModel>,
    more: Map<Value, ValueModel>,
)
    requires
        program_functions(first).contains_key(func),
        values_added(first, second, func, added),
        values_added(second, third, func, more),
    ensures
        values_added(first, third, func, added.union_prefer_right(more)),
{
    let v0 = program_functions(first)[func].values;
    assert(v0.union_prefer_right(added).union_prefer_right(more) =~= v0.union_prefer_right(
        added.union_prefer_right(more),
    ));
    assert(program_functions(third) =~= program_functions(first).insert(
        func,
        FunctionModel {
            values: v0.union_prefer_right(added.union_prefer_right(more)),
            ..program_functions(first)[func]
        },
    ));
}

/// The insertion of one new value is an extension by that value.
proof fn lemma_value_inserted(
    before: Program,
    after: Program,
    func: Function,
    value: Value,
    model: ValueModel,
)
    requires
        program_functions(before).contains_key(func),
        function_replaced(
            before,
            after,
            func,
            FunctionModel {
                values: program_functions(before)[func].values.insert(value, model),
                ..program_functions(before)[func]
            },
        ),
    ensures
        values_added(before, after, func, Map::empty().insert(value, model)),
{
    let v0 = program_functions(before)[func].values;
    assert(v0.insert(value, model) =~= v0.union_prefer_right(Map::empty().insert(value, model)));
}

/// Handles that were fresh one after the other are fresh together.
proof fn lemma_fresh_ids_joined(
    values: Map<Value, ValueModel>,
    first: Seq<Value>,
    added: Map<Value, ValueModel>,
    second: Seq<Value>,
)
    requires
        fresh_ids(first, values),
        forall|i: int| 0 <= i < first.len() ==> added.contains_key(#[trigger] first[i]),
        fresh_ids(second, values.union_prefer_right(added)),
    ensures
        fresh_ids(first + second, values),
{
    let both = first + second;
    assert forall|i: int, j: int| 0 <= i < both.len() && 0 <= j < both.len() && i != j implies both[i]
        != both[j] by {
        if i < first.len() && j >= first.len() {
            assert(added.contains_key(first[i]));
            assert(!values.union_prefer_right(added).contains_key(second[j - first.len()]));
        }
        if j < first.len() && i >= first.len() {
            assert(added.contains_key(first[j]));
            assert(!values.union_prefer_right(added).contains_key(second[i - first.len()]));
        }
    }
    assert forall|i: int| 0 <= i < both.len() implies !values.contains_key(#[trigger] both[i]) by {
        if i >= first.len() {
            assert(!values.union_prefer_right(added).contains_key(second[i - first.len()]));
        }
    }
}

/// Whether `after` is `before` with function `func` grown: it holds the
/// values and basic blocks that it held, unchanged, and perhaps more of them.
/// Its name, signature and layout, the other functions and the layout of the
/// program are as before.
pub open spec fn function_grown(before: Program, after: Program, func: Function) -> bool {
    &&& program_layout(after) == program_layout(before)
    &&& program_functions(after).contains_key(func)
    &&& program_functions(after) == program_functions(before).insert(
        func,
        program_functions(after)[func],
    )
    &&& program_functions(after)[func].name == program_functions(before)[func].name
    &&& program_functions(after)[func].params == program_functions(before)[func].params
    &&& program_functions(after)[func].ret == program_functions(before)[func].ret
    &&& program_functions(after)[func].linked == program_functions(before)[func].linked
    &&& program_functions(after)[func].layout == program_functions(before)[func].layout
    &&& program_functions(before)[func].values.submap_of(program_functions(after)[func].values)
    &&& program_functions(before)[func].block_names.submap_of(
        program_functions(after)[func].block_names,
    )
}

/// Whether `after` holds every function that `before` held, unchanged, and
/// lists the functions of `before` first, in their order.
pub open spec fn functions_kept(before: Program, after: Program) -> bool {
    &&& program_layout(before).is_prefix_of(program_layout(after))
    &&& program_functions(before).submap_of(program_functions(after))
}

/// A program is its own function grown by nothing.
proof fn lemma_grown_by_nothing(program: Program, func: Function)
    requires
        program_functions(program).contains_key(func),
    ensures
        function_grown(program, program, func),
{
    assert(program_functions(program) =~= program_functions(program).insert(
        func,
        program_functions(program)[func],
    ));
}

/// Growing twice is growing.
proof fn lemma_grown_twice(first: Program, second: Program, third: Program, func: Function)
    requires
        function_grown(first, second, func),
        function_grown(second, third, func),
    ensures
        function_grown(first, third, func),
{
    let a = program_functions(first)[func];
    let b = program_functions(second)[func];
    let c = program_functions(third)[func];
    assert(program_functions(third) =~= program_functions(first).insert(func, c));
    assert(a.values.submap_of(c.values)) by {
        assert forall|k: Value| #[trigger] a.values.dom().contains(k) implies c.values.dom().contains(
            k,
        ) && a.values[k] == c.values[k] by {
            assert(b.values.dom().contains(k));
        }
    }
    assert(a.block_names.submap_of(c.block_names)) by {
        assert forall|k: BasicBlock| #[trigger]
            a.block_names.dom().contains(k) implies c.block_names.dom().contains(k)
            && a.block_names[k] == c.block_names[k] by {
            assert(b.block_names.dom().contains(k));
        }
    }
}

/// The insertion of one value under an unused handle grows the function.
proof fn lemma_grown_by_value(
    before: Program,
    after: Program,
    func: Function,
    value: Value,
    model: ValueModel,
)
    requires
        program_functions(before).contains_key(func),
        !program_functions(before)[func].values.contains_key(value),
        function_replaced(
            before,
            after,
            func,
            FunctionModel {
                values: program_functions(before)[func].values.insert(value, model),
                ..program_functions(before)[func]
            },
        ),
    ensures
        function_grown(before, after, func),
{
}

/// The declaration of one basic block under an unused handle grows the
/// function.
proof fn lemma_grown_by_block(
    before: Program,
    after: Program,
    func: Function,
    bb: BasicBlock,
    name: Option<Seq<char>>,
)
    requires
        program_functions(before).contains_key(func),
        !program_functions(before)[func].block_names.contains_key(bb),
        function_replaced(
            before,
            after,
            func,
            FunctionModel {
                block_names: program_functions(before)[func].block_names.insert(bb, name),
                ..program_functions(before)[func]
            },
        ),
    ensures
        function_grown(before, after, func),
{
}

/// A function that is new in a program, and grown since, leaves the functions
/// that the program held before as they were.
proof fn lemma_kept_beside(first: Program, second: Program, third: Program, func: Function)
    requires
        functions_kept(first, second),
        !program_functions(first).contains_key(func),
        function_grown(second, third, func),
    ensures
        functions_kept(first, third),
{
}

impl Number {
    /// Lowers a literal to one integer constant of the function.
    pub fn koopa_append(&self, program: &mut Program, func: Function) -> (value: Value)
        requires
            program_functions(*old(program)).contains_key(func),
        ensures
            !program_functions(*old(program))[func].values.contains_key(value),
            values_added(
                *old(program),
                *final(program),
                func,
                Map::empty().insert(value, integer_model(self.value)),
            ),
            function_grown(*old(program), *final(program), func),
    {
        let ghost before = *program;
        let value = new_integer(program, func, self.value);
        proof {
            lemma_value_inserted(before, *program, func, value, integer_model(self.value));
            lemma_grown_by_value(before, *program, func, value, integer_model(self.value));
        }
        value
    }
}

/// After both operands of a binary expression were lowered, their results
/// are values of type `i32` of the function, which is as connected as before.
proof fn lemma_operands_lowered(
    start: Program,
    second: Program,
    third: Program,
    func: Function,
    e: Exp,
    ids_l: Seq<Value>,
    ids_r: Seq<Value>,
    left: (Value, Seq<Value>),
    right: (Value, Seq<Value>),
)
    requires
        e is BinaryExp,
        program_functions(start).contains_key(func),
        exp_lowered_with(start, second, func, *e->lhs, ids_l, left.0, left.1),
        exp_lowered_with(second, third, func, *e->rhs, ids_r, right.0, right.1),
    ensures
        program_functions(third).contains_key(func),
        program_functions(third)[func].linked == program_functions(start)[func].linked,
        program_functions(third)[func].values.contains_key(left.0),
        program_functions(third)[func].values[left.0].ty == TypeTag::Int32,
        program_functions(third)[func].values.contains_key(right.0),
        program_functions(third)[func].values[right.0].ty == TypeTag::Int32,
{
    let lowered_left = lower_exp(*e->lhs, ids_l);
    let lowered_right = lower_exp(*e->rhs, ids_r);
    lemma_lower_exp(*e->lhs, ids_l);
    lemma_lower_exp(*e->rhs, ids_r);
    assert(lowered_left.values.contains_key(left.0));
    assert(lowered_right.values.contains_key(right.0));
    assert(!lowered_right.values.contains_key(left.0)) by {
        if lowered_right.values.contains_key(left.0) {
            let k = choose|k: int| 0 <= k < ids_r.len() && ids_r[k] == left.0;
            assert(!program_functions(second)[func].values.contains_key(ids_r[k]));
        }
    }
}

/// A binary expression is lowered once its operands were lowered one after
/// the other and one operation on their results was added under a new handle.
proof fn lemma_binary_lowered(
    start: Program,
    second: Program,
    third: Program,
    last: Program,
    func: Function,
    e: Exp,
    ids_l: Seq<Value>,
    ids_r: Seq<Value>,
    left: (Value, Seq<Value>),
    right: (Value, Seq<Value>),
    value: Value,
)
    requires
        e is BinaryExp,
        program_functions(start).contains_key(func),
        exp_lowered_with(start, second, func, *e->lhs, ids_l, left.0, left.1),
        exp_lowered_with(second, third, func, *e->rhs, ids_r, right.0, right.1),
        !program_functions(third)[func].values.contains_key(value),
        function_replaced(
            third,
            last,
            func,
            FunctionModel {
                values: program_functions(third)[func].values.insert(
                    value,
                    binary_model(binary_ir_op(e->binary_op)->0, left.0, right.0),
                ),
                ..program_functions(third)[func]
            },
        ),
    ensures
        exp_lowered_with(
            start,
            last,
            func,
            e,
            ids_l + ids_r + seq![value],
            value,
            left.1 + right.1 + seq![value],
        ),
{
    let lowered_left = lower_exp(*e->lhs, ids_l);
    let lowered_right = lower_exp(*e->rhs, ids_r);
    let ids = ids_l + ids_r + seq![value];
    let n = values_needed(*e->lhs) as int;
    let m = values_needed(*e->rhs) as int;
    let model = binary_model(binary_ir_op(e->binary_op)->0, left.0, right.0);
    let head = Map::<Value, ValueModel>::empty().insert(value, model);
    let both = lowered_left.values.union_prefer_right(lowered_right.values);
    lemma_lower_exp(*e->lhs, ids_l);
    lemma_lower_exp(*e->rhs, ids_r);
    lemma_operands_lowered(start, second, third, func, e, ids_l, ids_r, left, right);
    lemma_values_added_twice(
        start,
        second,
        third,
        func,
        lowered_left.values,
        lowered_right.values,
    );
    lemma_value_inserted(third, last, func, value, model);
    lemma_values_added_twice(start, third, last, func, both, head);
    assert(ids.subrange(0, n) =~= ids_l);
    assert(ids.subrange(n, n + m) =~= ids_r);
    assert(ids[n + m] == value);
    assert(lower_exp(e, ids).values =~= both.union_prefer_right(head));
    lemma_fresh_ids_joined(
        program_functions(start)[func].values,
        ids_l,
        lowered_left.values,
        ids_r,
    );
    assert forall|i: int| 0 <= i < (ids_l + ids_r).len() implies both.contains_key(
        #[trigger] (ids_l + ids_r)[i],
    ) by {
        if i < ids_l.len() {
            assert(lowered_left.values.contains_key(ids_l[i]));
        } else {
            assert(lowered_right.values.contains_key(ids_r[i - ids_l.len()]));
        }
    }
    lemma_fresh_ids_joined(program_functions(start)[func].values, ids_l + ids_r, both, seq![value]);
}

/// A unary minus or negation is lowered once its operand was lowered, a zero
/// was added, and one operation on the zero and the operand's result was
/// added, each under a new handle.
proof fn lemma_unary_lowered(
    start: Program,
    second: Program,
    third: Program,
    last: Program,
    func: Function,
    e: Exp,
    inner: Seq<Value>,
    operand: (Value, Seq<Value>),
    zero: Value,
    value: Value,
)
    requires
        e is UnaryExp,
        unary_ir_op(e->unary_op) is Some,
        program_functions(start).contains_key(func),
        exp_lowered_with(start, second, func, *e->exp, inner, operand.0, operand.1),
        !program_functions(second)[func].values.contains_key(zero),
        function_replaced(
            second,
            third,
            func,
            FunctionModel {
                values: program_functions(second)[func].values.insert(zero, integer_model(0)),
                ..program_functions(second)[func]
            },
        ),
        !program_functions(third)[func].values.contains_key(value),
        function_replaced(
            third,
            last,
            func,
            FunctionModel {
                values: program_functions(third)[func].values.insert(
                    value,
                    binary_model(unary_ir_op(e->unary_op)->0, zero, operand.0),
                ),
                ..program_functions(third)[func]
            },
        ),
    ensures
        exp_lowered_with(
            start,
            last,
            func,
            e,
            inner + seq![zero, value],
            value,
            operand.1.push(value),
        ),
{
    let lowered = lower_exp(*e->exp, inner);
    let ids = inner + seq![zero, value];
    let n = values_needed(*e->exp) as int;
    let model = binary_model(unary_ir_op(e->unary_op)->0, zero, operand.0);
    let tail = Map::<Value, ValueModel>::empty().insert(zero, integer_model(0));
    let head = Map::<Value, ValueModel>::empty().insert(value, model);
    lemma_lower_exp(*e->exp, inner);
    lemma_value_inserted(second, third, func, zero, integer_model(0));
    lemma_value_inserted(third, last, func, value, model);
    lemma_values_added_twice(start, second, third, func, lowered.values, tail);
    lemma_values_added_twice(
        start,
        third,
        last,
        func,
        lowered.values.union_prefer_right(tail),
        head,
    );
    assert(ids.subrange(0, n) =~= inner);
    assert(ids[n] == zero && ids[n + 1] == value);
    assert(lower_exp(e, ids).values =~= lowered.values.union_prefer_right(
        tail,
    ).union_prefer_right(head));
    lemma_fresh_ids_joined(program_functions(start)[func].values, inner, lowered.values, seq![zero]);
    assert forall|i: int| 0 <= i < (inner + seq![zero]).len() implies lowered.values.union_prefer_right(
        tail,
    ).contains_key(#[trigger] (inner + seq![zero])[i]) by {
        if i < inner.len() {
            assert(lowered.values.contains_key(inner[i]));
        }
    }
    lemma_fresh_ids_joined(
        program_functions(start)[func].values,
        inner + seq![zero],
        lowered.values.union_prefer_right(tail),
        seq![value],
    );
    assert(inner + seq![zero] + seq![value] =~= ids);
}

impl Exp {
    /// Lowers an expression into a function of the program: returns the value
    /// that stands for the expression and the instructions that compute it,
    /// in evaluation order.
    ///
    /// The left operand of a binary operator is lowered before the right one.
    /// The first binary operator without a lowering stops the work with an
    /// error. Whatever the outcome, the function holds what it held before,
    /// and nothing else in the program has changed.
    ///
    /// The function calls itself as deep as the expression is nested.
    pub fn koopa_append(&self, program: &mut Program, func: Function) -> (result: Result<
        (Value, Vec<Value>),
        CompileError,
    >)
        requires
            program_functions(*old(program)).contains_key(func),
            program_functions(*old(program))[func].linked,
        ensures
            match first_untranslatable(*self) {
                Some(op) => result matches Err(e) && e == CompileError::UntranslatableOperator(op),
                None => result matches Ok((value, insts)) && exp_lowered(
                    *old(program),
                    *final(program),
                    func,
                    *self,
                    value,
                    insts@,
                ),
            },
            function_grown(*old(program), *final(program), func),
        decreases self,
    {
        let ghost start = *program;
        match self {
            Exp::Number { value } => {
                let v = value.koopa_append(program, func);
                let insts: Vec<Value> = Vec::new();
                proof {
                    assert(lower_exp(*self, seq![v]).values =~= Map::empty().insert(
                        v,
                        integer_model(value.value),
                    ));
                    assert(exp_lowered_with(start, *program, func, *self, seq![v], v, insts@));
                }
                Ok((v, insts))
            },
            Exp::UnaryExp { unary_op, exp } => {
                let op = match Option::<IrOp>::from(unary_op) {
                    Some(op) => op,
                    None => {
                        let result = exp.koopa_append(program, func);
                        proof {
                            if result is Ok {
                                let value = result->Ok_0.0;
                                let insts = result->Ok_0.1@;
                                let ids = choose|ids: Seq<Value>|
                                    exp_lowered_with(start, *program, func, **exp, ids, value, insts);
                                assert(exp_lowered_with(
                                    start,
                                    *program,
                                    func,
                                    *self,
                                    ids,
                                    value,
                                    insts,
                                ));
                            }
                        }
                        return result;
                    },
                };
                let (value, mut insts) = match exp.koopa_append(program, func) {
                    Ok(lowered) => lowered,
                    Err(e) => {
                        return Err(e);
                    },
                };
                let ghost second = *program;
                let ghost operand = (value, insts@);
                let ghost inner = choose|ids: Seq<Value>|
                    exp_lowered_with(start, second, func, **exp, ids, value, insts@);
                let zero = new_integer(program, func, 0);
                let ghost third = *program;
                proof {
                    lemma_lower_exp(**exp, inner);
                }
                let v = new_binary(program, func, op, zero, value);
                insts.push(v);
                proof {
                    lemma_unary_lowered(
                        start,
                        second,
                        third,
                        *program,
                        func,
                        *self,
                        inner,
                        operand,
                        zero,
                        v,
                    );
                    lemma_grown_by_value(second, third, func, zero, integer_model(0));
                    lemma_grown_by_value(third, *program, func, v, binary_model(op, zero, value));
                    lemma_grown_twice(start, second, third, func);
                    lemma_grown_twice(start, third, *program, func);
                }
                Ok((v, insts))
            },
            Exp::BinaryExp { binary_op, lhs, rhs } => {
                let (lhs_value, mut lhs_insts) = match lhs.koopa_append(program, func) {
                    Ok(lowered) => lowered,
                    Err(e) => {
                        return Err(e);
                    },
                };
                let ghost second = *program;
                let ghost left = (lhs_value, lhs_insts@);
                let ghost ids_l = choose|ids: Seq<Value>|
                    exp_lowered_with(start, second, func, **lhs, ids, lhs_value, lhs_insts@);
                let outcome = rhs.koopa_append(program, func);
                let ghost third = *program;
                proof {
                    lemma_grown_twice(start, second, third, func);
                }
                let (rhs_value, mut rhs_insts) = match outcome {
                    Ok(lowered) => lowered,
                    Err(e) => {
                        return Err(e);
                    },
                };
                let ghost right = (rhs_value, rhs_insts@);
                let ghost ids_r = choose|ids: Seq<Value>|
                    exp_lowered_with(second, third, func, **rhs, ids, rhs_value, rhs_insts@);
                let op = match IrOp::try_from(binary_op) {
                    Ok(op) => op,
                    Err(_) => {
                        return Err(CompileError::UntranslatableOperator(*binary_op));
                    },
                };
                proof {
                    lemma_operands_lowered(start, second, third, func, *self, ids_l, ids_r, left, right);
                }
                let v = new_binary(program, func, op, lhs_value, rhs_value);
                lhs_insts.append(&mut rhs_insts);
                lhs_insts.push(v);
                proof {
                    lemma_binary_lowered(
                        start,
                        second,
                        third,
                        *program,
                        func,
                        *self,
                        ids_l,
                        ids_r,
                        left,
                        right,
                        v,
                    );
                    assert(lhs_insts@ =~= left.1 + right.1 + seq![v]);
                    lemma_grown_by_value(
                        third,
                        *program,
                        func,
                        v,
                        binary_model(op, lhs_value, rhs_value),
                    );
                    lemma_grown_twice(start, third, *program, func);
                }
                Ok((v, lhs_insts))
            },
        }
    }
}

/// Appending keys that differ from each other to an empty list gives the
/// keys.
proof fn lemma_extend_unique_fresh(keys: Seq<Value>)
    requires
        keys.no_duplicates(),
    ensures
        extend_unique(Seq::empty(), keys) == keys,
    decreases keys.len(),
{
    if keys.len() > 0 {
        lemma_extend_unique_fresh(keys.drop_last());
        assert(!keys.drop_last().contains(keys.last()));
        assert(keys.drop_last().push(keys.last()) =~= keys);
    } else {
        assert(keys =~= Seq::empty());
    }
}

impl Stmt {
    /// Lowers a return statement into a function of the program: returns the
    /// instructions of its expression followed by one return, whose operand
    /// is the last instruction of the expression, if it has any. Whatever the
    /// outcome, the function holds what it held before, and nothing else in
    /// the program has changed.
    pub fn koopa_append(&self, program: &mut Program, func: Function) -> (result: Result<
        Vec<Value>,
        CompileError,
    >)
        requires
            program_functions(*old(program)).contains_key(func),
            program_functions(*old(program))[func].linked,
        ensures
            match first_untranslatable(self.exp) {
                Some(op) => result matches Err(e) && e == CompileError::UntranslatableOperator(op),
                None => result matches Ok(insts) && stmt_lowered(
                    *old(program),
                    *final(program),
                    func,
                    *self,
                    insts@,
                ),
            },
            function_grown(*old(program), *final(program), func),
    {
        let ghost start = *program;
        let (value, mut insts) = match self.exp.koopa_append(program, func) {
            Ok(lowered) => lowered,
            Err(e) => {
                return Err(e);
            },
        };
        let ghost inner = choose|ids: Seq<Value>|
            exp_lowered_with(start, *program, func, self.exp, ids, value, insts@);
        let ghost exp = lower_exp(self.exp, inner);
        let ghost second = *program;
        proof {
            lemma_lower_exp(self.exp, inner);
        }
        let operand = if insts.len() > 0 {
            Some(insts[insts.len() - 1])
        } else {
            None
        };
        let ret = new_return(program, func, operand);
        insts.push(ret);
        proof {
            let ids = inner + seq![ret];
            let n = values_needed(self.exp) as int;
            let tail = Map::<Value, ValueModel>::empty().insert(ret, return_model(operand));
            lemma_value_inserted(second, *program, func, ret, return_model(operand));
            lemma_values_added_twice(start, second, *program, func, exp.values, tail);
            assert(ids.subrange(0, n) =~= inner);
            assert(ids[n] == ret);
            assert(lower_stmt(*self, ids).values =~= exp.values.union_prefer_right(tail));
            lemma_fresh_ids_joined(
                program_functions(start)[func].values,
                inner,
                exp.values,
                seq![ret],
            );
            assert(stmt_lowered_with(start, *program, func, *self, ids, insts@));
            lemma_grown_by_value(second, *program, func, ret, return_model(operand));
            lemma_grown_twice(start, second, *program, func);
        }
        Ok(insts)
    }
}

/// Whether `after` is `before` with block `block` lowered into function
/// `func` as the basic block `entry`, under the handles `ids`, with the given
/// instructions. The layout of the function is as before.
pub open spec fn block_lowered_with(
    before: Program,
    after: Program,
    func: Function,
    block: Block,
    entry: BasicBlock,
    ids: Seq<Value>,
    insts: Seq<Value>,
) -> bool {
    &&& ids.len() == values_needed(block.stmt.exp) + 1
    &&& fresh_ids(ids, program_functions(before)[func].values)
    &&& !program_functions(before)[func].block_names.contains_key(entry)
    &&& !has_block(program_functions(before)[func].layout, entry)
    &&& function_replaced(
        before,
        after,
        func,
        FunctionModel {
            values: program_functions(before)[func].values.union_prefer_right(
                lower_stmt(block.stmt, ids).values,
            ),
            block_names: program_functions(before)[func].block_names.insert(
                entry,
                Some("%entry"@),
            ),
            ..program_functions(before)[func]
        },
    )
    &&& insts == lower_stmt(block.stmt, ids).insts
}

/// Whether `after` is `before` with block `block` lowered into function
/// `func` as the basic block `entry`, under handles that `before` did not use.
pub open spec fn block_lowered(
    before: Program,
    after: Program,
    func: Function,
    block: Block,
    entry: BasicBlock,
    insts: Seq<Value>,
) -> bool {
    exists|ids: Seq<Value>| block_lowered_with(before, after, func, block, entry, ids, insts)
}

impl Block {
    /// Lowers a block into a function of the program: makes the basic block
    /// `%entry` and returns it with the instructions of the block's statement.
    /// The basic block is not put into the layout. Whatever the outcome, the
    /// function holds what it held before, and nothing else in the program has
    /// changed.
    pub fn koopa_append(&self, program: &mut Program, func: Function) -> (result: Result<
        (BasicBlock, Vec<Value>),
        CompileError,
    >)
        requires
            program_functions(*old(program)).contains_key(func),
            program_functions(*old(program))[func].linked,
        ensures
            match first_untranslatable(self.stmt.exp) {
                Some(op) => result matches Err(e) && e == CompileError::UntranslatableOperator(op),
                None => result matches Ok((entry, insts)) && block_lowered(
                    *old(program),
                    *final(program),
                    func,
                    *self,
                    entry,
                    insts@,
                ),
            },
            function_grown(*old(program), *final(program), func),
    {
        let ghost start = *program;
        let name = String::from_str("%entry");
        proof {
            reveal_strlit("%entry");
        }
        let entry = new_block(program, func, name);
        let ghost second = *program;
        let outcome = self.stmt.koopa_append(program, func);
        proof {
            lemma_grown_by_block(start, second, func, entry, Some("%entry"@));
            lemma_grown_twice(start, second, *program, func);
        }
        let insts = match outcome {
            Ok(insts) => insts,
            Err(e) => {
                return Err(e);
            },
        };
        proof {
            let ids = choose|ids: Seq<Value>|
                stmt_lowered_with(second, *program, func, self.stmt, ids, insts@);
            assert(program_functions(*program) =~= program_functions(start).insert(
                func,
                FunctionModel {
                    values: program_functions(start)[func].values.union_prefer_right(
                        lower_stmt(self.stmt, ids).values,
                    ),
                    block_names: program_functions(start)[func].block_names.insert(
                        entry,
                        Some("%entry"@),
                    ),
                    ..program_functions(start)[func]
                },
            ));
            assert(block_lowered_with(start, *program, func, *self, entry, ids, insts@));
        }
        Ok((entry, insts))
    }
}

/// The function that a function definition lowers to, where `entry` is the
/// handle of its basic block and `ids` are the handles of its values in the
/// order of their creation.
///
/// The name is the source name behind the sigil `@`. The function has no
/// parameters and one basic block, `%entry`, which holds the instructions of
/// the body.
pub open spec fn lowered_function(def: FuncDef, entry: BasicBlock, ids: Seq<Value>)
    -> FunctionModel {
    FunctionModel {
        name: "@"@ + def.ident.name@,
        params: Seq::empty(),
        ret: func_type_tag(def.func_type),
        linked: true,
        values: lower_stmt(def.block.stmt, ids).values,
        block_names: Map::empty().insert(entry, Some("%entry"@)),
        layout: seq![BlockModel { bb: entry, insts: lower_stmt(def.block.stmt, ids).insts }],
    }
}

/// The error that stops the lowering of a function definition, if any: an
/// empty name, or else the first binary operator without a lowering.
pub open spec fn build_error(def: FuncDef) -> Option<CompileError> {
    if def.ident.name@.len() == 0 {
        Some(CompileError::InvalidFunctionName)
    } else {
        match first_untranslatable(def.block.stmt.exp) {
            Some(op) => Some(CompileError::UntranslatableOperator(op)),
            None => None,
        }
    }
}

/// Whether `after` is `before` with the function definition `def` added as
/// the function `func`, with the basic block `entry` and the values `ids`.
pub open spec fn function_lowered_with(
    before: Program,
    after: Program,
    def: FuncDef,
    func: Function,
    entry: BasicBlock,
    ids: Seq<Value>,
) -> bool {
    &&& ids.len() == values_needed(def.block.stmt.exp) + 1
    &&& ids.no_duplicates()
    &&& !program_functions(before).contains_key(func)
    &&& !program_layout(before).contains(func)
    &&& program_layout(after) == program_layout(before).push(func)
    &&& program_functions(after) == program_functions(before).insert(
        func,
        lowered_function(def, entry, ids),
    )
}

/// Whether `after` is `before` with the function definition `def` added as
/// the function `func`, last in the layout, under handles that were not used
/// before.
pub open spec fn function_lowered(before: Program, after: Program, def: FuncDef, func: Function)
    -> bool {
    exists|entry: BasicBlock, ids: Seq<Value>|
        function_lowered_with(before, after, def, func, entry, ids)
}

impl FuncDef {
    /// Lowers a function definition into the program: adds a function named
    /// by the sigil `@` and the source name, lowers the body into the basic
    /// block `%entry`, and puts the block with its instructions into the
    /// layout.
    ///
    /// An empty source name is an error and leaves the program as it was. A
    /// binary operator without a lowering is an error too; the program then
    /// holds the new function as far as it was built. Whatever the outcome,
    /// the functions that the program held before are unchanged and stand
    /// first in the layout.
    pub fn koopa_append(&self, program: &mut Program) -> (result: Result<Function, CompileError>)
        ensures
            match build_error(*self) {
                Some(e) => result matches Err(err) && err == e,
                None => result matches Ok(func) && function_lowered(
                    *old(program),
                    *final(program),
                    *self,
                    func,
                ),
            },
            functions_kept(*old(program), *final(program)),
            self.ident.name@.len() == 0 ==> *final(program) == *old(program),
    {
        let ghost start = *program;
        if self.ident.name.as_str().is_empty() {
            return Err(CompileError::InvalidFunctionName);
        }
        let mut name = String::from_str("@");
        name.append(self.ident.name.as_str());
        proof {
            reveal_strlit("@");
        }
        let func = new_function(program, name, self.func_type);
        let ghost second = *program;
        let outcome = self.block.koopa_append(program, func);
        let ghost third = *program;
        proof {
            lemma_kept_beside(start, second, third, func);
        }
        let (entry, insts) = match outcome {
            Ok(lowered) => lowered,
            Err(e) => {
                return Err(e);
            },
        };
        let ghost ids = choose|ids: Seq<Value>|
            block_lowered_with(second, third, func, self.block, entry, ids, insts@);
        push_block(program, func, entry);
        let ghost fourth = *program;
        proof {
            assert(has_block(program_functions(fourth)[func].layout, entry)) by {
                assert(program_functions(fourth)[func].layout[0].bb == entry);
            }
        }
        extend_insts(program, func, entry, insts);
        proof {
            lemma_lower_stmt(self.block.stmt, ids);
            lemma_extend_unique_fresh(insts@);
            let body = lower_stmt(self.block.stmt, ids);
            assert(Map::<Value, ValueModel>::empty().union_prefer_right(body.values)
                =~= body.values);
            assert(program_functions(*program)[func].layout =~= seq![
                BlockModel { bb: entry, insts: body.insts },
            ]);
            assert(program_functions(*program)[func] == lowered_function(*self, entry, ids));
            assert(program_functions(*program) =~= program_functions(start).insert(
                func,
                lowered_function(*self, entry, ids),
            ));
            assert(function_lowered_with(start, *program, *self, func, entry, ids));
        }
        Ok(func)
    }
}

impl CompUnit {
    /// Lowers a compilation unit into the program: its one function
    /// definition, with the errors of that lowering.
    pub fn koopa_append(&self, program: &mut Program) -> (result: Result<(), CompileError>)
        ensures
            match build_error(self.func_def) {
                Some(e) => result matches Err(err) && err == e,
                None => result is Ok && exists|func: Function|
                    function_lowered(*old(program), *final(program), self.func_def, func),
            },
            functions_kept(*old(program), *final(program)),
            self.func_def.ident.name@.len() == 0 ==> *final(program) == *old(program),
    {
        match self.func_def.koopa_append(program) {
            Ok(_) => Ok(()),
            Err(e) => Err(e),
        }
    }
}

/// Whether the program is what the compilation unit lowers to: one function,
/// which is the lowered function definition under some handles.
pub open spec fn built(program: Program, ast: CompUnit) -> bool {
    exists|func: Function, entry: BasicBlock, ids: Seq<Value>|
        {
            &&& ids.len() == values_needed(ast.func_def.block.stmt.exp) + 1
            &&& ids.no_duplicates()
            &&& program_layout(program) == seq![func]
            &&& #[trigger] program_functions(program) == Map::<Function, FunctionModel>::empty().insert(
                func,
                lowered_function(ast.func_def, entry, ids),
            )
        }
}

/// Builds the intermediate program of a compilation unit.
///
/// An empty function name and a binary operator without a lowering are
/// errors; no program is returned then.
pub fn build_koopa(ast: CompUnit) -> (result: Result<Program, CompileError>)
    ensures
        match build_error(ast.func_def) {
            Some(e) => result matches Err(err) && err == e,
            None => result matches Ok(program) && built(program, ast),
        },
{
    let mut koopa_program = empty_program();
    let ghost start = koopa_program;
    match ast.koopa_append(&mut koopa_program) {
        Ok(()) => {
            proof {
                let func = choose|func: Function|
                    function_lowered(start, koopa_program, ast.func_def, func);
                let (entry, ids) = choose|entry: BasicBlock, ids: Seq<Value>|
                    function_lowered_with(start, koopa_program, ast.func_def, func, entry, ids);
                assert(program_layout(koopa_program) =~= seq![func]);
            }
            Ok(koopa_program)
        },
        Err(e) => Err(e),
    }
}

} // verus!
