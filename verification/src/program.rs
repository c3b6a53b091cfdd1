//! The intermediate program and what this library assumes of it.
//!
//! The program is held by the `koopa` crate: functions, their values and the
//! order of their basic blocks and instructions. Verus cannot look inside, so
//! this module gives the contents a mathematical model and states, for each
//! `koopa` operation that the library uses, what it does to that model. These
//! statements are not proved here; each one says which `koopa` function it
//! describes. The rest of the library is verified against them.

use crate::ast::FuncType;
use koopa::ir::builder_traits::{BasicBlockBuilder, LocalInstBuilder, ValueBuilder};
use koopa::ir::{BasicBlock, BinaryOp, Function, Program, Type, Value};
use vstd::prelude::*;

verus! {

/// `koopa::ir::Program`: owns the functions and their order.
#[verifier::external_type_specification]
#[verifier::external_body]
pub struct ExProgram(Program);

/// `koopa::ir::Function`: the handle of a function in a program.
#[verifier::external_type_specification]
#[verifier::external_body]
pub struct ExFunction(Function);

/// `koopa::ir::BasicBlock`: the handle of a basic block in a function.
#[verifier::external_type_specification]
#[verifier::external_body]
pub struct ExBasicBlock(BasicBlock);

/// `koopa::ir::Value`: the handle of a value in a function.
#[verifier::external_type_specification]
#[verifier::external_body]
pub struct ExValue(Value);

/// The operator of a binary instruction.
#[derive(Clone, Copy, Debug, PartialEq, Eq, Structural)]
pub enum IrOp {
    NotEq,
    Eq,
    Gt,
    Lt,
    Ge,
    Le,
    Add,
    Sub,
    Mul,
    Div,
    Mod,
    And,
    Or,
    Xor,
    Shl,
    Shr,
    Sar,
}

/// The outermost constructor of a value's type.
#[derive(Clone, Copy, Debug, PartialEq, Eq, Structural)]
pub enum TypeTag {
    Int32,
    Unit,
    Array,
    Pointer,
    Function,
}

/// What a value is, as far as this library distinguishes.
#[derive(Clone, Copy, Debug)]
pub enum ValueKind {
    /// An integer constant.
    Integer(i32),
    /// The result of a binary operation on two other values.
    Binary { op: IrOp, lhs: Value, rhs: Value },
    /// The return from the function, with the value returned if there is one.
    Return { operand: Option<Value> },
    /// Any other kind of value.
    Other,
}

/// A value as the data-flow graph records it.
pub struct ValueModel {
    pub kind: ValueKind,
    pub ty: TypeTag,
}

/// A basic block in the layout, with its instructions in execution order.
pub struct BlockModel {
    pub bb: BasicBlock,
    pub insts: Seq<Value>,
}

/// A function of the program.
pub struct FunctionModel {
    /// The name, sigil included.
    pub name: Seq<char>,
    /// The types of the parameters.
    pub params: Seq<TypeTag>,
    /// The return type.
    pub ret: TypeTag,
    /// Whether the function's data-flow graph is connected to the program that
    /// holds it, as it is for every function made by `Program::new_func_def`.
    pub linked: bool,
    /// The local values of the data-flow graph.
    pub values: Map<Value, ValueModel>,
    /// The basic blocks of the data-flow graph, each with its name.
    pub block_names: Map<BasicBlock, Option<Seq<char>>>,
    /// The basic blocks in layout order.
    pub layout: Seq<BlockModel>,
}

/// The function handles of a program in layout order (`Program::func_layout`).
pub uninterp spec fn program_layout(program: Program) -> Seq<Function>;

/// The functions that a program holds, by handle (`Program::funcs`).
pub uninterp spec fn program_functions(program: Program) -> Map<Function, FunctionModel>;

/// A name that `koopa` accepts for a function or a basic block: a sigil and at
/// least one more character.
pub open spec fn valid_symbol(name: Seq<char>) -> bool {
    name.len() >= 2 && (name[0] == '@' || name[0] == '%')
}

/// The tag of the type that a source-level return type lowers to.
pub open spec fn func_type_tag(func_type: FuncType) -> TypeTag {
    match func_type {
        FuncType::Int => TypeTag::Int32,
    }
}

/// A function definition as it stands right after its creation.
pub open spec fn fresh_function(name: Seq<char>, ret: TypeTag) -> FunctionModel {
    FunctionModel {
        name,
        params: Seq::empty(),
        ret,
        linked: true,
        values: Map::empty(),
        block_names: Map::empty(),
        layout: Seq::empty(),
    }
}

/// Whether the layout holds the basic block.
pub open spec fn has_block(layout: Seq<BlockModel>, bb: BasicBlock) -> bool {
    exists|i: int| 0 <= i < layout.len() && (#[trigger] layout[i]).bb == bb
}

/// A list of keys after each of `keys`, in order, was appended unless present.
pub open spec fn extend_unique(list: Seq<Value>, keys: Seq<Value>) -> Seq<Value>
    decreases keys.len(),
{
    if keys.len() == 0 {
        list
    } else {
        let done = extend_unique(list, keys.drop_last());
        if done.contains(keys.last()) {
            done
        } else {
            done.push(keys.last())
        }
    }
}

/// The layout after `keys` were appended to the instructions of block `bb`.
pub open spec fn extend_block(layout: Seq<BlockModel>, bb: BasicBlock, keys: Seq<Value>) -> Seq<
    BlockModel,
> {
    layout.map_values(
        |b: BlockModel|
            if b.bb == bb {
                BlockModel { bb, insts: extend_unique(b.insts, keys) }
            } else {
                b
            },
    )
}

/// Whether `after` is `before` with function `func` replaced by `model` and
/// nothing else changed.
pub open spec fn function_replaced(
    before: Program,
    after: Program,
    func: Function,
    model: FunctionModel,
) -> bool {
    &&& program_layout(after) == program_layout(before)
    &&& program_functions(after) == program_functions(before).insert(func, model)
}

/// The empty map of functions.
pub open spec fn no_functions() -> Map<Function, FunctionModel> {
    Map::empty()
}

/// `Program::new`: a program without functions.
#[verifier::external_body]
pub(crate) fn empty_program() -> (empty: Program)
    ensures
        program_layout(empty) == Seq::<Function>::empty(),
        program_functions(empty) == no_functions(),
{
    Program::new()
}

/// `Program::new_func_def` with no parameters, and `Type::get_i32` for the
/// return type: adds a function definition under a handle that was never
/// handed out before, last in the layout. The function has no values and no
/// basic blocks yet. `koopa` panics on a name that is not a sigil and more;
/// `requires` leaves those out.
#[verifier::external_body]
pub(crate) fn new_function(program: &mut Program, name: String, func_type: FuncType) -> (func:
    Function)
    requires
        valid_symbol(name@),
    ensures
        !program_functions(*old(program)).contains_key(func),
        !program_layout(*old(program)).contains(func),
        program_layout(*final(program)) == program_layout(*old(program)).push(func),
        program_functions(*final(program)) == program_functions(*old(program)).insert(
            func,
            fresh_function(name@, func_type_tag(func_type)),
        ),
{
    let ret = match func_type {
        FuncType::Int => Type::get_i32(),
    };
    program.new_func_def(name, Vec::new(), ret)
}

/// `BasicBlockBuilder::basic_block` on the function's data-flow graph: adds
/// a named basic block without parameters under a handle that was never handed
/// out before. The layout does not change. `koopa` panics where the program
/// does not hold the function, and on a name that is not a sigil and more.
#[verifier::external_body]
pub(crate) fn new_block(program: &mut Program, func: Function, name: String) -> (bb: BasicBlock)
    requires
        program_functions(*old(program)).contains_key(func),
        valid_symbol(name@),
    ensures
        !program_functions(*old(program))[func].block_names.contains_key(bb),
        !has_block(program_functions(*old(program))[func].layout, bb),
        function_replaced(
            *old(program),
            *final(program),
            func,
            (FunctionModel {
                block_names: program_functions(*old(program))[func].block_names.insert(
                    bb,
                    Some(name@),
                ),
                ..program_functions(*old(program))[func]
            }),
        ),
{
    program.func_mut(func).dfg_mut().new_bb().basic_block(Some(name))
}

/// `ValueBuilder::integer` on the function's data-flow graph: adds an
/// integer constant of type `i32` under a handle that was never handed out
/// before. `koopa` panics where the program does not hold the function.
#[verifier::external_body]
pub(crate) fn new_integer(program: &mut Program, func: Function, n: i32) -> (value: Value)
    requires
        program_functions(*old(program)).contains_key(func),
    ensures
        !program_functions(*old(program))[func].values.contains_key(value),
        function_replaced(
            *old(program),
            *final(program),
            func,
            (FunctionModel {
                values: program_functions(*old(program))[func].values.insert(
                    value,
                    ValueModel { kind: ValueKind::Integer(n), ty: TypeTag::Int32 },
                ),
                ..program_functions(*old(program))[func]
            }),
        ),
{
    program.func_mut(func).dfg_mut().new_value().integer(n)
}

/// `LocalInstBuilder::binary` on the function's data-flow graph: adds a
/// binary operation of type `i32` under a handle that was never handed out
/// before. `koopa` panics where the program does not hold the function, where
/// the graph is not connected to the program, and where an operand is unknown
/// or not of type `i32`.
#[verifier::external_body]
pub(crate) fn new_binary(program: &mut Program, func: Function, op: IrOp, lhs: Value, rhs: Value)
    -> (value: Value)
    requires
        program_functions(*old(program)).contains_key(func),
        program_functions(*old(program))[func].linked,
        program_functions(*old(program))[func].values.contains_key(lhs),
        program_functions(*old(program))[func].values[lhs].ty == TypeTag::Int32,
        program_functions(*old(program))[func].values.contains_key(rhs),
        program_functions(*old(program))[func].values[rhs].ty == TypeTag::Int32,
    ensures
        !program_functions(*old(program))[func].values.contains_key(value),
        function_replaced(
            *old(program),
            *final(program),
            func,
            (FunctionModel {
                values: program_functions(*old(program))[func].values.insert(
                    value,
                    ValueModel { kind: ValueKind::Binary { op, lhs, rhs }, ty: TypeTag::Int32 },
                ),
                ..program_functions(*old(program))[func]
            }),
        ),
{
    let op = match op {
        IrOp::NotEq => BinaryOp::NotEq, IrOp::Eq => BinaryOp::Eq, IrOp::Gt => BinaryOp::Gt,
        IrOp::Lt => BinaryOp::Lt, IrOp::Ge => BinaryOp::Ge, IrOp::Le => BinaryOp::Le,
        IrOp::Add => BinaryOp::Add, IrOp::Sub => BinaryOp::Sub, IrOp::Mul => BinaryOp::Mul,
        IrOp::Div => BinaryOp::Div, IrOp::Mod => BinaryOp::Mod, IrOp::And => BinaryOp::And,
        IrOp::Or => BinaryOp::Or, IrOp::Xor => BinaryOp::Xor, IrOp::Shl => BinaryOp::Shl,
        IrOp::Shr => BinaryOp::Shr, IrOp::Sar => BinaryOp::Sar,
    };
    program.func_mut(func).dfg_mut().new_value().binary(op, lhs, rhs)
}

/// `LocalInstBuilder::ret` on the function's data-flow graph: adds a return
/// of type `unit` under a handle that was never handed out before. `koopa`
/// panics where the program does not hold the function and, with an operand,
/// where the graph is not connected to the program or the operand is unknown
/// or of type `unit`.
#[verifier::external_body]
pub(crate) fn new_return(program: &mut Program, func: Function, operand: Option<Value>) -> (value:
    Value)
    requires
        program_functions(*old(program)).contains_key(func),
        operand matches Some(o) ==> {
            &&& program_functions(*old(program))[func].linked
            &&& program_functions(*old(program))[func].values.contains_key(o)
            &&& program_functions(*old(program))[func].values[o].ty != TypeTag::Unit
        },
    ensures
        !program_functions(*old(program))[func].values.contains_key(value),
        function_replaced(
            *old(program),
            *final(program),
            func,
            (FunctionModel {
                values: program_functions(*old(program))[func].values.insert(
                    value,
                    ValueModel { kind: ValueKind::Return { operand }, ty: TypeTag::Unit },
                ),
                ..program_functions(*old(program))[func]
            }),
        ),
{
    program.func_mut(func).dfg_mut().new_value().ret(operand)
}

/// `Extend::extend` of the function's list of basic blocks, with one block:
/// the block goes last in the layout, without instructions, unless the layout
/// holds it already. `koopa` panics where the program does not hold the
/// function.
#[verifier::external_body]
pub(crate) fn push_block(program: &mut Program, func: Function, bb: BasicBlock)
    requires
        program_functions(*old(program)).contains_key(func),
    ensures
        function_replaced(
            *old(program),
            *final(program),
            func,
            (FunctionModel {
                layout: if has_block(program_functions(*old(program))[func].layout, bb) {
                    program_functions(*old(program))[func].layout
                } else {
                    program_functions(*old(program))[func].layout.push(
                        BlockModel { bb, insts: Seq::empty() },
                    )
                },
                ..program_functions(*old(program))[func]
            }),
        ),
{
    program.func_mut(func).layout_mut().bbs_mut().extend([bb]);
}

/// `Extend::extend` of a basic block's list of instructions: each value goes
/// last in the block, in order, unless the block holds it already. `koopa`
/// panics where the program does not hold the function or its layout does not
/// hold the block.
#[verifier::external_body]
pub(crate) fn extend_insts(program: &mut Program, func: Function, bb: BasicBlock, insts: Vec<Value>)
    requires
        program_functions(*old(program)).contains_key(func),
        has_block(program_functions(*old(program))[func].layout, bb),
    ensures
        function_replaced(
            *old(program),
            *final(program),
            func,
            (FunctionModel {
                layout: extend_block(program_functions(*old(program))[func].layout, bb, insts@),
                ..program_functions(*old(program))[func]
            }),
        ),
{
    program.func_mut(func).layout_mut().bb_mut(bb).insts_mut().extend(insts);
}

/// `Program::func_layout`: the function handles in layout order.
#[verifier::external_body]
pub(crate) fn layout_functions(program: &Program) -> (funcs: Vec<Function>)
    ensures
        funcs@ == program_layout(*program),
{
    program.func_layout().to_vec()
}

/// `FunctionData::name` of the function's entry in `Program::funcs`: the name
/// of the function, if the program holds the function.
#[verifier::external_body]
pub(crate) fn function_name(program: &Program, func: Function) -> (name: Option<String>)
    ensures
        name is Some <==> program_functions(*program).contains_key(func),
        name matches Some(n) ==> n@ == program_functions(*program)[func].name,
{
    program.funcs().get(&func).map(|data| data.name().to_string())
}

/// The length of `DataFlowGraph::values` for the function's entry in
/// `Program::funcs`: the number of local values of the function, if the
/// program holds the function.
#[verifier::external_body]
pub(crate) fn value_count(program: &Program, func: Function) -> (count: Option<usize>)
    ensures
        count is Some <==> program_functions(*program).contains_key(func),
        count matches Some(n) ==> {
            &&& program_functions(*program)[func].values.dom().finite()
            &&& program_functions(*program)[func].values.dom().len() == n
        },
{
    program.funcs().get(&func).map(|data| data.dfg().values().len())
}

/// `KeyNodeList::iter` over `Layout::bbs` for the function's entry in
/// `Program::funcs`, with `KeyNodeList::keys` over `BasicBlockNode::insts` for
/// each block: the basic blocks in layout order, each with its instructions
/// in order, if the program holds the function.
#[verifier::external_body]
pub(crate) fn function_layout(program: &Program, func: Function) -> (layout: Option<
    Vec<(BasicBlock, Vec<Value>)>,
>)
    ensures
        layout is Some <==> program_functions(*program).contains_key(func),
        layout matches Some(blocks) ==> {
            &&& blocks@.len() == program_functions(*program)[func].layout.len()
            &&& forall|i: int|
                0 <= i < blocks@.len() ==> {
                    &&& (#[trigger] blocks@[i]).0 == program_functions(*program)[func].layout[i].bb
                    &&& blocks@[i].1@ == program_functions(*program)[func].layout[i].insts
                }
        },
{
    let bbs = program.funcs().get(&func)?.layout().bbs();
    Some(bbs.iter().map(|(bb, node)| (*bb, node.insts().keys().copied().collect())).collect())
}

/// What a value is, without the operator of a binary operation.
#[derive(Clone, Copy, Debug)]
pub enum ValueShape {
    Integer(i32),
    Binary { lhs: Value, rhs: Value },
    Return { operand: Option<Value> },
    Other,
}

/// The shape of a kind of value.
pub open spec fn shape_of(kind: ValueKind) -> ValueShape {
    match kind {
        ValueKind::Integer(n) => ValueShape::Integer(n),
        ValueKind::Binary { op, lhs, rhs } => ValueShape::Binary { lhs, rhs },
        ValueKind::Return { operand } => ValueShape::Return { operand },
        ValueKind::Other => ValueShape::Other,
    }
}

/// `ValueData::kind` of the value's entry in `DataFlowGraph::values`, for the
/// function's entry in `Program::funcs`: what the value is, without the
/// operator, if the program holds the function and its data-flow graph holds
/// the value. The variants that this library does not distinguish are
/// `Other`.
#[verifier::external_body]
pub(crate) fn value_shape(program: &Program, func: Function, value: Value) -> (shape: Option<
    ValueShape,
>)
    ensures
        shape is Some <==> {
            &&& program_functions(*program).contains_key(func)
            &&& program_functions(*program)[func].values.contains_key(value)
        },
        shape matches Some(s) ==> s == shape_of(
            program_functions(*program)[func].values[value].kind,
        ),
{
    let data = program.funcs().get(&func)?.dfg().values().get(&value)?;
    Some(match data.kind() {
        koopa::ir::ValueKind::Integer(i) => ValueShape::Integer(i.value()),
        koopa::ir::ValueKind::Binary(b) => ValueShape::Binary { lhs: b.lhs(), rhs: b.rhs() },
        koopa::ir::ValueKind::Return(r) => ValueShape::Return { operand: r.value() },
        _ => ValueShape::Other,
    })
}

/// `Binary::op` of the value's entry in `DataFlowGraph::values`, for the
/// function's entry in `Program::funcs`: the operator, if the program holds
/// the function and the value is a binary operation of its data-flow graph.
#[verifier::external_body]
pub(crate) fn binary_operator(program: &Program, func: Function, value: Value) -> (op: Option<IrOp>)
    ensures
        op is Some <==> {
            &&& program_functions(*program).contains_key(func)
            &&& program_functions(*program)[func].values.contains_key(value)
            &&& program_functions(*program)[func].values[value].kind is Binary
        },
        op matches Some(o) ==> o == program_functions(*program)[func].values[value].kind->op,
{
    match program.funcs().get(&func)?.dfg().values().get(&value)?.kind() {
        koopa::ir::ValueKind::Binary(b) => Some(match b.op() {
            BinaryOp::NotEq => IrOp::NotEq, BinaryOp::Eq => IrOp::Eq, BinaryOp::Gt => IrOp::Gt,
            BinaryOp::Lt => IrOp::Lt, BinaryOp::Ge => IrOp::Ge, BinaryOp::Le => IrOp::Le,
            BinaryOp::Add => IrOp::Add, BinaryOp::Sub => IrOp::Sub, BinaryOp::Mul => IrOp::Mul,
            BinaryOp::Div => IrOp::Div, BinaryOp::Mod => IrOp::Mod, BinaryOp::And => IrOp::And,
            BinaryOp::Or => IrOp::Or, BinaryOp::Xor => IrOp::Xor, BinaryOp::Shl => IrOp::Shl,
            BinaryOp::Shr => IrOp::Shr, BinaryOp::Sar => IrOp::Sar,
        }),
        _ => None,
    }
}

/// `PartialEq::eq` of `koopa::ir::Value`: two handles compare equal exactly
/// when they are the same handle.
#[verifier::external_body]
pub(crate) fn same_value(a: Value, b: Value) -> (same: bool)
    ensures
        same == (a == b),
{
    a == b
}

} // verus!
