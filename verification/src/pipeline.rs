//! The whole pipeline: from the syntax tree to assembly text.
//!
//! The builder and the code generator meet in the intermediate program, whose
//! values carry handles that differ from run to run. This module states what
//! the two do together on the syntax tree alone, and proves it: the code of a
//! compilation unit is a function of the unit.

pub mod proofs;

use crate::ast::{CompUnit, Exp, FuncDef, Number};
use crate::codegen::backend::{lemma_allocate, RegisterMap};
use crate::codegen::inst::{Inst, Reg};
use crate::codegen::{
    assembly_text, binary_insts, compile, gen_function, gen_functions, gen_program, gen_value,
    FunctionCode, GenState,
};
use crate::error::CompileError;
use crate::ir::{
    binary_ir_op, build_error, build_koopa, built, lower_exp, lowered_function, unary_ir_op,
    values_needed,
};
use crate::pipeline::proofs::{finished, lemma_select_function};
use crate::program::{program_functions, program_layout, FunctionModel, IrOp, ValueModel};
use koopa::ir::{BasicBlock, Function, Program, Value};
use vstd::prelude::*;

verus! {

/// The expression that is the literal `n`.
pub open spec fn literal(n: i32) -> Exp {
    Exp::Number { value: Number { value: n } }
}

/// A literal that was lowered and is generated for the first time: zero is
/// the zero register and costs no instruction; any other literal costs
/// exactly one instruction, which loads it into the next unused scratch
/// register, a register that no value held.
pub proof fn lemma_literal_generation(
    n: i32,
    ids: Seq<Value>,
    values: Map<Value, ValueModel>,
    state: GenState,
    depth: nat,
)
    requires
        ids.len() == 1,
        values.contains_key(ids[0]),
        values[ids[0]] == lower_exp(literal(n), ids).values[ids[0]],
        state.regs.consistent(),
        state.regs.next <= usize::MAX,
        state.regs.lookup(ids[0]) is None,
        depth > 0,
    ensures
        lower_exp(literal(n), ids).result == ids[0],
        n == 0 ==> gen_value(values, state, ids[0], depth) == (
            state,
            Ok::<Option<Reg>, CompileError>(Some(Reg::Zero)),
        ),
        n != 0 ==> gen_value(values, state, ids[0], depth) == (
            GenState {
                regs: state.regs.allocate(ids[0], None).0,
                code: state.code.push(Inst::Li { rd: Reg::Temp(state.regs.next as usize), imm: n }),
            },
            Ok::<Option<Reg>, CompileError>(Some(Reg::Temp(state.regs.next as usize))),
        ),
        n != 0 ==> state.regs.unused(Reg::Temp(state.regs.next as usize)),
{
    lemma_allocate(state.regs, ids[0], None);
}

/// Where the selection of instructions stands: the number of the next unused
/// scratch register and the instructions selected so far.
pub struct Selection {
    pub next: nat,
    pub code: Seq<Inst>,
}

/// The literal that an expression is, if it is one behind any number of unary
/// plus signs.
pub open spec fn constant_of(e: Exp) -> Option<i32>
    decreases e,
{
    match e {
        Exp::Number { value } => Some(value.value),
        Exp::UnaryExp { unary_op, exp } => if unary_ir_op(unary_op) is None {
            constant_of(*exp)
        } else {
            None
        },
        Exp::BinaryExp { binary_op, lhs, rhs } => None,
    }
}

/// An operand at its use: zero is the zero register; another constant is
/// loaded into the next unused scratch register; the result of an operation is
/// in the register `holder` that the operation wrote.
pub open spec fn select_operand(e: Exp, holder: Option<Reg>, sel: Selection) -> (Selection, Reg) {
    match constant_of(e) {
        Some(n) => if n == 0 {
            (sel, Reg::Zero)
        } else {
            (
                Selection {
                    next: sel.next + 1,
                    code: sel.code.push(Inst::Li { rd: Reg::Temp(sel.next as usize), imm: n }),
                },
                Reg::Temp(sel.next as usize),
            )
        },
        None => (sel, holder->0),
    }
}

/// One operation on two registers: it writes to the register of its right
/// operand where that is a scratch register, else to the next unused one. An
/// operator without instructions is an error.
pub open spec fn select_operation(op: IrOp, lhs: Reg, rhs: Reg, sel: Selection) -> Result<
    (Selection, Option<Reg>),
    CompileError,
> {
    let reuse = rhs is Temp;
    let rd = if reuse {
        rhs
    } else {
        Reg::Temp(sel.next as usize)
    };
    let next = if reuse {
        sel.next
    } else {
        sel.next + 1
    };
    match binary_insts(op, rd, lhs, rhs) {
        None => Err(CompileError::UnimplementedOperator(op)),
        Some(insts) => Ok((Selection { next, code: sel.code + insts }, Some(rd))),
    }
}

/// The instructions of an expression: the state afterwards and the register
/// that holds the result, `None` for a constant, which costs nothing until it
/// is used.
///
/// The operations of the left operand come first, then those of the right
/// operand; then the operands are taken, the left one first, and the
/// operation follows. A unary minus or negation has zero as its left operand.
pub open spec fn select_exp(e: Exp, sel: Selection) -> Result<
    (Selection, Option<Reg>),
    CompileError,
>
    decreases e,
{
    match e {
        Exp::Number { value } => Ok((sel, None)),
        Exp::UnaryExp { unary_op, exp } => if unary_ir_op(unary_op) is None {
            select_exp(*exp, sel)
        } else {
            match select_exp(*exp, sel) {
                Err(e) => Err(e),
                Ok((after, holder)) => {
                    let (taken, rhs) = select_operand(*exp, holder, after);
                    select_operation(unary_ir_op(unary_op)->0, Reg::Zero, rhs, taken)
                },
            }
        },
        Exp::BinaryExp { binary_op, lhs, rhs } => match select_exp(*lhs, sel) {
            Err(e) => Err(e),
            Ok((after_lhs, left_holder)) => match select_exp(*rhs, after_lhs) {
                Err(e) => Err(e),
                Ok((after_rhs, right_holder)) => {
                    let (left_taken, l) = select_operand(*lhs, left_holder, after_rhs);
                    let (right_taken, r) = select_operand(*rhs, right_holder, left_taken);
                    select_operation(binary_ir_op(binary_op)->0, l, r, right_taken)
                },
            },
        },
    }
}

/// The code of a function definition: the instructions of the returned
/// expression, then the move of its result into the return-value register, or
/// the load of zero where the expression is a constant, then the return.
pub open spec fn select_function(def: FuncDef) -> Result<FunctionCode, CompileError> {
    match select_exp(def.block.stmt.exp, Selection { next: 0, code: Seq::empty() }) {
        Err(e) => Err(e),
        Ok((sel, holder)) => Ok(
            FunctionCode {
                label: def.ident.name@,
                body: match holder {
                    Some(rs) => sel.code.push(Inst::Mv { rd: Reg::ReturnValue, rs }).push(Inst::Ret),
                    None => sel.code.push(Inst::Li { rd: Reg::ReturnValue, imm: 0 }).push(
                        Inst::Ret,
                    ),
                },
            },
        ),
    }
}

/// The outcome of compiling a compilation unit: the error of the builder, or
/// else the error of the code generator, or else the code of its function.
pub open spec fn select_unit(ast: CompUnit) -> Result<Seq<FunctionCode>, CompileError> {
    match build_error(ast.func_def) {
        Some(e) => Err(e),
        None => match select_function(ast.func_def) {
            Err(e) => Err(e),
            Ok(code) => Ok(seq![code]),
        },
    }
}

/// The whole pipeline on the syntax tree: the code that is generated for the
/// program built from a compilation unit is the code that the selection gives
/// for the unit, whatever handles the program gave to its values. So the
/// generation of a built program never fails for want of depth or for a
/// missing value, and everything it does is decided by the tree.
pub proof fn lemma_built_program_code(ast: CompUnit, program: Program)
    requires
        build_error(ast.func_def) is None,
        built(program, ast),
    ensures
        gen_program(program_functions(program), program_layout(program)) == select_unit(ast),
{
    let def = ast.func_def;
    let (func, entry, ids) = choose|func: Function, entry: BasicBlock, ids: Seq<Value>|
        {
            &&& ids.len() == values_needed(ast.func_def.block.stmt.exp) + 1
            &&& ids.no_duplicates()
            &&& program_layout(program) == seq![func]
            &&& #[trigger] program_functions(program) == Map::<Function, FunctionModel>::empty().insert(
                func,
                lowered_function(ast.func_def, entry, ids),
            )
        };
    let functions = program_functions(program);
    let layout = program_layout(program);
    assert(functions.contains_key(func));
    lemma_select_function(def, func, entry, ids, functions);
    assert(layout.first() == func);
    assert(layout.drop_first() =~= Seq::<Function>::empty());
    match select_function(def) {
        Err(_) => {},
        Ok(code) => {
            let after = finished(gen_function(functions, func, RegisterMap::empty()))->Ok_0.0;
            assert(gen_functions(functions, layout.drop_first(), after) == Ok::<
                Seq<FunctionCode>,
                CompileError,
            >(Seq::empty()));
            assert(seq![code] + Seq::<FunctionCode>::empty() =~= seq![code]);
        },
    }
}

/// Compiles a compilation unit to assembly text: builds the intermediate
/// program and generates its code.
///
/// The outcome is decided by the syntax tree alone: the error of the builder,
/// or else the error of the code generator, or else the text of the code that
/// the selection gives for the unit.
pub fn compile_unit(ast: CompUnit) -> (result: Result<String, CompileError>)
    ensures
        match select_unit(ast) {
            Ok(code) => result matches Ok(text) && text@ == assembly_text(code),
            Err(e) => result matches Err(err) && err == e,
        },
{
    let ghost unit = ast;
    match build_koopa(ast) {
        Ok(program) => {
            proof {
                lemma_built_program_code(unit, program);
            }
            compile(program)
        },
        Err(e) => Err(e),
    }
}

} // verus!
