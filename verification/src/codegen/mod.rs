//! The assembly generator: from the intermediate program to RISC-V text.
//!
//! The program's functions are generated in layout order, and in each function
//! the instructions of each basic block in order. Generating a value first
//! generates the operands that have no register yet, so every operand is
//! materialized before its use and no value is generated twice.
//!
//! What is generated is stated by the spec functions of this module, which
//! read the model of the program only; the executable functions are proved to
//! compute exactly that.

pub mod backend;
pub mod inst;

use crate::codegen::backend::{lemma_allocate, RegisterBackend, RegisterMap};
use crate::codegen::inst::{body_text, push_body, Inst, Reg};
use crate::error::CompileError;
use crate::program::{
    binary_operator, function_layout, function_name, layout_functions, program_functions,
    program_layout, value_count, value_shape, BlockModel, FunctionModel, IrOp, ValueKind,
    ValueModel, ValueShape,
};
use koopa::ir::{Function, Program, Value};
use vstd::prelude::*;

verus! {

/// Where code generation stands: the registers handed out and the
/// instructions emitted so far.
pub struct GenState {
    pub regs: RegisterMap,
    pub code: Seq<Inst>,
}

/// The generated form of one function.
pub struct FunctionCode {
    /// The function's name without its sigil.
    pub label: Seq<char>,
    /// The instructions in execution order.
    pub body: Seq<Inst>,
}

/// The instructions for a binary operation, or `None` where none are
/// implemented: equality is the exclusive or collapsed to a truth value,
/// subtraction is one instruction.
pub open spec fn binary_insts(op: IrOp, rd: Reg, lhs: Reg, rhs: Reg) -> Option<Seq<Inst>> {
    match op {
        IrOp::Eq => Some(seq![Inst::Xor { rd, lhs, rhs }, Inst::Seqz { rd, rs: rd }]),
        IrOp::Sub => Some(seq![Inst::Sub { rd, lhs, rhs }]),
        _ => None,
    }
}

/// The outcome of generating an operand: a statement in the place of an
/// operand is an error.
pub open spec fn as_operand(outcome: (GenState, Result<Option<Reg>, CompileError>)) -> (
    GenState,
    Result<Reg, CompileError>,
) {
    match outcome.1 {
        Ok(Some(reg)) => (outcome.0, Ok(reg)),
        Ok(None) => (outcome.0, Err(CompileError::MalformedProgram)),
        Err(e) => (outcome.0, Err(e)),
    }
}

/// Generating one value: where the generation stands afterwards, and the
/// register that holds the value (`None` for a return) or the error that
/// stopped the generation. After an error the state is the one at the failure:
/// what was generated before it stays, and nothing is added for what failed.
///
/// `depth` bounds how far the generation follows operands; a value that lies
/// deeper is an error.
pub open spec fn gen_value(
    values: Map<Value, ValueModel>,
    state: GenState,
    value: Value,
    depth: nat,
) -> (GenState, Result<Option<Reg>, CompileError>)
    decreases depth,
{
    if state.regs.lookup(value) is Some {
        (state, Ok(state.regs.lookup(value)))
    } else if depth == 0 || !values.contains_key(value) {
        (state, Err(CompileError::MalformedProgram))
    } else {
        match values[value].kind {
            ValueKind::Integer(n) => {
                if n == 0 {
                    (state, Ok(Some(Reg::Zero)))
                } else {
                    let (regs, rd) = state.regs.allocate(value, None);
                    (GenState { regs, code: state.code.push(Inst::Li { rd, imm: n }) }, Ok(Some(rd)))
                }
            },
            ValueKind::Binary { op, lhs, rhs } => {
                let (after_lhs, left) = as_operand(
                    gen_value(values, state, lhs, (depth - 1) as nat),
                );
                match left {
                    Err(e) => (after_lhs, Err(e)),
                    Ok(l) => {
                        let (after_rhs, right) = as_operand(
                            gen_value(values, after_lhs, rhs, (depth - 1) as nat),
                        );
                        match right {
                            Err(e) => (after_rhs, Err(e)),
                            Ok(r) => {
                                let (regs, rd) = after_rhs.regs.allocate(value, Some(r));
                                match binary_insts(op, rd, l, r) {
                                    None => (
                                        after_rhs,
                                        Err(CompileError::UnimplementedOperator(op)),
                                    ),
                                    Some(insts) => (
                                        GenState { regs, code: after_rhs.code + insts },
                                        Ok(Some(rd)),
                                    ),
                                }
                            },
                        }
                    },
                }
            },
            ValueKind::Return { operand: Some(operand) } => {
                let (after, source) = as_operand(
                    gen_value(values, state, operand, (depth - 1) as nat),
                );
                match source {
                    Err(e) => (after, Err(e)),
                    Ok(rs) => (
                        GenState {
                            regs: after.regs,
                            code: after.code.push(Inst::Mv { rd: Reg::ReturnValue, rs }).push(
                                Inst::Ret,
                            ),
                        },
                        Ok(None),
                    ),
                }
            },
            ValueKind::Return { operand: None } => (
                GenState {
                    regs: state.regs,
                    code: state.code.push(Inst::Li { rd: Reg::ReturnValue, imm: 0 }).push(Inst::Ret),
                },
                Ok(None),
            ),
            ValueKind::Other => (state, Err(CompileError::UnimplementedValue)),
        }
    }
}

/// Generating the instructions of a basic block in order: where the
/// generation stands afterwards, or at the first failure, and that failure.
pub open spec fn gen_insts(
    values: Map<Value, ValueModel>,
    state: GenState,
    insts: Seq<Value>,
    depth: nat,
) -> (GenState, Result<(), CompileError>)
    decreases insts.len(),
{
    if insts.len() == 0 {
        (state, Ok(()))
    } else {
        let (after, first) = gen_value(values, state, insts.first(), depth);
        match first {
            Err(e) => (after, Err(e)),
            Ok(_) => gen_insts(values, after, insts.drop_first(), depth),
        }
    }
}

/// Generating the basic blocks of a function in layout order: where the
/// generation stands afterwards, or at the first failure, and that failure.
pub open spec fn gen_blocks(
    values: Map<Value, ValueModel>,
    state: GenState,
    layout: Seq<BlockModel>,
    depth: nat,
) -> (GenState, Result<(), CompileError>)
    decreases layout.len(),
{
    if layout.len() == 0 {
        (state, Ok(()))
    } else {
        let (after, first) = gen_insts(values, state, layout.first().insts, depth);
        match first {
            Err(e) => (after, Err(e)),
            Ok(_) => gen_blocks(values, after, layout.drop_first(), depth),
        }
    }
}

/// Generating one function: the registers afterwards, or at the failure, and
/// the function's code or that failure.
///
/// The label is the function's name without its first character; a name of
/// one character or none is an error. No value may lie deeper than the
/// function has values.
pub open spec fn gen_function(
    functions: Map<Function, FunctionModel>,
    func: Function,
    regs: RegisterMap,
) -> (RegisterMap, Result<FunctionCode, CompileError>) {
    if !functions.contains_key(func) {
        (regs, Err(CompileError::MalformedProgram))
    } else if functions[func].name.len() <= 1 {
        (regs, Err(CompileError::InvalidFunctionName))
    } else {
        let (state, body) = gen_blocks(
            functions[func].values,
            GenState { regs, code: Seq::empty() },
            functions[func].layout,
            functions[func].values.dom().len(),
        );
        match body {
            Err(e) => (state.regs, Err(e)),
            Ok(_) => (
                state.regs,
                Ok(FunctionCode { label: functions[func].name.skip(1), body: state.code }),
            ),
        }
    }
}

/// Generating the functions of a program in layout order, with one register
/// backend for all of them.
pub open spec fn gen_functions(
    functions: Map<Function, FunctionModel>,
    layout: Seq<Function>,
    regs: RegisterMap,
) -> Result<Seq<FunctionCode>, CompileError>
    decreases layout.len(),
{
    if layout.len() == 0 {
        Ok(Seq::empty())
    } else {
        let (after, first) = gen_function(functions, layout.first(), regs);
        match first {
            Err(e) => Err(e),
            Ok(code) => match gen_functions(functions, layout.drop_first(), after) {
                Err(e) => Err(e),
                Ok(rest) => Ok(seq![code] + rest),
            },
        }
    }
}

/// Generating a whole program with a fresh register backend.
pub open spec fn gen_program(functions: Map<Function, FunctionModel>, layout: Seq<Function>)
    -> Result<Seq<FunctionCode>, CompileError> {
    gen_functions(functions, layout, RegisterMap::empty())
}

/// The text of the generated functions: for each a label line, then its
/// instructions, one per line.
pub open spec fn functions_text(functions: Seq<FunctionCode>) -> Seq<char>
    decreases functions.len(),
{
    if functions.len() == 0 {
        Seq::empty()
    } else {
        functions_text(functions.drop_last()) + functions.last().label + ":\n"@ + body_text(
            functions.last().body,
        )
    }
}

/// The assembly text of a program: the text-section directive, the marker of
/// the global entry point, the functions, and a blank line.
pub open spec fn assembly_text(functions: Seq<FunctionCode>) -> Seq<char> {
    ".text\n"@ + ".globl main\n"@ + functions_text(functions) + "\n"@
}

/// The local values of a function of the program, none if the program does
/// not hold the function.
pub open spec fn function_values(program: Program, func: Function) -> Map<Value, ValueModel> {
    if program_functions(program).contains_key(func) {
        program_functions(program)[func].values
    } else {
        Map::empty()
    }
}

/// Generates one value of a function: appends the instructions that
/// materialize it, operands first, and returns the register that holds it, or
/// `None` for a return.
///
/// A value that has a register already is not generated again. The literal
/// zero is the zero register and costs no instruction. A binary operation
/// writes to the register of its right operand where that is a scratch
/// register.
///
/// `depth` is how far the function may follow operands, itself included: it
/// calls itself at most that deep, and a value that lies deeper is an error.
///
/// After an error the instructions and the backend are as they were at the
/// failure: what the operands generated before it stays, and nothing is
/// appended or allocated for the value that failed.
pub fn generate_ins(
    program: &Program,
    func: Function,
    value: Value,
    code: &mut Vec<Inst>,
    backend: &mut RegisterBackend,
    depth: usize,
) -> (result: Result<Option<Reg>, CompileError>)
    requires
        old(backend).wf(),
    ensures
        final(backend).wf(),
        (GenState { regs: final(backend)@, code: final(code)@ }, result) == gen_value(
            function_values(*program, func),
            GenState { regs: old(backend)@, code: old(code)@ },
            value,
            depth as nat,
        ),
    decreases depth,
{
    if let Some(reg) = backend.lookup(value) {
        return Ok(Some(reg));
    }
    if depth == 0 {
        return Err(CompileError::MalformedProgram);
    }
    let shape = match value_shape(program, func, value) {
        Some(shape) => shape,
        None => {
            return Err(CompileError::MalformedProgram);
        },
    };
    match shape {
        ValueShape::Integer(n) => {
            if n == 0 {
                Ok(Some(Reg::Zero))
            } else {
                let rd = backend.allocate(value, None);
                code.push(Inst::Li { rd, imm: n });
                Ok(Some(rd))
            }
        },
        ValueShape::Binary { lhs, rhs } => {
            let op = match binary_operator(program, func, value) {
                Some(op) => op,
                None => {
                    return Err(CompileError::MalformedProgram);
                },
            };
            let l = match generate_ins(program, func, lhs, code, backend, depth - 1) {
                Ok(Some(reg)) => reg,
                Ok(None) => {
                    return Err(CompileError::MalformedProgram);
                },
                Err(e) => {
                    return Err(e);
                },
            };
            let r = match generate_ins(program, func, rhs, code, backend, depth - 1) {
                Ok(Some(reg)) => reg,
                Ok(None) => {
                    return Err(CompileError::MalformedProgram);
                },
                Err(e) => {
                    return Err(e);
                },
            };
            let ghost before = code@;
            match op {
                IrOp::Eq => {
                    let rd = backend.allocate(value, Some(r));
                    code.push(Inst::Xor { rd, lhs: l, rhs: r });
                    code.push(Inst::Seqz { rd, rs: rd });
                    assert(code@ =~= before + binary_insts(op, rd, l, r).unwrap());
                    Ok(Some(rd))
                },
                IrOp::Sub => {
                    let rd = backend.allocate(value, Some(r));
                    code.push(Inst::Sub { rd, lhs: l, rhs: r });
                    assert(code@ =~= before + binary_insts(op, rd, l, r).unwrap());
                    Ok(Some(rd))
                },
                other => Err(CompileError::UnimplementedOperator(other)),
            }
        },
        ValueShape::Return { operand: Some(operand) } => {
            let rs = match generate_ins(program, func, operand, code, backend, depth - 1) {
                Ok(Some(reg)) => reg,
                Ok(None) => {
                    return Err(CompileError::MalformedProgram);
                },
                Err(e) => {
                    return Err(e);
                },
            };
            code.push(Inst::Mv { rd: Reg::ReturnValue, rs });
            code.push(Inst::Ret);
            Ok(None)
        },
        ValueShape::Return { operand: None } => {
            code.push(Inst::Li { rd: Reg::ReturnValue, imm: 0 });
            code.push(Inst::Ret);
            Ok(None)
        },
        ValueShape::Other => Err(CompileError::UnimplementedValue),
    }
}

/// Generates the instructions of one basic block in order, up to the first
/// failure.
#[verifier::loop_isolation(false)]
pub fn generate_insts(
    program: &Program,
    func: Function,
    insts: &Vec<Value>,
    code: &mut Vec<Inst>,
    backend: &mut RegisterBackend,
    depth: usize,
) -> (result: Result<(), CompileError>)
    requires
        old(backend).wf(),
    ensures
        final(backend).wf(),
        (GenState { regs: final(backend)@, code: final(code)@ }, result) == gen_insts(
            function_values(*program, func),
            GenState { regs: old(backend)@, code: old(code)@ },
            insts@,
            depth as nat,
        ),
{
    let ghost values = function_values(*program, func);
    let ghost start = GenState { regs: backend@, code: code@ };
    let mut i: usize = 0;
    assert(insts@.skip(0) =~= insts@);
    while i < insts.len()
        invariant
            backend.wf(),
            i <= insts@.len(),
            values == function_values(*program, func),
            gen_insts(values, start, insts@, depth as nat) == gen_insts(
                values,
                GenState { regs: backend@, code: code@ },
                insts@.skip(i as int),
                depth as nat,
            ),
        decreases insts@.len() - i,
    {
        assert(insts@.skip(i as int).first() == insts@[i as int]);
        assert(insts@.skip(i as int).drop_first() =~= insts@.skip(i + 1));
        match generate_ins(program, func, insts[i], code, backend, depth) {
            Ok(_) => {},
            Err(e) => {
                return Err(e);
            },
        }
        i += 1;
    }
    Ok(())
}

/// The generated form of one function, as the executable code holds it.
pub struct FunctionAssembly {
    /// The function's name without its sigil.
    pub label: String,
    /// The instructions in execution order.
    pub body: Vec<Inst>,
}

impl View for FunctionAssembly {
    type V = FunctionCode;

    open spec fn view(&self) -> FunctionCode {
        FunctionCode { label: self.label@, body: self.body@ }
    }
}

/// The generated functions that a sequence of their executable forms stands
/// for.
pub open spec fn code_of(functions: Seq<FunctionAssembly>) -> Seq<FunctionCode> {
    functions.map_values(|f: FunctionAssembly| f@)
}

/// Generates one function: its label and the instructions of its basic blocks
/// in layout order. After an error the backend is as it was at the failure.
#[verifier::loop_isolation(false)]
pub fn generate_function(program: &Program, func: Function, backend: &mut RegisterBackend) -> (result:
    Result<FunctionAssembly, CompileError>)
    requires
        old(backend).wf(),
    ensures
        final(backend).wf(),
        final(backend)@ == gen_function(program_functions(*program), func, old(backend)@).0,
        match gen_function(program_functions(*program), func, old(backend)@).1 {
            Ok(code) => result matches Ok(f) && f@ == code,
            Err(e) => result matches Err(err) && err == e,
        },
{
    let name = match function_name(program, func) {
        Some(name) => name,
        None => {
            return Err(CompileError::MalformedProgram);
        },
    };
    let length = name.as_str().unicode_len();
    if length <= 1 {
        return Err(CompileError::InvalidFunctionName);
    }
    let label = String::from_str(name.as_str().substring_char(1, length));
    assert(label@ =~= name@.skip(1));
    let blocks = match function_layout(program, func) {
        Some(blocks) => blocks,
        None => {
            return Err(CompileError::MalformedProgram);
        },
    };
    let depth = match value_count(program, func) {
        Some(depth) => depth,
        None => {
            return Err(CompileError::MalformedProgram);
        },
    };
    let ghost values = program_functions(*program)[func].values;
    let ghost layout = program_functions(*program)[func].layout;
    let ghost start = GenState { regs: backend@, code: Seq::empty() };
    let mut body: Vec<Inst> = Vec::new();
    let mut i: usize = 0;
    assert(layout.skip(0) =~= layout);
    while i < blocks.len()
        invariant
            backend.wf(),
            i <= blocks@.len(),
            blocks@.len() == layout.len(),
            forall|k: int| 0 <= k < blocks@.len() ==> (#[trigger] blocks@[k]).1@ == layout[k].insts,
            values == function_values(*program, func),
            gen_blocks(values, start, layout, depth as nat) == gen_blocks(
                values,
                GenState { regs: backend@, code: body@ },
                layout.skip(i as int),
                depth as nat,
            ),
        decreases blocks@.len() - i,
    {
        assert(layout.skip(i as int).first() == layout[i as int]);
        assert(layout.skip(i as int).drop_first() =~= layout.skip(i + 1));
        assert(blocks@[i as int].1@ == layout[i as int].insts);
        match generate_insts(program, func, &blocks[i].1, &mut body, backend, depth) {
            Ok(()) => {},
            Err(e) => {
                return Err(e);
            },
        }
        i += 1;
    }
    Ok(FunctionAssembly { label, body })
}

/// The outcome of generating functions after `done` were generated before.
pub open spec fn after_done(
    done: Seq<FunctionCode>,
    rest: Result<Seq<FunctionCode>, CompileError>,
) -> Result<Seq<FunctionCode>, CompileError> {
    match rest {
        Ok(rest) => Ok(done + rest),
        Err(e) => Err(e),
    }
}

/// Generates every function of a program in layout order, with a fresh
/// register backend.
#[verifier::loop_isolation(false)]
pub fn generate_program(program: &Program) -> (result: Result<Vec<FunctionAssembly>, CompileError>)
    ensures
        match gen_program(program_functions(*program), program_layout(*program)) {
            Ok(code) => result matches Ok(functions) && code_of(functions@) == code,
            Err(e) => result matches Err(err) && err == e,
        },
{
    let mut backend = RegisterBackend::new();
    let funcs = layout_functions(program);
    let ghost functions = program_functions(*program);
    let mut done: Vec<FunctionAssembly> = Vec::new();
    let mut i: usize = 0;
    assert(funcs@.skip(0) =~= funcs@);
    assert(code_of(done@) =~= Seq::<FunctionCode>::empty());
    assert(after_done(code_of(done@), gen_functions(functions, funcs@, backend@))
        == gen_functions(functions, funcs@, backend@)) by {
        match gen_functions(functions, funcs@, backend@) {
            Ok(rest) => {
                assert(code_of(done@) + rest =~= rest);
            },
            Err(_) => {},
        }
    }
    while i < funcs.len()
        invariant
            backend.wf(),
            i <= funcs@.len(),
            functions == program_functions(*program),
            funcs@ == program_layout(*program),
            gen_program(functions, funcs@) == after_done(
                code_of(done@),
                gen_functions(functions, funcs@.skip(i as int), backend@),
            ),
        decreases funcs@.len() - i,
    {
        assert(funcs@.skip(i as int).first() == funcs@[i as int]);
        assert(funcs@.skip(i as int).drop_first() =~= funcs@.skip(i + 1));
        let ghost before = done@;
        let ghost regs = backend@;
        match generate_function(program, funcs[i], &mut backend) {
            Ok(function) => {
                done.push(function);
                proof {
                    assert(code_of(done@) =~= code_of(before).push(function@));
                    match gen_functions(functions, funcs@.skip(i + 1), backend@) {
                        Ok(rest) => {
                            assert(code_of(done@) + rest =~= code_of(before) + (seq![function@]
                                + rest));
                        },
                        Err(_) => {},
                    }
                }
            },
            Err(e) => {
                return Err(e);
            },
        }
        i += 1;
    }
    proof {
        assert(code_of(done@) + Seq::<FunctionCode>::empty() =~= code_of(done@));
    }
    Ok(done)
}

/// Writes generated functions as assembly text.
pub fn render_assembly(functions: &Vec<FunctionAssembly>) -> (text: String)
    ensures
        text@ == assembly_text(code_of(functions@)),
{
    let mut text = String::from_str(".text\n");
    text.append(".globl main\n");
    let ghost code = code_of(functions@);
    let mut i: usize = 0;
    assert(code.take(0) =~= Seq::<FunctionCode>::empty());
    assert(text@ =~= ".text\n"@ + ".globl main\n"@ + functions_text(code.take(0)));
    while i < functions.len()
        invariant
            i <= functions@.len(),
            code == code_of(functions@),
            text@ == ".text\n"@ + ".globl main\n"@ + functions_text(code.take(i as int)),
        decreases functions@.len() - i,
    {
        text.append(functions[i].label.as_str());
        text.append(":\n");
        push_body(&mut text, &functions[i].body);
        proof {
            let next = code.take(i + 1);
            assert(next.drop_last() =~= code.take(i as int));
            assert(next.last() == functions@[i as int]@);
            assert(text@ =~= ".text\n"@ + ".globl main\n"@ + functions_text(next));
        }
        i += 1;
    }
    assert(code.take(functions@.len() as int) =~= code);
    text.append("\n");
    text
}

/// Whether `result` is what compiling a program with these functions in this
/// layout gives: the assembly text of the generated functions, or the error
/// that stopped the generation.
pub open spec fn compiled(
    functions: Map<Function, FunctionModel>,
    layout: Seq<Function>,
    result: Result<String, CompileError>,
) -> bool {
    match gen_program(functions, layout) {
        Ok(code) => result matches Ok(text) && text@ == assembly_text(code),
        Err(e) => result matches Err(err) && err == e,
    }
}

/// Compiles an intermediate program to assembly text.
///
/// The text starts with the text-section directive and the marker of the
/// global entry point, holds one labeled block of instructions for each
/// function in layout order, and ends with a blank line. Any error stops the
/// compilation; no text is returned then.
pub fn compile(prog: Program) -> (result: Result<String, CompileError>)
    ensures
        compiled(program_functions(prog), program_layout(prog), result),
{
    match generate_program(&prog) {
        Ok(functions) => Ok(render_assembly(&functions)),
        Err(e) => Err(e),
    }
}

/// Repeatability: two compilations of programs with the same contents, each
/// with its own fresh register backend, end alike: with byte-identical text,
/// or with the same error.
pub proof fn lemma_compile_repeatable(
    functions: Map<Function, FunctionModel>,
    layout: Seq<Function>,
    first: Result<String, CompileError>,
    second: Result<String, CompileError>,
)
    requires
        compiled(functions, layout, first),
        compiled(functions, layout, second),
    ensures
        first is Ok <==> second is Ok,
        first is Ok ==> first->Ok_0@ == second->Ok_0@,
        first is Err ==> first->Err_0 == second->Err_0,
{
}

/// Generating a value only appends instructions, keeps the register map
/// consistent, and never lowers the number of the next unused scratch
/// register, whether it succeeds or fails. A register that it returns is the
/// zero register or a scratch register that was handed out.
pub proof fn lemma_gen_value_extends(
    values: Map<Value, ValueModel>,
    state: GenState,
    value: Value,
    depth: nat,
)
    requires
        state.regs.consistent(),
    ensures
        gen_value(values, state, value, depth).0.regs.consistent(),
        gen_value(values, state, value, depth).0.regs.next >= state.regs.next,
        state.code.is_prefix_of(gen_value(values, state, value, depth).0.code),
        gen_value(values, state, value, depth).1 matches Ok(Some(r)) ==> r == Reg::Zero || (
        r matches Reg::Temp(n) && n < gen_value(values, state, value, depth).0.regs.next),
    decreases depth,
{
    if state.regs.lookup(value) is Some {
    } else if depth == 0 || !values.contains_key(value) {
    } else {
        let less = (depth - 1) as nat;
        match values[value].kind {
            ValueKind::Integer(n) => {
                lemma_allocate(state.regs, value, None);
            },
            ValueKind::Binary { op, lhs, rhs } => {
                lemma_gen_value_extends(values, state, lhs, less);
                let (after_lhs, left) = as_operand(gen_value(values, state, lhs, less));
                if left is Ok {
                    lemma_gen_value_extends(values, after_lhs, rhs, less);
                    let (after_rhs, right) = as_operand(gen_value(values, after_lhs, rhs, less));
                    if right is Ok {
                        lemma_allocate(after_rhs.regs, value, Some(right->Ok_0));
                    }
                }
            },
            ValueKind::Return { operand: Some(operand) } => {
                lemma_gen_value_extends(values, state, operand, less);
            },
            ValueKind::Return { operand: None } => {},
            ValueKind::Other => {},
        }
    }
}

/// A value of a kind that is not handled, met for the first time, stops the
/// generation where it stands: nothing is appended and no register is handed
/// out.
pub proof fn lemma_unhandled_value_changes_nothing(
    values: Map<Value, ValueModel>,
    state: GenState,
    value: Value,
    depth: nat,
)
    requires
        state.regs.lookup(value) is None,
        depth > 0,
        values.contains_key(value),
        values[value].kind is Other,
    ensures
        gen_value(values, state, value, depth) == (
            state,
            Err::<Option<Reg>, CompileError>(CompileError::UnimplementedValue),
        ),
{
}

/// A binary operation without instructions fails once its operands are
/// generated: the instructions are those of the operands and no more, and the
/// operation gets no register.
pub proof fn lemma_unimplemented_operator_appends_nothing(
    values: Map<Value, ValueModel>,
    state: GenState,
    value: Value,
    depth: nat,
)
    requires
        state.regs.lookup(value) is None,
        depth > 0,
        values.contains_key(value),
        values[value].kind is Binary,
        values[value].kind->op != IrOp::Eq,
        values[value].kind->op != IrOp::Sub,
    ensures
        gen_value(values, state, value, depth).1 is Err,
        ({
            let less = (depth - 1) as nat;
            let (after_lhs, left) = as_operand(
                gen_value(values, state, values[value].kind->lhs, less),
            );
            let (after_rhs, right) = as_operand(
                gen_value(values, after_lhs, values[value].kind->rhs, less),
            );
            left is Ok && right is Ok ==> gen_value(values, state, value, depth) == (
                after_rhs,
                Err::<Option<Reg>, CompileError>(
                    CompileError::UnimplementedOperator(values[value].kind->op),
                ),
            )
        }),
{
}

/// The depth only ever stops a generation: an outcome other than the error
/// of a malformed program stays the same at every greater depth.
pub proof fn lemma_depth_suffices(
    values: Map<Value, ValueModel>,
    state: GenState,
    value: Value,
    depth: nat,
    more: nat,
)
    requires
        depth <= more,
        gen_value(values, state, value, depth).1 != Err::<Option<Reg>, CompileError>(
            CompileError::MalformedProgram,
        ),
    ensures
        gen_value(values, state, value, more) == gen_value(values, state, value, depth),
    decreases depth,
{
    if state.regs.lookup(value) is Some {
    } else if depth == 0 || !values.contains_key(value) {
    } else {
        let less = (depth - 1) as nat;
        let most = (more - 1) as nat;
        match values[value].kind {
            ValueKind::Integer(n) => {},
            ValueKind::Binary { op, lhs, rhs } => {
                lemma_depth_suffices(values, state, lhs, less, most);
                let (after_lhs, left) = as_operand(gen_value(values, state, lhs, less));
                if left is Ok {
                    lemma_depth_suffices(values, after_lhs, rhs, less, most);
                }
            },
            ValueKind::Return { operand: Some(operand) } => {
                lemma_depth_suffices(values, state, operand, less, most);
            },
            ValueKind::Return { operand: None } => {},
            ValueKind::Other => {},
        }
    }
}

} // verus!
