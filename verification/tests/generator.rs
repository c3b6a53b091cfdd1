use koopa::front::Driver;
use koopa::ir::builder_traits::{BasicBlockBuilder, LocalInstBuilder, ValueBuilder};
use koopa::ir::{BasicBlock, BinaryOp, Function, Program, Type, Value};
use sysy_backend::codegen::backend::RegisterBackend;
use sysy_backend::codegen::inst::{Inst, Reg};
use sysy_backend::codegen::{
    compile, generate_function, generate_ins, generate_insts, generate_program,
};
use sysy_backend::error::CompileError;
use sysy_backend::program::IrOp;

fn program_with(name: &str) -> (Program, Function) {
    let mut program = Program::new();
    let func = program.new_func_def(name.into(), Vec::new(), Type::get_i32());
    (program, func)
}

fn integer(program: &mut Program, func: Function, n: i32) -> Value {
    program.func_mut(func).dfg_mut().new_value().integer(n)
}

fn operation(program: &mut Program, func: Function, op: BinaryOp, lhs: Value, rhs: Value) -> Value {
    program.func_mut(func).dfg_mut().new_value().binary(op, lhs, rhs)
}

fn ret(program: &mut Program, func: Function, operand: Option<Value>) -> Value {
    program.func_mut(func).dfg_mut().new_value().ret(operand)
}

fn block(program: &mut Program, func: Function, name: &str, insts: &[Value]) -> BasicBlock {
    let data = program.func_mut(func);
    let bb = data.dfg_mut().new_bb().basic_block(Some(name.to_string()));
    data.layout_mut().bbs_mut().extend([bb]);
    data.layout_mut().bb_mut(bb).insts_mut().extend(insts.iter().copied());
    bb
}

fn parse(text: &str) -> Program {
    match Driver::from(text).generate_program() {
        Ok(program) => program,
        Err(_) => panic!("the text is not a program"),
    }
}

#[test]
fn a_literal_costs_one_load_into_a_fresh_register() {
    let (mut program, func) = program_with("@main");
    let seven = integer(&mut program, func, 7);
    let mut code = Vec::new();
    let mut backend = RegisterBackend::new();
    let reg = generate_ins(&program, func, seven, &mut code, &mut backend, 1);
    assert_eq!(reg, Ok(Some(Reg::Temp(0))));
    assert_eq!(code, vec![Inst::Li { rd: Reg::Temp(0), imm: 7 }]);
    assert_eq!(backend.lookup(seven), Some(Reg::Temp(0)));
}

#[test]
fn a_second_literal_gets_the_next_register() {
    let (mut program, func) = program_with("@main");
    let a = integer(&mut program, func, -3);
    let b = integer(&mut program, func, 4);
    let mut code = Vec::new();
    let mut backend = RegisterBackend::new();
    assert_eq!(generate_ins(&program, func, a, &mut code, &mut backend, 1), Ok(Some(Reg::Temp(0))));
    assert_eq!(generate_ins(&program, func, b, &mut code, &mut backend, 1), Ok(Some(Reg::Temp(1))));
    assert_eq!(
        code,
        vec![Inst::Li { rd: Reg::Temp(0), imm: -3 }, Inst::Li { rd: Reg::Temp(1), imm: 4 }]
    );
}

#[test]
fn literal_zero_is_the_zero_register_and_costs_nothing() {
    let (mut program, func) = program_with("@main");
    let zero = integer(&mut program, func, 0);
    let mut code = Vec::new();
    let mut backend = RegisterBackend::new();
    let reg = generate_ins(&program, func, zero, &mut code, &mut backend, 1);
    assert_eq!(reg, Ok(Some(Reg::Zero)));
    assert!(code.is_empty());
    assert_eq!(backend.lookup(zero), None);
}

#[test]
fn a_value_is_generated_once() {
    let (mut program, func) = program_with("@main");
    let a = integer(&mut program, func, 1);
    let b = integer(&mut program, func, 2);
    let sub = operation(&mut program, func, BinaryOp::Sub, a, b);
    let mut code = Vec::new();
    let mut backend = RegisterBackend::new();
    let first = generate_ins(&program, func, sub, &mut code, &mut backend, 3);
    let length = code.len();
    let second = generate_ins(&program, func, sub, &mut code, &mut backend, 3);
    assert_eq!(first, Ok(Some(Reg::Temp(1))));
    assert_eq!(second, first);
    assert_eq!(code.len(), length);
    assert_eq!(
        code,
        vec![
            Inst::Li { rd: Reg::Temp(0), imm: 1 },
            Inst::Li { rd: Reg::Temp(1), imm: 2 },
            Inst::Sub { rd: Reg::Temp(1), lhs: Reg::Temp(0), rhs: Reg::Temp(1) },
        ]
    );
}

#[test]
fn a_shared_operand_is_materialized_once() {
    let (mut program, func) = program_with("@main");
    let five = integer(&mut program, func, 5);
    let eq = operation(&mut program, func, BinaryOp::Eq, five, five);
    let mut code = Vec::new();
    let mut backend = RegisterBackend::new();
    let reg = generate_ins(&program, func, eq, &mut code, &mut backend, 2);
    assert_eq!(reg, Ok(Some(Reg::Temp(0))));
    assert_eq!(
        code,
        vec![
            Inst::Li { rd: Reg::Temp(0), imm: 5 },
            Inst::Xor { rd: Reg::Temp(0), lhs: Reg::Temp(0), rhs: Reg::Temp(0) },
            Inst::Seqz { rd: Reg::Temp(0), rs: Reg::Temp(0) },
        ]
    );
}

#[test]
fn operands_are_generated_before_the_operation_left_first() {
    let (mut program, func) = program_with("@main");
    let a = integer(&mut program, func, 1);
    let b = integer(&mut program, func, 2);
    let c = integer(&mut program, func, 3);
    let inner = operation(&mut program, func, BinaryOp::Sub, b, c);
    let outer = operation(&mut program, func, BinaryOp::Sub, a, inner);
    let mut code = Vec::new();
    let mut backend = RegisterBackend::new();
    let reg = generate_ins(&program, func, outer, &mut code, &mut backend, 3);
    assert_eq!(reg, Ok(Some(Reg::Temp(2))));
    assert_eq!(
        code,
        vec![
            Inst::Li { rd: Reg::Temp(0), imm: 1 },
            Inst::Li { rd: Reg::Temp(1), imm: 2 },
            Inst::Li { rd: Reg::Temp(2), imm: 3 },
            Inst::Sub { rd: Reg::Temp(2), lhs: Reg::Temp(1), rhs: Reg::Temp(2) },
            Inst::Sub { rd: Reg::Temp(2), lhs: Reg::Temp(0), rhs: Reg::Temp(2) },
        ]
    );
}

#[test]
fn return_with_operand_moves_it_to_the_return_register() {
    let (mut program, func) = program_with("@main");
    let five = integer(&mut program, func, 5);
    let r = ret(&mut program, func, Some(five));
    let mut code = Vec::new();
    let mut backend = RegisterBackend::new();
    let reg = generate_ins(&program, func, r, &mut code, &mut backend, 2);
    assert_eq!(reg, Ok(None));
    assert_eq!(
        code,
        vec![
            Inst::Li { rd: Reg::Temp(0), imm: 5 },
            Inst::Mv { rd: Reg::ReturnValue, rs: Reg::Temp(0) },
            Inst::Ret,
        ]
    );
    assert_eq!(backend.lookup(r), None);
}

#[test]
fn return_of_literal_zero_moves_the_zero_register() {
    let (mut program, func) = program_with("@main");
    let zero = integer(&mut program, func, 0);
    let r = ret(&mut program, func, Some(zero));
    let mut code = Vec::new();
    let mut backend = RegisterBackend::new();
    assert_eq!(generate_ins(&program, func, r, &mut code, &mut backend, 2), Ok(None));
    assert_eq!(code, vec![Inst::Mv { rd: Reg::ReturnValue, rs: Reg::Zero }, Inst::Ret]);
}

#[test]
fn return_without_operand_loads_zero() {
    let (mut program, func) = program_with("@main");
    let r = ret(&mut program, func, None);
    let mut code = Vec::new();
    let mut backend = RegisterBackend::new();
    assert_eq!(generate_ins(&program, func, r, &mut code, &mut backend, 1), Ok(None));
    assert_eq!(code, vec![Inst::Li { rd: Reg::ReturnValue, imm: 0 }, Inst::Ret]);
}

#[test]
fn depth_zero_generates_nothing_new() {
    let (mut program, func) = program_with("@main");
    let seven = integer(&mut program, func, 7);
    let mut code = Vec::new();
    let mut backend = RegisterBackend::new();
    assert_eq!(
        generate_ins(&program, func, seven, &mut code, &mut backend, 0),
        Err(CompileError::MalformedProgram)
    );
    assert_eq!(generate_ins(&program, func, seven, &mut code, &mut backend, 1), Ok(Some(Reg::Temp(0))));
    assert_eq!(generate_ins(&program, func, seven, &mut code, &mut backend, 0), Ok(Some(Reg::Temp(0))));
}

#[test]
fn a_value_deeper_than_the_depth_is_an_error() {
    let (mut program, func) = program_with("@main");
    let a = integer(&mut program, func, 1);
    let b = integer(&mut program, func, 2);
    let c = integer(&mut program, func, 3);
    let inner = operation(&mut program, func, BinaryOp::Sub, a, b);
    let outer = operation(&mut program, func, BinaryOp::Sub, inner, c);
    let mut code = Vec::new();
    let mut backend = RegisterBackend::new();
    assert_eq!(
        generate_ins(&program, func, outer, &mut code, &mut backend, 2),
        Err(CompileError::MalformedProgram)
    );
    let mut code = Vec::new();
    let mut backend = RegisterBackend::new();
    assert_eq!(
        generate_ins(&program, func, outer, &mut code, &mut backend, 3),
        Ok(Some(Reg::Temp(2)))
    );
}

#[test]
fn a_value_of_another_function_is_an_error() {
    let (mut program, func) = program_with("@main");
    let other = program.new_func_def("@other".into(), Vec::new(), Type::get_i32());
    let foreign = integer(&mut program, other, 9);
    let mut code = Vec::new();
    let mut backend = RegisterBackend::new();
    assert_eq!(
        generate_ins(&program, func, foreign, &mut code, &mut backend, 5),
        Err(CompileError::MalformedProgram)
    );
    assert_eq!(
        generate_ins(&program, other, foreign, &mut code, &mut backend, 5),
        Ok(Some(Reg::Temp(0)))
    );
}

#[test]
fn a_function_of_another_program_is_an_error() {
    let (mut program, func) = program_with("@main");
    let value = integer(&mut program, func, 9);
    let (elsewhere, _) = program_with("@main");
    let mut code = Vec::new();
    let mut backend = RegisterBackend::new();
    assert_eq!(
        generate_ins(&elsewhere, func, value, &mut code, &mut backend, 5),
        Err(CompileError::MalformedProgram)
    );
    assert!(matches!(
        generate_function(&elsewhere, func, &mut backend),
        Err(CompileError::MalformedProgram)
    ));
}

#[test]
fn a_value_of_another_kind_is_an_error() {
    let (mut program, func) = program_with("@main");
    let slot = program.func_mut(func).dfg_mut().new_value().alloc(Type::get_i32());
    let mut code = Vec::new();
    let mut backend = RegisterBackend::new();
    assert_eq!(
        generate_ins(&program, func, slot, &mut code, &mut backend, 5),
        Err(CompileError::UnimplementedValue)
    );
    assert!(code.is_empty());
}

#[test]
fn every_operator_but_equality_and_subtraction_is_unimplemented() {
    let table = [
        (BinaryOp::NotEq, IrOp::NotEq),
        (BinaryOp::Gt, IrOp::Gt),
        (BinaryOp::Lt, IrOp::Lt),
        (BinaryOp::Ge, IrOp::Ge),
        (BinaryOp::Le, IrOp::Le),
        (BinaryOp::Add, IrOp::Add),
        (BinaryOp::Mul, IrOp::Mul),
        (BinaryOp::Div, IrOp::Div),
        (BinaryOp::Mod, IrOp::Mod),
        (BinaryOp::And, IrOp::And),
        (BinaryOp::Or, IrOp::Or),
        (BinaryOp::Xor, IrOp::Xor),
        (BinaryOp::Shl, IrOp::Shl),
        (BinaryOp::Shr, IrOp::Shr),
        (BinaryOp::Sar, IrOp::Sar),
    ];
    for (op, expected) in table {
        let (mut program, func) = program_with("@main");
        let a = integer(&mut program, func, 1);
        let b = integer(&mut program, func, 2);
        let value = operation(&mut program, func, op, a, b);
        let mut code = Vec::new();
        let mut backend = RegisterBackend::new();
        assert_eq!(
            generate_ins(&program, func, value, &mut code, &mut backend, 2),
            Err(CompileError::UnimplementedOperator(expected))
        );
    }
}

#[test]
fn equality_and_subtraction_are_implemented() {
    for (op, length) in [(BinaryOp::Eq, 4), (BinaryOp::Sub, 3)] {
        let (mut program, func) = program_with("@main");
        let a = integer(&mut program, func, 1);
        let b = integer(&mut program, func, 2);
        let value = operation(&mut program, func, op, a, b);
        let mut code = Vec::new();
        let mut backend = RegisterBackend::new();
        assert_eq!(
            generate_ins(&program, func, value, &mut code, &mut backend, 2),
            Ok(Some(Reg::Temp(1)))
        );
        assert_eq!(code.len(), length);
    }
}

#[test]
fn an_error_in_an_operand_comes_before_the_error_of_the_operation() {
    let (mut program, func) = program_with("@main");
    let a = integer(&mut program, func, 1);
    let b = integer(&mut program, func, 2);
    let mul = operation(&mut program, func, BinaryOp::Mul, a, b);
    let add = operation(&mut program, func, BinaryOp::Add, a, mul);
    let mut code = Vec::new();
    let mut backend = RegisterBackend::new();
    assert_eq!(
        generate_ins(&program, func, add, &mut code, &mut backend, 3),
        Err(CompileError::UnimplementedOperator(IrOp::Mul))
    );
}

#[test]
fn a_cycle_of_values_is_an_error() {
    let (mut program, func) = program_with("@main");
    let x = integer(&mut program, func, 1);
    let y = integer(&mut program, func, 2);
    let a = operation(&mut program, func, BinaryOp::Sub, x, y);
    program.func_mut(func).dfg_mut().replace_value_with(x).binary(BinaryOp::Sub, a, y);
    let r = ret(&mut program, func, Some(a));
    block(&mut program, func, "%entry", &[a, r]);
    assert!(matches!(compile(program), Err(CompileError::MalformedProgram)));
}

#[test]
fn instructions_of_a_block_are_generated_in_order() {
    let (mut program, func) = program_with("@main");
    let a = integer(&mut program, func, 4);
    let b = integer(&mut program, func, 6);
    let first = operation(&mut program, func, BinaryOp::Sub, a, b);
    let second = operation(&mut program, func, BinaryOp::Eq, first, a);
    let insts = vec![second, first];
    let mut code = Vec::new();
    let mut backend = RegisterBackend::new();
    assert_eq!(generate_insts(&program, func, &insts, &mut code, &mut backend, 4), Ok(()));
    assert_eq!(
        code,
        vec![
            Inst::Li { rd: Reg::Temp(0), imm: 4 },
            Inst::Li { rd: Reg::Temp(1), imm: 6 },
            Inst::Sub { rd: Reg::Temp(1), lhs: Reg::Temp(0), rhs: Reg::Temp(1) },
            Inst::Xor { rd: Reg::Temp(0), lhs: Reg::Temp(1), rhs: Reg::Temp(0) },
            Inst::Seqz { rd: Reg::Temp(0), rs: Reg::Temp(0) },
        ]
    );
}

#[test]
fn generation_stops_at_the_first_error_of_a_block() {
    let (mut program, func) = program_with("@main");
    let a = integer(&mut program, func, 4);
    let b = integer(&mut program, func, 6);
    let good = operation(&mut program, func, BinaryOp::Sub, a, b);
    let bad = operation(&mut program, func, BinaryOp::Shl, a, b);
    let insts = vec![good, bad, good];
    let mut code = Vec::new();
    let mut backend = RegisterBackend::new();
    assert_eq!(
        generate_insts(&program, func, &insts, &mut code, &mut backend, 4),
        Err(CompileError::UnimplementedOperator(IrOp::Shl))
    );
}

#[test]
fn a_function_is_its_label_and_the_instructions_of_its_blocks() {
    let (mut program, func) = program_with("@compute");
    let a = integer(&mut program, func, 4);
    let b = integer(&mut program, func, 6);
    let sub = operation(&mut program, func, BinaryOp::Sub, a, b);
    let r = ret(&mut program, func, Some(sub));
    block(&mut program, func, "%entry", &[sub]);
    block(&mut program, func, "%exit", &[r]);
    let mut backend = RegisterBackend::new();
    let function = match generate_function(&program, func, &mut backend) {
        Ok(function) => function,
        Err(_) => panic!("the function has code"),
    };
    assert_eq!(function.label, "compute");
    assert_eq!(
        function.body,
        vec![
            Inst::Li { rd: Reg::Temp(0), imm: 4 },
            Inst::Li { rd: Reg::Temp(1), imm: 6 },
            Inst::Sub { rd: Reg::Temp(1), lhs: Reg::Temp(0), rhs: Reg::Temp(1) },
            Inst::Mv { rd: Reg::ReturnValue, rs: Reg::Temp(1) },
            Inst::Ret,
        ]
    );
    assert_eq!(backend.lookup(sub), Some(Reg::Temp(1)));
}

#[test]
fn blocks_are_generated_in_layout_order() {
    let (mut program, func) = program_with("@main");
    let one = integer(&mut program, func, 1);
    let two = integer(&mut program, func, 2);
    let first = ret(&mut program, func, Some(one));
    let second = ret(&mut program, func, Some(two));
    let data = program.func_mut(func);
    let early = data.dfg_mut().new_bb().basic_block(Some("%early".to_string()));
    let late = data.dfg_mut().new_bb().basic_block(Some("%late".to_string()));
    data.layout_mut().bbs_mut().extend([late, early]);
    data.layout_mut().bb_mut(early).insts_mut().extend([first]);
    data.layout_mut().bb_mut(late).insts_mut().extend([second]);
    assert_eq!(
        compile(program),
        Ok(".text\n.globl main\nmain:\nli t0, 2\nmv a0, t0\nret\nli t1, 1\nmv a0, t1\nret\n\n"
            .to_string())
    );
}

#[test]
fn a_name_of_a_sigil_alone_is_an_error() {
    let (mut program, func) = program_with("@main");
    program.func_mut(func).set_name("@".to_string());
    let mut backend = RegisterBackend::new();
    assert!(matches!(
        generate_function(&program, func, &mut backend),
        Err(CompileError::InvalidFunctionName)
    ));
    assert_eq!(compile(program), Err(CompileError::InvalidFunctionName));
}

#[test]
fn an_empty_name_is_an_error() {
    let (mut program, func) = program_with("@main");
    program.func_mut(func).set_name(String::new());
    assert_eq!(compile(program), Err(CompileError::InvalidFunctionName));
}

#[test]
fn the_name_error_comes_before_the_errors_of_the_body() {
    let (mut program, func) = program_with("@main");
    let slot = program.func_mut(func).dfg_mut().new_value().alloc(Type::get_i32());
    block(&mut program, func, "%entry", &[slot]);
    program.func_mut(func).set_name("%".to_string());
    assert_eq!(compile(program), Err(CompileError::InvalidFunctionName));
}

#[test]
fn the_label_drops_one_character_whatever_it_is() {
    let (mut program, func) = program_with("%local");
    let r = ret(&mut program, func, None);
    block(&mut program, func, "%entry", &[r]);
    program.func_mut(func).set_name("éa".to_string());
    assert_eq!(compile(program), Ok(".text\n.globl main\na:\nli a0, 0\nret\n\n".to_string()));
}

#[test]
fn an_empty_program_is_directives_and_a_blank_line() {
    assert_eq!(compile(Program::new()), Ok(".text\n.globl main\n\n".to_string()));
    assert!(matches!(generate_program(&Program::new()), Ok(functions) if functions.is_empty()));
}

#[test]
fn functions_are_generated_in_layout_order_with_one_backend() {
    let (mut program, first) = program_with("@first");
    let second = program.new_func_def("@second".into(), Vec::new(), Type::get_i32());
    let a = integer(&mut program, second, 11);
    let ra = ret(&mut program, second, Some(a));
    block(&mut program, second, "%entry", &[ra]);
    let b = integer(&mut program, first, 22);
    let rb = ret(&mut program, first, Some(b));
    block(&mut program, first, "%entry", &[rb]);
    let functions = match generate_program(&program) {
        Ok(functions) => functions,
        Err(_) => panic!("the program has code"),
    };
    assert_eq!(functions.len(), 2);
    assert_eq!(functions[0].label, "first");
    assert_eq!(functions[1].label, "second");
    assert_eq!(
        compile(program),
        Ok(".text\n.globl main\nfirst:\nli t0, 22\nmv a0, t0\nret\nsecond:\nli t1, 11\nmv a0, t1\nret\n\n"
            .to_string())
    );
}

#[test]
fn generating_a_program_twice_gives_the_same_code() {
    let (mut program, func) = program_with("@main");
    let a = integer(&mut program, func, 3);
    let b = integer(&mut program, func, 0);
    let eq = operation(&mut program, func, BinaryOp::Eq, a, b);
    let r = ret(&mut program, func, Some(eq));
    block(&mut program, func, "%entry", &[eq, r]);
    let first = generate_program(&program).unwrap_or_default();
    let second = generate_program(&program).unwrap_or_default();
    assert_eq!(first.len(), 1);
    assert_eq!(second.len(), 1);
    assert_eq!(first[0].label, second[0].label);
    assert_eq!(first[0].body, second[0].body);
    assert_eq!(
        first[0].body,
        vec![
            Inst::Li { rd: Reg::Temp(0), imm: 3 },
            Inst::Xor { rd: Reg::Temp(1), lhs: Reg::Temp(0), rhs: Reg::Zero },
            Inst::Seqz { rd: Reg::Temp(1), rs: Reg::Temp(1) },
            Inst::Mv { rd: Reg::ReturnValue, rs: Reg::Temp(1) },
            Inst::Ret,
        ]
    );
}

#[test]
fn a_parsed_program_compiles() {
    let program = parse("fun @main(): i32 {\n%entry:\n  %0 = sub 9, 4\n  %1 = eq %0, 5\n  ret %1\n}\n");
    assert_eq!(
        compile(program),
        Ok(".text\n.globl main\nmain:\nli t0, 9\nli t1, 4\nsub t1, t0, t1\nli t2, 5\nxor t2, t1, t2\nseqz t2, t2\nmv a0, t2\nret\n\n"
            .to_string())
    );
}

#[test]
fn a_parsed_program_with_a_jump_is_unimplemented() {
    let program = parse("fun @main(): i32 {\n%entry:\n  jump %end\n%end:\n  ret 0\n}\n");
    assert_eq!(compile(program), Err(CompileError::UnimplementedValue));
}

#[test]
fn an_instruction_listed_in_two_blocks_is_generated_once() {
    let (mut program, func) = program_with("@main");
    let a = integer(&mut program, func, 1);
    let b = integer(&mut program, func, 2);
    let sub = operation(&mut program, func, BinaryOp::Sub, a, b);
    block(&mut program, func, "%one", &[sub]);
    block(&mut program, func, "%two", &[sub]);
    assert_eq!(
        compile(program),
        Ok(".text\n.globl main\nmain:\nli t0, 1\nli t1, 2\nsub t1, t0, t1\n\n".to_string())
    );
}

#[test]
fn an_unhandled_value_leaves_code_and_backend_as_they_were() {
    let (mut program, func) = program_with("@main");
    let seven = integer(&mut program, func, 7);
    let slot = program.func_mut(func).dfg_mut().new_value().alloc(Type::get_i32());
    let mut code = Vec::new();
    let mut backend = RegisterBackend::new();
    assert_eq!(generate_ins(&program, func, seven, &mut code, &mut backend, 2), Ok(Some(Reg::Temp(0))));
    let before = code.clone();
    assert_eq!(
        generate_ins(&program, func, slot, &mut code, &mut backend, 2),
        Err(CompileError::UnimplementedValue)
    );
    assert_eq!(code, before);
    assert_eq!(backend.lookup(slot), None);
    assert_eq!(backend.lookup(seven), Some(Reg::Temp(0)));
    let other = integer(&mut program, func, 8);
    assert_eq!(backend.allocate(other, None), Reg::Temp(1));
}

#[test]
fn an_unimplemented_operator_appends_no_line_for_itself() {
    let (mut program, func) = program_with("@main");
    let a = integer(&mut program, func, 1);
    let b = integer(&mut program, func, 2);
    let add = operation(&mut program, func, BinaryOp::Add, a, b);
    let mut code = vec![Inst::Ret];
    let mut backend = RegisterBackend::new();
    assert_eq!(
        generate_ins(&program, func, add, &mut code, &mut backend, 2),
        Err(CompileError::UnimplementedOperator(IrOp::Add))
    );
    assert_eq!(
        code,
        vec![Inst::Ret, Inst::Li { rd: Reg::Temp(0), imm: 1 }, Inst::Li { rd: Reg::Temp(1), imm: 2 }]
    );
    assert_eq!(backend.lookup(add), None);
    assert_eq!(backend.lookup(a), Some(Reg::Temp(0)));
    assert_eq!(backend.lookup(b), Some(Reg::Temp(1)));
}

#[test]
fn a_failure_for_want_of_depth_changes_nothing() {
    let (mut program, func) = program_with("@main");
    let a = integer(&mut program, func, 1);
    let mut code = vec![Inst::Ret];
    let mut backend = RegisterBackend::new();
    assert_eq!(
        generate_ins(&program, func, a, &mut code, &mut backend, 0),
        Err(CompileError::MalformedProgram)
    );
    assert_eq!(code, vec![Inst::Ret]);
    assert_eq!(backend.lookup(a), None);
}

#[test]
fn a_failed_block_keeps_what_was_generated_before_the_failure() {
    let (mut program, func) = program_with("@main");
    let a = integer(&mut program, func, 4);
    let b = integer(&mut program, func, 6);
    let good = operation(&mut program, func, BinaryOp::Sub, a, b);
    let bad = operation(&mut program, func, BinaryOp::Shl, good, a);
    let later = operation(&mut program, func, BinaryOp::Sub, b, a);
    let insts = vec![good, bad, later];
    let mut code = Vec::new();
    let mut backend = RegisterBackend::new();
    assert_eq!(
        generate_insts(&program, func, &insts, &mut code, &mut backend, 4),
        Err(CompileError::UnimplementedOperator(IrOp::Shl))
    );
    assert_eq!(
        code,
        vec![
            Inst::Li { rd: Reg::Temp(0), imm: 4 },
            Inst::Li { rd: Reg::Temp(1), imm: 6 },
            Inst::Sub { rd: Reg::Temp(1), lhs: Reg::Temp(0), rhs: Reg::Temp(1) },
        ]
    );
    assert_eq!(backend.lookup(good), Some(Reg::Temp(1)));
    assert_eq!(backend.lookup(bad), None);
    assert_eq!(backend.lookup(later), None);
}

#[test]
fn a_failed_function_leaves_the_backend_as_it_was_at_the_failure() {
    let (mut program, func) = program_with("@main");
    let a = integer(&mut program, func, 4);
    let slot = program.func_mut(func).dfg_mut().new_value().alloc(Type::get_i32());
    let r = ret(&mut program, func, Some(a));
    block(&mut program, func, "%entry", &[r, slot]);
    let mut backend = RegisterBackend::new();
    assert!(matches!(
        generate_function(&program, func, &mut backend),
        Err(CompileError::UnimplementedValue)
    ));
    assert_eq!(backend.lookup(a), Some(Reg::Temp(0)));
    assert_eq!(backend.lookup(slot), None);
    program.func_mut(func).set_name("@".to_string());
    let mut fresh = RegisterBackend::new();
    assert!(matches!(
        generate_function(&program, func, &mut fresh),
        Err(CompileError::InvalidFunctionName)
    ));
    assert_eq!(fresh.lookup(a), None);
}
