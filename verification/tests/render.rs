use sysy_backend::codegen::inst::{push_body, push_inst, push_int, push_nat, push_reg, Inst, Reg};
use sysy_backend::codegen::{render_assembly, FunctionAssembly};

#[test]
fn natural_numbers_in_decimal() {
    let cases: [(u64, &str); 8] = [
        (0, "0"),
        (7, "7"),
        (9, "9"),
        (10, "10"),
        (99, "99"),
        (100, "100"),
        (1234567890, "1234567890"),
        (u64::MAX, "18446744073709551615"),
    ];
    for (n, expected) in cases {
        let mut out = String::new();
        push_nat(&mut out, n);
        assert_eq!(out, expected);
    }
}

#[test]
fn push_nat_appends_to_what_is_there() {
    let mut out = String::from("t");
    push_nat(&mut out, 42);
    push_nat(&mut out, 0);
    assert_eq!(out, "t420");
}

#[test]
fn integers_in_decimal() {
    let cases: [(i32, &str); 8] = [
        (0, "0"),
        (1, "1"),
        (-1, "-1"),
        (10, "10"),
        (-10, "-10"),
        (305, "305"),
        (i32::MAX, "2147483647"),
        (i32::MIN, "-2147483648"),
    ];
    for (n, expected) in cases {
        let mut out = String::new();
        push_int(&mut out, n);
        assert_eq!(out, expected);
    }
}

#[test]
fn register_names() {
    let cases = [
        (Reg::Zero, "x0"),
        (Reg::ReturnValue, "a0"),
        (Reg::Temp(0), "t0"),
        (Reg::Temp(6), "t6"),
        (Reg::Temp(10), "t10"),
        (Reg::Temp(123456), "t123456"),
    ];
    for (reg, expected) in cases {
        let mut out = String::new();
        push_reg(&mut out, reg);
        assert_eq!(out, expected);
    }
}

#[test]
fn instruction_text() {
    let t0 = Reg::Temp(0);
    let t1 = Reg::Temp(1);
    assert_eq!(Inst::Li { rd: t0, imm: -17 }.render(), "li t0, -17");
    assert_eq!(Inst::Li { rd: Reg::ReturnValue, imm: 0 }.render(), "li a0, 0");
    assert_eq!(Inst::Sub { rd: t1, lhs: t0, rhs: t1 }.render(), "sub t1, t0, t1");
    assert_eq!(Inst::Sub { rd: t0, lhs: Reg::Zero, rhs: t0 }.render(), "sub t0, x0, t0");
    assert_eq!(Inst::Xor { rd: t1, lhs: t0, rhs: t1 }.render(), "xor t1, t0, t1");
    assert_eq!(Inst::Seqz { rd: t1, rs: t0 }.render(), "seqz t1, t0");
    assert_eq!(Inst::Mv { rd: Reg::ReturnValue, rs: t1 }.render(), "mv a0, t1");
    assert_eq!(Inst::Ret.render(), "ret");
}

#[test]
fn push_inst_appends_without_line_end() {
    let mut out = String::from("  ");
    push_inst(&mut out, Inst::Ret);
    push_inst(&mut out, Inst::Mv { rd: Reg::Temp(2), rs: Reg::Zero });
    assert_eq!(out, "  retmv t2, x0");
}

#[test]
fn body_is_one_instruction_per_line() {
    let body = vec![
        Inst::Li { rd: Reg::Temp(0), imm: 3 },
        Inst::Mv { rd: Reg::ReturnValue, rs: Reg::Temp(0) },
        Inst::Ret,
    ];
    let mut out = String::from("f:\n");
    push_body(&mut out, &body);
    assert_eq!(out, "f:\nli t0, 3\nmv a0, t0\nret\n");
}

#[test]
fn empty_body_adds_nothing() {
    let mut out = String::from("f:\n");
    push_body(&mut out, &Vec::new());
    assert_eq!(out, "f:\n");
}

#[test]
fn assembly_without_functions() {
    assert_eq!(render_assembly(&Vec::new()), ".text\n.globl main\n\n");
}

#[test]
fn assembly_with_two_functions() {
    let functions = vec![
        FunctionAssembly {
            label: "main".to_string(),
            body: vec![Inst::Li { rd: Reg::ReturnValue, imm: 0 }, Inst::Ret],
        },
        FunctionAssembly { label: "other".to_string(), body: vec![Inst::Ret] },
    ];
    assert_eq!(
        render_assembly(&functions),
        ".text\n.globl main\nmain:\nli a0, 0\nret\nother:\nret\n\n"
    );
}
