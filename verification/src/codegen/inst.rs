//! Registers and machine instructions, and how they are written as text.

use vstd::prelude::*;

verus! {

/// A register of the target machine.
#[derive(Clone, Copy, Debug, PartialEq, Eq, Structural)]
pub enum Reg {
    /// `x0`, which always reads as zero.
    Zero,
    /// `a0`, which holds the value that a function returns.
    ReturnValue,
    /// `t0`, `t1`, ...: a scratch register, by its number.
    Temp(usize),
}

/// A machine instruction.
#[derive(Clone, Copy, Debug, PartialEq, Eq, Structural)]
pub enum Inst {
    /// `li rd, imm`: load an immediate.
    Li { rd: Reg, imm: i32 },
    /// `sub rd, lhs, rhs`: subtract register from register.
    Sub { rd: Reg, lhs: Reg, rhs: Reg },
    /// `xor rd, lhs, rhs`: bitwise exclusive or.
    Xor { rd: Reg, lhs: Reg, rhs: Reg },
    /// `seqz rd, rs`: set `rd` to one if `rs` is zero, else to zero.
    Seqz { rd: Reg, rs: Reg },
    /// `mv rd, rs`: copy a register.
    Mv { rd: Reg, rs: Reg },
    /// `ret`: return to the caller.
    Ret,
}

/// The text of a decimal digit.
pub open spec fn digit_text(d: int) -> Seq<char> {
    if d == 0 {
        "0"@
    } else if d == 1 {
        "1"@
    } else if d == 2 {
        "2"@
    } else if d == 3 {
        "3"@
    } else if d == 4 {
        "4"@
    } else if d == 5 {
        "5"@
    } else if d == 6 {
        "6"@
    } else if d == 7 {
        "7"@
    } else if d == 8 {
        "8"@
    } else {
        "9"@
    }
}

/// A natural number in decimal, without leading zeros.
pub open spec fn nat_text(n: nat) -> Seq<char>
    decreases n,
{
    if n < 10 {
        digit_text(n as int)
    } else {
        nat_text(n / 10) + digit_text((n % 10) as int)
    }
}

/// An integer in decimal, with a minus sign if it is negative.
pub open spec fn int_text(n: int) -> Seq<char> {
    if n < 0 {
        "-"@ + nat_text((-n) as nat)
    } else {
        nat_text(n as nat)
    }
}

/// The name of a register.
pub open spec fn reg_text(reg: Reg) -> Seq<char> {
    match reg {
        Reg::Zero => "x0"@,
        Reg::ReturnValue => "a0"@,
        Reg::Temp(n) => "t"@ + nat_text(n as nat),
    }
}

/// An instruction as one line of assembly, without the line end.
pub open spec fn inst_text(inst: Inst) -> Seq<char> {
    match inst {
        Inst::Li { rd, imm } => "li "@ + reg_text(rd) + ", "@ + int_text(imm as int),
        Inst::Sub { rd, lhs, rhs } => "sub "@ + reg_text(rd) + ", "@ + reg_text(lhs) + ", "@
            + reg_text(rhs),
        Inst::Xor { rd, lhs, rhs } => "xor "@ + reg_text(rd) + ", "@ + reg_text(lhs) + ", "@
            + reg_text(rhs),
        Inst::Seqz { rd, rs } => "seqz "@ + reg_text(rd) + ", "@ + reg_text(rs),
        Inst::Mv { rd, rs } => "mv "@ + reg_text(rd) + ", "@ + reg_text(rs),
        Inst::Ret => "ret"@,
    }
}

/// The instructions of a function body as text, one per line.
pub open spec fn body_text(body: Seq<Inst>) -> Seq<char>
    decreases body.len(),
{
    if body.len() == 0 {
        Seq::empty()
    } else {
        body_text(body.drop_last()) + inst_text(body.last()) + "\n"@
    }
}

fn digit_str(d: u64) -> (s: &'static str)
    requires
        d < 10,
    ensures
        s@ == digit_text(d as int),
{
    if d == 0 {
        "0"
    } else if d == 1 {
        "1"
    } else if d == 2 {
        "2"
    } else if d == 3 {
        "3"
    } else if d == 4 {
        "4"
    } else if d == 5 {
        "5"
    } else if d == 6 {
        "6"
    } else if d == 7 {
        "7"
    } else if d == 8 {
        "8"
    } else {
        "9"
    }
}

/// Appends a natural number in decimal.
pub fn push_nat(out: &mut String, n: u64)
    ensures
        final(out)@ == old(out)@ + nat_text(n as nat),
    decreases n,
{
    if n >= 10 {
        push_nat(out, n / 10);
    }
    out.append(digit_str(n % 10));
    assert(final(out)@ =~= old(out)@ + nat_text(n as nat));
}

/// Appends an integer in decimal.
pub fn push_int(out: &mut String, n: i32)
    ensures
        final(out)@ == old(out)@ + int_text(n as int),
{
    if n < 0 {
        out.append("-");
        let magnitude: i64 = -(n as i64);
        push_nat(out, magnitude as u64);
    } else {
        push_nat(out, n as u64);
    }
    assert(final(out)@ =~= old(out)@ + int_text(n as int));
}

/// Appends the name of a register.
pub fn push_reg(out: &mut String, reg: Reg)
    ensures
        final(out)@ == old(out)@ + reg_text(reg),
{
    match reg {
        Reg::Zero => out.append("x0"),
        Reg::ReturnValue => out.append("a0"),
        Reg::Temp(n) => {
            out.append("t");
            push_nat(out, n as u64);
        },
    }
    assert(final(out)@ =~= old(out)@ + reg_text(reg));
}

/// Appends an instruction as one line of assembly, without the line end.
pub fn push_inst(out: &mut String, inst: Inst)
    ensures
        final(out)@ == old(out)@ + inst_text(inst),
{
    match inst {
        Inst::Li { rd, imm } => {
            out.append("li ");
            push_reg(out, rd);
            out.append(", ");
            push_int(out, imm);
        },
        Inst::Sub { rd, lhs, rhs } => {
            out.append("sub ");
            push_reg(out, rd);
            out.append(", ");
            push_reg(out, lhs);
            out.append(", ");
            push_reg(out, rhs);
        },
        Inst::Xor { rd, lhs, rhs } => {
            out.append("xor ");
            push_reg(out, rd);
            out.append(", ");
            push_reg(out, lhs);
            out.append(", ");
            push_reg(out, rhs);
        },
        Inst::Seqz { rd, rs } => {
            out.append("seqz ");
            push_reg(out, rd);
            out.append(", ");
            push_reg(out, rs);
        },
        Inst::Mv { rd, rs } => {
            out.append("mv ");
            push_reg(out, rd);
            out.append(", ");
            push_reg(out, rs);
        },
        Inst::Ret => {
            out.append("ret");
        },
    }
    assert(final(out)@ =~= old(out)@ + inst_text(inst));
}

/// Appends the instructions of a function body, one per line.
pub fn push_body(out: &mut String, body: &Vec<Inst>)
    ensures
        final(out)@ == old(out)@ + body_text(body@),
{
    let mut i: usize = 0;
    assert(body@.take(0) =~= Seq::<Inst>::empty());
    while i < body.len()
        invariant
            i <= body.len(),
            out@ == old(out)@ + body_text(body@.take(i as int)),
        decreases body.len() - i,
    {
        push_inst(out, body[i]);
        out.append("\n");
        proof {
            let next = body@.take(i + 1);
            assert(next.drop_last() =~= body@.take(i as int));
            assert(next.last() == body@[i as int]);
            assert(out@ =~= old(out)@ + body_text(next));
        }
        i += 1;
    }
    assert(body@.take(body.len() as int) =~= body@);
}

impl Inst {
    /// The instruction as one line of assembly, without the line end.
    pub fn render(&self) -> (text: String)
        ensures
            text@ == inst_text(*self),
    {
        let mut text = String::new();
        push_inst(&mut text, *self);
        assert(text@ =~= inst_text(*self));
        text
    }
}

} // verus!
