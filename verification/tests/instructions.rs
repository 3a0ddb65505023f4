use compiler::parser::error::CompileError;
use compiler::parser::ir::ops::{flag, fold, wrapping_quotient, wrapping_remainder};
use compiler::parser::riscv::inst::{select_binary, Arith, Instr, Unary};
use compiler::parser::riscv::text::decimal_string;
use koopa::ir::BinaryOp;

/// A machine for the instructions the compiler emits, to run what was
/// selected.  Register 0 reads as zero.
fn run(code: &[Instr], regs: &mut [i32; 16]) {
    fn read(regs: &[i32; 16], r: u8) -> i32 {
        if r == 0 {
            0
        } else {
            regs[r as usize]
        }
    }
    for inst in code {
        let (rd, value) = match *inst {
            Instr::Li(rd, imm) => (rd, imm),
            Instr::Un(op, rd, rs) => {
                let a = read(regs, rs);
                let v = match op {
                    Unary::Mv => a,
                    Unary::Seqz => (a == 0) as i32,
                    Unary::Snez => (a != 0) as i32,
                };
                (rd, v)
            }
            Instr::Bin(op, rd, rs1, rs2) => {
                let a = read(regs, rs1);
                let b = read(regs, rs2);
                let v = match op {
                    Arith::Add => a.wrapping_add(b),
                    Arith::Sub => a.wrapping_sub(b),
                    Arith::Mul => a.wrapping_mul(b),
                    Arith::Div => {
                        if b == 0 {
                            -1
                        } else {
                            a.wrapping_div(b)
                        }
                    }
                    Arith::Rem => {
                        if b == 0 {
                            a
                        } else {
                            a.wrapping_rem(b)
                        }
                    }
                    Arith::Slt => (a < b) as i32,
                    Arith::And => a & b,
                    Arith::Or => a | b,
                };
                (rd, v)
            }
            Instr::Ret => continue,
        };
        if rd != 0 {
            regs[rd as usize] = value;
        }
    }
}

const OPS: [BinaryOp; 13] = [
    BinaryOp::NotEq,
    BinaryOp::Eq,
    BinaryOp::Gt,
    BinaryOp::Lt,
    BinaryOp::Ge,
    BinaryOp::Le,
    BinaryOp::Add,
    BinaryOp::Sub,
    BinaryOp::Mul,
    BinaryOp::Div,
    BinaryOp::Mod,
    BinaryOp::And,
    BinaryOp::Or,
];

#[test]
fn folding_agrees_with_the_selected_instructions() {
    let samples = [0, 1, -1, 2, 3, 7, -7, 10, i32::MAX, i32::MIN, 123456, -98765];
    for op in OPS {
        for &a in &samples {
            for &b in &samples {
                let folded = fold(op, a, b);
                if (op == BinaryOp::Div || op == BinaryOp::Mod) && b == 0 {
                    assert_eq!(folded, Err(CompileError::DivisionByZero));
                    continue;
                }
                let code = select_binary(op, 3, 1, 2).unwrap();
                let mut regs = [0i32; 16];
                regs[1] = a;
                regs[2] = b;
                run(&code, &mut regs);
                assert_eq!(folded, Ok(regs[3]), "{:?} {} {}", op, a, b);
            }
        }
    }
}

#[test]
fn folded_values() {
    assert_eq!(fold(BinaryOp::Add, 3, 4), Ok(7));
    assert_eq!(fold(BinaryOp::Add, i32::MAX, 1), Ok(i32::MIN));
    assert_eq!(fold(BinaryOp::Sub, i32::MIN, 1), Ok(i32::MAX));
    assert_eq!(fold(BinaryOp::Mul, 65536, 65536), Ok(0));
    assert_eq!(fold(BinaryOp::Div, 10, 3), Ok(3));
    assert_eq!(fold(BinaryOp::Div, -10, 3), Ok(-3));
    assert_eq!(fold(BinaryOp::Div, 10, -3), Ok(-3));
    assert_eq!(fold(BinaryOp::Div, -10, -3), Ok(3));
    assert_eq!(fold(BinaryOp::Div, i32::MIN, -1), Ok(i32::MIN));
    assert_eq!(fold(BinaryOp::Mod, 10, 3), Ok(1));
    assert_eq!(fold(BinaryOp::Mod, -10, 3), Ok(-1));
    assert_eq!(fold(BinaryOp::Mod, 10, -3), Ok(1));
    assert_eq!(fold(BinaryOp::Mod, i32::MIN, -1), Ok(0));
    assert_eq!(fold(BinaryOp::Div, 1, 0), Err(CompileError::DivisionByZero));
    assert_eq!(fold(BinaryOp::Mod, 1, 0), Err(CompileError::DivisionByZero));
    assert_eq!(fold(BinaryOp::Eq, 2, 2), Ok(1));
    assert_eq!(fold(BinaryOp::NotEq, 2, 2), Ok(0));
    assert_eq!(fold(BinaryOp::Lt, 1, 2), Ok(1));
    assert_eq!(fold(BinaryOp::Gt, 1, 2), Ok(0));
    assert_eq!(fold(BinaryOp::Le, 2, 2), Ok(1));
    assert_eq!(fold(BinaryOp::Ge, 1, 2), Ok(0));
    assert_eq!(fold(BinaryOp::And, 6, 3), Ok(2));
    assert_eq!(fold(BinaryOp::Or, 6, 3), Ok(7));
    assert_eq!(fold(BinaryOp::Xor, 6, 3), Err(CompileError::InvalidProgram));
    assert_eq!(fold(BinaryOp::Shl, 1, 1), Err(CompileError::InvalidProgram));
    assert_eq!(fold(BinaryOp::Shr, 1, 1), Err(CompileError::InvalidProgram));
    assert_eq!(fold(BinaryOp::Sar, 1, 1), Err(CompileError::InvalidProgram));
    assert_eq!(flag(true), 1);
    assert_eq!(flag(false), 0);
    assert_eq!(wrapping_quotient(-7, 2), -3);
    assert_eq!(wrapping_remainder(-7, 2), -1);
}

fn texts(op: BinaryOp) -> Vec<String> {
    select_binary(op, 3, 1, 2)
        .unwrap()
        .into_iter()
        .map(|i| i.render())
        .collect()
}

#[test]
fn selected_templates() {
    assert_eq!(texts(BinaryOp::Eq), ["sub t2, t0, t1", "seqz t2, t2"]);
    assert_eq!(texts(BinaryOp::NotEq), ["sub t2, t0, t1", "snez t2, t2"]);
    assert_eq!(texts(BinaryOp::Lt), ["slt t2, t0, t1"]);
    assert_eq!(texts(BinaryOp::Gt), ["slt t2, t1, t0"]);
    assert_eq!(texts(BinaryOp::Le), ["slt t2, t1, t0", "seqz t2, t2"]);
    assert_eq!(texts(BinaryOp::Ge), ["slt t2, t0, t1", "seqz t2, t2"]);
    assert_eq!(texts(BinaryOp::And), ["and t2, t0, t1"]);
    assert_eq!(texts(BinaryOp::Or), ["or t2, t0, t1"]);
    assert_eq!(texts(BinaryOp::Add), ["add t2, t0, t1"]);
    assert_eq!(texts(BinaryOp::Sub), ["sub t2, t0, t1"]);
    assert_eq!(texts(BinaryOp::Mul), ["mul t2, t0, t1"]);
    assert_eq!(texts(BinaryOp::Div), ["div t2, t0, t1"]);
    assert_eq!(texts(BinaryOp::Mod), ["rem t2, t0, t1"]);
    assert_eq!(
        select_binary(BinaryOp::Xor, 3, 1, 2),
        Err(CompileError::InvalidProgram)
    );
}

#[test]
fn instruction_texts() {
    assert_eq!(Instr::Li(15, 7).render(), "li a0, 7");
    assert_eq!(Instr::Li(1, -1).render(), "li t0, -1");
    assert_eq!(Instr::Un(Unary::Mv, 15, 8).render(), "mv a0, a7");
    assert_eq!(Instr::Un(Unary::Seqz, 2, 2).render(), "seqz t1, t1");
    assert_eq!(Instr::Un(Unary::Snez, 9, 0).render(), "snez a1, x0");
    assert_eq!(Instr::Bin(Arith::Rem, 14, 7, 1).render(), "rem a6, t6, t0");
    assert_eq!(Instr::Ret.render(), "ret");
}

#[test]
fn decimal_numerals() {
    assert_eq!(decimal_string(0), "0");
    assert_eq!(decimal_string(9), "9");
    assert_eq!(decimal_string(10), "10");
    assert_eq!(decimal_string(-1), "-1");
    assert_eq!(decimal_string(1234567890), "1234567890");
    assert_eq!(decimal_string(i32::MAX), "2147483647");
    assert_eq!(decimal_string(i32::MIN), "-2147483648");
}
