//! The instructions the compiler emits: their text, what they do to the
//! registers, and which of them stand for each operator of the IR.
use vstd::prelude::*;
use vstd::string::StringExecFns;
use koopa::ir::BinaryOp;
use crate::parser::error::CompileError;
use crate::parser::ir::ops::{fold_binary, supported, trunc_div, trunc_rem, truth, wrap32};
use crate::parser::riscv::gen::{name_of, reg_name, Reg, POOL_SIZE, ZERO_REG};
use crate::parser::riscv::text::{decimal, push_decimal};

verus! {

/// The operations with two source registers.
#[derive(Copy, Clone, Debug, PartialEq, Eq, Structural)]
pub enum Arith {
    Add,
    Sub,
    Mul,
    Div,
    Rem,
    Slt,
    And,
    Or,
}

/// The operations with one source register.
#[derive(Copy, Clone, Debug, PartialEq, Eq, Structural)]
pub enum Unary {
    Mv,
    Seqz,
    Snez,
}

/// One instruction.  The destination comes first, as in the text.
#[derive(Copy, Clone, Debug, PartialEq, Eq, Structural)]
pub enum Instr {
    /// Load an immediate.
    Li(Reg, i32),
    Un(Unary, Reg, Reg),
    Bin(Arith, Reg, Reg, Reg),
    Ret,
}

/// The registers of the machine, by pool number.
pub type Machine = Seq<i32>;

impl Arith {
    pub open spec fn mnemonic(self) -> Seq<char> {
        match self {
            Arith::Add => "add"@,
            Arith::Sub => "sub"@,
            Arith::Mul => "mul"@,
            Arith::Div => "div"@,
            Arith::Rem => "rem"@,
            Arith::Slt => "slt"@,
            Arith::And => "and"@,
            Arith::Or => "or"@,
        }
    }

    /// What the operation leaves in its destination.  Division by zero
    /// gives all ones and leaves the dividend as the remainder, as the
    /// machine does.
    pub open spec fn apply(self, a: i32, b: i32) -> i32 {
        match self {
            Arith::Add => wrap32(a + b),
            Arith::Sub => wrap32(a - b),
            Arith::Mul => wrap32(a * b),
            Arith::Div => if b == 0 {
                -1i32
            } else {
                wrap32(trunc_div(a as int, b as int))
            },
            Arith::Rem => if b == 0 {
                a
            } else {
                wrap32(trunc_rem(a as int, b as int))
            },
            Arith::Slt => truth(a < b),
            Arith::And => a & b,
            Arith::Or => a | b,
        }
    }

    fn name(self) -> (s: &'static str)
        ensures
            s@ == self.mnemonic(),
    {
        match self {
            Arith::Add => "add",
            Arith::Sub => "sub",
            Arith::Mul => "mul",
            Arith::Div => "div",
            Arith::Rem => "rem",
            Arith::Slt => "slt",
            Arith::And => "and",
            Arith::Or => "or",
        }
    }
}

impl Unary {
    pub open spec fn mnemonic(self) -> Seq<char> {
        match self {
            Unary::Mv => "mv"@,
            Unary::Seqz => "seqz"@,
            Unary::Snez => "snez"@,
        }
    }

    pub open spec fn apply(self, a: i32) -> i32 {
        match self {
            Unary::Mv => a,
            Unary::Seqz => truth(a == 0),
            Unary::Snez => truth(a != 0),
        }
    }

    fn name(self) -> (s: &'static str)
        ensures
            s@ == self.mnemonic(),
    {
        match self {
            Unary::Mv => "mv",
            Unary::Seqz => "seqz",
            Unary::Snez => "snez",
        }
    }
}

/// What register `r` reads as.
pub open spec fn read(m: Machine, r: Reg) -> i32 {
    if r == ZERO_REG {
        0
    } else {
        m[r as int]
    }
}

/// The machine after `v` is written to register `r`.  A write to the zero
/// register is lost.
pub open spec fn assign(m: Machine, r: Reg, v: i32) -> Machine {
    if r == ZERO_REG {
        m
    } else {
        m.update(r as int, v)
    }
}

/// The machine after a sequence of instructions.
pub open spec fn run(m: Machine, code: Seq<Instr>) -> Machine
    decreases code.len(),
{
    if code.len() == 0 {
        m
    } else {
        run(code[0].step(m), code.skip(1))
    }
}

impl Instr {
    /// Every register the instruction names is one of the pool.
    pub open spec fn wf(self) -> bool {
        match self {
            Instr::Li(rd, _) => rd < POOL_SIZE,
            Instr::Un(_, rd, rs) => rd < POOL_SIZE && rs < POOL_SIZE,
            Instr::Bin(_, rd, rs1, rs2) => rd < POOL_SIZE && rs1 < POOL_SIZE && rs2 < POOL_SIZE,
            Instr::Ret => true,
        }
    }

    /// The machine after the instruction.
    pub open spec fn step(self, m: Machine) -> Machine {
        match self {
            Instr::Li(rd, imm) => assign(m, rd, imm),
            Instr::Un(op, rd, rs) => assign(m, rd, op.apply(read(m, rs))),
            Instr::Bin(op, rd, rs1, rs2) => assign(m, rd, op.apply(read(m, rs1), read(m, rs2))),
            Instr::Ret => m,
        }
    }

    /// The instruction as assembly text, without indentation.
    pub open spec fn text(self) -> Seq<char> {
        match self {
            Instr::Li(rd, imm) => "li "@ + reg_name(rd) + ", "@ + decimal(imm as int),
            Instr::Un(op, rd, rs) => op.mnemonic() + " "@ + reg_name(rd) + ", "@ + reg_name(rs),
            Instr::Bin(op, rd, rs1, rs2) => op.mnemonic() + " "@ + reg_name(rd) + ", "@ + reg_name(
                rs1,
            ) + ", "@ + reg_name(rs2),
            Instr::Ret => "ret"@,
        }
    }

    /// Writes the instruction out.
    pub fn render(self) -> (s: String)
        requires
            self.wf(),
        ensures
            s@ == self.text(),
    {
        match self {
            Instr::Li(rd, imm) => {
                let mut s = String::from_str("li ");
                s.append(name_of(rd));
                s.append(", ");
                push_decimal(&mut s, imm);
                s
            },
            Instr::Un(op, rd, rs) => {
                let mut s = String::from_str(op.name());
                s.append(" ");
                s.append(name_of(rd));
                s.append(", ");
                s.append(name_of(rs));
                s
            },
            Instr::Bin(op, rd, rs1, rs2) => {
                let mut s = String::from_str(op.name());
                s.append(" ");
                s.append(name_of(rd));
                s.append(", ");
                s.append(name_of(rs1));
                s.append(", ");
                s.append(name_of(rs2));
                s
            },
            Instr::Ret => String::from_str("ret"),
        }
    }
}

/// The instructions that leave `lhs op rhs` in `rd`.  Equality subtracts and
/// tests for zero; "greater" is "less" with the operands exchanged; "at most"
/// and "at least" negate the opposite strict comparison.
pub open spec fn select(op: BinaryOp, rd: Reg, lhs: Reg, rhs: Reg) -> Seq<Instr> {
    match op {
        BinaryOp::Eq => seq![Instr::Bin(Arith::Sub, rd, lhs, rhs), Instr::Un(Unary::Seqz, rd, rd)],
        BinaryOp::NotEq => seq![
            Instr::Bin(Arith::Sub, rd, lhs, rhs),
            Instr::Un(Unary::Snez, rd, rd),
        ],
        BinaryOp::Lt => seq![Instr::Bin(Arith::Slt, rd, lhs, rhs)],
        BinaryOp::Gt => seq![Instr::Bin(Arith::Slt, rd, rhs, lhs)],
        BinaryOp::Le => seq![Instr::Bin(Arith::Slt, rd, rhs, lhs), Instr::Un(Unary::Seqz, rd, rd)],
        BinaryOp::Ge => seq![Instr::Bin(Arith::Slt, rd, lhs, rhs), Instr::Un(Unary::Seqz, rd, rd)],
        BinaryOp::And => seq![Instr::Bin(Arith::And, rd, lhs, rhs)],
        BinaryOp::Or => seq![Instr::Bin(Arith::Or, rd, lhs, rhs)],
        BinaryOp::Add => seq![Instr::Bin(Arith::Add, rd, lhs, rhs)],
        BinaryOp::Sub => seq![Instr::Bin(Arith::Sub, rd, lhs, rhs)],
        BinaryOp::Mul => seq![Instr::Bin(Arith::Mul, rd, lhs, rhs)],
        BinaryOp::Div => seq![Instr::Bin(Arith::Div, rd, lhs, rhs)],
        BinaryOp::Mod => seq![Instr::Bin(Arith::Rem, rd, lhs, rhs)],
        _ => seq![],
    }
}

/// Selects the instructions for one binary operation on registers.
pub fn select_binary(op: BinaryOp, rd: Reg, lhs: Reg, rhs: Reg) -> (r: Result<
    Vec<Instr>,
    CompileError,
>)
    ensures
        supported(op) ==> r is Ok && r->Ok_0@ == select(op, rd, lhs, rhs),
        !supported(op) ==> r == Err::<Vec<Instr>, CompileError>(CompileError::InvalidProgram),
{
    let mut code: Vec<Instr> = Vec::new();
    match op {
        BinaryOp::Eq => {
            code.push(Instr::Bin(Arith::Sub, rd, lhs, rhs));
            code.push(Instr::Un(Unary::Seqz, rd, rd));
        },
        BinaryOp::NotEq => {
            code.push(Instr::Bin(Arith::Sub, rd, lhs, rhs));
            code.push(Instr::Un(Unary::Snez, rd, rd));
        },
        BinaryOp::Lt => {
            code.push(Instr::Bin(Arith::Slt, rd, lhs, rhs));
        },
        BinaryOp::Gt => {
            code.push(Instr::Bin(Arith::Slt, rd, rhs, lhs));
        },
        BinaryOp::Le => {
            code.push(Instr::Bin(Arith::Slt, rd, rhs, lhs));
            code.push(Instr::Un(Unary::Seqz, rd, rd));
        },
        BinaryOp::Ge => {
            code.push(Instr::Bin(Arith::Slt, rd, lhs, rhs));
            code.push(Instr::Un(Unary::Seqz, rd, rd));
        },
        BinaryOp::And => {
            code.push(Instr::Bin(Arith::And, rd, lhs, rhs));
        },
        BinaryOp::Or => {
            code.push(Instr::Bin(Arith::Or, rd, lhs, rhs));
        },
        BinaryOp::Add => {
            code.push(Instr::Bin(Arith::Add, rd, lhs, rhs));
        },
        BinaryOp::Sub => {
            code.push(Instr::Bin(Arith::Sub, rd, lhs, rhs));
        },
        BinaryOp::Mul => {
            code.push(Instr::Bin(Arith::Mul, rd, lhs, rhs));
        },
        BinaryOp::Div => {
            code.push(Instr::Bin(Arith::Div, rd, lhs, rhs));
        },
        BinaryOp::Mod => {
            code.push(Instr::Bin(Arith::Rem, rd, lhs, rhs));
        },
        _ => {
            return Err(CompileError::InvalidProgram);
        },
    }
    assert(code@ =~= select(op, rd, lhs, rhs));
    Ok(code)
}

/// Running a piece of code and then another is running the two in a row.
pub proof fn lemma_run_concat(m: Machine, first: Seq<Instr>, second: Seq<Instr>)
    ensures
        run(m, first + second) == run(run(m, first), second),
    decreases first.len(),
{
    if first.len() == 0 {
        assert(first + second =~= second);
    } else {
        assert((first + second)[0] == first[0]);
        assert((first + second).skip(1) =~= first.skip(1) + second);
        lemma_run_concat(first[0].step(m), first.skip(1), second);
    }
}

/// The selected instructions compute what constant folding computes: run on
/// a machine whose registers `lhs` and `rhs` hold `a` and `b`, they leave
/// the folded value of `a op b` in `rd` and every other register as it was.
/// A zero divisor is left out: folding rejects it.
pub proof fn lemma_select_matches_fold(op: BinaryOp, rd: Reg, lhs: Reg, rhs: Reg, m: Machine)
    requires
        supported(op),
        m.len() == POOL_SIZE,
        0 < rd < POOL_SIZE,
        lhs < POOL_SIZE,
        rhs < POOL_SIZE,
        (op is Div || op is Mod) ==> read(m, rhs) != 0,
    ensures
        fold_binary(op, read(m, lhs), read(m, rhs)) is Ok,
        run(m, select(op, rd, lhs, rhs)) == assign(
            m,
            rd,
            fold_binary(op, read(m, lhs), read(m, rhs))->Ok_0,
        ),
{
    let a = read(m, lhs);
    let b = read(m, rhs);
    let code = select(op, rd, lhs, rhs);
    reveal_with_fuel(run, 3);
    if code.len() == 1 {
        assert(code.skip(1).len() == 0);
    } else {
        assert(code.len() == 2);
        assert(code.skip(1)[0] == code[1]);
        assert(code.skip(1).skip(1).len() == 0);
        let m1 = code[0].step(m);
        assert(read(m1, rd) == m1[rd as int]);
        assert(assign(m1, rd, code[1]->Un_0.apply(read(m1, rd))) =~= assign(
            m,
            rd,
            code[1]->Un_0.apply(read(m1, rd)),
        ));
        if op is Eq || op is NotEq {
            assert(wrap32(a - b) == 0 <==> a == b);
        }
    }
}

} // verus!
