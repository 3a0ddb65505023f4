//! The walk over an IR program that writes its assembly.
//!
//! Functions are visited in layout order, the blocks of a function in layout
//! order, the instructions of a block in order.  What each visit emits, and
//! what it does to the register allocation, is defined by the `emit_*`
//! functions below; the methods of [`VisitorImpl`] compute exactly that.
use vstd::prelude::*;
use vstd::string::{StrSliceExecFns, StringExecFns};
use koopa::ir::{BasicBlock, BinaryOp, Function, Program, Value};
use crate::parser::error::CompileError;
use crate::parser::ir::ops::{fold, fold_binary, supported};
use crate::parser::ir::program::{
    block_insts, block_layout, func_layout, func_name, has_block, has_value, ir_model, value_inst,
    Inst, IrModel,
};
use crate::parser::riscv::gen::{
    bind, consistent, evict, home, lemma_first_free, load, next_free, Allocation, Reg, ValueManager,
    ValueStore, POOL_SIZE, RETURN_REG,
};
use crate::parser::riscv::inst::{select, select_binary, Instr, Unary};

verus! {

/// One line of the assembly file.
pub enum Line {
    /// The directive that opens the code section.
    Text,
    /// The directive that exports the entry point.
    Global,
    /// The label of a function.
    Label(Seq<char>),
    /// An instruction.
    Code(Instr),
}

impl Line {
    /// The line as text, without its line break.  Directives and
    /// instructions are indented by two spaces.
    pub open spec fn text(self) -> Seq<char> {
        match self {
            Line::Text => "  .text"@,
            Line::Global => "  .global main"@,
            Line::Label(name) => name + ":"@,
            Line::Code(i) => "  "@ + i.text(),
        }
    }
}

/// The texts of a list of lines.
pub open spec fn line_texts(lines: Seq<Line>) -> Seq<Seq<char>> {
    Seq::new(lines.len(), |i: int| lines[i].text())
}

/// A piece of code as lines.
pub open spec fn code_lines(code: Seq<Instr>) -> Seq<Line> {
    Seq::new(code.len(), |i: int| Line::Code(code[i]))
}

/// The views of a list of strings.
pub open spec fn views(lines: Seq<String>) -> Seq<Seq<char>> {
    Seq::new(lines.len(), |i: int| lines[i]@)
}

/// The file that the lines make up: each line followed by a line break.
pub open spec fn join(lines: Seq<Seq<char>>) -> Seq<char>
    decreases lines.len(),
{
    if lines.len() == 0 {
        Seq::empty()
    } else {
        join(lines.drop_last()) + lines.last() + "\n"@
    }
}

/// The label of a function: its name without the sigil in front.
pub open spec fn label_of(name: Seq<char>) -> Seq<char> {
    if name.len() == 0 {
        name
    } else {
        name.skip(1)
    }
}

/// An instruction that may be absent, as a piece of code.
pub open spec fn maybe(code: Option<Instr>) -> Seq<Instr> {
    match code {
        Some(i) => seq![i],
        None => seq![],
    }
}

/// An operand is met.  An integer constant becomes a constant store; the
/// result of a binary operation keeps the store it got when the operation
/// was visited.  Any other kind of operand is refused.
pub open spec fn emit_value(m: IrModel, f: Function, a: Allocation, v: Value) -> Result<
    Allocation,
    CompileError,
> {
    if !has_value(m, f, v) {
        Err(CompileError::InvalidProgram)
    } else {
        match m.funcs[f].values[v].inst {
            Inst::Integer(i) => Ok(bind(a, v, ValueStore::Const(i))),
            Inst::Binary(_, _, _) => Ok(a),
            _ => Err(CompileError::InvalidProgram),
        }
    }
}

/// A binary operation `value = lhs op rhs` is visited.  With two constant
/// operands nothing is emitted and the result is the folded constant.
/// Otherwise both operands are brought into registers, the result gets the
/// next free register, and the instructions selected for `op` follow the
/// loads.
pub open spec fn emit_binary(
    m: IrModel,
    f: Function,
    a: Allocation,
    value: Value,
    op: BinaryOp,
    lhs: Value,
    rhs: Value,
) -> Result<(Allocation, Seq<Instr>), CompileError> {
    match emit_value(m, f, a, lhs) {
        Err(e) => Err(e),
        Ok(a1) => match emit_value(m, f, a1, rhs) {
            Err(e) => Err(e),
            Ok(a2) => if !a2.values.contains_key(lhs) || !a2.values.contains_key(rhs) {
                Err(CompileError::InvalidProgram)
            } else {
                match (a2.values[lhs], a2.values[rhs]) {
                    (ValueStore::Const(x), ValueStore::Const(y)) => match fold_binary(op, x, y) {
                        Ok(c) => Ok((bind(a2, value, ValueStore::Const(c)), seq![])),
                        Err(e) => Err(e),
                    },
                    _ => emit_in_registers(a2, value, op, lhs, rhs),
                }
            },
        },
    }
}

/// The part of [`emit_binary`] for operands that are not both constant.
pub open spec fn emit_in_registers(
    a: Allocation,
    value: Value,
    op: BinaryOp,
    lhs: Value,
    rhs: Value,
) -> Result<(Allocation, Seq<Instr>), CompileError> {
    if !supported(op) {
        Err(CompileError::InvalidProgram)
    } else {
        match load(a, lhs) {
            Err(e) => Err(e),
            Ok((a1, c1)) => match load(a1, rhs) {
                Err(e) => Err(e),
                Ok((a2, c2)) => match next_free(a2) {
                    None => Err(CompileError::AllocatorExhaustion),
                    Some(rd) => Ok(
                        (
                            bind(a2, value, ValueStore::Reg(rd)),
                            maybe(c1) + maybe(c2) + select(
                                op,
                                rd,
                                home(a2, lhs)->Some_0,
                                home(a2, rhs)->Some_0,
                            ),
                        ),
                    ),
                },
            },
        }
    }
}

/// A return is visited.  The returned value ends up in the return register:
/// a value that is there already is left alone; otherwise the register is
/// evicted, and a constant is loaded into it or a register moved to it.
/// The return instruction comes last in every case.
pub open spec fn emit_return(m: IrModel, f: Function, a: Allocation, ret: Option<Value>) -> Result<
    (Allocation, Seq<Instr>),
    CompileError,
> {
    match ret {
        None => Ok((a, seq![Instr::Ret])),
        Some(v) => match emit_value(m, f, a, v) {
            Err(e) => Err(e),
            Ok(a1) => if !a1.values.contains_key(v) {
                Err(CompileError::InvalidProgram)
            } else {
                match a1.values[v] {
                    ValueStore::Reg(r) if r == RETURN_REG => Ok((a1, seq![Instr::Ret])),
                    store => match evict(a1, RETURN_REG) {
                        Err(e) => Err(e),
                        Ok((a2, code)) => Ok(
                            (a2, maybe(code) + seq![place_result(store), Instr::Ret]),
                        ),
                    },
                }
            },
        },
    }
}

/// The instruction that puts a value kept in `store` into the return
/// register.
pub open spec fn place_result(store: ValueStore) -> Instr {
    match store {
        ValueStore::Const(c) => Instr::Li(RETURN_REG, c),
        ValueStore::Reg(r) => Instr::Un(Unary::Mv, RETURN_REG, r),
    }
}

/// One instruction of a block is visited.  Only binary operations and
/// returns can be.
pub open spec fn emit_inst(m: IrModel, f: Function, a: Allocation, v: Value) -> Result<
    (Allocation, Seq<Instr>),
    CompileError,
> {
    if !has_value(m, f, v) {
        Err(CompileError::InvalidProgram)
    } else {
        match m.funcs[f].values[v].inst {
            Inst::Binary(op, lhs, rhs) => emit_binary(m, f, a, v, op, lhs, rhs),
            Inst::Return(ret) => emit_return(m, f, a, ret),
            _ => Err(CompileError::InvalidProgram),
        }
    }
}

/// The instructions of a list are visited in order.
pub open spec fn emit_insts(m: IrModel, f: Function, a: Allocation, insts: Seq<Value>) -> Result<
    (Allocation, Seq<Instr>),
    CompileError,
>
    decreases insts.len(),
{
    if insts.len() == 0 {
        Ok((a, seq![]))
    } else {
        match emit_insts(m, f, a, insts.drop_last()) {
            Err(e) => Err(e),
            Ok((a1, c1)) => match emit_inst(m, f, a1, insts.last()) {
                Err(e) => Err(e),
                Ok((a2, c2)) => Ok((a2, c1 + c2)),
            },
        }
    }
}

/// The blocks of a list are visited in order.
pub open spec fn emit_blocks(m: IrModel, f: Function, a: Allocation, blocks: Seq<BasicBlock>) -> Result<
    (Allocation, Seq<Instr>),
    CompileError,
>
    decreases blocks.len(),
{
    if blocks.len() == 0 {
        Ok((a, seq![]))
    } else {
        match emit_blocks(m, f, a, blocks.drop_last()) {
            Err(e) => Err(e),
            Ok((a1, c1)) => if !has_block(m, f, blocks.last()) {
                Err(CompileError::InvalidProgram)
            } else {
                match emit_insts(m, f, a1, m.funcs[f].insts[blocks.last()]) {
                    Err(e) => Err(e),
                    Ok((a2, c2)) => Ok((a2, c1 + c2)),
                }
            },
        }
    }
}

/// A function is visited: its label, then the code of its blocks.
pub open spec fn emit_func(m: IrModel, a: Allocation, f: Function) -> Result<
    (Allocation, Seq<Line>),
    CompileError,
> {
    if !m.funcs.contains_key(f) {
        Err(CompileError::InvalidProgram)
    } else {
        match emit_blocks(m, f, a, m.funcs[f].layout) {
            Err(e) => Err(e),
            Ok((a1, code)) => Ok(
                (a1, seq![Line::Label(label_of(m.funcs[f].name))] + code_lines(code)),
            ),
        }
    }
}

/// The functions of a list are visited in order.
pub open spec fn emit_funcs(m: IrModel, a: Allocation, funcs: Seq<Function>) -> Result<
    (Allocation, Seq<Line>),
    CompileError,
>
    decreases funcs.len(),
{
    if funcs.len() == 0 {
        Ok((a, seq![]))
    } else {
        match emit_funcs(m, a, funcs.drop_last()) {
            Err(e) => Err(e),
            Ok((a1, l1)) => match emit_func(m, a1, funcs.last()) {
                Err(e) => Err(e),
                Ok((a2, l2)) => Ok((a2, l1 + l2)),
            },
        }
    }
}

/// The whole program is visited: the two directives, then every function.
pub open spec fn emit_program(m: IrModel, a: Allocation) -> Result<
    (Allocation, Seq<Line>),
    CompileError,
> {
    match emit_funcs(m, a, m.layout) {
        Err(e) => Err(e),
        Ok((a1, lines)) => Ok((a1, seq![Line::Text, Line::Global] + lines)),
    }
}

/// The allocation no value has entered yet.
pub open spec fn empty_allocation() -> Allocation {
    Allocation { regs: Seq::new(POOL_SIZE as nat, |r: int| None), values: Map::empty() }
}

/// The assembly file of a program, or the error that stops its generation.
pub open spec fn assembly(m: IrModel) -> Result<Seq<char>, CompileError> {
    match emit_program(m, empty_allocation()) {
        Err(e) => Err(e),
        Ok((_, lines)) => Ok(join(line_texts(lines))),
    }
}

/// Whether the operator has instructions selected for it.
pub fn is_supported(op: BinaryOp) -> (b: bool)
    ensures
        b == supported(op),
{
    match op {
        BinaryOp::Xor => false,
        BinaryOp::Shl => false,
        BinaryOp::Shr => false,
        BinaryOp::Sar => false,
        _ => true,
    }
}

/// The state of a walk: the register allocation and the lines written.
pub struct VisitorImpl {
    pub vm: ValueManager,
    pub lines: Vec<String>,
}

impl VisitorImpl {
    /// The allocation is in order.
    pub open spec fn wf(&self) -> bool {
        self.vm.wf()
    }

    /// The texts of the lines written so far.
    pub open spec fn written(&self) -> Seq<Seq<char>> {
        views(self.lines@)
    }

    /// A walk that has not begun.
    pub fn new() -> (v: VisitorImpl)
        ensures
            v.wf(),
            v.vm@ == empty_allocation(),
            v.written() == Seq::<Seq<char>>::empty(),
    {
        let v = VisitorImpl { vm: ValueManager::new(), lines: Vec::new() };
        assert(v.vm@.regs =~= empty_allocation().regs);
        assert(v.written() =~= Seq::<Seq<char>>::empty());
        v
    }

    /// Writes one instruction, given as text, on a line of its own.
    fn put(&mut self, code: String, Ghost(i): Ghost<Instr>)
        requires
            code@ == i.text(),
        ensures
            final(self).vm == old(self).vm,
            final(self).written() == old(self).written().push(Line::Code(i).text()),
    {
        let mut line = String::from_str("  ");
        line.append(code.as_str());
        self.lines.push(line);
        assert(self.written() =~= old(self).written().push(Line::Code(i).text()));
    }

    /// Writes an instruction that may be absent.
    fn put_maybe(&mut self, code: Option<String>, Ghost(i): Ghost<Option<Instr>>)
        requires
            crate::parser::riscv::gen::view_of(code) == crate::parser::riscv::gen::text_of(i),
        ensures
            final(self).vm == old(self).vm,
            final(self).written() == old(self).written() + line_texts(code_lines(maybe(i))),
    {
        match code {
            Some(s) => {
                self.put(s, Ghost(i->Some_0));
                assert(self.written() =~= old(self).written() + line_texts(
                    code_lines(maybe(i)),
                ));
            },
            None => {
                assert(self.written() =~= old(self).written() + line_texts(
                    code_lines(maybe(i)),
                ));
            },
        }
    }

    /// Writes a piece of code, one instruction to a line.
    fn put_all(&mut self, code: &Vec<Instr>)
        requires
            forall|i: int| 0 <= i < code@.len() ==> (#[trigger] code@[i]).wf(),
        ensures
            final(self).vm == old(self).vm,
            final(self).written() == old(self).written() + line_texts(code_lines(code@)),
    {
        let mut i: usize = 0;
        while i < code.len()
            invariant
                i <= code@.len(),
                forall|k: int| 0 <= k < code@.len() ==> (#[trigger] code@[k]).wf(),
                self.vm == old(self).vm,
                self.written() == old(self).written() + line_texts(code_lines(code@.take(i as int))),
            decreases code@.len() - i,
        {
            let ghost before = self.written();
            self.put(code[i].render(), Ghost(code@[i as int]));
            proof {
                assert(code@.take(i as int + 1) =~= code@.take(i as int).push(code@[i as int]));
                assert(self.written() =~= old(self).written() + line_texts(
                    code_lines(code@.take(i as int + 1)),
                ));
            }
            i = i + 1;
        }
        assert(code@.take(i as int) =~= code@);
    }

    /// Visits an operand.
    pub fn visit_value(&mut self, program: &Program, func: Function, v: Value) -> (r: Result<
        (),
        CompileError,
    >)
        requires
            old(self).wf(),
        ensures
            final(self).wf(),
            final(self).lines == old(self).lines,
            match emit_value(ir_model(program), func, old(self).vm@, v) {
                Ok(a) => r is Ok && final(self).vm@ == a,
                Err(e) => r == Err::<(), CompileError>(e) && final(self).vm == old(self).vm,
            },
    {
        match value_inst(program, func, v) {
            Some(Inst::Integer(i)) => {
                self.vm.set_value(v, ValueStore::Const(i));
                Ok(())
            },
            Some(Inst::Binary(_, _, _)) => Ok(()),
            _ => Err(CompileError::InvalidProgram),
        }
    }

    /// Visits the binary operation `value = lhs op rhs`.
    pub fn visit_binary(
        &mut self,
        program: &Program,
        func: Function,
        value: Value,
        op: BinaryOp,
        lhs: Value,
        rhs: Value,
    ) -> (r: Result<(), CompileError>)
        requires
            old(self).wf(),
        ensures
            final(self).wf(),
            match emit_binary(ir_model(program), func, old(self).vm@, value, op, lhs, rhs) {
                Ok((a, code)) => r is Ok && final(self).vm@ == a && final(self).written() == old(
                    self,
                ).written() + line_texts(code_lines(code)),
                Err(e) => r == Err::<(), CompileError>(e),
            },
    {
        self.visit_value(program, func, lhs)?;
        self.visit_value(program, func, rhs)?;
        let lvs = match self.vm.get_value(lhs) {
            Some(s) => *s,
            None => {
                return Err(CompileError::InvalidProgram);
            },
        };
        let rvs = match self.vm.get_value(rhs) {
            Some(s) => *s,
            None => {
                return Err(CompileError::InvalidProgram);
            },
        };
        if let ValueStore::Const(x) = lvs {
            if let ValueStore::Const(y) = rvs {
                let c = fold(op, x, y)?;
                self.vm.set_value(value, ValueStore::Const(c));
                assert(self.written() =~= old(self).written() + line_texts(
                    code_lines(Seq::<Instr>::empty()),
                ));
                return Ok(());
            }
        }
        self.visit_in_registers(value, op, lhs, rhs)
    }

    /// The part of [`VisitorImpl::visit_binary`] for operands that are not
    /// both constant.
    fn visit_in_registers(&mut self, value: Value, op: BinaryOp, lhs: Value, rhs: Value) -> (r:
        Result<(), CompileError>)
        requires
            old(self).wf(),
            old(self).vm@.values.contains_key(lhs),
            old(self).vm@.values.contains_key(rhs),
        ensures
            final(self).wf(),
            match emit_in_registers(old(self).vm@, value, op, lhs, rhs) {
                Ok((a, code)) => r is Ok && final(self).vm@ == a && final(self).written() == old(
                    self,
                ).written() + line_texts(code_lines(code)),
                Err(e) => r == Err::<(), CompileError>(e),
            },
    {
        if !is_supported(op) {
            return Err(CompileError::InvalidProgram);
        }
        let ghost a0 = self.vm@;
        let first = self.vm.load_reg(lhs)?;
        let ghost c1 = load(a0, lhs)->Ok_0.1;
        let ghost a1 = self.vm@;
        self.put_maybe(first, Ghost(c1));
        proof {
            lemma_first_free(a0.regs, 1);
        }
        let second = self.vm.load_reg(rhs)?;
        let ghost c2 = load(a1, rhs)->Ok_0.1;
        let ghost a2 = self.vm@;
        self.put_maybe(second, Ghost(c2));
        proof {
            lemma_first_free(a1.regs, 1);
        }
        let rd = self.vm.alloc_reg()?;
        proof {
            lemma_first_free(a2.regs, 1);
        }
        let l = match self.vm.get_value(lhs) {
            Some(ValueStore::Reg(l)) => *l,
            _ => {
                return Err(CompileError::InvalidProgram);
            },
        };
        let r = match self.vm.get_value(rhs) {
            Some(ValueStore::Reg(r)) => *r,
            _ => {
                return Err(CompileError::InvalidProgram);
            },
        };
        let code = select_binary(op, rd, l, r)?;
        self.put_all(&code);
        self.vm.set_value(value, ValueStore::Reg(rd));
        proof {
            let all = maybe(c1) + maybe(c2) + select(op, rd, l, r);
            assert(line_texts(code_lines(all)) =~= line_texts(code_lines(maybe(c1))) + line_texts(
                code_lines(maybe(c2)),
            ) + line_texts(code_lines(select(op, rd, l, r))));
        }
        Ok(())
    }

    /// Visits a return of `ret`.
    pub fn visit_return(&mut self, program: &Program, func: Function, ret: Option<Value>) -> (r:
        Result<(), CompileError>)
        requires
            old(self).wf(),
        ensures
            final(self).wf(),
            match emit_return(ir_model(program), func, old(self).vm@, ret) {
                Ok((a, code)) => r is Ok && final(self).vm@ == a && final(self).written() == old(
                    self,
                ).written() + line_texts(code_lines(code)),
                Err(e) => r == Err::<(), CompileError>(e),
            },
    {
        if let Some(v) = ret {
            self.visit_value(program, func, v)?;
            let store = match self.vm.get_value(v) {
                Some(s) => *s,
                None => {
                    return Err(CompileError::InvalidProgram);
                },
            };
            let at_home = match store {
                ValueStore::Reg(r) => r == RETURN_REG,
                ValueStore::Const(_) => false,
            };
            if !at_home {
                let ghost a1 = self.vm@;
                let moved = self.vm.reset_reg(RETURN_REG)?;
                let ghost code = evict(a1, RETURN_REG)->Ok_0.1;
                self.put_maybe(moved, Ghost(code));
                let place = match store {
                    ValueStore::Const(c) => Instr::Li(RETURN_REG, c),
                    ValueStore::Reg(r) => {
                        proof {
                            assert(consistent(a1));
                        }
                        Instr::Un(Unary::Mv, RETURN_REG, r)
                    },
                };
                self.put(place.render(), Ghost(place));
                self.put(Instr::Ret.render(), Ghost(Instr::Ret));
                proof {
                    let all = maybe(code) + seq![place, Instr::Ret];
                    assert(line_texts(code_lines(all)) =~= line_texts(code_lines(maybe(code))).push(
                        Line::Code(place).text(),
                    ).push(Line::Code(Instr::Ret).text()));
                }
                return Ok(());
            }
        }
        self.put(Instr::Ret.render(), Ghost(Instr::Ret));
        proof {
            assert(line_texts(code_lines(seq![Instr::Ret])) =~= seq![Line::Code(Instr::Ret).text()]);
        }
        Ok(())
    }

    /// Visits one instruction of a block.
    pub fn visit_local_inst(&mut self, program: &Program, func: Function, inst: Value) -> (r:
        Result<(), CompileError>)
        requires
            old(self).wf(),
        ensures
            final(self).wf(),
            match emit_inst(ir_model(program), func, old(self).vm@, inst) {
                Ok((a, code)) => r is Ok && final(self).vm@ == a && final(self).written() == old(
                    self,
                ).written() + line_texts(code_lines(code)),
                Err(e) => r == Err::<(), CompileError>(e),
            },
    {
        match value_inst(program, func, inst) {
            Some(Inst::Binary(op, lhs, rhs)) => self.visit_binary(program, func, inst, op, lhs, rhs),
            Some(Inst::Return(ret)) => self.visit_return(program, func, ret),
            _ => Err(CompileError::InvalidProgram),
        }
    }

    /// Visits the instructions of block `bb` in order.
    pub fn visit_bb(&mut self, program: &Program, func: Function, bb: BasicBlock) -> (r: Result<
        (),
        CompileError,
    >)
        requires
            old(self).wf(),
        ensures
            final(self).wf(),
            !has_block(ir_model(program), func, bb) ==> r == Err::<(), CompileError>(
                CompileError::InvalidProgram,
            ),
            has_block(ir_model(program), func, bb) ==> match emit_insts(
                ir_model(program),
                func,
                old(self).vm@,
                ir_model(program).funcs[func].insts[bb],
            ) {
                Ok((a, code)) => r is Ok && final(self).vm@ == a && final(self).written() == old(
                    self,
                ).written() + line_texts(code_lines(code)),
                Err(e) => r == Err::<(), CompileError>(e),
            },
    {
        let insts = match block_insts(program, func, bb) {
            Some(insts) => insts,
            None => {
                return Err(CompileError::InvalidProgram);
            },
        };
        let ghost m = ir_model(program);
        let ghost a0 = self.vm@;
        let ghost mut code: Seq<Instr> = seq![];
        let mut i: usize = 0;
        assert(self.written() =~= old(self).written() + line_texts(code_lines(code)));
        while i < insts.len()
            invariant
                i <= insts@.len(),
                self.wf(),
                m == ir_model(program),
                a0 == old(self).vm@,
                has_block(m, func, bb),
                insts@ == m.funcs[func].insts[bb],
                emit_insts(m, func, a0, insts@.take(i as int)) == Ok::<
                    (Allocation, Seq<Instr>),
                    CompileError,
                >((self.vm@, code)),
                self.written() == old(self).written() + line_texts(code_lines(code)),
            decreases insts@.len() - i,
        {
            let ghost a1 = self.vm@;
            let ghost before = self.written();
            proof {
                assert(insts@.take(i as int + 1).drop_last() =~= insts@.take(i as int));
                assert(insts@.take(i as int + 1).last() == insts@[i as int]);
            }
            match self.visit_local_inst(program, func, insts[i]) {
                Ok(()) => {},
                Err(e) => {
                    proof {
                        assert(emit_insts(m, func, a0, insts@.take(i as int + 1)) == Err::<
                            (Allocation, Seq<Instr>),
                            CompileError,
                        >(e));
                        lemma_emit_insts_fails(m, func, a0, insts@, i as int + 1);
                    }
                    return Err(e);
                },
            }
            proof {
                let step = emit_inst(m, func, a1, insts@[i as int])->Ok_0.1;
                assert(line_texts(code_lines(code + step)) =~= line_texts(code_lines(code))
                    + line_texts(code_lines(step)));
                code = code + step;
            }
            i = i + 1;
        }
        assert(insts@.take(i as int) =~= insts@);
        Ok(())
    }

    /// Visits function `func`: its label, then its blocks in layout order.
    pub fn visit_func(&mut self, program: &Program, func: Function) -> (r: Result<(), CompileError>)
        requires
            old(self).wf(),
        ensures
            final(self).wf(),
            match emit_func(ir_model(program), old(self).vm@, func) {
                Ok((a, lines)) => r is Ok && final(self).vm@ == a && final(self).written() == old(
                    self,
                ).written() + line_texts(lines),
                Err(e) => r == Err::<(), CompileError>(e),
            },
    {
        let name = match func_name(program, func) {
            Some(name) => name,
            None => {
                return Err(CompileError::InvalidProgram);
            },
        };
        let blocks = match block_layout(program, func) {
            Some(blocks) => blocks,
            None => {
                return Err(CompileError::InvalidProgram);
            },
        };
        let ghost m = ir_model(program);
        let ghost a0 = self.vm@;
        let mut label = strip_sigil(name.as_str());
        label.append(":");
        self.lines.push(label);
        let ghost head = seq![Line::Label(label_of(m.funcs[func].name))];
        let ghost mut code: Seq<Instr> = seq![];
        let mut i: usize = 0;
        assert(self.written() =~= old(self).written() + line_texts(head + code_lines(code)));
        while i < blocks.len()
            invariant
                i <= blocks@.len(),
                self.wf(),
                m == ir_model(program),
                a0 == old(self).vm@,
                m.funcs.contains_key(func),
                blocks@ == m.funcs[func].layout,
                emit_blocks(m, func, a0, blocks@.take(i as int)) == Ok::<
                    (Allocation, Seq<Instr>),
                    CompileError,
                >((self.vm@, code)),
                self.written() == old(self).written() + line_texts(head + code_lines(code)),
            decreases blocks@.len() - i,
        {
            let ghost a1 = self.vm@;
            proof {
                assert(blocks@.take(i as int + 1).drop_last() =~= blocks@.take(i as int));
                assert(blocks@.take(i as int + 1).last() == blocks@[i as int]);
                assert(has_block(m, func, blocks@[i as int]));
            }
            match self.visit_bb(program, func, blocks[i]) {
                Ok(()) => {},
                Err(e) => {
                    proof {
                        assert(emit_blocks(m, func, a0, blocks@.take(i as int + 1)) == Err::<
                            (Allocation, Seq<Instr>),
                            CompileError,
                        >(e));
                        lemma_emit_blocks_fails(m, func, a0, blocks@, i as int + 1);
                    }
                    return Err(e);
                },
            }
            proof {
                let step = emit_insts(m, func, a1, m.funcs[func].insts[blocks@[i as int]])->Ok_0.1;
                assert(line_texts(head + code_lines(code + step)) =~= line_texts(
                    head + code_lines(code),
                ) + line_texts(code_lines(step)));
                code = code + step;
            }
            i = i + 1;
        }
        assert(blocks@.take(i as int) =~= blocks@);
        Ok(())
    }

    /// Visits the program: the directives, then its functions in layout
    /// order.
    pub fn visit(&mut self, program: &Program) -> (r: Result<(), CompileError>)
        requires
            old(self).wf(),
        ensures
            final(self).wf(),
            match emit_program(ir_model(program), old(self).vm@) {
                Ok((a, lines)) => r is Ok && final(self).vm@ == a && final(self).written() == old(
                    self,
                ).written() + line_texts(lines),
                Err(e) => r == Err::<(), CompileError>(e),
            },
    {
        let funcs = func_layout(program);
        let ghost m = ir_model(program);
        let ghost a0 = self.vm@;
        self.lines.push(String::from_str("  .text"));
        self.lines.push(String::from_str("  .global main"));
        let ghost head = seq![Line::Text, Line::Global];
        let ghost mut body: Seq<Line> = seq![];
        let mut i: usize = 0;
        assert(self.written() =~= old(self).written() + line_texts(head + body));
        while i < funcs.len()
            invariant
                i <= funcs@.len(),
                self.wf(),
                m == ir_model(program),
                a0 == old(self).vm@,
                funcs@ == m.layout,
                emit_funcs(m, a0, funcs@.take(i as int)) == Ok::<
                    (Allocation, Seq<Line>),
                    CompileError,
                >((self.vm@, body)),
                self.written() == old(self).written() + line_texts(head + body),
            decreases funcs@.len() - i,
        {
            let ghost a1 = self.vm@;
            proof {
                assert(funcs@.take(i as int + 1).drop_last() =~= funcs@.take(i as int));
                assert(funcs@.take(i as int + 1).last() == funcs@[i as int]);
            }
            match self.visit_func(program, funcs[i]) {
                Ok(()) => {},
                Err(e) => {
                    proof {
                        assert(emit_funcs(m, a0, funcs@.take(i as int + 1)) == Err::<
                            (Allocation, Seq<Line>),
                            CompileError,
                        >(e));
                        lemma_emit_funcs_fails(m, a0, funcs@, i as int + 1);
                    }
                    return Err(e);
                },
            }
            proof {
                let step = emit_func(m, a1, funcs@[i as int])->Ok_0.1;
                assert(line_texts(head + (body + step)) =~= line_texts(head + body) + line_texts(
                    step,
                ));
                body = body + step;
            }
            i = i + 1;
        }
        assert(funcs@.take(i as int) =~= funcs@);
        Ok(())
    }

    /// The lines written so far as one text, each followed by a line
    /// break.
    pub fn text(&self) -> (s: String)
        ensures
            s@ == join(self.written()),
    {
        let mut s = String::new();
        let mut i: usize = 0;
        assert(self.written().take(0) =~= Seq::<Seq<char>>::empty());
        while i < self.lines.len()
            invariant
                i <= self.lines@.len(),
                s@ == join(self.written().take(i as int)),
            decreases self.lines@.len() - i,
        {
            proof {
                assert(self.written().take(i as int + 1).drop_last() =~= self.written().take(
                    i as int,
                ));
            }
            s.append(self.lines[i].as_str());
            s.append("\n");
            i = i + 1;
        }
        assert(self.written().take(i as int) =~= self.written());
        s
    }
}

/// A function name without its first character.
fn strip_sigil(name: &str) -> (label: String)
    ensures
        label@ == label_of(name@),
{
    let n = name.unicode_len();
    if n == 0 {
        String::from_str(name)
    } else {
        String::from_str(name.substring_char(1, n))
    }
}

/// Once a prefix of a list of instructions fails, the whole list fails, with
/// the same error.
proof fn lemma_emit_insts_fails(m: IrModel, f: Function, a: Allocation, insts: Seq<Value>, n: int)
    requires
        0 <= n <= insts.len(),
        emit_insts(m, f, a, insts.take(n)) is Err,
    ensures
        emit_insts(m, f, a, insts) == emit_insts(m, f, a, insts.take(n)),
    decreases insts.len() - n,
{
    if n < insts.len() {
        assert(insts.take(n + 1).drop_last() =~= insts.take(n));
        lemma_emit_insts_fails(m, f, a, insts, n + 1);
    } else {
        assert(insts.take(n) =~= insts);
    }
}

proof fn lemma_emit_blocks_fails(
    m: IrModel,
    f: Function,
    a: Allocation,
    blocks: Seq<BasicBlock>,
    n: int,
)
    requires
        0 <= n <= blocks.len(),
        emit_blocks(m, f, a, blocks.take(n)) is Err,
    ensures
        emit_blocks(m, f, a, blocks) == emit_blocks(m, f, a, blocks.take(n)),
    decreases blocks.len() - n,
{
    if n < blocks.len() {
        assert(blocks.take(n + 1).drop_last() =~= blocks.take(n));
        lemma_emit_blocks_fails(m, f, a, blocks, n + 1);
    } else {
        assert(blocks.take(n) =~= blocks);
    }
}

proof fn lemma_emit_funcs_fails(m: IrModel, a: Allocation, funcs: Seq<Function>, n: int)
    requires
        0 <= n <= funcs.len(),
        emit_funcs(m, a, funcs.take(n)) is Err,
    ensures
        emit_funcs(m, a, funcs) == emit_funcs(m, a, funcs.take(n)),
    decreases funcs.len() - n,
{
    if n < funcs.len() {
        assert(funcs.take(n + 1).drop_last() =~= funcs.take(n));
        lemma_emit_funcs_fails(m, a, funcs, n + 1);
    } else {
        assert(funcs.take(n) =~= funcs);
    }
}

/// The generator of RISC-V assembly for a Koopa IR program.
pub struct Visitor;

impl Default for Visitor {
    fn default() -> (v: Visitor)
        ensures
            v == Visitor,
    {
        Visitor
    }
}

impl Visitor {
    /// The assembly text of `program`.  The walk starts with an empty
    /// allocation and either writes the whole file or stops at the first
    /// error, in which case there is no output.
    pub fn visit(&mut self, program: &Program) -> (r: Result<String, CompileError>)
        ensures
            match assembly(ir_model(program)) {
                Ok(text) => r is Ok && r->Ok_0@ == text,
                Err(e) => r == Err::<String, CompileError>(e),
            },
    {
        let mut walk = VisitorImpl::new();
        walk.visit(program)?;
        proof {
            let lines = emit_program(ir_model(program), empty_allocation())->Ok_0.1;
            assert(walk.written() =~= line_texts(lines));
        }
        Ok(walk.text())
    }
}

} // verus!
