//! What the emitted code does when it runs.
//!
//! The statements here relate three things: the allocation the walk keeps,
//! a machine, and the value each IR value has at run time.  A machine
//! *realizes* an allocation when every value is where the allocation says:
//! a value with a constant store has that constant as its value, and a value
//! stored in a register is what the register holds.
use vstd::prelude::*;
use koopa::ir::{BinaryOp, Function, Value};
use crate::parser::error::CompileError;
use crate::parser::ir::ops::fold_binary;
use crate::parser::ir::program::{has_value, Inst, IrModel};
use crate::parser::riscv::gen::{
    bind, consistent, evict, home, lemma_bind_consistent, lemma_first_free, load,
    next_free, Allocation, Reg, ValueStore, POOL_SIZE, RETURN_REG,
};
use crate::parser::riscv::inst::{
    lemma_run_concat, lemma_select_matches_fold, read, run, select, assign, Instr, Machine, Unary,
};
use crate::parser::riscv::visitor::{
    emit_binary, emit_in_registers, emit_return, emit_value, maybe, place_result,
};

verus! {

/// The machine keeps every value where the allocation says it is.
pub open spec fn realizes(a: Allocation, m: Machine, val: Map<Value, i32>) -> bool {
    forall|v: Value| #[trigger]
        a.values.contains_key(v) ==> match a.values[v] {
            ValueStore::Const(c) => val[v] == c,
            ValueStore::Reg(r) => read(m, r) == val[v],
        }
}

/// A value that is an integer constant of the program has that constant as
/// its run-time value.
pub open spec fn literal_ok(ir: IrModel, f: Function, val: Map<Value, i32>, v: Value) -> bool {
    has_value(ir, f, v) ==> (ir.funcs[f].values[v].inst matches Inst::Integer(i) ==> val[v] == i)
}

proof fn lemma_run_one(m: Machine, i: Instr)
    ensures
        run(m, seq![i]) == i.step(m),
{
    reveal_with_fuel(run, 2);
    assert(seq![i].skip(1).len() == 0);
}

proof fn lemma_run_none(m: Machine)
    ensures
        run(m, seq![]) == m,
{
}

/// Writing a free register keeps every value where it is, and the value
/// that is then bound to the register is realized if it is what was
/// written.
proof fn lemma_write_free(
    a: Allocation,
    m: Machine,
    val: Map<Value, i32>,
    v: Value,
    to: Reg,
    x: i32,
)
    requires
        consistent(a),
        m.len() == POOL_SIZE,
        realizes(a, m, val),
        0 < to < POOL_SIZE,
        a.regs[to as int] is None,
        x == val[v],
    ensures
        realizes(bind(a, v, ValueStore::Reg(to)), assign(m, to, x), val),
        consistent(bind(a, v, ValueStore::Reg(to))),
        assign(m, to, x).len() == POOL_SIZE,
{
    lemma_bind_consistent(a, v, ValueStore::Reg(to));
    let b = bind(a, v, ValueStore::Reg(to));
    let n = assign(m, to, x);
    assert forall|w: Value| #[trigger] b.values.contains_key(w) implies match b.values[w] {
        ValueStore::Const(c) => val[w] == c,
        ValueStore::Reg(r) => read(n, r) == val[w],
    } by {
        if w != v {
            assert(a.values.contains_key(w));
        }
    }
}

/// A constant store keeps every value where it is.
proof fn lemma_bind_const(a: Allocation, m: Machine, val: Map<Value, i32>, v: Value, c: i32)
    requires
        consistent(a),
        realizes(a, m, val),
        val[v] == c,
    ensures
        realizes(bind(a, v, ValueStore::Const(c)), m, val),
        consistent(bind(a, v, ValueStore::Const(c))),
{
    lemma_bind_consistent(a, v, ValueStore::Const(c));
    let b = bind(a, v, ValueStore::Const(c));
    assert forall|w: Value| #[trigger] b.values.contains_key(w) implies match b.values[w] {
        ValueStore::Const(k) => val[w] == k,
        ValueStore::Reg(r) => read(m, r) == val[w],
    } by {
        if w != v {
            assert(a.values.contains_key(w));
        }
    }
}

/// An eviction keeps every value where the allocation says it is: the move
/// it emits carries the evicted value to its new register.
pub proof fn lemma_evict_sound(a: Allocation, m: Machine, val: Map<Value, i32>, reg: Reg)
    requires
        consistent(a),
        m.len() == POOL_SIZE,
        realizes(a, m, val),
        reg < POOL_SIZE,
        evict(a, reg) is Ok,
    ensures
        ({
            let (b, code) = evict(a, reg)->Ok_0;
            let after = run(m, maybe(code));
            &&& consistent(b)
            &&& after.len() == POOL_SIZE
            &&& realizes(b, after, val)
            &&& b.regs[reg as int] is None
            &&& forall|r: Reg| r < POOL_SIZE && a.regs[r as int] is Some ==> read(after, r) == read(m, r)
        }),
{
    match a.regs[reg as int] {
        None => {
            lemma_run_none(m);
        },
        Some(v) => {
            lemma_first_free(a.regs, 1);
            let to = next_free(a)->Some_0;
            lemma_run_one(m, Instr::Un(Unary::Mv, to, reg));
            assert(a.values.contains_key(v));
            lemma_write_free(a, m, val, v, to, read(m, reg));
        },
    }
}

/// A load keeps every value where the allocation says it is: the
/// load-immediate it emits puts the constant in the register the value is
/// bound to.
pub proof fn lemma_load_sound(a: Allocation, m: Machine, val: Map<Value, i32>, v: Value)
    requires
        consistent(a),
        m.len() == POOL_SIZE,
        realizes(a, m, val),
        a.values.contains_key(v),
        load(a, v) is Ok,
    ensures
        ({
            let (b, code) = load(a, v)->Ok_0;
            let after = run(m, maybe(code));
            &&& consistent(b)
            &&& after.len() == POOL_SIZE
            &&& realizes(b, after, val)
            &&& home(b, v) is Some
            &&& b.values.dom() == a.values.dom()
        }),
{
    match a.values[v] {
        ValueStore::Reg(_) => {
            lemma_run_none(m);
        },
        ValueStore::Const(c) => {
            lemma_first_free(a.regs, 1);
            let to = next_free(a)->Some_0;
            lemma_run_one(m, Instr::Li(to, c));
            lemma_write_free(a, m, val, v, to, c);
            assert(bind(a, v, ValueStore::Reg(to)).values.dom() =~= a.values.dom());
        },
    }
}

/// Meeting an operand keeps every value where the allocation says it is.
proof fn lemma_value_sound(
    ir: IrModel,
    f: Function,
    a: Allocation,
    m: Machine,
    val: Map<Value, i32>,
    v: Value,
)
    requires
        consistent(a),
        realizes(a, m, val),
        literal_ok(ir, f, val, v),
        emit_value(ir, f, a, v) is Ok,
    ensures
        consistent(emit_value(ir, f, a, v)->Ok_0),
        realizes(emit_value(ir, f, a, v)->Ok_0, m, val),
{
    match ir.funcs[f].values[v].inst {
        Inst::Integer(i) => {
            lemma_bind_const(a, m, val, v, i);
        },
        _ => {},
    }
}

/// The code of a binary operation computes the operation.  If the machine
/// realizes the allocation before, and the run-time value of `value` is
/// what folding gives for the run-time values of the operands, then the
/// machine that has run the emitted code realizes the allocation after:
/// the result is where the allocation says, and no other value was lost.
pub proof fn lemma_binary_sound(
    ir: IrModel,
    f: Function,
    a: Allocation,
    m: Machine,
    val: Map<Value, i32>,
    value: Value,
    op: BinaryOp,
    lhs: Value,
    rhs: Value,
)
    requires
        consistent(a),
        m.len() == POOL_SIZE,
        realizes(a, m, val),
        literal_ok(ir, f, val, lhs),
        literal_ok(ir, f, val, rhs),
        fold_binary(op, val[lhs], val[rhs]) == Ok::<i32, CompileError>(val[value]),
        emit_binary(ir, f, a, value, op, lhs, rhs) is Ok,
    ensures
        ({
            let (b, code) = emit_binary(ir, f, a, value, op, lhs, rhs)->Ok_0;
            let after = run(m, code);
            &&& consistent(b)
            &&& after.len() == POOL_SIZE
            &&& realizes(b, after, val)
            &&& b.values.contains_key(value)
        }),
{
    let a1 = emit_value(ir, f, a, lhs)->Ok_0;
    lemma_value_sound(ir, f, a, m, val, lhs);
    let a2 = emit_value(ir, f, a1, rhs)->Ok_0;
    lemma_value_sound(ir, f, a1, m, val, rhs);
    match (a2.values[lhs], a2.values[rhs]) {
        (ValueStore::Const(x), ValueStore::Const(y)) => {
            lemma_run_none(m);
            lemma_bind_const(a2, m, val, value, val[value]);
        },
        _ => {
            lemma_registers_sound(a2, m, val, value, op, lhs, rhs);
        },
    }
}

/// The part of [`lemma_binary_sound`] for operands that are not both
/// constant.
proof fn lemma_registers_sound(
    a: Allocation,
    m: Machine,
    val: Map<Value, i32>,
    value: Value,
    op: BinaryOp,
    lhs: Value,
    rhs: Value,
)
    requires
        consistent(a),
        m.len() == POOL_SIZE,
        realizes(a, m, val),
        a.values.contains_key(lhs),
        a.values.contains_key(rhs),
        fold_binary(op, val[lhs], val[rhs]) == Ok::<i32, CompileError>(val[value]),
        emit_in_registers(a, value, op, lhs, rhs) is Ok,
    ensures
        ({
            let (b, code) = emit_in_registers(a, value, op, lhs, rhs)->Ok_0;
            let after = run(m, code);
            &&& consistent(b)
            &&& after.len() == POOL_SIZE
            &&& realizes(b, after, val)
            &&& b.values.contains_key(value)
        }),
{
    let (a1, c1) = load(a, lhs)->Ok_0;
    lemma_load_sound(a, m, val, lhs);
    let m1 = run(m, maybe(c1));
    assert(a1.values.contains_key(rhs));
    let (a2, c2) = load(a1, rhs)->Ok_0;
    lemma_load_sound(a1, m1, val, rhs);
    let m2 = run(m1, maybe(c2));
    lemma_first_free(a2.regs, 1);
    let rd = next_free(a2)->Some_0;
    assert(a2.values.contains_key(lhs));
    let l = home(a2, lhs)->Some_0;
    let r = home(a2, rhs)->Some_0;
    assert(home(a2, lhs) is Some) by {
        if lhs != rhs {
            assert(a2.values[lhs] == a1.values[lhs]);
        }
    }
    let body = select(op, rd, l, r);
    lemma_select_matches_fold(op, rd, l, r, m2);
    let m3 = run(m2, body);
    lemma_write_free(a2, m2, val, value, rd, val[value]);
    lemma_run_concat(m, maybe(c1), maybe(c2));
    lemma_run_concat(m, maybe(c1) + maybe(c2), body);
}

/// The code of a return leaves the returned value in the return register
/// and ends with the return instruction, whether the value was a constant
/// or in a register; every other value stays where the allocation says.
pub proof fn lemma_return_sound(
    ir: IrModel,
    f: Function,
    a: Allocation,
    m: Machine,
    val: Map<Value, i32>,
    v: Value,
)
    requires
        consistent(a),
        m.len() == POOL_SIZE,
        realizes(a, m, val),
        literal_ok(ir, f, val, v),
        emit_return(ir, f, a, Some(v)) is Ok,
    ensures
        ({
            let (b, code) = emit_return(ir, f, a, Some(v))->Ok_0;
            let after = run(m, code);
            &&& code.len() > 0 && code.last() == Instr::Ret
            &&& read(after, RETURN_REG) == val[v]
            &&& consistent(b)
            &&& realizes(b, after, val)
        }),
{
    let a1 = emit_value(ir, f, a, v)->Ok_0;
    lemma_value_sound(ir, f, a, m, val, v);
    let store = a1.values[v];
    if store == ValueStore::Reg(RETURN_REG) {
        lemma_run_one(m, Instr::Ret);
    } else {
        let (a2, c) = evict(a1, RETURN_REG)->Ok_0;
        lemma_evict_sound(a1, m, val, RETURN_REG);
        let m1 = run(m, maybe(c));
        let place = place_result(store);
        let tail = seq![place, Instr::Ret];
        lemma_run_concat(m, maybe(c), tail);
        reveal_with_fuel(run, 3);
        assert(tail.skip(1)[0] == Instr::Ret);
        assert(tail.skip(1).skip(1).len() == 0);
        assert(run(m1, tail) == Instr::Ret.step(place.step(m1)));
        let m2 = place.step(m1);
        assert((maybe(c) + tail).last() == Instr::Ret);
        match store {
            ValueStore::Const(k) => {},
            ValueStore::Reg(r) => {
                assert(a1.regs[r as int] == Some(v));
            },
        }
        assert forall|w: Value| #[trigger] a2.values.contains_key(w) implies match a2.values[w] {
            ValueStore::Const(k) => val[w] == k,
            ValueStore::Reg(r) => read(m2, r) == val[w],
        } by {
            if a2.values[w] is Reg {
                assert(a2.values[w]->Reg_0 != RETURN_REG);
            }
        }
    }
}

} // verus!
