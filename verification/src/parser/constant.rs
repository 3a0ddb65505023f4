//! The two stages together, on programs without variables.
//!
//! For a unit whose body declares constants and returns expressions, the
//! assembly stage accepts what the lowering builds, and the file it writes
//! loads each returned value, as the source defines it, into the return
//! register.  The chain of reasoning: every value of such a program has a
//! value in the data-flow graph ([`eval`]); the walk gives each value the
//! constant store of that value and never takes a register
//! ([`faithful`]); and the value in the graph is the value of the source
//! expression.
use vstd::prelude::*;
use koopa::ir::{BinaryOp, Function, Value};
use crate::parser::error::CompileError;
use crate::parser::ir::ops::fold_binary;
use crate::parser::ir::program::{Inst, IrModel};
use crate::parser::ast::shape::{binary_at, joined, Graph};
use crate::parser::ast::block::{
    const_defs_after, const_defs_check, items_after, items_check, items_lowered, items_size,
};
use crate::parser::ast::structs::{
    AddExp, BlockItem, CompUnit, ConstDef, Decl, EqExp, Exp, LAndExp, LOrExp, MulExp, PrimaryExp,
    RelExp, Stmt, UnaryExp,
};
use crate::parser::ast::vm::{kinds, lemma_kinds_insert, Names, Scope};
use crate::parser::riscv::gen::{bind, evict, Allocation, ValueStore, POOL_SIZE, RETURN_REG};
use crate::parser::riscv::inst::Instr;
use crate::parser::riscv::visitor::{
    assembly, code_lines, emit_binary, emit_blocks, emit_func, emit_funcs, emit_inst, emit_insts,
    emit_program, emit_value, empty_allocation, join, label_of, line_texts, maybe,
    place_result, Line, Visitor,
};

verus! {

/// The value of `v` in graph `g`, if `v` is built from integer constants by
/// binary operations that all have a result, nested at most `depth` deep.
pub open spec fn eval(g: Graph, v: Value, depth: nat) -> Option<i32>
    decreases depth,
{
    if !g.contains_key(v) {
        None
    } else {
        match g[v].inst {
            Inst::Integer(i) => Some(i),
            Inst::Binary(op, lhs, rhs) => if depth == 0 {
                None
            } else {
                match (eval(g, lhs, (depth - 1) as nat), eval(g, rhs, (depth - 1) as nat)) {
                    (Some(a), Some(b)) => match fold_binary(op, a, b) {
                        Ok(c) => Some(c),
                        Err(_) => None,
                    },
                    _ => None,
                }
            },
            _ => None,
        }
    }
}

/// `v` has the value `c` in graph `g`.
pub open spec fn computes(g: Graph, v: Value, c: i32) -> bool {
    exists|depth: nat| eval(g, v, depth) == Some(c)
}

/// A value found at some depth is found at every greater depth.
pub proof fn lemma_eval_deeper(g: Graph, v: Value, d1: nat, d2: nat)
    requires
        d1 <= d2,
        eval(g, v, d1) is Some,
    ensures
        eval(g, v, d2) == eval(g, v, d1),
    decreases d1,
{
    if g.contains_key(v) {
        if let Inst::Binary(op, lhs, rhs) = g[v].inst {
            if d1 > 0 {
                lemma_eval_deeper(g, lhs, (d1 - 1) as nat, (d2 - 1) as nat);
                lemma_eval_deeper(g, rhs, (d1 - 1) as nat, (d2 - 1) as nat);
            }
        }
    }
}

/// A value of the graph has one value.
pub proof fn lemma_computes_once(g: Graph, v: Value, c1: i32, c2: i32)
    requires
        computes(g, v, c1),
        computes(g, v, c2),
    ensures
        c1 == c2,
{
    let d1 = choose|d: nat| eval(g, v, d) == Some(c1);
    let d2 = choose|d: nat| eval(g, v, d) == Some(c2);
    if d1 <= d2 {
        lemma_eval_deeper(g, v, d1, d2);
    } else {
        lemma_eval_deeper(g, v, d2, d1);
    }
}

/// An operation on two values that have values has the folded value.
pub proof fn lemma_computes_binary(
    g: Graph,
    v: Value,
    op: BinaryOp,
    lhs: Value,
    rhs: Value,
    a: i32,
    b: i32,
)
    requires
        g.contains_key(v),
        g[v].inst == Inst::Binary(op, lhs, rhs),
        computes(g, lhs, a),
        computes(g, rhs, b),
        fold_binary(op, a, b) is Ok,
    ensures
        computes(g, v, fold_binary(op, a, b)->Ok_0),
{
    let d1 = choose|d: nat| eval(g, lhs, d) == Some(a);
    let d2 = choose|d: nat| eval(g, rhs, d) == Some(b);
    let d = if d1 <= d2 {
        d2
    } else {
        d1
    };
    lemma_eval_deeper(g, lhs, d1, d);
    lemma_eval_deeper(g, rhs, d2, d);
    assert(eval(g, v, d + 1) == Some(fold_binary(op, a, b)->Ok_0));
}

/// The operands of an operation that has a value have values, and the
/// value of the operation is what folding gives for them.
pub proof fn lemma_computes_operands(g: Graph, v: Value, c: i32)
    requires
        computes(g, v, c),
        g.contains_key(v),
        g[v].inst is Binary,
    ensures
        ({
            let op = g[v].inst->Binary_0;
            let lhs = g[v].inst->Binary_1;
            let rhs = g[v].inst->Binary_2;
            exists|a: i32, b: i32|
                computes(g, lhs, a) && computes(g, rhs, b) && fold_binary(op, a, b) == Ok::<
                    i32,
                    CompileError,
                >(c)
        }),
{
    let d = choose|d: nat| eval(g, v, d) == Some(c);
    let lhs = g[v].inst->Binary_1;
    let rhs = g[v].inst->Binary_2;
    let a = eval(g, lhs, (d - 1) as nat)->Some_0;
    let b = eval(g, rhs, (d - 1) as nat)->Some_0;
    assert(computes(g, lhs, a));
    assert(computes(g, rhs, b));
}

/// The allocation of a walk over constants: no register is taken, and
/// every value met so far is stored as the constant that is its value in
/// the graph.
pub open spec fn faithful(g: Graph, a: Allocation) -> bool {
    &&& a.regs.len() == POOL_SIZE
    &&& forall|r: int| 0 <= r < POOL_SIZE ==> a.regs[r] is None
    &&& forall|v: Value| #[trigger]
        a.values.contains_key(v) ==> (a.values[v] matches ValueStore::Const(c) && computes(g, v, c))
}

/// The value can be used as an operand: it is an integer constant, or the
/// walk has met it.
pub open spec fn usable(g: Graph, a: Allocation, v: Value) -> bool {
    g.contains_key(v) && (g[v].inst is Integer || (g[v].inst is Binary && a.values.contains_key(v)))
}

/// Every value that `a` knows, `b` knows.
pub open spec fn keeps(a: Allocation, b: Allocation) -> bool {
    forall|v: Value| #[trigger] a.values.contains_key(v) ==> b.values.contains_key(v)
}

/// Meeting a usable operand that has a value stores that value for it.
pub proof fn lemma_value_constant(m: IrModel, f: Function, a: Allocation, v: Value, c: i32)
    requires
        m.funcs.contains_key(f),
        faithful(m.funcs[f].values, a),
        usable(m.funcs[f].values, a, v),
        computes(m.funcs[f].values, v, c),
    ensures
        emit_value(m, f, a, v) is Ok,
        faithful(m.funcs[f].values, emit_value(m, f, a, v)->Ok_0),
        keeps(a, emit_value(m, f, a, v)->Ok_0),
        emit_value(m, f, a, v)->Ok_0.values.contains_key(v),
        emit_value(m, f, a, v)->Ok_0.values[v] == ValueStore::Const(c),
{
    let g = m.funcs[f].values;
    match g[v].inst {
        Inst::Integer(i) => {
            assert(eval(g, v, 0) == Some(i));
            lemma_computes_once(g, v, i, c);
            let b = bind(a, v, ValueStore::Const(i));
            assert(b.regs =~= a.regs);
            assert forall|w: Value| #[trigger] b.values.contains_key(w) implies (b.values[w] matches ValueStore::Const(
                k,
            ) && computes(g, w, k)) by {
                if w != v {
                    assert(a.values.contains_key(w));
                }
            }
        },
        _ => {
            assert(a.values.contains_key(v));
            lemma_computes_once(g, v, a.values[v]->Const_0, c);
        },
    }
}

/// Visiting an operation whose operands are usable and which has a value
/// emits nothing, takes no register, and stores that value for it.
pub proof fn lemma_binary_constant(m: IrModel, f: Function, a: Allocation, v: Value, c: i32)
    requires
        m.funcs.contains_key(f),
        faithful(m.funcs[f].values, a),
        m.funcs[f].values.contains_key(v),
        m.funcs[f].values[v].inst is Binary,
        usable(m.funcs[f].values, a, m.funcs[f].values[v].inst->Binary_1),
        usable(m.funcs[f].values, a, m.funcs[f].values[v].inst->Binary_2),
        computes(m.funcs[f].values, v, c),
    ensures
        emit_inst(m, f, a, v) is Ok,
        emit_inst(m, f, a, v)->Ok_0.1 == Seq::<Instr>::empty(),
        faithful(m.funcs[f].values, emit_inst(m, f, a, v)->Ok_0.0),
        keeps(a, emit_inst(m, f, a, v)->Ok_0.0),
        emit_inst(m, f, a, v)->Ok_0.0.values.contains_key(v),
{
    let g = m.funcs[f].values;
    let op = g[v].inst->Binary_0;
    let lhs = g[v].inst->Binary_1;
    let rhs = g[v].inst->Binary_2;
    lemma_computes_operands(g, v, c);
    let (x, y) = choose|x: i32, y: i32|
        computes(g, lhs, x) && computes(g, rhs, y) && fold_binary(op, x, y) == Ok::<
            i32,
            CompileError,
        >(c);
    lemma_value_constant(m, f, a, lhs, x);
    let a1 = emit_value(m, f, a, lhs)->Ok_0;
    assert(usable(g, a1, rhs));
    lemma_value_constant(m, f, a1, rhs, y);
    let a2 = emit_value(m, f, a1, rhs)->Ok_0;
    assert(a2.values.contains_key(lhs));
    assert(a2.values[lhs] == ValueStore::Const(x)) by {
        lemma_computes_once(g, lhs, a2.values[lhs]->Const_0, x);
    }
    let b = bind(a2, v, ValueStore::Const(c));
    assert(b.regs =~= a2.regs);
    assert(emit_binary(m, f, a, v, op, lhs, rhs) == Ok::<(Allocation, Seq<Instr>), CompileError>(
        (b, seq![]),
    ));
    assert forall|w: Value| #[trigger] b.values.contains_key(w) implies (b.values[w] matches ValueStore::Const(
        k,
    ) && computes(g, w, k)) by {
        if w != v {
            assert(a2.values.contains_key(w));
        }
    }
    assert(keeps(a, b)) by {
        assert forall|w: Value| #[trigger] a.values.contains_key(w) implies b.values.contains_key(
            w,
        ) by {
            assert(a1.values.contains_key(w));
            assert(a2.values.contains_key(w));
        }
    }
}

/// Visiting the return of a usable value that has a value loads that value
/// into the return register and returns.
pub proof fn lemma_return_constant(m: IrModel, f: Function, a: Allocation, ret: Value, c: i32)
    requires
        m.funcs.contains_key(f),
        faithful(m.funcs[f].values, a),
        m.funcs[f].values.contains_key(ret),
        m.funcs[f].values[ret].inst is Return,
        m.funcs[f].values[ret].inst->Return_0 is Some,
        usable(m.funcs[f].values, a, m.funcs[f].values[ret].inst->Return_0->Some_0),
        computes(m.funcs[f].values, m.funcs[f].values[ret].inst->Return_0->Some_0, c),
    ensures
        emit_inst(m, f, a, ret) is Ok,
        emit_inst(m, f, a, ret)->Ok_0.1 == seq![Instr::Li(RETURN_REG, c), Instr::Ret],
        faithful(m.funcs[f].values, emit_inst(m, f, a, ret)->Ok_0.0),
        keeps(a, emit_inst(m, f, a, ret)->Ok_0.0),
{
    let g = m.funcs[f].values;
    let v = g[ret].inst->Return_0->Some_0;
    lemma_value_constant(m, f, a, v, c);
    let a1 = emit_value(m, f, a, v)->Ok_0;
    assert(a1.regs[RETURN_REG as int] is None);
    assert(evict(a1, RETURN_REG) == Ok::<(Allocation, Option<Instr>), CompileError>((a1, None)));
    assert(maybe(None) + seq![place_result(ValueStore::Const(c)), Instr::Ret] =~= seq![
        Instr::Li(RETURN_REG, c),
        Instr::Ret,
    ]);
}

/// Visiting one list of instructions and then another is visiting the two
/// in a row.
pub proof fn lemma_emit_concat(
    m: IrModel,
    f: Function,
    a: Allocation,
    first: Seq<Value>,
    second: Seq<Value>,
)
    ensures
        emit_insts(m, f, a, first + second) == match emit_insts(m, f, a, first) {
            Err(e) => Err(e),
            Ok((a1, c1)) => match emit_insts(m, f, a1, second) {
                Err(e) => Err(e),
                Ok((a2, c2)) => Ok((a2, c1 + c2)),
            },
        },
    decreases second.len(),
{
    if second.len() == 0 {
        assert(first + second =~= first);
        match emit_insts(m, f, a, first) {
            Ok((a1, c1)) => {
                assert(c1 + Seq::<Instr>::empty() =~= c1);
            },
            Err(_) => {},
        }
    } else {
        assert((first + second).drop_last() =~= first + second.drop_last());
        assert((first + second).last() == second.last());
        lemma_emit_concat(m, f, a, first, second.drop_last());
        match emit_insts(m, f, a, first) {
            Ok((a1, c1)) => {
                match emit_insts(m, f, a1, second.drop_last()) {
                    Ok((a2, c2)) => {
                        match emit_inst(m, f, a2, second.last()) {
                            Ok((a3, c3)) => {
                                assert((c1 + c2) + c3 =~= c1 + (c2 + c3));
                            },
                            Err(_) => {},
                        }
                    },
                    Err(_) => {},
                }
            },
            Err(_) => {},
        }
    }
}

/// Two walks that succeed one after the other are one walk that succeeds,
/// with the code of both.
pub proof fn lemma_emit_then(
    m: IrModel,
    f: Function,
    a: Allocation,
    first: Seq<Value>,
    second: Seq<Value>,
)
    requires
        emit_insts(m, f, a, first) is Ok,
        emit_insts(m, f, emit_insts(m, f, a, first)->Ok_0.0, second) is Ok,
    ensures
        emit_insts(m, f, a, first + second) is Ok,
        emit_insts(m, f, a, first + second)->Ok_0.0 == emit_insts(
            m,
            f,
            emit_insts(m, f, a, first)->Ok_0.0,
            second,
        )->Ok_0.0,
        emit_insts(m, f, a, first + second)->Ok_0.1 == emit_insts(m, f, a, first)->Ok_0.1
            + emit_insts(m, f, emit_insts(m, f, a, first)->Ok_0.0, second)->Ok_0.1,
{
    lemma_emit_concat(m, f, a, first, second);
}

/// The walk over `insts` from `a` succeeds, emits nothing, and ends in a
/// faithful allocation that knows what `a` knows.
pub open spec fn quiet(m: IrModel, f: Function, a: Allocation, insts: Seq<Value>) -> bool {
    &&& emit_insts(m, f, a, insts) is Ok
    &&& emit_insts(m, f, a, insts)->Ok_0.1 == Seq::<Instr>::empty()
    &&& faithful(m.funcs[f].values, emit_insts(m, f, a, insts)->Ok_0.0)
    &&& keeps(a, emit_insts(m, f, a, insts)->Ok_0.0)
}

/// The walk over a quiet list and then an operation on usable operands is
/// quiet, and leaves the operation usable.
proof fn lemma_then_binary(
    m: IrModel,
    f: Function,
    a: Allocation,
    before: Seq<Value>,
    v: Value,
    c: i32,
)
    requires
        m.funcs.contains_key(f),
        quiet(m, f, a, before),
        m.funcs[f].values.contains_key(v),
        m.funcs[f].values[v].inst is Binary,
        usable(
            m.funcs[f].values,
            emit_insts(m, f, a, before)->Ok_0.0,
            m.funcs[f].values[v].inst->Binary_1,
        ),
        usable(
            m.funcs[f].values,
            emit_insts(m, f, a, before)->Ok_0.0,
            m.funcs[f].values[v].inst->Binary_2,
        ),
        computes(m.funcs[f].values, v, c),
    ensures
        quiet(m, f, a, before.push(v)),
        usable(m.funcs[f].values, emit_insts(m, f, a, before.push(v))->Ok_0.0, v),
        keeps(emit_insts(m, f, a, before)->Ok_0.0, emit_insts(m, f, a, before.push(v))->Ok_0.0),
{
    let a1 = emit_insts(m, f, a, before)->Ok_0.0;
    lemma_binary_constant(m, f, a1, v, c);
    assert(before.push(v).drop_last() =~= before);
    assert(Seq::<Instr>::empty() + Seq::<Instr>::empty() =~= Seq::<Instr>::empty());
    let a2 = emit_inst(m, f, a1, v)->Ok_0.0;
    assert(keeps(a, a2)) by {
        assert forall|w: Value| #[trigger] a.values.contains_key(w) implies a2.values.contains_key(
            w,
        ) by {
            assert(a1.values.contains_key(w));
        }
    }
}

/// The walk over two quiet lists in a row is quiet.
proof fn lemma_quiet_twice(
    m: IrModel,
    f: Function,
    a: Allocation,
    first: Seq<Value>,
    second: Seq<Value>,
)
    requires
        quiet(m, f, a, first),
        quiet(m, f, emit_insts(m, f, a, first)->Ok_0.0, second),
    ensures
        quiet(m, f, a, first + second),
        emit_insts(m, f, a, first + second)->Ok_0.0 == emit_insts(
            m,
            f,
            emit_insts(m, f, a, first)->Ok_0.0,
            second,
        )->Ok_0.0,
{
    lemma_emit_concat(m, f, a, first, second);
    assert(Seq::<Instr>::empty() + Seq::<Instr>::empty() =~= Seq::<Instr>::empty());
    let a1 = emit_insts(m, f, a, first)->Ok_0.0;
    let a2 = emit_insts(m, f, a1, second)->Ok_0.0;
    assert forall|w: Value| #[trigger] a.values.contains_key(w) implies a2.values.contains_key(w) by {
        assert(a1.values.contains_key(w));
    }
}

/// A value that is usable stays usable when the allocation learns more.
proof fn lemma_usable_kept(g: Graph, a: Allocation, b: Allocation, v: Value)
    requires
        usable(g, a, v),
        keeps(a, b),
    ensures
        usable(g, b, v),
{
    if !(g[v].inst is Integer) {
        assert(a.values.contains_key(v));
    }
}

/// The operands of a join have been walked over; the join is walked over.
proof fn lemma_join_constant(
    m: IrModel,
    f: Function,
    a: Allocation,
    insts: Seq<Value>,
    v: Value,
    op: BinaryOp,
    nl: int,
    nr: int,
    cl: i32,
    cr: i32,
    c: i32,
)
    requires
        m.funcs.contains_key(f),
        0 <= nl,
        0 <= nr,
        joined(m.funcs[f].values, insts, v, op, nl, nr) is Some,
        quiet(m, f, a, insts.subrange(0, nl)),
        quiet(m, f, emit_insts(m, f, a, insts.subrange(0, nl))->Ok_0.0, insts.subrange(nl, nl + nr)),
        usable(
            m.funcs[f].values,
            emit_insts(m, f, a, insts.subrange(0, nl))->Ok_0.0,
            joined(m.funcs[f].values, insts, v, op, nl, nr)->Some_0.0,
        ),
        usable(
            m.funcs[f].values,
            emit_insts(
                m,
                f,
                emit_insts(m, f, a, insts.subrange(0, nl))->Ok_0.0,
                insts.subrange(nl, nl + nr),
            )->Ok_0.0,
            joined(m.funcs[f].values, insts, v, op, nl, nr)->Some_0.1,
        ),
        computes(m.funcs[f].values, joined(m.funcs[f].values, insts, v, op, nl, nr)->Some_0.0, cl),
        computes(m.funcs[f].values, joined(m.funcs[f].values, insts, v, op, nl, nr)->Some_0.1, cr),
        fold_binary(op, cl, cr) == Ok::<i32, CompileError>(c),
    ensures
        computes(m.funcs[f].values, v, c),
        quiet(m, f, a, insts),
        usable(m.funcs[f].values, emit_insts(m, f, a, insts)->Ok_0.0, v),
{
    let g = m.funcs[f].values;
    let (lv, rv) = joined(g, insts, v, op, nl, nr)->Some_0;
    let left = insts.subrange(0, nl);
    let right = insts.subrange(nl, nl + nr);
    let a1 = emit_insts(m, f, a, left)->Ok_0.0;
    let a2 = emit_insts(m, f, a1, right)->Ok_0.0;
    lemma_quiet_twice(m, f, a, left, right);
    lemma_usable_kept(g, a1, a2, lv);
    lemma_computes_binary(g, v, op, lv, rv, cl, cr);
    lemma_then_binary(m, f, a, left + right, v, c);
    assert((left + right).push(v) =~= insts);
}

impl Exp {
    /// The lowered expression has, in the graph, the value it has in the
    /// source; the walk over its instructions emits nothing and leaves the
    /// value usable.
    pub proof fn lemma_constant(
        &self,
        m: IrModel,
        f: Function,
        a: Allocation,
        scope: Scope,
        insts: Seq<Value>,
        v: Value,
        c: i32,
    )
        requires
            m.funcs.contains_key(f),
            self.lowered(m.funcs[f].values, scope, insts, v),
            self.value(kinds(scope)) == Ok::<i32, CompileError>(c),
            faithful(m.funcs[f].values, a),
        ensures
            computes(m.funcs[f].values, v, c),
            quiet(m, f, a, insts),
            usable(m.funcs[f].values, emit_insts(m, f, a, insts)->Ok_0.0, v),
        decreases self,
    {
        match self {
            Exp::Exp(e) => e.lemma_constant(m, f, a, scope, insts, v, c),
        }
    }
}

impl LOrExp {
    /// The lowered expression has, in the graph, the value it has in the
    /// source; the walk over its instructions emits nothing and leaves the
    /// value usable.
    pub proof fn lemma_constant(
        &self,
        m: IrModel,
        f: Function,
        a: Allocation,
        scope: Scope,
        insts: Seq<Value>,
        v: Value,
        c: i32,
    )
        requires
            m.funcs.contains_key(f),
            self.lowered(m.funcs[f].values, scope, insts, v),
            self.value(kinds(scope)) == Ok::<i32, CompileError>(c),
            faithful(m.funcs[f].values, a),
        ensures
            computes(m.funcs[f].values, v, c),
            quiet(m, f, a, insts),
            usable(m.funcs[f].values, emit_insts(m, f, a, insts)->Ok_0.0, v),
        decreases self,
    {
        match self {
            LOrExp::LAndExp(e) => e.lemma_constant(m, f, a, scope, insts, v, c),
            LOrExp::LOrExp(l, r) => {
                let g = m.funcs[f].values;
                let nl = l.size(kinds(scope)) as int;
                let nr = r.size(kinds(scope)) as int;
                let (or, zero) = binary_at(g, v, BinaryOp::NotEq)->Some_0;
                let (lv, rv) = binary_at(g, or, BinaryOp::Or)->Some_0;
                let cl = l.value(kinds(scope))->Ok_0;
                let cr = r.value(kinds(scope))->Ok_0;
                let co = fold_binary(BinaryOp::Or, cl, cr)->Ok_0;
                let left = insts.subrange(0, nl);
                let right = insts.subrange(nl, nl + nr);
                l.lemma_constant(m, f, a, scope, left, lv, cl);
                let a1 = emit_insts(m, f, a, left)->Ok_0.0;
                r.lemma_constant(m, f, a1, scope, right, rv, cr);
                let a2 = emit_insts(m, f, a1, right)->Ok_0.0;
                lemma_quiet_twice(m, f, a, left, right);
                lemma_usable_kept(g, a1, a2, lv);
                lemma_computes_binary(g, or, BinaryOp::Or, lv, rv, cl, cr);
                lemma_then_binary(m, f, a, left + right, or, co);
                let a3 = emit_insts(m, f, a, (left + right).push(or))->Ok_0.0;
                assert(eval(g, zero, 0) == Some(0i32));
                lemma_computes_binary(g, v, BinaryOp::NotEq, or, zero, co, 0);
                lemma_then_binary(m, f, a, (left + right).push(or), v, c);
                assert((left + right).push(or).push(v) =~= insts);
            },
        }
    }
}

impl LAndExp {
    /// The lowered expression has, in the graph, the value it has in the
    /// source; the walk over its instructions emits nothing and leaves the
    /// value usable.
    pub proof fn lemma_constant(
        &self,
        m: IrModel,
        f: Function,
        a: Allocation,
        scope: Scope,
        insts: Seq<Value>,
        v: Value,
        c: i32,
    )
        requires
            m.funcs.contains_key(f),
            self.lowered(m.funcs[f].values, scope, insts, v),
            self.value(kinds(scope)) == Ok::<i32, CompileError>(c),
            faithful(m.funcs[f].values, a),
        ensures
            computes(m.funcs[f].values, v, c),
            quiet(m, f, a, insts),
            usable(m.funcs[f].values, emit_insts(m, f, a, insts)->Ok_0.0, v),
        decreases self,
    {
        match self {
            LAndExp::EqExp(e) => e.lemma_constant(m, f, a, scope, insts, v, c),
            LAndExp::LAndExp(l, r) => {
                let g = m.funcs[f].values;
                let nl = l.size(kinds(scope)) as int;
                let nr = r.size(kinds(scope)) as int;
                let (x, y) = binary_at(g, v, BinaryOp::And)->Some_0;
                let (lv, zero) = binary_at(g, x, BinaryOp::NotEq)->Some_0;
                let (rv, again) = binary_at(g, y, BinaryOp::NotEq)->Some_0;
                let cl = l.value(kinds(scope))->Ok_0;
                let cr = r.value(kinds(scope))->Ok_0;
                let cx = fold_binary(BinaryOp::NotEq, cl, 0)->Ok_0;
                let cy = fold_binary(BinaryOp::NotEq, cr, 0)->Ok_0;
                let left = insts.subrange(0, nl);
                let right = insts.subrange(nl, nl + nr);
                l.lemma_constant(m, f, a, scope, left, lv, cl);
                let a1 = emit_insts(m, f, a, left)->Ok_0.0;
                r.lemma_constant(m, f, a1, scope, right, rv, cr);
                let a2 = emit_insts(m, f, a1, right)->Ok_0.0;
                lemma_quiet_twice(m, f, a, left, right);
                lemma_usable_kept(g, a1, a2, lv);
                assert(eval(g, zero, 0) == Some(0i32));
                lemma_computes_binary(g, x, BinaryOp::NotEq, lv, zero, cl, 0);
                lemma_then_binary(m, f, a, left + right, x, cx);
                let a3 = emit_insts(m, f, a, (left + right).push(x))->Ok_0.0;
                lemma_usable_kept(g, a2, a3, rv);
                lemma_computes_binary(g, y, BinaryOp::NotEq, rv, zero, cr, 0);
                lemma_then_binary(m, f, a, (left + right).push(x), y, cy);
                let a4 = emit_insts(m, f, a, (left + right).push(x).push(y))->Ok_0.0;
                lemma_usable_kept(g, a3, a4, x);
                lemma_computes_binary(g, v, BinaryOp::And, x, y, cx, cy);
                lemma_then_binary(m, f, a, (left + right).push(x).push(y), v, c);
                assert((left + right).push(x).push(y).push(v) =~= insts);
            },
        }
    }
}

impl EqExp {
    /// The lowered expression has, in the graph, the value it has in the
    /// source; the walk over its instructions emits nothing and leaves the
    /// value usable.
    pub proof fn lemma_constant(
        &self,
        m: IrModel,
        f: Function,
        a: Allocation,
        scope: Scope,
        insts: Seq<Value>,
        v: Value,
        c: i32,
    )
        requires
            m.funcs.contains_key(f),
            self.lowered(m.funcs[f].values, scope, insts, v),
            self.value(kinds(scope)) == Ok::<i32, CompileError>(c),
            faithful(m.funcs[f].values, a),
        ensures
            computes(m.funcs[f].values, v, c),
            quiet(m, f, a, insts),
            usable(m.funcs[f].values, emit_insts(m, f, a, insts)->Ok_0.0, v),
        decreases self,
    {
        match self {
            EqExp::RelExp(e) => e.lemma_constant(m, f, a, scope, insts, v, c),
            EqExp::EqExp(l, op, r) => {
                let g = m.funcs[f].values;
                let nl = l.size(kinds(scope)) as int;
                let nr = r.size(kinds(scope)) as int;
                let (lv, rv) = joined(g, insts, v, op.binary(), nl, nr)->Some_0;
                let cl = l.value(kinds(scope))->Ok_0;
                let cr = r.value(kinds(scope))->Ok_0;
                l.lemma_constant(m, f, a, scope, insts.subrange(0, nl), lv, cl);
                let a1 = emit_insts(m, f, a, insts.subrange(0, nl))->Ok_0.0;
                r.lemma_constant(m, f, a1, scope, insts.subrange(nl, nl + nr), rv, cr);
                lemma_join_constant(m, f, a, insts, v, op.binary(), nl, nr, cl, cr, c);
            },
        }
    }
}

impl RelExp {
    /// The lowered expression has, in the graph, the value it has in the
    /// source; the walk over its instructions emits nothing and leaves the
    /// value usable.
    pub proof fn lemma_constant(
        &self,
        m: IrModel,
        f: Function,
        a: Allocation,
        scope: Scope,
        insts: Seq<Value>,
        v: Value,
        c: i32,
    )
        requires
            m.funcs.contains_key(f),
            self.lowered(m.funcs[f].values, scope, insts, v),
            self.value(kinds(scope)) == Ok::<i32, CompileError>(c),
            faithful(m.funcs[f].values, a),
        ensures
            computes(m.funcs[f].values, v, c),
            quiet(m, f, a, insts),
            usable(m.funcs[f].values, emit_insts(m, f, a, insts)->Ok_0.0, v),
        decreases self,
    {
        match self {
            RelExp::AddExp(e) => e.lemma_constant(m, f, a, scope, insts, v, c),
            RelExp::RelExp(l, op, r) => {
                let g = m.funcs[f].values;
                let nl = l.size(kinds(scope)) as int;
                let nr = r.size(kinds(scope)) as int;
                let (lv, rv) = joined(g, insts, v, op.binary(), nl, nr)->Some_0;
                let cl = l.value(kinds(scope))->Ok_0;
                let cr = r.value(kinds(scope))->Ok_0;
                l.lemma_constant(m, f, a, scope, insts.subrange(0, nl), lv, cl);
                let a1 = emit_insts(m, f, a, insts.subrange(0, nl))->Ok_0.0;
                r.lemma_constant(m, f, a1, scope, insts.subrange(nl, nl + nr), rv, cr);
                lemma_join_constant(m, f, a, insts, v, op.binary(), nl, nr, cl, cr, c);
            },
        }
    }
}

impl AddExp {
    /// The lowered expression has, in the graph, the value it has in the
    /// source; the walk over its instructions emits nothing and leaves the
    /// value usable.
    pub proof fn lemma_constant(
        &self,
        m: IrModel,
        f: Function,
        a: Allocation,
        scope: Scope,
        insts: Seq<Value>,
        v: Value,
        c: i32,
    )
        requires
            m.funcs.contains_key(f),
            self.lowered(m.funcs[f].values, scope, insts, v),
            self.value(kinds(scope)) == Ok::<i32, CompileError>(c),
            faithful(m.funcs[f].values, a),
        ensures
            computes(m.funcs[f].values, v, c),
            quiet(m, f, a, insts),
            usable(m.funcs[f].values, emit_insts(m, f, a, insts)->Ok_0.0, v),
        decreases self,
    {
        match self {
            AddExp::MulExp(e) => e.lemma_constant(m, f, a, scope, insts, v, c),
            AddExp::AddExp(l, op, r) => {
                let g = m.funcs[f].values;
                let nl = l.size(kinds(scope)) as int;
                let nr = r.size(kinds(scope)) as int;
                let (lv, rv) = joined(g, insts, v, op.binary(), nl, nr)->Some_0;
                let cl = l.value(kinds(scope))->Ok_0;
                let cr = r.value(kinds(scope))->Ok_0;
                l.lemma_constant(m, f, a, scope, insts.subrange(0, nl), lv, cl);
                let a1 = emit_insts(m, f, a, insts.subrange(0, nl))->Ok_0.0;
                r.lemma_constant(m, f, a1, scope, insts.subrange(nl, nl + nr), rv, cr);
                lemma_join_constant(m, f, a, insts, v, op.binary(), nl, nr, cl, cr, c);
            },
        }
    }
}

impl MulExp {
    /// The lowered expression has, in the graph, the value it has in the
    /// source; the walk over its instructions emits nothing and leaves the
    /// value usable.
    pub proof fn lemma_constant(
        &self,
        m: IrModel,
        f: Function,
        a: Allocation,
        scope: Scope,
        insts: Seq<Value>,
        v: Value,
        c: i32,
    )
        requires
            m.funcs.contains_key(f),
            self.lowered(m.funcs[f].values, scope, insts, v),
            self.value(kinds(scope)) == Ok::<i32, CompileError>(c),
            faithful(m.funcs[f].values, a),
        ensures
            computes(m.funcs[f].values, v, c),
            quiet(m, f, a, insts),
            usable(m.funcs[f].values, emit_insts(m, f, a, insts)->Ok_0.0, v),
        decreases self,
    {
        match self {
            MulExp::UnaryExp(e) => e.lemma_constant(m, f, a, scope, insts, v, c),
            MulExp::MulExp(l, op, r) => {
                let g = m.funcs[f].values;
                let nl = l.size(kinds(scope)) as int;
                let nr = r.size(kinds(scope)) as int;
                let (lv, rv) = joined(g, insts, v, op.binary(), nl, nr)->Some_0;
                let cl = l.value(kinds(scope))->Ok_0;
                let cr = r.value(kinds(scope))->Ok_0;
                l.lemma_constant(m, f, a, scope, insts.subrange(0, nl), lv, cl);
                let a1 = emit_insts(m, f, a, insts.subrange(0, nl))->Ok_0.0;
                r.lemma_constant(m, f, a1, scope, insts.subrange(nl, nl + nr), rv, cr);
                lemma_join_constant(m, f, a, insts, v, op.binary(), nl, nr, cl, cr, c);
            },
        }
    }
}

impl UnaryExp {
    /// The lowered expression has, in the graph, the value it has in the
    /// source; the walk over its instructions emits nothing and leaves the
    /// value usable.
    pub proof fn lemma_constant(
        &self,
        m: IrModel,
        f: Function,
        a: Allocation,
        scope: Scope,
        insts: Seq<Value>,
        v: Value,
        c: i32,
    )
        requires
            m.funcs.contains_key(f),
            self.lowered(m.funcs[f].values, scope, insts, v),
            self.value(kinds(scope)) == Ok::<i32, CompileError>(c),
            faithful(m.funcs[f].values, a),
        ensures
            computes(m.funcs[f].values, v, c),
            quiet(m, f, a, insts),
            usable(m.funcs[f].values, emit_insts(m, f, a, insts)->Ok_0.0, v),
        decreases self,
    {
        match self {
            UnaryExp::PrimaryExp(e) => e.lemma_constant(m, f, a, scope, insts, v, c),
            UnaryExp::UnaryOp(op, e) => {
                let g = m.funcs[f].values;
                let n = e.size(kinds(scope)) as int;
                let (zero, x) = joined(g, insts, v, op.binary(), 0, n)->Some_0;
                let cx = e.value(kinds(scope))->Ok_0;
                e.lemma_constant(m, f, a, scope, insts.drop_last(), x, cx);
                assert(eval(g, zero, 0) == Some(0i32));
                lemma_computes_binary(g, v, op.binary(), zero, x, 0, cx);
                lemma_then_binary(m, f, a, insts.drop_last(), v, c);
                assert(insts.drop_last().push(v) =~= insts);
            },
        }
    }
}

impl PrimaryExp {
    /// The lowered expression has, in the graph, the value it has in the
    /// source; the walk over its instructions emits nothing and leaves the
    /// value usable.
    pub proof fn lemma_constant(
        &self,
        m: IrModel,
        f: Function,
        a: Allocation,
        scope: Scope,
        insts: Seq<Value>,
        v: Value,
        c: i32,
    )
        requires
            m.funcs.contains_key(f),
            self.lowered(m.funcs[f].values, scope, insts, v),
            self.value(kinds(scope)) == Ok::<i32, CompileError>(c),
            faithful(m.funcs[f].values, a),
        ensures
            computes(m.funcs[f].values, v, c),
            quiet(m, f, a, insts),
            usable(m.funcs[f].values, emit_insts(m, f, a, insts)->Ok_0.0, v),
        decreases self,
    {
        let g = m.funcs[f].values;
        match self {
            PrimaryExp::Exp(e) => e.lemma_constant(m, f, a, scope, insts, v, c),
            _ => {
                assert(eval(g, v, 0) == Some(c));
                assert(insts =~= Seq::<Value>::empty());
            },
        }
    }
}

/// The item declares constants or returns an expression.
pub open spec fn plain_item(item: BlockItem) -> bool {
    match item {
        BlockItem::Decl(Decl::Const(_)) => true,
        BlockItem::Stmt(Stmt::Ret(_)) => true,
        _ => false,
    }
}

/// Every item declares constants or returns an expression.
pub open spec fn plain(items: Seq<BlockItem>) -> bool {
    forall|i: int| 0 <= i < items.len() ==> plain_item(#[trigger] items[i])
}

/// If the item returns an expression, the expression has a value.
#[verifier::opaque]
pub open spec fn item_valued(item: BlockItem, names: Names) -> bool {
    item matches BlockItem::Stmt(Stmt::Ret(e)) ==> e.value(names) is Ok
}

/// Every returned expression has a value under the declarations before it.
pub open spec fn valued(items: Seq<BlockItem>, names: Names) -> bool
    decreases items.len(),
{
    if items.len() == 0 {
        true
    } else {
        &&& valued(items.drop_last(), names)
        &&& item_valued(items.last(), items_check(items.drop_last(), names)->Ok_0)
    }
}

/// The code of one item of such a body: for a return, the load of the
/// value of its expression into the return register and the return
/// instruction; for a declaration, nothing.
#[verifier::opaque]
pub open spec fn item_code(item: BlockItem, names: Names) -> Seq<Instr> {
    match item {
        BlockItem::Stmt(Stmt::Ret(e)) => seq![
            Instr::Li(RETURN_REG, e.value(names)->Ok_0),
            Instr::Ret,
        ],
        _ => seq![],
    }
}

/// The code of a body of constants and returns: the code of its items, each
/// under the declarations before it.
pub open spec fn returns_code(items: Seq<BlockItem>, names: Names) -> Seq<Instr>
    decreases items.len(),
{
    if items.len() == 0 {
        seq![]
    } else {
        returns_code(items.drop_last(), names) + item_code(
            items.last(),
            items_check(items.drop_last(), names)->Ok_0,
        )
    }
}

/// The names of the scope after a list of constant definitions are the
/// names the check gives.
proof fn lemma_const_defs_names(defs: Seq<ConstDef>, scope: Scope)
    requires
        const_defs_check(defs, kinds(scope)) is Ok,
    ensures
        kinds(const_defs_after(defs, scope)) == const_defs_check(defs, kinds(scope))->Ok_0,
    decreases defs.len(),
{
    if defs.len() > 0 {
        lemma_const_defs_names(defs.drop_last(), scope);
        let mid = const_defs_after(defs.drop_last(), scope);
        reveal(ConstDef::check);
        lemma_kinds_insert(
            mid,
            defs.last().ident@,
            crate::parser::ast::vm::Decl::Const(defs.last().value.value(kinds(mid))->Ok_0),
        );
    }
}

/// The names of the scope after a body of constants and returns are the
/// names the check gives.
proof fn lemma_items_names(items: Seq<BlockItem>, scope: Scope, insts: Seq<Value>)
    requires
        plain(items),
        items_check(items, kinds(scope)) is Ok,
    ensures
        kinds(items_after(items, scope, insts)) == items_check(items, kinds(scope))->Ok_0,
    decreases items.len(),
{
    if items.len() > 0 {
        let split = items_size(items.drop_last(), kinds(scope)) as int;
        assert(plain(items.drop_last())) by {
            assert forall|i: int| 0 <= i < items.drop_last().len() implies plain_item(
                #[trigger] items.drop_last()[i],
            ) by {
                assert(items.drop_last()[i] == items[i]);
            }
        }
        lemma_items_names(items.drop_last(), scope, insts.take(split));
        let mid = items_after(items.drop_last(), scope, insts.take(split));
        reveal(BlockItem::check);
        reveal(BlockItem::after);
        assert(plain_item(items[items.len() - 1]));
        match items.last() {
            BlockItem::Decl(Decl::Const(d)) => {
                lemma_const_defs_names(d.defs@, mid);
            },
            _ => {},
        }
    }
}

/// The walk over a lowered return of an expression that has a value emits
/// the load of that value and the return instruction.
proof fn lemma_constant_return(
    e: &Exp,
    m: IrModel,
    f: Function,
    a: Allocation,
    scope: Scope,
    insts: Seq<Value>,
    c: i32,
)
    requires
        m.funcs.contains_key(f),
        insts.len() > 0,
        m.funcs[f].values.contains_key(insts.last()),
        m.funcs[f].values[insts.last()].inst is Return,
        m.funcs[f].values[insts.last()].inst->Return_0 is Some,
        e.lowered(
            m.funcs[f].values,
            scope,
            insts.drop_last(),
            m.funcs[f].values[insts.last()].inst->Return_0->Some_0,
        ),
        e.value(kinds(scope)) == Ok::<i32, CompileError>(c),
        faithful(m.funcs[f].values, a),
    ensures
        emit_insts(m, f, a, insts) is Ok,
        emit_insts(m, f, a, insts)->Ok_0.1 == seq![Instr::Li(RETURN_REG, c), Instr::Ret],
        faithful(m.funcs[f].values, emit_insts(m, f, a, insts)->Ok_0.0),
{
    let g = m.funcs[f].values;
    let ret = insts.last();
    let v = g[ret].inst->Return_0->Some_0;
    e.lemma_constant(m, f, a, scope, insts.drop_last(), v, c);
    let a1 = emit_insts(m, f, a, insts.drop_last())->Ok_0.0;
    lemma_return_constant(m, f, a1, ret, c);
    assert(Seq::<Instr>::empty() + seq![Instr::Li(RETURN_REG, c), Instr::Ret] =~= seq![
        Instr::Li(RETURN_REG, c),
        Instr::Ret,
    ]);
}

/// The walk over one lowered item of a body of constants and returns emits
/// the code of the item.
proof fn lemma_constant_item(
    item: BlockItem,
    m: IrModel,
    f: Function,
    a: Allocation,
    scope: Scope,
    insts: Seq<Value>,
)
    requires
        m.funcs.contains_key(f),
        plain_item(item),
        item_valued(item, kinds(scope)),
        item.lowered(m.funcs[f].values, scope, insts),
        faithful(m.funcs[f].values, a),
    ensures
        emit_insts(m, f, a, insts) is Ok,
        emit_insts(m, f, a, insts)->Ok_0.1 == item_code(item, kinds(scope)),
        faithful(m.funcs[f].values, emit_insts(m, f, a, insts)->Ok_0.0),
{
    reveal(BlockItem::lowered);
    reveal(item_valued);
    reveal(item_code);
    match item {
        BlockItem::Stmt(Stmt::Ret(e)) => {
            lemma_constant_return(&e, m, f, a, scope, insts, e.value(kinds(scope))->Ok_0);
        },
        _ => {
            assert(insts =~= Seq::<Value>::empty());
        },
    }
}

/// A body of constants and returns without its last item is one.
proof fn lemma_plain_init(items: Seq<BlockItem>)
    requires
        plain(items),
        items.len() > 0,
    ensures
        plain(items.drop_last()),
        plain_item(items.last()),
{
    assert forall|i: int| 0 <= i < items.drop_last().len() implies plain_item(
        #[trigger] items.drop_last()[i],
    ) by {
        assert(items.drop_last()[i] == items[i]);
    }
    assert(plain_item(items[items.len() - 1]));
}

/// The walk over the lowered body of constants and returns emits, for each
/// return, the load of the returned value and the return instruction.
#[verifier::rlimit(40)]
pub proof fn lemma_constant_items(
    items: Seq<BlockItem>,
    m: IrModel,
    f: Function,
    a: Allocation,
    scope: Scope,
    insts: Seq<Value>,
)
    requires
        m.funcs.contains_key(f),
        plain(items),
        items_check(items, kinds(scope)) is Ok,
        valued(items, kinds(scope)),
        items_lowered(items, m.funcs[f].values, scope, insts),
        faithful(m.funcs[f].values, a),
    ensures
        emit_insts(m, f, a, insts) is Ok,
        emit_insts(m, f, a, insts)->Ok_0.1 == returns_code(items, kinds(scope)),
        faithful(m.funcs[f].values, emit_insts(m, f, a, insts)->Ok_0.0),
    decreases items.len(),
{
    if items.len() == 0 {
        assert(insts =~= Seq::<Value>::empty());
    } else {
        let init = items.drop_last();
        let split = items_size(init, kinds(scope)) as int;
        let head = insts.take(split);
        let rest = insts.skip(split);
        lemma_plain_init(items);
        lemma_constant_items(init, m, f, a, scope, head);
        lemma_items_names(init, scope, head);
        let a1 = emit_insts(m, f, a, head)->Ok_0.0;
        let mid = items_after(init, scope, head);
        lemma_constant_item(items.last(), m, f, a1, mid, rest);
        lemma_emit_then(m, f, a, head, rest);
        assert(head + rest =~= insts);
    }
}

/// The walk over a function of one block is its label and the walk over
/// the instructions of the block.
proof fn lemma_single_block(m: IrModel, a: Allocation, f: Function)
    requires
        m.funcs.contains_key(f),
        m.funcs[f].layout.len() == 1,
        emit_insts(m, f, a, m.funcs[f].insts[m.funcs[f].layout[0]]) is Ok,
    ensures
        emit_func(m, a, f) == Ok::<(Allocation, Seq<Line>), CompileError>(
            (
                emit_insts(m, f, a, m.funcs[f].insts[m.funcs[f].layout[0]])->Ok_0.0,
                seq![Line::Label(label_of(m.funcs[f].name))] + code_lines(
                    emit_insts(m, f, a, m.funcs[f].insts[m.funcs[f].layout[0]])->Ok_0.1,
                ),
            ),
        ),
{
    let func = m.funcs[f];
    let bb = func.layout[0];
    let (a1, code) = emit_insts(m, f, a, func.insts[bb])->Ok_0;
    reveal_with_fuel(emit_blocks, 2);
    assert(func.layout.drop_last().len() == 0);
    assert(func.layout.last() == bb);
    assert(func.layout.contains(bb));
    assert(Seq::<Instr>::empty() + code =~= code);
    assert(emit_blocks(m, f, a, func.layout) == Ok::<(Allocation, Seq<Instr>), CompileError>(
        (a1, code),
    ));
}

/// The walk over a program of one function is the directives and the walk
/// over the function.
proof fn lemma_single_function(m: IrModel, a: Allocation)
    requires
        m.layout.len() == 1,
        emit_func(m, a, m.layout[0]) is Ok,
    ensures
        emit_program(m, a) == Ok::<(Allocation, Seq<Line>), CompileError>(
            (
                emit_func(m, a, m.layout[0])->Ok_0.0,
                seq![Line::Text, Line::Global] + emit_func(m, a, m.layout[0])->Ok_0.1,
            ),
        ),
{
    let f = m.layout[0];
    let (a1, lines) = emit_func(m, a, f)->Ok_0;
    reveal_with_fuel(emit_funcs, 2);
    assert(m.layout.drop_last().len() == 0);
    assert(m.layout.last() == f);
    assert(Seq::<Line>::empty() + lines =~= lines);
    assert(emit_funcs(m, a, m.layout) == Ok::<(Allocation, Seq<Line>), CompileError>((a1, lines)));
}

/// The empty allocation is faithful to every graph.
proof fn lemma_empty_faithful(g: Graph)
    ensures
        faithful(g, empty_allocation()),
{
}

/// The label of a function named with a sigil is the name after it.
proof fn lemma_label(ident: Seq<char>)
    ensures
        label_of("@"@ + ident) == ident,
{
    reveal_strlit("@");
    assert(label_of("@"@ + ident) =~= ident);
}

impl CompUnit {
    /// The unit declares constants and returns expressions that have a
    /// value: it has no variable, and no return divides by zero.
    pub open spec fn constant(&self) -> bool {
        &&& plain(self.func_def.block.items@)
        &&& valued(self.func_def.block.items@, Map::empty())
    }

    /// The assembly file of a constant unit: the directives, the label of
    /// the function, and for each return the load of its value into the
    /// return register and the return instruction.
    pub open spec fn constant_assembly(&self) -> Seq<char> {
        join(
            line_texts(
                seq![Line::Text, Line::Global, Line::Label(self.func_def.ident@)] + code_lines(
                    returns_code(self.func_def.block.items@, Map::empty()),
                ),
            ),
        )
    }

    /// The assembly stage accepts the program that a constant unit is
    /// lowered to, and writes the file that returns the values of the
    /// source.
    pub proof fn lemma_constant_unit(&self, m: IrModel)
        requires
            self.check() is Ok,
            self.constant(),
            self.lowered(m),
        ensures
            assembly(m) == Ok::<Seq<char>, CompileError>(self.constant_assembly()),
    {
        let f = m.layout[0];
        let func = m.funcs[f];
        let bb = func.layout[0];
        let a = empty_allocation();
        let items = self.func_def.block.items@;
        let scope = Map::<Seq<char>, crate::parser::ast::vm::Decl>::empty();
        assert(m.funcs.contains_key(f));
        assert(kinds(scope) =~= Map::<Seq<char>, Option<i32>>::empty());
        lemma_empty_faithful(func.values);
        lemma_constant_items(items, m, f, a, scope, func.insts[bb]);
        lemma_single_block(m, a, f);
        lemma_single_function(m, a);
        lemma_label(self.func_def.ident@);
        let code = returns_code(items, kinds(scope));
        assert(seq![Line::Text, Line::Global] + (seq![Line::Label(self.func_def.ident@)]
            + code_lines(code)) =~= seq![
            Line::Text,
            Line::Global,
            Line::Label(self.func_def.ident@),
        ] + code_lines(code));
    }

    /// `r` is what the assembly stage makes of the program `m`.
    pub open spec fn assembled(m: IrModel, r: Result<String, CompileError>) -> bool {
        match assembly(m) {
            Ok(text) => r is Ok && r->Ok_0@ == text,
            Err(e) => r == Err::<String, CompileError>(e),
        }
    }

    /// Compiles the unit to assembly: lowers it, and walks over the program
    /// it was lowered to.  An error of the lowering is the result.  A
    /// constant unit that can be lowered always compiles, to the file that
    /// returns the values of the source.
    pub fn assemble(&self) -> (r: Result<String, CompileError>)
        ensures
            self.check() matches Err(e) ==> r == Err::<String, CompileError>(e),
            self.check() is Ok ==> exists|m: IrModel| self.lowered(m) && Self::assembled(m, r),
            self.check() is Ok && self.constant() ==> r is Ok && r->Ok_0@
                == self.constant_assembly(),
    {
        let program = self.build()?;
        let ghost m = crate::parser::ir::program::ir_model(&program);
        proof {
            if self.constant() {
                self.lemma_constant_unit(m);
            }
        }
        let r = Visitor::default().visit(&program);
        assert(self.lowered(m) && Self::assembled(m, r));
        r
    }
}

} // verus!
