//! The lowering of expressions to the IR.
//!
//! An expression is built into the block a [`BuildParams`] points at.  The
//! build returns the value the expression became; the instructions it took
//! are appended to the block.  What is built is stated by the `lowered`
//! predicates over the model of the program.
use vstd::prelude::*;
use vstd::string::StringExecFns;
use koopa::ir::{BasicBlock, BinaryOp, Function, Program, Value};
use crate::parser::riscv::text::{digits, push_digits};
use crate::parser::ast::shape::{holds, within, Graph};
use crate::parser::ast::structs::{
    AddExp, EqExp, Exp, FuncType, LAndExp, LOrExp, MulExp, PrimaryExp, RelExp, UnaryExp,
};
use crate::parser::ast::vm::{kinds, Decl, Scope, ValueManager};
use crate::parser::error::CompileError;
use crate::parser::ir::program::{
    appended, extend_insts, fresh_function, has_block, has_type, ir_model, new_binary, new_block,
    new_int_function, new_integer, new_load, push_block, valid_name, FuncModel, Inst, IrModel, Ty,
};

verus! {

/// The source of block labels: a counter that is part of the state of the
/// lowering, so that the same source gives the same labels.
pub struct Labels {
    next: u64,
}

impl Labels {
    /// How many labels were handed out, as far as the counter can tell.
    pub closed spec fn count(&self) -> nat {
        self.next as nat
    }

    /// The label with number `n` under `prefix`: the prefix, an underscore
    /// and the number.
    pub open spec fn label(prefix: Seq<char>, n: nat) -> Seq<char> {
        prefix + "_"@ + digits(n)
    }

    /// A counter at zero.
    pub fn new() -> (labels: Labels)
        ensures
            labels.count() == 0,
    {
        Labels { next: 0 }
    }

    /// The next label under `prefix`.  The counter goes up by one, and
    /// starts over after the largest 64-bit number.
    pub fn next_bb_id(&mut self, prefix: &str) -> (name: String)
        ensures
            name@ == Self::label(prefix@, old(self).count()),
            final(self).count() == if old(self).count() == u64::MAX {
                0
            } else {
                old(self).count() + 1
            },
    {
        let mut name = String::from_str(prefix);
        name.append("_");
        push_digits(&mut name, self.next);
        self.next = self.next.wrapping_add(1);
        name
    }
}

/// Where the lowering writes, and the declarations it has met.
pub struct BuildParams {
    /// The function under construction.
    pub func: Function,
    /// The block that receives the instructions.
    pub bb: BasicBlock,
    /// The symbol table.
    pub vm: ValueManager,
    /// The source of block labels.
    pub labels: Labels,
}

/// The data-flow graph of function `f`.
pub open spec fn graph(m: IrModel, f: Function) -> Graph {
    m.funcs[f].values
}

/// The instructions of block `bb` of function `f`.
pub open spec fn code(m: IrModel, f: Function, bb: BasicBlock) -> Seq<Value> {
    m.funcs[f].insts[bb]
}

/// The program can be built into: the function is there and can type its
/// values, the block is in its layout, every instruction of the block is a
/// value of the graph, and every variable of the scope has a slot in the
/// graph.
pub open spec fn ready(m: IrModel, f: Function, bb: BasicBlock, scope: Scope) -> bool {
    &&& has_block(m, f, bb)
    &&& m.funcs[f].linked
    &&& forall|i: int|
        0 <= i < code(m, f, bb).len() ==> graph(m, f).contains_key(#[trigger] code(m, f, bb)[i])
    &&& forall|name: Seq<char>| #[trigger]
        scope.contains_key(name) ==> (scope[name] matches Decl::Var(slot) ==> has_type(
            m,
            f,
            slot,
            Ty::IntPtr,
        ))
}

/// The program `after` is `before` with more values in the graph of `f` and
/// more instructions at the end of block `bb`.  Nothing else differs.
pub open spec fn extends(before: IrModel, after: IrModel, f: Function, bb: BasicBlock) -> bool {
    &&& after.layout == before.layout
    &&& after.funcs.dom() == before.funcs.dom()
    &&& forall|h: Function|
        h != f && #[trigger] before.funcs.contains_key(h) ==> after.funcs[h] == before.funcs[h]
    &&& after.funcs[f].name == before.funcs[f].name
    &&& after.funcs[f].returns_int == before.funcs[f].returns_int
    &&& after.funcs[f].linked == before.funcs[f].linked
    &&& after.funcs[f].blocks == before.funcs[f].blocks
    &&& after.funcs[f].layout == before.funcs[f].layout
    &&& after.funcs[f].insts.remove(bb) == before.funcs[f].insts.remove(bb)
    &&& within(graph(before, f), graph(after, f))
    &&& code(before, f, bb).len() <= code(after, f, bb).len()
    &&& code(after, f, bb).take(code(before, f, bb).len() as int) == code(before, f, bb)
}

/// The instructions that `after` has at the end of the block and `before`
/// has not.
pub open spec fn added(before: IrModel, after: IrModel, f: Function, bb: BasicBlock) -> Seq<Value> {
    code(after, f, bb).skip(code(before, f, bb).len() as int)
}

/// Growing twice is growing once, by the instructions of both steps.
pub proof fn lemma_extends_twice(m0: IrModel, m1: IrModel, m2: IrModel, f: Function, bb: BasicBlock)
    requires
        extends(m0, m1, f, bb),
        extends(m1, m2, f, bb),
    ensures
        extends(m0, m2, f, bb),
        added(m0, m2, f, bb) == added(m0, m1, f, bb) + added(m1, m2, f, bb),
{
    let c0 = code(m0, f, bb);
    let c1 = code(m1, f, bb);
    let c2 = code(m2, f, bb);
    assert(c2.take(c0.len() as int) =~= c2.take(c1.len() as int).take(c0.len() as int));
    assert forall|i: int| c0.len() <= i < c1.len() implies #[trigger] c2[i] == c1[i] by {
        assert(c2.take(c1.len() as int)[i] == c1[i]);
    }
    assert(added(m0, m2, f, bb) =~= added(m0, m1, f, bb) + added(m1, m2, f, bb));
}

/// Appending handles that are new to a list, and differ from one another,
/// puts them at its end.
pub proof fn lemma_appended_new(list: Seq<Value>, more: Seq<Value>)
    requires
        forall|i: int| 0 <= i < more.len() ==> !list.contains(#[trigger] more[i]),
        forall|i: int, j: int| 0 <= i < j < more.len() ==> more[i] != more[j],
    ensures
        appended(list, more) == list + more,
    decreases more.len(),
{
    if more.len() == 0 {
        assert(list + more =~= list);
    } else {
        let next = list.push(more[0]);
        let rest = more.skip(1);
        assert forall|i: int| 0 <= i < rest.len() implies !next.contains(#[trigger] rest[i]) by {
            assert(rest[i] == more[i + 1]);
            if next.contains(rest[i]) {
                let k = choose|k: int| 0 <= k < next.len() && next[k] == rest[i];
                if k < list.len() {
                    assert(list[k] == more[i + 1]);
                    assert(list.contains(more[i + 1]));
                }
            }
        }
        assert forall|i: int, j: int| 0 <= i < j < rest.len() implies rest[i] != rest[j] by {
            assert(rest[i] == more[i + 1] && rest[j] == more[j + 1]);
        }
        lemma_appended_new(next, rest);
        assert(next + rest =~= list + more);
    }
}

/// The label of the first block of a function.
pub open spec fn entry_label() -> Seq<char> {
    Labels::label("%main"@, 0)
}

/// A function that has its entry block and nothing in it.
pub open spec fn opened_function(name: Seq<char>, bb: BasicBlock) -> FuncModel {
    FuncModel {
        blocks: Map::<BasicBlock, Option<Seq<char>>>::empty().insert(bb, Some(entry_label())),
        layout: seq![bb],
        insts: Map::<BasicBlock, Seq<Value>>::empty().insert(bb, Seq::empty()),
        ..fresh_function(name)
    }
}

impl BuildParams {
    /// The program can be built into with these parameters.
    pub open spec fn ready(&self, m: IrModel) -> bool {
        ready(m, self.func, self.bb, self.vm@)
    }

    /// Adds a function of the given name and type to the program, with an
    /// empty entry block, and gives the parameters to build into that
    /// block: no name is declared yet.
    pub fn new(program: &mut Program, name: String, func_type: &FuncType) -> (params: BuildParams)
        requires
            valid_name(name@),
        ensures
            params.ready(ir_model(final(program))),
            params.vm@ == Map::<Seq<char>, Decl>::empty(),
            !ir_model(old(program)).funcs.contains_key(params.func),
            ir_model(final(program)).funcs == ir_model(old(program)).funcs.insert(
                params.func,
                opened_function(name@, params.bb),
            ),
            ir_model(final(program)).layout == ir_model(old(program)).layout.push(params.func),
    {
        proof {
            reveal_strlit("%main");
            reveal_strlit("_");
        }
        let func = match func_type {
            FuncType::Int => new_int_function(program, name),
        };
        let mut labels = Labels::new();
        let label = labels.next_bb_id("%main");
        let bb = new_block(program, func, label);
        push_block(program, func, bb);
        proof {
            let m = ir_model(program);
            assert(m.funcs[func].layout =~= seq![bb]);
            assert(m.funcs[func].layout[0] == bb);
            assert(m.funcs =~= ir_model(old(program)).funcs.insert(
                func,
                opened_function(name@, bb),
            ));
        }
        BuildParams { func, bb, vm: ValueManager::new(), labels }
    }

    /// Makes an integer constant.  Constants are values, not instructions:
    /// the block does not change.
    pub fn integer(&self, program: &mut Program, n: i32) -> (v: Value)
        requires
            self.ready(ir_model(old(program))),
        ensures
            self.ready(ir_model(final(program))),
            extends(ir_model(old(program)), ir_model(final(program)), self.func, self.bb),
            code(ir_model(final(program)), self.func, self.bb) == code(
                ir_model(old(program)),
                self.func,
                self.bb,
            ),
            !graph(ir_model(old(program)), self.func).contains_key(v),
            holds(graph(ir_model(final(program)), self.func), v, Inst::Integer(n)),
            has_type(ir_model(final(program)), self.func, v, Ty::Int),
    {
        let v = new_integer(program, self.func, n);
        proof {
            let m0 = ir_model(old(program));
            let m1 = ir_model(program);
            assert(m1.funcs.dom() =~= m0.funcs.dom());
            assert(code(m1, self.func, self.bb).take(code(m0, self.func, self.bb).len() as int)
                =~= code(m0, self.func, self.bb));
            assert(added(m0, m1, self.func, self.bb).len() == 0);
            lemma_ready_kept(m0, m1, self.func, self.bb, self.vm@);
        }
        v
    }

    /// Makes a load from `slot` and places it at the end of the block.
    pub fn load(&self, program: &mut Program, slot: Value) -> (v: Value)
        requires
            self.ready(ir_model(old(program))),
            has_type(ir_model(old(program)), self.func, slot, Ty::IntPtr),
        ensures
            self.ready(ir_model(final(program))),
            extends(ir_model(old(program)), ir_model(final(program)), self.func, self.bb),
            added(ir_model(old(program)), ir_model(final(program)), self.func, self.bb) == seq![v],
            holds(graph(ir_model(final(program)), self.func), v, Inst::Load(slot)),
            has_type(ir_model(final(program)), self.func, v, Ty::Int),
    {
        let ghost m0 = ir_model(program);
        let v = new_load(program, self.func, slot);
        let ghost m1 = ir_model(program);
        let mut insts: Vec<Value> = Vec::new();
        insts.push(v);
        proof {
            assert(m1.funcs.dom() =~= m0.funcs.dom());
            assert(code(m1, self.func, self.bb).take(code(m0, self.func, self.bb).len() as int)
                =~= code(m0, self.func, self.bb));
            let c = code(m1, self.func, self.bb);
            if c.contains(v) {
                let k = choose|k: int| 0 <= k < c.len() && c[k] == v;
                assert(graph(m0, self.func).contains_key(c[k]));
            }
        }
        self.place(program, insts);
        proof {
            let m2 = ir_model(program);
            lemma_extends_twice(m0, m1, m2, self.func, self.bb);
            assert(added(m0, m2, self.func, self.bb) =~= seq![v]);
            lemma_ready_kept(m0, m2, self.func, self.bb, self.vm@);
        }
        v
    }

    /// Makes the operation `lhs op rhs`, without placing it in the block.
    pub fn operation(&self, program: &mut Program, op: BinaryOp, lhs: Value, rhs: Value) -> (v:
        Value)
        requires
            self.ready(ir_model(old(program))),
            has_type(ir_model(old(program)), self.func, lhs, Ty::Int),
            has_type(ir_model(old(program)), self.func, rhs, Ty::Int),
        ensures
            self.ready(ir_model(final(program))),
            extends(ir_model(old(program)), ir_model(final(program)), self.func, self.bb),
            code(ir_model(final(program)), self.func, self.bb) == code(
                ir_model(old(program)),
                self.func,
                self.bb,
            ),
            !graph(ir_model(old(program)), self.func).contains_key(v),
            holds(graph(ir_model(final(program)), self.func), v, Inst::Binary(op, lhs, rhs)),
            has_type(ir_model(final(program)), self.func, v, Ty::Int),
    {
        let v = new_binary(program, self.func, op, lhs, rhs);
        proof {
            let m0 = ir_model(old(program));
            let m1 = ir_model(program);
            assert(m1.funcs.dom() =~= m0.funcs.dom());
            assert(code(m1, self.func, self.bb).take(code(m0, self.func, self.bb).len() as int)
                =~= code(m0, self.func, self.bb));
            assert(added(m0, m1, self.func, self.bb).len() == 0);
            lemma_ready_kept(m0, m1, self.func, self.bb, self.vm@);
        }
        v
    }

    /// Places instructions at the end of the block.  They are values of the
    /// graph that the block does not have yet.
    pub fn place(&self, program: &mut Program, insts: Vec<Value>)
        requires
            has_block(ir_model(old(program)), self.func, self.bb),
            forall|i: int|
                0 <= i < insts@.len() ==> !code(ir_model(old(program)), self.func, self.bb).contains(
                    #[trigger] insts@[i],
                ),
            forall|i: int, j: int| 0 <= i < j < insts@.len() ==> insts@[i] != insts@[j],
        ensures
            extends(ir_model(old(program)), ir_model(final(program)), self.func, self.bb),
            graph(ir_model(final(program)), self.func) == graph(ir_model(old(program)), self.func),
            code(ir_model(final(program)), self.func, self.bb) == code(
                ir_model(old(program)),
                self.func,
                self.bb,
            ) + insts@,
    {
        proof {
            lemma_appended_new(code(ir_model(old(program)), self.func, self.bb), insts@);
        }
        extend_insts(program, self.func, self.bb, insts);
        proof {
            let m0 = ir_model(old(program));
            let m1 = ir_model(program);
            assert(m1.funcs.dom() =~= m0.funcs.dom());
            assert(m1.funcs[self.func].insts.remove(self.bb) =~= m0.funcs[self.func].insts.remove(
                self.bb,
            ));
            assert(code(m1, self.func, self.bb).take(code(m0, self.func, self.bb).len() as int)
                =~= code(m0, self.func, self.bb));
        }
    }

    /// Makes the operation `lhs op rhs` and places it at the end of the
    /// block.
    pub fn insert_op(&self, program: &mut Program, op: BinaryOp, lhs: Value, rhs: Value) -> (v:
        Value)
        requires
            self.ready(ir_model(old(program))),
            has_type(ir_model(old(program)), self.func, lhs, Ty::Int),
            has_type(ir_model(old(program)), self.func, rhs, Ty::Int),
        ensures
            self.ready(ir_model(final(program))),
            extends(ir_model(old(program)), ir_model(final(program)), self.func, self.bb),
            added(ir_model(old(program)), ir_model(final(program)), self.func, self.bb) == seq![v],
            holds(graph(ir_model(final(program)), self.func), v, Inst::Binary(op, lhs, rhs)),
            has_type(ir_model(final(program)), self.func, v, Ty::Int),
    {
        let ghost m0 = ir_model(program);
        let v = self.operation(program, op, lhs, rhs);
        let ghost m1 = ir_model(program);
        let mut insts: Vec<Value> = Vec::new();
        insts.push(v);
        proof {
            let c = code(m1, self.func, self.bb);
            if c.contains(v) {
                let k = choose|k: int| 0 <= k < c.len() && c[k] == v;
                assert(graph(m0, self.func).contains_key(c[k]));
            }
        }
        self.place(program, insts);
        proof {
            let m2 = ir_model(program);
            lemma_extends_twice(m0, m1, m2, self.func, self.bb);
            assert(added(m0, m2, self.func, self.bb) =~= seq![v]);
            lemma_ready_kept(m0, m2, self.func, self.bb, self.vm@);
        }
        v
    }
}

/// A program that could be built into can still be, once it has grown by
/// instructions that are values of its graph.
pub proof fn lemma_ready_kept(m0: IrModel, m1: IrModel, f: Function, bb: BasicBlock, scope: Scope)
    requires
        ready(m0, f, bb, scope),
        extends(m0, m1, f, bb),
        forall|i: int|
            0 <= i < added(m0, m1, f, bb).len() ==> graph(m1, f).contains_key(
                #[trigger] added(m0, m1, f, bb)[i],
            ),
    ensures
        ready(m1, f, bb, scope),
{
    let c0 = code(m0, f, bb);
    let c1 = code(m1, f, bb);
    assert(m1.funcs.contains_key(f)) by {
        assert(m0.funcs.dom().contains(f));
    }
    assert forall|i: int| 0 <= i < c1.len() implies graph(m1, f).contains_key(#[trigger] c1[i]) by {
        if i < c0.len() {
            assert(c1.take(c0.len() as int)[i] == c0[i]);
            assert(graph(m0, f).contains_key(c0[i]));
        } else {
            assert(added(m0, m1, f, bb)[i - c0.len()] == c1[i]);
        }
    }
    assert forall|name: Seq<char>| #[trigger] scope.contains_key(name) implies (scope[name] matches Decl::Var(
        slot,
    ) ==> has_type(m1, f, slot, Ty::IntPtr)) by {
        if let Decl::Var(slot) = scope[name] {
            assert(graph(m0, f).contains_key(slot));
        }
    }
}

/// The value `v` was built: the program grew, can be built into further, and
/// has `v` as an integer.
pub open spec fn built(before: IrModel, after: IrModel, params: &BuildParams, v: Value) -> bool {
    &&& params.ready(after)
    &&& extends(before, after, params.func, params.bb)
    &&& has_type(after, params.func, v, Ty::Int)
}

/// Three steps of growth in a row: the instructions of the first two and a
/// tail added by the third.
proof fn lemma_three_steps(
    m0: IrModel,
    m1: IrModel,
    m2: IrModel,
    m3: IrModel,
    f: Function,
    bb: BasicBlock,
)
    requires
        extends(m0, m1, f, bb),
        extends(m1, m2, f, bb),
        extends(m2, m3, f, bb),
    ensures
        extends(m0, m3, f, bb),
        extends(m1, m3, f, bb),
        added(m0, m3, f, bb) == added(m0, m1, f, bb) + added(m1, m2, f, bb) + added(m2, m3, f, bb),
        added(m0, m3, f, bb).subrange(0, added(m0, m1, f, bb).len() as int) == added(m0, m1, f, bb),
        added(m0, m3, f, bb).subrange(
            added(m0, m1, f, bb).len() as int,
            (added(m0, m1, f, bb).len() + added(m1, m2, f, bb).len()) as int,
        ) == added(m1, m2, f, bb),
{
    lemma_extends_twice(m0, m1, m2, f, bb);
    lemma_extends_twice(m0, m2, m3, f, bb);
    lemma_extends_twice(m1, m2, m3, f, bb);
    let all = added(m0, m3, f, bb);
    let l = added(m0, m1, f, bb);
    let r = added(m1, m2, f, bb);
    assert(all.subrange(0, l.len() as int) =~= l);
    assert(all.subrange(l.len() as int, (l.len() + r.len()) as int) =~= r);
}

impl Exp {
    /// Lowers the expression into the block.  The build fails if, and only
    /// if, the expression uses an identifier that is not declared.
    pub fn build(&self, program: &mut Program, params: &BuildParams) -> (r: Result<
        Value,
        CompileError,
    >)
        requires
            params.ready(ir_model(old(program))),
        ensures
            r is Ok <==> self.resolves(kinds(params.vm@)),
            r is Err ==> r == Err::<Value, CompileError>(CompileError::UndeclaredIdentifier),
            r matches Ok(v) ==> built(ir_model(old(program)), ir_model(final(program)), params, v)
                && added(
                ir_model(old(program)),
                ir_model(final(program)),
                params.func,
                params.bb,
            ).len() == self.size(kinds(params.vm@)) && self.lowered(
                graph(ir_model(final(program)), params.func),
                params.vm@,
                added(ir_model(old(program)), ir_model(final(program)), params.func, params.bb),
                v,
            ),
        decreases self,
    {
        match self {
            Exp::Exp(e) => e.build(program, params),
        }
    }
}

impl LOrExp {
    pub fn build(&self, program: &mut Program, params: &BuildParams) -> (r: Result<
        Value,
        CompileError,
    >)
        requires
            params.ready(ir_model(old(program))),
        ensures
            r is Ok <==> self.resolves(kinds(params.vm@)),
            r is Err ==> r == Err::<Value, CompileError>(CompileError::UndeclaredIdentifier),
            r matches Ok(v) ==> built(ir_model(old(program)), ir_model(final(program)), params, v)
                && added(
                ir_model(old(program)),
                ir_model(final(program)),
                params.func,
                params.bb,
            ).len() == self.size(kinds(params.vm@)) && self.lowered(
                graph(ir_model(final(program)), params.func),
                params.vm@,
                added(ir_model(old(program)), ir_model(final(program)), params.func, params.bb),
                v,
            ),
        decreases self,
    {
        match self {
            LOrExp::LAndExp(e) => e.build(program, params),
            LOrExp::LOrExp(l, r) => {
                let f = params.func;
                let bb = params.bb;
                let ghost m0 = ir_model(program);
                let lv = l.build(program, params)?;
                let ghost m1 = ir_model(program);
                let rv = r.build(program, params)?;
                let ghost m2 = ir_model(program);
                assert(graph(m1, f).contains_key(lv));
                let zero = params.integer(program, 0);
                let ghost ma = ir_model(program);
                assert(graph(m2, f).contains_key(rv));
                assert(graph(m1, f).contains_key(lv));
                let or = params.operation(program, BinaryOp::Or, lv, rv);
                let ghost mb = ir_model(program);
                assert(graph(ma, f).contains_key(zero));
                let res = params.operation(program, BinaryOp::NotEq, or, zero);
                let ghost mc = ir_model(program);
                let mut insts: Vec<Value> = Vec::new();
                insts.push(or);
                insts.push(res);
                proof {
                    let c = code(mc, f, bb);
                    assert(!c.contains(or)) by {
                        if c.contains(or) {
                            let k = choose|k: int| 0 <= k < c.len() && c[k] == or;
                            assert(graph(ma, f).contains_key(code(ma, f, bb)[k]));
                        }
                    }
                    assert(!c.contains(res)) by {
                        if c.contains(res) {
                            let k = choose|k: int| 0 <= k < c.len() && c[k] == res;
                            assert(graph(mb, f).contains_key(code(mb, f, bb)[k]));
                        }
                    }
                    assert(graph(mb, f).contains_key(or));
                }
                params.place(program, insts);
                proof {
                    let m3 = ir_model(program);
                    lemma_extends_twice(m2, ma, mb, f, bb);
                    lemma_extends_twice(m2, mb, mc, f, bb);
                    lemma_extends_twice(m2, mc, m3, f, bb);
                    assert(added(m2, m3, f, bb) =~= seq![or, res]);
                    lemma_three_steps(m0, m1, m2, m3, f, bb);
                    assert(graph(mc, f).contains_key(or) && graph(mc, f).contains_key(res)
                        && graph(mc, f).contains_key(zero));
                    lemma_ready_kept(m2, m3, f, bb, params.vm@);
                    let g = graph(m3, f);
                    let all = added(m0, m3, f, bb);
                    l.lemma_lowered_within(graph(m1, f), g, params.vm@, added(m0, m1, f, bb), lv);
                    r.lemma_lowered_within(graph(m2, f), g, params.vm@, added(m1, m2, f, bb), rv);
                    assert(g[res].inst == Inst::Binary(BinaryOp::NotEq, or, zero));
                    assert(g[or].inst == Inst::Binary(BinaryOp::Or, lv, rv));
                }
                Ok(res)
            },
        }
    }
}

impl LAndExp {
    pub fn build(&self, program: &mut Program, params: &BuildParams) -> (r: Result<
        Value,
        CompileError,
    >)
        requires
            params.ready(ir_model(old(program))),
        ensures
            r is Ok <==> self.resolves(kinds(params.vm@)),
            r is Err ==> r == Err::<Value, CompileError>(CompileError::UndeclaredIdentifier),
            r matches Ok(v) ==> built(ir_model(old(program)), ir_model(final(program)), params, v)
                && added(
                ir_model(old(program)),
                ir_model(final(program)),
                params.func,
                params.bb,
            ).len() == self.size(kinds(params.vm@)) && self.lowered(
                graph(ir_model(final(program)), params.func),
                params.vm@,
                added(ir_model(old(program)), ir_model(final(program)), params.func, params.bb),
                v,
            ),
        decreases self,
    {
        match self {
            LAndExp::EqExp(e) => e.build(program, params),
            LAndExp::LAndExp(l, r) => {
                let f = params.func;
                let bb = params.bb;
                let ghost m0 = ir_model(program);
                let lv = l.build(program, params)?;
                let ghost m1 = ir_model(program);
                let rv = r.build(program, params)?;
                let ghost m2 = ir_model(program);
                assert(graph(m1, f).contains_key(lv));
                let zero = params.integer(program, 0);
                let ghost ma = ir_model(program);
                assert(graph(m2, f).contains_key(rv));
                assert(graph(m2, f).contains_key(lv));
                let a = params.operation(program, BinaryOp::NotEq, lv, zero);
                let ghost mb = ir_model(program);
                assert(graph(ma, f).contains_key(zero));
                assert(graph(ma, f).contains_key(rv));
                let b = params.operation(program, BinaryOp::NotEq, rv, zero);
                let ghost mc = ir_model(program);
                assert(graph(mb, f).contains_key(a));
                let res = params.operation(program, BinaryOp::And, a, b);
                let ghost md = ir_model(program);
                let mut insts: Vec<Value> = Vec::new();
                insts.push(a);
                insts.push(b);
                insts.push(res);
                proof {
                    let c = code(md, f, bb);
                    assert(!c.contains(a)) by {
                        if c.contains(a) {
                            let k = choose|k: int| 0 <= k < c.len() && c[k] == a;
                            assert(graph(ma, f).contains_key(code(ma, f, bb)[k]));
                        }
                    }
                    assert(!c.contains(b)) by {
                        if c.contains(b) {
                            let k = choose|k: int| 0 <= k < c.len() && c[k] == b;
                            assert(graph(mb, f).contains_key(code(mb, f, bb)[k]));
                        }
                    }
                    assert(!c.contains(res)) by {
                        if c.contains(res) {
                            let k = choose|k: int| 0 <= k < c.len() && c[k] == res;
                            assert(graph(mc, f).contains_key(code(mc, f, bb)[k]));
                        }
                    }
                    assert(graph(mc, f).contains_key(a) && graph(mc, f).contains_key(b));
                }
                params.place(program, insts);
                proof {
                    let m3 = ir_model(program);
                    lemma_extends_twice(m2, ma, mb, f, bb);
                    lemma_extends_twice(m2, mb, mc, f, bb);
                    lemma_extends_twice(m2, mc, md, f, bb);
                    lemma_extends_twice(m2, md, m3, f, bb);
                    assert(added(m2, m3, f, bb) =~= seq![a, b, res]);
                    lemma_three_steps(m0, m1, m2, m3, f, bb);
                    assert(graph(md, f).contains_key(a) && graph(md, f).contains_key(b) && graph(
                        md,
                        f,
                    ).contains_key(res) && graph(md, f).contains_key(zero));
                    lemma_ready_kept(m2, m3, f, bb, params.vm@);
                    let g = graph(m3, f);
                    l.lemma_lowered_within(graph(m1, f), g, params.vm@, added(m0, m1, f, bb), lv);
                    r.lemma_lowered_within(graph(m2, f), g, params.vm@, added(m1, m2, f, bb), rv);
                    assert(g[res].inst == Inst::Binary(BinaryOp::And, a, b));
                    assert(g[a].inst == Inst::Binary(BinaryOp::NotEq, lv, zero));
                    assert(g[b].inst == Inst::Binary(BinaryOp::NotEq, rv, zero));
                }
                Ok(res)
            },
        }
    }
}

impl EqExp {
    pub fn build(&self, program: &mut Program, params: &BuildParams) -> (r: Result<
        Value,
        CompileError,
    >)
        requires
            params.ready(ir_model(old(program))),
        ensures
            r is Ok <==> self.resolves(kinds(params.vm@)),
            r is Err ==> r == Err::<Value, CompileError>(CompileError::UndeclaredIdentifier),
            r matches Ok(v) ==> built(ir_model(old(program)), ir_model(final(program)), params, v)
                && added(
                ir_model(old(program)),
                ir_model(final(program)),
                params.func,
                params.bb,
            ).len() == self.size(kinds(params.vm@)) && self.lowered(
                graph(ir_model(final(program)), params.func),
                params.vm@,
                added(ir_model(old(program)), ir_model(final(program)), params.func, params.bb),
                v,
            ),
        decreases self,
    {
        match self {
            EqExp::RelExp(e) => e.build(program, params),
            EqExp::EqExp(l, op, r) => {
                let f = params.func;
                let bb = params.bb;
                let ghost m0 = ir_model(program);
                let lv = l.build(program, params)?;
                let ghost m1 = ir_model(program);
                let rv = r.build(program, params)?;
                let ghost m2 = ir_model(program);
                assert(graph(m1, f).contains_key(lv));
                let v = params.insert_op(program, op.binary(), lv, rv);
                proof {
                    let m3 = ir_model(program);
                    lemma_three_steps(m0, m1, m2, m3, f, bb);
                    let g = graph(m3, f);
                    l.lemma_lowered_within(graph(m1, f), g, params.vm@, added(m0, m1, f, bb), lv);
                    r.lemma_lowered_within(graph(m2, f), g, params.vm@, added(m1, m2, f, bb), rv);
                }
                Ok(v)
            },
        }
    }
}

impl RelExp {
    pub fn build(&self, program: &mut Program, params: &BuildParams) -> (r: Result<
        Value,
        CompileError,
    >)
        requires
            params.ready(ir_model(old(program))),
        ensures
            r is Ok <==> self.resolves(kinds(params.vm@)),
            r is Err ==> r == Err::<Value, CompileError>(CompileError::UndeclaredIdentifier),
            r matches Ok(v) ==> built(ir_model(old(program)), ir_model(final(program)), params, v)
                && added(
                ir_model(old(program)),
                ir_model(final(program)),
                params.func,
                params.bb,
            ).len() == self.size(kinds(params.vm@)) && self.lowered(
                graph(ir_model(final(program)), params.func),
                params.vm@,
                added(ir_model(old(program)), ir_model(final(program)), params.func, params.bb),
                v,
            ),
        decreases self,
    {
        match self {
            RelExp::AddExp(e) => e.build(program, params),
            RelExp::RelExp(l, op, r) => {
                let f = params.func;
                let bb = params.bb;
                let ghost m0 = ir_model(program);
                let lv = l.build(program, params)?;
                let ghost m1 = ir_model(program);
                let rv = r.build(program, params)?;
                let ghost m2 = ir_model(program);
                assert(graph(m1, f).contains_key(lv));
                let v = params.insert_op(program, op.binary(), lv, rv);
                proof {
                    let m3 = ir_model(program);
                    lemma_three_steps(m0, m1, m2, m3, f, bb);
                    let g = graph(m3, f);
                    l.lemma_lowered_within(graph(m1, f), g, params.vm@, added(m0, m1, f, bb), lv);
                    r.lemma_lowered_within(graph(m2, f), g, params.vm@, added(m1, m2, f, bb), rv);
                }
                Ok(v)
            },
        }
    }
}

impl AddExp {
    pub fn build(&self, program: &mut Program, params: &BuildParams) -> (r: Result<
        Value,
        CompileError,
    >)
        requires
            params.ready(ir_model(old(program))),
        ensures
            r is Ok <==> self.resolves(kinds(params.vm@)),
            r is Err ==> r == Err::<Value, CompileError>(CompileError::UndeclaredIdentifier),
            r matches Ok(v) ==> built(ir_model(old(program)), ir_model(final(program)), params, v)
                && added(
                ir_model(old(program)),
                ir_model(final(program)),
                params.func,
                params.bb,
            ).len() == self.size(kinds(params.vm@)) && self.lowered(
                graph(ir_model(final(program)), params.func),
                params.vm@,
                added(ir_model(old(program)), ir_model(final(program)), params.func, params.bb),
                v,
            ),
        decreases self,
    {
        match self {
            AddExp::MulExp(e) => e.build(program, params),
            AddExp::AddExp(l, op, r) => {
                let f = params.func;
                let bb = params.bb;
                let ghost m0 = ir_model(program);
                let lv = l.build(program, params)?;
                let ghost m1 = ir_model(program);
                let rv = r.build(program, params)?;
                let ghost m2 = ir_model(program);
                assert(graph(m1, f).contains_key(lv));
                let v = params.insert_op(program, op.binary(), lv, rv);
                proof {
                    let m3 = ir_model(program);
                    lemma_three_steps(m0, m1, m2, m3, f, bb);
                    let g = graph(m3, f);
                    l.lemma_lowered_within(graph(m1, f), g, params.vm@, added(m0, m1, f, bb), lv);
                    r.lemma_lowered_within(graph(m2, f), g, params.vm@, added(m1, m2, f, bb), rv);
                }
                Ok(v)
            },
        }
    }
}

impl MulExp {
    pub fn build(&self, program: &mut Program, params: &BuildParams) -> (r: Result<
        Value,
        CompileError,
    >)
        requires
            params.ready(ir_model(old(program))),
        ensures
            r is Ok <==> self.resolves(kinds(params.vm@)),
            r is Err ==> r == Err::<Value, CompileError>(CompileError::UndeclaredIdentifier),
            r matches Ok(v) ==> built(ir_model(old(program)), ir_model(final(program)), params, v)
                && added(
                ir_model(old(program)),
                ir_model(final(program)),
                params.func,
                params.bb,
            ).len() == self.size(kinds(params.vm@)) && self.lowered(
                graph(ir_model(final(program)), params.func),
                params.vm@,
                added(ir_model(old(program)), ir_model(final(program)), params.func, params.bb),
                v,
            ),
        decreases self,
    {
        match self {
            MulExp::UnaryExp(e) => e.build(program, params),
            MulExp::MulExp(l, op, r) => {
                let f = params.func;
                let bb = params.bb;
                let ghost m0 = ir_model(program);
                let lv = l.build(program, params)?;
                let ghost m1 = ir_model(program);
                let rv = r.build(program, params)?;
                let ghost m2 = ir_model(program);
                assert(graph(m1, f).contains_key(lv));
                let v = params.insert_op(program, op.binary(), lv, rv);
                proof {
                    let m3 = ir_model(program);
                    lemma_three_steps(m0, m1, m2, m3, f, bb);
                    let g = graph(m3, f);
                    l.lemma_lowered_within(graph(m1, f), g, params.vm@, added(m0, m1, f, bb), lv);
                    r.lemma_lowered_within(graph(m2, f), g, params.vm@, added(m1, m2, f, bb), rv);
                }
                Ok(v)
            },
        }
    }
}

impl UnaryExp {
    pub fn build(&self, program: &mut Program, params: &BuildParams) -> (r: Result<
        Value,
        CompileError,
    >)
        requires
            params.ready(ir_model(old(program))),
        ensures
            r is Ok <==> self.resolves(kinds(params.vm@)),
            r is Err ==> r == Err::<Value, CompileError>(CompileError::UndeclaredIdentifier),
            r matches Ok(v) ==> built(ir_model(old(program)), ir_model(final(program)), params, v)
                && added(
                ir_model(old(program)),
                ir_model(final(program)),
                params.func,
                params.bb,
            ).len() == self.size(kinds(params.vm@)) && self.lowered(
                graph(ir_model(final(program)), params.func),
                params.vm@,
                added(ir_model(old(program)), ir_model(final(program)), params.func, params.bb),
                v,
            ),
        decreases self,
    {
        match self {
            UnaryExp::PrimaryExp(e) => e.build(program, params),
            UnaryExp::UnaryOp(op, e) => {
                let f = params.func;
                let bb = params.bb;
                let ghost m0 = ir_model(program);
                let x = e.build(program, params)?;
                let ghost m1 = ir_model(program);
                let zero = params.integer(program, 0);
                let ghost m2 = ir_model(program);
                assert(graph(m1, f).contains_key(x));
                let v = params.insert_op(program, op.binary(), zero, x);
                proof {
                    let m3 = ir_model(program);
                    lemma_three_steps(m0, m1, m2, m3, f, bb);
                    let g = graph(m3, f);
                    assert(added(m1, m2, f, bb).len() == 0);
                    assert(added(m0, m3, f, bb).drop_last() =~= added(m0, m1, f, bb));
                    assert(graph(m2, f).contains_key(zero));
                    e.lemma_lowered_within(graph(m1, f), g, params.vm@, added(m0, m1, f, bb), x);
                }
                Ok(v)
            },
        }
    }
}

impl PrimaryExp {
    pub fn build(&self, program: &mut Program, params: &BuildParams) -> (r: Result<
        Value,
        CompileError,
    >)
        requires
            params.ready(ir_model(old(program))),
        ensures
            r is Ok <==> self.resolves(kinds(params.vm@)),
            r is Err ==> r == Err::<Value, CompileError>(CompileError::UndeclaredIdentifier),
            r matches Ok(v) ==> built(ir_model(old(program)), ir_model(final(program)), params, v)
                && added(
                ir_model(old(program)),
                ir_model(final(program)),
                params.func,
                params.bb,
            ).len() == self.size(kinds(params.vm@)) && self.lowered(
                graph(ir_model(final(program)), params.func),
                params.vm@,
                added(ir_model(old(program)), ir_model(final(program)), params.func, params.bb),
                v,
            ),
        decreases self,
    {
        match self {
            PrimaryExp::Exp(e) => e.build(program, params),
            PrimaryExp::Number(n) => {
                let v = params.integer(program, *n);
                Ok(v)
            },
            PrimaryExp::LVal(name) => match params.vm.get(name.as_str()) {
                None => Err(CompileError::UndeclaredIdentifier),
                Some(Decl::Const(c)) => {
                    let v = params.integer(program, *c);
                    Ok(v)
                },
                Some(Decl::Var(slot)) => {
                    let v = params.load(program, *slot);
                    Ok(v)
                },
            },
        }
    }
}

} // verus!
