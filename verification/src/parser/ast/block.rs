//! The lowering of statements, declarations and whole functions.
//!
//! Declarations change the scope as they are met: a constant is evaluated
//! and entered with its value, and nothing is emitted for it; a variable
//! gets a slot, entered under its name, and its initialiser, if it has one,
//! is stored to the slot.  A name is declared once.  An assignment stores to
//! the slot of a variable, and a return returns the value of its expression.
use vstd::prelude::*;
use vstd::string::{StrSliceExecFns, StringExecFns};
use koopa::ir::{Function, Program, Value};
use crate::parser::ast::lower::{
    added, code, entry_label, extends, graph, lemma_extends_twice, lemma_ready_kept, ready,
    BuildParams,
};
use crate::parser::ast::shape::{holds, within, Graph};
use crate::parser::ast::structs::{
    Block, BlockItem, CompUnit, ConstDecl, ConstDef, Decl, FuncDef, Stmt, VarDecl, VarDef,
};
use crate::parser::ast::vm::{kinds, lemma_kinds_insert, Names, Scope};
use crate::parser::error::CompileError;
use crate::parser::ir::program::{
    has_type, ir_model, new_alloc, new_program, new_return, new_store, FuncModel, Inst, IrModel, Ty,
};

verus! {

/// What a name is declared as in the symbol table.
pub type Entry = crate::parser::ast::vm::Decl;

impl Stmt {
    /// Whether the statement can be lowered, and if not, why.
    pub open spec fn check(&self, names: Names) -> Result<(), CompileError> {
        match self {
            Stmt::Ret(e) => if e.resolves(names) {
                Ok(())
            } else {
                Err(CompileError::UndeclaredIdentifier)
            },
            Stmt::LVal(name, e) => if !names.contains_key(name@) {
                Err(CompileError::UndeclaredIdentifier)
            } else if names[name@] is Some {
                Err(CompileError::NotAssignable)
            } else if e.resolves(names) {
                Ok(())
            } else {
                Err(CompileError::UndeclaredIdentifier)
            },
        }
    }

    /// The number of instructions the statement is lowered to.
    pub open spec fn size(&self, names: Names) -> nat {
        match self {
            Stmt::Ret(e) => e.size(names) + 1,
            Stmt::LVal(_, e) => e.size(names) + 1,
        }
    }

    /// The instructions `insts` are what the statement is lowered to: those
    /// of the expression, then one return of its value, or one store of its
    /// value to the slot of the variable.
    pub open spec fn lowered(&self, g: Graph, scope: Scope, insts: Seq<Value>) -> bool {
        match self {
            Stmt::Ret(e) => {
                &&& insts.len() == e.size(kinds(scope)) + 1
                &&& g.contains_key(insts.last())
                &&& g[insts.last()].inst matches Inst::Return(Some(v)) && e.lowered(
                    g,
                    scope,
                    insts.drop_last(),
                    v,
                )
            },
            Stmt::LVal(name, e) => {
                &&& insts.len() == e.size(kinds(scope)) + 1
                &&& scope.contains_key(name@)
                &&& g.contains_key(insts.last())
                &&& g[insts.last()].inst matches Inst::Store(v, slot) && scope[name@]
                    == Entry::Var(slot) && e.lowered(g, scope, insts.drop_last(), v)
            },
        }
    }

    pub proof fn lemma_lowered_within(&self, g: Graph, h: Graph, scope: Scope, insts: Seq<Value>)
        requires
            self.lowered(g, scope, insts),
            within(g, h),
        ensures
            self.lowered(h, scope, insts),
    {
        match self {
            Stmt::Ret(e) => {
                assert(g.contains_key(insts.last()));
                let v = g[insts.last()].inst->Return_0->Some_0;
                e.lemma_lowered_within(g, h, scope, insts.drop_last(), v);
            },
            Stmt::LVal(name, e) => {
                assert(g.contains_key(insts.last()));
                let v = g[insts.last()].inst->Store_0;
                e.lemma_lowered_within(g, h, scope, insts.drop_last(), v);
            },
        }
    }

    /// Lowers the statement into the block.
    pub fn build(&self, program: &mut Program, params: &BuildParams) -> (r: Result<
        (),
        CompileError,
    >)
        requires
            params.ready(ir_model(old(program))),
        ensures
            r == self.check(kinds(params.vm@)),
            r is Ok ==> params.ready(ir_model(final(program))) && extends(
                ir_model(old(program)),
                ir_model(final(program)),
                params.func,
                params.bb,
            ) && added(
                ir_model(old(program)),
                ir_model(final(program)),
                params.func,
                params.bb,
            ).len() == self.size(kinds(params.vm@)) && self.lowered(
                graph(ir_model(final(program)), params.func),
                params.vm@,
                added(ir_model(old(program)), ir_model(final(program)), params.func, params.bb),
            ),
    {
        let f = params.func;
        let bb = params.bb;
        let ghost m0 = ir_model(program);
        match self {
            Stmt::Ret(e) => {
                let v = match e.build(program, params) {
                    Ok(v) => v,
                    Err(e) => {
                        return Err(e);
                    },
                };
                let ghost m1 = ir_model(program);
                let ret = params.ret(program, v);
                proof {
                    let m2 = ir_model(program);
                    lemma_extends_twice(m0, m1, m2, f, bb);
                    assert(added(m0, m2, f, bb).drop_last() =~= added(m0, m1, f, bb));
                    e.lemma_lowered_within(
                        graph(m1, f),
                        graph(m2, f),
                        params.vm@,
                        added(m0, m1, f, bb),
                        v,
                    );
                }
                Ok(())
            },
            Stmt::LVal(name, e) => {
                let slot = match params.vm.get(name.as_str()) {
                    None => {
                        return Err(CompileError::UndeclaredIdentifier);
                    },
                    Some(Entry::Const(_)) => {
                        return Err(CompileError::NotAssignable);
                    },
                    Some(Entry::Var(slot)) => *slot,
                };
                let v = match e.build(program, params) {
                    Ok(v) => v,
                    Err(e) => {
                        return Err(e);
                    },
                };
                let ghost m1 = ir_model(program);
                assert(graph(m0, f).contains_key(slot));
                let st = params.store(program, v, slot);
                proof {
                    let m2 = ir_model(program);
                    lemma_extends_twice(m0, m1, m2, f, bb);
                    assert(added(m0, m2, f, bb).drop_last() =~= added(m0, m1, f, bb));
                    e.lemma_lowered_within(
                        graph(m1, f),
                        graph(m2, f),
                        params.vm@,
                        added(m0, m1, f, bb),
                        v,
                    );
                }
                Ok(())
            },
        }
    }
}

impl BuildParams {
    /// Places one new value of the graph at the end of the block.
    fn place_one(&self, program: &mut Program, v: Value, Ghost(before): Ghost<IrModel>)
        requires
            self.ready(before),
            extends(before, ir_model(old(program)), self.func, self.bb),
            code(ir_model(old(program)), self.func, self.bb) == code(before, self.func, self.bb),
            !graph(before, self.func).contains_key(v),
            graph(ir_model(old(program)), self.func).contains_key(v),
        ensures
            self.ready(ir_model(final(program))),
            extends(before, ir_model(final(program)), self.func, self.bb),
            extends(ir_model(old(program)), ir_model(final(program)), self.func, self.bb),
            graph(ir_model(final(program)), self.func) == graph(ir_model(old(program)), self.func),
            added(before, ir_model(final(program)), self.func, self.bb) == seq![v],
    {
        let ghost m1 = ir_model(program);
        let mut insts: Vec<Value> = Vec::new();
        insts.push(v);
        proof {
            let c = code(m1, self.func, self.bb);
            if c.contains(v) {
                let k = choose|k: int| 0 <= k < c.len() && c[k] == v;
                assert(graph(before, self.func).contains_key(c[k]));
            }
            assert(m1.funcs.dom().contains(self.func));
        }
        self.place(program, insts);
        proof {
            let m2 = ir_model(program);
            lemma_extends_twice(before, m1, m2, self.func, self.bb);
            assert(added(before, m2, self.func, self.bb) =~= seq![v]);
            lemma_ready_kept(before, m2, self.func, self.bb, self.vm@);
        }
    }

    /// Makes a return of `v` and places it at the end of the block.
    pub fn ret(&self, program: &mut Program, v: Value) -> (r: Value)
        requires
            self.ready(ir_model(old(program))),
            has_type(ir_model(old(program)), self.func, v, Ty::Int),
        ensures
            self.ready(ir_model(final(program))),
            extends(ir_model(old(program)), ir_model(final(program)), self.func, self.bb),
            added(ir_model(old(program)), ir_model(final(program)), self.func, self.bb) == seq![r],
            holds(graph(ir_model(final(program)), self.func), r, Inst::Return(Some(v))),
    {
        let ghost m0 = ir_model(program);
        let r = new_return(program, self.func, Some(v));
        proof {
            let m1 = ir_model(program);
            assert(m1.funcs.dom() =~= m0.funcs.dom());
            assert(code(m1, self.func, self.bb).take(code(m0, self.func, self.bb).len() as int)
                =~= code(m0, self.func, self.bb));
        }
        self.place_one(program, r, Ghost(m0));
        r
    }

    /// Makes a store of `v` to `slot` and places it at the end of the
    /// block.
    pub fn store(&self, program: &mut Program, v: Value, slot: Value) -> (s: Value)
        requires
            self.ready(ir_model(old(program))),
            has_type(ir_model(old(program)), self.func, v, Ty::Int),
            has_type(ir_model(old(program)), self.func, slot, Ty::IntPtr),
        ensures
            self.ready(ir_model(final(program))),
            extends(ir_model(old(program)), ir_model(final(program)), self.func, self.bb),
            added(ir_model(old(program)), ir_model(final(program)), self.func, self.bb) == seq![s],
            holds(graph(ir_model(final(program)), self.func), s, Inst::Store(v, slot)),
    {
        let ghost m0 = ir_model(program);
        let s = new_store(program, self.func, v, slot);
        proof {
            let m1 = ir_model(program);
            assert(m1.funcs.dom() =~= m0.funcs.dom());
            assert(code(m1, self.func, self.bb).take(code(m0, self.func, self.bb).len() as int)
                =~= code(m0, self.func, self.bb));
        }
        self.place_one(program, s, Ghost(m0));
        s
    }

    /// Makes a slot for an integer and places it at the end of the block.
    pub fn slot(&self, program: &mut Program) -> (slot: Value)
        requires
            self.ready(ir_model(old(program))),
        ensures
            self.ready(ir_model(final(program))),
            extends(ir_model(old(program)), ir_model(final(program)), self.func, self.bb),
            added(ir_model(old(program)), ir_model(final(program)), self.func, self.bb) == seq![
                slot,
            ],
            holds(graph(ir_model(final(program)), self.func), slot, Inst::Alloc),
            has_type(ir_model(final(program)), self.func, slot, Ty::IntPtr),
    {
        let ghost m0 = ir_model(program);
        let slot = new_alloc(program, self.func);
        proof {
            let m1 = ir_model(program);
            assert(m1.funcs.dom() =~= m0.funcs.dom());
            assert(code(m1, self.func, self.bb).take(code(m0, self.func, self.bb).len() as int)
                =~= code(m0, self.func, self.bb));
        }
        self.place_one(program, slot, Ghost(m0));
        slot
    }
}

impl ConstDef {
    /// The names after the definition, or why it cannot be lowered: the
    /// name is taken, or the initialiser has no value.
    #[verifier::opaque]
    pub open spec fn check(&self, names: Names) -> Result<Names, CompileError> {
        if names.contains_key(self.ident@) {
            Err(CompileError::Redeclaration)
        } else {
            match self.value.value(names) {
                Ok(c) => Ok(names.insert(self.ident@, Some(c))),
                Err(e) => Err(e),
            }
        }
    }

    /// The scope after the definition.
    pub open spec fn after(&self, scope: Scope) -> Scope {
        scope.insert(self.ident@, Entry::Const(self.value.value(kinds(scope))->Ok_0))
    }

    /// Evaluates the initialiser and enters the constant.  No IR is
    /// emitted.
    pub fn build(&self, params: &mut BuildParams) -> (r: Result<(), CompileError>)
        ensures
            final(params).func == old(params).func,
            final(params).bb == old(params).bb,
            match self.check(kinds(old(params).vm@)) {
                Ok(names) => r is Ok && final(params).vm@ == self.after(old(params).vm@) && kinds(
                    final(params).vm@,
                ) == names,
                Err(e) => r == Err::<(), CompileError>(e),
            },
    {
        proof {
            reveal(ConstDef::check);
        }
        if params.vm.exist(self.ident.as_str()) {
            return Err(CompileError::Redeclaration);
        }
        let c = self.value.calc(&params.vm)?;
        proof {
            lemma_kinds_insert(params.vm@, self.ident@, Entry::Const(c));
        }
        params.vm.insert_const(self.ident.as_str(), c);
        Ok(())
    }
}

/// The names after a list of constant definitions, or the first error.
pub open spec fn const_defs_check(defs: Seq<ConstDef>, names: Names) -> Result<Names, CompileError>
    decreases defs.len(),
{
    if defs.len() == 0 {
        Ok(names)
    } else {
        match const_defs_check(defs.drop_last(), names) {
            Err(e) => Err(e),
            Ok(mid) => defs.last().check(mid),
        }
    }
}

/// The scope after a list of constant definitions.
pub open spec fn const_defs_after(defs: Seq<ConstDef>, scope: Scope) -> Scope
    decreases defs.len(),
{
    if defs.len() == 0 {
        scope
    } else {
        defs.last().after(const_defs_after(defs.drop_last(), scope))
    }
}

proof fn lemma_const_defs_fail(defs: Seq<ConstDef>, names: Names, n: int)
    requires
        0 <= n <= defs.len(),
        const_defs_check(defs.take(n), names) is Err,
    ensures
        const_defs_check(defs, names) == const_defs_check(defs.take(n), names),
    decreases defs.len() - n,
{
    if n < defs.len() {
        assert(defs.take(n + 1).drop_last() =~= defs.take(n));
        lemma_const_defs_fail(defs, names, n + 1);
    } else {
        assert(defs.take(n) =~= defs);
    }
}

impl ConstDecl {
    /// Enters the constants in order.
    pub fn build(&self, params: &mut BuildParams) -> (r: Result<(), CompileError>)
        ensures
            final(params).func == old(params).func,
            final(params).bb == old(params).bb,
            match const_defs_check(self.defs@, kinds(old(params).vm@)) {
                Ok(names) => r is Ok && final(params).vm@ == const_defs_after(
                    self.defs@,
                    old(params).vm@,
                ) && kinds(final(params).vm@) == names,
                Err(e) => r == Err::<(), CompileError>(e),
            },
    {
        let ghost scope = params.vm@;
        let mut i: usize = 0;
        while i < self.defs.len()
            invariant
                i <= self.defs@.len(),
                params.func == old(params).func,
                params.bb == old(params).bb,
                scope == old(params).vm@,
                const_defs_check(self.defs@.take(i as int), kinds(scope)) == Ok::<
                    Names,
                    CompileError,
                >(kinds(params.vm@)),
                params.vm@ == const_defs_after(self.defs@.take(i as int), scope),
            decreases self.defs@.len() - i,
        {
            proof {
                assert(self.defs@.take(i as int + 1).drop_last() =~= self.defs@.take(i as int));
                assert(self.defs@.take(i as int + 1).last() == self.defs@[i as int]);
            }
            match self.defs[i].build(params) {
                Ok(()) => {},
                Err(e) => {
                    proof {
                        assert(const_defs_check(self.defs@.take(i as int + 1), kinds(scope)) == Err::<
                            Names,
                            CompileError,
                        >(e));
                        lemma_const_defs_fail(self.defs@, kinds(scope), i as int + 1);
                    }
                    return Err(e);
                },
            }
            i = i + 1;
        }
        assert(self.defs@.take(i as int) =~= self.defs@);
        Ok(())
    }
}

impl VarDef {
    /// The name that is defined.
    pub open spec fn name(&self) -> Seq<char> {
        match self {
            VarDef::Ident(name) => name@,
            VarDef::InitVal(name, _) => name@,
        }
    }

    /// The names after the definition, or why it cannot be lowered.  The
    /// initialiser does not see the variable it initialises.
    #[verifier::opaque]
    pub open spec fn check(&self, names: Names) -> Result<Names, CompileError> {
        if names.contains_key(self.name()) {
            Err(CompileError::Redeclaration)
        } else {
            match self {
                VarDef::Ident(_) => Ok(names.insert(self.name(), None)),
                VarDef::InitVal(_, e) => if e.resolves(names) {
                    Ok(names.insert(self.name(), None))
                } else {
                    Err(CompileError::UndeclaredIdentifier)
                },
            }
        }
    }

    /// The number of instructions the definition is lowered to.
    #[verifier::opaque]
    pub open spec fn size(&self, names: Names) -> nat {
        match self {
            VarDef::Ident(_) => 1,
            VarDef::InitVal(_, e) => e.size(names) + 2,
        }
    }

    /// The scope after the definition: the name stands for the slot, which
    /// is the first of the instructions.
    #[verifier::opaque]
    pub open spec fn after(&self, scope: Scope, insts: Seq<Value>) -> Scope {
        scope.insert(self.name(), Entry::Var(insts[0]))
    }

    /// The instructions `insts` are what the definition is lowered to: the
    /// slot, and for an initialiser its instructions and the store of its
    /// value to the slot.
    #[verifier::opaque]
    pub open spec fn lowered(&self, g: Graph, scope: Scope, insts: Seq<Value>) -> bool {
        match self {
            VarDef::Ident(_) => insts.len() == 1 && holds(g, insts[0], Inst::Alloc),
            VarDef::InitVal(_, e) => {
                &&& insts.len() == e.size(kinds(scope)) + 2
                &&& holds(g, insts[0], Inst::Alloc)
                &&& g.contains_key(insts.last())
                &&& g[insts.last()].inst matches Inst::Store(v, slot) && slot == insts[0]
                    && e.lowered(g, scope, insts.subrange(1, insts.len() - 1), v)
            },
        }
    }

    pub proof fn lemma_lowered_within(&self, g: Graph, h: Graph, scope: Scope, insts: Seq<Value>)
        requires
            self.lowered(g, scope, insts),
            within(g, h),
        ensures
            self.lowered(h, scope, insts),
    {
        reveal(VarDef::lowered);
        match self {
            VarDef::Ident(_) => {
                assert(g.contains_key(insts[0]));
            },
            VarDef::InitVal(_, e) => {
                assert(g.contains_key(insts[0]));
                assert(g.contains_key(insts.last()));
                let v = g[insts.last()].inst->Store_0;
                e.lemma_lowered_within(g, h, scope, insts.subrange(1, insts.len() - 1), v);
            },
        }
    }

    /// Makes the slot, lowers the initialiser and stores its value, and
    /// enters the variable.
    pub fn build(&self, program: &mut Program, params: &mut BuildParams) -> (r: Result<
        (),
        CompileError,
    >)
        requires
            old(params).ready(ir_model(old(program))),
        ensures
            final(params).func == old(params).func,
            final(params).bb == old(params).bb,
            match self.check(kinds(old(params).vm@)) {
                Ok(names) => r is Ok && kinds(final(params).vm@) == names && var_built(
                    ir_model(old(program)),
                    ir_model(final(program)),
                    old(params),
                    final(params),
                ) && added(
                    ir_model(old(program)),
                    ir_model(final(program)),
                    old(params).func,
                    old(params).bb,
                ).len() == self.size(kinds(old(params).vm@)) && self.lowered(
                    graph(ir_model(final(program)), old(params).func),
                    old(params).vm@,
                    added(
                        ir_model(old(program)),
                        ir_model(final(program)),
                        old(params).func,
                        old(params).bb,
                    ),
                ) && final(params).vm@ == self.after(
                    old(params).vm@,
                    added(
                        ir_model(old(program)),
                        ir_model(final(program)),
                        old(params).func,
                        old(params).bb,
                    ),
                ),
                Err(e) => r == Err::<(), CompileError>(e),
            },
    {
        proof {
            reveal(VarDef::check);
            reveal(VarDef::size);
            reveal(VarDef::after);
            reveal(VarDef::lowered);
        }
        let f = params.func;
        let bb = params.bb;
        let ghost m0 = ir_model(program);
        let ghost scope = params.vm@;
        match self {
            VarDef::Ident(name) => {
                if params.vm.exist(name.as_str()) {
                    return Err(CompileError::Redeclaration);
                }
                let slot = params.slot(program);
                proof {
                    lemma_kinds_insert(scope, name@, Entry::Var(slot));
                }
                params.vm.insert_var(name.as_str(), slot);
                proof {
                    let m1 = ir_model(program);
                    lemma_ready_declared(m1, f, bb, scope, name@, slot);
                }
                Ok(())
            },
            VarDef::InitVal(name, e) => {
                if params.vm.exist(name.as_str()) {
                    return Err(CompileError::Redeclaration);
                }
                let slot = params.slot(program);
                let ghost m1 = ir_model(program);
                let v = match e.build(program, params) {
                    Ok(v) => v,
                    Err(e) => {
                        return Err(e);
                    },
                };
                let ghost m2 = ir_model(program);
                assert(graph(m1, f).contains_key(slot));
                let st = params.store(program, v, slot);
                proof {
                    lemma_kinds_insert(scope, name@, Entry::Var(slot));
                }
                params.vm.insert_var(name.as_str(), slot);
                proof {
                    let m3 = ir_model(program);
                    lemma_extends_twice(m0, m1, m2, f, bb);
                    lemma_extends_twice(m0, m2, m3, f, bb);
                    lemma_extends_twice(m1, m2, m3, f, bb);
                    let all = added(m0, m3, f, bb);
                    assert(all =~= seq![slot] + added(m1, m2, f, bb) + seq![st]);
                    assert(all.subrange(1, all.len() - 1) =~= added(m1, m2, f, bb));
                    assert(graph(m1, f).contains_key(slot));
                    e.lemma_lowered_within(
                        graph(m2, f),
                        graph(m3, f),
                        scope,
                        added(m1, m2, f, bb),
                        v,
                    );
                    lemma_ready_declared(m3, f, bb, scope, name@, slot);
                }
                Ok(())
            },
        }
    }
}

/// A declaration was built: the program grew and can be built into with
/// the new scope.
pub open spec fn var_built(
    before: IrModel,
    after: IrModel,
    old_params: &BuildParams,
    new_params: &BuildParams,
) -> bool {
    &&& new_params.ready(after)
    &&& extends(before, after, old_params.func, old_params.bb)
}

/// A program that can be built into still can when a variable is declared
/// whose slot is a pointer of its graph.
pub proof fn lemma_ready_declared(
    m: IrModel,
    f: Function,
    bb: koopa::ir::BasicBlock,
    scope: Scope,
    name: Seq<char>,
    slot: Value,
)
    requires
        ready(m, f, bb, scope),
        has_type(m, f, slot, Ty::IntPtr),
    ensures
        ready(m, f, bb, scope.insert(name, Entry::Var(slot))),
{
    let after = scope.insert(name, Entry::Var(slot));
    assert forall|n: Seq<char>| #[trigger] after.contains_key(n) implies (after[n] matches Entry::Var(
        s,
    ) ==> has_type(m, f, s, Ty::IntPtr)) by {
        if n != name {
            assert(scope.contains_key(n));
        }
    }
}

/// A program that can be built into still can when a constant is declared.
pub proof fn lemma_ready_constant(
    m: IrModel,
    f: Function,
    bb: koopa::ir::BasicBlock,
    scope: Scope,
    name: Seq<char>,
    c: i32,
)
    requires
        ready(m, f, bb, scope),
    ensures
        ready(m, f, bb, scope.insert(name, Entry::Const(c))),
{
    let after = scope.insert(name, Entry::Const(c));
    assert forall|n: Seq<char>| #[trigger] after.contains_key(n) implies (after[n] matches Entry::Var(
        s,
    ) ==> has_type(m, f, s, Ty::IntPtr)) by {
        if n != name {
            assert(scope.contains_key(n));
        }
    }
}

/// The names after a list of variable definitions, or the first error.
pub open spec fn var_defs_check(list: Seq<VarDef>, names: Names) -> Result<Names, CompileError>
    decreases list.len(),
{
    if list.len() == 0 {
        Ok(names)
    } else {
        match var_defs_check(list.drop_last(), names) {
            Err(e) => Err(e),
            Ok(mid) => list.last().check(mid),
        }
    }
}

/// The number of instructions a list of variable definitions is lowered to.
pub open spec fn var_defs_size(list: Seq<VarDef>, names: Names) -> nat
    decreases list.len(),
{
    if list.len() == 0 {
        0
    } else {
        var_defs_size(list.drop_last(), names) + list.last().size(
            var_defs_check(list.drop_last(), names)->Ok_0,
        )
    }
}

/// The scope after a list of variable definitions that was lowered to `insts`.
pub open spec fn var_defs_after(list: Seq<VarDef>, scope: Scope, insts: Seq<Value>) -> Scope
    decreases list.len(),
{
    if list.len() == 0 {
        scope
    } else {
        let split = var_defs_size(list.drop_last(), kinds(scope)) as int;
        list.last().after(
            var_defs_after(list.drop_last(), scope, insts.take(split)),
            insts.skip(split),
        )
    }
}

/// The instructions `insts` are what a list of variable definitions is lowered to, one
/// after the other, each under the scope the ones before it leave.
pub open spec fn var_defs_lowered(list: Seq<VarDef>, g: Graph, scope: Scope, insts: Seq<Value>) -> bool
    decreases list.len(),
{
    if list.len() == 0 {
        insts.len() == 0
    } else {
        let split = var_defs_size(list.drop_last(), kinds(scope)) as int;
        &&& split <= insts.len()
        &&& var_defs_lowered(list.drop_last(), g, scope, insts.take(split))
        &&& list.last().lowered(
            g,
            var_defs_after(list.drop_last(), scope, insts.take(split)),
            insts.skip(split),
        )
    }
}

pub proof fn lemma_var_defs_within(list: Seq<VarDef>, g: Graph, h: Graph, scope: Scope, insts: Seq<Value>)
    requires
        var_defs_lowered(list, g, scope, insts),
        within(g, h),
    ensures
        var_defs_lowered(list, h, scope, insts),
    decreases list.len(),
{
    if list.len() > 0 {
        let split = var_defs_size(list.drop_last(), kinds(scope)) as int;
        lemma_var_defs_within(list.drop_last(), g, h, scope, insts.take(split));
        list.last().lemma_lowered_within(
            g,
            h,
            var_defs_after(list.drop_last(), scope, insts.take(split)),
            insts.skip(split),
        );
    }
}

proof fn lemma_var_defs_fail(list: Seq<VarDef>, names: Names, n: int)
    requires
        0 <= n <= list.len(),
        var_defs_check(list.take(n), names) is Err,
    ensures
        var_defs_check(list, names) == var_defs_check(list.take(n), names),
    decreases list.len() - n,
{
    if n < list.len() {
        assert(list.take(n + 1).drop_last() =~= list.take(n));
        lemma_var_defs_fail(list, names, n + 1);
    } else {
        assert(list.take(n) =~= list);
    }
}

/// One more element at the end of a list that was lowered.
proof fn lemma_var_defs_step(
    list: Seq<VarDef>,
    n: int,
    m0: IrModel,
    m1: IrModel,
    m2: IrModel,
    f: Function,
    bb: koopa::ir::BasicBlock,
    scope: Scope,
    mid: Scope,
)
    requires
        0 <= n < list.len(),
        extends(m0, m1, f, bb),
        extends(m1, m2, f, bb),
        var_defs_check(list.take(n), kinds(scope)) == Ok::<Names, CompileError>(kinds(mid)),
        added(m0, m1, f, bb).len() == var_defs_size(list.take(n), kinds(scope)),
        var_defs_lowered(list.take(n), graph(m1, f), scope, added(m0, m1, f, bb)),
        mid == var_defs_after(list.take(n), scope, added(m0, m1, f, bb)),
        list[n].check(kinds(mid)) is Ok,
        added(m1, m2, f, bb).len() == list[n].size(kinds(mid)),
        list[n].lowered(graph(m2, f), mid, added(m1, m2, f, bb)),
    ensures
        extends(m0, m2, f, bb),
        var_defs_check(list.take(n + 1), kinds(scope)) == list[n].check(kinds(mid)),
        added(m0, m2, f, bb).len() == var_defs_size(list.take(n + 1), kinds(scope)),
        var_defs_lowered(list.take(n + 1), graph(m2, f), scope, added(m0, m2, f, bb)),
        var_defs_after(list.take(n + 1), scope, added(m0, m2, f, bb)) == list[n].after(
            mid,
            added(m1, m2, f, bb),
        ),
{
    lemma_extends_twice(m0, m1, m2, f, bb);
    let all = added(m0, m2, f, bb);
    let first = added(m0, m1, f, bb);
    assert(list.take(n + 1).drop_last() =~= list.take(n));
    assert(list.take(n + 1).last() == list[n]);
    assert(all.take(first.len() as int) =~= first);
    assert(all.skip(first.len() as int) =~= added(m1, m2, f, bb));
    lemma_var_defs_within(list.take(n), graph(m1, f), graph(m2, f), scope, first);
}

impl VarDecl {
    /// Lowers the definitions in order.
    pub fn build(&self, program: &mut Program, params: &mut BuildParams) -> (r: Result<
        (),
        CompileError,
    >)
        requires
            old(params).ready(ir_model(old(program))),
        ensures
            final(params).func == old(params).func,
            final(params).bb == old(params).bb,
            match var_defs_check(self.defs@, kinds(old(params).vm@)) {
                Ok(names) => r is Ok && kinds(final(params).vm@) == names && var_built(
                    ir_model(old(program)),
                    ir_model(final(program)),
                    old(params),
                    final(params),
                ) && added(
                    ir_model(old(program)),
                    ir_model(final(program)),
                    old(params).func,
                    old(params).bb,
                ).len() == var_defs_size(self.defs@, kinds(old(params).vm@)) && var_defs_lowered(
                    self.defs@,
                    graph(ir_model(final(program)), old(params).func),
                    old(params).vm@,
                    added(
                        ir_model(old(program)),
                        ir_model(final(program)),
                        old(params).func,
                        old(params).bb,
                    ),
                ) && final(params).vm@ == var_defs_after(
                    self.defs@,
                    old(params).vm@,
                    added(
                        ir_model(old(program)),
                        ir_model(final(program)),
                        old(params).func,
                        old(params).bb,
                    ),
                ),
                Err(e) => r == Err::<(), CompileError>(e),
            },
    {
        let f = params.func;
        let bb = params.bb;
        let ghost m0 = ir_model(program);
        let ghost scope = params.vm@;
        let mut i: usize = 0;
        proof {
            assert(added(m0, m0, f, bb).len() == 0);
            assert(code(m0, f, bb).take(code(m0, f, bb).len() as int) =~= code(m0, f, bb));
        }
        while i < self.defs.len()
            invariant
                i <= self.defs@.len(),
                params.func == f,
                params.bb == bb,
                f == old(params).func,
                bb == old(params).bb,
                scope == old(params).vm@,
                m0 == ir_model(old(program)),
                params.ready(ir_model(program)),
                extends(m0, ir_model(program), f, bb),
                var_defs_check(self.defs@.take(i as int), kinds(scope)) == Ok::<
                    Names,
                    CompileError,
                >(kinds(params.vm@)),
                added(m0, ir_model(program), f, bb).len() == var_defs_size(
                    self.defs@.take(i as int),
                    kinds(scope),
                ),
                var_defs_lowered(
                    self.defs@.take(i as int),
                    graph(ir_model(program), f),
                    scope,
                    added(m0, ir_model(program), f, bb),
                ),
                params.vm@ == var_defs_after(
                    self.defs@.take(i as int),
                    scope,
                    added(m0, ir_model(program), f, bb),
                ),
            decreases self.defs@.len() - i,
        {
            let ghost m1 = ir_model(program);
            let ghost mid = params.vm@;
            proof {
                assert(self.defs@.take(i as int + 1).drop_last() =~= self.defs@.take(i as int));
                assert(self.defs@.take(i as int + 1).last() == self.defs@[i as int]);
            }
            match self.defs[i].build(program, params) {
                Ok(()) => {},
                Err(e) => {
                    proof {
                        assert(var_defs_check(self.defs@.take(i as int + 1), kinds(scope)) == Err::<
                            Names,
                            CompileError,
                        >(e));
                        lemma_var_defs_fail(self.defs@, kinds(scope), i as int + 1);
                    }
                    return Err(e);
                },
            }
            proof {
                lemma_var_defs_step(self.defs@, i as int, m0, m1, ir_model(program), f, bb, scope, mid);
            }
            i = i + 1;
        }
        assert(self.defs@.take(i as int) =~= self.defs@);
        Ok(())
    }
}

impl Decl {
    /// The names after the declaration, or why it cannot be lowered.
    pub open spec fn check(&self, names: Names) -> Result<Names, CompileError> {
        match self {
            Decl::Const(d) => const_defs_check(d.defs@, names),
            Decl::Var(d) => var_defs_check(d.defs@, names),
        }
    }

    /// The number of instructions the declaration is lowered to.
    pub open spec fn size(&self, names: Names) -> nat {
        match self {
            Decl::Const(_) => 0,
            Decl::Var(d) => var_defs_size(d.defs@, names),
        }
    }

    /// The scope after the declaration.
    pub open spec fn after(&self, scope: Scope, insts: Seq<Value>) -> Scope {
        match self {
            Decl::Const(d) => const_defs_after(d.defs@, scope),
            Decl::Var(d) => var_defs_after(d.defs@, scope, insts),
        }
    }

    /// The instructions `insts` are what the declaration is lowered to:
    /// none for constants, those of its definitions for variables.
    pub open spec fn lowered(&self, g: Graph, scope: Scope, insts: Seq<Value>) -> bool {
        match self {
            Decl::Const(_) => insts.len() == 0,
            Decl::Var(d) => var_defs_lowered(d.defs@, g, scope, insts),
        }
    }

    pub proof fn lemma_lowered_within(&self, g: Graph, h: Graph, scope: Scope, insts: Seq<Value>)
        requires
            self.lowered(g, scope, insts),
            within(g, h),
        ensures
            self.lowered(h, scope, insts),
    {
        match self {
            Decl::Const(_) => {},
            Decl::Var(d) => lemma_var_defs_within(d.defs@, g, h, scope, insts),
        }
    }

    /// Lowers the declaration.
    pub fn build(&self, program: &mut Program, params: &mut BuildParams) -> (r: Result<
        (),
        CompileError,
    >)
        requires
            old(params).ready(ir_model(old(program))),
        ensures
            final(params).func == old(params).func,
            final(params).bb == old(params).bb,
            match self.check(kinds(old(params).vm@)) {
                Ok(names) => r is Ok && kinds(final(params).vm@) == names && var_built(
                    ir_model(old(program)),
                    ir_model(final(program)),
                    old(params),
                    final(params),
                ) && added(
                    ir_model(old(program)),
                    ir_model(final(program)),
                    old(params).func,
                    old(params).bb,
                ).len() == self.size(kinds(old(params).vm@)) && self.lowered(
                    graph(ir_model(final(program)), old(params).func),
                    old(params).vm@,
                    added(
                        ir_model(old(program)),
                        ir_model(final(program)),
                        old(params).func,
                        old(params).bb,
                    ),
                ) && final(params).vm@ == self.after(
                    old(params).vm@,
                    added(
                        ir_model(old(program)),
                        ir_model(final(program)),
                        old(params).func,
                        old(params).bb,
                    ),
                ),
                Err(e) => r == Err::<(), CompileError>(e),
            },
    {
        match self {
            Decl::Const(d) => {
                let ghost m = ir_model(program);
                let ghost scope = params.vm@;
                let r = d.build(params);
                proof {
                    if r is Ok {
                        lemma_const_defs_ready(d.defs@, m, params.func, params.bb, scope);
                        assert(code(m, params.func, params.bb).take(
                            code(m, params.func, params.bb).len() as int,
                        ) =~= code(m, params.func, params.bb));
                    }
                }
                r
            },
            Decl::Var(d) => d.build(program, params),
        }
    }
}

/// A program that can be built into still can after constants are
/// declared.
proof fn lemma_const_defs_ready(
    defs: Seq<ConstDef>,
    m: IrModel,
    f: Function,
    bb: koopa::ir::BasicBlock,
    scope: Scope,
)
    requires
        ready(m, f, bb, scope),
    ensures
        ready(m, f, bb, const_defs_after(defs, scope)),
    decreases defs.len(),
{
    if defs.len() > 0 {
        lemma_const_defs_ready(defs.drop_last(), m, f, bb, scope);
        let mid = const_defs_after(defs.drop_last(), scope);
        lemma_ready_constant(
            m,
            f,
            bb,
            mid,
            defs.last().ident@,
            defs.last().value.value(kinds(mid))->Ok_0,
        );
    }
}

impl BlockItem {
    /// The names after the item, or why it cannot be lowered.
    #[verifier::opaque]
    pub open spec fn check(&self, names: Names) -> Result<Names, CompileError> {
        match self {
            BlockItem::Decl(d) => d.check(names),
            BlockItem::Stmt(s) => match s.check(names) {
                Ok(()) => Ok(names),
                Err(e) => Err(e),
            },
        }
    }

    /// The number of instructions the item is lowered to.
    #[verifier::opaque]
    pub open spec fn size(&self, names: Names) -> nat {
        match self {
            BlockItem::Decl(d) => d.size(names),
            BlockItem::Stmt(s) => s.size(names),
        }
    }

    /// The scope after the item.  A statement leaves it as it is.
    #[verifier::opaque]
    pub open spec fn after(&self, scope: Scope, insts: Seq<Value>) -> Scope {
        match self {
            BlockItem::Decl(d) => d.after(scope, insts),
            BlockItem::Stmt(_) => scope,
        }
    }

    /// The instructions `insts` are what the item is lowered to.
    #[verifier::opaque]
    pub open spec fn lowered(&self, g: Graph, scope: Scope, insts: Seq<Value>) -> bool {
        match self {
            BlockItem::Decl(d) => d.lowered(g, scope, insts),
            BlockItem::Stmt(s) => s.lowered(g, scope, insts),
        }
    }

    pub proof fn lemma_lowered_within(&self, g: Graph, h: Graph, scope: Scope, insts: Seq<Value>)
        requires
            self.lowered(g, scope, insts),
            within(g, h),
        ensures
            self.lowered(h, scope, insts),
    {
        reveal(BlockItem::lowered);
        match self {
            BlockItem::Decl(d) => d.lemma_lowered_within(g, h, scope, insts),
            BlockItem::Stmt(s) => s.lemma_lowered_within(g, h, scope, insts),
        }
    }

    /// Lowers the item.
    pub fn build(&self, program: &mut Program, params: &mut BuildParams) -> (r: Result<
        (),
        CompileError,
    >)
        requires
            old(params).ready(ir_model(old(program))),
        ensures
            final(params).func == old(params).func,
            final(params).bb == old(params).bb,
            match self.check(kinds(old(params).vm@)) {
                Ok(names) => r is Ok && kinds(final(params).vm@) == names && var_built(
                    ir_model(old(program)),
                    ir_model(final(program)),
                    old(params),
                    final(params),
                ) && added(
                    ir_model(old(program)),
                    ir_model(final(program)),
                    old(params).func,
                    old(params).bb,
                ).len() == self.size(kinds(old(params).vm@)) && self.lowered(
                    graph(ir_model(final(program)), old(params).func),
                    old(params).vm@,
                    added(
                        ir_model(old(program)),
                        ir_model(final(program)),
                        old(params).func,
                        old(params).bb,
                    ),
                ) && final(params).vm@ == self.after(
                    old(params).vm@,
                    added(
                        ir_model(old(program)),
                        ir_model(final(program)),
                        old(params).func,
                        old(params).bb,
                    ),
                ),
                Err(e) => r == Err::<(), CompileError>(e),
            },
    {
        proof {
            reveal(BlockItem::check);
            reveal(BlockItem::size);
            reveal(BlockItem::after);
            reveal(BlockItem::lowered);
        }
        match self {
            BlockItem::Stmt(stmt) => stmt.build(program, params),
            BlockItem::Decl(decl) => decl.build(program, params),
        }
    }
}

/// The names after a list of block items, or the first error.
pub open spec fn items_check(list: Seq<BlockItem>, names: Names) -> Result<Names, CompileError>
    decreases list.len(),
{
    if list.len() == 0 {
        Ok(names)
    } else {
        match items_check(list.drop_last(), names) {
            Err(e) => Err(e),
            Ok(mid) => list.last().check(mid),
        }
    }
}

/// The number of instructions a list of block items is lowered to.
pub open spec fn items_size(list: Seq<BlockItem>, names: Names) -> nat
    decreases list.len(),
{
    if list.len() == 0 {
        0
    } else {
        items_size(list.drop_last(), names) + list.last().size(
            items_check(list.drop_last(), names)->Ok_0,
        )
    }
}

/// The scope after a list of block items that was lowered to `insts`.
pub open spec fn items_after(list: Seq<BlockItem>, scope: Scope, insts: Seq<Value>) -> Scope
    decreases list.len(),
{
    if list.len() == 0 {
        scope
    } else {
        let split = items_size(list.drop_last(), kinds(scope)) as int;
        list.last().after(
            items_after(list.drop_last(), scope, insts.take(split)),
            insts.skip(split),
        )
    }
}

/// The instructions `insts` are what a list of block items is lowered to, one
/// after the other, each under the scope the ones before it leave.
pub open spec fn items_lowered(list: Seq<BlockItem>, g: Graph, scope: Scope, insts: Seq<Value>) -> bool
    decreases list.len(),
{
    if list.len() == 0 {
        insts.len() == 0
    } else {
        let split = items_size(list.drop_last(), kinds(scope)) as int;
        &&& split <= insts.len()
        &&& items_lowered(list.drop_last(), g, scope, insts.take(split))
        &&& list.last().lowered(
            g,
            items_after(list.drop_last(), scope, insts.take(split)),
            insts.skip(split),
        )
    }
}

pub proof fn lemma_items_within(list: Seq<BlockItem>, g: Graph, h: Graph, scope: Scope, insts: Seq<Value>)
    requires
        items_lowered(list, g, scope, insts),
        within(g, h),
    ensures
        items_lowered(list, h, scope, insts),
    decreases list.len(),
{
    if list.len() > 0 {
        let split = items_size(list.drop_last(), kinds(scope)) as int;
        lemma_items_within(list.drop_last(), g, h, scope, insts.take(split));
        list.last().lemma_lowered_within(
            g,
            h,
            items_after(list.drop_last(), scope, insts.take(split)),
            insts.skip(split),
        );
    }
}

proof fn lemma_items_fail(list: Seq<BlockItem>, names: Names, n: int)
    requires
        0 <= n <= list.len(),
        items_check(list.take(n), names) is Err,
    ensures
        items_check(list, names) == items_check(list.take(n), names),
    decreases list.len() - n,
{
    if n < list.len() {
        assert(list.take(n + 1).drop_last() =~= list.take(n));
        lemma_items_fail(list, names, n + 1);
    } else {
        assert(list.take(n) =~= list);
    }
}

/// One more element at the end of a list that was lowered.
proof fn lemma_items_step(
    list: Seq<BlockItem>,
    n: int,
    m0: IrModel,
    m1: IrModel,
    m2: IrModel,
    f: Function,
    bb: koopa::ir::BasicBlock,
    scope: Scope,
    mid: Scope,
)
    requires
        0 <= n < list.len(),
        extends(m0, m1, f, bb),
        extends(m1, m2, f, bb),
        items_check(list.take(n), kinds(scope)) == Ok::<Names, CompileError>(kinds(mid)),
        added(m0, m1, f, bb).len() == items_size(list.take(n), kinds(scope)),
        items_lowered(list.take(n), graph(m1, f), scope, added(m0, m1, f, bb)),
        mid == items_after(list.take(n), scope, added(m0, m1, f, bb)),
        list[n].check(kinds(mid)) is Ok,
        added(m1, m2, f, bb).len() == list[n].size(kinds(mid)),
        list[n].lowered(graph(m2, f), mid, added(m1, m2, f, bb)),
    ensures
        extends(m0, m2, f, bb),
        items_check(list.take(n + 1), kinds(scope)) == list[n].check(kinds(mid)),
        added(m0, m2, f, bb).len() == items_size(list.take(n + 1), kinds(scope)),
        items_lowered(list.take(n + 1), graph(m2, f), scope, added(m0, m2, f, bb)),
        items_after(list.take(n + 1), scope, added(m0, m2, f, bb)) == list[n].after(
            mid,
            added(m1, m2, f, bb),
        ),
{
    lemma_extends_twice(m0, m1, m2, f, bb);
    let all = added(m0, m2, f, bb);
    let first = added(m0, m1, f, bb);
    assert(list.take(n + 1).drop_last() =~= list.take(n));
    assert(list.take(n + 1).last() == list[n]);
    assert(all.take(first.len() as int) =~= first);
    assert(all.skip(first.len() as int) =~= added(m1, m2, f, bb));
    lemma_items_within(list.take(n), graph(m1, f), graph(m2, f), scope, first);
}

impl Block {
    /// Lowers the items in order.
    #[verifier::rlimit(40)]
    pub fn build(&self, program: &mut Program, params: &mut BuildParams) -> (r: Result<
        (),
        CompileError,
    >)
        requires
            old(params).ready(ir_model(old(program))),
        ensures
            final(params).func == old(params).func,
            final(params).bb == old(params).bb,
            match items_check(self.items@, kinds(old(params).vm@)) {
                Ok(names) => r is Ok && kinds(final(params).vm@) == names && var_built(
                    ir_model(old(program)),
                    ir_model(final(program)),
                    old(params),
                    final(params),
                ) && added(
                    ir_model(old(program)),
                    ir_model(final(program)),
                    old(params).func,
                    old(params).bb,
                ).len() == items_size(self.items@, kinds(old(params).vm@)) && items_lowered(
                    self.items@,
                    graph(ir_model(final(program)), old(params).func),
                    old(params).vm@,
                    added(
                        ir_model(old(program)),
                        ir_model(final(program)),
                        old(params).func,
                        old(params).bb,
                    ),
                ) && final(params).vm@ == items_after(
                    self.items@,
                    old(params).vm@,
                    added(
                        ir_model(old(program)),
                        ir_model(final(program)),
                        old(params).func,
                        old(params).bb,
                    ),
                ),
                Err(e) => r == Err::<(), CompileError>(e),
            },
    {
        let f = params.func;
        let bb = params.bb;
        let ghost m0 = ir_model(program);
        let ghost scope = params.vm@;
        let mut i: usize = 0;
        proof {
            assert(added(m0, m0, f, bb).len() == 0);
            assert(code(m0, f, bb).take(code(m0, f, bb).len() as int) =~= code(m0, f, bb));
        }
        while i < self.items.len()
            invariant
                i <= self.items@.len(),
                params.func == f,
                params.bb == bb,
                f == old(params).func,
                bb == old(params).bb,
                scope == old(params).vm@,
                m0 == ir_model(old(program)),
                params.ready(ir_model(program)),
                extends(m0, ir_model(program), f, bb),
                items_check(self.items@.take(i as int), kinds(scope)) == Ok::<Names, CompileError>(
                    kinds(params.vm@),
                ),
                added(m0, ir_model(program), f, bb).len() == items_size(
                    self.items@.take(i as int),
                    kinds(scope),
                ),
                items_lowered(
                    self.items@.take(i as int),
                    graph(ir_model(program), f),
                    scope,
                    added(m0, ir_model(program), f, bb),
                ),
                params.vm@ == items_after(
                    self.items@.take(i as int),
                    scope,
                    added(m0, ir_model(program), f, bb),
                ),
            decreases self.items@.len() - i,
        {
            let ghost m1 = ir_model(program);
            let ghost mid = params.vm@;
            proof {
                assert(self.items@.take(i as int + 1).drop_last() =~= self.items@.take(i as int));
                assert(self.items@.take(i as int + 1).last() == self.items@[i as int]);
            }
            match self.items[i].build(program, params) {
                Ok(()) => {},
                Err(e) => {
                    proof {
                        assert(items_check(self.items@.take(i as int + 1), kinds(scope)) == Err::<
                            Names,
                            CompileError,
                        >(e));
                        lemma_items_fail(self.items@, kinds(scope), i as int + 1);
                    }
                    return Err(e);
                },
            }
            proof {
                lemma_items_step(self.items@, i as int, m0, m1, ir_model(program), f, bb, scope, mid);
            }
            i = i + 1;
        }
        assert(self.items@.take(i as int) =~= self.items@);
        Ok(())
    }
}

impl FuncDef {
    /// Whether the function can be lowered, and if not, why: the first
    /// error met in its items, in source order.  A function needs a name.
    pub open spec fn check(&self) -> Result<(), CompileError> {
        if self.ident@.len() == 0 {
            Err(CompileError::InvalidProgram)
        } else {
            match items_check(self.block.items@, Map::empty()) {
                Ok(_) => Ok(()),
                Err(e) => Err(e),
            }
        }
    }

    /// `f` is what the function is lowered to: a function without
    /// parameters that returns an integer, named after the source function
    /// with the sigil `@` in front, with one block that holds the lowered
    /// items of the body.
    pub open spec fn lowered(&self, f: FuncModel) -> bool {
        &&& f.name == "@"@ + self.ident@
        &&& f.returns_int
        &&& f.linked
        &&& f.layout.len() == 1
        &&& f.blocks == Map::<koopa::ir::BasicBlock, Option<Seq<char>>>::empty().insert(
            f.layout[0],
            Some(entry_label()),
        )
        &&& items_lowered(self.block.items@, f.values, Map::empty(), f.insts[f.layout[0]])
    }

    /// Lowers the function and adds it to the program, after the functions
    /// the program has.
    pub fn build(&self, program: &mut Program) -> (r: Result<(), CompileError>)
        ensures
            r == self.check(),
            r is Ok ==> ir_model(final(program)).layout.len() == ir_model(old(program)).layout.len()
                + 1 && ir_model(final(program)).layout.drop_last() == ir_model(
                old(program),
            ).layout && !ir_model(old(program)).funcs.contains_key(
                ir_model(final(program)).layout.last(),
            ) && ir_model(final(program)).funcs.remove(ir_model(final(program)).layout.last())
                == ir_model(old(program)).funcs && ir_model(final(program)).funcs.contains_key(
                ir_model(final(program)).layout.last(),
            ) && self.lowered(
                ir_model(final(program)).funcs[ir_model(final(program)).layout.last()],
            ),
    {
        let ident = self.ident.as_str();
        if ident.unicode_len() == 0 {
            return Err(CompileError::InvalidProgram);
        }
        let mut name = String::from_str("@");
        name.append(ident);
        proof {
            reveal_strlit("@");
        }
        let mut params = BuildParams::new(program, name, &self.func_type);
        let func = params.func;
        let bb = params.bb;
        let ghost m0 = ir_model(program);
        proof {
            assert(code(m0, func, bb) =~= Seq::<Value>::empty());
            assert(kinds(params.vm@) =~= Map::<Seq<char>, Option<i32>>::empty());
        }
        match self.block.build(program, &mut params) {
            Ok(()) => {},
            Err(e) => {
                return Err(e);
            },
        }
        proof {
            let m1 = ir_model(program);
            let before = ir_model(old(program));
            assert(added(m0, m1, func, bb) =~= code(m1, func, bb));
            assert(m1.layout.drop_last() =~= before.layout);
            assert(m1.funcs.dom() =~= m0.funcs.dom());
            assert(m1.funcs.remove(func) =~= before.funcs) by {
                assert forall|h: Function| before.funcs.contains_key(h) implies #[trigger] m1.funcs[h]
                    == before.funcs[h] by {
                    assert(m0.funcs.contains_key(h));
                }
            }
        }
        Ok(())
    }
}

impl CompUnit {
    /// Whether the unit can be lowered: whether its function can.
    pub open spec fn check(&self) -> Result<(), CompileError> {
        self.func_def.check()
    }

    /// `m` is what the unit is lowered to: a program of one function, the
    /// lowered function of the unit.
    pub open spec fn lowered(&self, m: IrModel) -> bool {
        &&& m.layout.len() == 1
        &&& m.funcs.dom() == Set::<Function>::empty().insert(m.layout[0])
        &&& self.func_def.lowered(m.funcs[m.layout[0]])
    }

    /// Lowers the unit to a program of the IR.
    pub fn build(&self) -> (r: Result<Program, CompileError>)
        ensures
            match self.check() {
                Ok(()) => r is Ok && self.lowered(ir_model(&r->Ok_0)),
                Err(e) => r is Err && r->Err_0 == e,
            },
    {
        let mut program = new_program();
        match self.func_def.build(&mut program) {
            Ok(()) => {
                proof {
                    let m = ir_model(&program);
                    assert(m.funcs.dom() =~= Set::<Function>::empty().insert(m.layout[0])) by {
                        assert(m.funcs.remove(m.layout.last()).dom() =~= Set::<Function>::empty());
                        assert forall|h: Function| m.funcs.contains_key(h) implies h == m.layout[0] by {
                            if h != m.layout[0] {
                                assert(m.funcs.remove(m.layout.last()).contains_key(h));
                            }
                        }
                    }
                }
                Ok(program)
            },
            Err(e) => Err(e),
        }
    }
}

} // verus!
