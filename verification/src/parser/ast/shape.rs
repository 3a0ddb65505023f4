//! The shape of the IR that an expression is lowered to.
//!
//! An expression becomes a value of the data-flow graph and a run of
//! instructions in a block.  Integer literals and constants are values only;
//! every operator is one instruction, but for the logical ones, which are two
//! ("or") and three ("and"); a variable is read by one load.  The
//! instructions of the operands come first, left before right.
use vstd::prelude::*;
use koopa::ir::{BinaryOp, Value};
use crate::parser::ast::structs::{
    AddExp, EqExp, Exp, LAndExp, LOrExp, MulExp, PrimaryExp, RelExp, UnaryExp,
};
use crate::parser::ast::vm::{kinds, Decl, Names, Scope};
use crate::parser::ast::calc::constant;
use crate::parser::ir::program::{Inst, ValueEntry};

verus! {

/// A data-flow graph: its values by handle.
pub type Graph = Map<Value, ValueEntry>;

/// The graph has `v`, and `v` is `inst`.
pub open spec fn holds(g: Graph, v: Value, inst: Inst) -> bool {
    g.contains_key(v) && g[v].inst == inst
}

/// The operands of `v`, if the graph has `v` and `v` is the operation `op`.
pub open spec fn binary_at(g: Graph, v: Value, op: BinaryOp) -> Option<(Value, Value)> {
    if g.contains_key(v) {
        match g[v].inst {
            Inst::Binary(o, lhs, rhs) => if o == op {
                Some((lhs, rhs))
            } else {
                None
            },
            _ => None,
        }
    } else {
        None
    }
}

/// Every value of `g` is a value of `h`, and the same one.
pub open spec fn within(g: Graph, h: Graph) -> bool {
    forall|v: Value| #[trigger] g.contains_key(v) ==> h.contains_key(v) && h[v] == g[v]
}

/// Two operands joined by `op`: the instructions of the left operand, those
/// of the right one, then the operation itself, which is the value.
pub open spec fn joined(
    g: Graph,
    insts: Seq<Value>,
    v: Value,
    op: BinaryOp,
    left: int,
    right: int,
) -> Option<(Value, Value)> {
    if insts.len() == left + right + 1 && insts.last() == v {
        binary_at(g, v, op)
    } else {
        None
    }
}

impl Exp {
    /// Every identifier the expression uses is declared.
    pub open spec fn resolves(&self, names: Names) -> bool
        decreases self,
    {
        match self {
            Exp::Exp(e) => e.resolves(names),
        }
    }

    /// The number of instructions the expression is lowered to.
    pub open spec fn size(&self, names: Names) -> nat
        decreases self,
    {
        match self {
            Exp::Exp(e) => e.size(names),
        }
    }

    /// In graph `g`, the value `v` and the instructions `insts` are what the
    /// expression is lowered to.
    pub open spec fn lowered(&self, g: Graph, scope: Scope, insts: Seq<Value>, v: Value) -> bool
        decreases self,
    {
        match self {
            Exp::Exp(e) => e.lowered(g, scope, insts, v),
        }
    }

    /// What an expression is lowered to stays so when the graph grows.
    pub proof fn lemma_lowered_within(
        &self,
        g: Graph,
        h: Graph,
        scope: Scope,
        insts: Seq<Value>,
        v: Value,
    )
        requires
            self.lowered(g, scope, insts, v),
            within(g, h),
        ensures
            self.lowered(h, scope, insts, v),
        decreases self,
    {
        match self {
            Exp::Exp(e) => e.lemma_lowered_within(g, h, scope, insts, v),
        }
    }
}

impl LOrExp {
    pub open spec fn resolves(&self, names: Names) -> bool
        decreases self,
    {
        match self {
            LOrExp::LAndExp(e) => e.resolves(names),
            LOrExp::LOrExp(l, r) => l.resolves(names) && r.resolves(names),
        }
    }

    pub open spec fn size(&self, names: Names) -> nat
        decreases self,
    {
        match self {
            LOrExp::LAndExp(e) => e.size(names),
            LOrExp::LOrExp(l, r) => l.size(names) + r.size(names) + 2,
        }
    }

    /// `l || r` is `(l | r) != 0`: after the operands, the bitwise "or" and
    /// then its comparison with a zero constant.
    pub open spec fn lowered(&self, g: Graph, scope: Scope, insts: Seq<Value>, v: Value) -> bool
        decreases self,
    {
        match self {
            LOrExp::LAndExp(e) => e.lowered(g, scope, insts, v),
            LOrExp::LOrExp(l, r) => {
                let nl = l.size(kinds(scope)) as int;
                let nr = r.size(kinds(scope)) as int;
                let test = binary_at(g, v, BinaryOp::NotEq);
                let or_ops = binary_at(g, test->Some_0.0, BinaryOp::Or);
                &&& insts.len() == nl + nr + 2
                &&& insts.last() == v
                &&& test is Some
                &&& test->Some_0.0 == insts[nl + nr]
                &&& holds(g, test->Some_0.1, Inst::Integer(0))
                &&& or_ops is Some
                &&& l.lowered(g, scope, insts.subrange(0, nl), or_ops->Some_0.0)
                &&& r.lowered(g, scope, insts.subrange(nl, nl + nr), or_ops->Some_0.1)
            },
        }
    }

    pub proof fn lemma_lowered_within(
        &self,
        g: Graph,
        h: Graph,
        scope: Scope,
        insts: Seq<Value>,
        v: Value,
    )
        requires
            self.lowered(g, scope, insts, v),
            within(g, h),
        ensures
            self.lowered(h, scope, insts, v),
        decreases self,
    {
        match self {
            LOrExp::LAndExp(e) => e.lemma_lowered_within(g, h, scope, insts, v),
            LOrExp::LOrExp(l, r) => {
                let nl = l.size(kinds(scope)) as int;
                let nr = r.size(kinds(scope)) as int;
                let (or, zero) = binary_at(g, v, BinaryOp::NotEq)->Some_0;
                let (lv, rv) = binary_at(g, or, BinaryOp::Or)->Some_0;
                assert(g.contains_key(v) && g.contains_key(or) && g.contains_key(zero));
                l.lemma_lowered_within(g, h, scope, insts.subrange(0, nl), lv);
                r.lemma_lowered_within(g, h, scope, insts.subrange(nl, nl + nr), rv);
            },
        }
    }
}

impl LAndExp {
    pub open spec fn resolves(&self, names: Names) -> bool
        decreases self,
    {
        match self {
            LAndExp::EqExp(e) => e.resolves(names),
            LAndExp::LAndExp(l, r) => l.resolves(names) && r.resolves(names),
        }
    }

    pub open spec fn size(&self, names: Names) -> nat
        decreases self,
    {
        match self {
            LAndExp::EqExp(e) => e.size(names),
            LAndExp::LAndExp(l, r) => l.size(names) + r.size(names) + 3,
        }
    }

    /// `l && r` is `(l != 0) & (r != 0)`: after the operands, the two
    /// comparisons with one zero constant and then their bitwise "and".
    pub open spec fn lowered(&self, g: Graph, scope: Scope, insts: Seq<Value>, v: Value) -> bool
        decreases self,
    {
        match self {
            LAndExp::EqExp(e) => e.lowered(g, scope, insts, v),
            LAndExp::LAndExp(l, r) => {
                let nl = l.size(kinds(scope)) as int;
                let nr = r.size(kinds(scope)) as int;
                let and_ops = binary_at(g, v, BinaryOp::And);
                let left = binary_at(g, and_ops->Some_0.0, BinaryOp::NotEq);
                let right = binary_at(g, and_ops->Some_0.1, BinaryOp::NotEq);
                &&& insts.len() == nl + nr + 3
                &&& insts.last() == v
                &&& and_ops is Some
                &&& and_ops->Some_0.0 == insts[nl + nr]
                &&& and_ops->Some_0.1 == insts[nl + nr + 1]
                &&& left is Some
                &&& right is Some
                &&& left->Some_0.1 == right->Some_0.1
                &&& holds(g, left->Some_0.1, Inst::Integer(0))
                &&& l.lowered(g, scope, insts.subrange(0, nl), left->Some_0.0)
                &&& r.lowered(g, scope, insts.subrange(nl, nl + nr), right->Some_0.0)
            },
        }
    }

    pub proof fn lemma_lowered_within(
        &self,
        g: Graph,
        h: Graph,
        scope: Scope,
        insts: Seq<Value>,
        v: Value,
    )
        requires
            self.lowered(g, scope, insts, v),
            within(g, h),
        ensures
            self.lowered(h, scope, insts, v),
        decreases self,
    {
        match self {
            LAndExp::EqExp(e) => e.lemma_lowered_within(g, h, scope, insts, v),
            LAndExp::LAndExp(l, r) => {
                let nl = l.size(kinds(scope)) as int;
                let nr = r.size(kinds(scope)) as int;
                let (a, b) = binary_at(g, v, BinaryOp::And)->Some_0;
                let (lv, zero) = binary_at(g, a, BinaryOp::NotEq)->Some_0;
                let (rv, again) = binary_at(g, b, BinaryOp::NotEq)->Some_0;
                assert(g.contains_key(v) && g.contains_key(a) && g.contains_key(b)
                    && g.contains_key(zero));
                l.lemma_lowered_within(g, h, scope, insts.subrange(0, nl), lv);
                r.lemma_lowered_within(g, h, scope, insts.subrange(nl, nl + nr), rv);
            },
        }
    }
}

impl EqExp {
    pub open spec fn resolves(&self, names: Names) -> bool
        decreases self,
    {
        match self {
            EqExp::RelExp(e) => e.resolves(names),
            EqExp::EqExp(l, _, r) => l.resolves(names) && r.resolves(names),
        }
    }

    pub open spec fn size(&self, names: Names) -> nat
        decreases self,
    {
        match self {
            EqExp::RelExp(e) => e.size(names),
            EqExp::EqExp(l, _, r) => l.size(names) + r.size(names) + 1,
        }
    }

    pub open spec fn lowered(&self, g: Graph, scope: Scope, insts: Seq<Value>, v: Value) -> bool
        decreases self,
    {
        match self {
            EqExp::RelExp(e) => e.lowered(g, scope, insts, v),
            EqExp::EqExp(l, op, r) => {
                let nl = l.size(kinds(scope)) as int;
                let nr = r.size(kinds(scope)) as int;
                joined(g, insts, v, op.binary(), nl, nr) matches Some((lv, rv)) && l.lowered(
                    g,
                    scope,
                    insts.subrange(0, nl),
                    lv,
                ) && r.lowered(g, scope, insts.subrange(nl, nl + nr), rv)
            },
        }
    }

    pub proof fn lemma_lowered_within(
        &self,
        g: Graph,
        h: Graph,
        scope: Scope,
        insts: Seq<Value>,
        v: Value,
    )
        requires
            self.lowered(g, scope, insts, v),
            within(g, h),
        ensures
            self.lowered(h, scope, insts, v),
        decreases self,
    {
        match self {
            EqExp::RelExp(e) => e.lemma_lowered_within(g, h, scope, insts, v),
            EqExp::EqExp(l, op, r) => {
                let nl = l.size(kinds(scope)) as int;
                let nr = r.size(kinds(scope)) as int;
                let (lv, rv) = joined(g, insts, v, op.binary(), nl, nr)->Some_0;
                assert(g.contains_key(v));
                l.lemma_lowered_within(g, h, scope, insts.subrange(0, nl), lv);
                r.lemma_lowered_within(g, h, scope, insts.subrange(nl, nl + nr), rv);
            },
        }
    }
}

impl RelExp {
    pub open spec fn resolves(&self, names: Names) -> bool
        decreases self,
    {
        match self {
            RelExp::AddExp(e) => e.resolves(names),
            RelExp::RelExp(l, _, r) => l.resolves(names) && r.resolves(names),
        }
    }

    pub open spec fn size(&self, names: Names) -> nat
        decreases self,
    {
        match self {
            RelExp::AddExp(e) => e.size(names),
            RelExp::RelExp(l, _, r) => l.size(names) + r.size(names) + 1,
        }
    }

    pub open spec fn lowered(&self, g: Graph, scope: Scope, insts: Seq<Value>, v: Value) -> bool
        decreases self,
    {
        match self {
            RelExp::AddExp(e) => e.lowered(g, scope, insts, v),
            RelExp::RelExp(l, op, r) => {
                let nl = l.size(kinds(scope)) as int;
                let nr = r.size(kinds(scope)) as int;
                joined(g, insts, v, op.binary(), nl, nr) matches Some((lv, rv)) && l.lowered(
                    g,
                    scope,
                    insts.subrange(0, nl),
                    lv,
                ) && r.lowered(g, scope, insts.subrange(nl, nl + nr), rv)
            },
        }
    }

    pub proof fn lemma_lowered_within(
        &self,
        g: Graph,
        h: Graph,
        scope: Scope,
        insts: Seq<Value>,
        v: Value,
    )
        requires
            self.lowered(g, scope, insts, v),
            within(g, h),
        ensures
            self.lowered(h, scope, insts, v),
        decreases self,
    {
        match self {
            RelExp::AddExp(e) => e.lemma_lowered_within(g, h, scope, insts, v),
            RelExp::RelExp(l, op, r) => {
                let nl = l.size(kinds(scope)) as int;
                let nr = r.size(kinds(scope)) as int;
                let (lv, rv) = joined(g, insts, v, op.binary(), nl, nr)->Some_0;
                assert(g.contains_key(v));
                l.lemma_lowered_within(g, h, scope, insts.subrange(0, nl), lv);
                r.lemma_lowered_within(g, h, scope, insts.subrange(nl, nl + nr), rv);
            },
        }
    }
}

impl AddExp {
    pub open spec fn resolves(&self, names: Names) -> bool
        decreases self,
    {
        match self {
            AddExp::MulExp(e) => e.resolves(names),
            AddExp::AddExp(l, _, r) => l.resolves(names) && r.resolves(names),
        }
    }

    pub open spec fn size(&self, names: Names) -> nat
        decreases self,
    {
        match self {
            AddExp::MulExp(e) => e.size(names),
            AddExp::AddExp(l, _, r) => l.size(names) + r.size(names) + 1,
        }
    }

    pub open spec fn lowered(&self, g: Graph, scope: Scope, insts: Seq<Value>, v: Value) -> bool
        decreases self,
    {
        match self {
            AddExp::MulExp(e) => e.lowered(g, scope, insts, v),
            AddExp::AddExp(l, op, r) => {
                let nl = l.size(kinds(scope)) as int;
                let nr = r.size(kinds(scope)) as int;
                joined(g, insts, v, op.binary(), nl, nr) matches Some((lv, rv)) && l.lowered(
                    g,
                    scope,
                    insts.subrange(0, nl),
                    lv,
                ) && r.lowered(g, scope, insts.subrange(nl, nl + nr), rv)
            },
        }
    }

    pub proof fn lemma_lowered_within(
        &self,
        g: Graph,
        h: Graph,
        scope: Scope,
        insts: Seq<Value>,
        v: Value,
    )
        requires
            self.lowered(g, scope, insts, v),
            within(g, h),
        ensures
            self.lowered(h, scope, insts, v),
        decreases self,
    {
        match self {
            AddExp::MulExp(e) => e.lemma_lowered_within(g, h, scope, insts, v),
            AddExp::AddExp(l, op, r) => {
                let nl = l.size(kinds(scope)) as int;
                let nr = r.size(kinds(scope)) as int;
                let (lv, rv) = joined(g, insts, v, op.binary(), nl, nr)->Some_0;
                assert(g.contains_key(v));
                l.lemma_lowered_within(g, h, scope, insts.subrange(0, nl), lv);
                r.lemma_lowered_within(g, h, scope, insts.subrange(nl, nl + nr), rv);
            },
        }
    }
}

impl MulExp {
    pub open spec fn resolves(&self, names: Names) -> bool
        decreases self,
    {
        match self {
            MulExp::UnaryExp(e) => e.resolves(names),
            MulExp::MulExp(l, _, r) => l.resolves(names) && r.resolves(names),
        }
    }

    pub open spec fn size(&self, names: Names) -> nat
        decreases self,
    {
        match self {
            MulExp::UnaryExp(e) => e.size(names),
            MulExp::MulExp(l, _, r) => l.size(names) + r.size(names) + 1,
        }
    }

    pub open spec fn lowered(&self, g: Graph, scope: Scope, insts: Seq<Value>, v: Value) -> bool
        decreases self,
    {
        match self {
            MulExp::UnaryExp(e) => e.lowered(g, scope, insts, v),
            MulExp::MulExp(l, op, r) => {
                let nl = l.size(kinds(scope)) as int;
                let nr = r.size(kinds(scope)) as int;
                joined(g, insts, v, op.binary(), nl, nr) matches Some((lv, rv)) && l.lowered(
                    g,
                    scope,
                    insts.subrange(0, nl),
                    lv,
                ) && r.lowered(g, scope, insts.subrange(nl, nl + nr), rv)
            },
        }
    }

    pub proof fn lemma_lowered_within(
        &self,
        g: Graph,
        h: Graph,
        scope: Scope,
        insts: Seq<Value>,
        v: Value,
    )
        requires
            self.lowered(g, scope, insts, v),
            within(g, h),
        ensures
            self.lowered(h, scope, insts, v),
        decreases self,
    {
        match self {
            MulExp::UnaryExp(e) => e.lemma_lowered_within(g, h, scope, insts, v),
            MulExp::MulExp(l, op, r) => {
                let nl = l.size(kinds(scope)) as int;
                let nr = r.size(kinds(scope)) as int;
                let (lv, rv) = joined(g, insts, v, op.binary(), nl, nr)->Some_0;
                assert(g.contains_key(v));
                l.lemma_lowered_within(g, h, scope, insts.subrange(0, nl), lv);
                r.lemma_lowered_within(g, h, scope, insts.subrange(nl, nl + nr), rv);
            },
        }
    }
}

impl UnaryExp {
    pub open spec fn resolves(&self, names: Names) -> bool
        decreases self,
    {
        match self {
            UnaryExp::PrimaryExp(e) => e.resolves(names),
            UnaryExp::UnaryOp(_, e) => e.resolves(names),
        }
    }

    pub open spec fn size(&self, names: Names) -> nat
        decreases self,
    {
        match self {
            UnaryExp::PrimaryExp(e) => e.size(names),
            UnaryExp::UnaryOp(_, e) => e.size(names) + 1,
        }
    }

    /// A unary operator is a binary operation with a zero constant on the
    /// left: `0 + e`, `0 - e`, `0 == e`.
    pub open spec fn lowered(&self, g: Graph, scope: Scope, insts: Seq<Value>, v: Value) -> bool
        decreases self,
    {
        match self {
            UnaryExp::PrimaryExp(e) => e.lowered(g, scope, insts, v),
            UnaryExp::UnaryOp(op, e) => joined(g, insts, v, op.binary(), 0, e.size(kinds(scope)) as int)
                matches Some((zero, x)) && holds(g, zero, Inst::Integer(0)) && e.lowered(
                g,
                scope,
                insts.drop_last(),
                x,
            ),
        }
    }

    pub proof fn lemma_lowered_within(
        &self,
        g: Graph,
        h: Graph,
        scope: Scope,
        insts: Seq<Value>,
        v: Value,
    )
        requires
            self.lowered(g, scope, insts, v),
            within(g, h),
        ensures
            self.lowered(h, scope, insts, v),
        decreases self,
    {
        match self {
            UnaryExp::PrimaryExp(e) => e.lemma_lowered_within(g, h, scope, insts, v),
            UnaryExp::UnaryOp(op, e) => {
                let (zero, x) = joined(g, insts, v, op.binary(), 0, e.size(kinds(scope)) as int)->Some_0;
                assert(g.contains_key(v) && g.contains_key(zero));
                e.lemma_lowered_within(g, h, scope, insts.drop_last(), x);
            },
        }
    }
}

impl PrimaryExp {
    pub open spec fn resolves(&self, names: Names) -> bool
        decreases self,
    {
        match self {
            PrimaryExp::Exp(e) => e.resolves(names),
            PrimaryExp::LVal(name) => names.contains_key(name@),
            PrimaryExp::Number(_) => true,
        }
    }

    pub open spec fn size(&self, names: Names) -> nat
        decreases self,
    {
        match self {
            PrimaryExp::Exp(e) => e.size(names),
            PrimaryExp::LVal(name) => if names.contains_key(name@) && names[name@] is None {
                1
            } else {
                0
            },
            PrimaryExp::Number(_) => 0,
        }
    }

    /// A literal is an integer constant, and so is a declared constant, with
    /// its declared value; a variable is a load from its slot.
    pub open spec fn lowered(&self, g: Graph, scope: Scope, insts: Seq<Value>, v: Value) -> bool
        decreases self,
    {
        match self {
            PrimaryExp::Exp(e) => e.lowered(g, scope, insts, v),
            PrimaryExp::LVal(name) => scope.contains_key(name@) && match scope[name@] {
                Decl::Const(c) => insts.len() == 0 && holds(g, v, Inst::Integer(c)),
                Decl::Var(slot) => insts == seq![v] && holds(g, v, Inst::Load(slot)),
            },
            PrimaryExp::Number(n) => insts.len() == 0 && holds(g, v, Inst::Integer(*n)),
        }
    }

    pub proof fn lemma_lowered_within(
        &self,
        g: Graph,
        h: Graph,
        scope: Scope,
        insts: Seq<Value>,
        v: Value,
    )
        requires
            self.lowered(g, scope, insts, v),
            within(g, h),
        ensures
            self.lowered(h, scope, insts, v),
        decreases self,
    {
        match self {
            PrimaryExp::Exp(e) => e.lemma_lowered_within(g, h, scope, insts, v),
            _ => {},
        }
    }
}

impl Exp {
    /// The identifier that the expression is, parentheses aside, if it is
    /// nothing but an identifier.
    pub open spec fn reference(&self) -> Option<Seq<char>>
        decreases self,
    {
        match self {
            Exp::Exp(e) => e.reference(),
        }
    }

    /// A reference to an identifier, however many parentheses are around it,
    /// stands for what the identifier is declared as.  It resolves exactly
    /// when the identifier is declared; its value is that of the constant
    /// the identifier names; and if the identifier names a constant, it is
    /// lowered to an integer of the declared value, without instructions.
    pub proof fn lemma_reference(&self, g: Graph, scope: Scope, insts: Seq<Value>, v: Value)
        requires
            self.reference() is Some,
        ensures
            self.resolves(kinds(scope)) == scope.contains_key(self.reference()->Some_0),
            self.value(kinds(scope)) == constant(kinds(scope), self.reference()->Some_0),
            scope.contains_key(self.reference()->Some_0) ==> (scope[self.reference()->Some_0] matches Decl::Const(
                c,
            ) ==> (self.lowered(g, scope, insts, v) <==> insts.len() == 0 && holds(
                g,
                v,
                Inst::Integer(c),
            ))),
        decreases self,
    {
        match self {
            Exp::Exp(e) => e.lemma_reference(g, scope, insts, v),
        }
    }
}

impl LOrExp {
    /// The identifier that the expression is, parentheses aside, if it is
    /// nothing but an identifier.
    pub open spec fn reference(&self) -> Option<Seq<char>>
        decreases self,
    {
        match self {
            LOrExp::LAndExp(e) => e.reference(),
            _ => None,
        }
    }

    /// A reference to an identifier, however many parentheses are around it,
    /// stands for what the identifier is declared as.  It resolves exactly
    /// when the identifier is declared; its value is that of the constant
    /// the identifier names; and if the identifier names a constant, it is
    /// lowered to an integer of the declared value, without instructions.
    pub proof fn lemma_reference(&self, g: Graph, scope: Scope, insts: Seq<Value>, v: Value)
        requires
            self.reference() is Some,
        ensures
            self.resolves(kinds(scope)) == scope.contains_key(self.reference()->Some_0),
            self.value(kinds(scope)) == constant(kinds(scope), self.reference()->Some_0),
            scope.contains_key(self.reference()->Some_0) ==> (scope[self.reference()->Some_0] matches Decl::Const(
                c,
            ) ==> (self.lowered(g, scope, insts, v) <==> insts.len() == 0 && holds(
                g,
                v,
                Inst::Integer(c),
            ))),
        decreases self,
    {
        match self {
            LOrExp::LAndExp(e) => e.lemma_reference(g, scope, insts, v),
            _ => {},
        }
    }
}

impl LAndExp {
    /// The identifier that the expression is, parentheses aside, if it is
    /// nothing but an identifier.
    pub open spec fn reference(&self) -> Option<Seq<char>>
        decreases self,
    {
        match self {
            LAndExp::EqExp(e) => e.reference(),
            _ => None,
        }
    }

    /// A reference to an identifier, however many parentheses are around it,
    /// stands for what the identifier is declared as.  It resolves exactly
    /// when the identifier is declared; its value is that of the constant
    /// the identifier names; and if the identifier names a constant, it is
    /// lowered to an integer of the declared value, without instructions.
    pub proof fn lemma_reference(&self, g: Graph, scope: Scope, insts: Seq<Value>, v: Value)
        requires
            self.reference() is Some,
        ensures
            self.resolves(kinds(scope)) == scope.contains_key(self.reference()->Some_0),
            self.value(kinds(scope)) == constant(kinds(scope), self.reference()->Some_0),
            scope.contains_key(self.reference()->Some_0) ==> (scope[self.reference()->Some_0] matches Decl::Const(
                c,
            ) ==> (self.lowered(g, scope, insts, v) <==> insts.len() == 0 && holds(
                g,
                v,
                Inst::Integer(c),
            ))),
        decreases self,
    {
        match self {
            LAndExp::EqExp(e) => e.lemma_reference(g, scope, insts, v),
            _ => {},
        }
    }
}

impl EqExp {
    /// The identifier that the expression is, parentheses aside, if it is
    /// nothing but an identifier.
    pub open spec fn reference(&self) -> Option<Seq<char>>
        decreases self,
    {
        match self {
            EqExp::RelExp(e) => e.reference(),
            _ => None,
        }
    }

    /// A reference to an identifier, however many parentheses are around it,
    /// stands for what the identifier is declared as.  It resolves exactly
    /// when the identifier is declared; its value is that of the constant
    /// the identifier names; and if the identifier names a constant, it is
    /// lowered to an integer of the declared value, without instructions.
    pub proof fn lemma_reference(&self, g: Graph, scope: Scope, insts: Seq<Value>, v: Value)
        requires
            self.reference() is Some,
        ensures
            self.resolves(kinds(scope)) == scope.contains_key(self.reference()->Some_0),
            self.value(kinds(scope)) == constant(kinds(scope), self.reference()->Some_0),
            scope.contains_key(self.reference()->Some_0) ==> (scope[self.reference()->Some_0] matches Decl::Const(
                c,
            ) ==> (self.lowered(g, scope, insts, v) <==> insts.len() == 0 && holds(
                g,
                v,
                Inst::Integer(c),
            ))),
        decreases self,
    {
        match self {
            EqExp::RelExp(e) => e.lemma_reference(g, scope, insts, v),
            _ => {},
        }
    }
}

impl RelExp {
    /// The identifier that the expression is, parentheses aside, if it is
    /// nothing but an identifier.
    pub open spec fn reference(&self) -> Option<Seq<char>>
        decreases self,
    {
        match self {
            RelExp::AddExp(e) => e.reference(),
            _ => None,
        }
    }

    /// A reference to an identifier, however many parentheses are around it,
    /// stands for what the identifier is declared as.  It resolves exactly
    /// when the identifier is declared; its value is that of the constant
    /// the identifier names; and if the identifier names a constant, it is
    /// lowered to an integer of the declared value, without instructions.
    pub proof fn lemma_reference(&self, g: Graph, scope: Scope, insts: Seq<Value>, v: Value)
        requires
            self.reference() is Some,
        ensures
            self.resolves(kinds(scope)) == scope.contains_key(self.reference()->Some_0),
            self.value(kinds(scope)) == constant(kinds(scope), self.reference()->Some_0),
            scope.contains_key(self.reference()->Some_0) ==> (scope[self.reference()->Some_0] matches Decl::Const(
                c,
            ) ==> (self.lowered(g, scope, insts, v) <==> insts.len() == 0 && holds(
                g,
                v,
                Inst::Integer(c),
            ))),
        decreases self,
    {
        match self {
            RelExp::AddExp(e) => e.lemma_reference(g, scope, insts, v),
            _ => {},
        }
    }
}

impl AddExp {
    /// The identifier that the expression is, parentheses aside, if it is
    /// nothing but an identifier.
    pub open spec fn reference(&self) -> Option<Seq<char>>
        decreases self,
    {
        match self {
            AddExp::MulExp(e) => e.reference(),
            _ => None,
        }
    }

    /// A reference to an identifier, however many parentheses are around it,
    /// stands for what the identifier is declared as.  It resolves exactly
    /// when the identifier is declared; its value is that of the constant
    /// the identifier names; and if the identifier names a constant, it is
    /// lowered to an integer of the declared value, without instructions.
    pub proof fn lemma_reference(&self, g: Graph, scope: Scope, insts: Seq<Value>, v: Value)
        requires
            self.reference() is Some,
        ensures
            self.resolves(kinds(scope)) == scope.contains_key(self.reference()->Some_0),
            self.value(kinds(scope)) == constant(kinds(scope), self.reference()->Some_0),
            scope.contains_key(self.reference()->Some_0) ==> (scope[self.reference()->Some_0] matches Decl::Const(
                c,
            ) ==> (self.lowered(g, scope, insts, v) <==> insts.len() == 0 && holds(
                g,
                v,
                Inst::Integer(c),
            ))),
        decreases self,
    {
        match self {
            AddExp::MulExp(e) => e.lemma_reference(g, scope, insts, v),
            _ => {},
        }
    }
}

impl MulExp {
    /// The identifier that the expression is, parentheses aside, if it is
    /// nothing but an identifier.
    pub open spec fn reference(&self) -> Option<Seq<char>>
        decreases self,
    {
        match self {
            MulExp::UnaryExp(e) => e.reference(),
            _ => None,
        }
    }

    /// A reference to an identifier, however many parentheses are around it,
    /// stands for what the identifier is declared as.  It resolves exactly
    /// when the identifier is declared; its value is that of the constant
    /// the identifier names; and if the identifier names a constant, it is
    /// lowered to an integer of the declared value, without instructions.
    pub proof fn lemma_reference(&self, g: Graph, scope: Scope, insts: Seq<Value>, v: Value)
        requires
            self.reference() is Some,
        ensures
            self.resolves(kinds(scope)) == scope.contains_key(self.reference()->Some_0),
            self.value(kinds(scope)) == constant(kinds(scope), self.reference()->Some_0),
            scope.contains_key(self.reference()->Some_0) ==> (scope[self.reference()->Some_0] matches Decl::Const(
                c,
            ) ==> (self.lowered(g, scope, insts, v) <==> insts.len() == 0 && holds(
                g,
                v,
                Inst::Integer(c),
            ))),
        decreases self,
    {
        match self {
            MulExp::UnaryExp(e) => e.lemma_reference(g, scope, insts, v),
            _ => {},
        }
    }
}

impl UnaryExp {
    /// The identifier that the expression is, parentheses aside, if it is
    /// nothing but an identifier.
    pub open spec fn reference(&self) -> Option<Seq<char>>
        decreases self,
    {
        match self {
            UnaryExp::PrimaryExp(e) => e.reference(),
            _ => None,
        }
    }

    /// A reference to an identifier, however many parentheses are around it,
    /// stands for what the identifier is declared as.  It resolves exactly
    /// when the identifier is declared; its value is that of the constant
    /// the identifier names; and if the identifier names a constant, it is
    /// lowered to an integer of the declared value, without instructions.
    pub proof fn lemma_reference(&self, g: Graph, scope: Scope, insts: Seq<Value>, v: Value)
        requires
            self.reference() is Some,
        ensures
            self.resolves(kinds(scope)) == scope.contains_key(self.reference()->Some_0),
            self.value(kinds(scope)) == constant(kinds(scope), self.reference()->Some_0),
            scope.contains_key(self.reference()->Some_0) ==> (scope[self.reference()->Some_0] matches Decl::Const(
                c,
            ) ==> (self.lowered(g, scope, insts, v) <==> insts.len() == 0 && holds(
                g,
                v,
                Inst::Integer(c),
            ))),
        decreases self,
    {
        match self {
            UnaryExp::PrimaryExp(e) => e.lemma_reference(g, scope, insts, v),
            _ => {},
        }
    }
}

impl PrimaryExp {
    /// The identifier that the expression is, parentheses aside, if it is
    /// nothing but an identifier.
    pub open spec fn reference(&self) -> Option<Seq<char>>
        decreases self,
    {
        match self {
            PrimaryExp::Exp(e) => e.reference(),
            PrimaryExp::LVal(name) => Some(name@),
            PrimaryExp::Number(_) => None,
        }
    }

    /// A reference to an identifier, however many parentheses are around it,
    /// stands for what the identifier is declared as.  It resolves exactly
    /// when the identifier is declared; its value is that of the constant
    /// the identifier names; and if the identifier names a constant, it is
    /// lowered to an integer of the declared value, without instructions.
    pub proof fn lemma_reference(&self, g: Graph, scope: Scope, insts: Seq<Value>, v: Value)
        requires
            self.reference() is Some,
        ensures
            self.resolves(kinds(scope)) == scope.contains_key(self.reference()->Some_0),
            self.value(kinds(scope)) == constant(kinds(scope), self.reference()->Some_0),
            scope.contains_key(self.reference()->Some_0) ==> (scope[self.reference()->Some_0] matches Decl::Const(
                c,
            ) ==> (self.lowered(g, scope, insts, v) <==> insts.len() == 0 && holds(
                g,
                v,
                Inst::Integer(c),
            ))),
        decreases self,
    {
        match self {
            PrimaryExp::Exp(e) => e.lemma_reference(g, scope, insts, v),
            _ => {},
        }
    }
}

} // verus!
