//! The value of a constant expression.
//!
//! Every operator of the source has the meaning of the IR operation it is
//! lowered to: a unary operator is a binary one with zero on the left, a
//! logical "or" is the bitwise "or" compared with zero, a logical "and" is
//! the bitwise "and" of two comparisons with zero.  Operands are evaluated
//! from left to right, and the first error is the result.
use vstd::prelude::*;
use koopa::ir::BinaryOp;
use crate::parser::ast::structs::{
    AddExp, AddOp, EqExp, EqOp, Exp, LAndExp, LOrExp, MulExp, MulOp, PrimaryExp, RelExp, RelOp,
    UnaryExp, UnaryOp,
};
use crate::parser::ast::vm::{kinds, Decl, Names, ValueManager};
use crate::parser::error::CompileError;
use crate::parser::ir::ops::{fold, fold_binary};

verus! {

/// The value of the constant `name`.  A name that is not declared, or that
/// names a variable, has none.
pub open spec fn constant(names: Names, name: Seq<char>) -> Result<i32, CompileError> {
    if !names.contains_key(name) {
        Err(CompileError::UndeclaredIdentifier)
    } else {
        match names[name] {
            Some(c) => Ok(c),
            None => Err(CompileError::NotConstant),
        }
    }
}

/// `op` applied to two operands that may have failed, the left one first.
pub open spec fn apply(
    op: BinaryOp,
    lhs: Result<i32, CompileError>,
    rhs: Result<i32, CompileError>,
) -> Result<i32, CompileError> {
    match lhs {
        Err(e) => Err(e),
        Ok(a) => match rhs {
            Err(e) => Err(e),
            Ok(b) => fold_binary(op, a, b),
        },
    }
}

/// Whether zero differs from it, as 0 or 1.
pub open spec fn nonzero(x: Result<i32, CompileError>) -> Result<i32, CompileError> {
    apply(BinaryOp::NotEq, x, Ok(0))
}

impl UnaryOp {
    /// The operation that, with zero on the left, is this operator.
    pub open spec fn spec_binary(&self) -> BinaryOp {
        match self {
            UnaryOp::Plus => BinaryOp::Add,
            UnaryOp::Minus => BinaryOp::Sub,
            UnaryOp::Not => BinaryOp::Eq,
        }
    }

    /// The operation that, with zero on the left, is this operator.
    #[verifier::when_used_as_spec(spec_binary)]
    pub fn binary(&self) -> (op: BinaryOp)
        ensures
            op == self.spec_binary(),
    {
        match self {
            UnaryOp::Plus => BinaryOp::Add,
            UnaryOp::Minus => BinaryOp::Sub,
            UnaryOp::Not => BinaryOp::Eq,
        }
    }
}

impl MulOp {
    pub open spec fn spec_binary(&self) -> BinaryOp {
        match self {
            MulOp::Mul => BinaryOp::Mul,
            MulOp::Div => BinaryOp::Div,
            MulOp::Mod => BinaryOp::Mod,
        }
    }

    /// The operation of the IR for this operator.
    #[verifier::when_used_as_spec(spec_binary)]
    pub fn binary(&self) -> (op: BinaryOp)
        ensures
            op == self.spec_binary(),
    {
        match self {
            MulOp::Mul => BinaryOp::Mul,
            MulOp::Div => BinaryOp::Div,
            MulOp::Mod => BinaryOp::Mod,
        }
    }
}

impl AddOp {
    pub open spec fn spec_binary(&self) -> BinaryOp {
        match self {
            AddOp::Add => BinaryOp::Add,
            AddOp::Sub => BinaryOp::Sub,
        }
    }

    /// The operation of the IR for this operator.
    #[verifier::when_used_as_spec(spec_binary)]
    pub fn binary(&self) -> (op: BinaryOp)
        ensures
            op == self.spec_binary(),
    {
        match self {
            AddOp::Add => BinaryOp::Add,
            AddOp::Sub => BinaryOp::Sub,
        }
    }
}

impl RelOp {
    pub open spec fn spec_binary(&self) -> BinaryOp {
        match self {
            RelOp::Lt => BinaryOp::Lt,
            RelOp::Le => BinaryOp::Le,
            RelOp::Gt => BinaryOp::Gt,
            RelOp::Ge => BinaryOp::Ge,
        }
    }

    /// The operation of the IR for this operator.
    #[verifier::when_used_as_spec(spec_binary)]
    pub fn binary(&self) -> (op: BinaryOp)
        ensures
            op == self.spec_binary(),
    {
        match self {
            RelOp::Lt => BinaryOp::Lt,
            RelOp::Le => BinaryOp::Le,
            RelOp::Gt => BinaryOp::Gt,
            RelOp::Ge => BinaryOp::Ge,
        }
    }
}

impl EqOp {
    pub open spec fn spec_binary(&self) -> BinaryOp {
        match self {
            EqOp::Eq => BinaryOp::Eq,
            EqOp::Ne => BinaryOp::NotEq,
        }
    }

    /// The operation of the IR for this operator.
    #[verifier::when_used_as_spec(spec_binary)]
    pub fn binary(&self) -> (op: BinaryOp)
        ensures
            op == self.spec_binary(),
    {
        match self {
            EqOp::Eq => BinaryOp::Eq,
            EqOp::Ne => BinaryOp::NotEq,
        }
    }
}

impl Exp {
    /// The value of the expression under the declarations of `names`.
    pub open spec fn value(&self, names: Names) -> Result<i32, CompileError>
        decreases self,
    {
        match self {
            Exp::Exp(e) => e.value(names),
        }
    }

    /// Evaluates the expression with the constants of `table`.
    pub fn calc(&self, table: &ValueManager) -> (r: Result<i32, CompileError>)
        ensures
            r == self.value(kinds(table@)),
        decreases self,
    {
        match self {
            Exp::Exp(e) => e.calc(table),
        }
    }
}

impl LOrExp {
    pub open spec fn value(&self, names: Names) -> Result<i32, CompileError>
        decreases self,
    {
        match self {
            LOrExp::LAndExp(e) => e.value(names),
            LOrExp::LOrExp(l, r) => nonzero(apply(BinaryOp::Or, l.value(names), r.value(names))),
        }
    }

    pub fn calc(&self, table: &ValueManager) -> (r: Result<i32, CompileError>)
        ensures
            r == self.value(kinds(table@)),
        decreases self,
    {
        match self {
            LOrExp::LAndExp(e) => e.calc(table),
            LOrExp::LOrExp(l, r) => {
                let a = l.calc(table)?;
                let b = r.calc(table)?;
                fold(BinaryOp::NotEq, fold(BinaryOp::Or, a, b)?, 0)
            },
        }
    }
}

impl LAndExp {
    pub open spec fn value(&self, names: Names) -> Result<i32, CompileError>
        decreases self,
    {
        match self {
            LAndExp::EqExp(e) => e.value(names),
            LAndExp::LAndExp(l, r) => apply(
                BinaryOp::And,
                nonzero(l.value(names)),
                nonzero(r.value(names)),
            ),
        }
    }

    pub fn calc(&self, table: &ValueManager) -> (r: Result<i32, CompileError>)
        ensures
            r == self.value(kinds(table@)),
        decreases self,
    {
        match self {
            LAndExp::EqExp(e) => e.calc(table),
            LAndExp::LAndExp(l, r) => {
                let a = l.calc(table)?;
                let b = r.calc(table)?;
                fold(BinaryOp::And, fold(BinaryOp::NotEq, a, 0)?, fold(BinaryOp::NotEq, b, 0)?)
            },
        }
    }
}

impl EqExp {
    pub open spec fn value(&self, names: Names) -> Result<i32, CompileError>
        decreases self,
    {
        match self {
            EqExp::RelExp(e) => e.value(names),
            EqExp::EqExp(l, op, r) => apply(op.binary(), l.value(names), r.value(names)),
        }
    }

    pub fn calc(&self, table: &ValueManager) -> (r: Result<i32, CompileError>)
        ensures
            r == self.value(kinds(table@)),
        decreases self,
    {
        match self {
            EqExp::RelExp(e) => e.calc(table),
            EqExp::EqExp(l, op, r) => {
                let a = l.calc(table)?;
                let b = r.calc(table)?;
                fold(op.binary(), a, b)
            },
        }
    }
}

impl RelExp {
    pub open spec fn value(&self, names: Names) -> Result<i32, CompileError>
        decreases self,
    {
        match self {
            RelExp::AddExp(e) => e.value(names),
            RelExp::RelExp(l, op, r) => apply(op.binary(), l.value(names), r.value(names)),
        }
    }

    pub fn calc(&self, table: &ValueManager) -> (r: Result<i32, CompileError>)
        ensures
            r == self.value(kinds(table@)),
        decreases self,
    {
        match self {
            RelExp::AddExp(e) => e.calc(table),
            RelExp::RelExp(l, op, r) => {
                let a = l.calc(table)?;
                let b = r.calc(table)?;
                fold(op.binary(), a, b)
            },
        }
    }
}

impl AddExp {
    pub open spec fn value(&self, names: Names) -> Result<i32, CompileError>
        decreases self,
    {
        match self {
            AddExp::MulExp(e) => e.value(names),
            AddExp::AddExp(l, op, r) => apply(op.binary(), l.value(names), r.value(names)),
        }
    }

    pub fn calc(&self, table: &ValueManager) -> (r: Result<i32, CompileError>)
        ensures
            r == self.value(kinds(table@)),
        decreases self,
    {
        match self {
            AddExp::MulExp(e) => e.calc(table),
            AddExp::AddExp(l, op, r) => {
                let a = l.calc(table)?;
                let b = r.calc(table)?;
                fold(op.binary(), a, b)
            },
        }
    }
}

impl MulExp {
    pub open spec fn value(&self, names: Names) -> Result<i32, CompileError>
        decreases self,
    {
        match self {
            MulExp::UnaryExp(e) => e.value(names),
            MulExp::MulExp(l, op, r) => apply(op.binary(), l.value(names), r.value(names)),
        }
    }

    pub fn calc(&self, table: &ValueManager) -> (r: Result<i32, CompileError>)
        ensures
            r == self.value(kinds(table@)),
        decreases self,
    {
        match self {
            MulExp::UnaryExp(e) => e.calc(table),
            MulExp::MulExp(l, op, r) => {
                let a = l.calc(table)?;
                let b = r.calc(table)?;
                fold(op.binary(), a, b)
            },
        }
    }
}

impl UnaryExp {
    pub open spec fn value(&self, names: Names) -> Result<i32, CompileError>
        decreases self,
    {
        match self {
            UnaryExp::PrimaryExp(e) => e.value(names),
            UnaryExp::UnaryOp(op, e) => apply(op.binary(), Ok(0), e.value(names)),
        }
    }

    pub fn calc(&self, table: &ValueManager) -> (r: Result<i32, CompileError>)
        ensures
            r == self.value(kinds(table@)),
        decreases self,
    {
        match self {
            UnaryExp::PrimaryExp(e) => e.calc(table),
            UnaryExp::UnaryOp(op, e) => {
                let x = e.calc(table)?;
                fold(op.binary(), 0, x)
            },
        }
    }
}

impl PrimaryExp {
    pub open spec fn value(&self, names: Names) -> Result<i32, CompileError>
        decreases self,
    {
        match self {
            PrimaryExp::Exp(e) => e.value(names),
            PrimaryExp::LVal(name) => constant(names, name@),
            PrimaryExp::Number(n) => Ok(*n),
        }
    }

    pub fn calc(&self, table: &ValueManager) -> (r: Result<i32, CompileError>)
        ensures
            r == self.value(kinds(table@)),
        decreases self,
    {
        match self {
            PrimaryExp::Exp(e) => e.calc(table),
            PrimaryExp::LVal(name) => match table.get(name.as_str()) {
                None => Err(CompileError::UndeclaredIdentifier),
                Some(Decl::Const(c)) => Ok(*c),
                Some(Decl::Var(_)) => Err(CompileError::NotConstant),
            },
            PrimaryExp::Number(n) => Ok(*n),
        }
    }
}

} // verus!
