//! What can be used as an operand.

use crate::compiler::ir::arena::{GlobalId, InstId, ParamId};
use crate::compiler::ir::value::constant::Constant;
use crate::compiler::ir::value::ty::{IrTy, TyShape};
use vstd::prelude::*;

verus! {

/// Anything that yields an IR type: a constant, an instruction, a parameter
/// or a global.
pub trait Value {
    /// The shape of the type that the value has.
    spec fn ty_shape(&self) -> TyShape;

    /// The type of the value.
    fn get_ty(&self) -> (r: IrTy)
        ensures
            r@ == self.ty_shape(),
    ;
}

/// A reference to a value that an instruction uses. A constant is embedded;
/// everything else is named by its key.
#[derive(Debug)]
pub enum Operand {
    Inst(InstId),
    Global(GlobalId),
    Param(ParamId),
    Const(Constant),
}

impl Operand {
    /// Two operands name the same value: the same key, or constants of the
    /// same shape.
    pub open spec fn same(self, other: Operand) -> bool {
        match (self, other) {
            (Operand::Const(a), Operand::Const(b)) => a@ == b@,
            (Operand::Const(_), _) => false,
            (_, Operand::Const(_)) => false,
            _ => self == other,
        }
    }
}

impl Clone for Operand {
    fn clone(&self) -> (r: Operand)
        ensures
            self.same(r),
    {
        match self {
            Operand::Inst(x) => Operand::Inst(*x),
            Operand::Global(x) => Operand::Global(*x),
            Operand::Param(x) => Operand::Param(*x),
            Operand::Const(c) => Operand::Const(c.clone()),
        }
    }
}

} // verus!
