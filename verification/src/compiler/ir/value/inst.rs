//! Instructions: one IR operation each.

use crate::compiler::ir::arena::{BBId, FuncId};
use crate::compiler::ir::value::ty::{IrTy, TyShape};
use crate::compiler::ir::value::value::{Operand, Value};
use vstd::prelude::*;

verus! {

/// An operation on two operands.
#[derive(Clone, Copy, Debug, PartialEq, Eq, Structural)]
pub enum BinaryOp {
    Add,
    Sub,
    Mul,
    Div,
    Mod,
    Lt,
    Le,
    Gt,
    Ge,
    Eq,
    Ne,
    And,
    Or,
}

impl BinaryOp {
    /// Whether the operation compares or combines truth values, so that its
    /// result is a boolean.
    pub open spec fn is_predicate(&self) -> bool {
        !(*self is Add || *self is Sub || *self is Mul || *self is Div || *self is Mod)
    }

    /// Whether the result is a boolean rather than an integer.
    pub fn yields_bool(&self) -> (r: bool)
        ensures
            r == self.is_predicate(),
    {
        match self {
            BinaryOp::Add | BinaryOp::Sub | BinaryOp::Mul | BinaryOp::Div | BinaryOp::Mod => false,
            _ => true,
        }
    }
}

/// An operation on one operand.
#[derive(Clone, Copy, Debug, PartialEq, Eq, Structural)]
pub enum UnaryOp {
    Neg,
    Not,
}

/// What an instruction does, with the operands it does it to. The blocks
/// that a jump or a branch leads to are part of the kind, not operands.
#[derive(Debug)]
#[allow(inconsistent_fields)]
pub enum InstKind {
    Binary { op: BinaryOp, lhs: Operand, rhs: Operand },
    Unary { op: UnaryOp, operand: Operand },
    /// Reserves storage for one value of the pointee type.
    Alloca,
    Load { addr: Operand },
    Store { addr: Operand, value: Operand },
    Call { func: FuncId, args: Vec<Operand> },
    /// Unconditional jump.
    Jump { target: BBId },
    /// Conditional branch on a boolean operand.
    Branch { cond: Operand, then_bb: BBId, else_bb: BBId },
    Ret { returned: Option<Operand> },
}

impl InstKind {
    /// A terminator ends its block: a jump, a branch or a return.
    pub open spec fn terminates(&self) -> bool {
        *self is Jump || *self is Branch || *self is Ret
    }

    /// How many operands an instruction of this kind has.
    pub open spec fn arity(&self) -> nat {
        match self {
            InstKind::Binary { .. } => 2,
            InstKind::Unary { .. } => 1,
            InstKind::Alloca => 0,
            InstKind::Load { .. } => 1,
            InstKind::Store { .. } => 2,
            InstKind::Call { args, .. } => args@.len(),
            InstKind::Jump { .. } => 0,
            InstKind::Branch { .. } => 1,
            InstKind::Ret { returned } => if returned is Some {
                1
            } else {
                0
            },
        }
    }

    /// The operand at a position, counted from the left.
    pub open spec fn operand(&self, i: int) -> Operand
        recommends
            0 <= i < self.arity(),
    {
        match self {
            InstKind::Binary { lhs, rhs, .. } => if i == 0 {
                *lhs
            } else {
                *rhs
            },
            InstKind::Unary { operand, .. } => *operand,
            InstKind::Load { addr } => *addr,
            InstKind::Store { addr, value } => if i == 0 {
                *addr
            } else {
                *value
            },
            InstKind::Call { args, .. } => args@[i],
            InstKind::Branch { cond, .. } => *cond,
            InstKind::Ret { returned } => returned->0,
            _ => arbitrary(),
        }
    }

    /// Whether this kind ends a basic block.
    pub fn is_terminator(&self) -> (r: bool)
        ensures
            r == self.terminates(),
    {
        match self {
            InstKind::Jump { .. } | InstKind::Branch { .. } | InstKind::Ret { .. } => true,
            _ => false,
        }
    }

    /// The operands, in order.
    pub fn operands(&self) -> (r: Vec<&Operand>)
        ensures
            r@.len() == self.arity(),
            forall|i: int| 0 <= i < r@.len() ==> *r@[i] == self.operand(i),
    {
        let mut r: Vec<&Operand> = Vec::new();
        match self {
            InstKind::Binary { lhs, rhs, .. } => {
                r.push(lhs);
                r.push(rhs);
            },
            InstKind::Unary { operand, .. } => {
                r.push(operand);
            },
            InstKind::Alloca => {},
            InstKind::Load { addr } => {
                r.push(addr);
            },
            InstKind::Store { addr, value } => {
                r.push(addr);
                r.push(value);
            },
            InstKind::Call { args, .. } => {
                let mut i: usize = 0;
                while i < args.len()
                    invariant
                        i <= args.len(),
                        r@.len() == i,
                        forall|j: int| 0 <= j < i ==> *r@[j] == args@[j],
                    decreases args.len() - i,
                {
                    r.push(&args[i]);
                    i += 1;
                }
            },
            InstKind::Jump { .. } => {},
            InstKind::Branch { cond, .. } => {
                r.push(cond);
            },
            InstKind::Ret { returned } => {
                match returned {
                    Some(v) => {
                        r.push(v);
                    },
                    None => {},
                }
            },
        }
        r
    }
}

/// One IR operation: its kind and the type of its result.
#[derive(Debug)]
pub struct Inst {
    pub kind: InstKind,
    pub ty: IrTy,
}

impl Value for Inst {
    open spec fn ty_shape(&self) -> TyShape {
        self.ty@
    }

    fn get_ty(&self) -> (r: IrTy) {
        self.ty.clone()
    }
}

impl InstKind {
    /// Two kinds do the same to the same operands.
    pub open spec fn same(self, other: InstKind) -> bool {
        match (self, other) {
            (
                InstKind::Binary { op: a, lhs: x, rhs: y },
                InstKind::Binary { op: b, lhs: u, rhs: v },
            ) => a == b && x.same(u) && y.same(v),
            (InstKind::Unary { op: a, operand: x }, InstKind::Unary { op: b, operand: u }) => a
                == b && x.same(u),
            (InstKind::Alloca, InstKind::Alloca) => true,
            (InstKind::Load { addr: x }, InstKind::Load { addr: u }) => x.same(u),
            (InstKind::Store { addr: x, value: y }, InstKind::Store { addr: u, value: v }) => x.same(
                u,
            ) && y.same(v),
            (InstKind::Call { func: f, args: xs }, InstKind::Call { func: g, args: us }) => f == g
                && xs@.len() == us@.len() && forall|i: int|
                0 <= i < xs@.len() ==> (#[trigger] xs@[i]).same(us@[i]),
            (InstKind::Jump { target: a }, InstKind::Jump { target: b }) => a == b,
            (
                InstKind::Branch { cond: x, then_bb: a, else_bb: b },
                InstKind::Branch { cond: u, then_bb: c, else_bb: d },
            ) => x.same(u) && a == c && b == d,
            (InstKind::Ret { returned: x }, InstKind::Ret { returned: u }) => match (x, u) {
                (Some(x), Some(u)) => x.same(u),
                (None, None) => true,
                _ => false,
            },
            _ => false,
        }
    }
}

impl Clone for InstKind {
    fn clone(&self) -> (r: InstKind)
        ensures
            self.same(r),
    {
        match self {
            InstKind::Binary { op, lhs, rhs } => InstKind::Binary {
                op: *op,
                lhs: lhs.clone(),
                rhs: rhs.clone(),
            },
            InstKind::Unary { op, operand } => InstKind::Unary { op: *op, operand: operand.clone() },
            InstKind::Alloca => InstKind::Alloca,
            InstKind::Load { addr } => InstKind::Load { addr: addr.clone() },
            InstKind::Store { addr, value } => InstKind::Store {
                addr: addr.clone(),
                value: value.clone(),
            },
            InstKind::Call { func, args } => {
                let mut copies: Vec<Operand> = Vec::new();
                let mut i: usize = 0;
                while i < args.len()
                    invariant
                        i <= args@.len(),
                        copies@.len() == i,
                        forall|j: int| 0 <= j < i ==> (#[trigger] args@[j]).same(copies@[j]),
                    decreases args@.len() - i,
                {
                    copies.push(args[i].clone());
                    i += 1;
                }
                InstKind::Call { func: *func, args: copies }
            },
            InstKind::Jump { target } => InstKind::Jump { target: *target },
            InstKind::Branch { cond, then_bb, else_bb } => InstKind::Branch {
                cond: cond.clone(),
                then_bb: *then_bb,
                else_bb: *else_bb,
            },
            InstKind::Ret { returned } => InstKind::Ret {
                returned: match returned {
                    Some(v) => Some(v.clone()),
                    None => None,
                },
            },
        }
    }
}

impl Clone for Inst {
    fn clone(&self) -> (r: Inst)
        ensures
            self.kind.same(r.kind),
            r.ty@ == self.ty@,
    {
        Inst { kind: self.kind.clone(), ty: self.ty.clone() }
    }
}

} // verus!
