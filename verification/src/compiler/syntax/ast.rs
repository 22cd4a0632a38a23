//! Source-level types and literals, as type checking hands them on.

use crate::compiler::ir::value::inst::{BinaryOp, UnaryOp};
use crate::compiler::ir::value::ty::TyShape;
use vstd::prelude::*;

verus! {

/// A type of the source language.
#[derive(Debug)]
pub enum AstTy {
    Void,
    Int,
    Bool,
    Func { ret_ty: Box<AstTy>, param_tys: Vec<Box<AstTy>> },
    Array { siz: usize, elem_ty: Box<AstTy> },
    Ptr(Box<AstTy>),
    /// Not yet resolved; type checking leaves none of these behind.
    Unknown,
}

/// What a literal holds: one integer, or a list of literals.
#[derive(Debug)]
pub enum LiteralKind {
    Integer(i32),
    /// The declared length, and the elements as written.
    Array(usize, Vec<LiteralExpr>),
}

/// A literal with the type that type checking gave it.
#[derive(Debug)]
pub struct LiteralExpr {
    pub kind: LiteralKind,
    pub ty: AstTy,
}

/// An expression, with the type that type checking gave it.
#[derive(Debug)]
#[allow(inconsistent_fields)]
pub enum Expr {
    Literal(LiteralExpr),
    Var { name: String, ty: AstTy },
    Unary { op: UnaryOp, operand: Box<Expr>, ty: AstTy },
    Binary { op: BinaryOp, lhs: Box<Expr>, rhs: Box<Expr>, ty: AstTy },
    Call { callee: String, args: Vec<Expr>, ty: AstTy },
}

/// A statement.
#[derive(Debug)]
pub enum Stmt {
    /// Declares a local variable, with or without an initial value.
    Decl { name: String, ty: AstTy, init: Option<Expr> },
    Assign { name: String, value: Expr },
    Expr(Expr),
    /// A braced list of statements, with a scope of its own.
    Block(Vec<Stmt>),
    If { cond: Expr, then_arm: Vec<Stmt>, else_arm: Option<Vec<Stmt>> },
    While { cond: Expr, body: Vec<Stmt> },
    Break,
    Continue,
    Return(Option<Expr>),
}

/// A parameter of a declared function.
#[derive(Debug)]
pub struct ParamDecl {
    pub name: String,
    pub ty: AstTy,
}

/// A function: declared only, where it has no body, or defined.
#[derive(Debug)]
pub struct FuncDecl {
    pub name: String,
    pub ret_ty: AstTy,
    pub params: Vec<ParamDecl>,
    pub body: Option<Vec<Stmt>>,
}

/// A variable of the module.
#[derive(Debug)]
pub struct GlobalDecl {
    pub name: String,
    pub ty: AstTy,
    pub init: Option<LiteralExpr>,
}

/// A top-level declaration.
#[derive(Debug)]
pub enum Item {
    Func(FuncDecl),
    Global(GlobalDecl),
}

/// A whole source file.
#[derive(Debug)]
pub struct Program {
    pub items: Vec<Item>,
}

impl Expr {
    /// The type that type checking gave the expression.
    pub open spec fn ty_of(&self) -> AstTy {
        match self {
            Expr::Literal(lit) => lit.ty,
            Expr::Var { ty, .. } => *ty,
            Expr::Unary { ty, .. } => *ty,
            Expr::Binary { ty, .. } => *ty,
            Expr::Call { ty, .. } => *ty,
        }
    }

    /// The type that type checking gave the expression.
    pub fn ty(&self) -> (r: &AstTy)
        ensures
            *r == self.ty_of(),
    {
        match self {
            Expr::Literal(lit) => &lit.ty,
            Expr::Var { ty, .. } => ty,
            Expr::Unary { ty, .. } => ty,
            Expr::Binary { ty, .. } => ty,
            Expr::Call { ty, .. } => ty,
        }
    }

    /// What type checking leaves behind: every type in the expression is
    /// resolved.
    pub open spec fn checked(&self) -> bool
        decreases self,
    {
        match self {
            Expr::Literal(lit) => lit.typed() && lit.ty.resolved(),
            Expr::Var { ty, .. } => ty.resolved(),
            Expr::Unary { operand, ty, .. } => ty.resolved() && operand.checked(),
            Expr::Binary { lhs, rhs, ty, .. } => ty.resolved() && lhs.checked() && rhs.checked(),
            Expr::Call { args, ty, .. } => ty.resolved() && forall|i: int|
                0 <= i < args@.len() ==> (#[trigger] args@[i]).checked(),
        }
    }
}

/// Every statement of a list is as type checking leaves it.
pub open spec fn all_checked(stmts: &Vec<Stmt>, in_loop: bool) -> bool
    decreases stmts,
{
    forall|i: int| 0 <= i < stmts@.len() ==> (#[trigger] stmts@[i]).checked(in_loop)
}

impl Stmt {
    /// What type checking leaves behind: every type in the statement is
    /// resolved, and `break` and `continue` stand inside a loop only.
    pub open spec fn checked(&self, in_loop: bool) -> bool
        decreases self,
    {
        match self {
            Stmt::Decl { ty, init, .. } => ty.resolved() && match init {
                Some(e) => e.checked(),
                None => true,
            },
            Stmt::Assign { value, .. } => value.checked(),
            Stmt::Expr(e) => e.checked(),
            Stmt::Block(stmts) => all_checked(stmts, in_loop),
            Stmt::If { cond, then_arm, else_arm } => cond.checked() && all_checked(
                then_arm,
                in_loop,
            ) && match else_arm {
                Some(arm) => all_checked(arm, in_loop),
                None => true,
            },
            Stmt::While { cond, body } => cond.checked() && all_checked(body, true),
            Stmt::Break => in_loop,
            Stmt::Continue => in_loop,
            Stmt::Return(value) => match value {
                Some(e) => e.checked(),
                None => true,
            },
        }
    }
}

impl FuncDecl {
    /// The shape of the function's type: what it returns and what it takes.
    pub open spec fn ty_shape(&self) -> TyShape {
        TyShape::Func(
            Box::new(self.ret_ty.ir_shape()),
            Seq::new(self.params@.len(), |i: int| self.params@[i].ty.ir_shape()),
        )
    }

    /// What type checking leaves behind.
    pub open spec fn checked(&self) -> bool {
        &&& self.ret_ty.resolved()
        &&& (forall|i: int| 0 <= i < self.params@.len() ==> (#[trigger] self.params@[i]).ty.resolved())
        &&& match self.body {
            Some(stmts) => all_checked(&stmts, false),
            None => true,
        }
    }
}

impl GlobalDecl {
    /// What type checking leaves behind.
    pub open spec fn checked(&self) -> bool {
        &&& self.ty.resolved()
        &&& match self.init {
            Some(lit) => lit.typed(),
            None => true,
        }
    }
}

impl Item {
    /// What type checking leaves behind.
    pub open spec fn checked(&self) -> bool {
        match self {
            Item::Func(f) => f.checked(),
            Item::Global(g) => g.checked(),
        }
    }
}

impl Program {
    /// What type checking leaves behind.
    pub open spec fn checked(&self) -> bool {
        forall|i: int| 0 <= i < self.items@.len() ==> (#[trigger] self.items@[i]).checked()
    }
}

impl LiteralExpr {
    /// The type of every array literal inside, and of this one if it is an
    /// array, is resolved.
    pub open spec fn typed(&self) -> bool
        decreases self,
    {
        match self.kind {
            LiteralKind::Integer(_) => true,
            LiteralKind::Array(_, vals) => self.ty.resolved() && forall|i: int|
                0 <= i < vals@.len() ==> (#[trigger] vals@[i]).typed(),
        }
    }
}

impl AstTy {
    /// No `Unknown` occurs anywhere inside this type.
    pub open spec fn resolved(&self) -> bool
        decreases self,
    {
        match self {
            AstTy::Void | AstTy::Int | AstTy::Bool => true,
            AstTy::Func { ret_ty, param_tys } => ret_ty.resolved() && forall|i: int|
                0 <= i < param_tys@.len() ==> (#[trigger] param_tys@[i]).resolved(),
            AstTy::Array { siz, elem_ty } => elem_ty.resolved(),
            AstTy::Ptr(elem_ty) => elem_ty.resolved(),
            AstTy::Unknown => false,
        }
    }
}

impl Clone for AstTy {
    fn clone(&self) -> (r: AstTy)
        ensures
            r.ir_shape() == self.ir_shape(),
            r.resolved() == self.resolved(),
        decreases self,
    {
        match self {
            AstTy::Void => AstTy::Void,
            AstTy::Int => AstTy::Int,
            AstTy::Bool => AstTy::Bool,
            AstTy::Func { ret_ty, param_tys } => {
                let ret = (**ret_ty).clone();
                let params = clone_boxed(param_tys);
                let r = AstTy::Func { ret_ty: Box::new(ret), param_tys: params };
                assert(r.ir_shape()->Func_1 =~= self.ir_shape()->Func_1);
                r
            },
            AstTy::Array { siz, elem_ty } => AstTy::Array {
                siz: *siz,
                elem_ty: Box::new((**elem_ty).clone()),
            },
            AstTy::Ptr(elem_ty) => AstTy::Ptr(Box::new((**elem_ty).clone())),
            AstTy::Unknown => AstTy::Unknown,
        }
    }
}

impl Clone for LiteralKind {
    fn clone(&self) -> (r: LiteralKind)
        ensures
            *self matches LiteralKind::Integer(x) ==> r == LiteralKind::Integer(x),
            *self matches LiteralKind::Array(len, vals) ==> r matches LiteralKind::Array(l, copies)
                && l == len && copies@.len() == vals@.len(),
        decreases self,
    {
        match self {
            LiteralKind::Integer(x) => LiteralKind::Integer(*x),
            LiteralKind::Array(len, vals) => LiteralKind::Array(*len, clone_literals(vals)),
        }
    }
}

impl Clone for LiteralExpr {
    fn clone(&self) -> (r: LiteralExpr)
        ensures
            r.const_shape() == self.const_shape(),
            r.typed() == self.typed(),
            r.ty.ir_shape() == self.ty.ir_shape(),
            r.ty.resolved() == self.ty.resolved(),
        decreases self,
    {
        match &self.kind {
            LiteralKind::Integer(x) => LiteralExpr {
                kind: LiteralKind::Integer(*x),
                ty: self.ty.clone(),
            },
            LiteralKind::Array(len, vals) => {
                let copies = clone_literals(vals);
                let r = LiteralExpr { kind: LiteralKind::Array(*len, copies), ty: self.ty.clone() };
                assert(r.const_shape()->Array_1 =~= self.const_shape()->Array_1);
                r
            },
        }
    }
}

fn clone_literals(vals: &Vec<LiteralExpr>) -> (r: Vec<LiteralExpr>)
    ensures
        r@.len() == vals@.len(),
        forall|j: int|
            #![trigger r@[j]]
            #![trigger vals@[j]]
            0 <= j < vals@.len() ==> r@[j].const_shape() == vals@[j].const_shape() && r@[j].typed()
                == vals@[j].typed(),
    decreases vals,
{
    let mut r: Vec<LiteralExpr> = Vec::new();
    let mut i: usize = 0;
    while i < vals.len()
        invariant
            i <= vals.len(),
            r.len() == i,
            forall|j: int|
                #![trigger r@[j]]
                #![trigger vals@[j]]
                0 <= j < i ==> r@[j].const_shape() == vals@[j].const_shape() && r@[j].typed()
                    == vals@[j].typed(),
        decreases vals.len() - i,
    {
        r.push(vals[i].clone());
        i += 1;
    }
    r
}

fn clone_boxed(tys: &Vec<Box<AstTy>>) -> (r: Vec<Box<AstTy>>)
    ensures
        r@.len() == tys@.len(),
        forall|j: int|
            #![trigger r@[j]]
            #![trigger tys@[j]]
            0 <= j < tys@.len() ==> r@[j].ir_shape() == tys@[j].ir_shape() && r@[j].resolved()
                == tys@[j].resolved(),
    decreases tys,
{
    let mut r: Vec<Box<AstTy>> = Vec::new();
    let mut i: usize = 0;
    while i < tys.len()
        invariant
            i <= tys.len(),
            r.len() == i,
            forall|j: int|
                #![trigger r@[j]]
                #![trigger tys@[j]]
                0 <= j < i ==> r@[j].ir_shape() == tys@[j].ir_shape() && r@[j].resolved()
                    == tys@[j].resolved(),
        decreases tys.len() - i,
    {
        r.push(Box::new((*tys[i]).clone()));
        i += 1;
    }
    r
}

impl AstTy {
    /// Whether no `Unknown` occurs anywhere inside this type.
    pub fn is_resolved(&self) -> (r: bool)
        ensures
            r == self.resolved(),
        decreases self,
    {
        match self {
            AstTy::Void | AstTy::Int | AstTy::Bool => true,
            AstTy::Func { ret_ty, param_tys } => ret_ty.is_resolved() && all_resolved(param_tys),
            AstTy::Array { siz, elem_ty } => elem_ty.is_resolved(),
            AstTy::Ptr(elem_ty) => elem_ty.is_resolved(),
            AstTy::Unknown => false,
        }
    }
}

fn all_resolved(tys: &Vec<Box<AstTy>>) -> (r: bool)
    ensures
        r == forall|i: int| 0 <= i < tys@.len() ==> (#[trigger] tys@[i]).resolved(),
    decreases tys,
{
    let mut i: usize = 0;
    while i < tys.len()
        invariant
            i <= tys@.len(),
            forall|j: int| 0 <= j < i ==> (#[trigger] tys@[j]).resolved(),
        decreases tys@.len() - i,
    {
        if !tys[i].is_resolved() {
            return false;
        }
        i += 1;
    }
    true
}

impl LiteralExpr {
    /// Whether the literal is as type checking leaves it.
    pub fn is_typed(&self) -> (r: bool)
        ensures
            r == self.typed(),
        decreases self,
    {
        match &self.kind {
            LiteralKind::Integer(_) => true,
            LiteralKind::Array(_, vals) => self.ty.is_resolved() && all_typed(vals),
        }
    }
}

fn all_typed(vals: &Vec<LiteralExpr>) -> (r: bool)
    ensures
        r == forall|i: int| 0 <= i < vals@.len() ==> (#[trigger] vals@[i]).typed(),
    decreases vals,
{
    let mut i: usize = 0;
    while i < vals.len()
        invariant
            i <= vals@.len(),
            forall|j: int| 0 <= j < i ==> (#[trigger] vals@[j]).typed(),
        decreases vals@.len() - i,
    {
        if !vals[i].is_typed() {
            return false;
        }
        i += 1;
    }
    true
}

impl Expr {
    /// Whether the expression is as type checking leaves it.
    pub fn is_checked(&self) -> (r: bool)
        ensures
            r == self.checked(),
        decreases self,
    {
        match self {
            Expr::Literal(lit) => lit.is_typed() && lit.ty.is_resolved(),
            Expr::Var { ty, .. } => ty.is_resolved(),
            Expr::Unary { operand, ty, .. } => ty.is_resolved() && operand.is_checked(),
            Expr::Binary { lhs, rhs, ty, .. } => ty.is_resolved() && lhs.is_checked()
                && rhs.is_checked(),
            Expr::Call { args, ty, .. } => ty.is_resolved() && exprs_checked(args),
        }
    }
}

fn exprs_checked(args: &Vec<Expr>) -> (r: bool)
    ensures
        r == forall|i: int| 0 <= i < args@.len() ==> (#[trigger] args@[i]).checked(),
    decreases args,
{
    let mut i: usize = 0;
    while i < args.len()
        invariant
            i <= args@.len(),
            forall|j: int| 0 <= j < i ==> (#[trigger] args@[j]).checked(),
        decreases args@.len() - i,
    {
        if !args[i].is_checked() {
            return false;
        }
        i += 1;
    }
    true
}

/// Whether every statement of a list is as type checking leaves it.
pub fn stmts_checked(stmts: &Vec<Stmt>, in_loop: bool) -> (r: bool)
    ensures
        r == all_checked(stmts, in_loop),
    decreases stmts,
{
    let mut i: usize = 0;
    while i < stmts.len()
        invariant
            i <= stmts@.len(),
            forall|j: int| 0 <= j < i ==> (#[trigger] stmts@[j]).checked(in_loop),
        decreases stmts@.len() - i,
    {
        if !stmts[i].is_checked(in_loop) {
            return false;
        }
        i += 1;
    }
    true
}

impl Stmt {
    /// Whether the statement is as type checking leaves it.
    pub fn is_checked(&self, in_loop: bool) -> (r: bool)
        ensures
            r == self.checked(in_loop),
        decreases self,
    {
        match self {
            Stmt::Decl { ty, init, .. } => ty.is_resolved() && match init {
                Some(e) => e.is_checked(),
                None => true,
            },
            Stmt::Assign { value, .. } => value.is_checked(),
            Stmt::Expr(e) => e.is_checked(),
            Stmt::Block(stmts) => stmts_checked(stmts, in_loop),
            Stmt::If { cond, then_arm, else_arm } => cond.is_checked() && stmts_checked(
                then_arm,
                in_loop,
            ) && match else_arm {
                Some(arm) => stmts_checked(arm, in_loop),
                None => true,
            },
            Stmt::While { cond, body } => cond.is_checked() && stmts_checked(body, true),
            Stmt::Break => in_loop,
            Stmt::Continue => in_loop,
            Stmt::Return(value) => match value {
                Some(e) => e.is_checked(),
                None => true,
            },
        }
    }
}

impl FuncDecl {
    /// Whether the declaration is as type checking leaves it.
    pub fn is_checked(&self) -> (r: bool)
        ensures
            r == self.checked(),
    {
        if !self.ret_ty.is_resolved() {
            return false;
        }
        let mut i: usize = 0;
        while i < self.params.len()
            invariant
                i <= self.params@.len(),
                forall|j: int| 0 <= j < i ==> (#[trigger] self.params@[j]).ty.resolved(),
            decreases self.params@.len() - i,
        {
            if !self.params[i].ty.is_resolved() {
                return false;
            }
            i += 1;
        }
        match &self.body {
            Some(stmts) => stmts_checked(stmts, false),
            None => true,
        }
    }
}

impl GlobalDecl {
    /// Whether the declaration is as type checking leaves it.
    pub fn is_checked(&self) -> (r: bool)
        ensures
            r == self.checked(),
    {
        self.ty.is_resolved() && match &self.init {
            Some(lit) => lit.is_typed(),
            None => true,
        }
    }
}

impl Program {
    /// Whether the program is as type checking leaves it.
    pub fn is_checked(&self) -> (r: bool)
        ensures
            r == self.checked(),
    {
        let mut i: usize = 0;
        while i < self.items.len()
            invariant
                i <= self.items@.len(),
                forall|j: int| 0 <= j < i ==> (#[trigger] self.items@[j]).checked(),
            decreases self.items@.len() - i,
        {
            let ok = match &self.items[i] {
                Item::Func(f) => f.is_checked(),
                Item::Global(g) => g.is_checked(),
            };
            if !ok {
                return false;
            }
            i += 1;
        }
        true
    }
}

} // verus!
