//! The closed set of IR types, and how source-level types map onto them.

use crate::compiler::ir::text::{decimal, decimal_text, join, join_texts};
use crate::compiler::syntax::ast::AstTy;
use vstd::prelude::*;
use vstd::string::*;

verus! {

/// Width in bits of the language's integer type.
pub const INT_BITS: u32 = 32;

/// Width in bits of a boolean condition.
pub const BOOL_BITS: u32 = 1;

/// The mathematical shape of an IR type: what two types are compared by.
pub enum TyShape {
    Void,
    Int(u32),
    Array(usize, Box<TyShape>),
    Ptr(Box<TyShape>),
    Func(Box<TyShape>, Seq<TyShape>),
}

/// A type of the intermediate representation.
#[derive(Debug)]
pub enum IrTy {
    Void,
    /// An integer of the given bit width.
    Int(u32),
    /// An array of a static length.
    Array(usize, Box<IrTy>),
    Ptr(Box<IrTy>),
    Func(Box<FuncTy>),
}

/// The type of a function: what it returns and what it takes, in order.
#[derive(Debug)]
pub struct FuncTy {
    pub ret_ty: IrTy,
    pub params_ty: Vec<IrTy>,
}

/// The shapes of a list of types, element by element.
pub open spec fn shapes_of(tys: Seq<IrTy>) -> Seq<TyShape> {
    Seq::new(tys.len(), |i: int| tys[i].shape())
}

/// How a type is written in the listing: `void`, `i` and the bit width,
/// `[` length ` x ` element `]`, the pointee and `*`, or the return type and
/// the parameter types in round brackets.
pub open spec fn ty_text(t: TyShape) -> Seq<char>
    decreases t,
{
    match t {
        TyShape::Void => "void"@,
        TyShape::Int(bits) => "i"@ + decimal_text(bits as int),
        TyShape::Array(len, elem) => "["@ + decimal_text(len as int) + " x "@ + ty_text(*elem)
            + "]"@,
        TyShape::Ptr(elem) => ty_text(*elem) + "*"@,
        TyShape::Func(ret, params) => ty_text(*ret) + " ("@ + join_texts(ty_texts(params), ", "@)
            + ")"@,
    }
}

/// The listing texts of a list of types, element by element.
pub open spec fn ty_texts(ts: Seq<TyShape>) -> Seq<Seq<char>>
    decreases ts,
{
    Seq::new(
        ts.len(),
        |i: int|
            if 0 <= i < ts.len() {
                ty_text(ts[i])
            } else {
                Seq::empty()
            },
    )
}

impl AstTy {
    /// The IR shape that a source-level type stands for. For a type that is
    /// not `resolved` the unresolved parts read as `Void`.
    pub open spec fn ir_shape(&self) -> TyShape
        decreases self,
    {
        match self {
            AstTy::Void => TyShape::Void,
            AstTy::Int => TyShape::Int(INT_BITS),
            AstTy::Bool => TyShape::Int(BOOL_BITS),
            AstTy::Func { ret_ty, param_tys } => TyShape::Func(
                Box::new(ret_ty.ir_shape()),
                Seq::new(
                    param_tys@.len(),
                    |i: int|
                        if 0 <= i < param_tys@.len() {
                            param_tys@[i].ir_shape()
                        } else {
                            TyShape::Void
                        },
                ),
            ),
            AstTy::Array { siz, elem_ty } => TyShape::Array(*siz, Box::new(elem_ty.ir_shape())),
            AstTy::Ptr(elem_ty) => TyShape::Ptr(Box::new(elem_ty.ir_shape())),
            AstTy::Unknown => TyShape::Void,
        }
    }
}

impl IrTy {
    pub open spec fn shape(&self) -> TyShape
        decreases self,
    {
        match self {
            IrTy::Void => TyShape::Void,
            IrTy::Int(bits) => TyShape::Int(*bits),
            IrTy::Array(len, elem) => TyShape::Array(*len, Box::new(elem.shape())),
            IrTy::Ptr(elem) => TyShape::Ptr(Box::new(elem.shape())),
            IrTy::Func(f) => TyShape::Func(
                Box::new(f.ret_ty.shape()),
                Seq::new(
                    f.params_ty@.len(),
                    |i: int|
                        if 0 <= i < f.params_ty@.len() {
                            f.params_ty@[i].shape()
                        } else {
                            TyShape::Void
                        },
                ),
            ),
        }
    }

    /// Converts a source-level type. Type checking resolves every type
    /// before the builder sees it, so an unresolved one is not accepted.
    pub fn from(ast_ty: AstTy) -> (r: IrTy)
        requires
            ast_ty.resolved(),
        ensures
            r@ == ast_ty.ir_shape(),
    {
        IrTy::of_ast(&ast_ty)
    }

    /// Converts a source-level type that stays with its owner.
    pub fn of_ast(ast_ty: &AstTy) -> (r: IrTy)
        requires
            ast_ty.resolved(),
        ensures
            r@ == ast_ty.ir_shape(),
        decreases ast_ty,
    {
        match ast_ty {
            AstTy::Void => IrTy::Void,
            AstTy::Int => IrTy::Int(INT_BITS),
            AstTy::Bool => IrTy::Int(BOOL_BITS),
            AstTy::Func { ret_ty, param_tys } => {
                let ret_ty = IrTy::of_ast(ret_ty);
                let params_ty = of_ast_all(param_tys);
                let r = IrTy::Func(Box::new(FuncTy { ret_ty, params_ty }));
                assert(r@->Func_1 =~= ast_ty.ir_shape()->Func_1);
                r
            },
            AstTy::Array { siz, elem_ty } => IrTy::Array(*siz, Box::new(IrTy::of_ast(elem_ty))),
            AstTy::Ptr(elem_ty) => IrTy::Ptr(Box::new(IrTy::of_ast(elem_ty))),
            AstTy::Unknown => IrTy::Void,
        }
    }

    /// Whether two types have the same shape.
    pub fn same(&self, other: &IrTy) -> (r: bool)
        ensures
            r == (self@ == other@),
        decreases self,
    {
        match (self, other) {
            (IrTy::Void, IrTy::Void) => true,
            (IrTy::Int(a), IrTy::Int(b)) => *a == *b,
            (IrTy::Array(n, a), IrTy::Array(m, b)) => *n == *m && a.same(b),
            (IrTy::Ptr(a), IrTy::Ptr(b)) => a.same(b),
            (IrTy::Func(f), IrTy::Func(g)) => {
                let r = f.ret_ty.same(&g.ret_ty) && same_all(&f.params_ty, &g.params_ty);
                proof {
                    if r {
                        assert(self@->Func_1 =~= other@->Func_1);
                    } else if f.ret_ty@ == g.ret_ty@ {
                        let i = choose|i: int|
                            0 <= i < f.params_ty@.len() && f.params_ty@[i]@ != g.params_ty@[i]@;
                        if f.params_ty@.len() == g.params_ty@.len() {
                            assert(self@->Func_1[i] != other@->Func_1[i]);
                        } else {
                            assert(self@->Func_1.len() != other@->Func_1.len());
                        }
                    }
                }
                r
            },
            _ => false,
        }
    }

    /// Renders the type as the listing writes it.
    pub fn to_string(&self) -> (r: String)
        ensures
            r@ == ty_text(self@),
        decreases self,
    {
        match self {
            IrTy::Void => String::from_str("void"),
            IrTy::Int(bits) => {
                let mut r = String::from_str("i");
                r.append(decimal(*bits as i128).as_str());
                r
            },
            IrTy::Array(len, elem) => {
                let mut r = String::from_str("[");
                r.append(decimal(*len as i128).as_str());
                r.append(" x ");
                r.append(elem.to_string().as_str());
                r.append("]");
                r
            },
            IrTy::Ptr(elem) => {
                let mut r = elem.to_string();
                r.append("*");
                r
            },
            IrTy::Func(f) => {
                let mut r = f.ret_ty.to_string();
                r.append(" (");
                let params = texts_of(&f.params_ty);
                r.append(join(&params, ", ").as_str());
                r.append(")");
                proof {
                    let got = Seq::new(params@.len(), |i: int| params@[i]@);
                    assert(got =~= ty_texts(self@->Func_1));
                }
                r
            },
        }
    }

    /// The function type inside, if this is one.
    pub fn into_func(self) -> (r: Result<Box<FuncTy>, IrTy>)
        ensures
            r == match self {
                IrTy::Func(f) => Ok::<Box<FuncTy>, IrTy>(f),
                _ => Err(self),
            },
    {
        match self {
            IrTy::Func(f) => Ok(f),
            other => Err(other),
        }
    }
}

impl View for IrTy {
    type V = TyShape;

    open spec fn view(&self) -> TyShape {
        self.shape()
    }
}

impl Clone for IrTy {
    fn clone(&self) -> (r: IrTy)
        ensures
            r@ == self@,
        decreases self,
    {
        match self {
            IrTy::Void => IrTy::Void,
            IrTy::Int(bits) => IrTy::Int(*bits),
            IrTy::Array(len, elem) => IrTy::Array(*len, Box::new((**elem).clone())),
            IrTy::Ptr(elem) => IrTy::Ptr(Box::new((**elem).clone())),
            IrTy::Func(f) => {
                let ret_ty = f.ret_ty.clone();
                let params_ty = clone_all(&f.params_ty);
                let r = IrTy::Func(Box::new(FuncTy { ret_ty, params_ty }));
                assert(r@->Func_1 =~= self@->Func_1);
                r
            },
        }
    }
}

impl Clone for FuncTy {
    fn clone(&self) -> (r: FuncTy)
        ensures
            r.ret_ty@ == self.ret_ty@,
            shapes_of(r.params_ty@) == shapes_of(self.params_ty@),
    {
        let r = FuncTy { ret_ty: self.ret_ty.clone(), params_ty: clone_all(&self.params_ty) };
        assert(shapes_of(r.params_ty@) =~= shapes_of(self.params_ty@));
        r
    }
}

/// Copies a list of types, shape for shape.
pub fn clone_all(tys: &Vec<IrTy>) -> (r: Vec<IrTy>)
    ensures
        r@.len() == tys@.len(),
        forall|j: int| 0 <= j < tys@.len() ==> r@[j]@ == tys@[j]@,
    decreases tys,
{
    let mut r: Vec<IrTy> = Vec::new();
    let mut i: usize = 0;
    while i < tys.len()
        invariant
            i <= tys.len(),
            r.len() == i,
            forall|j: int| 0 <= j < i ==> r@[j]@ == tys@[j]@,
        decreases tys.len() - i,
    {
        r.push(tys[i].clone());
        i += 1;
    }
    r
}

fn texts_of(tys: &Vec<IrTy>) -> (r: Vec<String>)
    ensures
        r@.len() == tys@.len(),
        forall|j: int| 0 <= j < tys@.len() ==> r@[j]@ == ty_text(tys@[j]@),
    decreases tys,
{
    let mut r: Vec<String> = Vec::new();
    let mut i: usize = 0;
    while i < tys.len()
        invariant
            i <= tys.len(),
            r.len() == i,
            forall|j: int| 0 <= j < i ==> r@[j]@ == ty_text(tys@[j]@),
        decreases tys.len() - i,
    {
        r.push(tys[i].to_string());
        i += 1;
    }
    r
}

fn of_ast_all(tys: &Vec<Box<AstTy>>) -> (r: Vec<IrTy>)
    requires
        forall|j: int| 0 <= j < tys@.len() ==> (#[trigger] tys@[j]).resolved(),
    ensures
        r@.len() == tys@.len(),
        forall|j: int| 0 <= j < tys@.len() ==> r@[j]@ == tys@[j].ir_shape(),
    decreases tys,
{
    let mut r: Vec<IrTy> = Vec::new();
    let mut i: usize = 0;
    while i < tys.len()
        invariant
            i <= tys.len(),
            r.len() == i,
            forall|j: int| 0 <= j < tys@.len() ==> (#[trigger] tys@[j]).resolved(),
            forall|j: int| 0 <= j < i ==> r@[j]@ == tys@[j].ir_shape(),
        decreases tys.len() - i,
    {
        r.push(IrTy::of_ast(&tys[i]));
        i += 1;
    }
    r
}

fn same_all(a: &Vec<IrTy>, b: &Vec<IrTy>) -> (r: bool)
    ensures
        r == (a@.len() == b@.len() && forall|j: int| 0 <= j < a@.len() ==> a@[j]@ == b@[j]@),
    decreases a,
{
    if a.len() != b.len() {
        return false;
    }
    let mut i: usize = 0;
    while i < a.len()
        invariant
            i <= a.len(),
            a.len() == b.len(),
            forall|j: int| 0 <= j < i ==> a@[j]@ == b@[j]@,
        decreases a.len() - i,
    {
        if !a[i].same(&b[i]) {
            return false;
        }
        i += 1;
    }
    true
}

} // verus!
