//! Compile-time constants and how the listing writes them.

use crate::compiler::ir::text::{decimal, decimal_text, join, join_texts};
use crate::compiler::ir::value::ty::{ty_text, IrTy, TyShape, INT_BITS};
use crate::compiler::ir::value::value::Value;
use crate::compiler::syntax::ast::{LiteralExpr, LiteralKind};
use itertools::Itertools;
use vstd::prelude::*;
use vstd::string::*;

verus! {

/// The mathematical shape of a constant.
pub enum ConstShape {
    Int(i32),
    Array(TyShape, Seq<ConstShape>),
}

/// A value known at compile time.
#[derive(Debug)]
pub enum Constant {
    /// A 32-bit signed integer.
    Int(i32),
    /// An array: its type as declared, and its elements as written.
    Array(IrTy, Vec<Box<Constant>>),
}

/// How the listing writes a constant: an integer as `i32` and its decimal
/// value; an array in square brackets, its type first, then `zeroinitializer`
/// if it has no elements, else the elements separated by a comma and a space.
pub open spec fn const_text(c: ConstShape) -> Seq<char>
    decreases c,
{
    match c {
        ConstShape::Int(x) => "i32 "@ + decimal_text(x as int),
        ConstShape::Array(ty, elems) => if elems.len() == 0 {
            "["@ + ty_text(ty) + " zeroinitializer]"@
        } else {
            "["@ + ty_text(ty) + " "@ + join_texts(const_texts(elems), ", "@) + "]"@
        },
    }
}

/// The listing texts of a list of constants, element by element.
pub open spec fn const_texts(cs: Seq<ConstShape>) -> Seq<Seq<char>>
    decreases cs,
{
    Seq::new(
        cs.len(),
        |i: int|
            if 0 <= i < cs.len() {
                const_text(cs[i])
            } else {
                Seq::empty()
            },
    )
}

impl LiteralExpr {
    /// The constant that a literal stands for. An array keeps the elements
    /// that were written, whatever length was declared.
    pub open spec fn const_shape(&self) -> ConstShape
        decreases self,
    {
        match self.kind {
            LiteralKind::Integer(x) => ConstShape::Int(x),
            LiteralKind::Array(_, vals) => ConstShape::Array(
                self.ty.ir_shape(),
                Seq::new(
                    vals@.len(),
                    |i: int|
                        if 0 <= i < vals@.len() {
                            vals@[i].const_shape()
                        } else {
                            ConstShape::Int(0)
                        },
                ),
            ),
        }
    }
}

impl Constant {
    pub open spec fn shape(&self) -> ConstShape
        decreases self,
    {
        match self {
            Constant::Int(x) => ConstShape::Int(*x),
            Constant::Array(ty, elems) => ConstShape::Array(
                ty@,
                Seq::new(
                    elems@.len(),
                    |i: int|
                        if 0 <= i < elems@.len() {
                            elems@[i].shape()
                        } else {
                            ConstShape::Int(0)
                        },
                ),
            ),
        }
    }

    /// The constant that a literal stands for.
    pub fn from(literal: LiteralExpr) -> (r: Constant)
        requires
            literal.typed(),
        ensures
            r@ == literal.const_shape(),
    {
        Constant::of_literal(&literal)
    }

    /// The constant that a literal stands for, the literal staying with its
    /// owner.
    pub fn of_literal(literal: &LiteralExpr) -> (r: Constant)
        requires
            literal.typed(),
        ensures
            r@ == literal.const_shape(),
        decreases literal,
    {
        match &literal.kind {
            LiteralKind::Integer(x) => Constant::Int(*x),
            LiteralKind::Array(_, vals) => {
                let elems = boxed(of_literals(vals));
                let r = Constant::Array(IrTy::of_ast(&literal.ty), elems);
                assert(r@->Array_1 =~= literal.const_shape()->Array_1);
                r
            },
        }
    }

    /// Renders the constant as the listing writes it.
    pub fn to_string(&self) -> (r: String)
        ensures
            r@ == const_text(self@),
        decreases self,
    {
        match self {
            Constant::Int(x) => {
                let mut r = String::from_str("i32 ");
                r.append(decimal(*x as i128).as_str());
                r
            },
            Constant::Array(ty, elems) => {
                let mut r = String::from_str("[");
                r.append(ty.to_string().as_str());
                if elems.len() == 0 {
                    r.append(" zeroinitializer]");
                } else {
                    r.append(" ");
                    let texts = texts_of(elems);
                    r.append(join(&texts, ", ").as_str());
                    r.append("]");
                    proof {
                        let got = Seq::new(texts@.len(), |i: int| texts@[i]@);
                        assert(got =~= const_texts(self@->Array_1));
                    }
                }
                r
            },
        }
    }
}

impl View for Constant {
    type V = ConstShape;

    open spec fn view(&self) -> ConstShape {
        self.shape()
    }
}

impl Value for Constant {
    open spec fn ty_shape(&self) -> TyShape {
        match self {
            Constant::Int(_) => TyShape::Int(INT_BITS),
            Constant::Array(ty, _) => ty@,
        }
    }

    fn get_ty(&self) -> (r: IrTy) {
        match self {
            Constant::Int(_) => IrTy::Int(INT_BITS),
            Constant::Array(ty, _) => ty.clone(),
        }
    }
}

impl Clone for Constant {
    fn clone(&self) -> (r: Constant)
        ensures
            r@ == self@,
        decreases self,
    {
        match self {
            Constant::Int(x) => Constant::Int(*x),
            Constant::Array(ty, elems) => {
                let r = Constant::Array(ty.clone(), boxed(clone_all(elems)));
                assert(r@->Array_1 =~= self@->Array_1);
                r
            },
        }
    }
}

/// Puts each constant of a list in a box of its own. The body maps
/// `Box::new` over the list and gathers the boxes with itertools'
/// `collect_vec`; the contract claims that the boxes come out in the order of
/// the list, one for each constant.
#[verifier::external_body]
fn boxed(items: Vec<Constant>) -> (r: Vec<Box<Constant>>)
    ensures
        r@.len() == items@.len(),
        forall|i: int| 0 <= i < items@.len() ==> *r@[i] == items@[i],
{
    items.into_iter().map(Box::new).collect_vec()
}

fn of_literals(vals: &Vec<LiteralExpr>) -> (r: Vec<Constant>)
    requires
        forall|i: int| 0 <= i < vals@.len() ==> (#[trigger] vals@[i]).typed(),
    ensures
        r@.len() == vals@.len(),
        forall|i: int| 0 <= i < vals@.len() ==> r@[i]@ == vals@[i].const_shape(),
    decreases vals,
{
    let mut r: Vec<Constant> = Vec::new();
    let mut i: usize = 0;
    while i < vals.len()
        invariant
            i <= vals.len(),
            r.len() == i,
            forall|j: int| 0 <= j < vals@.len() ==> (#[trigger] vals@[j]).typed(),
            forall|j: int| 0 <= j < i ==> r@[j]@ == vals@[j].const_shape(),
        decreases vals.len() - i,
    {
        r.push(Constant::of_literal(&vals[i]));
        i += 1;
    }
    r
}

fn clone_all(elems: &Vec<Box<Constant>>) -> (r: Vec<Constant>)
    ensures
        r@.len() == elems@.len(),
        forall|i: int| 0 <= i < elems@.len() ==> r@[i]@ == elems@[i]@,
    decreases elems,
{
    let mut r: Vec<Constant> = Vec::new();
    let mut i: usize = 0;
    while i < elems.len()
        invariant
            i <= elems.len(),
            r.len() == i,
            forall|j: int| 0 <= j < i ==> r@[j]@ == elems@[j]@,
        decreases elems.len() - i,
    {
        r.push((*elems[i]).clone());
        i += 1;
    }
    r
}

fn texts_of(elems: &Vec<Box<Constant>>) -> (r: Vec<String>)
    ensures
        r@.len() == elems@.len(),
        forall|i: int| 0 <= i < elems@.len() ==> r@[i]@ == const_text(elems@[i]@),
    decreases elems,
{
    let mut r: Vec<String> = Vec::new();
    let mut i: usize = 0;
    while i < elems.len()
        invariant
            i <= elems.len(),
            r.len() == i,
            forall|j: int| 0 <= j < i ==> r@[j]@ == const_text(elems@[j]@),
        decreases elems.len() - i,
    {
        r.push(elems[i].to_string());
        i += 1;
    }
    r
}

} // verus!
