//! Module-level variables.

use crate::compiler::ir::value::constant::Constant;
use crate::compiler::ir::value::ty::{IrTy, TyShape};
use crate::compiler::ir::value::value::Value;
use vstd::prelude::*;

verus! {

/// A variable of a module. Its type is that of the value it stores.
#[derive(Debug)]
pub struct Global {
    pub name: String,
    pub ty: IrTy,
    pub init: Option<Constant>,
}

impl Global {
    pub fn new(name: &str, ty: IrTy, init: Option<Constant>) -> (r: Global)
        ensures
            r.name@ == name@,
            r.ty == ty,
            r.init == init,
    {
        Global { name: name.to_owned(), ty, init }
    }
}

impl Value for Global {
    open spec fn ty_shape(&self) -> TyShape {
        self.ty@
    }

    fn get_ty(&self) -> (r: IrTy) {
        self.ty.clone()
    }
}

/// A parameter of a function: its type and where it stands in the list.
#[derive(Debug)]
pub struct Param {
    pub ty: IrTy,
    pub position: usize,
}

impl Value for Param {
    open spec fn ty_shape(&self) -> TyShape {
        self.ty@
    }

    fn get_ty(&self) -> (r: IrTy) {
        self.ty.clone()
    }
}

impl Clone for Param {
    fn clone(&self) -> (r: Param)
        ensures
            r.ty@ == self.ty@,
            r.position == self.position,
    {
        Param { ty: self.ty.clone(), position: self.position }
    }
}

} // verus!
