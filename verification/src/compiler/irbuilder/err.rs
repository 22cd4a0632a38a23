//! What can go wrong while the IR is built.

use crate::compiler::ir::value::ty::{IrTy, TyShape};
use vstd::prelude::*;

verus! {

/// The mathematical shape of an error: what two errors are compared by.
#[allow(inconsistent_fields)]
pub enum ErrorShape {
    TypeMismatch { expected: TyShape, found: TyShape },
    UnknownName(Seq<char>),
    DuplicateName(Seq<char>),
    WrongParamLength { expected: usize, found: usize },
    ExpectedFunction(Seq<char>),
    NoCause,
}

/// An error of the IR builder. The first one ends the build.
#[derive(Debug)]
#[allow(inconsistent_fields)]
pub enum Error {
    /// An operand's type is not what its context asks for.
    TypeMismatch { expected: IrTy, found: IrTy },
    /// The identifier is bound in no open scope.
    UnknownName(String),
    /// The identifier is already bound in the innermost scope.
    DuplicateName(String),
    /// A call passes another number of arguments than the callee declares.
    WrongParamLength { expected: usize, found: usize },
    /// The target of a call is bound to something that is no function.
    ExpectedFunction(String),
    /// No specific cause: a limit of the builder itself was met.
    NoCause,
}

impl View for Error {
    type V = ErrorShape;

    open spec fn view(&self) -> ErrorShape {
        match self {
            Error::TypeMismatch { expected, found } => ErrorShape::TypeMismatch {
                expected: expected@,
                found: found@,
            },
            Error::UnknownName(name) => ErrorShape::UnknownName(name@),
            Error::DuplicateName(name) => ErrorShape::DuplicateName(name@),
            Error::WrongParamLength { expected, found } => ErrorShape::WrongParamLength {
                expected: *expected,
                found: *found,
            },
            Error::ExpectedFunction(name) => ErrorShape::ExpectedFunction(name@),
            Error::NoCause => ErrorShape::NoCause,
        }
    }
}

} // verus!
