//! Compilation errors. Every kind is fatal: a compilation either produces
//! one complete document or fails with one of these.

use vstd::prelude::*;

verus! {

/// A fatal compilation error.
#[derive(Debug)]
pub enum CompileError {
    /// An unterminated string literal.
    Lex,
    /// A token where the grammar expects another; carries the token's text.
    Syntax { found: String },
    /// A label or an object references a type that is not defined, even
    /// after import resolution.
    UnknownType { name: String },
    /// A required field of an object's type was left unset.
    MissingRequiredField { field: String, object: String },
    /// An imported file could not be read.
    ImportIo { path: String },
    /// The import graph contains a cycle through this path.
    ImportCycle { path: String },
}

/// The mathematical model of a compilation error.
#[verifier::ext_equal]
pub ghost enum ErrorModel {
    Lex,
    Syntax { found: Seq<char> },
    UnknownType { name: Seq<char> },
    MissingRequiredField { field: Seq<char>, object: Seq<char> },
    ImportIo { path: Seq<char> },
    ImportCycle { path: Seq<char> },
}

impl View for CompileError {
    type V = ErrorModel;

    open spec fn view(&self) -> ErrorModel {
        match self {
            CompileError::Lex => ErrorModel::Lex,
            CompileError::Syntax { found } => ErrorModel::Syntax { found: found@ },
            CompileError::UnknownType { name } => ErrorModel::UnknownType { name: name@ },
            CompileError::MissingRequiredField { field, object } => {
                ErrorModel::MissingRequiredField { field: field@, object: object@ }
            },
            CompileError::ImportIo { path } => ErrorModel::ImportIo { path: path@ },
            CompileError::ImportCycle { path } => ErrorModel::ImportCycle { path: path@ },
        }
    }
}

} // verus!
