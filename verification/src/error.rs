//! The error taxonomy of evaluation and quotation compilation, and its
//! mathematical model.
use vstd::prelude::*;
use vstd::string::StringExecFns;
use crate::term::Variable;

verus! {

/// What went wrong.  Evaluation fails fast: the first error aborts the run
/// and is returned to the caller; no partial results are produced.
#[derive(Debug, PartialEq)]
pub enum ErrorKind {
    /// The function position of an application did not reduce to a lambda.
    NotAFunction,
    /// The scrutinee of a `case` did not reduce to a constructor value.
    NotAConstructor,
    /// No branch of a `case` names the scrutinee's constructor.
    NoMatchingBranch,
    /// The matched branch binds more or fewer variables than the constructor
    /// value has arguments.
    ArityMismatch,
    /// A free variable was reached; evaluation requires closed terms.
    UnboundVariable(Variable),
    /// The step budget ran out; the term is assumed not to terminate.
    DepthExceeded,
    /// A quoted payload contained another quotation node.
    NestedQuotation,
}

/// An error raised by evaluation or by the quotation compiler.
#[derive(Debug, PartialEq)]
pub struct Error {
    pub kind: ErrorKind,
}

/// The mathematical model of an error.
pub enum SpecError {
    NotAFunction,
    NotAConstructor,
    NoMatchingBranch,
    ArityMismatch,
    UnboundVariable(Seq<char>),
    DepthExceeded,
    NestedQuotation,
}

impl View for ErrorKind {
    type V = SpecError;

    open spec fn view(&self) -> SpecError {
        match self {
            ErrorKind::NotAFunction => SpecError::NotAFunction,
            ErrorKind::NotAConstructor => SpecError::NotAConstructor,
            ErrorKind::NoMatchingBranch => SpecError::NoMatchingBranch,
            ErrorKind::ArityMismatch => SpecError::ArityMismatch,
            ErrorKind::UnboundVariable(x) => SpecError::UnboundVariable(x@),
            ErrorKind::DepthExceeded => SpecError::DepthExceeded,
            ErrorKind::NestedQuotation => SpecError::NestedQuotation,
        }
    }
}

impl View for Error {
    type V = SpecError;

    open spec fn view(&self) -> SpecError {
        self.kind@
    }
}

/// The terminal message each error renders to.
pub open spec fn message_spec(k: SpecError) -> Seq<char> {
    match k {
        SpecError::NotAFunction => "LHS of application must be a lambda expression"@,
        SpecError::NotAConstructor => "Expected constructor in case expression"@,
        SpecError::NoMatchingBranch => "No matching constructor name"@,
        SpecError::ArityMismatch => "Constructor application in branch has wrong arity"@,
        SpecError::UnboundVariable(x) => "Not a closed expression, variable '"@ + x
            + "' is not bound."@,
        SpecError::DepthExceeded => "Exceeded max depth, expression is assumed to not terminate"@,
        SpecError::NestedQuotation => "Nested coded literals are not supported"@,
    }
}

impl Error {
    /// The single terminal message this error renders to.
    pub fn message(&self) -> (r: String)
        ensures
            r@ == message_spec(self@),
    {
        match &self.kind {
            ErrorKind::NotAFunction => String::from_str(
                "LHS of application must be a lambda expression",
            ),
            ErrorKind::NotAConstructor => String::from_str(
                "Expected constructor in case expression",
            ),
            ErrorKind::NoMatchingBranch => String::from_str("No matching constructor name"),
            ErrorKind::ArityMismatch => String::from_str(
                "Constructor application in branch has wrong arity",
            ),
            ErrorKind::UnboundVariable(x) => {
                let mut s = String::from_str("Not a closed expression, variable '");
                s.append(x.0.as_str());
                s.append("' is not bound.");
                s
            }
            ErrorKind::DepthExceeded => String::from_str(
                "Exceeded max depth, expression is assumed to not terminate",
            ),
            ErrorKind::NestedQuotation => String::from_str(
                "Nested coded literals are not supported",
            ),
        }
    }
}

} // verus!
