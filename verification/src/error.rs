//! The evaluator's error taxonomy. Every evaluation step either succeeds or
//! returns one of these errors; the first error aborts a block evaluation.

use vstd::prelude::*;
use vstd::string::StringExecFns;

verus! {

/// Why an evaluation step failed.
#[derive(Debug, Clone, PartialEq, Eq)]
pub enum EvalError {
    /// Lookup of a place that was never bound.
    NotFound(String),
    /// Lookup of a place that is bound but still holds the `Undefined` sentinel.
    UndefinedRead(String),
    /// Dereference of a value that is not a reference.
    TypeMismatch,
    /// A statement or expression shape outside the supported grammar subset.
    UnsupportedConstruct,
}

/// The mathematical model of an `EvalError`, over character sequences.
pub enum ErrorV {
    NotFound(Seq<char>),
    UndefinedRead(Seq<char>),
    TypeMismatch,
    UnsupportedConstruct,
}

impl View for EvalError {
    type V = ErrorV;

    open spec fn view(&self) -> ErrorV {
        match self {
            EvalError::NotFound(p) => ErrorV::NotFound(p@),
            EvalError::UndefinedRead(p) => ErrorV::UndefinedRead(p@),
            EvalError::TypeMismatch => ErrorV::TypeMismatch,
            EvalError::UnsupportedConstruct => ErrorV::UnsupportedConstruct,
        }
    }
}

/// Lifts a result to the mathematical model of both of its sides.
pub open spec fn res_view<T: View, E: View>(r: Result<T, E>) -> Result<T::V, E::V> {
    match r {
        Result::Ok(t) => Result::Ok(t.view()),
        Result::Err(e) => Result::Err(e.view()),
    }
}

/// Lifts a result without payload to the mathematical model of its error side.
pub open spec fn unit_res_view<E: View>(r: Result<(), E>) -> Result<(), E::V> {
    match r {
        Result::Ok(_) => Result::Ok(()),
        Result::Err(e) => Result::Err(e.view()),
    }
}

/// The diagnostic message of an error.
pub open spec fn render_error_s(e: ErrorV) -> Seq<char> {
    match e {
        ErrorV::NotFound(p) => "cannot find place: "@ + p,
        ErrorV::UndefinedRead(p) => "attempting to read undefined place: "@ + p,
        ErrorV::TypeMismatch => "cannot dereference a non-reference value"@,
        ErrorV::UnsupportedConstruct => "unsupported construct"@,
    }
}

impl EvalError {
    /// Diagnostic message for this error.
    pub fn render(&self) -> (r: String)
        ensures
            r@ == render_error_s(self@),
    {
        match self {
            EvalError::NotFound(p) => {
                let mut s = String::from_str("cannot find place: ");
                s.append(p.as_str());
                s
            },
            EvalError::UndefinedRead(p) => {
                let mut s = String::from_str("attempting to read undefined place: ");
                s.append(p.as_str());
                s
            },
            EvalError::TypeMismatch => String::from_str("cannot dereference a non-reference value"),
            EvalError::UnsupportedConstruct => String::from_str("unsupported construct"),
        }
    }
}

} // verus!
