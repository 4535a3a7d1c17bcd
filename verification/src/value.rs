//! The closed set of runtime values the evaluator can produce and store.

use vstd::prelude::*;
use vstd::string::StringExecFns;

verus! {

/// The name identifying a storage location in the environment.
pub type Place = String;

/// A runtime value. `Ref` names another place and does not snapshot its
/// content: dereferencing re-reads the referent at the moment of access.
#[derive(Debug, Clone, PartialEq, Eq)]
pub enum Value {
    /// The result of an assignment or any expression without a meaningful result.
    Unit,
    /// An integer literal, kept in its textual form.
    Lit(String),
    /// An indirect value naming another place.
    Ref(Place),
    /// Sentinel bound to a declared name that has no initializer yet.
    Undefined,
}

/// The mathematical model of a `Value`, over character sequences.
pub enum ValueV {
    Unit,
    Lit(Seq<char>),
    Ref(Seq<char>),
    Undefined,
}

impl View for Value {
    type V = ValueV;

    open spec fn view(&self) -> ValueV {
        match self {
            Value::Unit => ValueV::Unit,
            Value::Lit(t) => ValueV::Lit(t@),
            Value::Ref(p) => ValueV::Ref(p@),
            Value::Undefined => ValueV::Undefined,
        }
    }
}

/// The diagnostic text of a value: a literal prints its own text, a reference
/// to place `p` prints `&p`, unit prints `()`, the sentinel prints `undefined`.
pub open spec fn render_value_s(v: ValueV) -> Seq<char> {
    match v {
        ValueV::Unit => "()"@,
        ValueV::Lit(t) => t,
        ValueV::Ref(p) => "&"@ + p,
        ValueV::Undefined => "undefined"@,
    }
}

impl Value {
    /// An explicit copy whose specification is known to the verifier.
    pub fn duplicate(&self) -> (r: Value)
        ensures
            r == *self,
    {
        match self {
            Value::Unit => Value::Unit,
            Value::Lit(t) => Value::Lit(t.clone()),
            Value::Ref(p) => Value::Ref(p.clone()),
            Value::Undefined => Value::Undefined,
        }
    }

    /// Diagnostic text for this value.
    pub fn render(&self) -> (r: String)
        ensures
            r@ == render_value_s(self@),
    {
        match self {
            Value::Unit => String::from_str("()"),
            Value::Lit(t) => t.clone(),
            Value::Ref(p) => {
                let mut s = String::from_str("&");
                s.append(p.as_str());
                s
            },
            Value::Undefined => String::from_str("undefined"),
        }
    }
}

} // verus!
