//! The dynamically-typed value used for generic fields: a closed tagged
//! union over integer, float and text payloads. It is consumed by the
//! storage core only as a field payload; float payloads are carried as
//! their raw 32-bit pattern so the core itself stays in integer arithmetic.
use vstd::prelude::*;

verus! {

#[derive(Clone, Debug)]
pub enum AnyValue {
    Int(isize),
    /// The bit pattern of a 32-bit float.
    Float(u32),
    String(String),
}

impl AnyValue {
    /// A copy of the value whose equality to the original is known to the
    /// verifier, unlike the derived `Clone`.
    pub fn duplicate(&self) -> (r: AnyValue)
        ensures
            r == *self,
    {
        match self {
            AnyValue::Int(v) => AnyValue::Int(*v),
            AnyValue::Float(v) => AnyValue::Float(*v),
            AnyValue::String(s) => AnyValue::String(s.clone()),
        }
    }
}

impl PartialEq for AnyValue {
    fn eq(&self, other: &AnyValue) -> (r: bool) {
        match (self, other) {
            (AnyValue::Int(a), AnyValue::Int(b)) => *a == *b,
            (AnyValue::Float(a), AnyValue::Float(b)) => *a == *b,
            (AnyValue::String(a), AnyValue::String(b)) => *a == *b,
            _ => false,
        }
    }
}

impl vstd::std_specs::cmp::PartialEqSpecImpl for AnyValue {
    open spec fn obeys_eq_spec() -> bool {
        true
    }

    open spec fn eq_spec(&self, other: &AnyValue) -> bool {
        match (self, other) {
            (AnyValue::Int(a), AnyValue::Int(b)) => a == b,
            (AnyValue::Float(a), AnyValue::Float(b)) => a == b,
            (AnyValue::String(a), AnyValue::String(b)) => a@ == b@,
            _ => false,
        }
    }
}

} // verus!
