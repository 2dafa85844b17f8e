//! The value-holding core of the compatibility layer for general-purpose
//! serialization frameworks: a deserializer is a decoded CBOR value waiting
//! to be driven by the framework's visitors.  The framework-trait adapters
//! themselves live outside the verified library.
use vstd::prelude::*;

use crate::values::{Tree, Value};

verus! {

/// A deserializer over a decoded CBOR value.
pub struct Deserializer {
    value: Value,
}

impl Deserializer {
    /// The tree the deserializer will produce values from.
    pub closed spec fn tree(&self) -> Tree {
        self.value.dv()
    }

    /// Wrap a decoded CBOR value for deserialization.
    pub fn from_cbor_value(input: Value) -> (r: Self)
        ensures
            r.tree() == input.dv(),
    {
        Deserializer { value: input }
    }

    /// Take the held value back out.
    pub fn into_cbor_value(self) -> (r: Value)
        ensures
            r.dv() == self.tree(),
    {
        self.value
    }
}

} // verus!
