//! The byte boundary: the low-level CBOR reader and writer are outside
//! collaborators, reached through the trusted wrappers in this module.
//!
//! `bytes_of` names the canonical bytes the writer produces for a tree; the
//! strict reader accepts exactly such canonical encodings, and the wrappers'
//! contracts state no more than the byte codec's source shows.
use vstd::prelude::*;

use oasis_cbor_value::SimpleValue as RawSimpleValue;
use oasis_cbor_value::Value as RawValue;

use crate::values::{nest, tree_wf, Tree, Value};
use crate::DecodeError;

verus! {

#[verifier::external_type_specification]
#[verifier::external_body]
pub struct ExValue(RawValue);

#[verifier::external_type_specification]
#[verifier::external_body]
pub struct ExSimpleValue(RawSimpleValue);

/// The canonical CBOR bytes of a tree: what the byte writer emits for it.
pub uninterp spec fn bytes_of(t: Tree) -> Seq<u8>;

/// What the lenient byte reader makes of a byte string under the given
/// nesting budget.
pub uninterp spec fn lenient_tree_of(data: Seq<u8>, max_nest: int) -> Option<Tree>;

/// Converts a simple value into the byte codec's form; used only by the
/// wrappers below.
#[verifier::external_body]
fn ext_of_simple(s: crate::values::SimpleValue) -> RawSimpleValue {
    match s {
        crate::values::SimpleValue::FalseValue => oasis_cbor_value::SimpleValue::FalseValue,
        crate::values::SimpleValue::TrueValue => oasis_cbor_value::SimpleValue::TrueValue,
        crate::values::SimpleValue::NullValue => oasis_cbor_value::SimpleValue::NullValue,
        crate::values::SimpleValue::Undefined => oasis_cbor_value::SimpleValue::Undefined,
    }
}

/// Converts the byte codec's simple value into the library's; used only by
/// the wrappers below.
#[verifier::external_body]
fn simple_of_ext(s: RawSimpleValue) -> crate::values::SimpleValue {
    match s {
        oasis_cbor_value::SimpleValue::FalseValue => crate::values::SimpleValue::FalseValue,
        oasis_cbor_value::SimpleValue::TrueValue => crate::values::SimpleValue::TrueValue,
        oasis_cbor_value::SimpleValue::NullValue => crate::values::SimpleValue::NullValue,
        oasis_cbor_value::SimpleValue::Undefined => crate::values::SimpleValue::Undefined,
    }
}

/// Converts a value into the byte codec's tree, variant by variant, moving
/// each field; used only by the wrappers below.
#[verifier::external_body]
fn ext_of_value(v: Value) -> RawValue {
    match v {
        Value::Unsigned(n) => oasis_cbor_value::Value::Unsigned(n),
        Value::Negative(n) => oasis_cbor_value::Value::Negative(n),
        Value::ByteString(b) => oasis_cbor_value::Value::ByteString(b),
        Value::TextString(s) => oasis_cbor_value::Value::TextString(s),
        Value::Array(a) => oasis_cbor_value::Value::Array(
            a.into_iter().map(ext_of_value).collect(),
        ),
        Value::Mapping(m) => oasis_cbor_value::Value::Map(
            m.into_iter().map(|(k, w)| (ext_of_value(k), ext_of_value(w))).collect(),
        ),
        Value::Tag(t, b) => oasis_cbor_value::Value::Tag(t, Box::new(ext_of_value(*b))),
        Value::Simple(s) => oasis_cbor_value::Value::Simple(ext_of_simple(s)),
    }
}

/// Converts the byte codec's tree into the library's value, variant by
/// variant, moving each field; used only by the wrappers below.
#[verifier::external_body]
fn value_of_ext(v: RawValue) -> Value {
    match v {
        oasis_cbor_value::Value::Unsigned(n) => Value::Unsigned(n),
        oasis_cbor_value::Value::Negative(n) => Value::Negative(n),
        oasis_cbor_value::Value::ByteString(b) => Value::ByteString(b),
        oasis_cbor_value::Value::TextString(s) => Value::TextString(s),
        oasis_cbor_value::Value::Array(a) => Value::Array(
            a.into_iter().map(value_of_ext).collect(),
        ),
        oasis_cbor_value::Value::Map(m) => Value::Mapping(
            m.into_iter().map(|(k, w)| (value_of_ext(k), value_of_ext(w))).collect(),
        ),
        oasis_cbor_value::Value::Tag(t, b) => Value::Tag(t, Box::new(value_of_ext(*b))),
        oasis_cbor_value::Value::Simple(s) => Value::Simple(simple_of_ext(s)),
    }
}

/// Relies on oasis_cbor_value::writer::write: emits the canonical CBOR bytes
/// of the value, writing already-sorted maps in their order; on well-formed
/// trees within the writer's nesting budget it cannot fail.
#[verifier::external_body]
pub(crate) fn write_value(v: Value) -> (r: Vec<u8>)
    requires
        tree_wf(v.dv()),
        nest(v.dv()) <= 128,
    ensures
        r@ == bytes_of(v.dv()),
{
    let mut out: Vec<u8> = Vec::new();
    match oasis_cbor_value::writer::write(ext_of_value(v), &mut out) {
        Ok(()) => out,
        Err(_) => out,
    }
}

/// Relies on oasis_cbor_value::reader::read_nested: strict parsing that
/// accepts exactly the canonical encodings of well-formed trees within the
/// nesting budget, and returns the tree so encoded.
#[verifier::external_body]
pub(crate) fn read_value_strict(data: &[u8], max_nest: i8) -> (r: Result<Value, DecodeError>)
    requires
        max_nest >= 0,
    ensures
        match r {
            Result::Ok(v) => tree_wf(v.dv()) && nest(v.dv()) <= max_nest as nat + 1 && bytes_of(
                v.dv(),
            ) == data@ && (forall|t: Tree|
                tree_wf(t) && bytes_of(t) == data@ ==> t == v.dv()),
            Result::Err(e) => e == DecodeError::ParsingFailed && (forall|t: Tree|
                tree_wf(t) && nest(t) <= max_nest as nat + 1 ==> bytes_of(t) != data@),
        },
{
    match oasis_cbor_value::reader::read_nested(data, Some(max_nest)) {
        Ok(v) => Ok(value_of_ext(v)),
        Err(_) => Err(DecodeError::ParsingFailed),
    }
}

/// Relies on oasis_cbor_value::reader::read_nested_non_strict: lenient
/// parsing whose result is a function of the bytes and the nesting budget
/// alone, named by `lenient_tree_of`.
#[verifier::external_body]
pub(crate) fn read_value_non_strict(data: &[u8], max_nest: i8) -> (r: Result<Value, DecodeError>)
    requires
        max_nest >= 0,
    ensures
        match r {
            Result::Ok(v) => lenient_tree_of(data@, max_nest as int) == Some(v.dv()),
            Result::Err(e) => e == DecodeError::ParsingFailed && lenient_tree_of(
                data@,
                max_nest as int,
            ) is None,
        },
{
    match oasis_cbor_value::reader::read_nested_non_strict(data, Some(max_nest)) {
        Ok(v) => Ok(value_of_ext(v)),
        Err(_) => Err(DecodeError::ParsingFailed),
    }
}

} // verus!
