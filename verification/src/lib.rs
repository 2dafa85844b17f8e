//! Schema-driven CBOR serialization: deterministic, canonically ordered
//! encoding and a strict map-destructuring decoder.
//!
//! Typed values are converted to and from an intermediate [`values::Value`]
//! tree; the low-level byte reader and writer are outside collaborators,
//! reached only through the trusted wrappers of the `io` module.
pub mod codec;
pub mod containers;
pub mod decode;
pub mod encode;
mod io;
pub mod macros;
pub mod schema;
pub mod serde;
pub mod values;

pub use crate::decode::{Decode, EncodeNonNull, Lossless};
pub use crate::encode::{Encode, EncodeAsMap};
pub use crate::values::{SimpleValue, Value};
pub use vstd::prelude::DeepView;

use vstd::prelude::*;

use crate::decode::{dec_default_spec, res_model};
use crate::io::{bytes_of, lenient_tree_of};
use crate::values::{nest, tree_wf, Tree};

verus! {

/// Maximum nesting level allowed when decoding from CBOR.
pub const MAX_NESTING_LEVEL: i8 = 64;

/// Error encountered during decoding.
#[derive(Clone, Copy, Debug, PartialEq, Eq, Structural)]
pub enum DecodeError {
    ParsingFailed,
    UnexpectedType,
    MissingField,
    UnknownField,
    UnexpectedIntegerSize,
}

/// Convert CBOR-encoded data into the given type.
///
/// The bytes are parsed strictly: exactly the canonical encodings of
/// well-formed trees within the nesting budget are accepted, and the tree so
/// encoded is decoded through the default-recovery entry point.
pub fn from_slice<T: Decode>(data: &[u8]) -> (r: Result<T, DecodeError>)
    ensures
        forall|t: Tree|
            tree_wf(t) && nest(t) <= MAX_NESTING_LEVEL as nat + 1 && bytes_of(t) == data@
                ==> res_model(r) == dec_default_spec::<T>(t),
        (forall|t: Tree|
            tree_wf(t) && nest(t) <= MAX_NESTING_LEVEL as nat + 1 ==> bytes_of(t) != data@)
            ==> r == Result::<T, DecodeError>::Err(DecodeError::ParsingFailed),
{
    match io::read_value_strict(data, MAX_NESTING_LEVEL) {
        Result::Ok(v) => T::try_from_cbor_value_default(v),
        Result::Err(e) => Err(e),
    }
}

/// Convert CBOR-encoded data into the given type using non-strict decoding.
///
/// The bytes are parsed leniently, every map in the resulting tree is
/// re-sorted into canonical order, and the result is decoded as in
/// [`from_slice`].
pub fn from_slice_non_strict<T: Decode>(data: &[u8]) -> (r: Result<T, DecodeError>)
    ensures
        res_model(r) == (match lenient_tree_of(data@, MAX_NESTING_LEVEL as int) {
            Option::Some(t) => dec_default_spec::<T>(crate::codec::canon_spec(t)),
            Option::None => Result::<T::V, DecodeError>::Err(DecodeError::ParsingFailed),
        }),
{
    match io::read_value_non_strict(data, MAX_NESTING_LEVEL) {
        Result::Ok(v) => T::try_from_cbor_value_default(crate::codec::canonicalize(v)),
        Result::Err(e) => Err(e),
    }
}

/// Convert high-level CBOR representation into the given type.
///
/// This is the same as calling `T::try_from_cbor_value_default(value)`.
pub fn from_value<T: Decode>(value: Value) -> (r: Result<T, DecodeError>)
    ensures
        res_model(r) == dec_default_spec::<T>(value.dv()),
{
    T::try_from_cbor_value_default(value)
}

/// Convert the given type into its CBOR-encoded representation.
///
/// The bytes depend only on the mathematical content of the value, so two
/// runs over equal values produce identical bytes.
pub fn to_vec<T: Encode>(value: T) -> (r: Vec<u8>)
    requires
        tree_wf(T::enc_spec(value.deep_view())),
        nest(T::enc_spec(value.deep_view())) <= 128,
    ensures
        r@ == bytes_of(T::enc_spec(value.deep_view())),
{
    io::write_value(value.into_cbor_value())
}

/// Convert the given type into its high-level CBOR representation.
///
/// This is the same as calling `value.into_cbor_value()`.
pub fn to_value<T: Encode>(value: T) -> (r: Value)
    ensures
        r.dv() == T::enc_spec(value.deep_view()),
{
    value.into_cbor_value()
}

/// Byte-level round trip: for every value of a non-lossy type within the
/// decoder's nesting budget, `from_slice(to_vec(v))` returns `v` itself.
pub fn decode_encoded<T: Lossless>(value: T) -> (r: T)
    requires
        nest(T::enc_spec(value.deep_view())) <= MAX_NESTING_LEVEL as nat + 1,
    ensures
        r.deep_view() == value.deep_view(),
{
    proof {
        crate::decode::lemma_round_trip_default::<T>(value.deep_view());
    }
    let ghost t = T::enc_spec(value.deep_view());
    let data = to_vec(value);
    match from_slice::<T>(data.as_slice()) {
        Result::Ok(x) => x,
        Result::Err(_) => {
            proof {
                assert(false);
            }
            vstd::pervasive::unreached()
        },
    }
}

/// Canonical stability: any strictly readable byte string re-encodes to
/// itself, so in particular re-encoding any output of `to_vec` yields
/// identical bytes; exactly the canonical encodings within the nesting
/// budget succeed.
pub fn reencode(data: &[u8]) -> (r: Result<Vec<u8>, DecodeError>)
    ensures
        match r {
            Result::Ok(out) => out@ == data@ && (exists|t: Tree|
                tree_wf(t) && nest(t) <= MAX_NESTING_LEVEL as nat + 1 && bytes_of(t) == data@),
            Result::Err(e) => e == DecodeError::ParsingFailed && (forall|t: Tree|
                tree_wf(t) && nest(t) <= MAX_NESTING_LEVEL as nat + 1 ==> bytes_of(t) != data@),
        },
{
    match io::read_value_strict(data, MAX_NESTING_LEVEL) {
        Result::Ok(v) => Ok(io::write_value(v)),
        Result::Err(e) => Err(e),
    }
}

} // verus!
