//! CBOR decoding: the `Decode` capability, its implementations, and the
//! round-trip law connecting them to the encoders.
use vstd::prelude::*;
use vstd::utf8::{decode_utf8, is_scalar, valid_utf8};

use crate::encode::{be_bytes_of, enc_seq_spec, Encode};
use crate::values::{
    lemma_trees_of, tree_of, tree_wf, trees_of, trees_wf, SimpleValue, Tree, Value,
};
use crate::DecodeError;

verus! {

/// The model of a decode result: the deep view of the value on success.
pub open spec fn res_model<T: DeepView>(r: Result<T, DecodeError>) -> Result<T::V, DecodeError> {
    match r {
        Result::Ok(x) => Result::Ok(x.deep_view()),
        Result::Err(e) => Result::Err(e),
    }
}

/// Trait for types that can be decoded from CBOR.
///
/// `dec_spec` is the mathematical decoder on trees and `default_spec` the
/// recovery value used for missing, null or undefined input.
pub trait Decode: Sized + DeepView {
    /// The result of decoding from a missing/null/undefined value.
    spec fn default_spec() -> Result<Self::V, DecodeError>;

    /// The result of decoding from the given tree.
    spec fn dec_spec(t: Tree) -> Result<Self::V, DecodeError>;

    /// Try to decode from a missing/null/undefined value.
    fn try_default() -> (r: Result<Self, DecodeError>)
        ensures
            res_model(r) == Self::default_spec(),
    ;

    /// Try to decode from a given CBOR value.
    fn try_from_cbor_value(value: Value) -> (r: Result<Self, DecodeError>)
        ensures
            res_model(r) == Self::dec_spec(value.dv()),
    ;

    /// Try to decode from a given CBOR value, recovering the default in case
    /// the value is null or undefined.
    fn try_from_cbor_value_default(value: Value) -> (r: Result<Self, DecodeError>)
        ensures
            res_model(r) == (if value.dv().is_null_or_undefined() {
                Self::default_spec()
            } else {
                Self::dec_spec(value.dv())
            }),
    {
        match value {
            Value::Simple(SimpleValue::NullValue) => Self::try_default(),
            Value::Simple(SimpleValue::Undefined) => Self::try_default(),
            _ => Self::try_from_cbor_value(value),
        }
    }
}

/// Decoding through the default-recovery entry point: null and undefined
/// input yields the type's default, everything else is decoded directly.
pub open spec fn dec_default_spec<T: Decode>(t: Tree) -> Result<T::V, DecodeError> {
    if t.is_null_or_undefined() {
        T::default_spec()
    } else {
        T::dec_spec(t)
    }
}

/// Non-lossy types under the default configuration: decoding an encoding
/// gives the value back, and every encoding is canonically well formed.
pub trait Lossless: Encode + Decode {
    /// The round-trip law `decode(encode(v)) = v`, together with the facts
    /// that make it carry through the default-recovery and byte paths.
    proof fn lemma_round_trip(t: Self::V)
        ensures
            Self::dec_spec(Self::enc_spec(t)) == Result::<Self::V, DecodeError>::Ok(t),
            Self::enc_spec(t).is_null_or_undefined() ==> Self::default_spec() == Result::<
                Self::V,
                DecodeError,
            >::Ok(t),
            tree_wf(Self::enc_spec(t)),
    ;
}

/// The round-trip law carried through the default-recovery entry point:
/// for every non-lossy `T` and value `v`, decoding `encode(v)` with default
/// recovery returns `v`.
pub proof fn lemma_round_trip_default<T: Lossless>(t: T::V)
    ensures
        dec_default_spec::<T>(T::enc_spec(t)) == Result::<T::V, DecodeError>::Ok(t),
        tree_wf(T::enc_spec(t)),
{
    T::lemma_round_trip(t);
}

/// Types whose encoding is never the null or undefined simple value, so an
/// `optional` field holding them is always emitted and an `Option` of them
/// round-trips.
pub trait EncodeNonNull: Encode {
    proof fn lemma_enc_not_null(t: Self::V)
        ensures
            !Self::enc_spec(t).is_null_or_undefined(),
    ;
}

/// Relies on char::from_u32: `Some` exactly for Unicode scalar values,
/// returning the character with that code point.
pub assume_specification[ char::from_u32 ](i: u32) -> (r: Option<char>)
    ensures
        match r {
            Option::Some(c) => c as u32 == i && is_scalar(i),
            Option::None => !is_scalar(i),
        },
;

impl Decode for u8 {
    open spec fn default_spec() -> Result<u8, DecodeError> {
        Result::Ok(0)
    }

    open spec fn dec_spec(t: Tree) -> Result<u8, DecodeError> {
        match t {
            Tree::Unsigned(v) => if v <= u8::MAX as u64 {
                Result::Ok(v as u8)
            } else {
                Result::Err(DecodeError::UnexpectedIntegerSize)
            },
            _ => Result::Err(DecodeError::UnexpectedType),
        }
    }

    fn try_default() -> (r: Result<Self, DecodeError>) {
        Ok(0)
    }

    fn try_from_cbor_value(value: Value) -> (r: Result<Self, DecodeError>) {
        match value {
            Value::Unsigned(v) => if v <= u8::MAX as u64 {
                Ok(v as u8)
            } else {
                Err(DecodeError::UnexpectedIntegerSize)
            },
            _ => Err(DecodeError::UnexpectedType),
        }
    }
}

impl Decode for u16 {
    open spec fn default_spec() -> Result<u16, DecodeError> {
        Result::Ok(0)
    }

    open spec fn dec_spec(t: Tree) -> Result<u16, DecodeError> {
        match t {
            Tree::Unsigned(v) => if v <= u16::MAX as u64 {
                Result::Ok(v as u16)
            } else {
                Result::Err(DecodeError::UnexpectedIntegerSize)
            },
            _ => Result::Err(DecodeError::UnexpectedType),
        }
    }

    fn try_default() -> (r: Result<Self, DecodeError>) {
        Ok(0)
    }

    fn try_from_cbor_value(value: Value) -> (r: Result<Self, DecodeError>) {
        match value {
            Value::Unsigned(v) => if v <= u16::MAX as u64 {
                Ok(v as u16)
            } else {
                Err(DecodeError::UnexpectedIntegerSize)
            },
            _ => Err(DecodeError::UnexpectedType),
        }
    }
}

impl Decode for u32 {
    open spec fn default_spec() -> Result<u32, DecodeError> {
        Result::Ok(0)
    }

    open spec fn dec_spec(t: Tree) -> Result<u32, DecodeError> {
        match t {
            Tree::Unsigned(v) => if v <= u32::MAX as u64 {
                Result::Ok(v as u32)
            } else {
                Result::Err(DecodeError::UnexpectedIntegerSize)
            },
            _ => Result::Err(DecodeError::UnexpectedType),
        }
    }

    fn try_default() -> (r: Result<Self, DecodeError>) {
        Ok(0)
    }

    fn try_from_cbor_value(value: Value) -> (r: Result<Self, DecodeError>) {
        match value {
            Value::Unsigned(v) => if v <= u32::MAX as u64 {
                Ok(v as u32)
            } else {
                Err(DecodeError::UnexpectedIntegerSize)
            },
            _ => Err(DecodeError::UnexpectedType),
        }
    }
}

impl Decode for u64 {
    open spec fn default_spec() -> Result<u64, DecodeError> {
        Result::Ok(0)
    }

    open spec fn dec_spec(t: Tree) -> Result<u64, DecodeError> {
        match t {
            Tree::Unsigned(v) => Result::Ok(v),
            _ => Result::Err(DecodeError::UnexpectedType),
        }
    }

    fn try_default() -> (r: Result<Self, DecodeError>) {
        Ok(0)
    }

    fn try_from_cbor_value(value: Value) -> (r: Result<Self, DecodeError>) {
        match value {
            Value::Unsigned(v) => Ok(v),
            _ => Err(DecodeError::UnexpectedType),
        }
    }
}

impl Decode for i8 {
    open spec fn default_spec() -> Result<i8, DecodeError> {
        Result::Ok(0)
    }

    open spec fn dec_spec(t: Tree) -> Result<i8, DecodeError> {
        match t {
            Tree::Unsigned(v) => if v <= i8::MAX as u64 {
                Result::Ok(v as i8)
            } else {
                Result::Err(DecodeError::UnexpectedIntegerSize)
            },
            Tree::Negative(n) => if n >= i8::MIN as i128 {
                Result::Ok(n as i8)
            } else {
                Result::Err(DecodeError::UnexpectedIntegerSize)
            },
            _ => Result::Err(DecodeError::UnexpectedType),
        }
    }

    fn try_default() -> (r: Result<Self, DecodeError>) {
        Ok(0)
    }

    fn try_from_cbor_value(value: Value) -> (r: Result<Self, DecodeError>) {
        match value {
            Value::Unsigned(v) => if v <= i8::MAX as u64 {
                Ok(v as i8)
            } else {
                Err(DecodeError::UnexpectedIntegerSize)
            },
            Value::Negative(n) => if n >= i8::MIN as i128 {
                Ok(n as i8)
            } else {
                Err(DecodeError::UnexpectedIntegerSize)
            },
            _ => Err(DecodeError::UnexpectedType),
        }
    }
}

impl Decode for i16 {
    open spec fn default_spec() -> Result<i16, DecodeError> {
        Result::Ok(0)
    }

    open spec fn dec_spec(t: Tree) -> Result<i16, DecodeError> {
        match t {
            Tree::Unsigned(v) => if v <= i16::MAX as u64 {
                Result::Ok(v as i16)
            } else {
                Result::Err(DecodeError::UnexpectedIntegerSize)
            },
            Tree::Negative(n) => if n >= i16::MIN as i128 {
                Result::Ok(n as i16)
            } else {
                Result::Err(DecodeError::UnexpectedIntegerSize)
            },
            _ => Result::Err(DecodeError::UnexpectedType),
        }
    }

    fn try_default() -> (r: Result<Self, DecodeError>) {
        Ok(0)
    }

    fn try_from_cbor_value(value: Value) -> (r: Result<Self, DecodeError>) {
        match value {
            Value::Unsigned(v) => if v <= i16::MAX as u64 {
                Ok(v as i16)
            } else {
                Err(DecodeError::UnexpectedIntegerSize)
            },
            Value::Negative(n) => if n >= i16::MIN as i128 {
                Ok(n as i16)
            } else {
                Err(DecodeError::UnexpectedIntegerSize)
            },
            _ => Err(DecodeError::UnexpectedType),
        }
    }
}

impl Decode for i32 {
    open spec fn default_spec() -> Result<i32, DecodeError> {
        Result::Ok(0)
    }

    open spec fn dec_spec(t: Tree) -> Result<i32, DecodeError> {
        match t {
            Tree::Unsigned(v) => if v <= i32::MAX as u64 {
                Result::Ok(v as i32)
            } else {
                Result::Err(DecodeError::UnexpectedIntegerSize)
            },
            Tree::Negative(n) => if n >= i32::MIN as i128 {
                Result::Ok(n as i32)
            } else {
                Result::Err(DecodeError::UnexpectedIntegerSize)
            },
            _ => Result::Err(DecodeError::UnexpectedType),
        }
    }

    fn try_default() -> (r: Result<Self, DecodeError>) {
        Ok(0)
    }

    fn try_from_cbor_value(value: Value) -> (r: Result<Self, DecodeError>) {
        match value {
            Value::Unsigned(v) => if v <= i32::MAX as u64 {
                Ok(v as i32)
            } else {
                Err(DecodeError::UnexpectedIntegerSize)
            },
            Value::Negative(n) => if n >= i32::MIN as i128 {
                Ok(n as i32)
            } else {
                Err(DecodeError::UnexpectedIntegerSize)
            },
            _ => Err(DecodeError::UnexpectedType),
        }
    }
}

impl Decode for i64 {
    open spec fn default_spec() -> Result<i64, DecodeError> {
        Result::Ok(0)
    }

    open spec fn dec_spec(t: Tree) -> Result<i64, DecodeError> {
        match t {
            Tree::Unsigned(v) => if v <= i64::MAX as u64 {
                Result::Ok(v as i64)
            } else {
                Result::Err(DecodeError::UnexpectedIntegerSize)
            },
            Tree::Negative(n) => if n >= i64::MIN as i128 {
                Result::Ok(n as i64)
            } else {
                Result::Err(DecodeError::UnexpectedIntegerSize)
            },
            _ => Result::Err(DecodeError::UnexpectedType),
        }
    }

    fn try_default() -> (r: Result<Self, DecodeError>) {
        Ok(0)
    }

    fn try_from_cbor_value(value: Value) -> (r: Result<Self, DecodeError>) {
        match value {
            Value::Unsigned(v) => if v <= i64::MAX as u64 {
                Ok(v as i64)
            } else {
                Err(DecodeError::UnexpectedIntegerSize)
            },
            Value::Negative(n) => if n >= i64::MIN as i128 {
                Ok(n as i64)
            } else {
                Err(DecodeError::UnexpectedIntegerSize)
            },
            _ => Err(DecodeError::UnexpectedType),
        }
    }
}

/// The unsigned integer read from big-endian bytes.
pub open spec fn int_of_be_bytes(b: Seq<u8>) -> int
    decreases b.len(),
{
    if b.len() == 0 {
        0
    } else {
        int_of_be_bytes(b.drop_last()) * 256 + b.last()
    }
}

impl Decode for u128 {
    open spec fn default_spec() -> Result<u128, DecodeError> {
        Result::Ok(0)
    }

    open spec fn dec_spec(t: Tree) -> Result<u128, DecodeError> {
        match t {
            Tree::Bytes(b) => if b.len() <= 16 {
                Result::Ok(int_of_be_bytes(b) as u128)
            } else {
                Result::Err(DecodeError::UnexpectedIntegerSize)
            },
            _ => Result::Err(DecodeError::UnexpectedType),
        }
    }

    fn try_default() -> (r: Result<Self, DecodeError>) {
        Ok(0)
    }

    #[verifier::loop_isolation(false)]
    fn try_from_cbor_value(value: Value) -> (r: Result<Self, DecodeError>) {
        match value {
            Value::ByteString(b) => {
                if b.len() > 16 {
                    return Err(DecodeError::UnexpectedIntegerSize);
                }
                let mut x: u128 = 0;
                let mut i: usize = 0;
                proof {
                    assert(b@.take(0) =~= Seq::<u8>::empty());
                }
                while i < b.len()
                    invariant
                        i <= b@.len(),
                        b@.len() <= 16,
                        x as int == int_of_be_bytes(b@.take(i as int)),
                        x < pow256(i as nat),
                    decreases b@.len() - i,
                {
                    proof {
                        lemma_pow256_mono(i as nat, 15);
                        assert(pow256(16) == 0x1_0000_0000_0000_0000_0000_0000_0000_0000) by {
                            reveal_with_fuel(pow256, 17);
                        }
                        assert(x * 256 + 255 < 256 * pow256(i as nat)) by (nonlinear_arith)
                            requires
                                x < pow256(i as nat),
                                x >= 0,
                                pow256(i as nat) >= 1,
                        ;
                        assert(256 * pow256(i as nat) == pow256(i as nat + 1));
                        assert(pow256(i as nat + 1) <= pow256(16)) by {
                            lemma_pow256_mono(i as nat + 1, 16);
                        }
                        assert(b@.take(i as int + 1).drop_last() =~= b@.take(i as int));
                        assert(b@.take(i as int + 1).last() == b@[i as int]);
                    }
                    x = x * 256 + (b[i] as u128);
                    i += 1;
                }
                proof {
                    assert(b@.take(b@.len() as int) =~= b@);
                }
                Ok(x)
            },
            _ => Err(DecodeError::UnexpectedType),
        }
    }
}

/// 256 to the power `k`.
pub open spec fn pow256(k: nat) -> int
    decreases k,
{
    if k == 0 {
        1
    } else {
        256 * pow256((k - 1) as nat)
    }
}

proof fn lemma_pow256_mono(i: nat, j: nat)
    requires
        i <= j,
    ensures
        pow256(i) <= pow256(j),
        pow256(i) >= 1,
    decreases j,
{
    if j > 0 {
        if i == j {
            lemma_pow256_mono((i - 1) as nat, (j - 1) as nat);
        } else {
            lemma_pow256_mono(i, (j - 1) as nat);
        }
    }
}

/// Big-endian round trip: reading back the stripped big-endian bytes of a
/// non-negative integer gives the integer, in at most `k` bytes when the
/// integer is below 256^k.
pub proof fn lemma_be_bytes_round_trip(x: int)
    requires
        x >= 0,
    ensures
        int_of_be_bytes(be_bytes_of(x)) == x,
    decreases x,
{
    if x > 0 {
        lemma_be_bytes_round_trip(x / 256);
        assert(be_bytes_of(x).drop_last() =~= be_bytes_of(x / 256));
    }
}

pub proof fn lemma_be_bytes_len(x: int, k: nat)
    requires
        0 <= x < pow256(k),
    ensures
        be_bytes_of(x).len() <= k,
    decreases k,
{
    if x > 0 {
        assert(k > 0);
        assert(x / 256 < pow256((k - 1) as nat)) by (nonlinear_arith)
            requires
                x < 256 * pow256((k - 1) as nat),
                x >= 0,
        ;
        lemma_be_bytes_len(x / 256, (k - 1) as nat);
    }
}

impl Decode for bool {
    open spec fn default_spec() -> Result<bool, DecodeError> {
        Result::Ok(false)
    }

    open spec fn dec_spec(t: Tree) -> Result<bool, DecodeError> {
        match t {
            Tree::Simple(SimpleValue::FalseValue) => Result::Ok(false),
            Tree::Simple(SimpleValue::TrueValue) => Result::Ok(true),
            _ => Result::Err(DecodeError::UnexpectedType),
        }
    }

    fn try_default() -> (r: Result<Self, DecodeError>) {
        Ok(false)
    }

    fn try_from_cbor_value(value: Value) -> (r: Result<Self, DecodeError>) {
        match value {
            Value::Simple(SimpleValue::FalseValue) => Ok(false),
            Value::Simple(SimpleValue::TrueValue) => Ok(true),
            _ => Err(DecodeError::UnexpectedType),
        }
    }
}

impl Decode for char {
    open spec fn default_spec() -> Result<char, DecodeError> {
        Result::Ok(0 as char)
    }

    open spec fn dec_spec(t: Tree) -> Result<char, DecodeError> {
        match t {
            Tree::Unsigned(v) => if v > u32::MAX as u64 {
                Result::Err(DecodeError::UnexpectedIntegerSize)
            } else if is_scalar(v as u32) {
                Result::Ok((v as u32) as char)
            } else {
                Result::Err(DecodeError::UnexpectedType)
            },
            _ => Result::Err(DecodeError::UnexpectedType),
        }
    }

    fn try_default() -> (r: Result<Self, DecodeError>) {
        Ok('\u{0}')
    }

    fn try_from_cbor_value(value: Value) -> (r: Result<Self, DecodeError>) {
        match value {
            Value::Unsigned(v) => if v > u32::MAX as u64 {
                Err(DecodeError::UnexpectedIntegerSize)
            } else {
                match char::from_u32(v as u32) {
                    Option::Some(c) => {
                        proof {
                            vstd::utf8::char_u32_cast(c, v as u32);
                        }
                        Ok(c)
                    },
                    Option::None => Err(DecodeError::UnexpectedType),
                }
            },
            _ => Err(DecodeError::UnexpectedType),
        }
    }
}

impl Decode for String {
    open spec fn default_spec() -> Result<Seq<char>, DecodeError> {
        Result::Ok(Seq::empty())
    }

    open spec fn dec_spec(t: Tree) -> Result<Seq<char>, DecodeError> {
        match t {
            Tree::Text(b) => if valid_utf8(b) {
                Result::Ok(decode_utf8(b))
            } else {
                Result::Err(DecodeError::UnexpectedType)
            },
            _ => Result::Err(DecodeError::UnexpectedType),
        }
    }

    fn try_default() -> (r: Result<Self, DecodeError>) {
        Ok(String::new())
    }

    fn try_from_cbor_value(value: Value) -> (r: Result<Self, DecodeError>) {
        match value {
            Value::TextString(s) => {
                proof {
                    vstd::utf8::encode_utf8_valid_utf8(s@);
                    vstd::utf8::encode_utf8_decode_utf8(s@);
                }
                Ok(s)
            },
            _ => Err(DecodeError::UnexpectedType),
        }
    }
}

impl Decode for () {
    open spec fn default_spec() -> Result<(), DecodeError> {
        Result::Ok(())
    }

    open spec fn dec_spec(t: Tree) -> Result<(), DecodeError> {
        if t.is_null_or_undefined() {
            Result::Ok(())
        } else {
            Result::Err(DecodeError::UnexpectedType)
        }
    }

    fn try_default() -> (r: Result<Self, DecodeError>) {
        Ok(())
    }

    fn try_from_cbor_value(value: Value) -> (r: Result<Self, DecodeError>) {
        match value {
            Value::Simple(SimpleValue::NullValue) => Ok(()),
            Value::Simple(SimpleValue::Undefined) => Ok(()),
            _ => Err(DecodeError::UnexpectedType),
        }
    }
}

impl Decode for Value {
    open spec fn default_spec() -> Result<Tree, DecodeError> {
        Result::Ok(Tree::null())
    }

    open spec fn dec_spec(t: Tree) -> Result<Tree, DecodeError> {
        Result::Ok(t)
    }

    fn try_default() -> (r: Result<Self, DecodeError>) {
        Ok(Value::Simple(SimpleValue::NullValue))
    }

    fn try_from_cbor_value(value: Value) -> (r: Result<Self, DecodeError>) {
        Ok(value)
    }
}

impl<T: Decode> Decode for Option<T> {
    open spec fn default_spec() -> Result<Option<T::V>, DecodeError> {
        Result::Ok(Option::None)
    }

    open spec fn dec_spec(t: Tree) -> Result<Option<T::V>, DecodeError> {
        if t == Tree::null() {
            Result::Ok(Option::None)
        } else {
            match T::dec_spec(t) {
                Result::Ok(x) => Result::Ok(Option::Some(x)),
                Result::Err(e) => Result::Err(e),
            }
        }
    }

    fn try_default() -> (r: Result<Self, DecodeError>) {
        Ok(None)
    }

    fn try_from_cbor_value(value: Value) -> (r: Result<Self, DecodeError>) {
        match value {
            Value::Simple(SimpleValue::NullValue) => Ok(None),
            v => match T::try_from_cbor_value(v) {
                Result::Ok(x) => Ok(Some(x)),
                Result::Err(e) => Err(e),
            },
        }
    }
}

/// The elementwise decoding of a sequence of trees: the decoded values, or
/// the first error.
pub open spec fn dec_seq_spec<T: Decode>(s: Seq<Tree>) -> Result<Seq<T::V>, DecodeError>
    decreases s,
{
    if s.len() == 0 {
        Result::Ok(Seq::empty())
    } else {
        match T::dec_spec(s[0]) {
            Result::Ok(x) => match dec_seq_spec::<T>(s.drop_first()) {
                Result::Ok(rest) => Result::Ok(seq![x] + rest),
                Result::Err(e) => Result::Err(e),
            },
            Result::Err(e) => Result::Err(e),
        }
    }
}

/// Splitting an elementwise decode after a prefix of successes.
proof fn lemma_dec_seq_prefix<T: Decode>(s: Seq<Tree>, done: Seq<T::V>, i: int)
    requires
        0 <= i <= s.len(),
        done.len() == i,
        forall|k: int| 0 <= k < i ==> T::dec_spec(s[k]) == Result::<T::V, DecodeError>::Ok(
            done[k],
        ),
    ensures
        dec_seq_spec::<T>(s) == (match dec_seq_spec::<T>(s.skip(i)) {
            Result::Ok(rest) => Result::<Seq<T::V>, DecodeError>::Ok(done + rest),
            Result::Err(e) => Result::<Seq<T::V>, DecodeError>::Err(e),
        }),
    decreases i,
{
    if i == 0 {
        assert(s.skip(0) =~= s);
        match dec_seq_spec::<T>(s) {
            Result::Ok(rest) => {
                assert(done + rest =~= rest);
            },
            Result::Err(_) => {},
        }
    } else {
        lemma_dec_seq_prefix::<T>(s, done.take(i - 1), i - 1);
        assert(s.skip(i - 1).len() > 0);
        assert(s.skip(i - 1)[0] == s[i - 1]);
        assert(s.skip(i - 1).drop_first() =~= s.skip(i));
        assert(T::dec_spec(s[i - 1]) == Result::<T::V, DecodeError>::Ok(done[i - 1]));
        match dec_seq_spec::<T>(s.skip(i)) {
            Result::Ok(rest) => {
                assert(dec_seq_spec::<T>(s.skip(i - 1)) == Result::<Seq<T::V>, DecodeError>::Ok(
                    seq![done[i - 1]] + rest,
                ));
                assert(done.take(i - 1) + (seq![done[i - 1]] + rest) =~= done + rest);
            },
            Result::Err(_) => {},
        }
    }
}

/// The elementwise array decoding for every element type, `u8` included:
/// without specialization the byte-string form of byte vectors cannot share
/// this implementation; it is carried by [`crate::containers::Bytes`] and
/// the function form [`bytes_try_from_cbor_value`].
impl<T: Decode> Decode for Vec<T> {
    open spec fn default_spec() -> Result<Seq<T::V>, DecodeError> {
        Result::Ok(Seq::empty())
    }

    open spec fn dec_spec(t: Tree) -> Result<Seq<T::V>, DecodeError> {
        match t {
            Tree::Array(s) => dec_seq_spec::<T>(s),
            _ => Result::Err(DecodeError::UnexpectedType),
        }
    }

    fn try_default() -> (r: Result<Self, DecodeError>) {
        let v: Vec<T> = Vec::new();
        proof {
            assert(v.deep_view() =~= Seq::<T::V>::empty());
        }
        Ok(v)
    }

    #[verifier::loop_isolation(false)]
    #[verifier::spinoff_prover]
    #[verifier::rlimit(30)]
    fn try_from_cbor_value(value: Value) -> (r: Result<Self, DecodeError>) {
        match value {
            Value::Array(a) => {
                let ghost ts = trees_of(a@);
                proof {
                    lemma_trees_of(a@);
                    assert(value.dv() == Tree::Array(ts));
                    assert(Self::dec_spec(value.dv()) == dec_seq_spec::<T>(ts));
                }
                let mut rest = a;
                let mut out: Vec<T> = Vec::new();
                while rest.len() > 0
                    invariant
                        out@.len() + rest@.len() == ts.len(),
                        forall|k: int|
                            0 <= k < rest@.len() ==> tree_of(#[trigger] rest@[k]) == ts[out@.len()
                                + k],
                        forall|k: int| 0 <= k < out@.len() ==> T::dec_spec(ts[k]) == Result::<
                            T::V,
                            DecodeError,
                        >::Ok(#[trigger] out@[k].deep_view()),
                    decreases rest@.len(),
                {
                    let ghost at = out@.len() as int;
                    let v = rest.remove(0);
                    proof {
                        assert(tree_of(v) == ts[at]);
                    }
                    match T::try_from_cbor_value(v) {
                        Result::Ok(x) => {
                            out.push(x);
                        },
                        Result::Err(e) => {
                            proof {
                                lemma_dec_seq_prefix::<T>(ts, out.deep_view(), at);
                                assert(ts.skip(at).len() > 0);
                                assert(ts.skip(at)[0] == ts[at]);
                                assert(T::dec_spec(ts.skip(at)[0]) == Result::<
                                    T::V,
                                    DecodeError,
                                >::Err(e));
                                assert(dec_seq_spec::<T>(ts.skip(at)) == Result::<
                                    Seq<T::V>,
                                    DecodeError,
                                >::Err(e));
                                assert(dec_seq_spec::<T>(ts) == Result::<
                                    Seq<T::V>,
                                    DecodeError,
                                >::Err(e));
                            }
                            return Err(e);
                        },
                    }
                }
                proof {
                    lemma_dec_seq_prefix::<T>(ts, out.deep_view(), out@.len() as int);
                    assert(ts.skip(out@.len() as int).len() == 0);
                    assert(dec_seq_spec::<T>(ts.skip(out@.len() as int)) == Result::<
                        Seq<T::V>,
                        DecodeError,
                    >::Ok(Seq::<T::V>::empty()));
                    assert(out.deep_view() + Seq::<T::V>::empty() =~= out.deep_view());
                    assert(dec_seq_spec::<T>(ts) == Result::<Seq<T::V>, DecodeError>::Ok(
                        out.deep_view(),
                    ));
                }
                Ok(out)
            },
            _ => Err(DecodeError::UnexpectedType),
        }
    }
}

impl<T0: Decode, T1: Decode> Decode for (T0, T1) {
    open spec fn default_spec() -> Result<(T0::V, T1::V), DecodeError> {
        match (T0::default_spec(), T1::default_spec()) {
            (Result::Ok(a), Result::Ok(b)) => Result::Ok((a, b)),
            (Result::Err(e), _) => Result::Err(e),
            (_, Result::Err(e)) => Result::Err(e),
        }
    }

    open spec fn dec_spec(t: Tree) -> Result<(T0::V, T1::V), DecodeError> {
        match t {
            Tree::Array(s) => if s.len() != 2 {
                Result::Err(DecodeError::UnexpectedType)
            } else {
                match (T0::dec_spec(s[0]), T1::dec_spec(s[1])) {
                    (Result::Ok(a), Result::Ok(b)) => Result::Ok((a, b)),
                    (Result::Err(e), _) => Result::Err(e),
                    (_, Result::Err(e)) => Result::Err(e),
                }
            },
            _ => Result::Err(DecodeError::UnexpectedType),
        }
    }

    fn try_default() -> (r: Result<Self, DecodeError>) {
        let a = match T0::try_default() {
            Result::Ok(a) => a,
            Result::Err(e) => {
                return Err(e);
            },
        };
        let b = match T1::try_default() {
            Result::Ok(b) => b,
            Result::Err(e) => {
                return Err(e);
            },
        };
        Ok((a, b))
    }

    fn try_from_cbor_value(value: Value) -> (r: Result<Self, DecodeError>) {
        match value {
            Value::Array(a) => {
                proof {
                    lemma_trees_of(a@);
                }
                if a.len() != 2 {
                    return Err(DecodeError::UnexpectedType);
                }
                let mut a = a;
                let v0 = a.remove(0);
                let v1 = a.remove(0);
                let x0 = match T0::try_from_cbor_value(v0) {
                    Result::Ok(x) => x,
                    Result::Err(e) => {
                        return Err(e);
                    },
                };
                let x1 = match T1::try_from_cbor_value(v1) {
                    Result::Ok(x) => x,
                    Result::Err(e) => {
                        return Err(e);
                    },
                };
                Ok((x0, x1))
            },
            _ => Err(DecodeError::UnexpectedType),
        }
    }
}

impl<T0: Decode, T1: Decode, T2: Decode> Decode for (T0, T1, T2) {
    open spec fn default_spec() -> Result<(T0::V, T1::V, T2::V), DecodeError> {
        match (T0::default_spec(), T1::default_spec(), T2::default_spec()) {
            (Result::Ok(a), Result::Ok(b), Result::Ok(c)) => Result::Ok((a, b, c)),
            (Result::Err(e), _, _) => Result::Err(e),
            (_, Result::Err(e), _) => Result::Err(e),
            (_, _, Result::Err(e)) => Result::Err(e),
        }
    }

    open spec fn dec_spec(t: Tree) -> Result<(T0::V, T1::V, T2::V), DecodeError> {
        match t {
            Tree::Array(s) => if s.len() != 3 {
                Result::Err(DecodeError::UnexpectedType)
            } else {
                match (T0::dec_spec(s[0]), T1::dec_spec(s[1]), T2::dec_spec(s[2])) {
                    (Result::Ok(a), Result::Ok(b), Result::Ok(c)) => Result::Ok((a, b, c)),
                    (Result::Err(e), _, _) => Result::Err(e),
                    (_, Result::Err(e), _) => Result::Err(e),
                    (_, _, Result::Err(e)) => Result::Err(e),
                }
            },
            _ => Result::Err(DecodeError::UnexpectedType),
        }
    }

    fn try_default() -> (r: Result<Self, DecodeError>) {
        let a = match T0::try_default() {
            Result::Ok(a) => a,
            Result::Err(e) => {
                return Err(e);
            },
        };
        let b = match T1::try_default() {
            Result::Ok(b) => b,
            Result::Err(e) => {
                return Err(e);
            },
        };
        let c = match T2::try_default() {
            Result::Ok(c) => c,
            Result::Err(e) => {
                return Err(e);
            },
        };
        Ok((a, b, c))
    }

    fn try_from_cbor_value(value: Value) -> (r: Result<Self, DecodeError>) {
        match value {
            Value::Array(a) => {
                proof {
                    lemma_trees_of(a@);
                }
                if a.len() != 3 {
                    return Err(DecodeError::UnexpectedType);
                }
                let mut a = a;
                let v0 = a.remove(0);
                let v1 = a.remove(0);
                let v2 = a.remove(0);
                let x0 = match T0::try_from_cbor_value(v0) {
                    Result::Ok(x) => x,
                    Result::Err(e) => {
                        return Err(e);
                    },
                };
                let x1 = match T1::try_from_cbor_value(v1) {
                    Result::Ok(x) => x,
                    Result::Err(e) => {
                        return Err(e);
                    },
                };
                let x2 = match T2::try_from_cbor_value(v2) {
                    Result::Ok(x) => x,
                    Result::Err(e) => {
                        return Err(e);
                    },
                };
                Ok((x0, x1, x2))
            },
            _ => Err(DecodeError::UnexpectedType),
        }
    }
}

impl<T0: Decode, T1: Decode, T2: Decode, T3: Decode> Decode for (T0, T1, T2, T3) {
    open spec fn default_spec() -> Result<(T0::V, T1::V, T2::V, T3::V), DecodeError> {
        match (T0::default_spec(), T1::default_spec(), T2::default_spec(), T3::default_spec()) {
            (Result::Ok(a), Result::Ok(b), Result::Ok(c), Result::Ok(d)) => Result::Ok(
                (a, b, c, d),
            ),
            (Result::Err(e), _, _, _) => Result::Err(e),
            (_, Result::Err(e), _, _) => Result::Err(e),
            (_, _, Result::Err(e), _) => Result::Err(e),
            (_, _, _, Result::Err(e)) => Result::Err(e),
        }
    }

    open spec fn dec_spec(t: Tree) -> Result<(T0::V, T1::V, T2::V, T3::V), DecodeError> {
        match t {
            Tree::Array(s) => if s.len() != 4 {
                Result::Err(DecodeError::UnexpectedType)
            } else {
                match (T0::dec_spec(s[0]), T1::dec_spec(s[1]), T2::dec_spec(s[2]), T3::dec_spec(
                    s[3],
                )) {
                    (Result::Ok(a), Result::Ok(b), Result::Ok(c), Result::Ok(d)) => Result::Ok(
                        (a, b, c, d),
                    ),
                    (Result::Err(e), _, _, _) => Result::Err(e),
                    (_, Result::Err(e), _, _) => Result::Err(e),
                    (_, _, Result::Err(e), _) => Result::Err(e),
                    (_, _, _, Result::Err(e)) => Result::Err(e),
                }
            },
            _ => Result::Err(DecodeError::UnexpectedType),
        }
    }

    fn try_default() -> (r: Result<Self, DecodeError>) {
        let a = match T0::try_default() {
            Result::Ok(a) => a,
            Result::Err(e) => {
                return Err(e);
            },
        };
        let b = match T1::try_default() {
            Result::Ok(b) => b,
            Result::Err(e) => {
                return Err(e);
            },
        };
        let c = match T2::try_default() {
            Result::Ok(c) => c,
            Result::Err(e) => {
                return Err(e);
            },
        };
        let d = match T3::try_default() {
            Result::Ok(d) => d,
            Result::Err(e) => {
                return Err(e);
            },
        };
        Ok((a, b, c, d))
    }

    fn try_from_cbor_value(value: Value) -> (r: Result<Self, DecodeError>) {
        match value {
            Value::Array(a) => {
                proof {
                    lemma_trees_of(a@);
                }
                if a.len() != 4 {
                    return Err(DecodeError::UnexpectedType);
                }
                let mut a = a;
                let v0 = a.remove(0);
                let v1 = a.remove(0);
                let v2 = a.remove(0);
                let v3 = a.remove(0);
                let x0 = match T0::try_from_cbor_value(v0) {
                    Result::Ok(x) => x,
                    Result::Err(e) => {
                        return Err(e);
                    },
                };
                let x1 = match T1::try_from_cbor_value(v1) {
                    Result::Ok(x) => x,
                    Result::Err(e) => {
                        return Err(e);
                    },
                };
                let x2 = match T2::try_from_cbor_value(v2) {
                    Result::Ok(x) => x,
                    Result::Err(e) => {
                        return Err(e);
                    },
                };
                let x3 = match T3::try_from_cbor_value(v3) {
                    Result::Ok(x) => x,
                    Result::Err(e) => {
                        return Err(e);
                    },
                };
                Ok((x0, x1, x2, x3))
            },
            _ => Err(DecodeError::UnexpectedType),
        }
    }
}

impl<T0: Lossless, T1: Lossless, T2: Lossless, T3: Lossless> Lossless for (T0, T1, T2, T3) {
    proof fn lemma_round_trip(t: (T0::V, T1::V, T2::V, T3::V)) {
        T0::lemma_round_trip(t.0);
        T1::lemma_round_trip(t.1);
        T2::lemma_round_trip(t.2);
        T3::lemma_round_trip(t.3);
        let es = seq![
            T0::enc_spec(t.0),
            T1::enc_spec(t.1),
            T2::enc_spec(t.2),
            T3::enc_spec(t.3),
        ];
        assert(es.drop_first() =~= seq![T1::enc_spec(t.1), T2::enc_spec(t.2), T3::enc_spec(t.3)]);
        assert(es.drop_first().drop_first() =~= seq![T2::enc_spec(t.2), T3::enc_spec(t.3)]);
        assert(es.drop_first().drop_first().drop_first() =~= seq![T3::enc_spec(t.3)]);
        assert(es.drop_first().drop_first().drop_first().drop_first() =~= Seq::<Tree>::empty());
        assert(trees_wf(es.drop_first().drop_first().drop_first().drop_first()));
        assert(trees_wf(es.drop_first().drop_first().drop_first()));
        assert(trees_wf(es.drop_first().drop_first()));
        assert(trees_wf(es.drop_first()));
        assert(trees_wf(es));
    }
}

impl<T0: Encode, T1: Encode, T2: Encode, T3: Encode> EncodeNonNull for (T0, T1, T2, T3) {
    proof fn lemma_enc_not_null(t: (T0::V, T1::V, T2::V, T3::V)) {
    }
}

impl<T0: Decode, T1: Decode, T2: Decode, T3: Decode, T4: Decode> Decode for (T0, T1, T2, T3, T4) {
    open spec fn default_spec() -> Result<(T0::V, T1::V, T2::V, T3::V, T4::V), DecodeError> {
        match (T0::default_spec(), T1::default_spec(), T2::default_spec(), T3::default_spec(), T4::default_spec()) {
            (Result::Ok(x0), Result::Ok(x1), Result::Ok(x2), Result::Ok(x3), Result::Ok(x4)) => Result::Ok((x0, x1, x2, x3, x4)),
            (Result::Err(e), _, _, _, _) => Result::Err(e),
            (_, Result::Err(e), _, _, _) => Result::Err(e),
            (_, _, Result::Err(e), _, _) => Result::Err(e),
            (_, _, _, Result::Err(e), _) => Result::Err(e),
            (_, _, _, _, Result::Err(e)) => Result::Err(e),
        }
    }

    open spec fn dec_spec(t: Tree) -> Result<(T0::V, T1::V, T2::V, T3::V, T4::V), DecodeError> {
        match t {
            Tree::Array(s) => if s.len() != 5 {
                Result::Err(DecodeError::UnexpectedType)
            } else {
                match (T0::dec_spec(s[0]), T1::dec_spec(s[1]), T2::dec_spec(s[2]), T3::dec_spec(s[3]), T4::dec_spec(s[4])) {
                    (Result::Ok(x0), Result::Ok(x1), Result::Ok(x2), Result::Ok(x3), Result::Ok(x4)) => Result::Ok((x0, x1, x2, x3, x4)),
                    (Result::Err(e), _, _, _, _) => Result::Err(e),
                    (_, Result::Err(e), _, _, _) => Result::Err(e),
                    (_, _, Result::Err(e), _, _) => Result::Err(e),
                    (_, _, _, Result::Err(e), _) => Result::Err(e),
                    (_, _, _, _, Result::Err(e)) => Result::Err(e),
                }
            },
            _ => Result::Err(DecodeError::UnexpectedType),
        }
    }

    fn try_default() -> (r: Result<Self, DecodeError>) {
        let x0 = match T0::try_default() {
            Result::Ok(x) => x,
            Result::Err(e) => {
                return Err(e);
            },
        };
        let x1 = match T1::try_default() {
            Result::Ok(x) => x,
            Result::Err(e) => {
                return Err(e);
            },
        };
        let x2 = match T2::try_default() {
            Result::Ok(x) => x,
            Result::Err(e) => {
                return Err(e);
            },
        };
        let x3 = match T3::try_default() {
            Result::Ok(x) => x,
            Result::Err(e) => {
                return Err(e);
            },
        };
        let x4 = match T4::try_default() {
            Result::Ok(x) => x,
            Result::Err(e) => {
                return Err(e);
            },
        };
        Ok((x0, x1, x2, x3, x4))
    }

    fn try_from_cbor_value(value: Value) -> (r: Result<Self, DecodeError>) {
        match value {
            Value::Array(a) => {
                proof {
                    lemma_trees_of(a@);
                }
                if a.len() != 5 {
                    return Err(DecodeError::UnexpectedType);
                }
                let mut a = a;
                let v0 = a.remove(0);
                let v1 = a.remove(0);
                let v2 = a.remove(0);
                let v3 = a.remove(0);
                let v4 = a.remove(0);
                let x0 = match T0::try_from_cbor_value(v0) {
                    Result::Ok(x) => x,
                    Result::Err(e) => {
                        return Err(e);
                    },
                };
                let x1 = match T1::try_from_cbor_value(v1) {
                    Result::Ok(x) => x,
                    Result::Err(e) => {
                        return Err(e);
                    },
                };
                let x2 = match T2::try_from_cbor_value(v2) {
                    Result::Ok(x) => x,
                    Result::Err(e) => {
                        return Err(e);
                    },
                };
                let x3 = match T3::try_from_cbor_value(v3) {
                    Result::Ok(x) => x,
                    Result::Err(e) => {
                        return Err(e);
                    },
                };
                let x4 = match T4::try_from_cbor_value(v4) {
                    Result::Ok(x) => x,
                    Result::Err(e) => {
                        return Err(e);
                    },
                };
                Ok((x0, x1, x2, x3, x4))
            },
            _ => Err(DecodeError::UnexpectedType),
        }
    }
}

impl<T0: Decode, T1: Decode, T2: Decode, T3: Decode, T4: Decode, T5: Decode> Decode for (T0, T1, T2, T3, T4, T5) {
    open spec fn default_spec() -> Result<(T0::V, T1::V, T2::V, T3::V, T4::V, T5::V), DecodeError> {
        match (T0::default_spec(), T1::default_spec(), T2::default_spec(), T3::default_spec(), T4::default_spec(), T5::default_spec()) {
            (Result::Ok(x0), Result::Ok(x1), Result::Ok(x2), Result::Ok(x3), Result::Ok(x4), Result::Ok(x5)) => Result::Ok((x0, x1, x2, x3, x4, x5)),
            (Result::Err(e), _, _, _, _, _) => Result::Err(e),
            (_, Result::Err(e), _, _, _, _) => Result::Err(e),
            (_, _, Result::Err(e), _, _, _) => Result::Err(e),
            (_, _, _, Result::Err(e), _, _) => Result::Err(e),
            (_, _, _, _, Result::Err(e), _) => Result::Err(e),
            (_, _, _, _, _, Result::Err(e)) => Result::Err(e),
        }
    }

    open spec fn dec_spec(t: Tree) -> Result<(T0::V, T1::V, T2::V, T3::V, T4::V, T5::V), DecodeError> {
        match t {
            Tree::Array(s) => if s.len() != 6 {
                Result::Err(DecodeError::UnexpectedType)
            } else {
                match (T0::dec_spec(s[0]), T1::dec_spec(s[1]), T2::dec_spec(s[2]), T3::dec_spec(s[3]), T4::dec_spec(s[4]), T5::dec_spec(s[5])) {
                    (Result::Ok(x0), Result::Ok(x1), Result::Ok(x2), Result::Ok(x3), Result::Ok(x4), Result::Ok(x5)) => Result::Ok((x0, x1, x2, x3, x4, x5)),
                    (Result::Err(e), _, _, _, _, _) => Result::Err(e),
                    (_, Result::Err(e), _, _, _, _) => Result::Err(e),
                    (_, _, Result::Err(e), _, _, _) => Result::Err(e),
                    (_, _, _, Result::Err(e), _, _) => Result::Err(e),
                    (_, _, _, _, Result::Err(e), _) => Result::Err(e),
                    (_, _, _, _, _, Result::Err(e)) => Result::Err(e),
                }
            },
            _ => Result::Err(DecodeError::UnexpectedType),
        }
    }

    fn try_default() -> (r: Result<Self, DecodeError>) {
        let x0 = match T0::try_default() {
            Result::Ok(x) => x,
            Result::Err(e) => {
                return Err(e);
            },
        };
        let x1 = match T1::try_default() {
            Result::Ok(x) => x,
            Result::Err(e) => {
                return Err(e);
            },
        };
        let x2 = match T2::try_default() {
            Result::Ok(x) => x,
            Result::Err(e) => {
                return Err(e);
            },
        };
        let x3 = match T3::try_default() {
            Result::Ok(x) => x,
            Result::Err(e) => {
                return Err(e);
            },
        };
        let x4 = match T4::try_default() {
            Result::Ok(x) => x,
            Result::Err(e) => {
                return Err(e);
            },
        };
        let x5 = match T5::try_default() {
            Result::Ok(x) => x,
            Result::Err(e) => {
                return Err(e);
            },
        };
        Ok((x0, x1, x2, x3, x4, x5))
    }

    fn try_from_cbor_value(value: Value) -> (r: Result<Self, DecodeError>) {
        match value {
            Value::Array(a) => {
                proof {
                    lemma_trees_of(a@);
                }
                if a.len() != 6 {
                    return Err(DecodeError::UnexpectedType);
                }
                let mut a = a;
                let v0 = a.remove(0);
                let v1 = a.remove(0);
                let v2 = a.remove(0);
                let v3 = a.remove(0);
                let v4 = a.remove(0);
                let v5 = a.remove(0);
                let x0 = match T0::try_from_cbor_value(v0) {
                    Result::Ok(x) => x,
                    Result::Err(e) => {
                        return Err(e);
                    },
                };
                let x1 = match T1::try_from_cbor_value(v1) {
                    Result::Ok(x) => x,
                    Result::Err(e) => {
                        return Err(e);
                    },
                };
                let x2 = match T2::try_from_cbor_value(v2) {
                    Result::Ok(x) => x,
                    Result::Err(e) => {
                        return Err(e);
                    },
                };
                let x3 = match T3::try_from_cbor_value(v3) {
                    Result::Ok(x) => x,
                    Result::Err(e) => {
                        return Err(e);
                    },
                };
                let x4 = match T4::try_from_cbor_value(v4) {
                    Result::Ok(x) => x,
                    Result::Err(e) => {
                        return Err(e);
                    },
                };
                let x5 = match T5::try_from_cbor_value(v5) {
                    Result::Ok(x) => x,
                    Result::Err(e) => {
                        return Err(e);
                    },
                };
                Ok((x0, x1, x2, x3, x4, x5))
            },
            _ => Err(DecodeError::UnexpectedType),
        }
    }
}

impl<T0: Lossless, T1: Lossless, T2: Lossless, T3: Lossless, T4: Lossless> Lossless for (T0, T1, T2, T3, T4) {
    proof fn lemma_round_trip(t: (T0::V, T1::V, T2::V, T3::V, T4::V)) {
        T0::lemma_round_trip(t.0);
        T1::lemma_round_trip(t.1);
        T2::lemma_round_trip(t.2);
        T3::lemma_round_trip(t.3);
        T4::lemma_round_trip(t.4);
        let es = seq![
            T0::enc_spec(t.0),
            T1::enc_spec(t.1),
            T2::enc_spec(t.2),
            T3::enc_spec(t.3),
            T4::enc_spec(t.4),
        ];
        assert(es.drop_first() =~= seq![T1::enc_spec(t.1), T2::enc_spec(t.2), T3::enc_spec(t.3), T4::enc_spec(t.4)]);
        assert(es.drop_first().drop_first() =~= seq![T2::enc_spec(t.2), T3::enc_spec(t.3), T4::enc_spec(t.4)]);
        assert(es.drop_first().drop_first().drop_first() =~= seq![T3::enc_spec(t.3), T4::enc_spec(t.4)]);
        assert(es.drop_first().drop_first().drop_first().drop_first() =~= seq![T4::enc_spec(t.4)]);
        assert(es.drop_first().drop_first().drop_first().drop_first().drop_first() =~= Seq::<Tree>::empty());
        assert(trees_wf(es.drop_first().drop_first().drop_first().drop_first().drop_first()));
        assert(trees_wf(es.drop_first().drop_first().drop_first().drop_first()));
        assert(trees_wf(es.drop_first().drop_first().drop_first()));
        assert(trees_wf(es.drop_first().drop_first()));
        assert(trees_wf(es.drop_first()));
        assert(trees_wf(es));
    }
}

impl<T0: Lossless, T1: Lossless, T2: Lossless, T3: Lossless, T4: Lossless, T5: Lossless> Lossless for (T0, T1, T2, T3, T4, T5) {
    proof fn lemma_round_trip(t: (T0::V, T1::V, T2::V, T3::V, T4::V, T5::V)) {
        T0::lemma_round_trip(t.0);
        T1::lemma_round_trip(t.1);
        T2::lemma_round_trip(t.2);
        T3::lemma_round_trip(t.3);
        T4::lemma_round_trip(t.4);
        T5::lemma_round_trip(t.5);
        let es = seq![
            T0::enc_spec(t.0),
            T1::enc_spec(t.1),
            T2::enc_spec(t.2),
            T3::enc_spec(t.3),
            T4::enc_spec(t.4),
            T5::enc_spec(t.5),
        ];
        assert(es.drop_first() =~= seq![T1::enc_spec(t.1), T2::enc_spec(t.2), T3::enc_spec(t.3), T4::enc_spec(t.4), T5::enc_spec(t.5)]);
        assert(es.drop_first().drop_first() =~= seq![T2::enc_spec(t.2), T3::enc_spec(t.3), T4::enc_spec(t.4), T5::enc_spec(t.5)]);
        assert(es.drop_first().drop_first().drop_first() =~= seq![T3::enc_spec(t.3), T4::enc_spec(t.4), T5::enc_spec(t.5)]);
        assert(es.drop_first().drop_first().drop_first().drop_first() =~= seq![T4::enc_spec(t.4), T5::enc_spec(t.5)]);
        assert(es.drop_first().drop_first().drop_first().drop_first().drop_first() =~= seq![T5::enc_spec(t.5)]);
        assert(es.drop_first().drop_first().drop_first().drop_first().drop_first().drop_first() =~= Seq::<Tree>::empty());
        assert(trees_wf(es.drop_first().drop_first().drop_first().drop_first().drop_first().drop_first()));
        assert(trees_wf(es.drop_first().drop_first().drop_first().drop_first().drop_first()));
        assert(trees_wf(es.drop_first().drop_first().drop_first().drop_first()));
        assert(trees_wf(es.drop_first().drop_first().drop_first()));
        assert(trees_wf(es.drop_first().drop_first()));
        assert(trees_wf(es.drop_first()));
        assert(trees_wf(es));
    }
}

impl<T0: Encode, T1: Encode, T2: Encode, T3: Encode, T4: Encode> EncodeNonNull for (T0, T1, T2, T3, T4) {
    proof fn lemma_enc_not_null(t: (T0::V, T1::V, T2::V, T3::V, T4::V)) {
    }
}

impl<T0: Encode, T1: Encode, T2: Encode, T3: Encode, T4: Encode, T5: Encode> EncodeNonNull for (T0, T1, T2, T3, T4, T5) {
    proof fn lemma_enc_not_null(t: (T0::V, T1::V, T2::V, T3::V, T4::V, T5::V)) {
    }
}

impl<T0: Decode> Decode for (T0,) {
    open spec fn default_spec() -> Result<(T0::V,), DecodeError> {
        match (T0::default_spec()) {
            (Result::Ok(x0)) => Result::Ok((x0,)),
            (Result::Err(e)) => Result::Err(e),
        }
    }

    open spec fn dec_spec(t: Tree) -> Result<(T0::V,), DecodeError> {
        match t {
            Tree::Array(s) => if s.len() != 1 {
                Result::Err(DecodeError::UnexpectedType)
            } else {
                match (T0::dec_spec(s[0])) {
                    (Result::Ok(x0)) => Result::Ok((x0,)),
                    (Result::Err(e)) => Result::Err(e),
                }
            },
            _ => Result::Err(DecodeError::UnexpectedType),
        }
    }

    fn try_default() -> (r: Result<Self, DecodeError>) {
        let x0 = match T0::try_default() {
            Result::Ok(x) => x,
            Result::Err(e) => {
                return Err(e);
            },
        };
        Ok((x0,))
    }

    fn try_from_cbor_value(value: Value) -> (r: Result<Self, DecodeError>) {
        match value {
            Value::Array(a) => {
                proof {
                    lemma_trees_of(a@);
                }
                if a.len() != 1 {
                    return Err(DecodeError::UnexpectedType);
                }
                let mut a = a;
                let v0 = a.remove(0);
                let x0 = match T0::try_from_cbor_value(v0) {
                    Result::Ok(x) => x,
                    Result::Err(e) => {
                        return Err(e);
                    },
                };
                Ok((x0,))
            },
            _ => Err(DecodeError::UnexpectedType),
        }
    }
}

impl<T0: Decode, T1: Decode, T2: Decode, T3: Decode, T4: Decode, T5: Decode, T6: Decode> Decode for (T0, T1, T2, T3, T4, T5, T6) {
    open spec fn default_spec() -> Result<(T0::V, T1::V, T2::V, T3::V, T4::V, T5::V, T6::V), DecodeError> {
        match (T0::default_spec(), T1::default_spec(), T2::default_spec(), T3::default_spec(), T4::default_spec(), T5::default_spec(), T6::default_spec()) {
            (Result::Ok(x0), Result::Ok(x1), Result::Ok(x2), Result::Ok(x3), Result::Ok(x4), Result::Ok(x5), Result::Ok(x6)) => Result::Ok((x0, x1, x2, x3, x4, x5, x6)),
            (Result::Err(e), _, _, _, _, _, _) => Result::Err(e),
            (_, Result::Err(e), _, _, _, _, _) => Result::Err(e),
            (_, _, Result::Err(e), _, _, _, _) => Result::Err(e),
            (_, _, _, Result::Err(e), _, _, _) => Result::Err(e),
            (_, _, _, _, Result::Err(e), _, _) => Result::Err(e),
            (_, _, _, _, _, Result::Err(e), _) => Result::Err(e),
            (_, _, _, _, _, _, Result::Err(e)) => Result::Err(e),
        }
    }

    open spec fn dec_spec(t: Tree) -> Result<(T0::V, T1::V, T2::V, T3::V, T4::V, T5::V, T6::V), DecodeError> {
        match t {
            Tree::Array(s) => if s.len() != 7 {
                Result::Err(DecodeError::UnexpectedType)
            } else {
                match (T0::dec_spec(s[0]), T1::dec_spec(s[1]), T2::dec_spec(s[2]), T3::dec_spec(s[3]), T4::dec_spec(s[4]), T5::dec_spec(s[5]), T6::dec_spec(s[6])) {
                    (Result::Ok(x0), Result::Ok(x1), Result::Ok(x2), Result::Ok(x3), Result::Ok(x4), Result::Ok(x5), Result::Ok(x6)) => Result::Ok((x0, x1, x2, x3, x4, x5, x6)),
                    (Result::Err(e), _, _, _, _, _, _) => Result::Err(e),
                    (_, Result::Err(e), _, _, _, _, _) => Result::Err(e),
                    (_, _, Result::Err(e), _, _, _, _) => Result::Err(e),
                    (_, _, _, Result::Err(e), _, _, _) => Result::Err(e),
                    (_, _, _, _, Result::Err(e), _, _) => Result::Err(e),
                    (_, _, _, _, _, Result::Err(e), _) => Result::Err(e),
                    (_, _, _, _, _, _, Result::Err(e)) => Result::Err(e),
                }
            },
            _ => Result::Err(DecodeError::UnexpectedType),
        }
    }

    fn try_default() -> (r: Result<Self, DecodeError>) {
        let x0 = match T0::try_default() {
            Result::Ok(x) => x,
            Result::Err(e) => {
                return Err(e);
            },
        };
        let x1 = match T1::try_default() {
            Result::Ok(x) => x,
            Result::Err(e) => {
                return Err(e);
            },
        };
        let x2 = match T2::try_default() {
            Result::Ok(x) => x,
            Result::Err(e) => {
                return Err(e);
            },
        };
        let x3 = match T3::try_default() {
            Result::Ok(x) => x,
            Result::Err(e) => {
                return Err(e);
            },
        };
        let x4 = match T4::try_default() {
            Result::Ok(x) => x,
            Result::Err(e) => {
                return Err(e);
            },
        };
        let x5 = match T5::try_default() {
            Result::Ok(x) => x,
            Result::Err(e) => {
                return Err(e);
            },
        };
        let x6 = match T6::try_default() {
            Result::Ok(x) => x,
            Result::Err(e) => {
                return Err(e);
            },
        };
        Ok((x0, x1, x2, x3, x4, x5, x6))
    }

    fn try_from_cbor_value(value: Value) -> (r: Result<Self, DecodeError>) {
        match value {
            Value::Array(a) => {
                proof {
                    lemma_trees_of(a@);
                }
                if a.len() != 7 {
                    return Err(DecodeError::UnexpectedType);
                }
                let mut a = a;
                let v0 = a.remove(0);
                let v1 = a.remove(0);
                let v2 = a.remove(0);
                let v3 = a.remove(0);
                let v4 = a.remove(0);
                let v5 = a.remove(0);
                let v6 = a.remove(0);
                let x0 = match T0::try_from_cbor_value(v0) {
                    Result::Ok(x) => x,
                    Result::Err(e) => {
                        return Err(e);
                    },
                };
                let x1 = match T1::try_from_cbor_value(v1) {
                    Result::Ok(x) => x,
                    Result::Err(e) => {
                        return Err(e);
                    },
                };
                let x2 = match T2::try_from_cbor_value(v2) {
                    Result::Ok(x) => x,
                    Result::Err(e) => {
                        return Err(e);
                    },
                };
                let x3 = match T3::try_from_cbor_value(v3) {
                    Result::Ok(x) => x,
                    Result::Err(e) => {
                        return Err(e);
                    },
                };
                let x4 = match T4::try_from_cbor_value(v4) {
                    Result::Ok(x) => x,
                    Result::Err(e) => {
                        return Err(e);
                    },
                };
                let x5 = match T5::try_from_cbor_value(v5) {
                    Result::Ok(x) => x,
                    Result::Err(e) => {
                        return Err(e);
                    },
                };
                let x6 = match T6::try_from_cbor_value(v6) {
                    Result::Ok(x) => x,
                    Result::Err(e) => {
                        return Err(e);
                    },
                };
                Ok((x0, x1, x2, x3, x4, x5, x6))
            },
            _ => Err(DecodeError::UnexpectedType),
        }
    }
}

impl<T0: Decode, T1: Decode, T2: Decode, T3: Decode, T4: Decode, T5: Decode, T6: Decode, T7: Decode> Decode for (T0, T1, T2, T3, T4, T5, T6, T7) {
    open spec fn default_spec() -> Result<(T0::V, T1::V, T2::V, T3::V, T4::V, T5::V, T6::V, T7::V), DecodeError> {
        match (T0::default_spec(), T1::default_spec(), T2::default_spec(), T3::default_spec(), T4::default_spec(), T5::default_spec(), T6::default_spec(), T7::default_spec()) {
            (Result::Ok(x0), Result::Ok(x1), Result::Ok(x2), Result::Ok(x3), Result::Ok(x4), Result::Ok(x5), Result::Ok(x6), Result::Ok(x7)) => Result::Ok((x0, x1, x2, x3, x4, x5, x6, x7)),
            (Result::Err(e), _, _, _, _, _, _, _) => Result::Err(e),
            (_, Result::Err(e), _, _, _, _, _, _) => Result::Err(e),
            (_, _, Result::Err(e), _, _, _, _, _) => Result::Err(e),
            (_, _, _, Result::Err(e), _, _, _, _) => Result::Err(e),
            (_, _, _, _, Result::Err(e), _, _, _) => Result::Err(e),
            (_, _, _, _, _, Result::Err(e), _, _) => Result::Err(e),
            (_, _, _, _, _, _, Result::Err(e), _) => Result::Err(e),
            (_, _, _, _, _, _, _, Result::Err(e)) => Result::Err(e),
        }
    }

    open spec fn dec_spec(t: Tree) -> Result<(T0::V, T1::V, T2::V, T3::V, T4::V, T5::V, T6::V, T7::V), DecodeError> {
        match t {
            Tree::Array(s) => if s.len() != 8 {
                Result::Err(DecodeError::UnexpectedType)
            } else {
                match (T0::dec_spec(s[0]), T1::dec_spec(s[1]), T2::dec_spec(s[2]), T3::dec_spec(s[3]), T4::dec_spec(s[4]), T5::dec_spec(s[5]), T6::dec_spec(s[6]), T7::dec_spec(s[7])) {
                    (Result::Ok(x0), Result::Ok(x1), Result::Ok(x2), Result::Ok(x3), Result::Ok(x4), Result::Ok(x5), Result::Ok(x6), Result::Ok(x7)) => Result::Ok((x0, x1, x2, x3, x4, x5, x6, x7)),
                    (Result::Err(e), _, _, _, _, _, _, _) => Result::Err(e),
                    (_, Result::Err(e), _, _, _, _, _, _) => Result::Err(e),
                    (_, _, Result::Err(e), _, _, _, _, _) => Result::Err(e),
                    (_, _, _, Result::Err(e), _, _, _, _) => Result::Err(e),
                    (_, _, _, _, Result::Err(e), _, _, _) => Result::Err(e),
                    (_, _, _, _, _, Result::Err(e), _, _) => Result::Err(e),
                    (_, _, _, _, _, _, Result::Err(e), _) => Result::Err(e),
                    (_, _, _, _, _, _, _, Result::Err(e)) => Result::Err(e),
                }
            },
            _ => Result::Err(DecodeError::UnexpectedType),
        }
    }

    fn try_default() -> (r: Result<Self, DecodeError>) {
        let x0 = match T0::try_default() {
            Result::Ok(x) => x,
            Result::Err(e) => {
                return Err(e);
            },
        };
        let x1 = match T1::try_default() {
            Result::Ok(x) => x,
            Result::Err(e) => {
                return Err(e);
            },
        };
        let x2 = match T2::try_default() {
            Result::Ok(x) => x,
            Result::Err(e) => {
                return Err(e);
            },
        };
        let x3 = match T3::try_default() {
            Result::Ok(x) => x,
            Result::Err(e) => {
                return Err(e);
            },
        };
        let x4 = match T4::try_default() {
            Result::Ok(x) => x,
            Result::Err(e) => {
                return Err(e);
            },
        };
        let x5 = match T5::try_default() {
            Result::Ok(x) => x,
            Result::Err(e) => {
                return Err(e);
            },
        };
        let x6 = match T6::try_default() {
            Result::Ok(x) => x,
            Result::Err(e) => {
                return Err(e);
            },
        };
        let x7 = match T7::try_default() {
            Result::Ok(x) => x,
            Result::Err(e) => {
                return Err(e);
            },
        };
        Ok((x0, x1, x2, x3, x4, x5, x6, x7))
    }

    fn try_from_cbor_value(value: Value) -> (r: Result<Self, DecodeError>) {
        match value {
            Value::Array(a) => {
                proof {
                    lemma_trees_of(a@);
                }
                if a.len() != 8 {
                    return Err(DecodeError::UnexpectedType);
                }
                let mut a = a;
                let v0 = a.remove(0);
                let v1 = a.remove(0);
                let v2 = a.remove(0);
                let v3 = a.remove(0);
                let v4 = a.remove(0);
                let v5 = a.remove(0);
                let v6 = a.remove(0);
                let v7 = a.remove(0);
                let x0 = match T0::try_from_cbor_value(v0) {
                    Result::Ok(x) => x,
                    Result::Err(e) => {
                        return Err(e);
                    },
                };
                let x1 = match T1::try_from_cbor_value(v1) {
                    Result::Ok(x) => x,
                    Result::Err(e) => {
                        return Err(e);
                    },
                };
                let x2 = match T2::try_from_cbor_value(v2) {
                    Result::Ok(x) => x,
                    Result::Err(e) => {
                        return Err(e);
                    },
                };
                let x3 = match T3::try_from_cbor_value(v3) {
                    Result::Ok(x) => x,
                    Result::Err(e) => {
                        return Err(e);
                    },
                };
                let x4 = match T4::try_from_cbor_value(v4) {
                    Result::Ok(x) => x,
                    Result::Err(e) => {
                        return Err(e);
                    },
                };
                let x5 = match T5::try_from_cbor_value(v5) {
                    Result::Ok(x) => x,
                    Result::Err(e) => {
                        return Err(e);
                    },
                };
                let x6 = match T6::try_from_cbor_value(v6) {
                    Result::Ok(x) => x,
                    Result::Err(e) => {
                        return Err(e);
                    },
                };
                let x7 = match T7::try_from_cbor_value(v7) {
                    Result::Ok(x) => x,
                    Result::Err(e) => {
                        return Err(e);
                    },
                };
                Ok((x0, x1, x2, x3, x4, x5, x6, x7))
            },
            _ => Err(DecodeError::UnexpectedType),
        }
    }
}

impl<T0: Decode, T1: Decode, T2: Decode, T3: Decode, T4: Decode, T5: Decode, T6: Decode, T7: Decode, T8: Decode> Decode for (T0, T1, T2, T3, T4, T5, T6, T7, T8) {
    open spec fn default_spec() -> Result<(T0::V, T1::V, T2::V, T3::V, T4::V, T5::V, T6::V, T7::V, T8::V), DecodeError> {
        match (T0::default_spec(), T1::default_spec(), T2::default_spec(), T3::default_spec(), T4::default_spec(), T5::default_spec(), T6::default_spec(), T7::default_spec(), T8::default_spec()) {
            (Result::Ok(x0), Result::Ok(x1), Result::Ok(x2), Result::Ok(x3), Result::Ok(x4), Result::Ok(x5), Result::Ok(x6), Result::Ok(x7), Result::Ok(x8)) => Result::Ok((x0, x1, x2, x3, x4, x5, x6, x7, x8)),
            (Result::Err(e), _, _, _, _, _, _, _, _) => Result::Err(e),
            (_, Result::Err(e), _, _, _, _, _, _, _) => Result::Err(e),
            (_, _, Result::Err(e), _, _, _, _, _, _) => Result::Err(e),
            (_, _, _, Result::Err(e), _, _, _, _, _) => Result::Err(e),
            (_, _, _, _, Result::Err(e), _, _, _, _) => Result::Err(e),
            (_, _, _, _, _, Result::Err(e), _, _, _) => Result::Err(e),
            (_, _, _, _, _, _, Result::Err(e), _, _) => Result::Err(e),
            (_, _, _, _, _, _, _, Result::Err(e), _) => Result::Err(e),
            (_, _, _, _, _, _, _, _, Result::Err(e)) => Result::Err(e),
        }
    }

    open spec fn dec_spec(t: Tree) -> Result<(T0::V, T1::V, T2::V, T3::V, T4::V, T5::V, T6::V, T7::V, T8::V), DecodeError> {
        match t {
            Tree::Array(s) => if s.len() != 9 {
                Result::Err(DecodeError::UnexpectedType)
            } else {
                match (T0::dec_spec(s[0]), T1::dec_spec(s[1]), T2::dec_spec(s[2]), T3::dec_spec(s[3]), T4::dec_spec(s[4]), T5::dec_spec(s[5]), T6::dec_spec(s[6]), T7::dec_spec(s[7]), T8::dec_spec(s[8])) {
                    (Result::Ok(x0), Result::Ok(x1), Result::Ok(x2), Result::Ok(x3), Result::Ok(x4), Result::Ok(x5), Result::Ok(x6), Result::Ok(x7), Result::Ok(x8)) => Result::Ok((x0, x1, x2, x3, x4, x5, x6, x7, x8)),
                    (Result::Err(e), _, _, _, _, _, _, _, _) => Result::Err(e),
                    (_, Result::Err(e), _, _, _, _, _, _, _) => Result::Err(e),
                    (_, _, Result::Err(e), _, _, _, _, _, _) => Result::Err(e),
                    (_, _, _, Result::Err(e), _, _, _, _, _) => Result::Err(e),
                    (_, _, _, _, Result::Err(e), _, _, _, _) => Result::Err(e),
                    (_, _, _, _, _, Result::Err(e), _, _, _) => Result::Err(e),
                    (_, _, _, _, _, _, Result::Err(e), _, _) => Result::Err(e),
                    (_, _, _, _, _, _, _, Result::Err(e), _) => Result::Err(e),
                    (_, _, _, _, _, _, _, _, Result::Err(e)) => Result::Err(e),
                }
            },
            _ => Result::Err(DecodeError::UnexpectedType),
        }
    }

    fn try_default() -> (r: Result<Self, DecodeError>) {
        let x0 = match T0::try_default() {
            Result::Ok(x) => x,
            Result::Err(e) => {
                return Err(e);
            },
        };
        let x1 = match T1::try_default() {
            Result::Ok(x) => x,
            Result::Err(e) => {
                return Err(e);
            },
        };
        let x2 = match T2::try_default() {
            Result::Ok(x) => x,
            Result::Err(e) => {
                return Err(e);
            },
        };
        let x3 = match T3::try_default() {
            Result::Ok(x) => x,
            Result::Err(e) => {
                return Err(e);
            },
        };
        let x4 = match T4::try_default() {
            Result::Ok(x) => x,
            Result::Err(e) => {
                return Err(e);
            },
        };
        let x5 = match T5::try_default() {
            Result::Ok(x) => x,
            Result::Err(e) => {
                return Err(e);
            },
        };
        let x6 = match T6::try_default() {
            Result::Ok(x) => x,
            Result::Err(e) => {
                return Err(e);
            },
        };
        let x7 = match T7::try_default() {
            Result::Ok(x) => x,
            Result::Err(e) => {
                return Err(e);
            },
        };
        let x8 = match T8::try_default() {
            Result::Ok(x) => x,
            Result::Err(e) => {
                return Err(e);
            },
        };
        Ok((x0, x1, x2, x3, x4, x5, x6, x7, x8))
    }

    fn try_from_cbor_value(value: Value) -> (r: Result<Self, DecodeError>) {
        match value {
            Value::Array(a) => {
                proof {
                    lemma_trees_of(a@);
                }
                if a.len() != 9 {
                    return Err(DecodeError::UnexpectedType);
                }
                let mut a = a;
                let v0 = a.remove(0);
                let v1 = a.remove(0);
                let v2 = a.remove(0);
                let v3 = a.remove(0);
                let v4 = a.remove(0);
                let v5 = a.remove(0);
                let v6 = a.remove(0);
                let v7 = a.remove(0);
                let v8 = a.remove(0);
                let x0 = match T0::try_from_cbor_value(v0) {
                    Result::Ok(x) => x,
                    Result::Err(e) => {
                        return Err(e);
                    },
                };
                let x1 = match T1::try_from_cbor_value(v1) {
                    Result::Ok(x) => x,
                    Result::Err(e) => {
                        return Err(e);
                    },
                };
                let x2 = match T2::try_from_cbor_value(v2) {
                    Result::Ok(x) => x,
                    Result::Err(e) => {
                        return Err(e);
                    },
                };
                let x3 = match T3::try_from_cbor_value(v3) {
                    Result::Ok(x) => x,
                    Result::Err(e) => {
                        return Err(e);
                    },
                };
                let x4 = match T4::try_from_cbor_value(v4) {
                    Result::Ok(x) => x,
                    Result::Err(e) => {
                        return Err(e);
                    },
                };
                let x5 = match T5::try_from_cbor_value(v5) {
                    Result::Ok(x) => x,
                    Result::Err(e) => {
                        return Err(e);
                    },
                };
                let x6 = match T6::try_from_cbor_value(v6) {
                    Result::Ok(x) => x,
                    Result::Err(e) => {
                        return Err(e);
                    },
                };
                let x7 = match T7::try_from_cbor_value(v7) {
                    Result::Ok(x) => x,
                    Result::Err(e) => {
                        return Err(e);
                    },
                };
                let x8 = match T8::try_from_cbor_value(v8) {
                    Result::Ok(x) => x,
                    Result::Err(e) => {
                        return Err(e);
                    },
                };
                Ok((x0, x1, x2, x3, x4, x5, x6, x7, x8))
            },
            _ => Err(DecodeError::UnexpectedType),
        }
    }
}

impl<T0: Decode, T1: Decode, T2: Decode, T3: Decode, T4: Decode, T5: Decode, T6: Decode, T7: Decode, T8: Decode, T9: Decode> Decode for (T0, T1, T2, T3, T4, T5, T6, T7, T8, T9) {
    open spec fn default_spec() -> Result<(T0::V, T1::V, T2::V, T3::V, T4::V, T5::V, T6::V, T7::V, T8::V, T9::V), DecodeError> {
        match (T0::default_spec(), T1::default_spec(), T2::default_spec(), T3::default_spec(), T4::default_spec(), T5::default_spec(), T6::default_spec(), T7::default_spec(), T8::default_spec(), T9::default_spec()) {
            (Result::Ok(x0), Result::Ok(x1), Result::Ok(x2), Result::Ok(x3), Result::Ok(x4), Result::Ok(x5), Result::Ok(x6), Result::Ok(x7), Result::Ok(x8), Result::Ok(x9)) => Result::Ok((x0, x1, x2, x3, x4, x5, x6, x7, x8, x9)),
            (Result::Err(e), _, _, _, _, _, _, _, _, _) => Result::Err(e),
            (_, Result::Err(e), _, _, _, _, _, _, _, _) => Result::Err(e),
            (_, _, Result::Err(e), _, _, _, _, _, _, _) => Result::Err(e),
            (_, _, _, Result::Err(e), _, _, _, _, _, _) => Result::Err(e),
            (_, _, _, _, Result::Err(e), _, _, _, _, _) => Result::Err(e),
            (_, _, _, _, _, Result::Err(e), _, _, _, _) => Result::Err(e),
            (_, _, _, _, _, _, Result::Err(e), _, _, _) => Result::Err(e),
            (_, _, _, _, _, _, _, Result::Err(e), _, _) => Result::Err(e),
            (_, _, _, _, _, _, _, _, Result::Err(e), _) => Result::Err(e),
            (_, _, _, _, _, _, _, _, _, Result::Err(e)) => Result::Err(e),
        }
    }

    open spec fn dec_spec(t: Tree) -> Result<(T0::V, T1::V, T2::V, T3::V, T4::V, T5::V, T6::V, T7::V, T8::V, T9::V), DecodeError> {
        match t {
            Tree::Array(s) => if s.len() != 10 {
                Result::Err(DecodeError::UnexpectedType)
            } else {
                match (T0::dec_spec(s[0]), T1::dec_spec(s[1]), T2::dec_spec(s[2]), T3::dec_spec(s[3]), T4::dec_spec(s[4]), T5::dec_spec(s[5]), T6::dec_spec(s[6]), T7::dec_spec(s[7]), T8::dec_spec(s[8]), T9::dec_spec(s[9])) {
                    (Result::Ok(x0), Result::Ok(x1), Result::Ok(x2), Result::Ok(x3), Result::Ok(x4), Result::Ok(x5), Result::Ok(x6), Result::Ok(x7), Result::Ok(x8), Result::Ok(x9)) => Result::Ok((x0, x1, x2, x3, x4, x5, x6, x7, x8, x9)),
                    (Result::Err(e), _, _, _, _, _, _, _, _, _) => Result::Err(e),
                    (_, Result::Err(e), _, _, _, _, _, _, _, _) => Result::Err(e),
                    (_, _, Result::Err(e), _, _, _, _, _, _, _) => Result::Err(e),
                    (_, _, _, Result::Err(e), _, _, _, _, _, _) => Result::Err(e),
                    (_, _, _, _, Result::Err(e), _, _, _, _, _) => Result::Err(e),
                    (_, _, _, _, _, Result::Err(e), _, _, _, _) => Result::Err(e),
                    (_, _, _, _, _, _, Result::Err(e), _, _, _) => Result::Err(e),
                    (_, _, _, _, _, _, _, Result::Err(e), _, _) => Result::Err(e),
                    (_, _, _, _, _, _, _, _, Result::Err(e), _) => Result::Err(e),
                    (_, _, _, _, _, _, _, _, _, Result::Err(e)) => Result::Err(e),
                }
            },
            _ => Result::Err(DecodeError::UnexpectedType),
        }
    }

    fn try_default() -> (r: Result<Self, DecodeError>) {
        let x0 = match T0::try_default() {
            Result::Ok(x) => x,
            Result::Err(e) => {
                return Err(e);
            },
        };
        let x1 = match T1::try_default() {
            Result::Ok(x) => x,
            Result::Err(e) => {
                return Err(e);
            },
        };
        let x2 = match T2::try_default() {
            Result::Ok(x) => x,
            Result::Err(e) => {
                return Err(e);
            },
        };
        let x3 = match T3::try_default() {
            Result::Ok(x) => x,
            Result::Err(e) => {
                return Err(e);
            },
        };
        let x4 = match T4::try_default() {
            Result::Ok(x) => x,
            Result::Err(e) => {
                return Err(e);
            },
        };
        let x5 = match T5::try_default() {
            Result::Ok(x) => x,
            Result::Err(e) => {
                return Err(e);
            },
        };
        let x6 = match T6::try_default() {
            Result::Ok(x) => x,
            Result::Err(e) => {
                return Err(e);
            },
        };
        let x7 = match T7::try_default() {
            Result::Ok(x) => x,
            Result::Err(e) => {
                return Err(e);
            },
        };
        let x8 = match T8::try_default() {
            Result::Ok(x) => x,
            Result::Err(e) => {
                return Err(e);
            },
        };
        let x9 = match T9::try_default() {
            Result::Ok(x) => x,
            Result::Err(e) => {
                return Err(e);
            },
        };
        Ok((x0, x1, x2, x3, x4, x5, x6, x7, x8, x9))
    }

    fn try_from_cbor_value(value: Value) -> (r: Result<Self, DecodeError>) {
        match value {
            Value::Array(a) => {
                proof {
                    lemma_trees_of(a@);
                }
                if a.len() != 10 {
                    return Err(DecodeError::UnexpectedType);
                }
                let mut a = a;
                let v0 = a.remove(0);
                let v1 = a.remove(0);
                let v2 = a.remove(0);
                let v3 = a.remove(0);
                let v4 = a.remove(0);
                let v5 = a.remove(0);
                let v6 = a.remove(0);
                let v7 = a.remove(0);
                let v8 = a.remove(0);
                let v9 = a.remove(0);
                let x0 = match T0::try_from_cbor_value(v0) {
                    Result::Ok(x) => x,
                    Result::Err(e) => {
                        return Err(e);
                    },
                };
                let x1 = match T1::try_from_cbor_value(v1) {
                    Result::Ok(x) => x,
                    Result::Err(e) => {
                        return Err(e);
                    },
                };
                let x2 = match T2::try_from_cbor_value(v2) {
                    Result::Ok(x) => x,
                    Result::Err(e) => {
                        return Err(e);
                    },
                };
                let x3 = match T3::try_from_cbor_value(v3) {
                    Result::Ok(x) => x,
                    Result::Err(e) => {
                        return Err(e);
                    },
                };
                let x4 = match T4::try_from_cbor_value(v4) {
                    Result::Ok(x) => x,
                    Result::Err(e) => {
                        return Err(e);
                    },
                };
                let x5 = match T5::try_from_cbor_value(v5) {
                    Result::Ok(x) => x,
                    Result::Err(e) => {
                        return Err(e);
                    },
                };
                let x6 = match T6::try_from_cbor_value(v6) {
                    Result::Ok(x) => x,
                    Result::Err(e) => {
                        return Err(e);
                    },
                };
                let x7 = match T7::try_from_cbor_value(v7) {
                    Result::Ok(x) => x,
                    Result::Err(e) => {
                        return Err(e);
                    },
                };
                let x8 = match T8::try_from_cbor_value(v8) {
                    Result::Ok(x) => x,
                    Result::Err(e) => {
                        return Err(e);
                    },
                };
                let x9 = match T9::try_from_cbor_value(v9) {
                    Result::Ok(x) => x,
                    Result::Err(e) => {
                        return Err(e);
                    },
                };
                Ok((x0, x1, x2, x3, x4, x5, x6, x7, x8, x9))
            },
            _ => Err(DecodeError::UnexpectedType),
        }
    }
}

impl<T0: Lossless> Lossless for (T0,) {
    proof fn lemma_round_trip(t: (T0::V,)) {
        T0::lemma_round_trip(t.0);
        let es = seq![
            T0::enc_spec(t.0),
        ];
        assert(es.drop_first() =~= Seq::<Tree>::empty());
        assert(trees_wf(es.drop_first()));
        assert(trees_wf(es));
    }
}

impl<T0: Lossless, T1: Lossless, T2: Lossless, T3: Lossless, T4: Lossless, T5: Lossless, T6: Lossless> Lossless for (T0, T1, T2, T3, T4, T5, T6) {
    proof fn lemma_round_trip(t: (T0::V, T1::V, T2::V, T3::V, T4::V, T5::V, T6::V)) {
        T0::lemma_round_trip(t.0);
        T1::lemma_round_trip(t.1);
        T2::lemma_round_trip(t.2);
        T3::lemma_round_trip(t.3);
        T4::lemma_round_trip(t.4);
        T5::lemma_round_trip(t.5);
        T6::lemma_round_trip(t.6);
        let es = seq![
            T0::enc_spec(t.0),
            T1::enc_spec(t.1),
            T2::enc_spec(t.2),
            T3::enc_spec(t.3),
            T4::enc_spec(t.4),
            T5::enc_spec(t.5),
            T6::enc_spec(t.6),
        ];
        assert(es.drop_first() =~= seq![T1::enc_spec(t.1), T2::enc_spec(t.2), T3::enc_spec(t.3), T4::enc_spec(t.4), T5::enc_spec(t.5), T6::enc_spec(t.6)]);
        assert(es.drop_first().drop_first() =~= seq![T2::enc_spec(t.2), T3::enc_spec(t.3), T4::enc_spec(t.4), T5::enc_spec(t.5), T6::enc_spec(t.6)]);
        assert(es.drop_first().drop_first().drop_first() =~= seq![T3::enc_spec(t.3), T4::enc_spec(t.4), T5::enc_spec(t.5), T6::enc_spec(t.6)]);
        assert(es.drop_first().drop_first().drop_first().drop_first() =~= seq![T4::enc_spec(t.4), T5::enc_spec(t.5), T6::enc_spec(t.6)]);
        assert(es.drop_first().drop_first().drop_first().drop_first().drop_first() =~= seq![T5::enc_spec(t.5), T6::enc_spec(t.6)]);
        assert(es.drop_first().drop_first().drop_first().drop_first().drop_first().drop_first() =~= seq![T6::enc_spec(t.6)]);
        assert(es.drop_first().drop_first().drop_first().drop_first().drop_first().drop_first().drop_first() =~= Seq::<Tree>::empty());
        assert(trees_wf(es.drop_first().drop_first().drop_first().drop_first().drop_first().drop_first().drop_first()));
        assert(trees_wf(es.drop_first().drop_first().drop_first().drop_first().drop_first().drop_first()));
        assert(trees_wf(es.drop_first().drop_first().drop_first().drop_first().drop_first()));
        assert(trees_wf(es.drop_first().drop_first().drop_first().drop_first()));
        assert(trees_wf(es.drop_first().drop_first().drop_first()));
        assert(trees_wf(es.drop_first().drop_first()));
        assert(trees_wf(es.drop_first()));
        assert(trees_wf(es));
    }
}

impl<T0: Lossless, T1: Lossless, T2: Lossless, T3: Lossless, T4: Lossless, T5: Lossless, T6: Lossless, T7: Lossless> Lossless for (T0, T1, T2, T3, T4, T5, T6, T7) {
    proof fn lemma_round_trip(t: (T0::V, T1::V, T2::V, T3::V, T4::V, T5::V, T6::V, T7::V)) {
        T0::lemma_round_trip(t.0);
        T1::lemma_round_trip(t.1);
        T2::lemma_round_trip(t.2);
        T3::lemma_round_trip(t.3);
        T4::lemma_round_trip(t.4);
        T5::lemma_round_trip(t.5);
        T6::lemma_round_trip(t.6);
        T7::lemma_round_trip(t.7);
        let es = seq![
            T0::enc_spec(t.0),
            T1::enc_spec(t.1),
            T2::enc_spec(t.2),
            T3::enc_spec(t.3),
            T4::enc_spec(t.4),
            T5::enc_spec(t.5),
            T6::enc_spec(t.6),
            T7::enc_spec(t.7),
        ];
        assert(es.drop_first() =~= seq![T1::enc_spec(t.1), T2::enc_spec(t.2), T3::enc_spec(t.3), T4::enc_spec(t.4), T5::enc_spec(t.5), T6::enc_spec(t.6), T7::enc_spec(t.7)]);
        assert(es.drop_first().drop_first() =~= seq![T2::enc_spec(t.2), T3::enc_spec(t.3), T4::enc_spec(t.4), T5::enc_spec(t.5), T6::enc_spec(t.6), T7::enc_spec(t.7)]);
        assert(es.drop_first().drop_first().drop_first() =~= seq![T3::enc_spec(t.3), T4::enc_spec(t.4), T5::enc_spec(t.5), T6::enc_spec(t.6), T7::enc_spec(t.7)]);
        assert(es.drop_first().drop_first().drop_first().drop_first() =~= seq![T4::enc_spec(t.4), T5::enc_spec(t.5), T6::enc_spec(t.6), T7::enc_spec(t.7)]);
        assert(es.drop_first().drop_first().drop_first().drop_first().drop_first() =~= seq![T5::enc_spec(t.5), T6::enc_spec(t.6), T7::enc_spec(t.7)]);
        assert(es.drop_first().drop_first().drop_first().drop_first().drop_first().drop_first() =~= seq![T6::enc_spec(t.6), T7::enc_spec(t.7)]);
        assert(es.drop_first().drop_first().drop_first().drop_first().drop_first().drop_first().drop_first() =~= seq![T7::enc_spec(t.7)]);
        assert(es.drop_first().drop_first().drop_first().drop_first().drop_first().drop_first().drop_first().drop_first() =~= Seq::<Tree>::empty());
        assert(trees_wf(es.drop_first().drop_first().drop_first().drop_first().drop_first().drop_first().drop_first().drop_first()));
        assert(trees_wf(es.drop_first().drop_first().drop_first().drop_first().drop_first().drop_first().drop_first()));
        assert(trees_wf(es.drop_first().drop_first().drop_first().drop_first().drop_first().drop_first()));
        assert(trees_wf(es.drop_first().drop_first().drop_first().drop_first().drop_first()));
        assert(trees_wf(es.drop_first().drop_first().drop_first().drop_first()));
        assert(trees_wf(es.drop_first().drop_first().drop_first()));
        assert(trees_wf(es.drop_first().drop_first()));
        assert(trees_wf(es.drop_first()));
        assert(trees_wf(es));
    }
}

impl<T0: Lossless, T1: Lossless, T2: Lossless, T3: Lossless, T4: Lossless, T5: Lossless, T6: Lossless, T7: Lossless, T8: Lossless> Lossless for (T0, T1, T2, T3, T4, T5, T6, T7, T8) {
    proof fn lemma_round_trip(t: (T0::V, T1::V, T2::V, T3::V, T4::V, T5::V, T6::V, T7::V, T8::V)) {
        T0::lemma_round_trip(t.0);
        T1::lemma_round_trip(t.1);
        T2::lemma_round_trip(t.2);
        T3::lemma_round_trip(t.3);
        T4::lemma_round_trip(t.4);
        T5::lemma_round_trip(t.5);
        T6::lemma_round_trip(t.6);
        T7::lemma_round_trip(t.7);
        T8::lemma_round_trip(t.8);
        let es = seq![
            T0::enc_spec(t.0),
            T1::enc_spec(t.1),
            T2::enc_spec(t.2),
            T3::enc_spec(t.3),
            T4::enc_spec(t.4),
            T5::enc_spec(t.5),
            T6::enc_spec(t.6),
            T7::enc_spec(t.7),
            T8::enc_spec(t.8),
        ];
        assert(es.drop_first() =~= seq![T1::enc_spec(t.1), T2::enc_spec(t.2), T3::enc_spec(t.3), T4::enc_spec(t.4), T5::enc_spec(t.5), T6::enc_spec(t.6), T7::enc_spec(t.7), T8::enc_spec(t.8)]);
        assert(es.drop_first().drop_first() =~= seq![T2::enc_spec(t.2), T3::enc_spec(t.3), T4::enc_spec(t.4), T5::enc_spec(t.5), T6::enc_spec(t.6), T7::enc_spec(t.7), T8::enc_spec(t.8)]);
        assert(es.drop_first().drop_first().drop_first() =~= seq![T3::enc_spec(t.3), T4::enc_spec(t.4), T5::enc_spec(t.5), T6::enc_spec(t.6), T7::enc_spec(t.7), T8::enc_spec(t.8)]);
        assert(es.drop_first().drop_first().drop_first().drop_first() =~= seq![T4::enc_spec(t.4), T5::enc_spec(t.5), T6::enc_spec(t.6), T7::enc_spec(t.7), T8::enc_spec(t.8)]);
        assert(es.drop_first().drop_first().drop_first().drop_first().drop_first() =~= seq![T5::enc_spec(t.5), T6::enc_spec(t.6), T7::enc_spec(t.7), T8::enc_spec(t.8)]);
        assert(es.drop_first().drop_first().drop_first().drop_first().drop_first().drop_first() =~= seq![T6::enc_spec(t.6), T7::enc_spec(t.7), T8::enc_spec(t.8)]);
        assert(es.drop_first().drop_first().drop_first().drop_first().drop_first().drop_first().drop_first() =~= seq![T7::enc_spec(t.7), T8::enc_spec(t.8)]);
        assert(es.drop_first().drop_first().drop_first().drop_first().drop_first().drop_first().drop_first().drop_first() =~= seq![T8::enc_spec(t.8)]);
        assert(es.drop_first().drop_first().drop_first().drop_first().drop_first().drop_first().drop_first().drop_first().drop_first() =~= Seq::<Tree>::empty());
        assert(trees_wf(es.drop_first().drop_first().drop_first().drop_first().drop_first().drop_first().drop_first().drop_first().drop_first()));
        assert(trees_wf(es.drop_first().drop_first().drop_first().drop_first().drop_first().drop_first().drop_first().drop_first()));
        assert(trees_wf(es.drop_first().drop_first().drop_first().drop_first().drop_first().drop_first().drop_first()));
        assert(trees_wf(es.drop_first().drop_first().drop_first().drop_first().drop_first().drop_first()));
        assert(trees_wf(es.drop_first().drop_first().drop_first().drop_first().drop_first()));
        assert(trees_wf(es.drop_first().drop_first().drop_first().drop_first()));
        assert(trees_wf(es.drop_first().drop_first().drop_first()));
        assert(trees_wf(es.drop_first().drop_first()));
        assert(trees_wf(es.drop_first()));
        assert(trees_wf(es));
    }
}

impl<T0: Lossless, T1: Lossless, T2: Lossless, T3: Lossless, T4: Lossless, T5: Lossless, T6: Lossless, T7: Lossless, T8: Lossless, T9: Lossless> Lossless for (T0, T1, T2, T3, T4, T5, T6, T7, T8, T9) {
    proof fn lemma_round_trip(t: (T0::V, T1::V, T2::V, T3::V, T4::V, T5::V, T6::V, T7::V, T8::V, T9::V)) {
        T0::lemma_round_trip(t.0);
        T1::lemma_round_trip(t.1);
        T2::lemma_round_trip(t.2);
        T3::lemma_round_trip(t.3);
        T4::lemma_round_trip(t.4);
        T5::lemma_round_trip(t.5);
        T6::lemma_round_trip(t.6);
        T7::lemma_round_trip(t.7);
        T8::lemma_round_trip(t.8);
        T9::lemma_round_trip(t.9);
        let es = seq![
            T0::enc_spec(t.0),
            T1::enc_spec(t.1),
            T2::enc_spec(t.2),
            T3::enc_spec(t.3),
            T4::enc_spec(t.4),
            T5::enc_spec(t.5),
            T6::enc_spec(t.6),
            T7::enc_spec(t.7),
            T8::enc_spec(t.8),
            T9::enc_spec(t.9),
        ];
        assert(es.drop_first() =~= seq![T1::enc_spec(t.1), T2::enc_spec(t.2), T3::enc_spec(t.3), T4::enc_spec(t.4), T5::enc_spec(t.5), T6::enc_spec(t.6), T7::enc_spec(t.7), T8::enc_spec(t.8), T9::enc_spec(t.9)]);
        assert(es.drop_first().drop_first() =~= seq![T2::enc_spec(t.2), T3::enc_spec(t.3), T4::enc_spec(t.4), T5::enc_spec(t.5), T6::enc_spec(t.6), T7::enc_spec(t.7), T8::enc_spec(t.8), T9::enc_spec(t.9)]);
        assert(es.drop_first().drop_first().drop_first() =~= seq![T3::enc_spec(t.3), T4::enc_spec(t.4), T5::enc_spec(t.5), T6::enc_spec(t.6), T7::enc_spec(t.7), T8::enc_spec(t.8), T9::enc_spec(t.9)]);
        assert(es.drop_first().drop_first().drop_first().drop_first() =~= seq![T4::enc_spec(t.4), T5::enc_spec(t.5), T6::enc_spec(t.6), T7::enc_spec(t.7), T8::enc_spec(t.8), T9::enc_spec(t.9)]);
        assert(es.drop_first().drop_first().drop_first().drop_first().drop_first() =~= seq![T5::enc_spec(t.5), T6::enc_spec(t.6), T7::enc_spec(t.7), T8::enc_spec(t.8), T9::enc_spec(t.9)]);
        assert(es.drop_first().drop_first().drop_first().drop_first().drop_first().drop_first() =~= seq![T6::enc_spec(t.6), T7::enc_spec(t.7), T8::enc_spec(t.8), T9::enc_spec(t.9)]);
        assert(es.drop_first().drop_first().drop_first().drop_first().drop_first().drop_first().drop_first() =~= seq![T7::enc_spec(t.7), T8::enc_spec(t.8), T9::enc_spec(t.9)]);
        assert(es.drop_first().drop_first().drop_first().drop_first().drop_first().drop_first().drop_first().drop_first() =~= seq![T8::enc_spec(t.8), T9::enc_spec(t.9)]);
        assert(es.drop_first().drop_first().drop_first().drop_first().drop_first().drop_first().drop_first().drop_first().drop_first() =~= seq![T9::enc_spec(t.9)]);
        assert(es.drop_first().drop_first().drop_first().drop_first().drop_first().drop_first().drop_first().drop_first().drop_first().drop_first() =~= Seq::<Tree>::empty());
        assert(trees_wf(es.drop_first().drop_first().drop_first().drop_first().drop_first().drop_first().drop_first().drop_first().drop_first().drop_first()));
        assert(trees_wf(es.drop_first().drop_first().drop_first().drop_first().drop_first().drop_first().drop_first().drop_first().drop_first()));
        assert(trees_wf(es.drop_first().drop_first().drop_first().drop_first().drop_first().drop_first().drop_first().drop_first()));
        assert(trees_wf(es.drop_first().drop_first().drop_first().drop_first().drop_first().drop_first().drop_first()));
        assert(trees_wf(es.drop_first().drop_first().drop_first().drop_first().drop_first().drop_first()));
        assert(trees_wf(es.drop_first().drop_first().drop_first().drop_first().drop_first()));
        assert(trees_wf(es.drop_first().drop_first().drop_first().drop_first()));
        assert(trees_wf(es.drop_first().drop_first().drop_first()));
        assert(trees_wf(es.drop_first().drop_first()));
        assert(trees_wf(es.drop_first()));
        assert(trees_wf(es));
    }
}

impl<T0: Encode> EncodeNonNull for (T0,) {
    proof fn lemma_enc_not_null(t: (T0::V,)) {
    }
}

impl<T0: Encode, T1: Encode, T2: Encode, T3: Encode, T4: Encode, T5: Encode, T6: Encode> EncodeNonNull for (T0, T1, T2, T3, T4, T5, T6) {
    proof fn lemma_enc_not_null(t: (T0::V, T1::V, T2::V, T3::V, T4::V, T5::V, T6::V)) {
    }
}

impl<T0: Encode, T1: Encode, T2: Encode, T3: Encode, T4: Encode, T5: Encode, T6: Encode, T7: Encode> EncodeNonNull for (T0, T1, T2, T3, T4, T5, T6, T7) {
    proof fn lemma_enc_not_null(t: (T0::V, T1::V, T2::V, T3::V, T4::V, T5::V, T6::V, T7::V)) {
    }
}

impl<T0: Encode, T1: Encode, T2: Encode, T3: Encode, T4: Encode, T5: Encode, T6: Encode, T7: Encode, T8: Encode> EncodeNonNull for (T0, T1, T2, T3, T4, T5, T6, T7, T8) {
    proof fn lemma_enc_not_null(t: (T0::V, T1::V, T2::V, T3::V, T4::V, T5::V, T6::V, T7::V, T8::V)) {
    }
}

impl<T0: Encode, T1: Encode, T2: Encode, T3: Encode, T4: Encode, T5: Encode, T6: Encode, T7: Encode, T8: Encode, T9: Encode> EncodeNonNull for (T0, T1, T2, T3, T4, T5, T6, T7, T8, T9) {
    proof fn lemma_enc_not_null(t: (T0::V, T1::V, T2::V, T3::V, T4::V, T5::V, T6::V, T7::V, T8::V, T9::V)) {
    }
}

/// Decode a CBOR byte string into a byte vector, the counterpart of the
/// byte-string encoding of byte vectors.
pub fn bytes_try_from_cbor_value(value: Value) -> (r: Result<Vec<u8>, DecodeError>)
    ensures
        match value.dv() {
            Tree::Bytes(b) => r matches Result::Ok(out) && out@ == b,
            _ => r == Result::<Vec<u8>, DecodeError>::Err(DecodeError::UnexpectedType),
        },
{
    match value {
        Value::ByteString(b) => Ok(b),
        _ => Err(DecodeError::UnexpectedType),
    }
}

/// Decode a CBOR byte string of exactly `n` bytes, as a fixed-size byte
/// array does: a byte string of any other length is an unexpected type.
pub fn fixed_bytes_try_from_cbor_value(value: Value, n: usize) -> (r: Result<Vec<u8>, DecodeError>)
    ensures
        match value.dv() {
            Tree::Bytes(b) => if b.len() == n as nat {
                r matches Result::Ok(out) && out@ == b
            } else {
                r == Result::<Vec<u8>, DecodeError>::Err(DecodeError::UnexpectedType)
            },
            _ => r == Result::<Vec<u8>, DecodeError>::Err(DecodeError::UnexpectedType),
        },
{
    match value {
        Value::ByteString(b) => if b.len() == n {
            Ok(b)
        } else {
            Err(DecodeError::UnexpectedType)
        },
        _ => Err(DecodeError::UnexpectedType),
    }
}

/// Elementwise round trip for sequences of a non-lossy element type.
pub proof fn lemma_round_trip_seq<T: Lossless>(s: Seq<T::V>)
    ensures
        dec_seq_spec::<T>(enc_seq_spec::<T>(s)) == Result::<Seq<T::V>, DecodeError>::Ok(s),
        trees_wf(enc_seq_spec::<T>(s)),
    decreases s.len(),
{
    let es = enc_seq_spec::<T>(s);
    if s.len() == 0 {
        assert(es.len() == 0);
        assert(s =~= Seq::<T::V>::empty());
    } else {
        T::lemma_round_trip(s[0]);
        lemma_round_trip_seq::<T>(s.drop_first());
        assert(es[0] == T::enc_spec(s[0]));
        assert(es.drop_first() =~= enc_seq_spec::<T>(s.drop_first()));
        assert(seq![s[0]] + s.drop_first() =~= s);
    }
}

impl Lossless for u8 {
    proof fn lemma_round_trip(t: u8) {
    }
}

impl Lossless for u16 {
    proof fn lemma_round_trip(t: u16) {
    }
}

impl Lossless for u32 {
    proof fn lemma_round_trip(t: u32) {
    }
}

impl Lossless for u64 {
    proof fn lemma_round_trip(t: u64) {
    }
}

impl Lossless for i8 {
    proof fn lemma_round_trip(t: i8) {
    }
}

impl Lossless for i16 {
    proof fn lemma_round_trip(t: i16) {
    }
}

impl Lossless for i32 {
    proof fn lemma_round_trip(t: i32) {
    }
}

impl Lossless for i64 {
    proof fn lemma_round_trip(t: i64) {
    }
}

impl Lossless for u128 {
    proof fn lemma_round_trip(t: u128) {
        assert(pow256(16) == 0x1_0000_0000_0000_0000_0000_0000_0000_0000) by {
            reveal_with_fuel(pow256, 17);
        }
        lemma_be_bytes_len(t as int, 16);
        lemma_be_bytes_round_trip(t as int);
    }
}

impl Lossless for bool {
    proof fn lemma_round_trip(t: bool) {
    }
}

impl Lossless for char {
    proof fn lemma_round_trip(t: char) {
        vstd::utf8::char_is_scalar(t);
        vstd::utf8::char_u32_cast(t, t as u32);
    }
}

impl Lossless for String {
    proof fn lemma_round_trip(t: Seq<char>) {
        vstd::utf8::encode_utf8_valid_utf8(t);
        vstd::utf8::encode_utf8_decode_utf8(t);
    }
}

impl Lossless for () {
    proof fn lemma_round_trip(t: ()) {
    }
}

impl<T: Lossless + EncodeNonNull> Lossless for Option<T> {
    proof fn lemma_round_trip(t: Option<T::V>) {
        match t {
            Option::Some(x) => {
                T::lemma_round_trip(x);
                T::lemma_enc_not_null(x);
            },
            Option::None => {},
        }
    }
}

impl<T: Lossless> Lossless for Vec<T> {
    proof fn lemma_round_trip(t: Seq<T::V>) {
        lemma_round_trip_seq::<T>(t);
    }
}

impl<T0: Lossless, T1: Lossless> Lossless for (T0, T1) {
    proof fn lemma_round_trip(t: (T0::V, T1::V)) {
        T0::lemma_round_trip(t.0);
        T1::lemma_round_trip(t.1);
        let es = seq![T0::enc_spec(t.0), T1::enc_spec(t.1)];
        assert(es.drop_first() =~= seq![T1::enc_spec(t.1)]);
        assert(es.drop_first().drop_first() =~= Seq::<Tree>::empty());
        assert(trees_wf(es.drop_first().drop_first()));
        assert(trees_wf(es.drop_first()));
        assert(trees_wf(es));
    }
}

impl<T0: Lossless, T1: Lossless, T2: Lossless> Lossless for (T0, T1, T2) {
    proof fn lemma_round_trip(t: (T0::V, T1::V, T2::V)) {
        T0::lemma_round_trip(t.0);
        T1::lemma_round_trip(t.1);
        T2::lemma_round_trip(t.2);
        let es = seq![T0::enc_spec(t.0), T1::enc_spec(t.1), T2::enc_spec(t.2)];
        assert(es.drop_first() =~= seq![T1::enc_spec(t.1), T2::enc_spec(t.2)]);
        assert(es.drop_first().drop_first() =~= seq![T2::enc_spec(t.2)]);
        assert(es.drop_first().drop_first().drop_first() =~= Seq::<Tree>::empty());
        assert(trees_wf(es.drop_first().drop_first().drop_first()));
        assert(trees_wf(es.drop_first().drop_first()));
        assert(trees_wf(es.drop_first()));
        assert(trees_wf(es));
    }
}

impl EncodeNonNull for u8 {
    proof fn lemma_enc_not_null(t: u8) {
    }
}

impl EncodeNonNull for u16 {
    proof fn lemma_enc_not_null(t: u16) {
    }
}

impl EncodeNonNull for u32 {
    proof fn lemma_enc_not_null(t: u32) {
    }
}

impl EncodeNonNull for u64 {
    proof fn lemma_enc_not_null(t: u64) {
    }
}

impl EncodeNonNull for i8 {
    proof fn lemma_enc_not_null(t: i8) {
    }
}

impl EncodeNonNull for i16 {
    proof fn lemma_enc_not_null(t: i16) {
    }
}

impl EncodeNonNull for i32 {
    proof fn lemma_enc_not_null(t: i32) {
    }
}

impl EncodeNonNull for i64 {
    proof fn lemma_enc_not_null(t: i64) {
    }
}

impl EncodeNonNull for u128 {
    proof fn lemma_enc_not_null(t: u128) {
    }
}

impl EncodeNonNull for bool {
    proof fn lemma_enc_not_null(t: bool) {
    }
}

impl EncodeNonNull for char {
    proof fn lemma_enc_not_null(t: char) {
    }
}

impl EncodeNonNull for String {
    proof fn lemma_enc_not_null(t: Seq<char>) {
    }
}

impl<T: Encode> EncodeNonNull for Vec<T> {
    proof fn lemma_enc_not_null(t: Seq<T::V>) {
    }
}

impl<T0: Encode, T1: Encode> EncodeNonNull for (T0, T1) {
    proof fn lemma_enc_not_null(t: (T0::V, T1::V)) {
    }
}

impl<T0: Encode, T1: Encode, T2: Encode> EncodeNonNull for (T0, T1, T2) {
    proof fn lemma_enc_not_null(t: (T0::V, T1::V, T2::V)) {
    }
}

/// Decode a fixed-size array of `n` elements of any decodable type: an
/// array decoded elementwise, accepted only at exactly `n` elements;
/// element errors take precedence over the length mismatch.
pub fn fixed_array_try_from_cbor_value<T: Decode>(value: Value, n: usize) -> (r: Result<
    Vec<T>,
    DecodeError,
>)
    ensures
        res_model(r) == (match value.dv() {
            Tree::Array(s) => match dec_seq_spec::<T>(s) {
                Result::Ok(xs) => if xs.len() == n as nat {
                    Result::<Seq<T::V>, DecodeError>::Ok(xs)
                } else {
                    Result::<Seq<T::V>, DecodeError>::Err(DecodeError::UnexpectedType)
                },
                Result::Err(e) => Result::<Seq<T::V>, DecodeError>::Err(e),
            },
            _ => Result::<Seq<T::V>, DecodeError>::Err(DecodeError::UnexpectedType),
        }),
{
    match Vec::<T>::try_from_cbor_value(value) {
        Result::Ok(xs) => {
            if xs.len() == n {
                Ok(xs)
            } else {
                Err(DecodeError::UnexpectedType)
            }
        },
        Result::Err(e) => Err(e),
    }
}

} // verus!
