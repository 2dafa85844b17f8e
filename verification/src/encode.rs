//! CBOR encoding: the `Encode` capability and its implementations for the
//! primitive types, containers and the value tree itself.
use vstd::prelude::*;

use crate::values::{
    lemma_trees_of, tree_of, trees_of, SimpleValue, Tree, Value,
};

verus! {

/// Trait for types that can be encoded into CBOR.
///
/// `enc_spec` is the mathematical encoding: it maps the deep view of a value
/// to the tree its encoding produces, and `into_cbor_value` is proved to
/// return exactly that tree.  `empty_spec` says when a value counts as empty
/// for the `optional` field treatment.
pub trait Encode: Sized + DeepView {
    /// The tree that encoding a value with this deep view produces.
    spec fn enc_spec(t: Self::V) -> Tree;

    /// Whether a value with this deep view is the empty value of the type.
    spec fn empty_spec(t: Self::V) -> bool;

    /// Whether the value is equal to the empty value for the type.
    fn is_empty(&self) -> (r: bool)
        ensures
            r == Self::empty_spec(self.deep_view()),
    ;

    /// Encode the type into a CBOR Value.
    fn into_cbor_value(self) -> (r: Value)
        ensures
            r.dv() == Self::enc_spec(self.deep_view()),
    ;

    /// Encode the type into an optional CBOR Value: `None` when the value
    /// is empty, its encoding otherwise.
    fn into_optional_cbor_value(self) -> (r: Option<Value>)
        ensures
            match r {
                Option::None => Self::empty_spec(self.deep_view()),
                Option::Some(v) => !Self::empty_spec(self.deep_view()) && v.dv()
                    == Self::enc_spec(self.deep_view()),
            },
    {
        if self.is_empty() {
            None
        } else {
            Some(self.into_cbor_value())
        }
    }
}

/// Trait for types that always encode as CBOR maps.
pub trait EncodeAsMap: Encode {
    /// Every encoding of such a type is a map.
    proof fn lemma_encodes_as_map(t: Self::V)
        ensures
            Self::enc_spec(t) is Mapping,
    ;

    /// Encode the type into a CBOR Map.
    fn into_cbor_value_map(self) -> (r: Value)
        ensures
            r.dv() == Self::enc_spec(self.deep_view()),
    {
        self.into_cbor_value()
    }

    /// Encode the type into a CBOR Map, returning the map items.
    fn into_cbor_map(self) -> (r: Vec<(Value, Value)>)
        ensures
            Tree::Mapping(crate::values::tree_pairs_of(r@)) == Self::enc_spec(self.deep_view()),
    {
        proof {
            Self::lemma_encodes_as_map(self.deep_view());
        }
        match self.into_cbor_value() {
            Value::Mapping(items) => items,
            _ => {
                proof {
                    assert(false);
                }
                Vec::new()
            },
        }
    }
}

impl Encode for u8 {
    open spec fn enc_spec(t: u8) -> Tree {
        Tree::Unsigned(t as u64)
    }

    open spec fn empty_spec(t: u8) -> bool {
        t == 0
    }

    fn is_empty(&self) -> (r: bool) {
        *self == 0
    }

    fn into_cbor_value(self) -> (r: Value) {
        Value::Unsigned(self as u64)
    }
}

impl Encode for u16 {
    open spec fn enc_spec(t: u16) -> Tree {
        Tree::Unsigned(t as u64)
    }

    open spec fn empty_spec(t: u16) -> bool {
        t == 0
    }

    fn is_empty(&self) -> (r: bool) {
        *self == 0
    }

    fn into_cbor_value(self) -> (r: Value) {
        Value::Unsigned(self as u64)
    }
}

impl Encode for u32 {
    open spec fn enc_spec(t: u32) -> Tree {
        Tree::Unsigned(t as u64)
    }

    open spec fn empty_spec(t: u32) -> bool {
        t == 0
    }

    fn is_empty(&self) -> (r: bool) {
        *self == 0
    }

    fn into_cbor_value(self) -> (r: Value) {
        Value::Unsigned(self as u64)
    }
}

impl Encode for u64 {
    open spec fn enc_spec(t: u64) -> Tree {
        Tree::Unsigned(t)
    }

    open spec fn empty_spec(t: u64) -> bool {
        t == 0
    }

    fn is_empty(&self) -> (r: bool) {
        *self == 0
    }

    fn into_cbor_value(self) -> (r: Value) {
        Value::Unsigned(self)
    }
}

impl Encode for i8 {
    open spec fn enc_spec(t: i8) -> Tree {
        Tree::of_int(t as int)
    }

    open spec fn empty_spec(t: i8) -> bool {
        t == 0
    }

    fn is_empty(&self) -> (r: bool) {
        *self == 0
    }

    fn into_cbor_value(self) -> (r: Value) {
        Value::integer(self as i64)
    }
}

impl Encode for i16 {
    open spec fn enc_spec(t: i16) -> Tree {
        Tree::of_int(t as int)
    }

    open spec fn empty_spec(t: i16) -> bool {
        t == 0
    }

    fn is_empty(&self) -> (r: bool) {
        *self == 0
    }

    fn into_cbor_value(self) -> (r: Value) {
        Value::integer(self as i64)
    }
}

impl Encode for i32 {
    open spec fn enc_spec(t: i32) -> Tree {
        Tree::of_int(t as int)
    }

    open spec fn empty_spec(t: i32) -> bool {
        t == 0
    }

    fn is_empty(&self) -> (r: bool) {
        *self == 0
    }

    fn into_cbor_value(self) -> (r: Value) {
        Value::integer(self as i64)
    }
}

impl Encode for i64 {
    open spec fn enc_spec(t: i64) -> Tree {
        Tree::of_int(t as int)
    }

    open spec fn empty_spec(t: i64) -> bool {
        t == 0
    }

    fn is_empty(&self) -> (r: bool) {
        *self == 0
    }

    fn into_cbor_value(self) -> (r: Value) {
        Value::integer(self)
    }
}

/// The big-endian bytes of an unsigned integer, with leading zero bytes
/// stripped; empty for zero.
pub open spec fn be_bytes_of(x: int) -> Seq<u8>
    decreases x,
{
    if x <= 0 {
        Seq::empty()
    } else {
        be_bytes_of(x / 256).push((x % 256) as u8)
    }
}

impl Encode for u128 {
    open spec fn enc_spec(t: u128) -> Tree {
        Tree::Bytes(be_bytes_of(t as int))
    }

    open spec fn empty_spec(t: u128) -> bool {
        t == 0
    }

    fn is_empty(&self) -> (r: bool) {
        *self == 0
    }

    fn into_cbor_value(self) -> (r: Value) {
        let mut out: Vec<u8> = Vec::new();
        let mut x = self;
        while x > 0
            invariant
                be_bytes_of(self as int) == be_bytes_of(x as int) + out@,
            decreases x,
        {
            let b = (x % 256) as u8;
            let ghost prev = x;
            x = x / 256;
            out.insert(0, b);
            proof {
                assert(x as int == prev as int / 256);
                assert(be_bytes_of(prev as int) == be_bytes_of(x as int).push(b));
                assert(be_bytes_of(x as int).push(b) + out@.drop_first() =~= be_bytes_of(
                    x as int,
                ) + out@);
            }
        }
        proof {
            assert(be_bytes_of(x as int) + out@ =~= out@);
        }
        Value::ByteString(out)
    }
}

impl Encode for bool {
    open spec fn enc_spec(t: bool) -> Tree {
        Tree::of_bool(t)
    }

    open spec fn empty_spec(t: bool) -> bool {
        !t
    }

    fn is_empty(&self) -> (r: bool) {
        !*self
    }

    fn into_cbor_value(self) -> (r: Value) {
        Value::bool_value(self)
    }
}

impl Encode for char {
    open spec fn enc_spec(t: char) -> Tree {
        Tree::Unsigned(t as u64)
    }

    open spec fn empty_spec(t: char) -> bool {
        t as u32 == 0
    }

    fn is_empty(&self) -> (r: bool) {
        (*self as u32) == 0
    }

    fn into_cbor_value(self) -> (r: Value) {
        Value::Unsigned(self as u64)
    }
}

impl Encode for String {
    open spec fn enc_spec(t: Seq<char>) -> Tree {
        Tree::Text(vstd::utf8::encode_utf8(t))
    }

    open spec fn empty_spec(t: Seq<char>) -> bool {
        t.len() == 0
    }

    fn is_empty(&self) -> (r: bool) {
        self.as_str().is_empty()
    }

    fn into_cbor_value(self) -> (r: Value) {
        Value::TextString(self)
    }
}

impl Encode for &str {
    open spec fn enc_spec(t: Seq<char>) -> Tree {
        Tree::Text(vstd::utf8::encode_utf8(t))
    }

    open spec fn empty_spec(t: Seq<char>) -> bool {
        vstd::utf8::encode_utf8(t).len() == 0
    }

    fn is_empty(&self) -> (r: bool) {
        let r = str::is_empty(self);
        proof {
            assert(self.deep_view() == (*self)@);
        }
        r
    }

    fn into_cbor_value(self) -> (r: Value) {
        let owned = self.to_string();
        proof {
            broadcast use vstd::string::to_string_from_display_ensures_for_str;

            assert(owned@ == self@);
        }
        Value::TextString(owned)
    }
}

impl Encode for () {
    open spec fn enc_spec(t: ()) -> Tree {
        Tree::null()
    }

    open spec fn empty_spec(t: ()) -> bool {
        true
    }

    fn is_empty(&self) -> (r: bool) {
        true
    }

    fn into_cbor_value(self) -> (r: Value) {
        Value::Simple(SimpleValue::NullValue)
    }
}

impl Encode for Value {
    open spec fn enc_spec(t: Tree) -> Tree {
        t
    }

    open spec fn empty_spec(t: Tree) -> bool {
        t.is_null_or_undefined()
    }

    fn is_empty(&self) -> (r: bool) {
        match self {
            Value::Simple(SimpleValue::NullValue) => true,
            Value::Simple(SimpleValue::Undefined) => true,
            _ => false,
        }
    }

    fn into_cbor_value(self) -> (r: Value) {
        self
    }
}

impl<T: Encode> Encode for Option<T> {
    open spec fn enc_spec(t: Option<T::V>) -> Tree {
        match t {
            Option::Some(x) => T::enc_spec(x),
            Option::None => Tree::null(),
        }
    }

    open spec fn empty_spec(t: Option<T::V>) -> bool {
        t is None
    }

    fn is_empty(&self) -> (r: bool) {
        self.is_none()
    }

    fn into_cbor_value(self) -> (r: Value) {
        match self {
            Option::Some(v) => v.into_cbor_value(),
            Option::None => Value::Simple(SimpleValue::NullValue),
        }
    }
}

/// The elementwise encoding of a sequence of values.
pub open spec fn enc_seq_spec<T: Encode>(s: Seq<T::V>) -> Seq<Tree> {
    Seq::new(s.len(), |i: int| T::enc_spec(s[i]))
}

/// The elementwise array encoding for every element type, `u8` included:
/// without specialization the byte-string form of byte vectors cannot share
/// this implementation; it is carried by [`crate::containers::Bytes`] and
/// the function form [`bytes_into_cbor_value`].
impl<T: Encode> Encode for Vec<T> {
    open spec fn enc_spec(t: Seq<T::V>) -> Tree {
        Tree::Array(enc_seq_spec::<T>(t))
    }

    open spec fn empty_spec(t: Seq<T::V>) -> bool {
        t.len() == 0
    }

    fn is_empty(&self) -> (r: bool) {
        self.len() == 0
    }

    #[verifier::loop_isolation(false)]
    #[verifier::spinoff_prover]
    #[verifier::rlimit(30)]
    fn into_cbor_value(self) -> (r: Value) {
        let ghost orig = self.deep_view();
        proof {
            assert(Self::enc_spec(orig) == Tree::Array(enc_seq_spec::<T>(orig)));
        }
        let mut rest = self;
        let mut out: Vec<Value> = Vec::new();
        while rest.len() > 0
            invariant
                out@.len() + rest@.len() == orig.len(),
                forall|k: int| 0 <= k < out@.len() ==> tree_of(#[trigger] out@[k]) == T::enc_spec(
                    orig[k],
                ),
                forall|k: int|
                    0 <= k < rest@.len() ==> (#[trigger] rest@[k]).deep_view() == orig[out@.len()
                        + k],
            decreases rest@.len(),
        {
            let v = rest.remove(0);
            out.push(v.into_cbor_value());
        }
        proof {
            lemma_trees_of(out@);
            assert(trees_of(out@) =~= enc_seq_spec::<T>(orig));
            assert(Value::Array(out).dv() == Tree::Array(trees_of(out@)));
        }
        Value::Array(out)
    }
}

impl<T0: Encode, T1: Encode> Encode for (T0, T1) {
    open spec fn enc_spec(t: (T0::V, T1::V)) -> Tree {
        Tree::Array(seq![T0::enc_spec(t.0), T1::enc_spec(t.1)])
    }

    open spec fn empty_spec(t: (T0::V, T1::V)) -> bool {
        T0::empty_spec(t.0) && T1::empty_spec(t.1)
    }

    fn is_empty(&self) -> (r: bool) {
        self.0.is_empty() && self.1.is_empty()
    }

    fn into_cbor_value(self) -> (r: Value) {
        let mut out: Vec<Value> = Vec::new();
        out.push(self.0.into_cbor_value());
        out.push(self.1.into_cbor_value());
        proof {
            lemma_trees_of(out@);
            assert(trees_of(out@) =~= seq![
                T0::enc_spec(self.deep_view().0),
                T1::enc_spec(self.deep_view().1),
            ]);
        }
        Value::Array(out)
    }
}

impl<T0: Encode, T1: Encode, T2: Encode> Encode for (T0, T1, T2) {
    open spec fn enc_spec(t: (T0::V, T1::V, T2::V)) -> Tree {
        Tree::Array(seq![T0::enc_spec(t.0), T1::enc_spec(t.1), T2::enc_spec(t.2)])
    }

    open spec fn empty_spec(t: (T0::V, T1::V, T2::V)) -> bool {
        T0::empty_spec(t.0) && T1::empty_spec(t.1) && T2::empty_spec(t.2)
    }

    fn is_empty(&self) -> (r: bool) {
        self.0.is_empty() && self.1.is_empty() && self.2.is_empty()
    }

    fn into_cbor_value(self) -> (r: Value) {
        let mut out: Vec<Value> = Vec::new();
        out.push(self.0.into_cbor_value());
        out.push(self.1.into_cbor_value());
        out.push(self.2.into_cbor_value());
        proof {
            lemma_trees_of(out@);
            assert(trees_of(out@) =~= seq![
                T0::enc_spec(self.deep_view().0),
                T1::enc_spec(self.deep_view().1),
                T2::enc_spec(self.deep_view().2),
            ]);
        }
        Value::Array(out)
    }
}

impl<T0: Encode, T1: Encode, T2: Encode, T3: Encode> Encode for (T0, T1, T2, T3) {
    open spec fn enc_spec(t: (T0::V, T1::V, T2::V, T3::V)) -> Tree {
        Tree::Array(
            seq![
                T0::enc_spec(t.0),
                T1::enc_spec(t.1),
                T2::enc_spec(t.2),
                T3::enc_spec(t.3),
            ],
        )
    }

    open spec fn empty_spec(t: (T0::V, T1::V, T2::V, T3::V)) -> bool {
        T0::empty_spec(t.0) && T1::empty_spec(t.1) && T2::empty_spec(t.2) && T3::empty_spec(t.3)
    }

    fn is_empty(&self) -> (r: bool) {
        self.0.is_empty() && self.1.is_empty() && self.2.is_empty() && self.3.is_empty()
    }

    fn into_cbor_value(self) -> (r: Value) {
        let mut out: Vec<Value> = Vec::new();
        out.push(self.0.into_cbor_value());
        out.push(self.1.into_cbor_value());
        out.push(self.2.into_cbor_value());
        out.push(self.3.into_cbor_value());
        proof {
            lemma_trees_of(out@);
            assert(trees_of(out@) =~= seq![
                T0::enc_spec(self.deep_view().0),
                T1::enc_spec(self.deep_view().1),
                T2::enc_spec(self.deep_view().2),
                T3::enc_spec(self.deep_view().3),
            ]);
        }
        Value::Array(out)
    }
}

impl<T0: Encode, T1: Encode, T2: Encode, T3: Encode, T4: Encode> Encode for (T0, T1, T2, T3, T4) {
    open spec fn enc_spec(t: (T0::V, T1::V, T2::V, T3::V, T4::V)) -> Tree {
        Tree::Array(
            seq![
                T0::enc_spec(t.0),
                T1::enc_spec(t.1),
                T2::enc_spec(t.2),
                T3::enc_spec(t.3),
                T4::enc_spec(t.4),
            ],
        )
    }

    open spec fn empty_spec(t: (T0::V, T1::V, T2::V, T3::V, T4::V)) -> bool {
        T0::empty_spec(t.0) && T1::empty_spec(t.1) && T2::empty_spec(t.2) && T3::empty_spec(t.3) && T4::empty_spec(t.4)
    }

    fn is_empty(&self) -> (r: bool) {
        self.0.is_empty() && self.1.is_empty() && self.2.is_empty() && self.3.is_empty() && self.4.is_empty()
    }

    fn into_cbor_value(self) -> (r: Value) {
        let mut out: Vec<Value> = Vec::new();
        out.push(self.0.into_cbor_value());
        out.push(self.1.into_cbor_value());
        out.push(self.2.into_cbor_value());
        out.push(self.3.into_cbor_value());
        out.push(self.4.into_cbor_value());
        proof {
            lemma_trees_of(out@);
            assert(trees_of(out@) =~= seq![
                T0::enc_spec(self.deep_view().0),
                T1::enc_spec(self.deep_view().1),
                T2::enc_spec(self.deep_view().2),
                T3::enc_spec(self.deep_view().3),
                T4::enc_spec(self.deep_view().4),
            ]);
        }
        Value::Array(out)
    }
}

impl<T0: Encode, T1: Encode, T2: Encode, T3: Encode, T4: Encode, T5: Encode> Encode for (T0, T1, T2, T3, T4, T5) {
    open spec fn enc_spec(t: (T0::V, T1::V, T2::V, T3::V, T4::V, T5::V)) -> Tree {
        Tree::Array(
            seq![
                T0::enc_spec(t.0),
                T1::enc_spec(t.1),
                T2::enc_spec(t.2),
                T3::enc_spec(t.3),
                T4::enc_spec(t.4),
                T5::enc_spec(t.5),
            ],
        )
    }

    open spec fn empty_spec(t: (T0::V, T1::V, T2::V, T3::V, T4::V, T5::V)) -> bool {
        T0::empty_spec(t.0) && T1::empty_spec(t.1) && T2::empty_spec(t.2) && T3::empty_spec(t.3) && T4::empty_spec(t.4) && T5::empty_spec(t.5)
    }

    fn is_empty(&self) -> (r: bool) {
        self.0.is_empty() && self.1.is_empty() && self.2.is_empty() && self.3.is_empty() && self.4.is_empty() && self.5.is_empty()
    }

    fn into_cbor_value(self) -> (r: Value) {
        let mut out: Vec<Value> = Vec::new();
        out.push(self.0.into_cbor_value());
        out.push(self.1.into_cbor_value());
        out.push(self.2.into_cbor_value());
        out.push(self.3.into_cbor_value());
        out.push(self.4.into_cbor_value());
        out.push(self.5.into_cbor_value());
        proof {
            lemma_trees_of(out@);
            assert(trees_of(out@) =~= seq![
                T0::enc_spec(self.deep_view().0),
                T1::enc_spec(self.deep_view().1),
                T2::enc_spec(self.deep_view().2),
                T3::enc_spec(self.deep_view().3),
                T4::enc_spec(self.deep_view().4),
                T5::enc_spec(self.deep_view().5),
            ]);
        }
        Value::Array(out)
    }
}

impl<T0: Encode> Encode for (T0,) {
    open spec fn enc_spec(t: (T0::V,)) -> Tree {
        Tree::Array(
            seq![
                T0::enc_spec(t.0),
            ],
        )
    }

    open spec fn empty_spec(t: (T0::V,)) -> bool {
        T0::empty_spec(t.0)
    }

    fn is_empty(&self) -> (r: bool) {
        self.0.is_empty()
    }

    fn into_cbor_value(self) -> (r: Value) {
        let mut out: Vec<Value> = Vec::new();
        out.push(self.0.into_cbor_value());
        proof {
            lemma_trees_of(out@);
            assert(trees_of(out@) =~= seq![
                T0::enc_spec(self.deep_view().0),
            ]);
        }
        Value::Array(out)
    }
}

impl<T0: Encode, T1: Encode, T2: Encode, T3: Encode, T4: Encode, T5: Encode, T6: Encode> Encode for (T0, T1, T2, T3, T4, T5, T6) {
    open spec fn enc_spec(t: (T0::V, T1::V, T2::V, T3::V, T4::V, T5::V, T6::V)) -> Tree {
        Tree::Array(
            seq![
                T0::enc_spec(t.0),
                T1::enc_spec(t.1),
                T2::enc_spec(t.2),
                T3::enc_spec(t.3),
                T4::enc_spec(t.4),
                T5::enc_spec(t.5),
                T6::enc_spec(t.6),
            ],
        )
    }

    open spec fn empty_spec(t: (T0::V, T1::V, T2::V, T3::V, T4::V, T5::V, T6::V)) -> bool {
        T0::empty_spec(t.0) && T1::empty_spec(t.1) && T2::empty_spec(t.2) && T3::empty_spec(t.3) && T4::empty_spec(t.4) && T5::empty_spec(t.5) && T6::empty_spec(t.6)
    }

    fn is_empty(&self) -> (r: bool) {
        self.0.is_empty() && self.1.is_empty() && self.2.is_empty() && self.3.is_empty() && self.4.is_empty() && self.5.is_empty() && self.6.is_empty()
    }

    fn into_cbor_value(self) -> (r: Value) {
        let mut out: Vec<Value> = Vec::new();
        out.push(self.0.into_cbor_value());
        out.push(self.1.into_cbor_value());
        out.push(self.2.into_cbor_value());
        out.push(self.3.into_cbor_value());
        out.push(self.4.into_cbor_value());
        out.push(self.5.into_cbor_value());
        out.push(self.6.into_cbor_value());
        proof {
            lemma_trees_of(out@);
            assert(trees_of(out@) =~= seq![
                T0::enc_spec(self.deep_view().0),
                T1::enc_spec(self.deep_view().1),
                T2::enc_spec(self.deep_view().2),
                T3::enc_spec(self.deep_view().3),
                T4::enc_spec(self.deep_view().4),
                T5::enc_spec(self.deep_view().5),
                T6::enc_spec(self.deep_view().6),
            ]);
        }
        Value::Array(out)
    }
}

impl<T0: Encode, T1: Encode, T2: Encode, T3: Encode, T4: Encode, T5: Encode, T6: Encode, T7: Encode> Encode for (T0, T1, T2, T3, T4, T5, T6, T7) {
    open spec fn enc_spec(t: (T0::V, T1::V, T2::V, T3::V, T4::V, T5::V, T6::V, T7::V)) -> Tree {
        Tree::Array(
            seq![
                T0::enc_spec(t.0),
                T1::enc_spec(t.1),
                T2::enc_spec(t.2),
                T3::enc_spec(t.3),
                T4::enc_spec(t.4),
                T5::enc_spec(t.5),
                T6::enc_spec(t.6),
                T7::enc_spec(t.7),
            ],
        )
    }

    open spec fn empty_spec(t: (T0::V, T1::V, T2::V, T3::V, T4::V, T5::V, T6::V, T7::V)) -> bool {
        T0::empty_spec(t.0) && T1::empty_spec(t.1) && T2::empty_spec(t.2) && T3::empty_spec(t.3) && T4::empty_spec(t.4) && T5::empty_spec(t.5) && T6::empty_spec(t.6) && T7::empty_spec(t.7)
    }

    fn is_empty(&self) -> (r: bool) {
        self.0.is_empty() && self.1.is_empty() && self.2.is_empty() && self.3.is_empty() && self.4.is_empty() && self.5.is_empty() && self.6.is_empty() && self.7.is_empty()
    }

    fn into_cbor_value(self) -> (r: Value) {
        let mut out: Vec<Value> = Vec::new();
        out.push(self.0.into_cbor_value());
        out.push(self.1.into_cbor_value());
        out.push(self.2.into_cbor_value());
        out.push(self.3.into_cbor_value());
        out.push(self.4.into_cbor_value());
        out.push(self.5.into_cbor_value());
        out.push(self.6.into_cbor_value());
        out.push(self.7.into_cbor_value());
        proof {
            lemma_trees_of(out@);
            assert(trees_of(out@) =~= seq![
                T0::enc_spec(self.deep_view().0),
                T1::enc_spec(self.deep_view().1),
                T2::enc_spec(self.deep_view().2),
                T3::enc_spec(self.deep_view().3),
                T4::enc_spec(self.deep_view().4),
                T5::enc_spec(self.deep_view().5),
                T6::enc_spec(self.deep_view().6),
                T7::enc_spec(self.deep_view().7),
            ]);
        }
        Value::Array(out)
    }
}

impl<T0: Encode, T1: Encode, T2: Encode, T3: Encode, T4: Encode, T5: Encode, T6: Encode, T7: Encode, T8: Encode> Encode for (T0, T1, T2, T3, T4, T5, T6, T7, T8) {
    open spec fn enc_spec(t: (T0::V, T1::V, T2::V, T3::V, T4::V, T5::V, T6::V, T7::V, T8::V)) -> Tree {
        Tree::Array(
            seq![
                T0::enc_spec(t.0),
                T1::enc_spec(t.1),
                T2::enc_spec(t.2),
                T3::enc_spec(t.3),
                T4::enc_spec(t.4),
                T5::enc_spec(t.5),
                T6::enc_spec(t.6),
                T7::enc_spec(t.7),
                T8::enc_spec(t.8),
            ],
        )
    }

    open spec fn empty_spec(t: (T0::V, T1::V, T2::V, T3::V, T4::V, T5::V, T6::V, T7::V, T8::V)) -> bool {
        T0::empty_spec(t.0) && T1::empty_spec(t.1) && T2::empty_spec(t.2) && T3::empty_spec(t.3) && T4::empty_spec(t.4) && T5::empty_spec(t.5) && T6::empty_spec(t.6) && T7::empty_spec(t.7) && T8::empty_spec(t.8)
    }

    fn is_empty(&self) -> (r: bool) {
        self.0.is_empty() && self.1.is_empty() && self.2.is_empty() && self.3.is_empty() && self.4.is_empty() && self.5.is_empty() && self.6.is_empty() && self.7.is_empty() && self.8.is_empty()
    }

    fn into_cbor_value(self) -> (r: Value) {
        let mut out: Vec<Value> = Vec::new();
        out.push(self.0.into_cbor_value());
        out.push(self.1.into_cbor_value());
        out.push(self.2.into_cbor_value());
        out.push(self.3.into_cbor_value());
        out.push(self.4.into_cbor_value());
        out.push(self.5.into_cbor_value());
        out.push(self.6.into_cbor_value());
        out.push(self.7.into_cbor_value());
        out.push(self.8.into_cbor_value());
        proof {
            lemma_trees_of(out@);
            assert(trees_of(out@) =~= seq![
                T0::enc_spec(self.deep_view().0),
                T1::enc_spec(self.deep_view().1),
                T2::enc_spec(self.deep_view().2),
                T3::enc_spec(self.deep_view().3),
                T4::enc_spec(self.deep_view().4),
                T5::enc_spec(self.deep_view().5),
                T6::enc_spec(self.deep_view().6),
                T7::enc_spec(self.deep_view().7),
                T8::enc_spec(self.deep_view().8),
            ]);
        }
        Value::Array(out)
    }
}

impl<T0: Encode, T1: Encode, T2: Encode, T3: Encode, T4: Encode, T5: Encode, T6: Encode, T7: Encode, T8: Encode, T9: Encode> Encode for (T0, T1, T2, T3, T4, T5, T6, T7, T8, T9) {
    open spec fn enc_spec(t: (T0::V, T1::V, T2::V, T3::V, T4::V, T5::V, T6::V, T7::V, T8::V, T9::V)) -> Tree {
        Tree::Array(
            seq![
                T0::enc_spec(t.0),
                T1::enc_spec(t.1),
                T2::enc_spec(t.2),
                T3::enc_spec(t.3),
                T4::enc_spec(t.4),
                T5::enc_spec(t.5),
                T6::enc_spec(t.6),
                T7::enc_spec(t.7),
                T8::enc_spec(t.8),
                T9::enc_spec(t.9),
            ],
        )
    }

    open spec fn empty_spec(t: (T0::V, T1::V, T2::V, T3::V, T4::V, T5::V, T6::V, T7::V, T8::V, T9::V)) -> bool {
        T0::empty_spec(t.0) && T1::empty_spec(t.1) && T2::empty_spec(t.2) && T3::empty_spec(t.3) && T4::empty_spec(t.4) && T5::empty_spec(t.5) && T6::empty_spec(t.6) && T7::empty_spec(t.7) && T8::empty_spec(t.8) && T9::empty_spec(t.9)
    }

    fn is_empty(&self) -> (r: bool) {
        self.0.is_empty() && self.1.is_empty() && self.2.is_empty() && self.3.is_empty() && self.4.is_empty() && self.5.is_empty() && self.6.is_empty() && self.7.is_empty() && self.8.is_empty() && self.9.is_empty()
    }

    fn into_cbor_value(self) -> (r: Value) {
        let mut out: Vec<Value> = Vec::new();
        out.push(self.0.into_cbor_value());
        out.push(self.1.into_cbor_value());
        out.push(self.2.into_cbor_value());
        out.push(self.3.into_cbor_value());
        out.push(self.4.into_cbor_value());
        out.push(self.5.into_cbor_value());
        out.push(self.6.into_cbor_value());
        out.push(self.7.into_cbor_value());
        out.push(self.8.into_cbor_value());
        out.push(self.9.into_cbor_value());
        proof {
            lemma_trees_of(out@);
            assert(trees_of(out@) =~= seq![
                T0::enc_spec(self.deep_view().0),
                T1::enc_spec(self.deep_view().1),
                T2::enc_spec(self.deep_view().2),
                T3::enc_spec(self.deep_view().3),
                T4::enc_spec(self.deep_view().4),
                T5::enc_spec(self.deep_view().5),
                T6::enc_spec(self.deep_view().6),
                T7::enc_spec(self.deep_view().7),
                T8::enc_spec(self.deep_view().8),
                T9::enc_spec(self.deep_view().9),
            ]);
        }
        Value::Array(out)
    }
}

/// Encode a byte vector as a CBOR byte string; the elementwise array form
/// is what `Vec<u8>`'s generic implementation would give instead.
pub fn bytes_into_cbor_value(b: Vec<u8>) -> (r: Value)
    ensures
        r.dv() == Tree::Bytes(b@),
{
    Value::ByteString(b)
}

} // verus!
