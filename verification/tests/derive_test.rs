//! The schema-driven codec exercised through hand-written bindings for a
//! family of concrete types, mirroring what compile-time derivation would
//! emit: struct and enum encoding strategies, canonical map order, strict
//! and lenient decoding, and the attribute knobs.
use oasis_cbor as cbor;

use cbor::codec::{
    build_struct_array, build_struct_map, destructure_array, destructure_map, fold_tag_into_map,
    optional_entry, split_enum_value, take_tag, wrap_enum_value,
};
use cbor::containers::{CborMap, CborSet};
use cbor::values::Tree;
use cbor::{Decode, DecodeError, DeepView, Encode, EncodeAsMap, SimpleValue, Value};

fn text(s: &str) -> Value {
    Value::TextString(s.to_owned())
}

fn null() -> Value {
    Value::Simple(SimpleValue::NullValue)
}

/// Decode one destructured field: absent fields recover through the
/// default-recovery entry point applied to null.
fn field<T: Decode>(v: Option<Value>) -> Result<T, DecodeError> {
    match v {
        Some(v) => T::try_from_cbor_value(v),
        None => T::try_from_cbor_value_default(null()),
    }
}

#[derive(Debug, Default, Clone, Eq, PartialEq)]
struct A {
    foo: u64,
    bar: String,
    nested: B,
    optional: Option<bool>,
    always: Option<bool>,
    renamed: bool,
}

impl DeepView for A {
    type V = A;

    fn deep_view(&self) -> Self::V {
        unreachable!()
    }
}

impl Encode for A {
    fn enc_spec(_t: <Self as DeepView>::V) -> Tree {
        unreachable!()
    }

    fn empty_spec(_t: <Self as DeepView>::V) -> bool {
        unreachable!()
    }

    fn is_empty(&self) -> bool {
        false
    }

    fn into_cbor_value(self) -> Value {
        let mut fields: Vec<(Value, Value)> = Vec::new();
        fields.push((text("foo"), cbor::to_value(self.foo)));
        fields.push((text("bar"), cbor::to_value(self.bar)));
        fields.push((text("nested"), cbor::to_value(self.nested)));
        // `optional` field: omitted when its encoding is null.
        if let Some(entry) = optional_entry(text("optional"), cbor::to_value(self.optional)) {
            fields.push(entry);
        }
        fields.push((text("always"), cbor::to_value(self.always)));
        fields.push((text("different"), cbor::to_value(self.renamed)));
        build_struct_map(fields)
    }
}

impl EncodeAsMap for A {
    fn lemma_encodes_as_map(_t: <Self as DeepView>::V) {
        unreachable!()
    }
}

impl Decode for A {
    fn default_spec() -> Result<<Self as DeepView>::V, DecodeError> {
        unreachable!()
    }

    fn dec_spec(_t: Tree) -> Result<<Self as DeepView>::V, DecodeError> {
        unreachable!()
    }

    fn try_default() -> Result<Self, DecodeError> {
        Ok(A::default())
    }

    fn try_from_cbor_value(value: Value) -> Result<Self, DecodeError> {
        // Schema keys sorted canonically: length first, then bytewise.
        let keys = vec![
            text("bar"),
            text("foo"),
            text("always"),
            text("nested"),
            text("optional"),
            text("different"),
        ];
        let mut fs = destructure_map(value, &keys, false)?;
        let different_v = fs.pop().unwrap();
        let optional_v = fs.pop().unwrap();
        let nested_v = fs.pop().unwrap();
        let always_v = fs.pop().unwrap();
        let foo_v = fs.pop().unwrap();
        let bar_v = fs.pop().unwrap();
        Ok(A {
            foo: field(foo_v)?,
            bar: field(bar_v)?,
            nested: field(nested_v)?,
            optional: field(optional_v)?,
            always: field(always_v)?,
            renamed: field(different_v)?,
        })
    }
}

#[derive(Debug, Default, Clone, Eq, PartialEq)]
struct B {
    foo: u64,
    bytes: Vec<u8>,
}

impl DeepView for B {
    type V = B;

    fn deep_view(&self) -> Self::V {
        unreachable!()
    }
}

impl Encode for B {
    fn enc_spec(_t: <Self as DeepView>::V) -> Tree {
        unreachable!()
    }

    fn empty_spec(_t: <Self as DeepView>::V) -> bool {
        unreachable!()
    }

    fn is_empty(&self) -> bool {
        false
    }

    fn into_cbor_value(self) -> Value {
        let mut fields: Vec<(Value, Value)> = Vec::new();
        fields.push((text("foo"), cbor::to_value(self.foo)));
        fields.push((text("bytes"), cbor::encode::bytes_into_cbor_value(self.bytes)));
        build_struct_map(fields)
    }
}

impl EncodeAsMap for B {
    fn lemma_encodes_as_map(_t: <Self as DeepView>::V) {
        unreachable!()
    }
}

impl Decode for B {
    fn default_spec() -> Result<<Self as DeepView>::V, DecodeError> {
        unreachable!()
    }

    fn dec_spec(_t: Tree) -> Result<<Self as DeepView>::V, DecodeError> {
        unreachable!()
    }

    fn try_default() -> Result<Self, DecodeError> {
        Ok(B::default())
    }

    fn try_from_cbor_value(value: Value) -> Result<Self, DecodeError> {
        let keys = vec![text("foo"), text("bytes")];
        let mut fs = destructure_map(value, &keys, false)?;
        let bytes_v = fs.pop().unwrap();
        let foo_v = fs.pop().unwrap();
        let bytes = match bytes_v {
            Some(v) => cbor::decode::bytes_try_from_cbor_value(v)?,
            None => Vec::new(),
        };
        Ok(B { foo: field(foo_v)?, bytes })
    }
}

#[derive(Debug, Default, Clone, Eq, PartialEq)]
struct BWithUnknown {
    foo: u64,
    bytes: Vec<u8>,
}

impl DeepView for BWithUnknown {
    type V = BWithUnknown;

    fn deep_view(&self) -> Self::V {
        unreachable!()
    }
}

impl Decode for BWithUnknown {
    fn default_spec() -> Result<<Self as DeepView>::V, DecodeError> {
        unreachable!()
    }

    fn dec_spec(_t: Tree) -> Result<<Self as DeepView>::V, DecodeError> {
        unreachable!()
    }

    fn try_default() -> Result<Self, DecodeError> {
        Ok(BWithUnknown::default())
    }

    fn try_from_cbor_value(value: Value) -> Result<Self, DecodeError> {
        let keys = vec![text("foo"), text("bytes")];
        let mut fs = destructure_map(value, &keys, true)?;
        let bytes_v = fs.pop().unwrap();
        let foo_v = fs.pop().unwrap();
        let bytes = match bytes_v {
            Some(v) => cbor::decode::bytes_try_from_cbor_value(v)?,
            None => Vec::new(),
        };
        Ok(BWithUnknown { foo: field(foo_v)?, bytes })
    }
}

#[derive(Debug, Clone, Eq, PartialEq)]
enum C {
    One,
    Two,
    Three,
    Four,
    Five,
}

impl Default for C {
    fn default() -> Self {
        Self::One
    }
}

impl DeepView for C {
    type V = C;

    fn deep_view(&self) -> Self::V {
        unreachable!()
    }
}

impl Encode for C {
    fn enc_spec(_t: <Self as DeepView>::V) -> Tree {
        unreachable!()
    }

    fn empty_spec(_t: <Self as DeepView>::V) -> bool {
        unreachable!()
    }

    fn is_empty(&self) -> bool {
        false
    }

    fn into_cbor_value(self) -> Value {
        match self {
            // Unit variants with explicit discriminants encode as integers.
            C::One => Value::Unsigned(1),
            C::Two => Value::Unsigned(2),
            C::Three => Value::Unsigned(3),
            C::Four => text("Four"),
            C::Five => text("five"),
        }
    }
}

impl Decode for C {
    fn default_spec() -> Result<<Self as DeepView>::V, DecodeError> {
        unreachable!()
    }

    fn dec_spec(_t: Tree) -> Result<<Self as DeepView>::V, DecodeError> {
        unreachable!()
    }

    fn try_default() -> Result<Self, DecodeError> {
        Ok(C::default())
    }

    fn try_from_cbor_value(value: Value) -> Result<Self, DecodeError> {
        // Unit variants: the whole value is compared against each variant's
        // key (or explicit discriminant) in source order.
        let keys = vec![
            Value::Unsigned(1),
            Value::Unsigned(2),
            Value::Unsigned(3),
            text("Four"),
            text("five"),
        ];
        match cbor::codec::match_key(&keys, &value) {
            Some(0) => Ok(C::One),
            Some(1) => Ok(C::Two),
            Some(2) => Ok(C::Three),
            Some(3) => Ok(C::Four),
            Some(4) => Ok(C::Five),
            _ => Err(DecodeError::UnknownField),
        }
    }
}

#[derive(Debug, Clone, Eq, PartialEq)]
enum D {
    One,
    Two(u64),
    Three(u64, u64),
    Four { foo: u64, bar: String, nested: B },
}

impl DeepView for D {
    type V = D;

    fn deep_view(&self) -> Self::V {
        unreachable!()
    }
}

impl Encode for D {
    fn enc_spec(_t: <Self as DeepView>::V) -> Tree {
        unreachable!()
    }

    fn empty_spec(_t: <Self as DeepView>::V) -> bool {
        unreachable!()
    }

    fn is_empty(&self) -> bool {
        false
    }

    fn into_cbor_value(self) -> Value {
        match self {
            D::One => text("One"),
            D::Two(inner) => wrap_enum_value(text("Two"), cbor::to_value(inner)),
            D::Three(a, b) => wrap_enum_value(
                text("Three"),
                build_struct_array(vec![cbor::to_value(a), cbor::to_value(b)]),
            ),
            D::Four { foo, bar, nested } => {
                let mut fields: Vec<(Value, Value)> = Vec::new();
                fields.push((text("foo"), cbor::to_value(foo)));
                fields.push((text("ren"), cbor::to_value(bar)));
                fields.push((text("nested"), cbor::to_value(nested)));
                wrap_enum_value(text("four"), build_struct_map(fields))
            },
        }
    }
}

impl Decode for D {
    fn default_spec() -> Result<<Self as DeepView>::V, DecodeError> {
        unreachable!()
    }

    fn dec_spec(_t: Tree) -> Result<<Self as DeepView>::V, DecodeError> {
        unreachable!()
    }

    fn try_default() -> Result<Self, DecodeError> {
        Err(DecodeError::MissingField)
    }

    fn try_from_cbor_value(value: Value) -> Result<Self, DecodeError> {
        let (key, inner) = split_enum_value(value);
        match inner {
            Some(inner) => {
                let keys = vec![text("Two"), text("Three"), text("four")];
                match cbor::codec::match_key(&keys, &key) {
                    Some(0) => Ok(D::Two(u64::try_from_cbor_value(inner)?)),
                    Some(1) => {
                        let mut es = destructure_array(inner, 2, false)?;
                        let b = u64::try_from_cbor_value(es.pop().unwrap())?;
                        let a = u64::try_from_cbor_value(es.pop().unwrap())?;
                        Ok(D::Three(a, b))
                    },
                    Some(2) => {
                        let keys = vec![text("foo"), text("ren"), text("nested")];
                        let mut fs = destructure_map(inner, &keys, false)?;
                        let nested_v = fs.pop().unwrap();
                        let ren_v = fs.pop().unwrap();
                        let foo_v = fs.pop().unwrap();
                        Ok(D::Four {
                            foo: field(foo_v)?,
                            bar: field(ren_v)?,
                            nested: field(nested_v)?,
                        })
                    },
                    _ => Err(DecodeError::UnknownField),
                }
            },
            None => match cbor::codec::match_key(&vec![text("One")], &key) {
                Some(0) => Ok(D::One),
                _ => Err(DecodeError::UnknownField),
            },
        }
    }
}

#[derive(Debug, Clone, Eq, PartialEq)]
struct E(u64, String, bool);

impl DeepView for E {
    type V = E;

    fn deep_view(&self) -> Self::V {
        unreachable!()
    }
}

impl Encode for E {
    fn enc_spec(_t: <Self as DeepView>::V) -> Tree {
        unreachable!()
    }

    fn empty_spec(_t: <Self as DeepView>::V) -> bool {
        unreachable!()
    }

    fn is_empty(&self) -> bool {
        false
    }

    fn into_cbor_value(self) -> Value {
        build_struct_array(vec![
            cbor::to_value(self.0),
            cbor::to_value(self.1),
            cbor::to_value(self.2),
        ])
    }
}

impl Decode for E {
    fn default_spec() -> Result<<Self as DeepView>::V, DecodeError> {
        unreachable!()
    }

    fn dec_spec(_t: Tree) -> Result<<Self as DeepView>::V, DecodeError> {
        unreachable!()
    }

    fn try_default() -> Result<Self, DecodeError> {
        // Marked no_default: no recovery from missing or null input.
        Err(DecodeError::MissingField)
    }

    fn try_from_cbor_value(value: Value) -> Result<Self, DecodeError> {
        let mut es = destructure_array(value, 3, false)?;
        let c = bool::try_from_cbor_value(es.pop().unwrap())?;
        let b = String::try_from_cbor_value(es.pop().unwrap())?;
        let a = u64::try_from_cbor_value(es.pop().unwrap())?;
        Ok(E(a, b, c))
    }
}

#[derive(Debug, Default, Clone, Eq, PartialEq)]
struct Transparent(u64);

impl DeepView for Transparent {
    type V = Transparent;

    fn deep_view(&self) -> Self::V {
        unreachable!()
    }
}

impl Encode for Transparent {
    fn enc_spec(_t: <Self as DeepView>::V) -> Tree {
        unreachable!()
    }

    fn empty_spec(_t: <Self as DeepView>::V) -> bool {
        unreachable!()
    }

    fn is_empty(&self) -> bool {
        self.0.is_empty()
    }

    fn into_cbor_value(self) -> Value {
        // Transparent newtype: the codec is the sole field's codec.
        cbor::to_value(self.0)
    }
}

impl Decode for Transparent {
    fn default_spec() -> Result<<Self as DeepView>::V, DecodeError> {
        unreachable!()
    }

    fn dec_spec(_t: Tree) -> Result<<Self as DeepView>::V, DecodeError> {
        unreachable!()
    }

    fn try_default() -> Result<Self, DecodeError> {
        Ok(Transparent::default())
    }

    fn try_from_cbor_value(value: Value) -> Result<Self, DecodeError> {
        Ok(Transparent(u64::try_from_cbor_value(value)?))
    }
}

#[derive(Debug, Default, Clone, Eq, PartialEq)]
struct NonTransparent(u64);

impl DeepView for NonTransparent {
    type V = NonTransparent;

    fn deep_view(&self) -> Self::V {
        unreachable!()
    }
}

impl Encode for NonTransparent {
    fn enc_spec(_t: <Self as DeepView>::V) -> Tree {
        unreachable!()
    }

    fn empty_spec(_t: <Self as DeepView>::V) -> bool {
        unreachable!()
    }

    fn is_empty(&self) -> bool {
        false
    }

    fn into_cbor_value(self) -> Value {
        // A plain newtype struct is an array carrier.
        build_struct_array(vec![cbor::to_value(self.0)])
    }
}

impl Decode for NonTransparent {
    fn default_spec() -> Result<<Self as DeepView>::V, DecodeError> {
        unreachable!()
    }

    fn dec_spec(_t: Tree) -> Result<<Self as DeepView>::V, DecodeError> {
        unreachable!()
    }

    fn try_default() -> Result<Self, DecodeError> {
        Ok(NonTransparent::default())
    }

    fn try_from_cbor_value(value: Value) -> Result<Self, DecodeError> {
        let mut es = destructure_array(value, 1, false)?;
        Ok(NonTransparent(u64::try_from_cbor_value(es.pop().unwrap())?))
    }
}

#[derive(Debug, Clone, Eq, PartialEq)]
enum Untagged {
    First { a: u64, b: u64 },
}

impl DeepView for Untagged {
    type V = Untagged;

    fn deep_view(&self) -> Self::V {
        unreachable!()
    }
}

impl Encode for Untagged {
    fn enc_spec(_t: <Self as DeepView>::V) -> Tree {
        unreachable!()
    }

    fn empty_spec(_t: <Self as DeepView>::V) -> bool {
        unreachable!()
    }

    fn is_empty(&self) -> bool {
        false
    }

    fn into_cbor_value(self) -> Value {
        match self {
            // Untagged: only the inner encoding, no discriminator.
            Untagged::First { a, b } => {
                let mut fields: Vec<(Value, Value)> = Vec::new();
                fields.push((text("a"), cbor::to_value(a)));
                fields.push((text("b"), cbor::to_value(b)));
                build_struct_map(fields)
            },
        }
    }
}

#[derive(Debug, Default, Clone, Eq, PartialEq)]
struct AsArray {
    foo: u64,
    bytes: Vec<u8>,
}

impl DeepView for AsArray {
    type V = AsArray;

    fn deep_view(&self) -> Self::V {
        unreachable!()
    }
}

impl Encode for AsArray {
    fn enc_spec(_t: <Self as DeepView>::V) -> Tree {
        unreachable!()
    }

    fn empty_spec(_t: <Self as DeepView>::V) -> bool {
        unreachable!()
    }

    fn is_empty(&self) -> bool {
        false
    }

    fn into_cbor_value(self) -> Value {
        build_struct_array(vec![
            cbor::to_value(self.foo),
            cbor::encode::bytes_into_cbor_value(self.bytes),
        ])
    }
}

impl Decode for AsArray {
    fn default_spec() -> Result<<Self as DeepView>::V, DecodeError> {
        unreachable!()
    }

    fn dec_spec(_t: Tree) -> Result<<Self as DeepView>::V, DecodeError> {
        unreachable!()
    }

    fn try_default() -> Result<Self, DecodeError> {
        Ok(AsArray::default())
    }

    fn try_from_cbor_value(value: Value) -> Result<Self, DecodeError> {
        let mut es = destructure_array(value, 2, false)?;
        let bytes = cbor::decode::bytes_try_from_cbor_value(es.pop().unwrap())?;
        let foo = u64::try_from_cbor_value(es.pop().unwrap())?;
        Ok(AsArray { foo, bytes })
    }
}

#[derive(Debug, Clone, Eq, PartialEq)]
enum AlwaysEncodesAsMap {
    Two(u64),
}

impl DeepView for AlwaysEncodesAsMap {
    type V = AlwaysEncodesAsMap;

    fn deep_view(&self) -> Self::V {
        unreachable!()
    }
}

impl Encode for AlwaysEncodesAsMap {
    fn enc_spec(_t: <Self as DeepView>::V) -> Tree {
        unreachable!()
    }

    fn empty_spec(_t: <Self as DeepView>::V) -> bool {
        unreachable!()
    }

    fn is_empty(&self) -> bool {
        false
    }

    fn into_cbor_value(self) -> Value {
        match self {
            AlwaysEncodesAsMap::Two(inner) => wrap_enum_value(text("Two"), cbor::to_value(inner)),
        }
    }
}

impl EncodeAsMap for AlwaysEncodesAsMap {
    fn lemma_encodes_as_map(_t: <Self as DeepView>::V) {
        unreachable!()
    }
}

#[derive(Debug, Clone, Eq, PartialEq)]
enum NonStringKeys {
    One(u64, u64),
    Two,
    Three { foo: u64 },
}

impl DeepView for NonStringKeys {
    type V = NonStringKeys;

    fn deep_view(&self) -> Self::V {
        unreachable!()
    }
}

impl Encode for NonStringKeys {
    fn enc_spec(_t: <Self as DeepView>::V) -> Tree {
        unreachable!()
    }

    fn empty_spec(_t: <Self as DeepView>::V) -> bool {
        unreachable!()
    }

    fn is_empty(&self) -> bool {
        false
    }

    fn into_cbor_value(self) -> Value {
        match self {
            NonStringKeys::One(a, b) => wrap_enum_value(
                Value::Unsigned(1),
                build_struct_array(vec![cbor::to_value(a), cbor::to_value(b)]),
            ),
            NonStringKeys::Two => Value::Unsigned(2),
            NonStringKeys::Three { foo } => wrap_enum_value(
                Value::Unsigned(3),
                build_struct_map(vec![(text("foo"), cbor::to_value(foo))]),
            ),
        }
    }
}

impl Decode for NonStringKeys {
    fn default_spec() -> Result<<Self as DeepView>::V, DecodeError> {
        unreachable!()
    }

    fn dec_spec(_t: Tree) -> Result<<Self as DeepView>::V, DecodeError> {
        unreachable!()
    }

    fn try_default() -> Result<Self, DecodeError> {
        Err(DecodeError::MissingField)
    }

    fn try_from_cbor_value(value: Value) -> Result<Self, DecodeError> {
        let (key, inner) = split_enum_value(value);
        match inner {
            Some(inner) => {
                if key == Value::Unsigned(1) {
                    let mut es = destructure_array(inner, 2, false)?;
                    let b = u64::try_from_cbor_value(es.pop().unwrap())?;
                    let a = u64::try_from_cbor_value(es.pop().unwrap())?;
                    return Ok(NonStringKeys::One(a, b));
                }
                if key == Value::Unsigned(3) {
                    let keys = vec![text("foo")];
                    let mut fs = destructure_map(inner, &keys, false)?;
                    let foo_v = fs.pop().unwrap();
                    return Ok(NonStringKeys::Three { foo: field(foo_v)? });
                }
                Err(DecodeError::UnknownField)
            },
            None => {
                if key == Value::Unsigned(2) {
                    return Ok(NonStringKeys::Two);
                }
                Err(DecodeError::UnknownField)
            },
        }
    }
}

#[derive(Debug, Default, Clone, Eq, PartialEq)]
struct Order {
    second: u64,
    first: u64,
    thirdd: u64,
}

impl DeepView for Order {
    type V = Order;

    fn deep_view(&self) -> Self::V {
        unreachable!()
    }
}

impl Encode for Order {
    fn enc_spec(_t: <Self as DeepView>::V) -> Tree {
        unreachable!()
    }

    fn empty_spec(_t: <Self as DeepView>::V) -> bool {
        unreachable!()
    }

    fn is_empty(&self) -> bool {
        false
    }

    fn into_cbor_value(self) -> Value {
        let mut fields: Vec<(Value, Value)> = Vec::new();
        fields.push((text("second"), cbor::to_value(self.second)));
        fields.push((text("first"), cbor::to_value(self.first)));
        fields.push((text("thirdd"), cbor::to_value(self.thirdd)));
        build_struct_map(fields)
    }
}

impl EncodeAsMap for Order {
    fn lemma_encodes_as_map(_t: <Self as DeepView>::V) {
        unreachable!()
    }
}

impl Decode for Order {
    fn default_spec() -> Result<<Self as DeepView>::V, DecodeError> {
        unreachable!()
    }

    fn dec_spec(_t: Tree) -> Result<<Self as DeepView>::V, DecodeError> {
        unreachable!()
    }

    fn try_default() -> Result<Self, DecodeError> {
        Ok(Order::default())
    }

    fn try_from_cbor_value(value: Value) -> Result<Self, DecodeError> {
        let keys = vec![text("first"), text("second"), text("thirdd")];
        let mut fs = destructure_map(value, &keys, false)?;
        let thirdd_v = fs.pop().unwrap();
        let second_v = fs.pop().unwrap();
        let first_v = fs.pop().unwrap();
        Ok(Order {
            second: field(second_v)?,
            first: field(first_v)?,
            thirdd: field(thirdd_v)?,
        })
    }
}

#[derive(Debug, Clone, Eq, PartialEq)]
enum SkipVariantsAndFields {
    First { foo: u64, bar: u64 },
    Second { a: u64 },
}

impl DeepView for SkipVariantsAndFields {
    type V = SkipVariantsAndFields;

    fn deep_view(&self) -> Self::V {
        unreachable!()
    }
}

impl Encode for SkipVariantsAndFields {
    fn enc_spec(_t: <Self as DeepView>::V) -> Tree {
        unreachable!()
    }

    fn empty_spec(_t: <Self as DeepView>::V) -> bool {
        unreachable!()
    }

    fn is_empty(&self) -> bool {
        false
    }

    fn into_cbor_value(self) -> Value {
        match self {
            SkipVariantsAndFields::First { foo, bar: _bar } => {
                // `bar` is a skipped field: never encoded.
                wrap_enum_value(
                    text("First"),
                    build_struct_map(vec![(text("foo"), cbor::to_value(foo))]),
                )
            },
            // A skipped variant serializes into undefined.
            SkipVariantsAndFields::Second { .. } => Value::Simple(SimpleValue::Undefined),
        }
    }
}

impl Decode for SkipVariantsAndFields {
    fn default_spec() -> Result<<Self as DeepView>::V, DecodeError> {
        unreachable!()
    }

    fn dec_spec(_t: Tree) -> Result<<Self as DeepView>::V, DecodeError> {
        unreachable!()
    }

    fn try_default() -> Result<Self, DecodeError> {
        Err(DecodeError::MissingField)
    }

    fn try_from_cbor_value(value: Value) -> Result<Self, DecodeError> {
        let (key, inner) = split_enum_value(value);
        match inner {
            Some(inner) => {
                if key == text("First") {
                    let keys = vec![text("foo")];
                    let mut fs = destructure_map(inner, &keys, false)?;
                    let foo_v = fs.pop().unwrap();
                    // The skipped field receives the type's default.
                    return Ok(SkipVariantsAndFields::First { foo: field(foo_v)?, bar: 0 });
                }
                Err(DecodeError::UnknownField)
            },
            None => Err(DecodeError::UnknownField),
        }
    }
}

#[derive(Debug, Clone, Eq, PartialEq)]
enum UnitEnumVariantAsStruct {
    One,
    Two {},
}

impl DeepView for UnitEnumVariantAsStruct {
    type V = UnitEnumVariantAsStruct;

    fn deep_view(&self) -> Self::V {
        unreachable!()
    }
}

impl Encode for UnitEnumVariantAsStruct {
    fn enc_spec(_t: <Self as DeepView>::V) -> Tree {
        unreachable!()
    }

    fn empty_spec(_t: <Self as DeepView>::V) -> bool {
        unreachable!()
    }

    fn is_empty(&self) -> bool {
        false
    }

    fn into_cbor_value(self) -> Value {
        match self {
            // `as_struct`: the unit variant encodes as an empty map.
            UnitEnumVariantAsStruct::One => wrap_enum_value(text("one"), build_struct_map(vec![])),
            UnitEnumVariantAsStruct::Two {} => wrap_enum_value(
                text("two"),
                build_struct_map(vec![]),
            ),
        }
    }
}

impl Decode for UnitEnumVariantAsStruct {
    fn default_spec() -> Result<<Self as DeepView>::V, DecodeError> {
        unreachable!()
    }

    fn dec_spec(_t: Tree) -> Result<<Self as DeepView>::V, DecodeError> {
        unreachable!()
    }

    fn try_default() -> Result<Self, DecodeError> {
        Err(DecodeError::MissingField)
    }

    fn try_from_cbor_value(value: Value) -> Result<Self, DecodeError> {
        let (key, inner) = split_enum_value(value);
        match inner {
            Some(inner) => {
                if key == text("one") {
                    let keys: Vec<Value> = vec![];
                    destructure_map(inner, &keys, false)?;
                    return Ok(UnitEnumVariantAsStruct::One);
                }
                if key == text("two") {
                    let keys: Vec<Value> = vec![];
                    destructure_map(inner, &keys, false)?;
                    return Ok(UnitEnumVariantAsStruct::Two {});
                }
                Err(DecodeError::UnknownField)
            },
            None => Err(DecodeError::UnknownField),
        }
    }
}

#[derive(Debug, Clone, Eq, PartialEq)]
enum EmbedParent {
    A(String),
    B(EmbedChild),
    C(u64),
}

#[derive(Debug, Clone, Eq, PartialEq)]
enum EmbedChild {
    D(String),
    E(u64),
    C(String),
}

impl DeepView for EmbedParent {
    type V = EmbedParent;

    fn deep_view(&self) -> Self::V {
        unreachable!()
    }
}

impl DeepView for EmbedChild {
    type V = EmbedChild;

    fn deep_view(&self) -> Self::V {
        unreachable!()
    }
}

impl Encode for EmbedParent {
    fn enc_spec(_t: <Self as DeepView>::V) -> Tree {
        unreachable!()
    }

    fn empty_spec(_t: <Self as DeepView>::V) -> bool {
        unreachable!()
    }

    fn is_empty(&self) -> bool {
        false
    }

    fn into_cbor_value(self) -> Value {
        match self {
            EmbedParent::A(inner) => wrap_enum_value(text("A"), cbor::to_value(inner)),
            // Embedded variant: the embedded enum is serialized directly.
            EmbedParent::B(inner) => inner.into_cbor_value(),
            EmbedParent::C(inner) => wrap_enum_value(text("C"), cbor::to_value(inner)),
        }
    }
}

impl Encode for EmbedChild {
    fn enc_spec(_t: <Self as DeepView>::V) -> Tree {
        unreachable!()
    }

    fn empty_spec(_t: <Self as DeepView>::V) -> bool {
        unreachable!()
    }

    fn is_empty(&self) -> bool {
        false
    }

    fn into_cbor_value(self) -> Value {
        match self {
            EmbedChild::D(inner) => wrap_enum_value(text("D"), cbor::to_value(inner)),
            EmbedChild::E(inner) => wrap_enum_value(text("E"), cbor::to_value(inner)),
            EmbedChild::C(inner) => wrap_enum_value(text("C"), cbor::to_value(inner)),
        }
    }
}

impl Decode for EmbedParent {
    fn default_spec() -> Result<<Self as DeepView>::V, DecodeError> {
        unreachable!()
    }

    fn dec_spec(_t: Tree) -> Result<<Self as DeepView>::V, DecodeError> {
        unreachable!()
    }

    fn try_default() -> Result<Self, DecodeError> {
        Err(DecodeError::MissingField)
    }

    fn try_from_cbor_value(value: Value) -> Result<Self, DecodeError> {
        let (key, inner) = split_enum_value(value);
        match inner {
            Some(inner) => {
                // Direct variants match first: the parent wins on overlap.
                if key == text("A") {
                    return Ok(EmbedParent::A(String::try_from_cbor_value(inner)?));
                }
                if key == text("C") {
                    return Ok(EmbedParent::C(u64::try_from_cbor_value(inner)?));
                }
                // Embedded variants are tried as a fallback, on the map
                // rebuilt from the split key and inner value.
                let rebuilt = wrap_enum_value(key, inner);
                if let Ok(child) = EmbedChild::try_from_cbor_value(rebuilt) {
                    return Ok(EmbedParent::B(child));
                }
                Err(DecodeError::UnknownField)
            },
            None => Err(DecodeError::UnknownField),
        }
    }
}

impl Decode for EmbedChild {
    fn default_spec() -> Result<<Self as DeepView>::V, DecodeError> {
        unreachable!()
    }

    fn dec_spec(_t: Tree) -> Result<<Self as DeepView>::V, DecodeError> {
        unreachable!()
    }

    fn try_default() -> Result<Self, DecodeError> {
        Err(DecodeError::MissingField)
    }

    fn try_from_cbor_value(value: Value) -> Result<Self, DecodeError> {
        let (key, inner) = split_enum_value(value);
        match inner {
            Some(inner) => {
                let keys = vec![text("D"), text("E"), text("C")];
                match cbor::codec::match_key(&keys, &key) {
                    Some(0) => Ok(EmbedChild::D(String::try_from_cbor_value(inner)?)),
                    Some(1) => Ok(EmbedChild::E(u64::try_from_cbor_value(inner)?)),
                    Some(2) => Ok(EmbedChild::C(String::try_from_cbor_value(inner)?)),
                    _ => Err(DecodeError::UnknownField),
                }
            },
            None => Err(DecodeError::UnknownField),
        }
    }
}

#[derive(Debug, Clone, Eq, PartialEq)]
enum InternallyTagged {
    V0 { foo: u64 },
    V1 { bar: u64 },
    V2(Order),
}

impl DeepView for InternallyTagged {
    type V = InternallyTagged;

    fn deep_view(&self) -> Self::V {
        unreachable!()
    }
}

impl Encode for InternallyTagged {
    fn enc_spec(_t: <Self as DeepView>::V) -> Tree {
        unreachable!()
    }

    fn empty_spec(_t: <Self as DeepView>::V) -> bool {
        unreachable!()
    }

    fn is_empty(&self) -> bool {
        false
    }

    fn into_cbor_value(self) -> Value {
        match self {
            // The variant carrying `missing` does not include the tag.
            InternallyTagged::V0 { foo } => build_struct_map(vec![
                (text("foo"), cbor::to_value(foo)),
            ]),
            InternallyTagged::V1 { bar } => fold_tag_into_map(
                text("v"),
                Value::Unsigned(1),
                vec![(text("bar"), cbor::to_value(bar))],
            ),
            InternallyTagged::V2(order) => fold_tag_into_map(
                text("v"),
                Value::Unsigned(2),
                order.into_cbor_map(),
            ),
        }
    }
}

impl EncodeAsMap for InternallyTagged {
    fn lemma_encodes_as_map(_t: <Self as DeepView>::V) {
        unreachable!()
    }
}

impl Decode for InternallyTagged {
    fn default_spec() -> Result<<Self as DeepView>::V, DecodeError> {
        unreachable!()
    }

    fn dec_spec(_t: Tree) -> Result<<Self as DeepView>::V, DecodeError> {
        unreachable!()
    }

    fn try_default() -> Result<Self, DecodeError> {
        Err(DecodeError::MissingField)
    }

    fn try_from_cbor_value(value: Value) -> Result<Self, DecodeError> {
        let items = match value {
            Value::Mapping(items) => items,
            _ => return Err(DecodeError::UnexpectedType),
        };
        let (tag, rest) = take_tag(items, &text("v"));
        let rest = Value::Mapping(rest);
        match tag {
            Some(t) => {
                if t == Value::Unsigned(0) {
                    let keys = vec![text("foo")];
                    let mut fs = destructure_map(rest, &keys, false)?;
                    let foo_v = fs.pop().unwrap();
                    return Ok(InternallyTagged::V0 { foo: field(foo_v)? });
                }
                if t == Value::Unsigned(1) {
                    let keys = vec![text("bar")];
                    let mut fs = destructure_map(rest, &keys, false)?;
                    let bar_v = fs.pop().unwrap();
                    return Ok(InternallyTagged::V1 { bar: field(bar_v)? });
                }
                if t == Value::Unsigned(2) {
                    return Ok(InternallyTagged::V2(Order::try_from_cbor_value(rest)?));
                }
                Err(DecodeError::UnknownField)
            },
            // The variant carrying `missing` absorbs input without the tag.
            None => {
                let keys = vec![text("foo")];
                let mut fs = destructure_map(rest, &keys, false)?;
                let foo_v = fs.pop().unwrap();
                Ok(InternallyTagged::V0 { foo: field(foo_v)? })
            },
        }
    }
}

#[derive(Debug, Clone, Eq, PartialEq)]
enum InternallyTaggedNoMissing {
    V0 { foo: u64 },
}

impl DeepView for InternallyTaggedNoMissing {
    type V = InternallyTaggedNoMissing;

    fn deep_view(&self) -> Self::V {
        unreachable!()
    }
}

impl Decode for InternallyTaggedNoMissing {
    fn default_spec() -> Result<<Self as DeepView>::V, DecodeError> {
        unreachable!()
    }

    fn dec_spec(_t: Tree) -> Result<<Self as DeepView>::V, DecodeError> {
        unreachable!()
    }

    fn try_default() -> Result<Self, DecodeError> {
        Err(DecodeError::MissingField)
    }

    fn try_from_cbor_value(value: Value) -> Result<Self, DecodeError> {
        let items = match value {
            Value::Mapping(items) => items,
            _ => return Err(DecodeError::UnexpectedType),
        };
        let (tag, rest) = take_tag(items, &text("v"));
        let rest = Value::Mapping(rest);
        match tag {
            Some(t) => {
                if t == Value::Unsigned(0) {
                    let keys = vec![text("foo")];
                    let mut fs = destructure_map(rest, &keys, false)?;
                    let foo_v = fs.pop().unwrap();
                    return Ok(InternallyTaggedNoMissing::V0 { foo: field(foo_v)? });
                }
                Err(DecodeError::UnknownField)
            },
            None => Err(DecodeError::UnknownField),
        }
    }
}

#[derive(Debug, Default, Clone, Eq, PartialEq)]
struct Unit;

impl DeepView for Unit {
    type V = Unit;

    fn deep_view(&self) -> Self::V {
        unreachable!()
    }
}

impl Encode for Unit {
    fn enc_spec(_t: <Self as DeepView>::V) -> Tree {
        unreachable!()
    }

    fn empty_spec(_t: <Self as DeepView>::V) -> bool {
        unreachable!()
    }

    fn is_empty(&self) -> bool {
        true
    }

    fn into_cbor_value(self) -> Value {
        null()
    }
}

impl Decode for Unit {
    fn default_spec() -> Result<<Self as DeepView>::V, DecodeError> {
        unreachable!()
    }

    fn dec_spec(_t: Tree) -> Result<<Self as DeepView>::V, DecodeError> {
        unreachable!()
    }

    fn try_default() -> Result<Self, DecodeError> {
        Ok(Unit)
    }

    fn try_from_cbor_value(value: Value) -> Result<Self, DecodeError> {
        match value {
            Value::Simple(SimpleValue::NullValue) => Ok(Unit),
            Value::Simple(SimpleValue::Undefined) => Ok(Unit),
            _ => Err(DecodeError::UnexpectedType),
        }
    }
}

#[derive(Debug, Default, Clone, Eq, PartialEq)]
struct CustomType(String);

fn encode_custom_type(value: &CustomType) -> String {
    value.0.clone()
}

fn decode_custom_type(value: String) -> Result<CustomType, DecodeError> {
    Ok(CustomType(value))
}

#[derive(Debug, Default, Clone, Eq, PartialEq)]
struct CustomEncodeDecode {
    foo: CustomType,
}

impl DeepView for CustomEncodeDecode {
    type V = CustomEncodeDecode;

    fn deep_view(&self) -> Self::V {
        unreachable!()
    }
}

impl Encode for CustomEncodeDecode {
    fn enc_spec(_t: <Self as DeepView>::V) -> Tree {
        unreachable!()
    }

    fn empty_spec(_t: <Self as DeepView>::V) -> bool {
        unreachable!()
    }

    fn is_empty(&self) -> bool {
        false
    }

    fn into_cbor_value(self) -> Value {
        // serialize_with: the field passes through the user function first.
        let mut fields: Vec<(Value, Value)> = Vec::new();
        fields.push((text("foo"), cbor::to_value(encode_custom_type(&self.foo))));
        build_struct_map(fields)
    }
}

impl Decode for CustomEncodeDecode {
    fn default_spec() -> Result<<Self as DeepView>::V, DecodeError> {
        unreachable!()
    }

    fn dec_spec(_t: Tree) -> Result<<Self as DeepView>::V, DecodeError> {
        unreachable!()
    }

    fn try_default() -> Result<Self, DecodeError> {
        Ok(CustomEncodeDecode::default())
    }

    fn try_from_cbor_value(value: Value) -> Result<Self, DecodeError> {
        let keys = vec![text("foo")];
        let mut fs = destructure_map(value, &keys, false)?;
        let foo_v = fs.pop().unwrap();
        // deserialize_with: the decoded value passes through the user
        // function.
        let foo = decode_custom_type(field(foo_v)?)?;
        Ok(CustomEncodeDecode { foo })
    }
}

#[derive(Debug, Default, Clone, Eq, PartialEq)]
struct CustomEncodeDecodeArray {
    foo: CustomType,
}

impl DeepView for CustomEncodeDecodeArray {
    type V = CustomEncodeDecodeArray;

    fn deep_view(&self) -> Self::V {
        unreachable!()
    }
}

impl Encode for CustomEncodeDecodeArray {
    fn enc_spec(_t: <Self as DeepView>::V) -> Tree {
        unreachable!()
    }

    fn empty_spec(_t: <Self as DeepView>::V) -> bool {
        unreachable!()
    }

    fn is_empty(&self) -> bool {
        false
    }

    fn into_cbor_value(self) -> Value {
        build_struct_array(vec![cbor::to_value(encode_custom_type(&self.foo))])
    }
}

impl Decode for CustomEncodeDecodeArray {
    fn default_spec() -> Result<<Self as DeepView>::V, DecodeError> {
        unreachable!()
    }

    fn dec_spec(_t: Tree) -> Result<<Self as DeepView>::V, DecodeError> {
        unreachable!()
    }

    fn try_default() -> Result<Self, DecodeError> {
        Ok(CustomEncodeDecodeArray::default())
    }

    fn try_from_cbor_value(value: Value) -> Result<Self, DecodeError> {
        let mut es = destructure_array(value, 1, false)?;
        let foo = decode_custom_type(String::try_from_cbor_value(es.pop().unwrap())?)?;
        Ok(CustomEncodeDecodeArray { foo })
    }
}


#[derive(Debug, Default, Clone, Eq, PartialEq)]
struct WithOptionalDefault {
    bar: String,
}

impl DeepView for WithOptionalDefault {
    type V = WithOptionalDefault;

    fn deep_view(&self) -> Self::V {
        unreachable!()
    }
}

impl Encode for WithOptionalDefault {
    fn enc_spec(_t: <Self as DeepView>::V) -> Tree {
        unreachable!()
    }

    fn empty_spec(_t: <Self as DeepView>::V) -> bool {
        unreachable!()
    }

    fn is_empty(&self) -> bool {
        false
    }

    fn into_cbor_value(self) -> Value {
        // skip_serializing_if: the predicate is consulted against the value.
        let mut fields: Vec<(Value, Value)> = Vec::new();
        if !String::is_empty(&self.bar) {
            fields.push((text("bar"), cbor::to_value(self.bar)));
        }
        build_struct_map(fields)
    }
}

impl Decode for WithOptionalDefault {
    fn default_spec() -> Result<<Self as DeepView>::V, DecodeError> {
        unreachable!()
    }

    fn dec_spec(_t: Tree) -> Result<<Self as DeepView>::V, DecodeError> {
        unreachable!()
    }

    fn try_default() -> Result<Self, DecodeError> {
        Ok(WithOptionalDefault::default())
    }

    fn try_from_cbor_value(value: Value) -> Result<Self, DecodeError> {
        let keys = vec![text("bar")];
        let mut fs = destructure_map(value, &keys, false)?;
        let bar_v = fs.pop().unwrap();
        Ok(WithOptionalDefault { bar: field(bar_v)? })
    }
}

#[derive(Debug, Default, Clone, Eq, PartialEq)]
struct WithOptional {
    bar: String,
}

impl DeepView for WithOptional {
    type V = WithOptional;

    fn deep_view(&self) -> Self::V {
        unreachable!()
    }
}

impl Encode for WithOptional {
    fn enc_spec(_t: <Self as DeepView>::V) -> Tree {
        unreachable!()
    }

    fn empty_spec(_t: <Self as DeepView>::V) -> bool {
        unreachable!()
    }

    fn is_empty(&self) -> bool {
        false
    }

    fn into_cbor_value(self) -> Value {
        // An optional field without a predicate is omitted exactly when its
        // encoding is null; a string never encodes to null.
        let mut fields: Vec<(Value, Value)> = Vec::new();
        if let Some(entry) = optional_entry(text("bar"), cbor::to_value(self.bar)) {
            fields.push(entry);
        }
        build_struct_map(fields)
    }
}

impl Decode for WithOptional {
    fn default_spec() -> Result<<Self as DeepView>::V, DecodeError> {
        unreachable!()
    }

    fn dec_spec(_t: Tree) -> Result<<Self as DeepView>::V, DecodeError> {
        unreachable!()
    }

    fn try_default() -> Result<Self, DecodeError> {
        Ok(WithOptional::default())
    }

    fn try_from_cbor_value(value: Value) -> Result<Self, DecodeError> {
        let keys = vec![text("bar")];
        let mut fs = destructure_map(value, &keys, false)?;
        let bar_v = fs.pop().unwrap();
        Ok(WithOptional { bar: field(bar_v)? })
    }
}

#[derive(Debug, Default, Clone, Eq, PartialEq)]
struct WithNonOptional {
    bar: String,
}

impl DeepView for WithNonOptional {
    type V = WithNonOptional;

    fn deep_view(&self) -> Self::V {
        unreachable!()
    }
}

impl Encode for WithNonOptional {
    fn enc_spec(_t: <Self as DeepView>::V) -> Tree {
        unreachable!()
    }

    fn empty_spec(_t: <Self as DeepView>::V) -> bool {
        unreachable!()
    }

    fn is_empty(&self) -> bool {
        false
    }

    fn into_cbor_value(self) -> Value {
        build_struct_map(vec![(text("bar"), cbor::to_value(self.bar))])
    }
}

impl Decode for WithNonOptional {
    fn default_spec() -> Result<<Self as DeepView>::V, DecodeError> {
        unreachable!()
    }

    fn dec_spec(_t: Tree) -> Result<<Self as DeepView>::V, DecodeError> {
        unreachable!()
    }

    fn try_default() -> Result<Self, DecodeError> {
        Ok(WithNonOptional::default())
    }

    fn try_from_cbor_value(value: Value) -> Result<Self, DecodeError> {
        let keys = vec![text("bar")];
        let mut fs = destructure_map(value, &keys, false)?;
        let bar_v = fs.pop().unwrap();
        Ok(WithNonOptional { bar: field(bar_v)? })
    }
}

#[derive(Debug, Default, Clone, Eq, PartialEq)]
struct WithOptionalUnit {
    foo: Unit,
}

impl DeepView for WithOptionalUnit {
    type V = WithOptionalUnit;

    fn deep_view(&self) -> Self::V {
        unreachable!()
    }
}

impl Encode for WithOptionalUnit {
    fn enc_spec(_t: <Self as DeepView>::V) -> Tree {
        unreachable!()
    }

    fn empty_spec(_t: <Self as DeepView>::V) -> bool {
        unreachable!()
    }

    fn is_empty(&self) -> bool {
        false
    }

    fn into_cbor_value(self) -> Value {
        let mut fields: Vec<(Value, Value)> = Vec::new();
        if let Some(entry) = optional_entry(text("foo"), cbor::to_value(self.foo)) {
            fields.push(entry);
        }
        build_struct_map(fields)
    }
}

impl Decode for WithOptionalUnit {
    fn default_spec() -> Result<<Self as DeepView>::V, DecodeError> {
        unreachable!()
    }

    fn dec_spec(_t: Tree) -> Result<<Self as DeepView>::V, DecodeError> {
        unreachable!()
    }

    fn try_default() -> Result<Self, DecodeError> {
        Ok(WithOptionalUnit::default())
    }

    fn try_from_cbor_value(value: Value) -> Result<Self, DecodeError> {
        let keys = vec![text("foo")];
        let mut fs = destructure_map(value, &keys, false)?;
        let foo_v = fs.pop().unwrap();
        Ok(WithOptionalUnit { foo: field(foo_v)? })
    }
}

#[derive(Debug, Default, Clone, Eq, PartialEq)]
struct WithNonOptionalUnit {
    foo: Unit,
}

impl DeepView for WithNonOptionalUnit {
    type V = WithNonOptionalUnit;

    fn deep_view(&self) -> Self::V {
        unreachable!()
    }
}

impl Encode for WithNonOptionalUnit {
    fn enc_spec(_t: <Self as DeepView>::V) -> Tree {
        unreachable!()
    }

    fn empty_spec(_t: <Self as DeepView>::V) -> bool {
        unreachable!()
    }

    fn is_empty(&self) -> bool {
        false
    }

    fn into_cbor_value(self) -> Value {
        build_struct_map(vec![(text("foo"), cbor::to_value(self.foo))])
    }
}

impl Decode for WithNonOptionalUnit {
    fn default_spec() -> Result<<Self as DeepView>::V, DecodeError> {
        unreachable!()
    }

    fn dec_spec(_t: Tree) -> Result<<Self as DeepView>::V, DecodeError> {
        unreachable!()
    }

    fn try_default() -> Result<Self, DecodeError> {
        Ok(WithNonOptionalUnit::default())
    }

    fn try_from_cbor_value(value: Value) -> Result<Self, DecodeError> {
        let keys = vec![text("foo")];
        let mut fs = destructure_map(value, &keys, false)?;
        let foo_v = fs.pop().unwrap();
        Ok(WithNonOptionalUnit { foo: field(foo_v)? })
    }
}

#[derive(Debug, Default, Clone, Eq, PartialEq)]
struct WithOptionalWithOptional {
    foo: WithOptional,
}

impl DeepView for WithOptionalWithOptional {
    type V = WithOptionalWithOptional;

    fn deep_view(&self) -> Self::V {
        unreachable!()
    }
}

impl Encode for WithOptionalWithOptional {
    fn enc_spec(_t: <Self as DeepView>::V) -> Tree {
        unreachable!()
    }

    fn empty_spec(_t: <Self as DeepView>::V) -> bool {
        unreachable!()
    }

    fn is_empty(&self) -> bool {
        false
    }

    fn into_cbor_value(self) -> Value {
        let mut fields: Vec<(Value, Value)> = Vec::new();
        if let Some(entry) = optional_entry(text("foo"), cbor::to_value(self.foo)) {
            fields.push(entry);
        }
        build_struct_map(fields)
    }
}

impl Decode for WithOptionalWithOptional {
    fn default_spec() -> Result<<Self as DeepView>::V, DecodeError> {
        unreachable!()
    }

    fn dec_spec(_t: Tree) -> Result<<Self as DeepView>::V, DecodeError> {
        unreachable!()
    }

    fn try_default() -> Result<Self, DecodeError> {
        Ok(WithOptionalWithOptional::default())
    }

    fn try_from_cbor_value(value: Value) -> Result<Self, DecodeError> {
        let keys = vec![text("foo")];
        let mut fs = destructure_map(value, &keys, false)?;
        let foo_v = fs.pop().unwrap();
        Ok(WithOptionalWithOptional { foo: field(foo_v)? })
    }
}

#[derive(Debug, Default, Clone, Eq, PartialEq)]
struct WithOptionalWithNonOptional {
    foo: WithNonOptional,
}

impl DeepView for WithOptionalWithNonOptional {
    type V = WithOptionalWithNonOptional;

    fn deep_view(&self) -> Self::V {
        unreachable!()
    }
}

impl Encode for WithOptionalWithNonOptional {
    fn enc_spec(_t: <Self as DeepView>::V) -> Tree {
        unreachable!()
    }

    fn empty_spec(_t: <Self as DeepView>::V) -> bool {
        unreachable!()
    }

    fn is_empty(&self) -> bool {
        false
    }

    fn into_cbor_value(self) -> Value {
        let mut fields: Vec<(Value, Value)> = Vec::new();
        if let Some(entry) = optional_entry(text("foo"), cbor::to_value(self.foo)) {
            fields.push(entry);
        }
        build_struct_map(fields)
    }
}

impl Decode for WithOptionalWithNonOptional {
    fn default_spec() -> Result<<Self as DeepView>::V, DecodeError> {
        unreachable!()
    }

    fn dec_spec(_t: Tree) -> Result<<Self as DeepView>::V, DecodeError> {
        unreachable!()
    }

    fn try_default() -> Result<Self, DecodeError> {
        Ok(WithOptionalWithNonOptional::default())
    }

    fn try_from_cbor_value(value: Value) -> Result<Self, DecodeError> {
        let keys = vec![text("foo")];
        let mut fs = destructure_map(value, &keys, false)?;
        let foo_v = fs.pop().unwrap();
        Ok(WithOptionalWithNonOptional { foo: field(foo_v)? })
    }
}

#[derive(Debug, Default, Clone, Eq, PartialEq)]
struct WithNonOptionalWithOptional {
    foo: WithOptional,
}

impl DeepView for WithNonOptionalWithOptional {
    type V = WithNonOptionalWithOptional;

    fn deep_view(&self) -> Self::V {
        unreachable!()
    }
}

impl Encode for WithNonOptionalWithOptional {
    fn enc_spec(_t: <Self as DeepView>::V) -> Tree {
        unreachable!()
    }

    fn empty_spec(_t: <Self as DeepView>::V) -> bool {
        unreachable!()
    }

    fn is_empty(&self) -> bool {
        false
    }

    fn into_cbor_value(self) -> Value {
        build_struct_map(vec![(text("foo"), cbor::to_value(self.foo))])
    }
}

impl Decode for WithNonOptionalWithOptional {
    fn default_spec() -> Result<<Self as DeepView>::V, DecodeError> {
        unreachable!()
    }

    fn dec_spec(_t: Tree) -> Result<<Self as DeepView>::V, DecodeError> {
        unreachable!()
    }

    fn try_default() -> Result<Self, DecodeError> {
        Ok(WithNonOptionalWithOptional::default())
    }

    fn try_from_cbor_value(value: Value) -> Result<Self, DecodeError> {
        let keys = vec![text("foo")];
        let mut fs = destructure_map(value, &keys, false)?;
        let foo_v = fs.pop().unwrap();
        Ok(WithNonOptionalWithOptional { foo: field(foo_v)? })
    }
}

#[derive(Debug, Default, Clone, Eq, PartialEq)]
struct WithNonOptionalWithNonOptional {
    foo: WithNonOptional,
}

impl DeepView for WithNonOptionalWithNonOptional {
    type V = WithNonOptionalWithNonOptional;

    fn deep_view(&self) -> Self::V {
        unreachable!()
    }
}

impl Encode for WithNonOptionalWithNonOptional {
    fn enc_spec(_t: <Self as DeepView>::V) -> Tree {
        unreachable!()
    }

    fn empty_spec(_t: <Self as DeepView>::V) -> bool {
        unreachable!()
    }

    fn is_empty(&self) -> bool {
        false
    }

    fn into_cbor_value(self) -> Value {
        build_struct_map(vec![(text("foo"), cbor::to_value(self.foo))])
    }
}

impl Decode for WithNonOptionalWithNonOptional {
    fn default_spec() -> Result<<Self as DeepView>::V, DecodeError> {
        unreachable!()
    }

    fn dec_spec(_t: Tree) -> Result<<Self as DeepView>::V, DecodeError> {
        unreachable!()
    }

    fn try_default() -> Result<Self, DecodeError> {
        Ok(WithNonOptionalWithNonOptional::default())
    }

    fn try_from_cbor_value(value: Value) -> Result<Self, DecodeError> {
        let keys = vec![text("foo")];
        let mut fs = destructure_map(value, &keys, false)?;
        let foo_v = fs.pop().unwrap();
        Ok(WithNonOptionalWithNonOptional { foo: field(foo_v)? })
    }
}


#[test]
fn test_round_trip_complex() {
    let a = A {
        foo: 42,
        bar: "hello world".to_owned(),
        nested: B { foo: 10, bytes: b"here".to_vec() },
        optional: None,
        always: None,
        renamed: false,
    };

    let enc = cbor::to_vec(a.clone());
    assert_eq!(
        enc,
        vec![
            0xA5, // map(5)
            0x63, // text(3)
            0x62, 0x61, 0x72, // "bar"
            0x6B, // text(11)
            0x68, 0x65, 0x6C, 0x6C, 0x6F, 0x20, 0x77, 0x6F, 0x72, 0x6C, 0x64, // "hello world"
            0x63, // text(3)
            0x66, 0x6F, 0x6F, // "foo"
            0x18, 0x2A, // unsigned(42)
            0x66, // text(6)
            0x61, 0x6C, 0x77, 0x61, 0x79, 0x73, // "always"
            0xF6, // primitive(22)
            0x66, // text(6)
            0x6E, 0x65, 0x73, 0x74, 0x65, 0x64, // "nested"
            0xA2, // map(2)
            0x63, // text(3)
            0x66, 0x6F, 0x6F, // "foo"
            0x0A, // unsigned(10)
            0x65, // text(5)
            0x62, 0x79, 0x74, 0x65, 0x73, // "bytes"
            0x44, // bytes(4)
            0x68, 0x65, 0x72, 0x65, // "here"
            0x69, // text(9)
            0x64, 0x69, 0x66, 0x66, 0x65, 0x72, 0x65, 0x6E, 0x74, // "different"
            0xF4, // primitive(20)
        ],
        "should encode as expected"
    );

    let dec: A = cbor::from_slice(&enc).expect("serialization should round-trip");
    assert_eq!(dec, a, "serialization should round-trip");
}

#[test]
fn test_enum_unit_discriminant() {
    let tcs = vec![
        (C::One, vec![0x01]),
        (C::Two, vec![0x02]),
        (C::Three, vec![0x03]),
        (C::Four, vec![0x64, 0x46, 0x6F, 0x75, 0x72]),
        (C::Five, vec![0x64, 0x66, 0x69, 0x76, 0x65]),
    ];
    for tc in tcs {
        let enc = cbor::to_vec(tc.0.clone());
        assert_eq!(enc, tc.1);
        let dec: C = cbor::from_slice(&enc).expect("serialization should round-trip");
        assert_eq!(dec, tc.0, "serialization should round-trip");
    }
}

#[test]
fn test_enum() {
    let tcs = vec![
        (D::One, vec![0x63, 0x4F, 0x6E, 0x65]),
        (
            D::Two(42),
            vec![
                // {"Two": 42}
                0xA1, 0x63, 0x54, 0x77, 0x6F, 0x18, 0x2A,
            ],
        ),
        (
            D::Three(11, 32),
            vec![
                // {"Three": [11, 32]}
                0xA1, 0x65, 0x54, 0x68, 0x72, 0x65, 0x65, 0x82, 0x0B, 0x18, 0x20,
            ],
        ),
        (
            D::Four {
                foo: 17,
                bar: "hello".to_owned(),
                nested: B { foo: 20, bytes: b"abc".to_vec() },
            },
            vec![
                // {"four": {"foo": 17, "ren": "hello", "nested": {...}}}
                0xA1, 0x64, 0x66, 0x6F, 0x75, 0x72, 0xA3, 0x63, 0x66, 0x6F, 0x6F, 0x11, 0x63,
                0x72, 0x65, 0x6E, 0x65, 0x68, 0x65, 0x6C, 0x6C, 0x6F, 0x66, 0x6E, 0x65, 0x73,
                0x74, 0x65, 0x64, 0xA2, 0x63, 0x66, 0x6F, 0x6F, 0x14, 0x65, 0x62, 0x79, 0x74,
                0x65, 0x73, 0x43, 0x61, 0x62, 0x63,
            ],
        ),
    ];
    for tc in tcs {
        let enc = cbor::to_vec(tc.0.clone());
        assert_eq!(enc, tc.1);
        let dec: D = cbor::from_slice(&enc).expect("serialization should round-trip");
        assert_eq!(dec, tc.0, "serialization should round-trip");
    }
}

#[test]
fn derive_test_test_tuple_struct() {
    let e = E(500, "string".to_owned(), true);

    let enc = cbor::to_vec(e.clone());
    assert_eq!(
        enc,
        vec![
            // [500, "string", true]
            0x83, 0x19, 0x01, 0xF4, 0x66, 0x73, 0x74, 0x72, 0x69, 0x6E, 0x67, 0xF5,
        ],
        "should encode as expected"
    );

    let dec: E = cbor::from_slice(&enc).expect("serialization should round-trip");
    assert_eq!(dec, e, "serialization should round-trip");
}

#[test]
fn test_transparent() {
    let transparent = Transparent(42);
    let enc = cbor::to_vec(transparent);
    assert_eq!(enc, vec![0x18, 0x2a], "should encode directly as inner type");

    let non_transparent = NonTransparent(42);
    let enc = cbor::to_vec(non_transparent);
    assert_eq!(enc, vec![0x81, 0x18, 0x2a], "should encode as array with inner type");
}

#[test]
fn test_missing_field() {
    let b_without_bytes = vec![
        // {"foo": 10}
        0xA1, 0x63, 0x66, 0x6F, 0x6F, 0x0A,
    ];
    let res: B = cbor::from_slice(&b_without_bytes).unwrap();
    assert_eq!(res, B { foo: 10, bytes: vec![] })
}

#[test]
fn test_invalid_type() {
    let b_invalid_type = vec![
        // {"foo": "boom"}
        0xA1, 0x63, 0x66, 0x6F, 0x6F, 0x64, 0x62, 0x6F, 0x6F, 0x6D,
    ];
    let res: Result<B, _> = cbor::from_slice(&b_invalid_type);
    assert!(matches!(res, Err(DecodeError::UnexpectedType)));
}

#[test]
fn test_field_reorder() {
    let b_reorder = vec![
        // {"bytes": h'01', "foo": 42}
        0xA2, 0x65, 0x62, 0x79, 0x74, 0x65, 0x73, 0x41, 0x01, 0x63, 0x66, 0x6F, 0x6F, 0x18, 0x2A,
    ];
    let res: Result<B, _> = cbor::from_slice(&b_reorder);
    assert!(matches!(res, Err(DecodeError::ParsingFailed)));

    // Should work fine in non-strict mode.
    let res: B = cbor::from_slice_non_strict(&b_reorder).unwrap();
    assert_eq!(res, B { foo: 42, bytes: vec![0x01] });
}

#[test]
fn test_extra_fields() {
    // Extra field at the end.
    let b_extra = vec![
        // {"foo": 10, "bytes": h'00', "bytesextra": true}
        0xA3, 0x63, 0x66, 0x6F, 0x6F, 0x0A, 0x65, 0x62, 0x79, 0x74, 0x65, 0x73, 0x41, 0x00, 0x6A,
        0x62, 0x79, 0x74, 0x65, 0x73, 0x65, 0x78, 0x74, 0x72, 0x61, 0xF5,
    ];
    let res: Result<B, _> = cbor::from_slice(&b_extra);
    assert!(matches!(res, Err(DecodeError::UnknownField)));

    // Extra field in the middle.
    let b_extra = vec![
        // {"foo": 10, "fop": 10, "bytes": h'00'}
        0xA3, 0x63, 0x66, 0x6F, 0x6F, 0x0A, 0x63, 0x66, 0x6F, 0x70, 0x0A, 0x65, 0x62, 0x79, 0x74,
        0x65, 0x73, 0x41, 0x00,
    ];
    let res: Result<B, _> = cbor::from_slice(&b_extra);
    assert!(matches!(res, Err(DecodeError::UnknownField)));

    // Extra field at the start.
    let b_extra = vec![
        // {"fon": 10, "foo": 10, "bytes": h'00'}
        0xA3, 0x63, 0x66, 0x6F, 0x6E, 0x0A, 0x63, 0x66, 0x6F, 0x6F, 0x0A, 0x65, 0x62, 0x79, 0x74,
        0x65, 0x73, 0x41, 0x00,
    ];
    let res: Result<B, _> = cbor::from_slice(&b_extra);
    assert!(matches!(res, Err(DecodeError::UnknownField)));
}

#[test]
fn test_extra_fields_allowed() {
    let b_extra = vec![
        // {"foo": 10, "bytes": h'00', "bytesextra": true}
        0xA3, 0x63, 0x66, 0x6F, 0x6F, 0x0A, 0x65, 0x62, 0x79, 0x74, 0x65, 0x73, 0x41, 0x00, 0x6A,
        0x62, 0x79, 0x74, 0x65, 0x73, 0x65, 0x78, 0x74, 0x72, 0x61, 0xF5,
    ];
    let res: BWithUnknown = cbor::from_slice(&b_extra).unwrap();
    assert_eq!(res.foo, 10);
    assert_eq!(res.bytes, vec![0x00]);
}

#[test]
fn test_bigint() {
    let tcs = vec![
        (0, vec![0x40]),
        (1, vec![0x41, 0x01]),
        (10, vec![0x41, 0x0a]),
        (100, vec![0x41, 0x64]),
        (1000, vec![0x42, 0x03, 0xe8]),
        (1000000, vec![0x43, 0x0f, 0x42, 0x40]),
        (
            18446744073709551615,
            vec![0x48, 0xff, 0xff, 0xff, 0xff, 0xff, 0xff, 0xff, 0xff],
        ),
    ];
    for tc in tcs {
        let v: u128 = tc.0;
        let enc = cbor::to_vec(v);
        assert_eq!(enc, tc.1, "serialization should match");

        let dec: u128 = cbor::from_slice(&enc).expect("decoding should succeed");
        assert_eq!(v, dec, "serialization should round-trip");
    }
}

#[test]
fn test_uint64() {
    let tcs = vec![
        (4294967296u64, vec![0x1b, 0x00, 0x00, 0x00, 0x01, 0x00, 0x00, 0x00, 0x00]),
        (4294967295u64, vec![0x1b, 0x00, 0x00, 0x00, 0x00, 0xff, 0xff, 0xff, 0xff]),
    ];
    // The second encoding is not minimal, so only the non-strict path
    // accepts it; the strict reader takes canonical bytes alone.
    for tc in tcs {
        let v: u64 = tc.0;
        let dec: u64 = cbor::from_slice_non_strict(&tc.1).expect("decoding should succeed");
        assert_eq!(v, dec, "decoding should match expected result");
    }
    let strict: Result<u64, _> = cbor::from_slice(&[0x1b, 0x00, 0x00, 0x00, 0x00, 0xff, 0xff, 0xff, 0xff]);
    assert!(matches!(strict, Err(DecodeError::ParsingFailed)));
}

#[test]
fn derive_test_test_unit_struct() {
    let t1 = Unit;
    let enc = cbor::to_vec(t1.clone());
    assert_eq!(enc, vec![0xf6]);

    let dec: Unit = cbor::from_slice(&enc).unwrap();
    assert_eq!(dec, t1, "serialization should round-trip");
}

#[test]
fn test_enum_untagged() {
    let untagged = Untagged::First { a: 10, b: 11 };
    let enc = cbor::to_vec(untagged);
    assert_eq!(
        enc,
        vec![
            // {"a": 10, "b": 11}
            0xA2, 0x61, 0x61, 0x0A, 0x61, 0x62, 0x0B,
        ]
    );
}

#[test]
fn test_enum_internally_tagged() {
    let it = InternallyTagged::V1 { bar: 42 };
    let enc = cbor::to_vec(it.clone());
    assert_eq!(
        enc,
        vec![
            // {"v": 1, "bar": 42}
            0xA2, 0x61, 0x76, 0x01, 0x63, 0x62, 0x61, 0x72, 0x18, 0x2A,
        ],
        "should encode as expected"
    );

    let dec: InternallyTagged = cbor::from_slice(&enc).expect("serialization should round-trip");
    assert_eq!(dec, it, "serialization should round-trip");

    // With a missing tag.
    let enc = vec![
        // {"foo": 42}
        0xA1, 0x63, 0x66, 0x6F, 0x6F, 0x18, 0x2A,
    ];
    let dec: InternallyTagged =
        cbor::from_slice(&enc).expect("missing tag deserialization should work");
    assert_eq!(dec, InternallyTagged::V0 { foo: 42 }, "deserialization should be correct");

    // Encoding of the missing variant should not include the tag.
    let enc_rt = cbor::to_vec(dec);
    assert_eq!(enc_rt, enc, "missing tag encoding should round-trip");

    // With a missing tag but without any variant with the missing attribute.
    cbor::from_slice::<InternallyTaggedNoMissing>(&enc)
        .expect_err("missing tag deserialization without any missing variant should fail");
}

#[test]
fn test_as_array() {
    let asa = AsArray { foo: 10, bytes: b"here".to_vec() };
    let enc = cbor::to_vec(asa);
    assert_eq!(
        enc,
        vec![
            // [10, h'68657265']
            0x82, 0x0A, 0x44, 0x68, 0x65, 0x72, 0x65,
        ]
    );
}

#[test]
fn test_encode_as_map() {
    fn validate<T: EncodeAsMap>(_x: T) {}
    validate(AlwaysEncodesAsMap::Two(12));
}

#[test]
fn test_tuples() {
    let t1 = (1u64, "two".to_string(), 3u64, 4u128);
    let enc = cbor::to_vec(t1.clone());
    assert_eq!(
        enc,
        vec![
            // [1, "two", 3, h'04']
            0x84, 0x01, 0x63, 0x74, 0x77, 0x6F, 0x03, 0x41, 0x04,
        ]
    );

    let dec: (u64, String, u64, u128) = cbor::from_slice(&enc).unwrap();
    assert_eq!(dec, t1, "serialization should round-trip");
}

#[test]
fn test_non_string_keys() {
    let nsk = NonStringKeys::One(10, 20);
    let enc = cbor::to_vec(nsk.clone());
    assert_eq!(
        enc,
        vec![
            // {1: [10, 20]}
            0xA1, 0x01, 0x82, 0x0A, 0x14,
        ]
    );

    let dec: NonStringKeys = cbor::from_slice(&enc).expect("serialization should round-trip");
    assert_eq!(dec, nsk, "serialization should round-trip");
}

#[test]
fn test_unit_encode_decode() {
    let data = vec![0xf6]; // Null.
    let _dec: () = cbor::from_slice(&data).expect("unit type can be decoded from CBOR null");

    let data = vec![0xf7]; // Undefined.
    let _dec: () = cbor::from_slice(&data).expect("unit type can be decoded from CBOR undefined");
}

#[test]
fn test_bytes() {
    let a: Vec<u8> = vec![1, 2, 3];
    let enc = cbor::to_vec(cbor::containers::Bytes(a.clone()));
    assert_eq!(
        enc,
        vec![
            // h'010203'
            0x43, 0x01, 0x02, 0x03,
        ]
    );
    let dec: cbor::containers::Bytes = cbor::from_slice(&enc).expect("decoding should succeed");
    assert_eq!(dec.0, a, "serialization should round-trip");

    // Decoding into a fixed three-byte array succeeds, into a two-byte one
    // it is an unexpected type.
    let v: Value = cbor::from_slice(&enc).expect("decoding should succeed");
    let dec3 = cbor::decode::fixed_bytes_try_from_cbor_value(v, 3).expect("length matches");
    assert_eq!(dec3, vec![1, 2, 3]);

    let v: Value = cbor::from_slice(&enc).expect("decoding should succeed");
    let result = cbor::decode::fixed_bytes_try_from_cbor_value(v, 2)
        .expect_err("length mismatch should fail");
    assert!(matches!(result, DecodeError::UnexpectedType));
}

#[test]
fn test_char() {
    let t1 = 'A';
    let enc = cbor::to_vec(t1.clone());
    assert_eq!(enc, vec![0x18, 0x41]);

    let dec: char = cbor::from_slice(&enc).unwrap();
    assert_eq!(dec, t1, "serialization should round-trip");

    let bad_char = Value::Unsigned(0x110000); // invalid codepoint; unicode goes to 0x10ffff
    let result: Result<char, _> = cbor::from_value(bad_char);
    assert!(matches!(
        result.expect_err("deserialization should fail"),
        DecodeError::UnexpectedType
    ));
}

#[test]
fn test_skip_field() {
    let sk = SkipVariantsAndFields::First { foo: 10, bar: 20 };
    let enc = cbor::to_vec(sk);
    assert_eq!(
        enc,
        vec![
            // {"First": {"foo": 10}}
            0xA1, 0x65, 0x46, 0x69, 0x72, 0x73, 0x74, 0xA1, 0x63, 0x66, 0x6F, 0x6F, 0x0A,
        ],
    );
    let dec: SkipVariantsAndFields = cbor::from_slice(&enc).expect("deserialization should work");
    let expected = SkipVariantsAndFields::First {
        foo: 10,
        bar: 0, // Should be replaced with default value.
    };
    assert_eq!(dec, expected, "deserialization should work");
}

#[test]
fn test_skip_variant() {
    let skv_data = vec![
        // {"Second": {"a": 10}}
        0xA1, 0x66, 0x53, 0x65, 0x63, 0x6F, 0x6E, 0x64, 0xA1, 0x61, 0x61, 0x0A,
    ];
    let result = cbor::from_slice::<SkipVariantsAndFields>(&skv_data)
        .expect_err("deserialization of skipped variant should fail");
    assert!(matches!(result, DecodeError::UnknownField));

    // Serialization of an unserializable variant should result in undefined.
    let sk = SkipVariantsAndFields::Second { a: 10 };
    let enc = cbor::to_vec(sk);
    assert_eq!(enc, vec![247]);
}

#[test]
fn test_unit_variant_as_struct() {
    let uv = UnitEnumVariantAsStruct::One;
    let enc = cbor::to_vec(uv.clone());
    assert_eq!(
        enc,
        vec![
            // {"one": {}}
            0xA1, 0x63, 0x6F, 0x6E, 0x65, 0xA0,
        ],
    );
    let dec: UnitEnumVariantAsStruct =
        cbor::from_slice(&enc).expect("serialization should round-trip");
    assert_eq!(dec, uv, "serialization should round-trip");
}

#[test]
fn test_embed_variant() {
    let ep = EmbedParent::B(EmbedChild::E(42));
    let enc = cbor::to_vec(ep.clone());
    assert_eq!(
        enc,
        vec![
            // {"E": 42}
            0xA1, 0x61, 0x45, 0x18, 0x2A,
        ],
    );
    let dec: EmbedParent = cbor::from_slice(&enc).expect("serialization should round-trip");
    assert_eq!(dec, ep, "serialization should round-trip");

    // When there's an overlapping field, the parent field is always used
    // when decoding.
    let ep = EmbedParent::C(42);
    let enc = cbor::to_vec(ep.clone());
    assert_eq!(
        enc,
        vec![
            // {"C": 42}
            0xA1, 0x61, 0x43, 0x18, 0x2A,
        ],
    );
    let dec: EmbedParent = cbor::from_slice(&enc).expect("serialization should round-trip");
    assert_eq!(dec, ep, "serialization should round-trip");

    // Using the child field that overlaps will not round-trip.
    let ep = EmbedParent::B(EmbedChild::C("foo".to_string()));
    let enc = cbor::to_vec(ep);
    assert_eq!(
        enc,
        vec![
            // {"C": "foo"}
            0xA1, 0x61, 0x43, 0x63, 0x66, 0x6F, 0x6F,
        ],
    );
    let result =
        cbor::from_slice::<EmbedParent>(&enc).expect_err("parent field should take precedence");
    assert!(matches!(result, DecodeError::UnexpectedType));
}

#[test]
fn test_custom_encode_decode() {
    let ct = CustomEncodeDecode { foo: CustomType("almost a string".to_owned()) };
    let enc = cbor::to_vec(ct.clone());
    let dec: CustomEncodeDecode = cbor::from_slice(&enc).expect("serialization should round-trip");
    assert_eq!(dec, ct);
}

#[test]
fn test_custom_encode_decode_array() {
    let ct = CustomEncodeDecodeArray { foo: CustomType("almost a string".to_owned()) };
    let enc = cbor::to_vec(ct.clone());
    let dec: CustomEncodeDecodeArray =
        cbor::from_slice(&enc).expect("serialization should round-trip");
    assert_eq!(dec, ct);
}

#[test]
fn test_null_decode() {
    fn decode_from_null<T: Decode + Default + std::fmt::Debug + PartialEq>() {
        let data = vec![0xf6]; // Null.
        let dec1: T = cbor::from_slice(&data).expect("type can be decoded from CBOR null");

        let data = vec![0xf7]; // Undefined.
        let dec2: T = cbor::from_slice(&data).expect("type can be decoded from CBOR undefined");

        assert_eq!(dec1, dec2);
        assert_eq!(dec1, Default::default());
    }

    fn decode_from_null_special<T: Decode + std::fmt::Debug + PartialEq>(value: T) {
        let data = vec![0xf6]; // Null.
        let dec1: T = cbor::from_slice(&data).expect("type can be decoded from CBOR null");

        let data = vec![0xf7]; // Undefined.
        let dec2: T = cbor::from_slice(&data).expect("type can be decoded from CBOR undefined");

        assert_eq!(dec1, dec2);
        assert_eq!(dec1, value);
    }

    fn not_decode_from_null<T: Decode + std::fmt::Debug>() {
        let data = vec![0xf6]; // Null.
        cbor::from_slice::<T>(&data).expect_err("type should not be decoded from CBOR null");

        let data = vec![0xf7]; // Undefined.
        cbor::from_slice::<T>(&data).expect_err("type should not be decoded from CBOR undefined");
    }

    decode_from_null::<A>();
    decode_from_null::<B>();
    decode_from_null::<C>();
    decode_from_null::<bool>();
    decode_from_null::<u8>();
    decode_from_null::<u32>();
    decode_from_null::<u128>();
    decode_from_null::<i8>();
    decode_from_null::<i32>();
    decode_from_null::<char>();
    decode_from_null::<String>();
    decode_from_null::<Vec<String>>();
    decode_from_null::<Option<String>>();
    decode_from_null::<()>();

    decode_from_null_special::<Value>(null());

    not_decode_from_null::<D>();
    not_decode_from_null::<E>(); // Tagged with no_default.
}

#[test]
fn test_with_default() {
    let dec: WithOptionalDefault = cbor::from_slice(&[0xA0]).unwrap();
    assert_eq!(dec, WithOptionalDefault { bar: "".to_owned() });

    let dec: WithOptional = cbor::from_slice(&[0xA0]).unwrap();
    assert_eq!(dec, WithOptional { bar: "".to_owned() });
    // Without a predicate the optional field is omitted only when its
    // encoding is null; an empty string encodes as "" and stays.
    let wo = WithOptional { bar: "".to_owned() };
    let enc = cbor::to_vec(wo);
    assert_eq!(enc, vec![0xA1, 0x63, 0x62, 0x61, 0x72, 0x60]);

    // With the emptiness predicate the empty string is left out.
    let wod = WithOptionalDefault { bar: "".to_owned() };
    let enc = cbor::to_vec(wod);
    assert_eq!(enc, vec![0xA0]);
}

#[test]
fn test_with_optional() {
    // Optional unit struct is not encoded: a unit encodes as null.
    let value = WithOptionalUnit { ..Default::default() };
    let bytes = vec![0xA0];

    let enc = cbor::to_vec(value.clone());
    assert_eq!(enc, bytes);
    let dec: WithOptionalUnit = cbor::from_slice(&bytes).unwrap();
    assert_eq!(value, dec);

    // Non-optional unit struct is encoded as null.
    let value = WithNonOptionalUnit { ..Default::default() };
    let bytes = vec![161, 99, 102, 111, 111, 246];

    let enc = cbor::to_vec(value.clone());
    assert_eq!(enc, bytes);
    let dec: WithNonOptionalUnit = cbor::from_slice(&bytes).unwrap();
    assert_eq!(value, dec);

    // An optional struct field encodes to a map, never to null, so it is
    // emitted even when its own optional field is empty.
    let value = WithOptionalWithOptional { foo: WithOptional { ..Default::default() } };
    let bytes = vec![0xA1, 0x63, 0x66, 0x6F, 0x6F, 0xA1, 0x63, 0x62, 0x61, 0x72, 0x60];

    let enc = cbor::to_vec(value.clone());
    assert_eq!(enc, bytes);
    let dec: WithOptionalWithOptional = cbor::from_slice(&bytes).unwrap();
    assert_eq!(value, dec);
    // The absent field still recovers to the default.
    let dec: WithOptionalWithOptional = cbor::from_slice(&[0xA0]).unwrap();
    assert_eq!(WithOptionalWithOptional { ..Default::default() }, dec);

    let value = WithOptionalWithOptional { foo: WithOptional { bar: "bar".to_owned() } };
    let bytes = vec![
        0xA1, 0x63, 0x66, 0x6F, 0x6F, 0xA1, 0x63, 0x62, 0x61, 0x72, 0x63, 0x62, 0x61, 0x72,
    ];

    let enc = cbor::to_vec(value.clone());
    assert_eq!(enc, bytes);
    let dec: WithOptionalWithOptional = cbor::from_slice(&bytes).unwrap();
    assert_eq!(value, dec);

    // Non-optional struct with optional field is always encoded.
    let value = WithNonOptionalWithOptional { foo: WithOptional { ..Default::default() } };
    let bytes = vec![0xA1, 0x63, 0x66, 0x6F, 0x6F, 0xA1, 0x63, 0x62, 0x61, 0x72, 0x60];

    let enc = cbor::to_vec(value.clone());
    assert_eq!(enc, bytes);
    let dec: WithNonOptionalWithOptional = cbor::from_slice(&bytes).unwrap();
    assert_eq!(value, dec);

    let value = WithNonOptionalWithOptional { foo: WithOptional { bar: "bar".to_owned() } };
    let bytes = vec![
        0xA1, 0x63, 0x66, 0x6F, 0x6F, 0xA1, 0x63, 0x62, 0x61, 0x72, 0x63, 0x62, 0x61, 0x72,
    ];

    let enc = cbor::to_vec(value.clone());
    assert_eq!(enc, bytes);
    let dec: WithNonOptionalWithOptional = cbor::from_slice(&bytes).unwrap();
    assert_eq!(value, dec);

    // Optional struct with non-optional field is always encoded.
    let value = WithOptionalWithNonOptional { foo: WithNonOptional { ..Default::default() } };
    let bytes = vec![161, 99, 102, 111, 111, 161, 99, 98, 97, 114, 96];

    let enc = cbor::to_vec(value.clone());
    assert_eq!(enc, bytes);
    let dec: WithOptionalWithNonOptional = cbor::from_slice(&bytes).unwrap();
    assert_eq!(value, dec);

    let value = WithOptionalWithNonOptional { foo: WithNonOptional { bar: "bar".to_owned() } };
    let bytes = vec![
        0xA1, 0x63, 0x66, 0x6F, 0x6F, 0xA1, 0x63, 0x62, 0x61, 0x72, 0x63, 0x62, 0x61, 0x72,
    ];

    let enc = cbor::to_vec(value.clone());
    assert_eq!(enc, bytes);
    let dec: WithOptionalWithNonOptional = cbor::from_slice(&bytes).unwrap();
    assert_eq!(value, dec);

    // Non-optional struct with non-optional field is always encoded.
    let value = WithNonOptionalWithNonOptional { foo: WithNonOptional { ..Default::default() } };
    let bytes = vec![161, 99, 102, 111, 111, 161, 99, 98, 97, 114, 96];

    let enc = cbor::to_vec(value.clone());
    assert_eq!(enc, bytes);
    let dec: WithNonOptionalWithNonOptional = cbor::from_slice(&bytes).unwrap();
    assert_eq!(value, dec);

    let value = WithNonOptionalWithNonOptional {
        foo: WithNonOptional { bar: "bar".to_owned() },
    };
    let bytes = vec![
        0xA1, 0x63, 0x66, 0x6F, 0x6F, 0xA1, 0x63, 0x62, 0x61, 0x72, 0x63, 0x62, 0x61, 0x72,
    ];

    let enc = cbor::to_vec(value.clone());
    assert_eq!(enc, bytes);
    let dec: WithNonOptionalWithNonOptional = cbor::from_slice(&bytes).unwrap();
    assert_eq!(value, dec);
}

#[test]
fn test_arrays() {
    let a: Vec<u64> = vec![1, 2, 3];
    let enc = cbor::to_vec(a.clone());
    assert_eq!(
        enc,
        vec![
            // [1, 2, 3]
            0x83, 0x01, 0x02, 0x03,
        ]
    );
    let v: Value = cbor::from_slice(&enc).expect("decoding should succeed");
    let dec: Vec<u64> =
        cbor::decode::fixed_array_try_from_cbor_value(v, 3).expect("length matches");
    assert_eq!(dec, a, "serialization should round-trip");
    let v: Value = cbor::from_slice(&enc).expect("decoding should succeed");
    let short: Result<Vec<u64>, _> = cbor::decode::fixed_array_try_from_cbor_value(v, 2);
    assert!(matches!(short, Err(DecodeError::UnexpectedType)));

    let a: Vec<String> = vec!["foo".to_string(), "bar".to_string()];
    let enc = cbor::to_vec(a.clone());
    assert_eq!(
        enc,
        vec![
            // ["foo", "bar"]
            0x82, 0x63, 0x66, 0x6F, 0x6F, 0x63, 0x62, 0x61, 0x72,
        ]
    );
    let v: Value = cbor::from_slice(&enc).expect("decoding should succeed");
    let dec: Vec<String> =
        cbor::decode::fixed_array_try_from_cbor_value(v, 2).expect("length matches");
    assert_eq!(dec, a, "serialization should round-trip");
}

#[test]
fn test_btree_map() {
    let map = CborMap { entries: vec![("a".to_string(), 10u64), ("b".to_string(), 11u64)] };
    let enc = cbor::to_vec(map);
    assert_eq!(
        enc,
        vec![
            // {"a": 10, "b": 11}
            0xA2, 0x61, 0x61, 0x0A, 0x61, 0x62, 0x0B,
        ]
    );
}

#[test]
fn test_hash_map() {
    // Entries held in any order are emitted in canonical key order.
    let map = CborMap { entries: vec![("b".to_string(), 11u64), ("a".to_string(), 10u64)] };
    let enc = cbor::to_vec(map);
    assert_eq!(
        enc,
        vec![
            // {"a": 10, "b": 11}
            0xA2, 0x61, 0x61, 0x0A, 0x61, 0x62, 0x0B,
        ]
    );

    let dec: CborMap<String, u64> = cbor::from_slice(&enc).unwrap();
    assert_eq!(dec.entries, vec![("a".to_string(), 10u64), ("b".to_string(), 11u64)]);
}

#[test]
fn test_set_carrier() {
    let set = CborSet { items: vec![3u64, 1, 2] };
    let enc = cbor::to_vec(set);
    assert_eq!(enc, vec![0x83, 0x03, 0x01, 0x02]);
    let dec: CborSet<u64> = cbor::from_slice(&enc).unwrap();
    assert_eq!(dec.items, vec![3u64, 1, 2]);
}
