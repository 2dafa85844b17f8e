//! The schema model: the attributes that may be attached to a type, a
//! variant or a field, the wire key they select, and the validation of
//! mutually exclusive combinations.
use vstd::prelude::*;

use crate::values::{Tree, Value};

verus! {

/// A wire key for a field or variant: a text string or an unsigned integer.
pub enum Key {
    Text(String),
    Integer(u64),
}

impl Key {
    /// The key as a tree, under the canonical ordering of keys.
    pub open spec fn key_tree(&self) -> Tree {
        match self {
            Key::Text(s) => Tree::Text(vstd::utf8::encode_utf8(s@)),
            Key::Integer(n) => Tree::Unsigned(*n),
        }
    }

    /// The key as a CBOR value.
    pub fn to_cbor_key(&self) -> (r: Value)
        ensures
            r.dv() == self.key_tree(),
    {
        match self {
            Key::Text(s) => Value::TextString(s.clone()),
            Key::Integer(n) => Value::Unsigned(*n),
        }
    }
}

/// The shape of a struct's or variant's fields.
#[derive(Clone, Copy, PartialEq, Eq, Structural)]
pub enum FieldsShape {
    Unit,
    Newtype,
    Tuple,
    Named,
}

/// The attributes of one field.
pub struct FieldSchema {
    /// The wire key: the rename value if present, else the field identifier.
    pub key: Key,
    pub optional: bool,
    pub skip: bool,
    pub has_skip_serializing_if: bool,
    pub has_serialize_with: bool,
    pub has_deserialize_with: bool,
}

/// A struct's or variant's fields together with their shape.
pub struct FieldsSchema {
    pub shape: FieldsShape,
    pub fields: Vec<FieldSchema>,
}

impl FieldsSchema {
    /// Whether the fields are carried as a positional array on the wire.
    pub open spec fn is_array_carrier(&self, as_array: bool) -> bool {
        self.shape == FieldsShape::Newtype || self.shape == FieldsShape::Tuple || as_array
    }

    /// No field of an array carrier may be optional or carry an
    /// emission predicate.
    pub open spec fn array_fields_ok(&self) -> bool {
        forall|i: int|
            0 <= i < self.fields@.len() ==> !(#[trigger] self.fields@[i]).optional
                && !self.fields@[i].has_skip_serializing_if
    }
}

/// The attributes of one enum variant.
pub struct VariantSchema {
    /// The wire key: the rename value if present, else the variant name.
    pub key: Key,
    pub fields: FieldsSchema,
    pub as_array: bool,
    pub as_struct: bool,
    pub skip: bool,
    pub embed: bool,
    pub allow_unknown: bool,
    pub missing: bool,
    pub has_discriminant: bool,
}

/// What a codable type holds: struct fields or enum variants.
pub enum SchemaData {
    Struct(FieldsSchema),
    Enum(Vec<VariantSchema>),
}

/// The type-level attributes together with the type's data.
pub struct Codable {
    pub transparent: bool,
    pub untagged: bool,
    pub tag: Option<Key>,
    pub as_array: bool,
    pub no_default: bool,
    pub with_default: bool,
    pub allow_unknown: bool,
    pub data: SchemaData,
}

/// A rejected attribute combination.
#[derive(Clone, Copy, Debug, PartialEq, Eq, Structural)]
pub enum SchemaError {
    DefaultConflict,
    TagConflict,
    TransparentNotNewtype,
    OptionalInArray,
    PredicateInArray,
    EmbedNotNewtype,
    EmbedInTagged,
    ArrayVariantInTagged,
    MultipleMissing,
    MissingInUntagged,
}

impl Codable {
    /// Every attribute-combination rule the schema build enforces.
    pub open spec fn valid(&self) -> bool {
        &&& !(self.no_default && self.with_default)
        &&& !(self.untagged && self.tag is Some)
        &&& (self.transparent ==> match self.data {
            SchemaData::Struct(fs) => fs.shape == FieldsShape::Newtype,
            SchemaData::Enum(_) => false,
        })
        &&& (match self.data {
            SchemaData::Struct(fs) => fs.is_array_carrier(self.as_array) ==> fs.array_fields_ok(),
            SchemaData::Enum(vs) => {
                &&& (forall|i: int|
                    0 <= i < vs@.len() ==> ((#[trigger] vs@[i]).fields.is_array_carrier(
                        vs@[i].as_array,
                    ) ==> vs@[i].fields.array_fields_ok()))
                &&& (forall|i: int| 0 <= i < vs@.len() && (#[trigger] vs@[i]).embed
                    ==> vs@[i].fields.shape == FieldsShape::Newtype)
                &&& (self.tag is Some ==> forall|i: int|
                    0 <= i < vs@.len() ==> !(#[trigger] vs@[i]).embed)
                &&& (self.tag is Some ==> forall|i: int|
                    0 <= i < vs@.len() ==> !(#[trigger] vs@[i]).as_array && vs@[i].fields.shape
                        != FieldsShape::Tuple)
                &&& (forall|i: int, j: int|
                    0 <= i < j < vs@.len() ==> !((#[trigger] vs@[i]).missing && (
                    #[trigger] vs@[j]).missing))
                &&& (self.untagged ==> forall|i: int|
                    0 <= i < vs@.len() ==> !(#[trigger] vs@[i]).missing)
            },
        })
    }

    /// Check the schema against every attribute-combination rule, reporting
    /// the first broken one.
    #[verifier::loop_isolation(false)]
    pub fn validate(&self) -> (r: Result<(), SchemaError>)
        ensures
            r is Ok <==> self.valid(),
    {
        if self.no_default && self.with_default {
            return Err(SchemaError::DefaultConflict);
        }
        if self.untagged && self.tag.is_some() {
            return Err(SchemaError::TagConflict);
        }
        match &self.data {
            SchemaData::Struct(fs) => {
                if self.transparent && fs.shape != FieldsShape::Newtype {
                    return Err(SchemaError::TransparentNotNewtype);
                }
                if fs.shape == FieldsShape::Newtype || fs.shape == FieldsShape::Tuple
                    || self.as_array {
                    match check_array_fields(&fs.fields) {
                        Result::Ok(()) => {},
                        Result::Err(e) => {
                            return Err(e);
                        },
                    }
                }
                Ok(())
            },
            SchemaData::Enum(vs) => {
                if self.transparent {
                    return Err(SchemaError::TransparentNotNewtype);
                }
                let mut seen_missing = false;
                let mut i: usize = 0;
                while i < vs.len()
                    invariant
                        i <= vs@.len(),
                        forall|k: int| 0 <= k < i ==> ((#[trigger] vs@[k]).fields.is_array_carrier(
                            vs@[k].as_array,
                        ) ==> vs@[k].fields.array_fields_ok()),
                        forall|k: int| 0 <= k < i && (#[trigger] vs@[k]).embed ==> vs@[k
                        ].fields.shape == FieldsShape::Newtype,
                        self.tag is Some ==> forall|k: int|
                            0 <= k < i ==> !(#[trigger] vs@[k]).embed,
                        self.tag is Some ==> forall|k: int|
                            0 <= k < i ==> !(#[trigger] vs@[k]).as_array && vs@[k].fields.shape
                                != FieldsShape::Tuple,
                        seen_missing == exists|k: int| 0 <= k < i && (#[trigger] vs@[k]).missing,
                        forall|k: int, j: int|
                            0 <= k < j < i ==> !((#[trigger] vs@[k]).missing && (
                            #[trigger] vs@[j]).missing),
                        self.untagged ==> forall|k: int|
                            0 <= k < i ==> !(#[trigger] vs@[k]).missing,
                    decreases vs@.len() - i,
                {
                    let v = &vs[i];
                    if v.embed && v.fields.shape != FieldsShape::Newtype {
                        return Err(SchemaError::EmbedNotNewtype);
                    }
                    if self.tag.is_some() && v.embed {
                        return Err(SchemaError::EmbedInTagged);
                    }
                    if self.tag.is_some() && (v.as_array || v.fields.shape == FieldsShape::Tuple) {
                        return Err(SchemaError::ArrayVariantInTagged);
                    }
                    if v.missing && seen_missing {
                        return Err(SchemaError::MultipleMissing);
                    }
                    if v.missing && self.untagged {
                        return Err(SchemaError::MissingInUntagged);
                    }
                    if v.fields.shape == FieldsShape::Newtype || v.fields.shape
                        == FieldsShape::Tuple || v.as_array {
                        match check_array_fields(&v.fields.fields) {
                            Result::Ok(()) => {},
                            Result::Err(e) => {
                                return Err(e);
                            },
                        }
                    }
                    if v.missing {
                        seen_missing = true;
                    }
                    i += 1;
                }
                Ok(())
            },
        }
    }
}

/// The variant marked `missing`, if any: inside an internally tagged enum,
/// the one that absorbs decodes lacking the tag.
#[verifier::loop_isolation(false)]
pub fn missing_index(variants: &Vec<VariantSchema>) -> (r: Option<usize>)
    ensures
        match r {
            Option::Some(i) => i < variants@.len() && (#[trigger] variants@[i as int]).missing
                && (forall|j: int| 0 <= j < i ==> !(#[trigger] variants@[j]).missing),
            Option::None => forall|j: int|
                0 <= j < variants@.len() ==> !(#[trigger] variants@[j]).missing,
        },
{
    let mut i: usize = 0;
    while i < variants.len()
        invariant
            i <= variants@.len(),
            forall|j: int| 0 <= j < i ==> !(#[trigger] variants@[j]).missing,
        decreases variants@.len() - i,
    {
        if variants[i].missing {
            return Some(i);
        }
        i += 1;
    }
    None
}

/// Check that no field of an array carrier is optional or carries an
/// emission predicate.
#[verifier::loop_isolation(false)]
fn check_array_fields(fields: &Vec<FieldSchema>) -> (r: Result<(), SchemaError>)
    ensures
        r is Ok <==> (forall|i: int|
            0 <= i < fields@.len() ==> !(#[trigger] fields@[i]).optional
                && !fields@[i].has_skip_serializing_if),
        r matches Result::Err(e) ==> (e == SchemaError::OptionalInArray || e
            == SchemaError::PredicateInArray),
{
    let mut i: usize = 0;
    while i < fields.len()
        invariant
            i <= fields@.len(),
            forall|k: int| 0 <= k < i ==> !(#[trigger] fields@[k]).optional
                && !fields@[k].has_skip_serializing_if,
        decreases fields@.len() - i,
    {
        if fields[i].optional {
            return Err(SchemaError::OptionalInArray);
        }
        if fields[i].has_skip_serializing_if {
            return Err(SchemaError::PredicateInArray);
        }
        i += 1;
    }
    Ok(())
}

} // verus!
