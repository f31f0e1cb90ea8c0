use vstd::prelude::*;

use crate::constraint::Constraint;
use crate::media::BamlMediaType;

verus! {

/// A primitive type.
#[derive(Clone, Copy, Debug, PartialEq, Eq, Structural)]
pub enum TypeValue {
    String,
    Int,
    Float,
    Bool,
    Media(BamlMediaType),
    Null,
}

/// The value of a literal type.
#[derive(Clone, Debug, PartialEq)]
pub enum LiteralValue {
    String(String),
    Int(i64),
    Bool(bool),
}

/// How values of a type behave while they are streamed: `done` asks for the
/// value only once it is complete, `state` asks for its completion state to
/// be reported with it.
#[derive(Clone, Copy, Debug, PartialEq, Eq, Structural)]
pub struct StreamingBehavior {
    pub done: bool,
    pub state: bool,
}

/// The constraints and streaming behavior attached to a type.
#[derive(Debug, PartialEq)]
pub struct TypeMetadata {
    pub constraints: Vec<Constraint>,
    pub streaming_behavior: StreamingBehavior,
}

/// The type of a field, argument or result.
#[derive(Debug, PartialEq)]
pub enum FieldType {
    Primitive(TypeValue, TypeMetadata),
    Enum(String, TypeMetadata),
    Literal(LiteralValue, TypeMetadata),
    Class(String, TypeMetadata),
    List(Box<FieldType>, TypeMetadata),
    Mapping(Box<FieldType>, Box<FieldType>, TypeMetadata),
    Union(Vec<FieldType>, TypeMetadata),
    Tuple(Vec<FieldType>, TypeMetadata),
    Optional(Box<FieldType>, TypeMetadata),
}

impl Default for StreamingBehavior {
    fn default() -> (r: StreamingBehavior)
        ensures
            r == (StreamingBehavior { done: false, state: false }),
    {
        StreamingBehavior { done: false, state: false }
    }
}

impl TypeMetadata {
    /// No constraint, and the default streaming behavior.
    pub open spec fn is_default(&self) -> bool {
        self.constraints@.len() == 0 && self.streaming_behavior == (StreamingBehavior { done: false, state: false })
    }
}

impl Default for TypeMetadata {
    fn default() -> (r: TypeMetadata)
        ensures
            r.is_default(),
    {
        TypeMetadata { constraints: Vec::new(), streaming_behavior: StreamingBehavior::default() }
    }
}

/// The metadata of a type.
pub open spec fn meta_of_type(t: FieldType) -> TypeMetadata {
    match t {
        FieldType::Primitive(_, m) => m,
        FieldType::Enum(_, m) => m,
        FieldType::Literal(_, m) => m,
        FieldType::Class(_, m) => m,
        FieldType::List(_, m) => m,
        FieldType::Mapping(_, _, m) => m,
        FieldType::Union(_, m) => m,
        FieldType::Tuple(_, m) => m,
        FieldType::Optional(_, m) => m,
    }
}

impl FieldType {
    /// The metadata of this type.
    pub fn meta(&self) -> (r: &TypeMetadata)
        ensures
            *r == meta_of_type(*self),
    {
        match self {
            FieldType::Primitive(_, m) => m,
            FieldType::Enum(_, m) => m,
            FieldType::Literal(_, m) => m,
            FieldType::Class(_, m) => m,
            FieldType::List(_, m) => m,
            FieldType::Mapping(_, _, m) => m,
            FieldType::Union(_, m) => m,
            FieldType::Tuple(_, m) => m,
            FieldType::Optional(_, m) => m,
        }
    }

    /// The type `string`.
    pub fn string() -> (r: Self)
        ensures
            r matches FieldType::Primitive(TypeValue::String, m) && m.is_default(),
    {
        FieldType::Primitive(TypeValue::String, TypeMetadata::default())
    }

    /// The literal type of the given string.
    pub fn literal_string(value: String) -> (r: Self)
        ensures
            r matches FieldType::Literal(LiteralValue::String(s), m) && s == value && m.is_default(),
    {
        FieldType::Literal(LiteralValue::String(value), TypeMetadata::default())
    }

    /// The literal type of the given integer.
    pub fn literal_int(value: i64) -> (r: Self)
        ensures
            r matches FieldType::Literal(LiteralValue::Int(i), m) && i == value && m.is_default(),
    {
        FieldType::Literal(LiteralValue::Int(value), TypeMetadata::default())
    }

    /// The literal type of the given boolean.
    pub fn literal_bool(value: bool) -> (r: Self)
        ensures
            r matches FieldType::Literal(LiteralValue::Bool(b), m) && b == value && m.is_default(),
    {
        FieldType::Literal(LiteralValue::Bool(value), TypeMetadata::default())
    }

    /// The type `int`.
    pub fn int_type() -> (r: Self)
        ensures
            r matches FieldType::Primitive(TypeValue::Int, m) && m.is_default(),
    {
        FieldType::Primitive(TypeValue::Int, TypeMetadata::default())
    }

    /// The type `float`.
    pub fn float() -> (r: Self)
        ensures
            r matches FieldType::Primitive(TypeValue::Float, m) && m.is_default(),
    {
        FieldType::Primitive(TypeValue::Float, TypeMetadata::default())
    }

    /// The type `bool`.
    pub fn bool() -> (r: Self)
        ensures
            r matches FieldType::Primitive(TypeValue::Bool, m) && m.is_default(),
    {
        FieldType::Primitive(TypeValue::Bool, TypeMetadata::default())
    }

    /// The type `null`.
    pub fn null() -> (r: Self)
        ensures
            r matches FieldType::Primitive(TypeValue::Null, m) && m.is_default(),
    {
        FieldType::Primitive(TypeValue::Null, TypeMetadata::default())
    }

    /// The type `image`.
    pub fn image() -> (r: Self)
        ensures
            r matches FieldType::Primitive(TypeValue::Media(BamlMediaType::Image), m) && m.is_default(),
    {
        FieldType::Primitive(TypeValue::Media(BamlMediaType::Image), TypeMetadata::default())
    }

    /// The enum type of the given name.
    pub fn enum_type(name: &str) -> (r: Self)
        ensures
            r matches FieldType::Enum(n, m) && n@ == name@ && m.is_default(),
    {
        FieldType::Enum(name.to_owned(), TypeMetadata::default())
    }

    /// The class type of the given name.
    pub fn class(name: &str) -> (r: Self)
        ensures
            r matches FieldType::Class(n, m) && n@ == name@ && m.is_default(),
    {
        FieldType::Class(name.to_owned(), TypeMetadata::default())
    }

    /// The type of lists of `inner`.
    pub fn list(inner: FieldType) -> (r: Self)
        ensures
            r matches FieldType::List(b, m) && *b == inner && m.is_default(),
    {
        FieldType::List(Box::new(inner), TypeMetadata::default())
    }

    /// The type of lists of this type.
    pub fn as_list(self) -> (r: Self)
        ensures
            r matches FieldType::List(b, m) && *b == self && m.is_default(),
    {
        FieldType::List(Box::new(self), TypeMetadata::default())
    }

    /// The type of maps from `key` to `value`.
    pub fn map(key: FieldType, value: FieldType) -> (r: Self)
        ensures
            r matches FieldType::Mapping(k, v, m) && *k == key && *v == value && m.is_default(),
    {
        FieldType::Mapping(Box::new(key), Box::new(value), TypeMetadata::default())
    }

    /// The union of the given types.
    pub fn union(choices: Vec<FieldType>) -> (r: Self)
        ensures
            r matches FieldType::Union(c, m) && c == choices && m.is_default(),
    {
        FieldType::Union(choices, TypeMetadata::default())
    }

    /// The tuple of the given types.
    pub fn tuple(choices: Vec<FieldType>) -> (r: Self)
        ensures
            r matches FieldType::Tuple(c, m) && c == choices && m.is_default(),
    {
        FieldType::Tuple(choices, TypeMetadata::default())
    }

    /// `inner` or null.
    pub fn optional(inner: FieldType) -> (r: Self)
        ensures
            r matches FieldType::Optional(b, m) && *b == inner && m.is_default(),
    {
        FieldType::Optional(Box::new(inner), TypeMetadata::default())
    }

    /// This type or null.
    pub fn as_optional(self) -> (r: Self)
        ensures
            r matches FieldType::Optional(b, m) && *b == self && m.is_default(),
    {
        FieldType::Optional(Box::new(self), TypeMetadata::default())
    }
}

} // verus!
