use vstd::prelude::*;
use vstd::string::StringExecFns;

use crate::strings::{concat3, join, join_strings};

verus! {

/// A primitive type of the intermediate representation.
#[derive(Clone, Copy, Debug, PartialEq, Eq, Structural)]
pub enum TypeValue {
    Char,
    String,
    Int,
    Float,
    Bool,
    Null,
}

/// A type of the intermediate representation.
#[derive(Debug, PartialEq)]
pub enum FieldType {
    Primitive(TypeValue),
    Enum(String),
    Class(String),
    List(Box<FieldType>),
    Mapping(Box<FieldType>, Box<FieldType>),
    Union(Vec<FieldType>),
    Tuple(Vec<FieldType>),
    Optional(Box<FieldType>),
}

/// A field of a class.
#[derive(Debug, PartialEq)]
pub struct Field {
    pub name: String,
    pub field_type: FieldType,
    pub streaming_needed: bool,
}

/// A class: a name and its fields.
#[derive(Debug, PartialEq)]
pub struct Class {
    pub name: String,
    pub static_fields: Vec<Field>,
}

/// An enum: a name and its values.
#[derive(Debug, PartialEq)]
pub struct Enum {
    pub name: String,
    pub values: Vec<String>,
}

/// The arguments of a function: one unnamed argument or a list of named ones.
#[derive(Debug, PartialEq)]
pub enum FunctionArgs {
    UnnamedArg(FieldType),
    NamedArgList(Vec<(String, FieldType)>),
}

/// A function: its name, arguments and output type, and the names of its
/// client configurations (`None` for a function that has implementations in
/// place of configurations).
#[derive(Debug, PartialEq)]
pub struct Function {
    pub name: String,
    pub inputs: FunctionArgs,
    pub output: FieldType,
    pub client_configs: Option<Vec<String>>,
}

/// The enums, classes and functions of a project.
#[derive(Debug, PartialEq)]
pub struct IntermediateRepr {
    pub enums: Vec<Enum>,
    pub classes: Vec<Class>,
    pub functions: Vec<Function>,
}

/// The name of a primitive type.
pub open spec fn primitive_name(t: TypeValue) -> Seq<char> {
    match t {
        TypeValue::Char => "char"@,
        TypeValue::String => "string"@,
        TypeValue::Int => "int"@,
        TypeValue::Float => "float"@,
        TypeValue::Bool => "bool"@,
        TypeValue::Null => "null"@,
    }
}

/// How a type is written: names for classes and enums, `(a | b)` for a
/// union, `(a, b)` for a tuple, `map<k, v>`, `t[]` and `t?`.
pub open spec fn type_text(t: FieldType) -> Seq<char>
    decreases t, 1nat,
{
    match t {
        FieldType::Enum(name) => name@,
        FieldType::Class(name) => name@,
        FieldType::Primitive(p) => primitive_name(p),
        FieldType::Union(choices) => "("@ + join(type_texts(choices@), " | "@) + ")"@,
        FieldType::Tuple(choices) => "("@ + join(type_texts(choices@), ", "@) + ")"@,
        FieldType::Mapping(k, v) => "map<"@ + type_text(*k) + ", "@ + type_text(*v) + ">"@,
        FieldType::List(inner) => type_text(*inner) + "[]"@,
        FieldType::Optional(inner) => type_text(*inner) + "?"@,
    }
}

/// How each of a sequence of types is written, in order.
pub open spec fn type_texts(s: Seq<FieldType>) -> Seq<Seq<char>>
    decreases s, 0nat,
{
    if s.len() == 0 {
        Seq::empty()
    } else {
        type_texts(s.subrange(0, s.len() - 1)).push(type_text(s[s.len() - 1]))
    }
}

/// The Python name of a primitive type: Python's own built-in names, `str`
/// for both `char` and `string` (Python has no character type), `int`,
/// `float`, `bool`, and `None` for `null`. This mapping is this crate's
/// choice for the primitives of the representation.
pub open spec fn python_primitive(t: TypeValue) -> Seq<char> {
    match t {
        TypeValue::Char => "str"@,
        TypeValue::String => "str"@,
        TypeValue::Int => "int"@,
        TypeValue::Float => "float"@,
        TypeValue::Bool => "bool"@,
        TypeValue::Null => "None"@,
    }
}

/// How a type is referred to in generated Python code.
pub open spec fn python_reference(t: FieldType) -> Seq<char>
    decreases t, 1nat,
{
    match t {
        FieldType::Enum(name) => "types."@ + name@,
        FieldType::Class(name) => "types."@ + name@,
        FieldType::List(inner) => "List["@ + python_reference(*inner) + "]"@,
        FieldType::Mapping(k, v) => "Dict["@ + python_reference(*k) + ", "@ + python_reference(*v) + "]"@,
        FieldType::Primitive(p) => python_primitive(p),
        FieldType::Union(inner) => "Union["@ + join(python_references(inner@), ", "@) + "]"@,
        FieldType::Tuple(inner) => "Tuple["@ + join(python_references(inner@), ", "@) + "]"@,
        FieldType::Optional(inner) => "Optional["@ + python_reference(*inner) + "]"@,
    }
}

/// The Python references of a sequence of types, in order.
pub open spec fn python_references(s: Seq<FieldType>) -> Seq<Seq<char>>
    decreases s, 0nat,
{
    if s.len() == 0 {
        Seq::empty()
    } else {
        python_references(s.subrange(0, s.len() - 1)).push(python_reference(s[s.len() - 1]))
    }
}

fn primitive_text(p: TypeValue) -> (r: String)
    ensures
        r@ == primitive_name(p),
{
    match p {
        TypeValue::Char => "char".to_owned(),
        TypeValue::String => "string".to_owned(),
        TypeValue::Int => "int".to_owned(),
        TypeValue::Float => "float".to_owned(),
        TypeValue::Bool => "bool".to_owned(),
        TypeValue::Null => "null".to_owned(),
    }
}

/// The Python name of a primitive type.
pub fn to_python(p: TypeValue) -> (r: String)
    ensures
        r@ == python_primitive(p),
{
    match p {
        TypeValue::Char => "str".to_owned(),
        TypeValue::String => "str".to_owned(),
        TypeValue::Int => "int".to_owned(),
        TypeValue::Float => "float".to_owned(),
        TypeValue::Bool => "bool".to_owned(),
        TypeValue::Null => "None".to_owned(),
    }
}

impl FieldType {
    /// How this type is written (see `type_text`).
    pub fn to_text(&self) -> (r: String)
        ensures
            r@ == type_text(*self),
        decreases self,
    {
        match self {
            FieldType::Enum(name) => name.clone(),
            FieldType::Class(name) => name.clone(),
            FieldType::Primitive(p) => primitive_text(*p),
            FieldType::Union(choices) => {
                let mut parts: Vec<String> = Vec::new();
                let mut i: usize = 0;
                while i < choices.len()
                    invariant
                        i <= choices@.len(),
                        *self == FieldType::Union(*choices),
                        parts@.map_values(|e: String| e@) == type_texts(choices@.subrange(0, i as int)),
                    decreases choices@.len() - i,
                {
                    proof {
                        assert(decreases_to!(*self => self->Union_0));
                        assert(decreases_to!(*choices => choices@));
                        assert(decreases_to!(choices@ => choices@[i as int]));
                    }
                    let t = choices[i].to_text();
                    parts.push(t);
                    proof {
                        assert(choices@.subrange(0, i + 1).subrange(0, i as int) =~= choices@.subrange(0, i as int));
                        assert(parts@.map_values(|e: String| e@) =~= type_texts(choices@.subrange(0, i + 1)));
                    }
                    i = i + 1;
                }
                assert(choices@.subrange(0, i as int) =~= choices@);
                let j = join_strings(&parts, " | ");
                concat3("(", j.as_str(), ")")
            },
            FieldType::Tuple(choices) => {
                let mut parts: Vec<String> = Vec::new();
                let mut i: usize = 0;
                while i < choices.len()
                    invariant
                        i <= choices@.len(),
                        *self == FieldType::Tuple(*choices),
                        parts@.map_values(|e: String| e@) == type_texts(choices@.subrange(0, i as int)),
                    decreases choices@.len() - i,
                {
                    proof {
                        assert(decreases_to!(*self => self->Tuple_0));
                        assert(decreases_to!(*choices => choices@));
                        assert(decreases_to!(choices@ => choices@[i as int]));
                    }
                    let t = choices[i].to_text();
                    parts.push(t);
                    proof {
                        assert(choices@.subrange(0, i + 1).subrange(0, i as int) =~= choices@.subrange(0, i as int));
                        assert(parts@.map_values(|e: String| e@) =~= type_texts(choices@.subrange(0, i + 1)));
                    }
                    i = i + 1;
                }
                assert(choices@.subrange(0, i as int) =~= choices@);
                let j = join_strings(&parts, ", ");
                concat3("(", j.as_str(), ")")
            },
            FieldType::Mapping(k, v) => {
                let ks = k.to_text();
                let vs = v.to_text();
                let mut r = concat3("map<", ks.as_str(), ", ");
                r.append(vs.as_str());
                r.append(">");
                r
            },
            FieldType::List(t) => {
                let mut r = t.to_text();
                r.append("[]");
                r
            },
            FieldType::Optional(t) => {
                let mut r = t.to_text();
                r.append("?");
                r
            },
        }
    }

    /// How this type is referred to in generated Python code (see
    /// `python_reference`).
    pub fn to_type_reference(&self) -> (r: String)
        ensures
            r@ == python_reference(*self),
        decreases self,
    {
        match self {
            FieldType::Class(name) => {
                let mut r = "types.".to_owned();
                r.append(name.as_str());
                r
            },
            FieldType::Enum(name) => {
                let mut r = "types.".to_owned();
                r.append(name.as_str());
                r
            },
            FieldType::List(inner) => {
                let s = inner.to_type_reference();
                concat3("List[", s.as_str(), "]")
            },
            FieldType::Mapping(key, value) => {
                let ks = key.to_type_reference();
                let vs = value.to_type_reference();
                let mut r = concat3("Dict[", ks.as_str(), ", ");
                r.append(vs.as_str());
                r.append("]");
                r
            },
            FieldType::Primitive(p) => to_python(*p),
            FieldType::Union(inner) => {
                let mut parts: Vec<String> = Vec::new();
                let mut i: usize = 0;
                while i < inner.len()
                    invariant
                        i <= inner@.len(),
                        *self == FieldType::Union(*inner),
                        parts@.map_values(|e: String| e@) == python_references(inner@.subrange(0, i as int)),
                    decreases inner@.len() - i,
                {
                    proof {
                        assert(decreases_to!(*self => self->Union_0));
                        assert(decreases_to!(*inner => inner@));
                        assert(decreases_to!(inner@ => inner@[i as int]));
                    }
                    let t = inner[i].to_type_reference();
                    parts.push(t);
                    proof {
                        assert(inner@.subrange(0, i + 1).subrange(0, i as int) =~= inner@.subrange(0, i as int));
                        assert(parts@.map_values(|e: String| e@) =~= python_references(inner@.subrange(0, i + 1)));
                    }
                    i = i + 1;
                }
                assert(inner@.subrange(0, i as int) =~= inner@);
                let j = join_strings(&parts, ", ");
                concat3("Union[", j.as_str(), "]")
            },
            FieldType::Tuple(inner) => {
                let mut parts: Vec<String> = Vec::new();
                let mut i: usize = 0;
                while i < inner.len()
                    invariant
                        i <= inner@.len(),
                        *self == FieldType::Tuple(*inner),
                        parts@.map_values(|e: String| e@) == python_references(inner@.subrange(0, i as int)),
                    decreases inner@.len() - i,
                {
                    proof {
                        assert(decreases_to!(*self => self->Tuple_0));
                        assert(decreases_to!(*inner => inner@));
                        assert(decreases_to!(inner@ => inner@[i as int]));
                    }
                    let t = inner[i].to_type_reference();
                    parts.push(t);
                    proof {
                        assert(inner@.subrange(0, i + 1).subrange(0, i as int) =~= inner@.subrange(0, i as int));
                        assert(parts@.map_values(|e: String| e@) =~= python_references(inner@.subrange(0, i + 1)));
                    }
                    i = i + 1;
                }
                assert(inner@.subrange(0, i as int) =~= inner@);
                let j = join_strings(&parts, ", ");
                concat3("Tuple[", j.as_str(), "]")
            },
            FieldType::Optional(inner) => {
                let s = inner.to_type_reference();
                concat3("Optional[", s.as_str(), "]")
            },
        }
    }
}

/// `type_texts` keeps one text per type, in order.
pub proof fn lemma_type_texts(s: Seq<FieldType>)
    ensures
        type_texts(s) == Seq::new(s.len(), |i: int| type_text(s[i])),
    decreases s.len(),
{
    if s.len() > 0 {
        let d = s.subrange(0, s.len() - 1);
        lemma_type_texts(d);
        assert(type_texts(s) =~= Seq::new(s.len(), |i: int| type_text(s[i])));
    } else {
        assert(type_texts(s) =~= Seq::new(s.len(), |i: int| type_text(s[i])));
    }
}

/// `python_references` keeps one reference per type, in order.
pub proof fn lemma_python_references(s: Seq<FieldType>)
    ensures
        python_references(s) == Seq::new(s.len(), |i: int| python_reference(s[i])),
    decreases s.len(),
{
    if s.len() > 0 {
        let d = s.subrange(0, s.len() - 1);
        lemma_python_references(d);
        assert(python_references(s) =~= Seq::new(s.len(), |i: int| python_reference(s[i])));
    } else {
        assert(python_references(s) =~= Seq::new(s.len(), |i: int| python_reference(s[i])));
    }
}

/// A union is written as its members' texts in member order, joined by
/// ` | ` in round brackets; a tuple the same, joined by `, `. Their Python
/// references are `Union[...]` and `Tuple[...]` of the members' references
/// in member order, joined by `, `.
pub proof fn law_union_tuple_texts(choices: Vec<FieldType>)
    ensures
        type_text(FieldType::Union(choices)) == "("@ + join(Seq::new(choices@.len(), |i: int| type_text(choices@[i])), " | "@) + ")"@,
        type_text(FieldType::Tuple(choices)) == "("@ + join(Seq::new(choices@.len(), |i: int| type_text(choices@[i])), ", "@) + ")"@,
        python_reference(FieldType::Union(choices)) == "Union["@ + join(Seq::new(choices@.len(), |i: int| python_reference(choices@[i])), ", "@) + "]"@,
        python_reference(FieldType::Tuple(choices)) == "Tuple["@ + join(Seq::new(choices@.len(), |i: int| python_reference(choices@[i])), ", "@) + "]"@,
{
    lemma_type_texts(choices@);
    lemma_python_references(choices@);
}

/// How types are written: primitives by their names (`char`, `string`,
/// `int`, `float`, `bool`, `null`), a class or enum by its name, a list as
/// its element's text and `[]`, an optional as its inner text and `?`, a map
/// as `map<k, v>`. In Python, `str`, `int`, `float`, `bool`, `None`,
/// `types.<name>`, `List[..]`, `Optional[..]` and `Dict[k, v]`.
pub proof fn law_type_texts(name: String, inner: FieldType, key: FieldType)
    ensures
        type_text(FieldType::Primitive(TypeValue::Char)) == "char"@,
        type_text(FieldType::Primitive(TypeValue::String)) == "string"@,
        type_text(FieldType::Primitive(TypeValue::Int)) == "int"@,
        type_text(FieldType::Primitive(TypeValue::Float)) == "float"@,
        type_text(FieldType::Primitive(TypeValue::Bool)) == "bool"@,
        type_text(FieldType::Primitive(TypeValue::Null)) == "null"@,
        type_text(FieldType::Class(name)) == name@,
        type_text(FieldType::Enum(name)) == name@,
        type_text(FieldType::List(Box::new(inner))) == type_text(inner) + "[]"@,
        type_text(FieldType::Optional(Box::new(inner))) == type_text(inner) + "?"@,
        type_text(FieldType::Mapping(Box::new(key), Box::new(inner))) == "map<"@ + type_text(key) + ", "@ + type_text(inner)
            + ">"@,
        python_reference(FieldType::Primitive(TypeValue::Char)) == "str"@,
        python_reference(FieldType::Primitive(TypeValue::String)) == "str"@,
        python_reference(FieldType::Primitive(TypeValue::Int)) == "int"@,
        python_reference(FieldType::Primitive(TypeValue::Float)) == "float"@,
        python_reference(FieldType::Primitive(TypeValue::Bool)) == "bool"@,
        python_reference(FieldType::Primitive(TypeValue::Null)) == "None"@,
        python_reference(FieldType::Class(name)) == "types."@ + name@,
        python_reference(FieldType::Enum(name)) == "types."@ + name@,
        python_reference(FieldType::List(Box::new(inner))) == "List["@ + python_reference(inner) + "]"@,
        python_reference(FieldType::Optional(Box::new(inner))) == "Optional["@ + python_reference(inner) + "]"@,
        python_reference(FieldType::Mapping(Box::new(key), Box::new(inner))) == "Dict["@ + python_reference(key) + ", "@
            + python_reference(inner) + "]"@,
{
}

} // verus!
