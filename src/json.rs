//! The JSON schema of attributes, models, nodes and bundle envelopes.
//!
//! Documents are held as a [`Json`] tree; turning a tree into text and back
//! is the storage layer's concern. Numbers that were read from text carry
//! what they read as in each numeric kind.

use vstd::prelude::*;
use crate::util::{str_eq, owned};
use crate::dsl::{
    AttributeModel, VectorModel, BasicModel, Attribute, BasicValue, VectorValue, TensorValue,
    DenseTensor, dims_product, vector_len, attribute_wf, attr_seq_map, Model, Socket, Shape, Node,
    Format, ConcreteFormat, Bundle, Version, semver_parses, lemma_attr_seq_map_push,
};

verus! {

/// What a number read from text reads as: an `i64` and a `u64` when it is
/// an integer in range, and the bit patterns of its nearest double and
/// single precision values.
#[derive(Debug, PartialEq)]
pub struct JsonNumber {
    pub int: Option<i64>,
    pub uint: Option<u64>,
    pub double: u64,
    pub single: u32,
}

/// A JSON document.
#[derive(Debug, PartialEq)]
pub enum Json {
    Null,
    Bool(bool),
    Int(i64),
    UInt(u64),
    /// A single precision value, as its bit pattern.
    Single(u32),
    /// A double precision value, as its bit pattern.
    Double(u64),
    Number(JsonNumber),
    Str(String),
    Array(Vec<Json>),
    Object(Vec<(String, Json)>),
}

#[derive(Debug, PartialEq)]
pub enum Error {
    WriteError(String),
    ReadError(String),
}

/// The first value bound to `key` in the members of an object.
pub open spec fn field(fields: Seq<(String, Json)>, key: Seq<char>) -> Option<Json>
    decreases fields.len(),
{
    if fields.len() == 0 {
        None
    } else if fields[0].0@ == key {
        Some(fields[0].1)
    } else {
        field(fields.drop_first(), key)
    }
}

/// Looks up the first member named `key`.
pub fn get_field<'a>(fields: &'a Vec<(String, Json)>, key: &str) -> (r: Option<&'a Json>)
    ensures
        r is Some <==> field(fields@, key@) is Some,
        r matches Some(x) ==> field(fields@, key@) == Some(*x),
{
    let mut i: usize = 0;
    assert(fields@.subrange(0, fields@.len() as int) =~= fields@);
    while i < fields.len()
        invariant
            i <= fields@.len(),
            field(fields@, key@) == field(fields@.subrange(i as int, fields@.len() as int), key@),
        decreases fields@.len() - i,
    {
        let ghost rest = fields@.subrange(i as int, fields@.len() as int);
        assert(rest.drop_first() =~= fields@.subrange(i as int + 1, fields@.len() as int));
        if str_eq(fields[i].0.as_str(), key) {
            return Some(&fields[i].1);
        }
        i += 1;
    }
    None
}

/// The value as a signed integer, as serde_json's `as_i64` reads it.
pub open spec fn as_i64(j: Json) -> Option<i64> {
    match j {
        Json::Int(x) => Some(x),
        Json::UInt(u) => if u <= i64::MAX as u64 {
            Some(u as i64)
        } else {
            None
        },
        Json::Number(n) => n.int,
        _ => None,
    }
}

/// The value as an unsigned integer, as serde_json's `as_u64` reads it.
pub open spec fn as_u64(j: Json) -> Option<u64> {
    match j {
        Json::UInt(u) => Some(u),
        Json::Int(x) => if x >= 0 {
            Some(x as u64)
        } else {
            None
        },
        Json::Number(n) => n.uint,
        _ => None,
    }
}

fn exec_as_i64(j: &Json) -> (r: Option<i64>)
    ensures
        r == as_i64(*j),
{
    match j {
        Json::Int(x) => Some(*x),
        Json::UInt(u) => if *u <= i64::MAX as u64 {
            Some(*u as i64)
        } else {
            None
        },
        Json::Number(n) => n.int,
        _ => None,
    }
}

fn exec_as_u64(j: &Json) -> (r: Option<u64>)
    ensures
        r == as_u64(*j),
{
    match j {
        Json::UInt(u) => Some(*u),
        Json::Int(x) => if *x >= 0 {
            Some(*x as u64)
        } else {
            None
        },
        Json::Number(n) => n.uint,
        _ => None,
    }
}

/// Names the base64 text (standard alphabet, padded) of some bytes.
pub uninterp spec fn base64_text(b: Seq<u8>) -> Seq<char>;

/// Names the bytes that a base64 text (standard alphabet, padded) decodes
/// to, if it is valid.
pub uninterp spec fn base64_bytes(s: Seq<char>) -> Option<Seq<u8>>;

/// Relies on `base64::encode`: the padded standard-alphabet text of the
/// bytes, which `base64::decode` turns back into the same bytes.
#[verifier::external_body]
fn base64_encode(b: &Vec<u8>) -> (r: String)
    ensures
        r@ == base64_text(b@),
        base64_bytes(r@) == Some(b@),
{
    base64::encode(b)
}

/// Relies on `base64::decode`: the bytes of a padded standard-alphabet
/// text, or an error when the text is not one.
#[verifier::external_body]
fn base64_decode(s: &str) -> (r: Option<Vec<u8>>)
    ensures
        r is Some <==> base64_bytes(s@) is Some,
        r matches Some(b) ==> base64_bytes(s@) == Some(b@),
{
    base64::decode(s).ok()
}

/// A value kind that stands for itself in JSON.
pub trait JsonScalar: Sized + DeepView {
    /// What a JSON value reads as in this kind, if anything.
    spec fn read_spec(j: Json) -> Option<<Self as DeepView>::V>;

    fn to_json(&self) -> (j: Json)
        ensures
            Self::read_spec(j) == Some(self.deep_view()),
    ;

    fn from_json(j: &Json) -> (r: Option<Self>)
        ensures
            r is Some <==> Self::read_spec(*j) is Some,
            r matches Some(v) ==> Self::read_spec(*j) == Some(v.deep_view()),
    ;
}

impl JsonScalar for bool {
    open spec fn read_spec(j: Json) -> Option<bool> {
        match j {
            Json::Bool(b) => Some(b),
            _ => None,
        }
    }

    fn to_json(&self) -> (j: Json) {
        Json::Bool(*self)
    }

    fn from_json(j: &Json) -> (r: Option<bool>) {
        match j {
            Json::Bool(b) => Some(*b),
            _ => None,
        }
    }
}

impl JsonScalar for String {
    open spec fn read_spec(j: Json) -> Option<Seq<char>> {
        match j {
            Json::Str(s) => Some(s@),
            _ => None,
        }
    }

    fn to_json(&self) -> (j: Json) {
        Json::Str(self.clone())
    }

    fn from_json(j: &Json) -> (r: Option<String>) {
        match j {
            Json::Str(s) => Some(s.clone()),
            _ => None,
        }
    }
}

impl JsonScalar for i8 {
    open spec fn read_spec(j: Json) -> Option<i8> {
        match as_i64(j) {
            Some(x) => Some(x as i8),
            None => None,
        }
    }

    fn to_json(&self) -> (j: Json) {
        Json::Int(*self as i64)
    }

    fn from_json(j: &Json) -> (r: Option<i8>) {
        match exec_as_i64(j) {
            Some(x) => Some(x as i8),
            None => None,
        }
    }
}

impl JsonScalar for i16 {
    open spec fn read_spec(j: Json) -> Option<i16> {
        match as_i64(j) {
            Some(x) => Some(x as i16),
            None => None,
        }
    }

    fn to_json(&self) -> (j: Json) {
        Json::Int(*self as i64)
    }

    fn from_json(j: &Json) -> (r: Option<i16>) {
        match exec_as_i64(j) {
            Some(x) => Some(x as i16),
            None => None,
        }
    }
}

impl JsonScalar for i32 {
    open spec fn read_spec(j: Json) -> Option<i32> {
        match as_i64(j) {
            Some(x) => Some(x as i32),
            None => None,
        }
    }

    fn to_json(&self) -> (j: Json) {
        Json::Int(*self as i64)
    }

    fn from_json(j: &Json) -> (r: Option<i32>) {
        match exec_as_i64(j) {
            Some(x) => Some(x as i32),
            None => None,
        }
    }
}

impl JsonScalar for i64 {
    open spec fn read_spec(j: Json) -> Option<i64> {
        as_i64(j)
    }

    fn to_json(&self) -> (j: Json) {
        Json::Int(*self)
    }

    fn from_json(j: &Json) -> (r: Option<i64>) {
        exec_as_i64(j)
    }
}

impl JsonScalar for usize {
    open spec fn read_spec(j: Json) -> Option<usize> {
        match as_u64(j) {
            Some(x) => Some(x as usize),
            None => None,
        }
    }

    fn to_json(&self) -> (j: Json) {
        Json::UInt(*self as u64)
    }

    fn from_json(j: &Json) -> (r: Option<usize>) {
        match exec_as_u64(j) {
            Some(x) => Some(x as usize),
            None => None,
        }
    }
}

impl JsonScalar for u32 {
    /// A single precision value, as its bit pattern.
    open spec fn read_spec(j: Json) -> Option<u32> {
        match j {
            Json::Single(b) => Some(b),
            Json::Number(n) => Some(n.single),
            _ => None,
        }
    }

    fn to_json(&self) -> (j: Json) {
        Json::Single(*self)
    }

    fn from_json(j: &Json) -> (r: Option<u32>) {
        match j {
            Json::Single(b) => Some(*b),
            Json::Number(n) => Some(n.single),
            _ => None,
        }
    }
}

impl JsonScalar for u64 {
    /// A double precision value, as its bit pattern.
    open spec fn read_spec(j: Json) -> Option<u64> {
        match j {
            Json::Double(b) => Some(b),
            Json::Number(n) => Some(n.double),
            _ => None,
        }
    }

    fn to_json(&self) -> (j: Json) {
        Json::Double(*self)
    }

    fn from_json(j: &Json) -> (r: Option<u64>) {
        match j {
            Json::Double(b) => Some(*b),
            Json::Number(n) => Some(n.double),
            _ => None,
        }
    }
}

impl JsonScalar for Vec<u8> {
    /// A byte string, as base64 text.
    open spec fn read_spec(j: Json) -> Option<Seq<u8>> {
        match j {
            Json::Str(s) => base64_bytes(s@),
            _ => None,
        }
    }

    fn to_json(&self) -> (j: Json) {
        assert(self.deep_view() =~= self@);
        Json::Str(base64_encode(self))
    }

    fn from_json(j: &Json) -> (r: Option<Vec<u8>>) {
        match j {
            Json::Str(s) => {
                let r = base64_decode(s.as_str());
                if let Some(b) = &r {
                    assert(b.deep_view() =~= b@);
                }
                r
            },
            _ => None,
        }
    }
}

/// What a JSON array reads as, element by element, if every element reads.
pub open spec fn read_list<T: JsonScalar>(j: Json) -> Option<Seq<<T as DeepView>::V>> {
    match j {
        Json::Array(a) => if forall|i: int| 0 <= i < a@.len() ==> (#[trigger] T::read_spec(a@[i])) is Some {
            Some(Seq::new(a@.len(), |i: int| T::read_spec(a@[i])->0))
        } else {
            None
        },
        _ => None,
    }
}

pub fn list_to_json<T: JsonScalar>(v: &[T]) -> (r: Json)
    ensures
        read_list::<T>(r) == Some(Seq::new(v@.len(), |i: int| v@[i].deep_view())),
{
    let mut a: Vec<Json> = Vec::new();
    let mut i: usize = 0;
    while i < v.len()
        invariant
            i <= v@.len(),
            a@.len() == i,
            forall|k: int| 0 <= k < i ==> T::read_spec(#[trigger] a@[k]) == Some(v@[k].deep_view()),
        decreases v@.len() - i,
    {
        a.push(v[i].to_json());
        i += 1;
    }
    let r = Json::Array(a);
    proof {
        assert(forall|k: int| 0 <= k < a@.len() ==> (#[trigger] T::read_spec(a@[k])) is Some);
        assert(Seq::new(a@.len(), |k: int| T::read_spec(a@[k])->0) =~= Seq::new(
            v@.len(),
            |k: int| v@[k].deep_view(),
        ));
    }
    r
}

pub fn list_from_json<T: JsonScalar>(j: &Json) -> (r: Option<Vec<T>>)
    ensures
        r is Some <==> read_list::<T>(*j) is Some,
        r matches Some(v) ==> read_list::<T>(*j) == Some(v.deep_view()),
{
    match j {
        Json::Array(a) => {
            let mut v: Vec<T> = Vec::new();
            let mut i: usize = 0;
            while i < a.len()
                invariant
                    *j == Json::Array(*a),
                    i <= a@.len(),
                    v@.len() == i,
                    forall|k: int|
                        0 <= k < i ==> T::read_spec(#[trigger] a@[k]) == Some(v@[k].deep_view()),
                decreases a@.len() - i,
            {
                match T::from_json(&a[i]) {
                    Some(x) => v.push(x),
                    None => {
                        assert(T::read_spec(a@[i as int]) is None);
                        assert(!(forall|k: int|
                            0 <= k < a@.len() ==> (#[trigger] T::read_spec(a@[k])) is Some));
                        assert(read_list::<T>(*j) is None);
                        return None;
                    },
                }
                i += 1;
            }
            proof {
                assert(forall|k: int| 0 <= k < a@.len() ==> (#[trigger] T::read_spec(a@[k])) is Some);
                assert(Seq::new(a@.len(), |k: int| T::read_spec(a@[k])->0) =~= v.deep_view());
            }
            Some(v)
        },
        _ => None,
    }
}

} // verus!

verus! {

/// The characters of the tags and member names of the schema.
proof fn lemma_literals()
    ensures
        "bool"@.len() == 4,
        "bool"@[0] == 'b',
        "bool"@[1] == 'o',
        "bool"@[2] == 'o',
        "bool"@[3] == 'l',
        "string"@.len() == 6,
        "string"@[0] == 's',
        "string"@[1] == 't',
        "string"@[2] == 'r',
        "string"@[3] == 'i',
        "string"@[4] == 'n',
        "string"@[5] == 'g',
        "byte"@.len() == 4,
        "byte"@[0] == 'b',
        "byte"@[1] == 'y',
        "byte"@[2] == 't',
        "byte"@[3] == 'e',
        "short"@.len() == 5,
        "short"@[0] == 's',
        "short"@[1] == 'h',
        "short"@[2] == 'o',
        "short"@[3] == 'r',
        "short"@[4] == 't',
        "int"@.len() == 3,
        "int"@[0] == 'i',
        "int"@[1] == 'n',
        "int"@[2] == 't',
        "long"@.len() == 4,
        "long"@[0] == 'l',
        "long"@[1] == 'o',
        "long"@[2] == 'n',
        "long"@[3] == 'g',
        "float"@.len() == 5,
        "float"@[0] == 'f',
        "float"@[1] == 'l',
        "float"@[2] == 'o',
        "float"@[3] == 'a',
        "float"@[4] == 't',
        "double"@.len() == 6,
        "double"@[0] == 'd',
        "double"@[1] == 'o',
        "double"@[2] == 'u',
        "double"@[3] == 'b',
        "double"@[4] == 'l',
        "double"@[5] == 'e',
        "byte_string"@.len() == 11,
        "byte_string"@[0] == 'b',
        "byte_string"@[1] == 'y',
        "byte_string"@[2] == 't',
        "byte_string"@[3] == 'e',
        "byte_string"@[4] == '_',
        "byte_string"@[5] == 's',
        "byte_string"@[6] == 't',
        "byte_string"@[7] == 'r',
        "byte_string"@[8] == 'i',
        "byte_string"@[9] == 'n',
        "byte_string"@[10] == 'g',
        "list"@.len() == 4,
        "list"@[0] == 'l',
        "list"@[1] == 'i',
        "list"@[2] == 's',
        "list"@[3] == 't',
        "tensor"@.len() == 6,
        "tensor"@[0] == 't',
        "tensor"@[1] == 'e',
        "tensor"@[2] == 'n',
        "tensor"@[3] == 's',
        "tensor"@[4] == 'o',
        "tensor"@[5] == 'r',
        "type"@.len() == 4,
        "type"@[0] == 't',
        "type"@[1] == 'y',
        "type"@[2] == 'p',
        "type"@[3] == 'e',
        "base"@.len() == 4,
        "base"@[0] == 'b',
        "base"@[1] == 'a',
        "base"@[2] == 's',
        "base"@[3] == 'e',
        "value"@.len() == 5,
        "value"@[0] == 'v',
        "value"@[1] == 'a',
        "value"@[2] == 'l',
        "value"@[3] == 'u',
        "value"@[4] == 'e',
        "dimensions"@.len() == 10,
        "dimensions"@[0] == 'd',
        "dimensions"@[1] == 'i',
        "dimensions"@[2] == 'm',
        "dimensions"@[3] == 'e',
        "dimensions"@[4] == 'n',
        "dimensions"@[5] == 's',
        "dimensions"@[6] == 'i',
        "dimensions"@[7] == 'o',
        "dimensions"@[8] == 'n',
        "dimensions"@[9] == 's',
        "values"@.len() == 6,
        "values"@[0] == 'v',
        "values"@[1] == 'a',
        "values"@[2] == 'l',
        "values"@[3] == 'u',
        "values"@[4] == 'e',
        "values"@[5] == 's',
        "op"@.len() == 2,
        "op"@[0] == 'o',
        "op"@[1] == 'p',
        "attributes"@.len() == 10,
        "attributes"@[0] == 'a',
        "attributes"@[1] == 't',
        "attributes"@[2] == 't',
        "attributes"@[3] == 'r',
        "attributes"@[4] == 'i',
        "attributes"@[5] == 'b',
        "attributes"@[6] == 'u',
        "attributes"@[7] == 't',
        "attributes"@[8] == 'e',
        "attributes"@[9] == 's',
        "name"@.len() == 4,
        "name"@[0] == 'n',
        "name"@[1] == 'a',
        "name"@[2] == 'm',
        "name"@[3] == 'e',
        "port"@.len() == 4,
        "port"@[0] == 'p',
        "port"@[1] == 'o',
        "port"@[2] == 'r',
        "port"@[3] == 't',
        "inputs"@.len() == 6,
        "inputs"@[0] == 'i',
        "inputs"@[1] == 'n',
        "inputs"@[2] == 'p',
        "inputs"@[3] == 'u',
        "inputs"@[4] == 't',
        "inputs"@[5] == 's',
        "outputs"@.len() == 7,
        "outputs"@[0] == 'o',
        "outputs"@[1] == 'u',
        "outputs"@[2] == 't',
        "outputs"@[3] == 'p',
        "outputs"@[4] == 'u',
        "outputs"@[5] == 't',
        "outputs"@[6] == 's',
        "shape"@.len() == 5,
        "shape"@[0] == 's',
        "shape"@[1] == 'h',
        "shape"@[2] == 'a',
        "shape"@[3] == 'p',
        "shape"@[4] == 'e',
        "uid"@.len() == 3,
        "uid"@[0] == 'u',
        "uid"@[1] == 'i',
        "uid"@[2] == 'd',
        "format"@.len() == 6,
        "format"@[0] == 'f',
        "format"@[1] == 'o',
        "format"@[2] == 'r',
        "format"@[3] == 'm',
        "format"@[4] == 'a',
        "format"@[5] == 't',
        "version"@.len() == 7,
        "version"@[0] == 'v',
        "version"@[1] == 'e',
        "version"@[2] == 'r',
        "version"@[3] == 's',
        "version"@[4] == 'i',
        "version"@[5] == 'o',
        "version"@[6] == 'n',
        "json"@.len() == 4,
        "json"@[0] == 'j',
        "json"@[1] == 's',
        "json"@[2] == 'o',
        "json"@[3] == 'n',
        "proto"@.len() == 5,
        "proto"@[0] == 'p',
        "proto"@[1] == 'r',
        "proto"@[2] == 'o',
        "proto"@[3] == 't',
        "proto"@[4] == 'o',
        "mixed"@.len() == 5,
        "mixed"@[0] == 'm',
        "mixed"@[1] == 'i',
        "mixed"@[2] == 'x',
        "mixed"@[3] == 'e',
        "mixed"@[4] == 'd',
{
    reveal_strlit("bool");
    reveal_strlit("string");
    reveal_strlit("byte");
    reveal_strlit("short");
    reveal_strlit("int");
    reveal_strlit("long");
    reveal_strlit("float");
    reveal_strlit("double");
    reveal_strlit("byte_string");
    reveal_strlit("list");
    reveal_strlit("tensor");
    reveal_strlit("type");
    reveal_strlit("base");
    reveal_strlit("value");
    reveal_strlit("dimensions");
    reveal_strlit("values");
    reveal_strlit("op");
    reveal_strlit("attributes");
    reveal_strlit("name");
    reveal_strlit("port");
    reveal_strlit("inputs");
    reveal_strlit("outputs");
    reveal_strlit("shape");
    reveal_strlit("uid");
    reveal_strlit("format");
    reveal_strlit("version");
    reveal_strlit("json");
    reveal_strlit("proto");
    reveal_strlit("mixed");
}

/// What a JSON value reads as under the scalar kind tag `tag`.
pub open spec fn read_basic(tag: Seq<char>, j: Json) -> Option<BasicModel> {
    if tag == "bool"@ {
        match bool::read_spec(j) {
            Some(v) => Some(BasicModel::Bool(v)),
            None => None,
        }
    } else if tag == "string"@ {
        match String::read_spec(j) {
            Some(v) => Some(BasicModel::String(v)),
            None => None,
        }
    } else if tag == "byte"@ {
        match i8::read_spec(j) {
            Some(v) => Some(BasicModel::Byte(v)),
            None => None,
        }
    } else if tag == "short"@ {
        match i16::read_spec(j) {
            Some(v) => Some(BasicModel::Short(v)),
            None => None,
        }
    } else if tag == "int"@ {
        match i32::read_spec(j) {
            Some(v) => Some(BasicModel::Int(v)),
            None => None,
        }
    } else if tag == "long"@ {
        match i64::read_spec(j) {
            Some(v) => Some(BasicModel::Long(v)),
            None => None,
        }
    } else if tag == "float"@ {
        match u32::read_spec(j) {
            Some(v) => Some(BasicModel::Float(v)),
            None => None,
        }
    } else if tag == "double"@ {
        match u64::read_spec(j) {
            Some(v) => Some(BasicModel::Double(v)),
            None => None,
        }
    } else if tag == "byte_string"@ {
        match <Vec<u8>>::read_spec(j) {
            Some(v) => Some(BasicModel::ByteString(v)),
            None => None,
        }
    } else {
        None
    }
}

/// What a JSON array reads as under the element kind tag `base`.
pub open spec fn read_vector(base: Seq<char>, j: Json) -> Option<VectorModel> {
    if base == "bool"@ {
        match read_list::<bool>(j) {
            Some(v) => Some(VectorModel::Bool(v)),
            None => None,
        }
    } else if base == "string"@ {
        match read_list::<String>(j) {
            Some(v) => Some(VectorModel::String(v)),
            None => None,
        }
    } else if base == "byte"@ {
        match read_list::<i8>(j) {
            Some(v) => Some(VectorModel::Byte(v)),
            None => None,
        }
    } else if base == "short"@ {
        match read_list::<i16>(j) {
            Some(v) => Some(VectorModel::Short(v)),
            None => None,
        }
    } else if base == "int"@ {
        match read_list::<i32>(j) {
            Some(v) => Some(VectorModel::Int(v)),
            None => None,
        }
    } else if base == "long"@ {
        match read_list::<i64>(j) {
            Some(v) => Some(VectorModel::Long(v)),
            None => None,
        }
    } else if base == "float"@ {
        match read_list::<u32>(j) {
            Some(v) => Some(VectorModel::Float(v)),
            None => None,
        }
    } else if base == "double"@ {
        match read_list::<u64>(j) {
            Some(v) => Some(VectorModel::Double(v)),
            None => None,
        }
    } else if base == "byte_string"@ {
        match read_list::<Vec<u8>>(j) {
            Some(v) => Some(VectorModel::ByteString(v)),
            None => None,
        }
    } else {
        None
    }
}

/// What a JSON document reads as under the attribute schema:
/// `{type, value}` for a scalar, `{type: "list", base, value: [...]}` for a
/// list and `{type: "tensor", base, value: {dimensions, values}}` for a
/// tensor.
pub open spec fn read_attribute(j: Json) -> Option<AttributeModel> {
    match j {
        Json::Object(f) => match field(f@, "type"@) {
            Some(Json::Str(t)) => if t@ == "tensor"@ {
                match (field(f@, "base"@), field(f@, "value"@)) {
                    (Some(Json::Str(b)), Some(Json::Object(tf))) => match (
                        field(tf@, "dimensions"@),
                        field(tf@, "values"@),
                    ) {
                        (Some(dj), Some(vj)) => match (read_list::<usize>(dj), read_vector(b@, vj)) {
                            (Some(d), Some(v)) => if vector_len(v) == dims_product(d) {
                                Some(AttributeModel::Tensor(d, v))
                            } else {
                                None
                            },
                            _ => None,
                        },
                        _ => None,
                    },
                    _ => None,
                }
            } else if t@ == "list"@ {
                match (field(f@, "base"@), field(f@, "value"@)) {
                    (Some(Json::Str(b)), Some(vj)) => match read_vector(b@, vj) {
                        Some(v) => Some(AttributeModel::Array(v)),
                        None => None,
                    },
                    _ => None,
                }
            } else {
                match field(f@, "value"@) {
                    Some(vj) => match read_basic(t@, vj) {
                        Some(b) => Some(AttributeModel::Basic(b)),
                        None => None,
                    },
                    None => None,
                }
            },
            _ => None,
        },
        _ => None,
    }
}

fn pair(k: &str, v: Json) -> (r: (String, Json))
    ensures
        r.0@ == k@,
        r.1 == v,
{
    (owned(k), v)
}

fn basic_to_json(b: &BasicValue) -> (r: (String, Json))
    ensures
        read_basic(r.0@, r.1) == Some(b.deep_view()),
{
    proof {
        lemma_literals();
    }
    match b {
        BasicValue::Bool(v) => pair("bool", v.to_json()),
        BasicValue::String(v) => pair("string", v.to_json()),
        BasicValue::Byte(v) => pair("byte", v.to_json()),
        BasicValue::Short(v) => pair("short", v.to_json()),
        BasicValue::Int(v) => pair("int", v.to_json()),
        BasicValue::Long(v) => pair("long", v.to_json()),
        BasicValue::Float(v) => pair("float", v.to_json()),
        BasicValue::Double(v) => pair("double", v.to_json()),
        BasicValue::ByteString(v) => pair("byte_string", v.to_json()),
    }
}

fn basic_from_json(tag: &str, j: &Json) -> (r: Option<BasicValue>)
    ensures
        r is Some <==> read_basic(tag@, *j) is Some,
        r matches Some(b) ==> read_basic(tag@, *j) == Some(b.deep_view()),
{
    proof {
        lemma_literals();
    }
    if str_eq(tag, "bool") {
        match bool::from_json(j) {
            Some(v) => Some(BasicValue::Bool(v)),
            None => None,
        }
    } else if str_eq(tag, "string") {
        match String::from_json(j) {
            Some(v) => Some(BasicValue::String(v)),
            None => None,
        }
    } else if str_eq(tag, "byte") {
        match i8::from_json(j) {
            Some(v) => Some(BasicValue::Byte(v)),
            None => None,
        }
    } else if str_eq(tag, "short") {
        match i16::from_json(j) {
            Some(v) => Some(BasicValue::Short(v)),
            None => None,
        }
    } else if str_eq(tag, "int") {
        match i32::from_json(j) {
            Some(v) => Some(BasicValue::Int(v)),
            None => None,
        }
    } else if str_eq(tag, "long") {
        match i64::from_json(j) {
            Some(v) => Some(BasicValue::Long(v)),
            None => None,
        }
    } else if str_eq(tag, "float") {
        match u32::from_json(j) {
            Some(v) => Some(BasicValue::Float(v)),
            None => None,
        }
    } else if str_eq(tag, "double") {
        match u64::from_json(j) {
            Some(v) => Some(BasicValue::Double(v)),
            None => None,
        }
    } else if str_eq(tag, "byte_string") {
        match <Vec<u8>>::from_json(j) {
            Some(v) => Some(BasicValue::ByteString(v)),
            None => None,
        }
    } else {
        None
    }
}

fn vector_to_json(v: &VectorValue) -> (r: (String, Json))
    ensures
        read_vector(r.0@, r.1) == Some(v.deep_view()),
{
    proof {
        lemma_literals();
    }
    match v {
        VectorValue::Bool(v) => pair("bool", list_to_json(v.as_slice())),
        VectorValue::String(v) => pair("string", list_to_json(v.as_slice())),
        VectorValue::Byte(v) => pair("byte", list_to_json(v.as_slice())),
        VectorValue::Short(v) => pair("short", list_to_json(v.as_slice())),
        VectorValue::Int(v) => pair("int", list_to_json(v.as_slice())),
        VectorValue::Long(v) => pair("long", list_to_json(v.as_slice())),
        VectorValue::Float(v) => pair("float", list_to_json(v.as_slice())),
        VectorValue::Double(v) => pair("double", list_to_json(v.as_slice())),
        VectorValue::ByteString(v) => pair("byte_string", list_to_json(v.as_slice())),
    }
}

fn vector_from_json(base: &str, j: &Json) -> (r: Option<VectorValue>)
    ensures
        r is Some <==> read_vector(base@, *j) is Some,
        r matches Some(v) ==> read_vector(base@, *j) == Some(v.deep_view()),
{
    proof {
        lemma_literals();
    }
    if str_eq(base, "bool") {
        match list_from_json::<bool>(j) {
            Some(v) => Some(VectorValue::Bool(v)),
            None => None,
        }
    } else if str_eq(base, "string") {
        match list_from_json::<String>(j) {
            Some(v) => Some(VectorValue::String(v)),
            None => None,
        }
    } else if str_eq(base, "byte") {
        match list_from_json::<i8>(j) {
            Some(v) => Some(VectorValue::Byte(v)),
            None => None,
        }
    } else if str_eq(base, "short") {
        match list_from_json::<i16>(j) {
            Some(v) => Some(VectorValue::Short(v)),
            None => None,
        }
    } else if str_eq(base, "int") {
        match list_from_json::<i32>(j) {
            Some(v) => Some(VectorValue::Int(v)),
            None => None,
        }
    } else if str_eq(base, "long") {
        match list_from_json::<i64>(j) {
            Some(v) => Some(VectorValue::Long(v)),
            None => None,
        }
    } else if str_eq(base, "float") {
        match list_from_json::<u32>(j) {
            Some(v) => Some(VectorValue::Float(v)),
            None => None,
        }
    } else if str_eq(base, "double") {
        match list_from_json::<u64>(j) {
            Some(v) => Some(VectorValue::Double(v)),
            None => None,
        }
    } else if str_eq(base, "byte_string") {
        match list_from_json::<Vec<u8>>(j) {
            Some(v) => Some(VectorValue::ByteString(v)),
            None => None,
        }
    } else {
        None
    }
}

} // verus!

verus! {

fn object2(k1: &str, v1: Json, k2: &str, v2: Json) -> (r: Json)
    ensures
        r matches Json::Object(f) && f@.len() == 2 && f@[0].0@ == k1@ && f@[0].1 == v1 && f@[1].0@
            == k2@ && f@[1].1 == v2,
{
    let mut f: Vec<(String, Json)> = Vec::new();
    f.push(pair(k1, v1));
    f.push(pair(k2, v2));
    Json::Object(f)
}

fn object3(k1: &str, v1: Json, k2: &str, v2: Json, k3: &str, v3: Json) -> (r: Json)
    ensures
        r matches Json::Object(f) && f@.len() == 3 && f@[0].0@ == k1@ && f@[0].1 == v1 && f@[1].0@
            == k2@ && f@[1].1 == v2 && f@[2].0@ == k3@ && f@[2].1 == v3,
{
    let mut f: Vec<(String, Json)> = Vec::new();
    f.push(pair(k1, v1));
    f.push(pair(k2, v2));
    f.push(pair(k3, v3));
    Json::Object(f)
}

proof fn lemma_field2(f: Seq<(String, Json)>)
    requires
        f.len() == 2,
        f[0].0@ != f[1].0@,
    ensures
        field(f, f[0].0@) == Some(f[0].1),
        field(f, f[1].0@) == Some(f[1].1),
{
    assert(field(f.drop_first(), f[1].0@) == Some(f[1].1));
}

proof fn lemma_field3(f: Seq<(String, Json)>)
    requires
        f.len() == 3,
        f[0].0@ != f[1].0@,
        f[0].0@ != f[2].0@,
        f[1].0@ != f[2].0@,
    ensures
        field(f, f[0].0@) == Some(f[0].1),
        field(f, f[1].0@) == Some(f[1].1),
        field(f, f[2].0@) == Some(f[2].1),
{
    lemma_field2(f.drop_first());
}

fn tensor_json<T: JsonScalar>(t: &DenseTensor<T>) -> (r: (Json, Json))
    ensures
        read_list::<usize>(r.0) == Some(t.spec_dimensions()),
        read_list::<T>(r.1) == Some(t.values_view()),
{
    let d = list_to_json(t.dimensions());
    let v = list_to_json(t.values());
    proof {
        t.lemma_values_view();
        assert(Seq::new(t.spec_dimensions().len(), |i: int| t.spec_dimensions()[i].deep_view())
            =~= t.spec_dimensions());
    }
    (d, v)
}

fn tensor_to_json(t: &TensorValue) -> (r: (String, Json, Json))
    ensures
        read_list::<usize>(r.1) == Some(t.spec_dimensions()),
        read_vector(r.0@, r.2) == Some(t.values_model()),
{
    proof {
        lemma_literals();
    }
    match t {
        TensorValue::Bool(t) => {
            let (d, v) = tensor_json(t);
            (owned("bool"), d, v)
        },
        TensorValue::String(t) => {
            let (d, v) = tensor_json(t);
            (owned("string"), d, v)
        },
        TensorValue::Byte(t) => {
            let (d, v) = tensor_json(t);
            (owned("byte"), d, v)
        },
        TensorValue::Short(t) => {
            let (d, v) = tensor_json(t);
            (owned("short"), d, v)
        },
        TensorValue::Int(t) => {
            let (d, v) = tensor_json(t);
            (owned("int"), d, v)
        },
        TensorValue::Long(t) => {
            let (d, v) = tensor_json(t);
            (owned("long"), d, v)
        },
        TensorValue::Float(t) => {
            let (d, v) = tensor_json(t);
            (owned("float"), d, v)
        },
        TensorValue::Double(t) => {
            let (d, v) = tensor_json(t);
            (owned("double"), d, v)
        },
        TensorValue::ByteString(t) => {
            let (d, v) = tensor_json(t);
            (owned("byte_string"), d, v)
        },
    }
}

fn tensor_from_json(base: &str, dims: Vec<usize>, j: &Json) -> (r: Option<TensorValue>)
    ensures
        r is Some <==> (read_vector(base@, *j) matches Some(v) && vector_len(v) == dims_product(
            dims@,
        )),
        r matches Some(t) ==> read_vector(base@, *j) == Some(t.values_model())
            && t.spec_dimensions() == dims@,
{
    let v = vector_from_json(base, j);
    match v {
        None => None,
        Some(VectorValue::Bool(v)) => match DenseTensor::checked(dims, v) {
            Some(t) => Some(TensorValue::Bool(t)),
            None => None,
        },
        Some(VectorValue::String(v)) => match DenseTensor::checked(dims, v) {
            Some(t) => Some(TensorValue::String(t)),
            None => None,
        },
        Some(VectorValue::Byte(v)) => match DenseTensor::checked(dims, v) {
            Some(t) => Some(TensorValue::Byte(t)),
            None => None,
        },
        Some(VectorValue::Short(v)) => match DenseTensor::checked(dims, v) {
            Some(t) => Some(TensorValue::Short(t)),
            None => None,
        },
        Some(VectorValue::Int(v)) => match DenseTensor::checked(dims, v) {
            Some(t) => Some(TensorValue::Int(t)),
            None => None,
        },
        Some(VectorValue::Long(v)) => match DenseTensor::checked(dims, v) {
            Some(t) => Some(TensorValue::Long(t)),
            None => None,
        },
        Some(VectorValue::Float(v)) => match DenseTensor::checked(dims, v) {
            Some(t) => Some(TensorValue::Float(t)),
            None => None,
        },
        Some(VectorValue::Double(v)) => match DenseTensor::checked(dims, v) {
            Some(t) => Some(TensorValue::Double(t)),
            None => None,
        },
        Some(VectorValue::ByteString(v)) => match DenseTensor::checked(dims, v) {
            Some(t) => Some(TensorValue::ByteString(t)),
            None => None,
        },
    }
}

/// Writes an attribute under the attribute schema; reading the result back
/// gives the same attribute.
pub fn attribute_to_json(a: &Attribute) -> (r: Json)
    requires
        attribute_wf(a.deep_view()),
    ensures
        read_attribute(r) == Some(a.deep_view()),
{
    proof {
        lemma_literals();
    }
    match a {
        Attribute::Basic(b) => {
            let (tag, v) = basic_to_json(b);
            let r = object2("type", Json::Str(tag), "value", v);
            proof {
                let f = r->Object_0@;
                lemma_field2(f);
            }
            r
        },
        Attribute::Array(v) => {
            let (base, vj) = vector_to_json(v);
            let r = object3("type", Json::Str(owned("list")), "base", Json::Str(base), "value", vj);
            proof {
                let f = r->Object_0@;
                lemma_field3(f);
            }
            r
        },
        Attribute::Tensor(t) => {
            let (base, dj, vj) = tensor_to_json(t);
            let tj = object2("dimensions", dj, "values", vj);
            proof {
                let f = tj->Object_0@;
                lemma_field2(f);
            }
            let r = object3("type", Json::Str(owned("tensor")), "base", Json::Str(base), "value", tj);
            proof {
                let f = r->Object_0@;
                lemma_field3(f);
            }
            r
        },
    }
}

/// Reads an attribute under the attribute schema; an error exactly when the
/// document is not an attribute.
pub fn attribute_from_json(j: &Json) -> (r: Result<Attribute, Error>)
    ensures
        r is Ok <==> read_attribute(*j) is Some,
        r matches Ok(a) ==> read_attribute(*j) == Some(a.deep_view()) && attribute_wf(
            a.deep_view(),
        ),
{
    let bad = Err(Error::ReadError(owned("invalid attribute")));
    match j {
        Json::Object(f) => match get_field(f, "type") {
            Some(Json::Str(t)) => {
                if str_eq(t.as_str(), "tensor") {
                    match (get_field(f, "base"), get_field(f, "value")) {
                        (Some(Json::Str(b)), Some(Json::Object(tf))) => match (
                            get_field(tf, "dimensions"),
                            get_field(tf, "values"),
                        ) {
                            (Some(dj), Some(vj)) => match list_from_json::<usize>(dj) {
                                Some(d) => {
                                    assert(d.deep_view() =~= d@);
                                    match tensor_from_json(b.as_str(), d, vj) {
                                        Some(t) => Ok(Attribute::Tensor(t)),
                                        None => bad,
                                    }
                                },
                                None => bad,
                            },
                            _ => bad,
                        },
                        _ => bad,
                    }
                } else if str_eq(t.as_str(), "list") {
                    match (get_field(f, "base"), get_field(f, "value")) {
                        (Some(Json::Str(b)), Some(vj)) => match vector_from_json(b.as_str(), vj) {
                            Some(v) => Ok(Attribute::Array(v)),
                            None => bad,
                        },
                        _ => bad,
                    }
                } else {
                    match get_field(f, "value") {
                        Some(vj) => match basic_from_json(t.as_str(), vj) {
                            Some(b) => Ok(Attribute::Basic(b)),
                            None => bad,
                        },
                        None => bad,
                    }
                }
            },
            _ => bad,
        },
        _ => bad,
    }
}

} // verus!

verus! {

/// What a JSON document reads as under the model schema
/// `{op, attributes: {name: attribute, ...}}`: the operator name and the
/// attributes, a later member replacing an earlier one of the same name.
pub open spec fn read_model(j: Json) -> Option<(Seq<char>, Map<Seq<char>, AttributeModel>)> {
    match j {
        Json::Object(f) => match (field(f@, "op"@), field(f@, "attributes"@)) {
            (Some(Json::Str(o)), Some(Json::Object(af))) => if forall|i: int|
                0 <= i < af@.len() ==> (#[trigger] read_attribute(af@[i].1)) is Some {
                Some((o@, attr_seq_map(read_members(af@))))
            } else {
                None
            },
            _ => None,
        },
        _ => None,
    }
}

/// The members of an attribute object, each read as an attribute.
pub open spec fn read_members(af: Seq<(String, Json)>) -> Seq<(Seq<char>, AttributeModel)> {
    Seq::new(af.len(), |i: int| (af[i].0@, read_attribute(af[i].1)->0))
}

/// Writes a model; reading the result back gives the same operator name
/// and the same attributes.
pub fn model_to_json(m: &Model) -> (r: Json)
    requires
        m.wf(),
    ensures
        read_model(r) == Some((m@.0, m.attribute_map())),
{
    proof {
        lemma_literals();
    }
    let attrs = m.attributes();
    let mut af: Vec<(String, Json)> = Vec::new();
    let mut i: usize = 0;
    while i < attrs.len()
        invariant
            m.wf(),
            attrs@.len() == m@.1.len(),
            forall|k: int| 0 <= k < attrs@.len() ==> (#[trigger] attrs@[k]).deep_view() == m@.1[k],
            i <= attrs@.len(),
            af@.len() == i,
            forall|k: int|
                0 <= k < i ==> (#[trigger] af@[k]).0@ == m@.1[k].0 && read_attribute(af@[k].1)
                    == Some(m@.1[k].1),
        decreases attrs@.len() - i,
    {
        let (k, a) = &attrs[i];
        assert(attrs@[i as int].deep_view() == m@.1[i as int]);
        assert(attribute_wf(m@.1[i as int].1));
        af.push((k.clone(), attribute_to_json(a)));
        i += 1;
    }
    proof {
        assert(read_members(af@) =~= m@.1);
    }
    let r = object2("op", Json::Str(owned(m.op())), "attributes", Json::Object(af));
    proof {
        lemma_field2(r->Object_0@);
    }
    r
}

/// Reads a model; an error exactly when the document is not a model.
pub fn model_from_json(j: &Json) -> (r: Result<Model, Error>)
    ensures
        r is Ok <==> read_model(*j) is Some,
        r matches Ok(m) ==> read_model(*j) == Some((m@.0, m.attribute_map())) && m.wf(),
{
    let bad = Err(Error::ReadError(owned("invalid model")));
    match j {
        Json::Object(f) => match (get_field(f, "op"), get_field(f, "attributes")) {
            (Some(Json::Str(o)), Some(Json::Object(af))) => {
                let mut m = Model::new(o.clone());
                let mut i: usize = 0;
                assert(read_members(af@).subrange(0, 0) =~= Seq::<(Seq<char>, AttributeModel)>::empty());
                assert(attr_seq_map(Seq::<(Seq<char>, AttributeModel)>::empty()) =~= m.attribute_map());
                while i < af.len()
                    invariant
                        *j == Json::Object(*f),
                        field(f@, "op"@) == Some(Json::Str(*o)),
                        field(f@, "attributes"@) == Some(Json::Object(*af)),
                        i <= af@.len(),
                        m.wf(),
                        m@.0 == o@,
                        forall|k: int| 0 <= k < i ==> (#[trigger] read_attribute(af@[k].1)) is Some,
                        m.attribute_map() == attr_seq_map(read_members(af@).subrange(0, i as int)),
                    decreases af@.len() - i,
                {
                    match attribute_from_json(&af[i].1) {
                        Ok(a) => {
                            let ghost before = read_members(af@).subrange(0, i as int);
                            m.with_attr(af[i].0.as_str(), a);
                            proof {
                                assert(read_members(af@).subrange(0, i as int + 1) =~= before.push(
                                    read_members(af@)[i as int],
                                ));
                                lemma_attr_seq_map_push(before, read_members(af@)[i as int]);
                            }
                        },
                        Err(e) => {
                            assert(read_attribute(af@[i as int].1) is None);
                            return Err(e);
                        },
                    }
                    i += 1;
                }
                assert(read_members(af@).subrange(0, af@.len() as int) =~= read_members(af@));
                Ok(m)
            },
            _ => bad,
        },
        _ => bad,
    }
}

} // verus!

verus! {

impl JsonScalar for Socket {
    /// A socket, as `{name, port}`.
    open spec fn read_spec(j: Json) -> Option<(Seq<char>, Seq<char>)> {
        match j {
            Json::Object(f) => match (field(f@, "name"@), field(f@, "port"@)) {
                (Some(Json::Str(n)), Some(Json::Str(p))) => Some((n@, p@)),
                _ => None,
            },
            _ => None,
        }
    }

    fn to_json(&self) -> (j: Json) {
        proof {
            lemma_literals();
        }
        let r = object2("name", Json::Str(owned(self.name())), "port", Json::Str(owned(self.port())));
        proof {
            lemma_field2(r->Object_0@);
        }
        r
    }

    fn from_json(j: &Json) -> (r: Option<Socket>) {
        match j {
            Json::Object(f) => match (get_field(f, "name"), get_field(f, "port")) {
                (Some(Json::Str(n)), Some(Json::Str(p))) => Some(Socket::new(n.clone(), p.clone())),
                _ => None,
            },
            _ => None,
        }
    }
}

/// What a JSON document reads as under the shape schema
/// `{inputs: [socket...], outputs: [socket...]}`.
pub open spec fn read_shape(j: Json) -> Option<<Shape as View>::V> {
    match j {
        Json::Object(f) => match (field(f@, "inputs"@), field(f@, "outputs"@)) {
            (Some(ij), Some(oj)) => match (read_list::<Socket>(ij), read_list::<Socket>(oj)) {
                (Some(i), Some(o)) => Some((i, o)),
                _ => None,
            },
            _ => None,
        },
        _ => None,
    }
}

pub fn shape_to_json(s: &Shape) -> (r: Json)
    ensures
        read_shape(r) == Some(s@),
{
    proof {
        lemma_literals();
    }
    let i = list_to_json(s.inputs());
    let o = list_to_json(s.outputs());
    let r = object2("inputs", i, "outputs", o);
    proof {
        lemma_field2(r->Object_0@);
        assert(Seq::new(s.spec_inputs().len(), |k: int| s.spec_inputs()[k].deep_view()) =~= s@.0);
        assert(Seq::new(s.spec_outputs().len(), |k: int| s.spec_outputs()[k].deep_view()) =~= s@.1);
    }
    r
}

pub fn shape_from_json(j: &Json) -> (r: Result<Shape, Error>)
    ensures
        r is Ok <==> read_shape(*j) is Some,
        r matches Ok(s) ==> read_shape(*j) == Some(s@),
{
    let bad = Err(Error::ReadError(owned("invalid shape")));
    match j {
        Json::Object(f) => match (get_field(f, "inputs"), get_field(f, "outputs")) {
            (Some(ij), Some(oj)) => match (list_from_json::<Socket>(ij), list_from_json::<Socket>(oj)) {
                (Some(i), Some(o)) => {
                    let s = Shape::new(i, o);
                    assert(s@.0 =~= i.deep_view());
                    assert(s@.1 =~= o.deep_view());
                    Ok(s)
                },
                _ => bad,
            },
            _ => bad,
        },
        _ => bad,
    }
}

/// What a JSON document reads as under the node schema `{name, shape}`.
pub open spec fn read_node(j: Json) -> Option<<Node as View>::V> {
    match j {
        Json::Object(f) => match (field(f@, "name"@), field(f@, "shape"@)) {
            (Some(Json::Str(n)), Some(sj)) => match read_shape(sj) {
                Some(s) => Some((n@, s)),
                None => None,
            },
            _ => None,
        },
        _ => None,
    }
}

pub fn node_to_json(n: &Node) -> (r: Json)
    ensures
        read_node(r) == Some(n@),
{
    proof {
        lemma_literals();
    }
    let r = object2("name", Json::Str(owned(n.name())), "shape", shape_to_json(n.shape()));
    proof {
        lemma_field2(r->Object_0@);
    }
    r
}

pub fn node_from_json(j: &Json) -> (r: Result<Node, Error>)
    ensures
        r is Ok <==> read_node(*j) is Some,
        r matches Ok(n) ==> read_node(*j) == Some(n@),
{
    let bad = Err(Error::ReadError(owned("invalid node")));
    match j {
        Json::Object(f) => match (get_field(f, "name"), get_field(f, "shape")) {
            (Some(Json::Str(n)), Some(sj)) => match shape_from_json(sj) {
                Ok(s) => Ok(Node::new(n.clone(), s)),
                Err(e) => Err(e),
            },
            _ => bad,
        },
        _ => bad,
    }
}

/// What a JSON document reads as a bundle format.
pub open spec fn read_format(j: Json) -> Option<Format> {
    match j {
        Json::Str(s) => if s@ == "json"@ {
            Some(Format::Concrete(ConcreteFormat::Json))
        } else if s@ == "proto"@ {
            Some(Format::Concrete(ConcreteFormat::Proto))
        } else if s@ == "mixed"@ {
            Some(Format::Mixed)
        } else {
            None
        },
        _ => None,
    }
}

pub fn format_to_json(f: &Format) -> (r: Json)
    ensures
        read_format(r) == Some(*f),
{
    proof {
        lemma_literals();
    }
    match f {
        Format::Concrete(ConcreteFormat::Json) => Json::Str(owned("json")),
        Format::Concrete(ConcreteFormat::Proto) => Json::Str(owned("proto")),
        Format::Mixed => Json::Str(owned("mixed")),
    }
}

pub fn format_from_json(j: &Json) -> (r: Result<Format, Error>)
    ensures
        r is Ok <==> read_format(*j) is Some,
        r matches Ok(f) ==> read_format(*j) == Some(f),
        r matches Err(e) ==> e is ReadError,
{
    match j {
        Json::Str(s) => {
            if str_eq(s.as_str(), "json") {
                Ok(Format::Concrete(ConcreteFormat::Json))
            } else if str_eq(s.as_str(), "proto") {
                Ok(Format::Concrete(ConcreteFormat::Proto))
            } else if str_eq(s.as_str(), "mixed") {
                Ok(Format::Mixed)
            } else {
                Err(Error::ReadError(owned("invalid format")))
            }
        },
        _ => Err(Error::ReadError(owned("invalid format"))),
    }
}

/// Names the hyphenated lower-case text of the UUID with these 128 bits.
pub uninterp spec fn uuid_text(u: u128) -> Seq<char>;

/// Names the 128 bits of the UUID a text stands for, if it is one.
pub uninterp spec fn uuid_of_text(s: Seq<char>) -> Option<u128>;

/// Relies on the `Display` of `uuid::Uuid`: the hyphenated lower-case
/// form, which `uuid::Uuid::parse_str` reads back as the same UUID.
#[verifier::external_body]
fn uuid_string(u: u128) -> (r: String)
    ensures
        r@ == uuid_text(u),
        uuid_of_text(r@) == Some(u),
{
    uuid::Uuid::from_u128(u).to_string()
}

/// Relies on `uuid::Uuid::parse_str`: the 128 bits of the UUID a text
/// stands for.
#[verifier::external_body]
fn parse_uuid(s: &str) -> (r: Option<u128>)
    ensures
        r == uuid_of_text(s@),
{
    uuid::Uuid::parse_str(s).ok().map(|u| u.as_u128())
}

/// What a JSON document reads as under the envelope schema
/// `{uid, name, format, version}`: the name, the format, the UUID bits and
/// the version text, when the uid and the version parse.
pub open spec fn read_bundle(j: Json) -> Option<(Seq<char>, Format, u128, Seq<char>)> {
    match j {
        Json::Object(f) => match (
            field(f@, "uid"@),
            field(f@, "name"@),
            field(f@, "format"@),
            field(f@, "version"@),
        ) {
            (Some(Json::Str(u)), Some(Json::Str(n)), Some(fj), Some(Json::Str(v))) => match (
                read_format(fj),
                uuid_of_text(u@),
            ) {
                (Some(fmt), Some(uid)) => if semver_parses(v@) {
                    Some((n@, fmt, uid, v@))
                } else {
                    None
                },
                _ => None,
            },
            _ => None,
        },
        _ => None,
    }
}

/// Writes the envelope; reading the result back gives the same name,
/// format, uid and version.
pub fn bundle_to_json(b: &Bundle) -> (r: Json)
    ensures
        read_bundle(r) == Some(b.spec_view()),
{
    proof {
        lemma_literals();
    }
    let mut f: Vec<(String, Json)> = Vec::new();
    f.push(pair("uid", Json::Str(uuid_string(b.uid()))));
    f.push(pair("name", Json::Str(owned(b.name()))));
    f.push(pair("format", format_to_json(b.format())));
    f.push(pair("version", Json::Str(owned(b.version().as_str()))));
    proof {
        let s = f@;
        lemma_field3(s.drop_first());
        assert(field(s, "uid"@) == Some(s[0].1));
        assert(field(s.drop_first(), "name"@) == Some(s[1].1));
        assert(field(s.drop_first(), "format"@) == Some(s[2].1));
        assert(field(s.drop_first(), "version"@) == Some(s[3].1));
    }
    Json::Object(f)
}

/// Reads the envelope; an error exactly when the document is not one.
pub fn bundle_from_json(j: &Json) -> (r: Result<Bundle, Error>)
    ensures
        r is Ok <==> read_bundle(*j) is Some,
        r matches Ok(b) ==> read_bundle(*j) == Some(b.spec_view()),
{
    let bad = Err(Error::ReadError(owned("invalid bundle")));
    match j {
        Json::Object(f) => match (
            get_field(f, "uid"),
            get_field(f, "name"),
            get_field(f, "format"),
            get_field(f, "version"),
        ) {
            (Some(Json::Str(u)), Some(Json::Str(n)), Some(fj), Some(Json::Str(v))) => {
                match (parse_uuid(u.as_str()), format_from_json(fj), Version::parse(v.as_str())) {
                    (Some(uid), Ok(fmt), Some(ver)) => Ok(Bundle::new(uid, n.clone(), fmt, ver)),
                    _ => bad,
                }
            },
            _ => bad,
        },
        _ => bad,
    }
}

} // verus!
