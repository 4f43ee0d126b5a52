//! The decoder for messages that hold Avro: its settings, and how a value
//! that was read from Avro is shown as JSON.

use vstd::prelude::*;
use crate::decoders::base64_decoder::{base64_text, encode_standard};
use crate::text::{parse_decimal, parse_integer};

verus! {

/// A value as it is read from Avro. Numbers in floating point are held by
/// their bit patterns.
#[derive(Debug, PartialEq)]
pub enum AvroValue {
    Null,
    Boolean(bool),
    Int(i32),
    Long(i64),
    /// The bit pattern of a number in floating point of 32 bits.
    Float(u32),
    /// The bit pattern of a number in floating point of 64 bits.
    Double(u64),
    Bytes(Vec<u8>),
    String(String),
    Array(Vec<AvroValue>),
    /// The entries of a map, each with its key.
    Dict(Vec<(String, AvroValue)>),
    /// The value of the branch of a union that is taken.
    Union(Box<AvroValue>),
    Fixed(Vec<u8>),
    /// The symbol of an enumeration.
    Enum(String),
    /// A value of any other kind, with the words that describe it.
    Other(String),
}

/// A value as it is shown in JSON. Numbers in floating point are held by
/// their bit patterns, which are those of finite numbers.
#[derive(Debug, PartialEq)]
pub enum JsonValue {
    Null,
    Bool(bool),
    Integer(i64),
    /// The bit pattern of a finite number in floating point of 32 bits.
    Single(u32),
    /// The bit pattern of a finite number in floating point of 64 bits.
    Double(u64),
    String(String),
    Array(Vec<JsonValue>),
    /// The members of an object, each with its name.
    Object(Vec<(String, JsonValue)>),
}

/// A value of Avro as a mathematical value.
pub enum AvroShape {
    Null,
    Boolean(bool),
    Int(i32),
    Long(i64),
    Float(u32),
    Double(u64),
    Bytes(Seq<u8>),
    String(Seq<char>),
    Array(Seq<AvroShape>),
    Dict(Seq<(Seq<char>, AvroShape)>),
    Union(Box<AvroShape>),
    Fixed(Seq<u8>),
    Enum(Seq<char>),
    Other(Seq<char>),
}

/// A value of JSON as a mathematical value.
pub enum JsonShape {
    Null,
    Bool(bool),
    Integer(i64),
    Single(u32),
    Double(u64),
    String(Seq<char>),
    Array(Seq<JsonShape>),
    Object(Seq<(Seq<char>, JsonShape)>),
}

impl AvroValue {
    /// The value as a mathematical value.
    pub open spec fn shape(&self) -> AvroShape
        decreases self,
    {
        match self {
            AvroValue::Null => AvroShape::Null,
            AvroValue::Boolean(b) => AvroShape::Boolean(*b),
            AvroValue::Int(i) => AvroShape::Int(*i),
            AvroValue::Long(l) => AvroShape::Long(*l),
            AvroValue::Float(bits) => AvroShape::Float(*bits),
            AvroValue::Double(bits) => AvroShape::Double(*bits),
            AvroValue::Bytes(bytes) => AvroShape::Bytes(bytes@),
            AvroValue::String(text) => AvroShape::String(text@),
            AvroValue::Array(items) => AvroShape::Array(
                Seq::new(
                    items@.len(),
                    |i: int|
                        if 0 <= i < items@.len() {
                            items@[i].shape()
                        } else {
                            AvroShape::Null
                        },
                ),
            ),
            AvroValue::Dict(entries) => AvroShape::Dict(
                Seq::new(
                    entries@.len(),
                    |i: int|
                        if 0 <= i < entries@.len() {
                            (entries@[i].0@, entries@[i].1.shape())
                        } else {
                            (Seq::empty(), AvroShape::Null)
                        },
                ),
            ),
            AvroValue::Union(inner) => AvroShape::Union(Box::new(inner.shape())),
            AvroValue::Fixed(bytes) => AvroShape::Fixed(bytes@),
            AvroValue::Enum(symbol) => AvroShape::Enum(symbol@),
            AvroValue::Other(words) => AvroShape::Other(words@),
        }
    }
}

impl JsonValue {
    /// The value as a mathematical value.
    pub open spec fn shape(&self) -> JsonShape
        decreases self,
    {
        match self {
            JsonValue::Null => JsonShape::Null,
            JsonValue::Bool(b) => JsonShape::Bool(*b),
            JsonValue::Integer(i) => JsonShape::Integer(*i),
            JsonValue::Single(bits) => JsonShape::Single(*bits),
            JsonValue::Double(bits) => JsonShape::Double(*bits),
            JsonValue::String(text) => JsonShape::String(text@),
            JsonValue::Array(items) => JsonShape::Array(
                Seq::new(
                    items@.len(),
                    |i: int|
                        if 0 <= i < items@.len() {
                            items@[i].shape()
                        } else {
                            JsonShape::Null
                        },
                ),
            ),
            JsonValue::Object(members) => JsonShape::Object(
                Seq::new(
                    members@.len(),
                    |i: int|
                        if 0 <= i < members@.len() {
                            (members@[i].0@, members@[i].1.shape())
                        } else {
                            (Seq::empty(), JsonShape::Null)
                        },
                ),
            ),
        }
    }
}

/// Whether the bit pattern of 32 bits is that of a finite number: its
/// exponent is not all ones.
pub open spec fn single_is_finite(bits: u32) -> bool {
    (bits as int / 0x80_0000) % 0x100 != 0xff
}

/// Whether the bit pattern of 32 bits is that of no number: its exponent
/// is all ones and its fraction is not zero.
pub open spec fn single_is_nan(bits: u32) -> bool {
    (bits as int / 0x80_0000) % 0x100 == 0xff && bits as int % 0x80_0000 != 0
}

/// Whether the bit pattern of 64 bits is that of a finite number.
pub open spec fn double_is_finite(bits: u64) -> bool {
    (bits as int / 0x10_0000_0000_0000) % 0x800 != 0x7ff
}

/// Whether the bit pattern of 64 bits is that of no number.
pub open spec fn double_is_nan(bits: u64) -> bool {
    (bits as int / 0x10_0000_0000_0000) % 0x800 == 0x7ff && bits as int % 0x10_0000_0000_0000
        != 0
}

/// What is shown for a number that is not finite.
pub open spec fn not_finite_text(nan: bool) -> Seq<char> {
    if nan {
        "NaN"@
    } else {
        "Infinity"@
    }
}

/// The number that the symbol of an enumeration is shown as: the number
/// that it spells, 0 where it spells none.
pub open spec fn symbol_number(symbol: Seq<char>) -> i64 {
    match parse_decimal(symbol, i64::MIN as int, i64::MAX as int) {
        Some(v) => v as i64,
        None => 0,
    }
}

/// How a value of Avro is shown as JSON. Numbers stay numbers where they
/// are finite, and are named where they are not; bytes are shown in
/// base64; a union is shown as its value; a map becomes an object and an
/// array an array, each part shown in the same way.
pub open spec fn json_of(value: AvroShape) -> JsonShape
    decreases value,
{
    match value {
        AvroShape::Null => JsonShape::Null,
        AvroShape::Boolean(b) => JsonShape::Bool(b),
        AvroShape::Int(i) => JsonShape::Integer(i as i64),
        AvroShape::Long(l) => JsonShape::Integer(l),
        AvroShape::Float(bits) => if single_is_finite(bits) {
            JsonShape::Single(bits)
        } else {
            JsonShape::String(not_finite_text(single_is_nan(bits)))
        },
        AvroShape::Double(bits) => if double_is_finite(bits) {
            JsonShape::Double(bits)
        } else {
            JsonShape::String(not_finite_text(double_is_nan(bits)))
        },
        AvroShape::Bytes(bytes) => JsonShape::String(base64_text(bytes)),
        AvroShape::String(text) => JsonShape::String(text),
        AvroShape::Array(items) => JsonShape::Array(
            Seq::new(
                items.len(),
                |i: int|
                    if 0 <= i < items.len() {
                        json_of(items[i])
                    } else {
                        JsonShape::Null
                    },
            ),
        ),
        AvroShape::Dict(entries) => JsonShape::Object(
            Seq::new(
                entries.len(),
                |i: int|
                    if 0 <= i < entries.len() {
                        (entries[i].0, json_of(entries[i].1))
                    } else {
                        (Seq::empty(), JsonShape::Null)
                    },
            ),
        ),
        AvroShape::Union(inner) => json_of(*inner),
        AvroShape::Fixed(bytes) => JsonShape::String(base64_text(bytes)),
        AvroShape::Enum(symbol) => JsonShape::Integer(symbol_number(symbol)),
        AvroShape::Other(words) => JsonShape::String(words),
    }
}

/// The name of a number that is not finite.
fn name_not_finite(nan: bool) -> (r: JsonValue)
    ensures
        r.shape() == JsonShape::String(not_finite_text(nan)),
{
    if nan {
        JsonValue::String("NaN".to_owned())
    } else {
        JsonValue::String("Infinity".to_owned())
    }
}

/// How the bytes of a message are read.
#[derive(Debug, Clone, Copy, PartialEq, Eq, Structural)]
pub enum AvroReading {
    /// There are no bytes: the text is empty.
    Nothing,
    /// The bytes are read with the decoder's schema.
    WithSchema,
    /// The bytes are read without a schema.
    Raw,
}

/// How bytes are read: none give no text; others are read with the schema
/// where the decoder has one, without where it has none.
pub open spec fn reading_of(no_bytes: bool, has_schema: bool) -> AvroReading {
    if no_bytes {
        AvroReading::Nothing
    } else if has_schema {
        AvroReading::WithSchema
    } else {
        AvroReading::Raw
    }
}

/// The settings of the Avro decoder: the schema to read with, in its JSON
/// form, where one is given.
#[derive(Debug, Clone)]
pub struct AvroDecoder {
    schema: Option<String>,
}

impl AvroDecoder {
    /// The schema of the decoder.
    pub closed spec fn schema(&self) -> Option<Seq<char>> {
        match self.schema {
            Some(s) => Some(s@),
            None => None,
        }
    }

    /// A decoder without a schema.
    pub fn new() -> (r: Self)
        ensures
            r.schema() is None,
    {
        Self { schema: None }
    }

    /// A decoder with the given schema.
    pub fn with_schema(schema: String) -> (r: Self)
        ensures
            r.schema() == Some(schema@),
    {
        Self { schema: Some(schema) }
    }

    /// The schema of the decoder.
    pub fn get_schema(&self) -> (r: Option<&String>)
        ensures
            match r {
                Some(s) => self.schema() == Some(s@),
                None => self.schema() is None,
            },
    {
        self.schema.as_ref()
    }

    /// How the decoder reads the bytes of a message.
    pub fn reading(&self, data: &[u8]) -> (r: AvroReading)
        ensures
            r == reading_of(data@.len() == 0, self.schema() is Some),
    {
        if data.len() == 0 {
            AvroReading::Nothing
        } else if self.schema.is_some() {
            AvroReading::WithSchema
        } else {
            AvroReading::Raw
        }
    }

    /// Shows a value of Avro as JSON.
    pub fn datum_to_json(&self, datum: &AvroValue) -> (r: JsonValue)
        ensures
            r.shape() == json_of(datum.shape()),
        decreases *datum,
    {
        match datum {
            AvroValue::Null => JsonValue::Null,
            AvroValue::Boolean(b) => JsonValue::Bool(*b),
            AvroValue::Int(i) => JsonValue::Integer(*i as i64),
            AvroValue::Long(l) => JsonValue::Integer(*l),
            AvroValue::Float(bits) => {
                let exponent = (*bits / 0x80_0000) % 0x100;
                if exponent != 0xff {
                    JsonValue::Single(*bits)
                } else {
                    name_not_finite(*bits % 0x80_0000 != 0)
                }
            },
            AvroValue::Double(bits) => {
                let exponent = (*bits / 0x10_0000_0000_0000) % 0x800;
                if exponent != 0x7ff {
                    JsonValue::Double(*bits)
                } else {
                    name_not_finite(*bits % 0x10_0000_0000_0000 != 0)
                }
            },
            AvroValue::Bytes(bytes) => JsonValue::String(encode_standard(bytes.as_slice())),
            AvroValue::String(text) => JsonValue::String(text.clone()),
            AvroValue::Array(items) => {
                let mut shown: Vec<JsonValue> = Vec::with_capacity(items.len());
                let mut i: usize = 0;
                while i < items.len()
                    invariant
                        *datum is Array,
                        *items == datum->Array_0,
                        i <= items@.len(),
                        shown@.len() == i,
                        forall|j: int|
                            0 <= j < i ==> (#[trigger] shown@[j]).shape() == json_of(items@[j].shape()),
                    decreases items@.len() - i,
                {
                    proof {
                        assert(decreases_to!(*datum => datum->Array_0[i as int]));
                    }
                    shown.push(self.datum_to_json(&items[i]));
                    i += 1;
                }
                let r = JsonValue::Array(shown);
                assert(r.shape()->Array_0 =~= json_of(datum.shape())->Array_0);
                r
            },
            AvroValue::Dict(entries) => {
                let mut shown: Vec<(String, JsonValue)> = Vec::with_capacity(entries.len());
                let mut i: usize = 0;
                while i < entries.len()
                    invariant
                        *datum is Dict,
                        *entries == datum->Dict_0,
                        i <= entries@.len(),
                        shown@.len() == i,
                        forall|j: int|
                            0 <= j < i ==> (#[trigger] shown@[j]).0@ == entries@[j].0@
                                && shown@[j].1.shape() == json_of(entries@[j].1.shape()),
                    decreases entries@.len() - i,
                {
                    proof {
                        assert(decreases_to!(*datum => datum->Dict_0[i as int]));
                    }
                    shown.push((entries[i].0.clone(), self.datum_to_json(&entries[i].1)));
                    i += 1;
                }
                let r = JsonValue::Object(shown);
                assert(r.shape()->Object_0 =~= json_of(datum.shape())->Object_0);
                r
            },
            AvroValue::Union(inner) => self.datum_to_json(inner),
            AvroValue::Fixed(bytes) => JsonValue::String(encode_standard(bytes.as_slice())),
            AvroValue::Enum(symbol) => match parse_integer(symbol.as_str(), i64::MIN, i64::MAX) {
                Some(number) => JsonValue::Integer(number),
                None => JsonValue::Integer(0),
            },
            AvroValue::Other(words) => JsonValue::String(words.clone()),
        }
    }
}

} // verus!
