//! The decoder for messages that hold JSON.

use vstd::prelude::*;
use crate::decoders::string_decoder::{from_utf8_lossy, utf8_lossy};
use crate::error::DecodeError;

verus! {

/// The refusal of `serde_json`, carried as it is.
#[verifier::external_type_specification]
#[verifier::external_body]
pub struct ExJsonError(serde_json::Error);

/// The value of `serde_json`, carried as it is.
#[verifier::external_type_specification]
#[verifier::external_body]
pub struct ExJsonValue(serde_json::Value);

/// The JSON value that a text holds, or `None` where it holds none.
pub uninterp spec fn json_value(text: Seq<char>) -> Option<serde_json::Value>;

/// A JSON value written with line breaks and an indentation of two spaces,
/// or `None` where the value cannot be written.
pub uninterp spec fn json_pretty(value: serde_json::Value) -> Option<Seq<char>>;

/// A JSON value written without spaces between its parts, or `None` where
/// the value cannot be written.
pub uninterp spec fn json_compact(value: serde_json::Value) -> Option<Seq<char>>;

/// `serde_json::from_str` for a `Value`.
#[verifier::external_body]
fn parse_json(text: &str) -> (r: Result<serde_json::Value, serde_json::Error>)
    ensures
        match r {
            Ok(value) => json_value(text@) == Some(value),
            Err(_) => json_value(text@) is None,
        },
{
    serde_json::from_str(text)
}

/// `serde_json::to_string_pretty` of a `Value`. Whether the writing fails
/// rests on the value alone, and so does the text.
#[verifier::external_body]
fn write_pretty(value: &serde_json::Value) -> (r: Result<String, serde_json::Error>)
    ensures
        match r {
            Ok(text) => json_pretty(*value) == Some(text@),
            Err(_) => json_pretty(*value) is None,
        },
{
    serde_json::to_string_pretty(value)
}

/// `serde_json::to_string` of a `Value`. Whether the writing fails rests on
/// the value alone, and so does the text.
#[verifier::external_body]
fn write_compact(value: &serde_json::Value) -> (r: Result<String, serde_json::Error>)
    ensures
        match r {
            Ok(text) => json_compact(*value) == Some(text@),
            Err(_) => json_compact(*value) is None,
        },
{
    serde_json::to_string(value)
}

/// A value as a decoder writes it: with line breaks and indentation where
/// `pretty` is set, without spaces where it is not.
pub open spec fn json_written(pretty: bool, value: serde_json::Value) -> Option<Seq<char>> {
    if pretty {
        json_pretty(value)
    } else {
        json_compact(value)
    }
}

/// What a decoder shows for the bytes of a message: the JSON value in
/// them, read as UTF-8 and written anew, or a refusal where they hold none
/// or the value cannot be written.
pub open spec fn json_shown(pretty: bool, data: Seq<u8>) -> Result<Seq<char>, DecodeError> {
    match json_value(utf8_lossy(data)) {
        None => Err(DecodeError::InvalidJson),
        Some(value) => match json_written(pretty, value) {
            Some(text) => Ok(text),
            None => Err(DecodeError::InvalidJson),
        },
    }
}

/// Shows the bytes of a message that holds JSON.
#[derive(Debug, Clone, Copy)]
pub struct JsonDecoder {
    pretty: bool,
    color: bool,
}

impl JsonDecoder {
    /// Whether the decoder writes with line breaks and indentation.
    pub closed spec fn is_pretty(&self) -> bool {
        self.pretty
    }

    /// A decoder that writes with line breaks and indentation.
    pub fn new() -> (r: Self)
        ensures
            r.is_pretty(),
    {
        Self { pretty: true, color: false }
    }

    /// The decoder with the way of writing set.
    pub fn set_pretty(self, pretty: bool) -> (r: Self)
        ensures
            r.is_pretty() == pretty,
    {
        Self { pretty, color: self.color }
    }

    /// Writes a value in the decoder's way. A value that cannot be written
    /// counts as no JSON.
    pub fn write_value(&self, value: &serde_json::Value) -> (r: Result<String, DecodeError>)
        ensures
            match r {
                Ok(text) => json_written(self.is_pretty(), *value) == Some(text@),
                Err(e) => e == DecodeError::InvalidJson && json_written(self.is_pretty(), *value)
                    is None,
            },
    {
        let written = if self.pretty {
            write_pretty(value)
        } else {
            write_compact(value)
        };
        match written {
            Ok(text) => Ok(text),
            Err(_) => Err(DecodeError::InvalidJson),
        }
    }

    /// The JSON value that the bytes hold, read as UTF-8. Bytes that hold
    /// none are refused.
    pub fn decode_value(&self, data: &[u8]) -> (r: Result<serde_json::Value, DecodeError>)
        ensures
            match r {
                Ok(value) => json_value(utf8_lossy(data@)) == Some(value),
                Err(e) => e == DecodeError::InvalidJson && json_value(utf8_lossy(data@)) is None,
            },
    {
        let text = from_utf8_lossy(data);
        match parse_json(text.as_str()) {
            Ok(value) => Ok(value),
            Err(_) => Err(DecodeError::InvalidJson),
        }
    }

    /// The JSON in the bytes, written anew in the decoder's way. Bytes that
    /// hold no JSON are refused, and so is a value that cannot be written.
    pub fn decode(&self, data: &[u8]) -> (r: Result<String, DecodeError>)
        ensures
            match r {
                Ok(text) => json_shown(self.is_pretty(), data@) == Ok::<Seq<char>, DecodeError>(
                    text@,
                ),
                Err(e) => json_shown(self.is_pretty(), data@) == Err::<Seq<char>, DecodeError>(e),
            },
    {
        match self.decode_value(data) {
            Err(e) => Err(e),
            Ok(value) => self.write_value(&value),
        }
    }
}

} // verus!
