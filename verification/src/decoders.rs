//! Decoders that turn the bytes of a message into text for display.

use vstd::prelude::*;
use crate::error::DecodeError;

pub mod avro_decoder;
pub mod base64_decoder;
pub mod byte_array_decoder;
pub mod json_decoder;
pub mod no_key_decoder;
pub mod numeric_decoders;
pub mod string_decoder;

use crate::decoders::base64_decoder::{base64_shown, Base64Decoder};
use crate::decoders::byte_array_decoder::{dump, ByteArrayDecoder};
use crate::decoders::json_decoder::{json_shown, JsonDecoder};
use crate::decoders::no_key_decoder::NoKeyDecoder;
use crate::decoders::numeric_decoders::{number_text, IntegerDecoder, LongDecoder, ShortDecoder};
use crate::decoders::string_decoder::{decoded_text, StringDecoder};

verus! {

/// What every decoder offers, so that one can be put in the place of
/// another.
pub trait Decoder {
    /// The text that the bytes stand for.
    fn decode(&self, data: &[u8]) -> Result<String, DecodeError>;

    /// The name of the decoder: `Unnamed` where a decoder gives itself
    /// none.
    fn name(&self) -> (r: &str)
        default_ensures
            r@ == "Unnamed"@,
    {
        "Unnamed"
    }
}

impl Decoder for StringDecoder {
    fn decode(&self, data: &[u8]) -> (r: Result<String, DecodeError>)
        ensures
            r matches Ok(text) && text@ == decoded_text(self.encoding(), data@),
    {
        StringDecoder::decode(self, data)
    }

    fn name(&self) -> (r: &str)
        ensures
            r@ == "String"@,
    {
        "String"
    }
}

impl Decoder for ByteArrayDecoder {
    fn decode(&self, data: &[u8]) -> (r: Result<String, DecodeError>)
        ensures
            r matches Ok(text) && text@ == dump(
                self.format(),
                self.bytes_per_line() as int,
                data@,
            ),
    {
        ByteArrayDecoder::decode(self, data)
    }

    fn name(&self) -> (r: &str)
        ensures
            r@ == "ByteArray"@,
    {
        "ByteArray"
    }
}

impl Decoder for NoKeyDecoder {
    fn decode(&self, data: &[u8]) -> (r: Result<String, DecodeError>)
        ensures
            r matches Ok(text) && text@ == "<no key>"@,
    {
        NoKeyDecoder::decode(self, data)
    }

    fn name(&self) -> (r: &str)
        ensures
            r@ == "NoKey"@,
    {
        "NoKey"
    }
}

impl Decoder for JsonDecoder {
    fn decode(&self, data: &[u8]) -> (r: Result<String, DecodeError>)
        ensures
            match r {
                Ok(text) => json_shown(self.is_pretty(), data@) == Ok::<Seq<char>, DecodeError>(
                    text@,
                ),
                Err(e) => json_shown(self.is_pretty(), data@) == Err::<Seq<char>, DecodeError>(e),
            },
    {
        JsonDecoder::decode(self, data)
    }

    fn name(&self) -> (r: &str)
        ensures
            r@ == "JSON"@,
    {
        "JSON"
    }
}

impl Decoder for IntegerDecoder {
    fn decode(&self, data: &[u8]) -> (r: Result<String, DecodeError>)
        ensures
            r matches Ok(text) && text@ == number_text(data@, 4, self.endianness()),
    {
        IntegerDecoder::decode(self, data)
    }

    fn name(&self) -> (r: &str)
        ensures
            r@ == "Integer"@,
    {
        "Integer"
    }
}

impl Decoder for LongDecoder {
    fn decode(&self, data: &[u8]) -> (r: Result<String, DecodeError>)
        ensures
            r matches Ok(text) && text@ == number_text(data@, 8, self.endianness()),
    {
        LongDecoder::decode(self, data)
    }

    fn name(&self) -> (r: &str)
        ensures
            r@ == "Long"@,
    {
        "Long"
    }
}

impl Decoder for ShortDecoder {
    fn decode(&self, data: &[u8]) -> (r: Result<String, DecodeError>)
        ensures
            r matches Ok(text) && text@ == number_text(data@, 2, self.endianness()),
    {
        ShortDecoder::decode(self, data)
    }

    fn name(&self) -> (r: &str)
        ensures
            r@ == "Short"@,
    {
        "Short"
    }
}

impl Decoder for Base64Decoder {
    fn decode(&self, data: &[u8]) -> (r: Result<String, DecodeError>)
        ensures
            r matches Ok(text) && text@ == base64_shown(self.is_url_safe(), data@),
    {
        Base64Decoder::decode(self, data)
    }

    fn name(&self) -> (r: &str)
        ensures
            r@ == "Base64"@,
    {
        "Base64"
    }
}

} // verus!
