//! The decoder for text in one of several character encodings.

use vstd::prelude::*;
use vstd::slice::slice_to_vec;
use vstd::utf8::*;
use crate::error::DecodeError;
use crate::text::{decimal_text, format_unsigned, push_char, string_from_utf8};

verus! {

/// The character encodings that the decoder knows.
#[derive(Debug, Clone, Copy, PartialEq, Eq, Structural)]
pub enum Encoding {
    Utf8,
    Utf16Le,
    Utf16Be,
    Gbk,
    Iso88591,
}

/// The refusal of `String::from_utf16`, carried as it is.
#[verifier::external_type_specification]
#[verifier::external_body]
pub struct ExFromUtf16Error(std::string::FromUtf16Error);

/// The text that bytes stand for in UTF-8, with the replacement character
/// in the place of what is not well-formed.
pub uninterp spec fn utf8_lossy(bytes: Seq<u8>) -> Seq<char>;

/// The text that units stand for in UTF-16, with the replacement character
/// in the place of each surrogate that has no partner.
pub uninterp spec fn utf16_lossy(units: Seq<u16>) -> Seq<char>;

/// The text that units stand for in UTF-16, or `None` where a surrogate
/// has no partner.
pub uninterp spec fn utf16_strict(units: Seq<u16>) -> Option<Seq<char>>;

/// `String::from_utf8_lossy`, as an owned text. Bytes that are well-formed
/// UTF-8 come back as the text they encode.
#[verifier::external_body]
pub(crate) fn from_utf8_lossy(data: &[u8]) -> (r: String)
    ensures
        r@ == utf8_lossy(data@),
        valid_utf8(data@) ==> r@ == decode_utf8(data@),
{
    String::from_utf8_lossy(data).into_owned()
}

/// `String::from_utf16_lossy`.
#[verifier::external_body]
fn from_utf16_lossy(units: &[u16]) -> (r: String)
    ensures
        r@ == utf16_lossy(units@),
{
    String::from_utf16_lossy(units)
}

/// `String::from_utf16`.
#[verifier::external_body]
fn from_utf16(units: &[u16]) -> (r: Result<String, std::string::FromUtf16Error>)
    ensures
        match r {
            Ok(text) => utf16_strict(units@) == Some(text@),
            Err(_) => utf16_strict(units@) is None,
        },
{
    String::from_utf16(units)
}

/// The units of 16 bits that the bytes hold, two bytes each, a byte left
/// over at the end dropped.
pub open spec fn units_of(bytes: Seq<u8>, little: bool) -> Seq<u16> {
    Seq::new(
        bytes.len() / 2,
        |i: int|
            if little {
                (bytes[2 * i] as int + 256 * bytes[2 * i + 1] as int) as u16
            } else {
                (256 * bytes[2 * i] as int + bytes[2 * i + 1] as int) as u16
            },
    )
}

/// Each byte as the character with its number.
pub open spec fn latin1_text(bytes: Seq<u8>) -> Seq<char> {
    Seq::new(bytes.len(), |i: int| bytes[i] as char)
}

/// What is shown for the encoding that is not built in.
pub open spec fn gbk_note(len: int) -> Seq<char> {
    "<GBK encoding not yet implemented, "@ + decimal_text(len) + " bytes>"@
}

/// The text that the bytes stand for in the given encoding.
pub open spec fn decoded_text(encoding: Encoding, bytes: Seq<u8>) -> Seq<char> {
    match encoding {
        Encoding::Utf8 => utf8_lossy(bytes),
        Encoding::Utf16Le => utf16_lossy(units_of(bytes, true)),
        Encoding::Utf16Be => utf16_lossy(units_of(bytes, false)),
        Encoding::Gbk => gbk_note(bytes.len() as int),
        Encoding::Iso88591 => latin1_text(bytes),
    }
}

/// The text that the bytes stand for in the first encoding that fits:
/// UTF-8; for an even number of bytes, at least two, UTF-16 with the low
/// byte first, then with the high byte first; else UTF-8 with replacement
/// characters.
pub open spec fn guessed_text(bytes: Seq<u8>) -> Seq<char> {
    if valid_utf8(bytes) {
        decode_utf8(bytes)
    } else if bytes.len() >= 2 && bytes.len() % 2 == 0 {
        match utf16_strict(units_of(bytes, true)) {
            Some(text) => text,
            None => match utf16_strict(units_of(bytes, false)) {
                Some(text) => text,
                None => utf8_lossy(bytes),
            },
        }
    } else {
        utf8_lossy(bytes)
    }
}

/// The units of 16 bits that the bytes hold.
pub fn read_units(data: &[u8], little: bool) -> (units: Vec<u16>)
    ensures
        units@ == units_of(data@, little),
{
    let len = data.len();
    let n = len / 2;
    let mut units: Vec<u16> = Vec::with_capacity(n);
    let mut i: usize = 0;
    while i < n
        invariant
            len == data@.len(),
            n == data@.len() / 2,
            i <= n,
            units@.len() == i,
            forall|j: int| 0 <= j < i ==> units@[j] == units_of(data@, little)[j],
        decreases n - i,
    {
        assert(2 * i + 1 < data@.len());
        let first = data[2 * i] as u16;
        let second = data[2 * i + 1] as u16;
        let unit: u16 = if little {
            first + 256 * second
        } else {
            256 * first + second
        };
        units.push(unit);
        i += 1;
    }
    assert(units@ =~= units_of(data@, little));
    units
}

/// Shows the bytes of a message as text.
#[derive(Debug, Clone, Copy)]
pub struct StringDecoder {
    encoding: Encoding,
}

impl StringDecoder {
    /// The encoding of the decoder.
    pub closed spec fn encoding(&self) -> Encoding {
        self.encoding
    }

    /// A decoder for UTF-8.
    pub fn new() -> (r: Self)
        ensures
            r.encoding() == Encoding::Utf8,
    {
        Self { encoding: Encoding::Utf8 }
    }

    /// A decoder for the given encoding.
    pub fn with_encoding(encoding: Encoding) -> (r: Self)
        ensures
            r.encoding() == encoding,
    {
        Self { encoding }
    }

    /// The text that the bytes stand for in the decoder's encoding. What is
    /// not well-formed is shown as the replacement character.
    pub fn decode(&self, data: &[u8]) -> (r: Result<String, DecodeError>)
        ensures
            r matches Ok(text) && text@ == decoded_text(self.encoding(), data@),
    {
        match self.encoding {
            Encoding::Utf8 => Ok(from_utf8_lossy(data)),
            Encoding::Utf16Le => Ok(from_utf16_lossy(read_units(data, true).as_slice())),
            Encoding::Utf16Be => Ok(from_utf16_lossy(read_units(data, false).as_slice())),
            Encoding::Gbk => {
                let mut note = "<GBK encoding not yet implemented, ".to_owned();
                note.append(format_unsigned(data.len() as u64).as_str());
                note.append(" bytes>");
                Ok(note)
            },
            Encoding::Iso88591 => {
                let mut text = String::new();
                let mut i: usize = 0;
                while i < data.len()
                    invariant
                        i <= data@.len(),
                        text@ == latin1_text(data@).take(i as int),
                    decreases data@.len() - i,
                {
                    push_char(&mut text, data[i] as char);
                    assert(text@ =~= latin1_text(data@).take(i + 1));
                    i += 1;
                }
                assert(latin1_text(data@).take(i as int) =~= latin1_text(data@));
                Ok(text)
            },
        }
    }

    /// The text that the bytes stand for in the first encoding that fits.
    pub fn decode_auto(&self, data: &[u8]) -> (r: Result<String, DecodeError>)
        ensures
            r matches Ok(text) && text@ == guessed_text(data@),
    {
        match string_from_utf8(slice_to_vec(data)) {
            Ok(text) => {
                return Ok(text);
            },
            Err(_) => {},
        }
        if data.len() >= 2 && data.len() % 2 == 0 {
            match from_utf16(read_units(data, true).as_slice()) {
                Ok(text) => {
                    return Ok(text);
                },
                Err(_) => {},
            }
            match from_utf16(read_units(data, false).as_slice()) {
                Ok(text) => {
                    return Ok(text);
                },
                Err(_) => {},
            }
        }
        Ok(from_utf8_lossy(data))
    }
}

} // verus!
