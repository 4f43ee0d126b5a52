//! The decoder for messages that hold base64.

use vstd::prelude::*;
use base64::Engine;
use crate::decoders::string_decoder::{from_utf8_lossy, utf8_lossy};
use crate::error::DecodeError;

verus! {

/// The bytes that a base64 text stands for in the standard alphabet, or
/// the words in which the text is refused.
pub uninterp spec fn base64_standard(text: Seq<char>) -> Result<Seq<u8>, Seq<char>>;

/// The bytes that a base64 text stands for in the alphabet for URLs, or
/// the words in which the text is refused.
pub uninterp spec fn base64_url_safe(text: Seq<char>) -> Result<Seq<u8>, Seq<char>>;

/// The base64 text of bytes in the standard alphabet, padded.
pub uninterp spec fn base64_text(bytes: Seq<u8>) -> Seq<char>;

/// The base64 text of bytes in the alphabet for URLs, not padded.
pub uninterp spec fn base64_url_text(bytes: Seq<u8>) -> Seq<char>;

/// A result with its parts taken as sequences.
pub open spec fn decoding_view(r: Result<Vec<u8>, String>) -> Result<Seq<u8>, Seq<char>> {
    match r {
        Ok(bytes) => Ok(bytes@),
        Err(words) => Err(words@),
    }
}

/// `Engine::decode` of `general_purpose::STANDARD`, a refusal put in its
/// own words.
#[verifier::external_body]
fn decode_standard(text: &str) -> (r: Result<Vec<u8>, String>)
    ensures
        decoding_view(r) == base64_standard(text@),
{
    match base64::engine::general_purpose::STANDARD.decode(text) {
        Ok(bytes) => Ok(bytes),
        Err(refusal) => Err(refusal.to_string()),
    }
}

/// `Engine::decode` of `general_purpose::URL_SAFE`, a refusal put in its
/// own words.
#[verifier::external_body]
fn decode_url_safe(text: &str) -> (r: Result<Vec<u8>, String>)
    ensures
        decoding_view(r) == base64_url_safe(text@),
{
    match base64::engine::general_purpose::URL_SAFE.decode(text) {
        Ok(bytes) => Ok(bytes),
        Err(refusal) => Err(refusal.to_string()),
    }
}

/// `Engine::encode` of `general_purpose::STANDARD`.
#[verifier::external_body]
pub(crate) fn encode_standard(data: &[u8]) -> (r: String)
    ensures
        r@ == base64_text(data@),
{
    base64::engine::general_purpose::STANDARD.encode(data)
}

/// `Engine::encode` of `general_purpose::URL_SAFE_NO_PAD`.
#[verifier::external_body]
fn encode_url_safe(data: &[u8]) -> (r: String)
    ensures
        r@ == base64_url_text(data@),
{
    base64::engine::general_purpose::URL_SAFE_NO_PAD.encode(data)
}

/// What is shown for the outcome of a decoding: the bytes as text in
/// UTF-8, or a note with the words of the refusal.
pub open spec fn shown(decoding: Result<Seq<u8>, Seq<char>>) -> Seq<char> {
    match decoding {
        Ok(bytes) => utf8_lossy(bytes),
        Err(words) => "<Invalid Base64: "@ + words + ">"@,
    }
}

/// What the decoder shows for the bytes of a message.
pub open spec fn base64_shown(url_safe: bool, data: Seq<u8>) -> Seq<char> {
    if url_safe {
        shown(base64_url_safe(utf8_lossy(data)))
    } else {
        shown(base64_standard(utf8_lossy(data)))
    }
}

/// Shows what a decoding gave: the bytes as text in UTF-8, or a note with
/// the words of the refusal.
pub fn show_decoding(decoding: Result<Vec<u8>, String>) -> (r: String)
    ensures
        r@ == shown(decoding_view(decoding)),
{
    match decoding {
        Ok(bytes) => from_utf8_lossy(bytes.as_slice()),
        Err(words) => {
            let mut note = "<Invalid Base64: ".to_owned();
            note.append(words.as_str());
            note.append(">");
            note
        },
    }
}

/// Shows the bytes of a message that holds base64.
#[derive(Debug, Clone, Copy)]
pub struct Base64Decoder {
    url_safe: bool,
}

impl Base64Decoder {
    /// Whether the decoder uses the alphabet for URLs.
    pub closed spec fn is_url_safe(&self) -> bool {
        self.url_safe
    }

    /// A decoder for the standard alphabet.
    pub fn new() -> (r: Self)
        ensures
            !r.is_url_safe(),
    {
        Self { url_safe: false }
    }

    /// A decoder for the alphabet for URLs.
    pub fn url_safe() -> (r: Self)
        ensures
            r.is_url_safe(),
    {
        Self { url_safe: true }
    }

    /// The text that the base64 in the bytes stands for; a note where the
    /// bytes hold no base64.
    pub fn decode(&self, data: &[u8]) -> (r: Result<String, DecodeError>)
        ensures
            r matches Ok(text) && text@ == base64_shown(self.is_url_safe(), data@),
    {
        let text = from_utf8_lossy(data);
        let decoding = if self.url_safe {
            decode_url_safe(text.as_str())
        } else {
            decode_standard(text.as_str())
        };
        Ok(show_decoding(decoding))
    }

    /// The base64 text of the bytes: padded in the standard alphabet, not
    /// padded in the alphabet for URLs.
    pub fn encode(&self, data: &[u8]) -> (r: String)
        ensures
            r@ == (if self.is_url_safe() {
                base64_url_text(data@)
            } else {
                base64_text(data@)
            }),
    {
        if self.url_safe {
            encode_url_safe(data)
        } else {
            encode_standard(data)
        }
    }
}

} // verus!
