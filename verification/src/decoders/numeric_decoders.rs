//! Decoders for numbers of a fixed width.

use vstd::prelude::*;
use crate::error::DecodeError;
use crate::text::{decimal_text, format_integer, format_unsigned};

verus! {

/// The order in which the bytes of a number stand.
#[derive(Debug, Clone, Copy, PartialEq, Eq, Structural)]
pub enum Endianness {
    BigEndian,
    LittleEndian,
}

/// The number that the first `width` bytes stand for, without sign, the
/// most significant byte first.
pub open spec fn big_endian(bytes: Seq<u8>, width: int) -> int
    decreases width,
{
    if width <= 0 {
        0
    } else {
        big_endian(bytes, width - 1) * 256 + bytes[width - 1] as int
    }
}

/// The number that the first `width` bytes stand for, without sign, the
/// least significant byte first.
pub open spec fn little_endian(bytes: Seq<u8>, width: int) -> int
    decreases width,
{
    if width <= 0 {
        0
    } else {
        bytes[0] as int + 256 * little_endian(bytes.drop_first(), width - 1)
    }
}

/// The number that the first `width` bytes stand for, without sign.
pub open spec fn unsigned_value(bytes: Seq<u8>, width: int, endianness: Endianness) -> int {
    match endianness {
        Endianness::BigEndian => big_endian(bytes, width),
        Endianness::LittleEndian => little_endian(bytes, width),
    }
}

/// Two to the power of eight times `width`, for the widths in use.
pub open spec fn range_of(width: int) -> int {
    if width == 2 {
        0x1_0000
    } else if width == 4 {
        0x1_0000_0000
    } else {
        0x1_0000_0000_0000_0000
    }
}

/// The number that the first `width` bytes stand for in two's complement.
pub open spec fn signed_value(bytes: Seq<u8>, width: int, endianness: Endianness) -> int {
    let v = unsigned_value(bytes, width, endianness);
    if 2 * v >= range_of(width) {
        v - range_of(width)
    } else {
        v
    }
}

/// What is shown where the bytes are too few.
pub open spec fn insufficient_text(have: int, need: int) -> Seq<char> {
    "<Insufficient data: "@ + decimal_text(have) + " bytes, need "@ + decimal_text(need) + ">"@
}

/// What a decoder of signed numbers of the given width shows.
pub open spec fn number_text(bytes: Seq<u8>, width: int, endianness: Endianness) -> Seq<char> {
    if bytes.len() < width {
        insufficient_text(bytes.len() as int, width)
    } else {
        decimal_text(signed_value(bytes, width, endianness))
    }
}

/// A number without sign stays below the range of its width.
pub proof fn lemma_big_endian_bound(bytes: Seq<u8>, width: int)
    requires
        0 <= width <= 8,
    ensures
        0 <= big_endian(bytes, width),
        width == 0 ==> big_endian(bytes, width) == 0,
        width == 1 ==> big_endian(bytes, width) < 0x100,
        width == 2 ==> big_endian(bytes, width) < 0x1_0000,
        width == 3 ==> big_endian(bytes, width) < 0x100_0000,
        width == 4 ==> big_endian(bytes, width) < 0x1_0000_0000,
        width == 5 ==> big_endian(bytes, width) < 0x100_0000_0000,
        width == 6 ==> big_endian(bytes, width) < 0x1_0000_0000_0000,
        width == 7 ==> big_endian(bytes, width) < 0x100_0000_0000_0000,
        width == 8 ==> big_endian(bytes, width) < 0x1_0000_0000_0000_0000,
    decreases width,
{
    if width > 0 {
        lemma_big_endian_bound(bytes, width - 1);
    }
}

/// The bytes from the last to the first, read most significant byte first,
/// are the bytes read least significant byte first.
pub proof fn lemma_little_is_reversed_big(bytes: Seq<u8>, width: int)
    requires
        0 <= width <= bytes.len(),
    ensures
        little_endian(bytes, width) == big_endian(bytes.take(width).reverse(), width),
    decreases width,
{
    if width > 0 {
        let rest = bytes.drop_first();
        lemma_little_is_reversed_big(rest, width - 1);
        let r = bytes.take(width).reverse();
        let r1 = rest.take(width - 1).reverse();
        assert(r[width - 1] == bytes[0]);
        assert forall|k: int| 0 <= k <= width - 1 implies big_endian(r, k) == big_endian(r1, k) by {
            lemma_big_endian_prefix(r, r1, k);
        }
    } else {
    }
}

/// Byte strings that agree on their first `width` bytes stand for the same
/// number.
pub proof fn lemma_big_endian_prefix(a: Seq<u8>, b: Seq<u8>, width: int)
    requires
        0 <= width <= a.len(),
        width <= b.len(),
        forall|i: int| 0 <= i < width ==> a[i] == b[i],
    ensures
        big_endian(a, width) == big_endian(b, width),
    decreases width,
{
    if width > 0 {
        lemma_big_endian_prefix(a, b, width - 1);
    }
}

/// Reads a number without sign from the first `width` bytes.
fn read_unsigned(data: &[u8], width: usize, endianness: Endianness) -> (v: u64)
    requires
        1 <= width <= 8,
        width <= data@.len(),
    ensures
        v == unsigned_value(data@, width as int, endianness),
{
    let mut v: u64 = 0;
    let mut i: usize = 0;
    let ghost ordered = match endianness {
        Endianness::BigEndian => data@,
        Endianness::LittleEndian => data@.take(width as int).reverse(),
    };
    while i < width
        invariant
            1 <= width <= 8,
            width <= data@.len(),
            i <= width,
            ordered == (match endianness {
                Endianness::BigEndian => data@,
                Endianness::LittleEndian => data@.take(width as int).reverse(),
            }),
            v == big_endian(ordered, i as int),
        decreases width - i,
    {
        proof {
            lemma_big_endian_bound(ordered, i as int);
        }
        let byte = match endianness {
            Endianness::BigEndian => data[i],
            Endianness::LittleEndian => data[width - 1 - i],
        };
        assert(byte == ordered[i as int]);
        v = v * 256 + byte as u64;
        i += 1;
    }
    proof {
        if endianness == Endianness::LittleEndian {
            lemma_little_is_reversed_big(data@, width as int);
        }
    }
    v
}

/// The text that is shown where the bytes are too few.
fn insufficient(have: usize, need: i64) -> (r: String)
    ensures
        r@ == insufficient_text(have as int, need as int),
{
    let mut r = "<Insufficient data: ".to_owned();
    r.append(format_unsigned(have as u64).as_str());
    r.append(" bytes, need ");
    r.append(format_integer(need).as_str());
    r.append(">");
    r
}

/// Shows the first four bytes as a signed number of 32 bits.
#[derive(Debug, Clone, Copy)]
pub struct IntegerDecoder {
    endianness: Endianness,
}

impl IntegerDecoder {
    /// The byte order of the decoder.
    pub closed spec fn endianness(&self) -> Endianness {
        self.endianness
    }

    /// A decoder that reads the most significant byte first.
    pub fn new() -> (r: Self)
        ensures
            r.endianness() == Endianness::BigEndian,
    {
        Self { endianness: Endianness::BigEndian }
    }

    /// A decoder with the given byte order.
    pub fn with_endianness(endianness: Endianness) -> (r: Self)
        ensures
            r.endianness() == endianness,
    {
        Self { endianness }
    }

    /// The number that the first four bytes stand for, in decimal; a note
    /// where there are fewer.
    pub fn decode(&self, data: &[u8]) -> (r: Result<String, DecodeError>)
        ensures
            r matches Ok(text) && text@ == number_text(data@, 4, self.endianness()),
    {
        if data.len() < 4 {
            return Ok(insufficient(data.len(), 4));
        }
        let v = read_unsigned(data, 4, self.endianness);
        proof {
            lemma_value_bound(data@, 4, self.endianness);
        }
        let value: i64 = if v >= 0x8000_0000 {
            v as i64 - 0x1_0000_0000
        } else {
            v as i64
        };
        Ok(format_integer(value))
    }
}

/// Shows the first eight bytes as a signed number of 64 bits.
#[derive(Debug, Clone, Copy)]
pub struct LongDecoder {
    endianness: Endianness,
}

impl LongDecoder {
    /// The byte order of the decoder.
    pub closed spec fn endianness(&self) -> Endianness {
        self.endianness
    }

    /// A decoder that reads the most significant byte first.
    pub fn new() -> (r: Self)
        ensures
            r.endianness() == Endianness::BigEndian,
    {
        Self { endianness: Endianness::BigEndian }
    }

    /// A decoder with the given byte order.
    pub fn with_endianness(endianness: Endianness) -> (r: Self)
        ensures
            r.endianness() == endianness,
    {
        Self { endianness }
    }

    /// The number that the first eight bytes stand for, in decimal; a note
    /// where there are fewer.
    pub fn decode(&self, data: &[u8]) -> (r: Result<String, DecodeError>)
        ensures
            r matches Ok(text) && text@ == number_text(data@, 8, self.endianness()),
    {
        if data.len() < 8 {
            return Ok(insufficient(data.len(), 8));
        }
        let v = read_unsigned(data, 8, self.endianness);
        let value: i64 = if v >= 0x8000_0000_0000_0000 {
            ((v - 0x8000_0000_0000_0000) as i64) + i64::MIN
        } else {
            v as i64
        };
        Ok(format_integer(value))
    }
}

/// Shows the first two bytes as a signed number of 16 bits.
#[derive(Debug, Clone, Copy)]
pub struct ShortDecoder {
    endianness: Endianness,
}

impl ShortDecoder {
    /// The byte order of the decoder.
    pub closed spec fn endianness(&self) -> Endianness {
        self.endianness
    }

    /// A decoder that reads the most significant byte first.
    pub fn new() -> (r: Self)
        ensures
            r.endianness() == Endianness::BigEndian,
    {
        Self { endianness: Endianness::BigEndian }
    }

    /// A decoder with the given byte order.
    pub fn with_endianness(endianness: Endianness) -> (r: Self)
        ensures
            r.endianness() == endianness,
    {
        Self { endianness }
    }

    /// The number that the first two bytes stand for, in decimal; a note
    /// where there are fewer.
    pub fn decode(&self, data: &[u8]) -> (r: Result<String, DecodeError>)
        ensures
            r matches Ok(text) && text@ == number_text(data@, 2, self.endianness()),
    {
        if data.len() < 2 {
            return Ok(insufficient(data.len(), 2));
        }
        let v = read_unsigned(data, 2, self.endianness);
        proof {
            lemma_value_bound(data@, 2, self.endianness);
        }
        let value: i64 = if v >= 0x8000 {
            v as i64 - 0x1_0000
        } else {
            v as i64
        };
        Ok(format_integer(value))
    }
}

/// Reads the first four bytes as the bit pattern of a number in floating
/// point of 32 bits. Turning the pattern into such a number and showing it
/// is left to the caller.
#[derive(Debug, Clone, Copy)]
pub struct FloatDecoder {
    endianness: Endianness,
}

impl FloatDecoder {
    /// The byte order of the decoder.
    pub closed spec fn endianness(&self) -> Endianness {
        self.endianness
    }

    /// A decoder that reads the most significant byte first.
    pub fn new() -> (r: Self)
        ensures
            r.endianness() == Endianness::BigEndian,
    {
        Self { endianness: Endianness::BigEndian }
    }

    /// A decoder with the given byte order.
    pub fn with_endianness(endianness: Endianness) -> (r: Self)
        ensures
            r.endianness() == endianness,
    {
        Self { endianness }
    }

    /// The bit pattern that the first four bytes hold, or the note that is
    /// shown where there are fewer.
    pub fn decode_bits(&self, data: &[u8]) -> (r: Result<u32, String>)
        ensures
            match r {
                Ok(bits) => data@.len() >= 4 && bits == unsigned_value(data@, 4, self.endianness()),
                Err(note) => data@.len() < 4 && note@ == insufficient_text(data@.len() as int, 4),
            },
    {
        if data.len() < 4 {
            return Err(insufficient(data.len(), 4));
        }
        let v = read_unsigned(data, 4, self.endianness);
        proof {
            lemma_value_bound(data@, 4, self.endianness);
        }
        Ok(v as u32)
    }
}

/// Reads the first eight bytes as the bit pattern of a number in floating
/// point of 64 bits. Turning the pattern into such a number and showing it
/// is left to the caller.
#[derive(Debug, Clone, Copy)]
pub struct DoubleDecoder {
    endianness: Endianness,
}

impl DoubleDecoder {
    /// The byte order of the decoder.
    pub closed spec fn endianness(&self) -> Endianness {
        self.endianness
    }

    /// A decoder that reads the most significant byte first.
    pub fn new() -> (r: Self)
        ensures
            r.endianness() == Endianness::BigEndian,
    {
        Self { endianness: Endianness::BigEndian }
    }

    /// A decoder with the given byte order.
    pub fn with_endianness(endianness: Endianness) -> (r: Self)
        ensures
            r.endianness() == endianness,
    {
        Self { endianness }
    }

    /// The bit pattern that the first eight bytes hold, or the note that
    /// is shown where there are fewer.
    pub fn decode_bits(&self, data: &[u8]) -> (r: Result<u64, String>)
        ensures
            match r {
                Ok(bits) => data@.len() >= 8 && bits == unsigned_value(data@, 8, self.endianness()),
                Err(note) => data@.len() < 8 && note@ == insufficient_text(data@.len() as int, 8),
            },
    {
        if data.len() < 8 {
            return Err(insufficient(data.len(), 8));
        }
        Ok(read_unsigned(data, 8, self.endianness))
    }
}

/// A number without sign of two or four bytes stays below the range of its
/// width.
pub proof fn lemma_value_bound(bytes: Seq<u8>, width: int, endianness: Endianness)
    requires
        width == 2 || width == 4,
        width <= bytes.len(),
    ensures
        0 <= unsigned_value(bytes, width, endianness) < range_of(width),
{
    lemma_big_endian_bound(bytes, width);
    lemma_little_is_reversed_big(bytes, width);
    lemma_big_endian_bound(bytes.take(width).reverse(), width);
}

} // verus!
