//! The decoder that shows the bytes of a message as numbers.

use vstd::prelude::*;
use crate::config::crypto::hex_digit;
use crate::error::DecodeError;
use crate::text::{chars_of, decimal_text, format_integer, string_of};

verus! {

/// The ways in which the bytes can be shown.
#[derive(Debug, Clone, Copy, PartialEq, Eq, Structural)]
pub enum ByteArrayFormat {
    /// Lines of hexadecimal numbers with their offsets, then the bytes as
    /// characters.
    Hex,
    /// Eight binary digits a byte.
    Binary,
    /// Three octal digits a byte.
    Octal,
    /// Decimal numbers with commas between them.
    Decimal,
}

/// The digits of a number in a radix from 2 to 16, without leading zeros.
pub open spec fn radix_digits(n: nat, radix: nat) -> Seq<char>
    decreases n,
    via radix_digits_decreases
{
    if radix < 2 || n < radix {
        seq![hex_digit(n as int)]
    } else {
        radix_digits(n / radix, radix).push(hex_digit((n % radix) as int))
    }
}

#[via_fn]
proof fn radix_digits_decreases(n: nat, radix: nat) {
    if !(radix < 2 || n < radix) {
        assert(n / radix < n) by (nonlinear_arith)
            requires
                radix >= 2,
                n >= radix,
        {
        }
    }
}

/// Digits with zeros put before them up to a width.
pub open spec fn padded(digits: Seq<char>, width: nat) -> Seq<char> {
    if digits.len() >= width {
        digits
    } else {
        Seq::new((width - digits.len()) as nat, |i: int| '0') + digits
    }
}

/// A number in a radix, with zeros before it up to a width.
pub open spec fn number_in(n: nat, radix: nat, width: nat) -> Seq<char> {
    padded(radix_digits(n, radix), width)
}

/// The character that a byte is shown as beside the hexadecimal numbers:
/// itself where it is printable ASCII, a dot where it is not.
pub open spec fn shown_byte(b: u8) -> char {
    if 0x20 <= b <= 0x7e {
        b as char
    } else {
        '.'
    }
}

/// Whether byte `i` starts a line of `per_line` bytes. A width of 0 sets
/// no limit: all bytes stand in one line.
pub open spec fn starts_line(per_line: int, i: int) -> bool {
    if per_line == 0 {
        i == 0
    } else {
        i % per_line == 0
    }
}

/// Whether byte `i` ends the first half of a line of `per_line` bytes. A
/// line of fewer than two bytes has no halves.
pub open spec fn ends_half(per_line: int, i: int) -> bool {
    per_line >= 2 && i % per_line == per_line / 2 - 1
}

/// What byte `i` adds to the lines of hexadecimal numbers: at the start of
/// a line the offset in eight digits, a colon and two spaces, after a line
/// break but in the first line; the byte in two digits and a space; one
/// more space behind the byte that ends the first half of a line.
pub open spec fn hex_piece(bytes: Seq<u8>, per_line: int, i: int) -> Seq<char> {
    (if starts_line(per_line, i) {
        (if i > 0 {
            seq!['\n']
        } else {
            Seq::empty()
        }) + number_in(i as nat, 16, 8) + seq![':', ' ', ' ']
    } else {
        Seq::empty()
    }) + number_in(bytes[i] as nat, 16, 2) + seq![' '] + (if ends_half(per_line, i) {
        seq![' ']
    } else {
        Seq::empty()
    })
}

/// The lines of hexadecimal numbers for the first `upto` bytes.
pub open spec fn hex_pieces(bytes: Seq<u8>, per_line: int, upto: int) -> Seq<char>
    decreases upto,
{
    if upto <= 0 {
        Seq::empty()
    } else {
        hex_pieces(bytes, per_line, upto - 1) + hex_piece(bytes, per_line, upto - 1)
    }
}

/// What byte `i` adds to the lines of characters: the byte as it is shown,
/// after a line break, a space and a bar at the start of every line but
/// the first.
pub open spec fn ascii_piece(bytes: Seq<u8>, per_line: int, i: int) -> Seq<char> {
    (if starts_line(per_line, i) && i > 0 {
        seq!['\n', ' ', '|']
    } else {
        Seq::empty()
    }) + seq![shown_byte(bytes[i])]
}

/// The lines of characters for the first `upto` bytes.
pub open spec fn ascii_pieces(bytes: Seq<u8>, per_line: int, upto: int) -> Seq<char>
    decreases upto,
{
    if upto <= 0 {
        Seq::empty()
    } else {
        ascii_pieces(bytes, per_line, upto - 1) + ascii_piece(bytes, per_line, upto - 1)
    }
}

/// The bytes in lines of hexadecimal numbers, then as characters between
/// bars. No bytes give no text.
pub open spec fn hex_dump(bytes: Seq<u8>, per_line: int) -> Seq<char> {
    if bytes.len() == 0 {
        Seq::empty()
    } else {
        hex_pieces(bytes, per_line, bytes.len() as int) + seq![' ', '|'] + ascii_pieces(
            bytes,
            per_line,
            bytes.len() as int,
        ) + seq!['|']
    }
}

/// A byte as it is shown in a format other than `Hex`.
pub open spec fn item_text(format: ByteArrayFormat, b: u8) -> Seq<char> {
    match format {
        ByteArrayFormat::Binary => number_in(b as nat, 2, 8),
        ByteArrayFormat::Octal => number_in(b as nat, 8, 3),
        _ => decimal_text(b as int),
    }
}

/// What stands between two bytes in a format other than `Hex`.
pub open spec fn separator(format: ByteArrayFormat) -> Seq<char> {
    match format {
        ByteArrayFormat::Decimal => seq![',', ' '],
        _ => seq![' '],
    }
}

/// The first `upto` bytes, each as it is shown, with the separator between
/// each two.
pub open spec fn joined(format: ByteArrayFormat, bytes: Seq<u8>, upto: int) -> Seq<char>
    decreases upto,
{
    if upto <= 0 {
        Seq::empty()
    } else if upto == 1 {
        item_text(format, bytes[0])
    } else {
        joined(format, bytes, upto - 1) + separator(format) + item_text(format, bytes[upto - 1])
    }
}

/// What the decoder shows for the bytes of a message.
pub open spec fn dump(format: ByteArrayFormat, per_line: int, bytes: Seq<u8>) -> Seq<char> {
    match format {
        ByteArrayFormat::Hex => hex_dump(bytes, per_line),
        _ => joined(format, bytes, bytes.len() as int),
    }
}

/// Appends characters.
fn push_all(out: &mut Vec<char>, more: &[char])
    ensures
        final(out)@ == old(out)@ + more@,
{
    let mut i: usize = 0;
    assert(out@ =~= old(out)@ + more@.take(0));
    while i < more.len()
        invariant
            i <= more@.len(),
            out@ == old(out)@ + more@.take(i as int),
        decreases more@.len() - i,
    {
        out.push(more[i]);
        assert(out@ =~= old(out)@ + more@.take(i + 1));
        i += 1;
    }
    assert(more@.take(i as int) =~= more@);
}

/// Appends the digits of a number in a radix.
fn push_radix_digits(out: &mut Vec<char>, n: u64, radix: u64)
    requires
        2 <= radix <= 16,
    ensures
        final(out)@ == old(out)@ + radix_digits(n as nat, radix as nat),
    decreases n,
{
    if n >= radix {
        assert(n / radix < n) by (nonlinear_arith)
            requires
                radix >= 2,
                n >= radix,
        {
        }
        push_radix_digits(out, n / radix, radix);
    }
    let d = n % radix;
    assert(d < radix) by (nonlinear_arith)
        requires
            radix >= 2,
            d == n % radix,
    {
    }
    let c = if d < 10 {
        ((48 + d) as u8) as char
    } else {
        ((87 + d) as u8) as char
    };
    assert(c == hex_digit(d as int));
    let ghost before = out@;
    out.push(c);
    proof {
        if n >= radix {
            let rest = radix_digits((n / radix) as nat, radix as nat);
            let full = radix_digits(n as nat, radix as nat);
            assert((n / radix) as nat == (n as nat) / (radix as nat));
            assert(d as int == ((n as nat) % (radix as nat)) as int);
            assert(full == radix_digits((n as nat) / (radix as nat), radix as nat).push(
                hex_digit(((n as nat) % (radix as nat)) as int),
            ));
            assert(full == rest.push(c));
            assert(before == old(out)@ + rest);
            assert(out@ == before.push(c));
            assert((old(out)@ + rest).push(c) =~= old(out)@ + rest.push(c));
        } else {
            assert(d == n) by (nonlinear_arith)
                requires
                    n < radix,
                    d == n % radix,
            {
            }
            assert(radix_digits(n as nat, radix as nat) == seq![hex_digit(n as int)]);
            assert(out@ =~= old(out)@ + radix_digits(n as nat, radix as nat));
        }
    }
}

/// A number in a radix, with zeros before it up to a width.
fn number_text(n: u64, radix: u64, width: usize) -> (r: Vec<char>)
    requires
        2 <= radix <= 16,
    ensures
        r@ == number_in(n as nat, radix as nat, width as nat),
{
    let mut digits: Vec<char> = Vec::new();
    push_radix_digits(&mut digits, n, radix);
    assert(digits@ =~= radix_digits(n as nat, radix as nat));
    if digits.len() >= width {
        return digits;
    }
    let zeros = width - digits.len();
    let mut r: Vec<char> = Vec::with_capacity(width);
    let mut i: usize = 0;
    while i < zeros
        invariant
            i <= zeros,
            r@ == Seq::new(i as nat, |k: int| '0'),
        decreases zeros - i,
    {
        r.push('0');
        assert(r@ =~= Seq::new((i + 1) as nat, |k: int| '0'));
        i += 1;
    }
    push_all(&mut r, digits.as_slice());
    r
}

/// Whether byte `i` starts a line of `per_line` bytes.
fn is_line_start(per_line: usize, i: usize) -> (r: bool)
    ensures
        r == starts_line(per_line as int, i as int),
{
    if per_line == 0 {
        i == 0
    } else {
        i % per_line == 0
    }
}

/// What byte `i` adds to the lines of hexadecimal numbers.
fn hex_piece_text(data: &[u8], per_line: usize, i: usize) -> (r: Vec<char>)
    requires
        i < data@.len(),
    ensures
        r@ == hex_piece(data@, per_line as int, i as int),
{
    let mut r: Vec<char> = Vec::new();
    if is_line_start(per_line, i) {
        if i > 0 {
            r.push('\n');
        }
        push_all(&mut r, number_text(i as u64, 16, 8).as_slice());
        r.push(':');
        r.push(' ');
        r.push(' ');
    }
    push_all(&mut r, number_text(data[i] as u64, 16, 2).as_slice());
    r.push(' ');
    if per_line >= 2 && i % per_line == per_line / 2 - 1 {
        r.push(' ');
    }
    assert(r@ =~= hex_piece(data@, per_line as int, i as int));
    r
}

/// What byte `i` adds to the lines of characters.
fn ascii_piece_text(data: &[u8], per_line: usize, i: usize) -> (r: Vec<char>)
    requires
        i < data@.len(),
    ensures
        r@ == ascii_piece(data@, per_line as int, i as int),
{
    let mut r: Vec<char> = Vec::new();
    if is_line_start(per_line, i) && i > 0 {
        r.push('\n');
        r.push(' ');
        r.push('|');
    }
    let b = data[i];
    if 0x20 <= b && b <= 0x7e {
        r.push(b as char);
    } else {
        r.push('.');
    }
    assert(r@ =~= ascii_piece(data@, per_line as int, i as int));
    r
}

/// A byte as it is shown in a format other than `Hex`.
fn item(format: ByteArrayFormat, b: u8) -> (r: Vec<char>)
    ensures
        r@ == item_text(format, b),
{
    match format {
        ByteArrayFormat::Binary => number_text(b as u64, 2, 8),
        ByteArrayFormat::Octal => number_text(b as u64, 8, 3),
        _ => chars_of(format_integer(b as i64).as_str()),
    }
}

/// Shows the bytes of a message as numbers.
#[derive(Debug, Clone, Copy)]
pub struct ByteArrayDecoder {
    format: ByteArrayFormat,
    bytes_per_line: usize,
}

impl ByteArrayDecoder {
    /// The format of the decoder.
    pub closed spec fn format(&self) -> ByteArrayFormat {
        self.format
    }

    /// The number of bytes that the decoder shows in a line.
    pub closed spec fn bytes_per_line(&self) -> usize {
        self.bytes_per_line
    }

    /// A decoder that shows hexadecimal numbers, sixteen bytes a line.
    pub fn new() -> (r: Self)
        ensures
            r.format() == ByteArrayFormat::Hex,
            r.bytes_per_line() == 16,
    {
        Self { format: ByteArrayFormat::Hex, bytes_per_line: 16 }
    }

    /// A decoder for the given format, sixteen bytes a line.
    pub fn with_format(format: ByteArrayFormat) -> (r: Self)
        ensures
            r.format() == format,
            r.bytes_per_line() == 16,
    {
        Self { format, bytes_per_line: 16 }
    }

    /// The decoder with the number of bytes a line set. Only the format
    /// `Hex` has lines; there a width of 0 sets no limit.
    pub fn set_bytes_per_line(self, bytes: usize) -> (r: Self)
        ensures
            r.format() == self.format(),
            r.bytes_per_line() == bytes,
    {
        Self { format: self.format, bytes_per_line: bytes }
    }

    /// The bytes as the decoder's format shows them.
    pub fn decode(&self, data: &[u8]) -> (r: Result<String, DecodeError>)
        ensures
            r matches Ok(text) && text@ == dump(
                self.format(),
                self.bytes_per_line() as int,
                data@,
            ),
    {
        match self.format {
            ByteArrayFormat::Hex => self.decode_hex(data),
            ByteArrayFormat::Binary => self.decode_binary(data),
            ByteArrayFormat::Octal => self.decode_octal(data),
            ByteArrayFormat::Decimal => self.decode_decimal(data),
        }
    }

    /// The bytes in lines of hexadecimal numbers, then as characters
    /// between bars.
    pub fn decode_hex(&self, data: &[u8]) -> (r: Result<String, DecodeError>)
        ensures
            r matches Ok(text) && text@ == hex_dump(data@, self.bytes_per_line() as int),
    {
        let per_line = self.bytes_per_line;
        let mut out: Vec<char> = Vec::new();
        let mut i: usize = 0;
        assert(out@ =~= hex_pieces(data@, per_line as int, 0));
        while i < data.len()
            invariant
                i <= data@.len(),
                out@ == hex_pieces(data@, per_line as int, i as int),
            decreases data@.len() - i,
        {
            push_all(&mut out, hex_piece_text(data, per_line, i).as_slice());
            i += 1;
        }
        if data.len() > 0 {
            let ghost numbers = out@;
            out.push(' ');
            out.push('|');
            assert(out@ =~= numbers + seq![' ', '|'] + ascii_pieces(data@, per_line as int, 0));
            let mut i: usize = 0;
            while i < data.len()
                invariant
                    i <= data@.len(),
                    out@ == numbers + seq![' ', '|'] + ascii_pieces(
                        data@,
                        per_line as int,
                        i as int,
                    ),
                decreases data@.len() - i,
            {
                let ghost before = out@;
                push_all(&mut out, ascii_piece_text(data, per_line, i).as_slice());
                assert(out@ =~= numbers + seq![' ', '|'] + ascii_pieces(
                    data@,
                    per_line as int,
                    i + 1,
                ));
                i += 1;
            }
            out.push('|');
        }
        Ok(string_of(out.as_slice()))
    }

    /// The bytes in a format other than `Hex`.
    fn decode_joined(&self, format: ByteArrayFormat, data: &[u8]) -> (r: Result<String, DecodeError>)
        ensures
            r matches Ok(text) && text@ == joined(format, data@, data@.len() as int),
    {
        let mut out: Vec<char> = Vec::new();
        let mut i: usize = 0;
        assert(out@ =~= joined(format, data@, 0));
        while i < data.len()
            invariant
                i <= data@.len(),
                out@ == joined(format, data@, i as int),
            decreases data@.len() - i,
        {
            let ghost before = out@;
            if i > 0 {
                match format {
                    ByteArrayFormat::Decimal => {
                        out.push(',');
                        out.push(' ');
                    },
                    _ => {
                        out.push(' ');
                    },
                }
            }
            assert(out@ =~= before + (if i > 0 {
                separator(format)
            } else {
                Seq::empty()
            }));
            push_all(&mut out, item(format, data[i]).as_slice());
            assert(out@ =~= joined(format, data@, i + 1));
            i += 1;
        }
        Ok(string_of(out.as_slice()))
    }

    /// The bytes in eight binary digits each, with spaces between them.
    pub fn decode_binary(&self, data: &[u8]) -> (r: Result<String, DecodeError>)
        ensures
            r matches Ok(text) && text@ == joined(
                ByteArrayFormat::Binary,
                data@,
                data@.len() as int,
            ),
    {
        self.decode_joined(ByteArrayFormat::Binary, data)
    }

    /// The bytes in three octal digits each, with spaces between them.
    pub fn decode_octal(&self, data: &[u8]) -> (r: Result<String, DecodeError>)
        ensures
            r matches Ok(text) && text@ == joined(ByteArrayFormat::Octal, data@, data@.len() as int),
    {
        self.decode_joined(ByteArrayFormat::Octal, data)
    }

    /// The bytes as decimal numbers, with a comma and a space between them.
    pub fn decode_decimal(&self, data: &[u8]) -> (r: Result<String, DecodeError>)
        ensures
            r matches Ok(text) && text@ == joined(
                ByteArrayFormat::Decimal,
                data@,
                data@.len() as int,
            ),
    {
        self.decode_joined(ByteArrayFormat::Decimal, data)
    }
}

} // verus!
