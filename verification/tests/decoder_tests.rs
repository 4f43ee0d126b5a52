use offset_explorer::decoders::base64_decoder::Base64Decoder;
use offset_explorer::decoders::byte_array_decoder::{ByteArrayDecoder, ByteArrayFormat};
use offset_explorer::decoders::json_decoder::JsonDecoder;
use offset_explorer::decoders::no_key_decoder::NoKeyDecoder;
use offset_explorer::decoders::numeric_decoders::{
    DoubleDecoder, Endianness, FloatDecoder, IntegerDecoder, LongDecoder, ShortDecoder,
};
use offset_explorer::decoders::string_decoder::{Encoding, StringDecoder};
use offset_explorer::decoders::Decoder;
use offset_explorer::decoders::avro_decoder::{AvroDecoder, AvroReading, AvroValue, JsonValue};
use offset_explorer::error::DecodeError;

#[test]
fn test_base64_encode() {
    let decoder = Base64Decoder::new();
    let data = b"Hello";
    let result = decoder.encode(data);
    assert_eq!(result, "SGVsbG8=");
}

#[test]
fn base64_decodes_what_it_encodes() {
    let decoder = Base64Decoder::new();
    assert_eq!(decoder.decode(b"SGVsbG8gV29ybGQh").unwrap(), "Hello World!");
    assert_eq!(decoder.decode(b"SGVsbG8gV29ybGQ=").unwrap(), "Hello World");
    assert_eq!(decoder.decode(b"SGVsbG8=").unwrap(), "Hello");
    let url = Base64Decoder::url_safe();
    assert_eq!(url.encode(&[0xfb, 0xff]), "-_8");
    assert_eq!(decoder.encode(&[0xfb, 0xff]), "+/8=");
    assert_eq!(url.decode(b"-_8=").unwrap(), "\u{fffd}\u{fffd}");
}

#[test]
fn base64_shows_a_note_for_what_is_no_base64() {
    let decoder = Base64Decoder::new();
    let shown = decoder.decode(b"***").unwrap();
    assert!(shown.starts_with("<Invalid Base64: "));
    assert!(shown.ends_with(">"));
    assert!(shown.len() > "<Invalid Base64: >".len());
}

#[test]
fn test_hex_decode() {
    let decoder = ByteArrayDecoder::new();
    let data = &[0x48, 0x65, 0x6C, 0x6C, 0x6F]; // "Hello"
    let result = decoder.decode(data).unwrap();
    assert!(result.contains("48 65 6c 6c 6f"));
    assert!(result.contains("Hello"));
}

#[test]
fn hex_dump_is_exact() {
    let decoder = ByteArrayDecoder::new();
    assert_eq!(decoder.decode(&[]).unwrap(), "");
    assert_eq!(
        decoder.decode(&[0x48, 0x65, 0x6C, 0x6C, 0x6F]).unwrap(),
        "00000000:  48 65 6c 6c 6f  |Hello|"
    );
    let narrow = ByteArrayDecoder::new().set_bytes_per_line(4);
    assert_eq!(
        narrow.decode(&[0x00, 0x41, 0x7f, 0x20, 0xff]).unwrap(),
        "00000000:  00 41  7f 20 \n00000004:  ff  |.A. \n |.|"
    );
}

#[test]
fn test_binary_decode() {
    let decoder = ByteArrayDecoder::with_format(ByteArrayFormat::Binary);
    let data = &[0x01, 0x02, 0x03];
    let result = decoder.decode(data).unwrap();
    assert_eq!(result, "00000001 00000010 00000011");
}

#[test]
fn octal_and_decimal_are_exact() {
    let octal = ByteArrayDecoder::with_format(ByteArrayFormat::Octal);
    assert_eq!(octal.decode(&[0, 8, 255]).unwrap(), "000 010 377");
    let decimal = ByteArrayDecoder::with_format(ByteArrayFormat::Decimal);
    assert_eq!(decimal.decode(&[0, 8, 255]).unwrap(), "0, 8, 255");
    assert_eq!(decimal.decode(&[]).unwrap(), "");
    assert_eq!(decimal.decode(&[7]).unwrap(), "7");
}

#[test]
fn test_json_decode() {
    let decoder = JsonDecoder::new();
    let data = br#"{"name":"test","value":123}"#;
    let result = decoder.decode(data).unwrap();
    assert!(result.contains("name"));
    assert!(result.contains("test"));
}

#[test]
fn test_json_pretty() {
    let decoder = JsonDecoder::new().set_pretty(true);
    let data = br#"{"name":"test","value":123}"#;
    let result = decoder.decode(data).unwrap();
    // Pretty printed JSON should have newlines
    assert!(result.contains('\n'));
}

#[test]
fn json_compact_and_refusal() {
    let compact = JsonDecoder::new().set_pretty(false);
    assert_eq!(compact.decode(b"{ \"a\" : [1, 2] }").unwrap(), "{\"a\":[1,2]}");
    assert_eq!(JsonDecoder::new().decode(b"[1]").unwrap(), "[\n  1\n]");
    assert_eq!(compact.decode(b"{oops"), Err(DecodeError::InvalidJson));
    assert!(compact.decode_value(b"{oops").is_err());
    let value = compact.decode_value(b"[true]").unwrap();
    assert_eq!(value, serde_json::Value::Array(vec![serde_json::Value::Bool(true)]));
    assert_eq!(compact.write_value(&value).unwrap(), "[true]");
}

#[test]
fn test_integer_decode() {
    let decoder = IntegerDecoder::new();
    // 1000 in big-endian bytes
    let data = &[0x00, 0x00, 0x03, 0xE8];
    let result = decoder.decode(data).unwrap();
    assert_eq!(result, "1000");
}

#[test]
fn numbers_are_read_in_both_orders_and_with_sign() {
    let little = IntegerDecoder::with_endianness(Endianness::LittleEndian);
    assert_eq!(little.decode(&[0xE8, 0x03, 0x00, 0x00]).unwrap(), "1000");
    assert_eq!(IntegerDecoder::new().decode(&[0xFF, 0xFF, 0xFF, 0xFF]).unwrap(), "-1");
    assert_eq!(IntegerDecoder::new().decode(&[0x80, 0, 0, 0, 9]).unwrap(), "-2147483648");
    assert_eq!(IntegerDecoder::new().decode(&[1, 2, 3]).unwrap(), "<Insufficient data: 3 bytes, need 4>");
    assert_eq!(ShortDecoder::new().decode(&[0x80, 0x00]).unwrap(), "-32768");
    assert_eq!(ShortDecoder::with_endianness(Endianness::LittleEndian).decode(&[0x01, 0x02]).unwrap(), "513");
    assert_eq!(ShortDecoder::new().decode(&[]).unwrap(), "<Insufficient data: 0 bytes, need 2>");
    assert_eq!(LongDecoder::new().decode(&[0x80, 0, 0, 0, 0, 0, 0, 0]).unwrap(), "-9223372036854775808");
    assert_eq!(LongDecoder::new().decode(&[0x7F, 0xFF, 0xFF, 0xFF, 0xFF, 0xFF, 0xFF, 0xFF]).unwrap(), "9223372036854775807");
    assert_eq!(
        LongDecoder::with_endianness(Endianness::LittleEndian).decode(&[1, 0, 0, 0, 0, 0, 0, 0]).unwrap(),
        "1"
    );
    assert_eq!(LongDecoder::new().decode(&[0; 7]).unwrap(), "<Insufficient data: 7 bytes, need 8>");
}

#[test]
fn test_float_decode() {
    let decoder = FloatDecoder::new();
    // 3.14 as IEEE 754 big-endian
    let data = &[0x40, 0x48, 0xF5, 0xC3];
    let result = f32::from_bits(decoder.decode_bits(data).unwrap()).to_string();
    assert!(result.starts_with("3.14"));
}

#[test]
fn bit_patterns_are_read_in_both_orders() {
    assert_eq!(FloatDecoder::new().decode_bits(&[0x40, 0x48, 0xF5, 0xC3]), Ok(0x4048F5C3));
    assert_eq!(
        FloatDecoder::with_endianness(Endianness::LittleEndian).decode_bits(&[0xC3, 0xF5, 0x48, 0x40]),
        Ok(0x4048F5C3)
    );
    assert_eq!(
        FloatDecoder::new().decode_bits(&[1]),
        Err("<Insufficient data: 1 bytes, need 4>".to_string())
    );
    let bits = DoubleDecoder::new().decode_bits(&[0x40, 0x09, 0x21, 0xFB, 0x54, 0x44, 0x2D, 0x18]).unwrap();
    assert_eq!(bits, 0x400921FB54442D18);
    assert_eq!(f64::from_bits(bits), std::f64::consts::PI);
    assert_eq!(
        DoubleDecoder::with_endianness(Endianness::LittleEndian)
            .decode_bits(&[0x18, 0x2D, 0x44, 0x54, 0xFB, 0x21, 0x09, 0x40]),
        Ok(0x400921FB54442D18)
    );
    assert_eq!(
        DoubleDecoder::new().decode_bits(&[0; 3]),
        Err("<Insufficient data: 3 bytes, need 8>".to_string())
    );
}

#[test]
fn test_utf8_decode() {
    let decoder = StringDecoder::new();
    let data = "Hello, 世界!".as_bytes();
    let result = decoder.decode(data).unwrap();
    assert_eq!(result, "Hello, 世界!");
}

#[test]
fn test_auto_decode() {
    let decoder = StringDecoder::new();
    let utf8_data = "Hello".as_bytes();
    let result = decoder.decode_auto(utf8_data).unwrap();
    assert_eq!(result, "Hello");
}

#[test]
fn test_invalid_utf8() {
    let decoder = StringDecoder::new();
    let invalid_utf8 = &[0xFF, 0xFE, 0xFD];
    let result = decoder.decode(invalid_utf8);
    assert!(result.is_ok());
    assert!(result.unwrap().contains("�"));
}

#[test]
fn other_encodings_are_exact() {
    let le = StringDecoder::with_encoding(Encoding::Utf16Le);
    assert_eq!(le.decode(&[0x48, 0x00, 0x69, 0x00, 0x21]).unwrap(), "Hi");
    let be = StringDecoder::with_encoding(Encoding::Utf16Be);
    assert_eq!(be.decode(&[0x00, 0x48, 0x4E, 0x16]).unwrap(), "H世");
    assert_eq!(be.decode(&[0xD8, 0x00]).unwrap(), "\u{fffd}");
    let latin = StringDecoder::with_encoding(Encoding::Iso88591);
    assert_eq!(latin.decode(&[0x41, 0xE9, 0xFF]).unwrap(), "Aéÿ");
    let gbk = StringDecoder::with_encoding(Encoding::Gbk);
    assert_eq!(gbk.decode(&[1, 2, 3]).unwrap(), "<GBK encoding not yet implemented, 3 bytes>");
}

#[test]
fn guessing_tries_utf16_before_it_gives_up() {
    let decoder = StringDecoder::new();
    // Not UTF-8, but UTF-16 with the low byte first.
    assert_eq!(decoder.decode_auto(&[0xE9, 0x00, 0x41, 0x00]).unwrap(), "éA");
    // Not UTF-8, a lone surrogate with the low byte first, but UTF-16 with the high byte first.
    assert_eq!(decoder.decode_auto(&[0x00, 0xD8, 0xFF, 0x41]).unwrap(), "\u{d8}\u{ff41}");
    // An odd number of bytes that is not UTF-8.
    assert_eq!(decoder.decode_auto(&[0xFF, 0x41, 0x42]).unwrap(), "\u{fffd}AB");
    assert_eq!(decoder.decode_auto(&[]).unwrap(), "");
}

#[test]
fn decoders_answer_to_their_names() {
    let decoders: Vec<Box<dyn Decoder>> = vec![
        Box::new(StringDecoder::new()),
        Box::new(ByteArrayDecoder::new()),
        Box::new(NoKeyDecoder),
        Box::new(JsonDecoder::new()),
        Box::new(IntegerDecoder::new()),
        Box::new(LongDecoder::new()),
        Box::new(ShortDecoder::new()),
        Box::new(Base64Decoder::new()),
    ];
    let names: Vec<&str> = decoders.iter().map(|d| d.name()).collect();
    assert_eq!(names, vec!["String", "ByteArray", "NoKey", "JSON", "Integer", "Long", "Short", "Base64"]);
    assert_eq!(decoders[2].decode(b"anything").unwrap(), "<no key>");
    assert_eq!(decoders[4].decode(&[0, 0, 0, 5]).unwrap(), "5");
    assert_eq!(AvroDecoder::new().get_schema(), None);
    assert_eq!(AvroDecoder::with_schema("\"long\"".to_string()).get_schema(), Some(&"\"long\"".to_string()));
}

#[test]
fn avro_values_are_shown_as_json() {
    let decoder = AvroDecoder::new();
    let show = |v: AvroValue| decoder.datum_to_json(&v);
    assert_eq!(show(AvroValue::Null), JsonValue::Null);
    assert_eq!(show(AvroValue::Boolean(true)), JsonValue::Bool(true));
    assert_eq!(show(AvroValue::Int(-7)), JsonValue::Integer(-7));
    assert_eq!(show(AvroValue::Long(i64::MIN)), JsonValue::Integer(i64::MIN));
    assert_eq!(show(AvroValue::String("s".to_string())), JsonValue::String("s".to_string()));
    assert_eq!(show(AvroValue::Bytes(b"Hello".to_vec())), JsonValue::String("SGVsbG8=".to_string()));
    assert_eq!(show(AvroValue::Fixed(vec![0xfb, 0xff])), JsonValue::String("+/8=".to_string()));
    assert_eq!(show(AvroValue::Union(Box::new(AvroValue::Int(3)))), JsonValue::Integer(3));
    assert_eq!(show(AvroValue::Enum("12".to_string())), JsonValue::Integer(12));
    assert_eq!(show(AvroValue::Enum("SPADES".to_string())), JsonValue::Integer(0));
    assert_eq!(show(AvroValue::Other("Date(3)".to_string())), JsonValue::String("Date(3)".to_string()));
}

#[test]
fn numbers_in_floating_point_are_named_where_they_are_not_finite() {
    let decoder = AvroDecoder::new();
    let nan = JsonValue::String("NaN".to_string());
    let infinity = JsonValue::String("Infinity".to_string());
    for value in [0.0f32, -0.0, 1.5, f32::MAX, f32::MIN_POSITIVE, -3.14e-30] {
        assert_eq!(
            decoder.datum_to_json(&AvroValue::Float(value.to_bits())),
            JsonValue::Single(value.to_bits())
        );
    }
    assert_eq!(decoder.datum_to_json(&AvroValue::Float(f32::NAN.to_bits())), nan);
    assert_eq!(decoder.datum_to_json(&AvroValue::Float(f32::INFINITY.to_bits())), infinity);
    assert_eq!(decoder.datum_to_json(&AvroValue::Float(f32::NEG_INFINITY.to_bits())), infinity);
    for value in [0.0f64, 2.5, f64::MAX, f64::MIN_POSITIVE, -1e-300] {
        assert_eq!(
            decoder.datum_to_json(&AvroValue::Double(value.to_bits())),
            JsonValue::Double(value.to_bits())
        );
    }
    assert_eq!(decoder.datum_to_json(&AvroValue::Double(f64::NAN.to_bits())), nan);
    assert_eq!(decoder.datum_to_json(&AvroValue::Double((-f64::NAN).to_bits())), nan);
    assert_eq!(decoder.datum_to_json(&AvroValue::Double(f64::INFINITY.to_bits())), infinity);
    assert_eq!(decoder.datum_to_json(&AvroValue::Double(f64::NEG_INFINITY.to_bits())), infinity);
}

#[test]
fn nested_avro_values_are_shown_part_by_part() {
    let decoder = AvroDecoder::new();
    let value = AvroValue::Dict(vec![
        ("list".to_string(), AvroValue::Array(vec![
            AvroValue::Int(1),
            AvroValue::Union(Box::new(AvroValue::Null)),
            AvroValue::Array(vec![]),
        ])),
        ("inner".to_string(), AvroValue::Dict(vec![("x".to_string(), AvroValue::Float(f32::NAN.to_bits()))])),
    ]);
    let expected = JsonValue::Object(vec![
        ("list".to_string(), JsonValue::Array(vec![
            JsonValue::Integer(1),
            JsonValue::Null,
            JsonValue::Array(vec![]),
        ])),
        ("inner".to_string(), JsonValue::Object(vec![("x".to_string(), JsonValue::String("NaN".to_string()))])),
    ]);
    assert_eq!(decoder.datum_to_json(&value), expected);
    assert_eq!(decoder.datum_to_json(&AvroValue::Dict(vec![])), JsonValue::Object(vec![]));
}

struct Reversed;

impl Decoder for Reversed {
    fn decode(&self, data: &[u8]) -> Result<String, DecodeError> {
        Ok(data.iter().rev().map(|b| *b as char).collect())
    }
}

#[test]
fn a_decoder_without_a_name_is_unnamed() {
    assert_eq!(Reversed.name(), "Unnamed");
    assert_eq!(Reversed.decode(b"abc").unwrap(), "cba");
    let through: &dyn Decoder = &JsonDecoder::new().set_pretty(false);
    assert_eq!(through.name(), "JSON");
    assert_eq!(through.decode(b" [ 1 , 2 ] ").unwrap(), "[1,2]");
    assert_eq!(through.decode(b"[1,"), Err(DecodeError::InvalidJson));
    let text: &dyn Decoder = &StringDecoder::new();
    assert_eq!(text.decode(b"plain").unwrap(), "plain");
}

#[test]
fn test_base64_decode() {
    let decoder = Base64Decoder::new();
    // The sixteen digits stand for twelve bytes, the exclamation mark among them.
    let data = b"SGVsbG8gV29ybGQh";
    let result = decoder.decode(data).unwrap();
    assert_eq!(result, "Hello World!");
}

#[test]
fn only_the_hex_format_has_lines() {
    let decimal = ByteArrayDecoder::with_format(ByteArrayFormat::Decimal).set_bytes_per_line(1);
    assert_eq!(decimal.decode(&[1, 2, 255]).unwrap(), "1, 2, 255");
    let binary = ByteArrayDecoder::with_format(ByteArrayFormat::Binary).set_bytes_per_line(0);
    assert_eq!(binary.decode(&[1, 2]).unwrap(), "00000001 00000010");
    // One byte a line: a line of one byte has no halves.
    let single = ByteArrayDecoder::new().set_bytes_per_line(1);
    assert_eq!(
        single.decode(b"AB").unwrap(),
        "00000000:  41 \n00000001:  42  |A\n |B|"
    );
    // A width of 0 sets no limit.
    let unlimited = ByteArrayDecoder::new().set_bytes_per_line(0);
    assert_eq!(unlimited.decode(b"ABC").unwrap(), "00000000:  41 42 43  |ABC|");
    assert_eq!(unlimited.decode(b"").unwrap(), "");
    let pairs = ByteArrayDecoder::new().set_bytes_per_line(2);
    assert_eq!(
        pairs.decode(b"ABC").unwrap(),
        "00000000:  41  42 \n00000002:  43   |AB\n |C|"
    );
}

#[test]
fn the_avro_decoder_chooses_its_reading() {
    let bare = AvroDecoder::new();
    let schooled = AvroDecoder::with_schema("\"long\"".to_string());
    assert_eq!(bare.reading(b""), AvroReading::Nothing);
    assert_eq!(schooled.reading(b""), AvroReading::Nothing);
    assert_eq!(bare.reading(&[2]), AvroReading::Raw);
    assert_eq!(schooled.reading(&[2]), AvroReading::WithSchema);
}
