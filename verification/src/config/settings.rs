//! Typed settings: the kinds of value a setting can hold, how a value is
//! written as text and read back, and the registry that keeps them by key.

use vstd::prelude::*;
use crate::config::xml::{
    attribute_value, document_text, nodes_view, parsed, read_document, schema, schemas_view,
    write_document, TagSchema, TagSchemaView, XmlAttributeView, XmlElement, XmlElementView,
    XmlNode, XmlNodeView,
};
use crate::error::ConfigError;
use vstd::utf8::encode_utf8;
use crate::text::{
    ascii_lower, chars_of, compare_text, decimal_text, eq_ignore_ascii_case, format_integer,
    is_digit, lemma_lex_flip, lemma_lex_transitive, lemma_text_order_equal, parse_decimal,
    format_bool, parse_bool, parse_integer, parse_strict_bool, same_ignoring_ascii_case,
    string_of, text_eq, text_order, to_ascii_lower,
};

verus! {

/// The kind of value a setting holds. Each kind has a code from 1 to 6 under
/// which it is written to a file.
#[derive(Debug, Clone, Copy, PartialEq, Eq, Structural)]
pub enum SettingDataType {
    Integer,
    Long,
    Double,
    String,
    Boolean,
    Color,
}

impl SettingDataType {
    /// The code of the kind.
    pub open spec fn code(self) -> int {
        match self {
            SettingDataType::Integer => 1,
            SettingDataType::Long => 2,
            SettingDataType::Double => 3,
            SettingDataType::String => 4,
            SettingDataType::Boolean => 5,
            SettingDataType::Color => 6,
        }
    }

    /// The English name of the kind.
    pub open spec fn name(self) -> Seq<char> {
        match self {
            SettingDataType::Integer => "Integer"@,
            SettingDataType::Long => "Long"@,
            SettingDataType::Double => "Double"@,
            SettingDataType::String => "String"@,
            SettingDataType::Boolean => "Boolean"@,
            SettingDataType::Color => "Color"@,
        }
    }

    /// The kind with the given code; codes other than 1 to 6 are refused.
    pub fn from_i32(value: i32) -> (r: Result<Self, ConfigError>)
        ensures
            1 <= value <= 6 ==> r is Ok && r->Ok_0.code() == value,
            !(1 <= value <= 6) ==> r == Err::<Self, ConfigError>(ConfigError::UnknownDataType),
    {
        match value {
            1 => Ok(SettingDataType::Integer),
            2 => Ok(SettingDataType::Long),
            3 => Ok(SettingDataType::Double),
            4 => Ok(SettingDataType::String),
            5 => Ok(SettingDataType::Boolean),
            6 => Ok(SettingDataType::Color),
            _ => Err(ConfigError::UnknownDataType),
        }
    }

    /// The code of the kind.
    pub fn as_i32(&self) -> (r: i32)
        ensures
            r == self.code(),
    {
        match self {
            SettingDataType::Integer => 1,
            SettingDataType::Long => 2,
            SettingDataType::Double => 3,
            SettingDataType::String => 4,
            SettingDataType::Boolean => 5,
            SettingDataType::Color => 6,
        }
    }

    /// The English name of the kind.
    pub fn as_str(&self) -> (r: &'static str)
        ensures
            r@ == self.name(),
    {
        match self {
            SettingDataType::Integer => "Integer",
            SettingDataType::Long => "Long",
            SettingDataType::Double => "Double",
            SettingDataType::String => "String",
            SettingDataType::Boolean => "Boolean",
            SettingDataType::Color => "Color",
        }
    }
}

/// The value of a setting. A `Double` holds the number as the decimal text
/// it was given in, checked against the grammar of floating-point literals;
/// arithmetic on it is left to the caller.
#[derive(Debug, Clone)]
pub enum SettingValue {
    Integer(i32),
    Long(i64),
    Double(String),
    String(String),
    Boolean(bool),
    Color { r: u8, g: u8, b: u8 },
}

/// A setting's value as a mathematical value.
pub enum SettingValueView {
    Integer(i32),
    Long(i64),
    Double(Seq<char>),
    Text(Seq<char>),
    Boolean(bool),
    Color(u8, u8, u8),
}

impl View for SettingValue {
    type V = SettingValueView;

    open spec fn view(&self) -> SettingValueView {
        match *self {
            SettingValue::Integer(i) => SettingValueView::Integer(i),
            SettingValue::Long(l) => SettingValueView::Long(l),
            SettingValue::Double(d) => SettingValueView::Double(d@),
            SettingValue::String(s) => SettingValueView::Text(s@),
            SettingValue::Boolean(b) => SettingValueView::Boolean(b),
            SettingValue::Color { r, g, b } => SettingValueView::Color(r, g, b),
        }
    }
}

/// The kind of a value.
pub open spec fn kind_of(value: SettingValueView) -> SettingDataType {
    match value {
        SettingValueView::Integer(_) => SettingDataType::Integer,
        SettingValueView::Long(_) => SettingDataType::Long,
        SettingValueView::Double(_) => SettingDataType::Double,
        SettingValueView::Text(_) => SettingDataType::String,
        SettingValueView::Boolean(_) => SettingDataType::Boolean,
        SettingValueView::Color(_, _, _) => SettingDataType::Color,
    }
}

/// The text under which a value is written to a file.
pub open spec fn value_text(value: SettingValueView) -> Seq<char> {
    match value {
        SettingValueView::Integer(i) => decimal_text(i as int),
        SettingValueView::Long(l) => decimal_text(l as int),
        SettingValueView::Double(d) => d,
        SettingValueView::Text(s) => s,
        SettingValueView::Boolean(b) => if b {
            "true"@
        } else {
            "false"@
        },
        SettingValueView::Color(r, g, b) => decimal_text(r as int) + seq![','] + decimal_text(
            g as int,
        ) + seq![','] + decimal_text(b as int),
    }
}

/// The place of the first character from `from` on that is no digit.
pub open spec fn digits_end(s: Seq<char>, from: int) -> int
    decreases s.len() - from,
{
    if 0 <= from < s.len() && is_digit(s[from]) {
        digits_end(s, from + 1)
    } else {
        from
    }
}

/// A number without sign: digits with at most one point among them, at
/// least one digit in all, then optionally `e` or `E`, an optional sign and
/// at least one digit.
pub open spec fn is_number_text(s: Seq<char>) -> bool {
    let a = digits_end(s, 0);
    let has_point = a < s.len() && s[a] == '.';
    let b = if has_point {
        digits_end(s, a + 1)
    } else {
        a
    };
    let mantissa = if has_point {
        b - 1
    } else {
        a
    };
    let has_exponent = b < s.len() && (s[b] == 'e' || s[b] == 'E');
    let c = if b + 1 < s.len() && (s[b + 1] == '+' || s[b + 1] == '-') {
        b + 2
    } else {
        b + 1
    };
    let d = digits_end(s, c);
    &&& mantissa > 0
    &&& if has_exponent {
        d == s.len() && d > c
    } else {
        b == s.len()
    }
}

/// A floating-point literal: an optional sign, then a number or one of
/// `inf`, `infinity`, `nan` in any case.
pub open spec fn is_double_text(s: Seq<char>) -> bool {
    let body = if s.len() > 0 && (s[0] == '+' || s[0] == '-') {
        s.drop_first()
    } else {
        s
    };
    ||| same_ignoring_ascii_case(body, "inf"@)
    ||| same_ignoring_ascii_case(body, "infinity"@)
    ||| same_ignoring_ascii_case(body, "nan"@)
    ||| is_number_text(body)
}

/// What reading `s` as a truth value gives: `true` and `false` in any case,
/// `1` and `0`.
pub open spec fn parse_truth(s: Seq<char>) -> Option<bool> {
    if same_ignoring_ascii_case(s, "true"@) || s == "1"@ {
        Some(true)
    } else if same_ignoring_ascii_case(s, "false"@) || s == "0"@ {
        Some(false)
    } else {
        None
    }
}

/// The place of the first comma from `from` on, or the length where there
/// is none.
pub open spec fn comma_at(s: Seq<char>, from: int) -> int
    decreases s.len() - from,
{
    if 0 <= from < s.len() && s[from] != ',' {
        comma_at(s, from + 1)
    } else {
        from
    }
}

/// What reading `s` as a colour gives: three numbers from 0 to 255 with
/// one comma between each two.
pub open spec fn parse_color(s: Seq<char>) -> Option<(u8, u8, u8)> {
    let p = comma_at(s, 0);
    let q = comma_at(s, p + 1);
    let end = comma_at(s, q + 1);
    if p < s.len() && q < s.len() && end == s.len() {
        let r = parse_decimal(s.subrange(0, p), 0, 255);
        let g = parse_decimal(s.subrange(p + 1, q), 0, 255);
        let b = parse_decimal(s.subrange(q + 1, s.len() as int), 0, 255);
        if r is Some && g is Some && b is Some {
            Some((r->0 as u8, g->0 as u8, b->0 as u8))
        } else {
            None
        }
    } else {
        None
    }
}

/// What reading `s` as a value of the given kind gives.
pub open spec fn parse_value(s: Seq<char>, data_type: SettingDataType) -> Option<
    SettingValueView,
> {
    match data_type {
        SettingDataType::Integer => match parse_decimal(s, i32::MIN as int, i32::MAX as int) {
            Some(v) => Some(SettingValueView::Integer(v as i32)),
            None => None,
        },
        SettingDataType::Long => match parse_decimal(s, i64::MIN as int, i64::MAX as int) {
            Some(v) => Some(SettingValueView::Long(v as i64)),
            None => None,
        },
        SettingDataType::Double => if is_double_text(s) {
            Some(SettingValueView::Double(s))
        } else {
            None
        },
        SettingDataType::String => Some(SettingValueView::Text(s)),
        SettingDataType::Boolean => match parse_truth(s) {
            Some(b) => Some(SettingValueView::Boolean(b)),
            None => None,
        },
        SettingDataType::Color => match parse_color(s) {
            Some((r, g, b)) => Some(SettingValueView::Color(r, g, b)),
            None => None,
        },
    }
}

/// Finds the end of the run of digits that starts at `from`.
fn scan_digits(chars: &[char], from: usize) -> (end: usize)
    requires
        from <= chars@.len(),
    ensures
        end == digits_end(chars@, from as int),
        from <= end <= chars@.len(),
    decreases chars@.len() - from,
{
    if from < chars.len() && '0' <= chars[from] && chars[from] <= '9' {
        scan_digits(chars, from + 1)
    } else {
        from
    }
}

/// Finds the first comma at or after `from`.
fn scan_comma(chars: &[char], from: usize) -> (end: usize)
    requires
        from <= chars@.len(),
    ensures
        end == comma_at(chars@, from as int),
        from <= end <= chars@.len(),
    decreases chars@.len() - from,
{
    if from < chars.len() && chars[from] != ',' {
        scan_comma(chars, from + 1)
    } else {
        from
    }
}

/// Whether the characters from `start` on are `word` but for the case of
/// ASCII letters.
fn is_word(chars: &[char], start: usize, word: &str) -> (r: bool)
    requires
        start <= chars@.len(),
    ensures
        r == same_ignoring_ascii_case(chars@.skip(start as int), word@),
{
    let w = chars_of(word);
    let n = chars.len();
    if n - start != w.len() {
        return false;
    }
    let ghost body = chars@.skip(start as int);
    let mut i: usize = 0;
    while i < w.len()
        invariant
            w@ == word@,
            start + w@.len() == n,
            n == chars@.len(),
            body == chars@.skip(start as int),
            i <= w@.len(),
            forall|j: int| 0 <= j < i ==> ascii_lower(#[trigger] body[j]) == ascii_lower(w@[j]),
        decreases w@.len() - i,
    {
        if to_ascii_lower(chars[start + i]) != to_ascii_lower(w[i]) {
            assert(body[i as int] == chars@[start + i]);
            return false;
        }
        assert(body[i as int] == chars@[start + i]);
        i += 1;
    }
    true
}

/// Whether the text is a floating-point literal.
pub fn is_double_literal(text: &str) -> (r: bool)
    ensures
        r == is_double_text(text@),
{
    let chars = chars_of(text);
    let n = chars.len();
    let start: usize = if n > 0 && (chars[0] == '+' || chars[0] == '-') {
        1
    } else {
        0
    };
    let ghost body = chars@.skip(start as int);
    assert(body =~= (if start == 1 {
        text@.drop_first()
    } else {
        text@
    }));
    if is_word(chars.as_slice(), start, "inf") || is_word(chars.as_slice(), start, "infinity")
        || is_word(chars.as_slice(), start, "nan") {
        return true;
    }
    let rest = slice_from(chars.as_slice(), start);
    assert(rest@ == body);
    let r = is_number(rest.as_slice());
    r
}

/// The characters from `start` on.
fn slice_from(chars: &[char], start: usize) -> (out: Vec<char>)
    requires
        start <= chars@.len(),
    ensures
        out@ == chars@.skip(start as int),
{
    slice_between(chars, start, chars.len())
}

/// The characters from `start` up to `end`.
fn slice_between(chars: &[char], start: usize, end: usize) -> (out: Vec<char>)
    requires
        start <= end <= chars@.len(),
    ensures
        out@ == chars@.subrange(start as int, end as int),
{
    let mut out: Vec<char> = Vec::with_capacity(end - start);
    let mut i: usize = start;
    while i < end
        invariant
            start <= i <= end,
            end <= chars@.len(),
            out@ == chars@.subrange(start as int, i as int),
        decreases end - i,
    {
        out.push(chars[i]);
        assert(out@ =~= chars@.subrange(start as int, i + 1));
        i += 1;
    }
    out
}

/// Whether the characters are a number without sign.
fn is_number(chars: &[char]) -> (r: bool)
    ensures
        r == is_number_text(chars@),
{
    let n = chars.len();
    let a = scan_digits(chars, 0);
    let has_point = a < n && chars[a] == '.';
    let b = if has_point {
        scan_digits(chars, a + 1)
    } else {
        a
    };
    let mantissa = if has_point {
        b - 1
    } else {
        a
    };
    if mantissa == 0 {
        return false;
    }
    let has_exponent = b < n && (chars[b] == 'e' || chars[b] == 'E');
    if !has_exponent {
        return b == n;
    }
    let c = if b + 1 < n && (chars[b + 1] == '+' || chars[b + 1] == '-') {
        b + 2
    } else {
        b + 1
    };
    let d = scan_digits(chars, c);
    d == n && d > c
}

/// Reads a truth value: `true` and `false` in any case, `1` and `0`.
pub fn parse_lenient_bool(text: &str) -> (r: Option<bool>)
    ensures
        r == parse_truth(text@),
{
    if eq_ignore_ascii_case(text, "true") || text_eq(text, "1") {
        Some(true)
    } else if eq_ignore_ascii_case(text, "false") || text_eq(text, "0") {
        Some(false)
    } else {
        None
    }
}

/// Reads one part of a colour.
fn parse_channel(chars: &[char], start: usize, end: usize) -> (r: Option<u8>)
    requires
        start <= end <= chars@.len(),
    ensures
        match r {
            Some(v) => parse_decimal(chars@.subrange(start as int, end as int), 0, 255) == Some(
                v as int,
            ),
            None => parse_decimal(chars@.subrange(start as int, end as int), 0, 255) is None,
        },
{
    let part = slice_between(chars, start, end);
    let text = string_of(part.as_slice());
    match parse_integer(text.as_str(), 0, 255) {
        Some(v) => Some(v as u8),
        None => None,
    }
}

/// Reads a colour: three numbers from 0 to 255 with commas between them.
pub fn parse_color_text(text: &str) -> (r: Option<(u8, u8, u8)>)
    ensures
        r == parse_color(text@),
{
    let chars = chars_of(text);
    let n = chars.len();
    let p = scan_comma(chars.as_slice(), 0);
    if p >= n {
        return None;
    }
    let q = scan_comma(chars.as_slice(), p + 1);
    if q >= n {
        return None;
    }
    let end = scan_comma(chars.as_slice(), q + 1);
    if end != n {
        return None;
    }
    let r = parse_channel(chars.as_slice(), 0, p);
    let g = parse_channel(chars.as_slice(), p + 1, q);
    let b = parse_channel(chars.as_slice(), q + 1, n);
    match (r, g, b) {
        (Some(r), Some(g), Some(b)) => Some((r, g, b)),
        _ => None,
    }
}

impl SettingValue {
    /// The kind of the value.
    pub fn data_type(&self) -> (r: SettingDataType)
        ensures
            r == kind_of(self@),
    {
        match self {
            SettingValue::Integer(_) => SettingDataType::Integer,
            SettingValue::Long(_) => SettingDataType::Long,
            SettingValue::Double(_) => SettingDataType::Double,
            SettingValue::String(_) => SettingDataType::String,
            SettingValue::Boolean(_) => SettingDataType::Boolean,
            SettingValue::Color { .. } => SettingDataType::Color,
        }
    }

    /// The text under which the value is written to a file.
    pub fn to_xml_string(&self) -> (r: String)
        ensures
            r@ == value_text(self@),
    {
        match self {
            SettingValue::Integer(i) => format_integer(*i as i64),
            SettingValue::Long(l) => format_integer(*l),
            SettingValue::Double(d) => d.clone(),
            SettingValue::String(s) => s.clone(),
            SettingValue::Boolean(b) => if *b {
                "true".to_owned()
            } else {
                "false".to_owned()
            },
            SettingValue::Color { r, g, b } => {
                let mut out = format_integer(*r as i64);
                out.append(",");
                out.append(format_integer(*g as i64).as_str());
                out.append(",");
                out.append(format_integer(*b as i64).as_str());
                proof {
                    reveal_strlit(",");
                    assert(","@ =~= seq![',']);
                }
                out
            },
        }
    }

    /// Reads a value of the given kind from its text. A text that is no
    /// value of that kind is refused as unparsable.
    pub fn from_string(s: &str, data_type: SettingDataType) -> (r: Result<Self, ConfigError>)
        ensures
            match r {
                Ok(value) => parse_value(s@, data_type) == Some(value@),
                Err(e) => e == ConfigError::UnparsableValue && parse_value(s@, data_type) is None,
            },
    {
        match data_type {
            SettingDataType::Integer => match parse_integer(s, i32::MIN as i64, i32::MAX as i64) {
                Some(v) => Ok(SettingValue::Integer(v as i32)),
                None => Err(ConfigError::UnparsableValue),
            },
            SettingDataType::Long => match parse_integer(s, i64::MIN, i64::MAX) {
                Some(v) => Ok(SettingValue::Long(v)),
                None => Err(ConfigError::UnparsableValue),
            },
            SettingDataType::Double => if is_double_literal(s) {
                Ok(SettingValue::Double(s.to_owned()))
            } else {
                Err(ConfigError::UnparsableValue)
            },
            SettingDataType::String => Ok(SettingValue::String(s.to_owned())),
            SettingDataType::Boolean => match parse_lenient_bool(s) {
                Some(b) => Ok(SettingValue::Boolean(b)),
                None => Err(ConfigError::UnparsableValue),
            },
            SettingDataType::Color => match parse_color_text(s) {
                Some((r, g, b)) => Ok(SettingValue::Color { r, g, b }),
                None => Err(ConfigError::UnparsableValue),
            },
        }
    }
}

/// One setting: a key, its value, whether it may change while the program
/// runs, and whether it is written to the settings file. The kind of a
/// setting is the kind of its value, so the two cannot disagree.
#[derive(Debug, Clone)]
pub struct Setting {
    pub key: String,
    pub value: SettingValue,
    pub dynamic: bool,
    pub persisted: bool,
}

/// A setting as a mathematical value.
pub struct SettingView {
    pub key: Seq<char>,
    pub value: SettingValueView,
    pub dynamic: bool,
    pub persisted: bool,
}

impl View for Setting {
    type V = SettingView;

    open spec fn view(&self) -> SettingView {
        SettingView {
            key: self.key@,
            value: self.value@,
            dynamic: self.dynamic,
            persisted: self.persisted,
        }
    }
}

impl Setting {
    /// A setting with the given parts.
    pub fn new(key: String, value: SettingValue, dynamic: bool, persisted: bool) -> (r: Self)
        ensures
            r@ == (SettingView { key: key@, value: value@, dynamic, persisted }),
    {
        Setting { key, value, dynamic, persisted }
    }

    /// The kind of the setting's value.
    pub fn data_type(&self) -> (r: SettingDataType)
        ensures
            r == kind_of(self@.value),
    {
        self.value.data_type()
    }
}

/// The keys rise strictly from each entry to the next.
pub open spec fn sorted_by_key(entries: Seq<SettingView>) -> bool {
    forall|i: int, j: int|
        #![trigger entries[i], entries[j]]
        0 <= i < j < entries.len() ==> text_order(entries[i].key, entries[j].key) < 0
}

/// The entries as a map from key to setting. Where a key occurs twice the
/// later entry counts.
pub open spec fn entries_map(entries: Seq<SettingView>) -> Map<Seq<char>, SettingView>
    decreases entries.len(),
{
    if entries.len() == 0 {
        Map::empty()
    } else {
        entries_map(entries.drop_last()).insert(entries.last().key, entries.last())
    }
}

/// Sorted entries have different keys.
pub proof fn lemma_sorted_distinct(entries: Seq<SettingView>, i: int, j: int)
    requires
        sorted_by_key(entries),
        0 <= i < entries.len(),
        0 <= j < entries.len(),
        i != j,
    ensures
        entries[i].key != entries[j].key,
{
    lemma_text_order_equal(entries[i].key, entries[j].key);
    lemma_text_order_equal(entries[j].key, entries[i].key);
    if i < j {
        assert(text_order(entries[i].key, entries[j].key) < 0);
    } else {
        assert(text_order(entries[j].key, entries[i].key) < 0);
    }
}

/// A prefix of sorted entries is sorted.
pub proof fn lemma_sorted_prefix(entries: Seq<SettingView>)
    requires
        sorted_by_key(entries),
        entries.len() > 0,
    ensures
        sorted_by_key(entries.drop_last()),
{
    let shorter = entries.drop_last();
    assert forall|i: int, j: int|
        #![trigger shorter[i], shorter[j]]
        0 <= i < j < shorter.len() implies text_order(shorter[i].key, shorter[j].key) < 0 by {
        assert(text_order(entries[i].key, entries[j].key) < 0);
    }
}

/// The map holds exactly the keys of the entries.
pub proof fn lemma_map_keys(entries: Seq<SettingView>, key: Seq<char>)
    ensures
        entries_map(entries).contains_key(key) <==> exists|i: int|
            0 <= i < entries.len() && #[trigger] entries[i].key == key,
    decreases entries.len(),
{
    if entries.len() > 0 {
        let shorter = entries.drop_last();
        lemma_map_keys(shorter, key);
        if entries_map(entries).contains_key(key) {
            if entries.last().key == key {
                assert(entries[entries.len() - 1].key == key);
            } else {
                let i = choose|i: int| 0 <= i < shorter.len() && #[trigger] shorter[i].key == key;
                assert(entries[i].key == key);
            }
        }
        if exists|i: int| 0 <= i < entries.len() && #[trigger] entries[i].key == key {
            let i = choose|i: int| 0 <= i < entries.len() && #[trigger] entries[i].key == key;
            if i < shorter.len() {
                assert(shorter[i].key == key);
            }
        }
    }
}

/// In entries sorted by key each key leads to its own entry.
pub proof fn lemma_entries_map(entries: Seq<SettingView>, i: int)
    requires
        sorted_by_key(entries),
        0 <= i < entries.len(),
    ensures
        entries_map(entries).contains_key(entries[i].key),
        entries_map(entries)[entries[i].key] == entries[i],
    decreases entries.len(),
{
    if i < entries.len() - 1 {
        lemma_sorted_prefix(entries);
        lemma_entries_map(entries.drop_last(), i);
        lemma_sorted_distinct(entries, i, entries.len() - 1);
    }
}

/// Putting a setting in the place of one with the same key keeps the order,
/// and changes the map at that key only.
pub proof fn lemma_replace_entry(before: Seq<SettingView>, at: int, fresh: SettingView)
    requires
        sorted_by_key(before),
        0 <= at < before.len(),
        before[at].key == fresh.key,
    ensures
        sorted_by_key(before.update(at, fresh)),
        entries_map(before.update(at, fresh)) == entries_map(before).insert(fresh.key, fresh),
    decreases before.len(),
{
    let after = before.update(at, fresh);
    assert forall|i: int, j: int|
        #![trigger after[i], after[j]]
        0 <= i < j < after.len() implies text_order(after[i].key, after[j].key) < 0 by {
        assert(text_order(before[i].key, before[j].key) < 0);
    }
    if at == before.len() - 1 {
        assert(after.drop_last() =~= before.drop_last());
        assert(entries_map(after) =~= entries_map(before).insert(fresh.key, fresh));
    } else {
        lemma_sorted_prefix(before);
        lemma_replace_entry(before.drop_last(), at, fresh);
        lemma_sorted_distinct(before, at, before.len() - 1);
        assert(after.drop_last() =~= before.drop_last().update(at, fresh));
        assert(after.last() == before.last());
        assert(entries_map(after) =~= entries_map(before).insert(fresh.key, fresh));
    }
}

/// Putting a setting with a new key at its place in the order keeps the
/// order, and adds it to the map.
pub proof fn lemma_insert_entry(before: Seq<SettingView>, at: int, fresh: SettingView)
    requires
        sorted_by_key(before),
        0 <= at <= before.len(),
        forall|j: int| 0 <= j < at ==> text_order(#[trigger] before[j].key, fresh.key) < 0,
        forall|j: int| at <= j < before.len() ==> text_order(fresh.key, #[trigger] before[j].key) < 0,
    ensures
        sorted_by_key(before.insert(at, fresh)),
        entries_map(before.insert(at, fresh)) == entries_map(before).insert(fresh.key, fresh),
    decreases before.len(),
{
    let after = before.insert(at, fresh);
    assert forall|i: int, j: int|
        #![trigger after[i], after[j]]
        0 <= i < j < after.len() implies text_order(after[i].key, after[j].key) < 0 by {
        if i < at && j > at {
            assert(text_order(before[i].key, before[j - 1].key) < 0);
        } else if i < at && j < at {
            assert(text_order(before[i].key, before[j].key) < 0);
        } else if i > at {
            assert(text_order(before[i - 1].key, before[j - 1].key) < 0);
        } else if i == at {
            assert(text_order(fresh.key, before[j - 1].key) < 0);
        } else {
            assert(text_order(before[i].key, fresh.key) < 0);
        }
    }
    if at == before.len() {
        assert(after.drop_last() =~= before);
    } else {
        lemma_sorted_prefix(before);
        let shorter = before.drop_last();
        assert forall|j: int| at <= j < shorter.len() implies text_order(
            fresh.key,
            #[trigger] shorter[j].key,
        ) < 0 by {
            assert(text_order(fresh.key, before[j].key) < 0);
        }
        assert forall|j: int| 0 <= j < at implies text_order(#[trigger] shorter[j].key, fresh.key)
            < 0 by {
            assert(text_order(before[j].key, fresh.key) < 0);
        }
        lemma_insert_entry(shorter, at, fresh);
        assert(after.drop_last() =~= shorter.insert(at, fresh));
        assert(after.last() == before.last());
        lemma_text_order_equal(fresh.key, before.last().key);
        assert(text_order(fresh.key, before[before.len() - 1].key) < 0);
        assert(entries_map(after) =~= entries_map(before).insert(fresh.key, fresh));
    }
}

/// A setting as the registry is first filled with it: always written to the
/// settings file.
pub open spec fn default_entry(key: Seq<char>, value: SettingValueView, dynamic: bool)
    -> SettingView {
    SettingView { key, value, dynamic, persisted: true }
}

/// The settings that a new registry holds.
pub open spec fn default_settings() -> Map<Seq<char>, SettingView> {
    Map::<Seq<char>, SettingView>::empty()
        .insert("browserwindow_maxrows"@, default_entry("browserwindow_maxrows"@, SettingValueView::Integer(100), true))
        .insert("browserwindow_maxrows_per_partition"@, default_entry("browserwindow_maxrows_per_partition"@, SettingValueView::Integer(50), true))
        .insert("browserwindow_hide_detail_panel"@, default_entry("browserwindow_hide_detail_panel"@, SettingValueView::Boolean(true), true))
        .insert("zookeeper_timeout"@, default_entry("zookeeper_timeout"@, SettingValueView::Integer(10000), true))
        .insert("broker_read_timeout"@, default_entry("broker_read_timeout"@, SettingValueView::Integer(10000), true))
        .insert("max.messages.bytes"@, default_entry("max.messages.bytes"@, SettingValueView::Integer(1048576), true))
        .insert("show_timestamp_millis"@, default_entry("show_timestamp_millis"@, SettingValueView::Boolean(true), true))
        .insert("offset.partition.messages"@, default_entry("offset.partition.messages"@, SettingValueView::Integer(5000), true))
        .insert("font_size"@, default_entry("font_size"@, SettingValueView::Integer(12), false))
        .insert("font_use_default"@, default_entry("font_use_default"@, SettingValueView::Boolean(true), false))
        .insert("html_escape_json"@, default_entry("html_escape_json"@, SettingValueView::Boolean(true), true))
        .insert("show_inactive_in_browser"@, default_entry("show_inactive_in_browser"@, SettingValueView::Boolean(true), true))
        .insert("confirm_exit"@, default_entry("confirm_exit"@, SettingValueView::Boolean(true), true))
        .insert("key_type"@, default_entry("key_type"@, SettingValueView::Text("byte_array"@), true))
        .insert("message_type"@, default_entry("message_type"@, SettingValueView::Text("byte_array"@), true))
        .insert("dataexport_dest_dir"@, default_entry("dataexport_dest_dir"@, SettingValueView::Text(""@), true))
        .insert("dataexport_key_file_pattern"@, default_entry("dataexport_key_file_pattern"@, SettingValueView::Text("key_#pid#_oid#.bin"@), true))
        .insert("dataexport_message_ccount"@, default_entry("dataexport_message_ccount"@, SettingValueView::Long(1000), true))
        .insert("dataexport_offset_type"@, default_entry("dataexport_offset_type"@, SettingValueView::Text("FIRST"@), true))
        .insert("dataexport_export_key"@, default_entry("dataexport_export_key"@, SettingValueView::Boolean(false), true))
        .insert("dataexport_export_message"@, default_entry("dataexport_export_message"@, SettingValueView::Boolean(true), true))
        .insert("dataimport_source_dir"@, default_entry("dataimport_source_dir"@, SettingValueView::Text(""@), true))
        .insert("dataimport_key_file_pattern"@, default_entry("dataimport_key_file_pattern"@, SettingValueView::Text("key_#pid#_sid#.bin"@), true))
        .insert("dataimport_import_key"@, default_entry("dataimport_import_key"@, SettingValueView::Boolean(false), true))
        .insert("dataimport_export_key"@, default_entry("dataimport_export_key"@, SettingValueView::Boolean(false), true))
        .insert("dataimport_export_message"@, default_entry("dataimport_export_message"@, SettingValueView::Boolean(true), true))
        .insert("add_message_method_file_for_key"@, default_entry("add_message_method_file_for_key"@, SettingValueView::Boolean(true), true))
        .insert("add_message_method_file_for_value"@, default_entry("add_message_method_file_for_value"@, SettingValueView::Boolean(true), true))
        .insert("datafind_message_ccount"@, default_entry("datafind_message_ccount"@, SettingValueView::Long(1000), true))
        .insert("datafind_offset_type"@, default_entry("datafind_offset_type"@, SettingValueView::Text("FIRST"@), true))
        .insert("datafind_key_search_type"@, default_entry("datafind_key_search_type"@, SettingValueView::Text("DONT_SEARCH"@), true))
        .insert("datafind_key_match_type"@, default_entry("datafind_key_match_type"@, SettingValueView::Text("CONTAINS"@), true))
        .insert("datafind_key_search_term"@, default_entry("datafind_key_search_term"@, SettingValueView::Text(""@), true))
        .insert("datafind_key_search_case_sensitive"@, default_entry("datafind_key_search_case_sensitive"@, SettingValueView::Boolean(true), true))
        .insert("datafind_value_search_type"@, default_entry("datafind_value_search_type"@, SettingValueView::Text("BINARY"@), true))
        .insert("datafind_value_search_term"@, default_entry("datafind_value_search_term"@, SettingValueView::Text(""@), true))
        .insert("datafind_value_match_type"@, default_entry("datafind_value_match_type"@, SettingValueView::Text("CONTAINS"@), true))
        .insert("datafind_value_search_case_sensitive"@, default_entry("datafind_value_search_case_sensitive"@, SettingValueView::Boolean(true), true))
        .insert("storm_root"@, default_entry("storm_root"@, SettingValueView::Text("/"@), true))
}

/// The registry of settings, kept in the order of their keys.
pub struct UserSettings {
    settings: Vec<Setting>,
}

impl View for UserSettings {
    type V = Map<Seq<char>, SettingView>;

    closed spec fn view(&self) -> Map<Seq<char>, SettingView> {
        entries_map(self.entries())
    }
}

impl UserSettings {
    /// The settings in the order of their keys.
    pub closed spec fn entries(&self) -> Seq<SettingView> {
        self.settings@.map_values(|s: Setting| s@)
    }

    /// The registry is in order: the keys rise strictly from each setting
    /// to the next, so no key occurs twice.
    pub closed spec fn wf(&self) -> bool {
        sorted_by_key(self.entries())
    }

    /// A registry in order has its entries sorted by key, and its view is
    /// the map that they make.
    pub proof fn lemma_wf(&self)
        requires
            self.wf(),
        ensures
            sorted_by_key(self.entries()),
            self@ == entries_map(self.entries()),
    {
    }

    /// A registry with no setting in it.
    pub fn empty() -> (r: Self)
        ensures
            r.wf(),
            r@ == Map::<Seq<char>, SettingView>::empty(),
            r.entries() == Seq::<SettingView>::empty(),
    {
        let r = UserSettings { settings: Vec::new() };
        assert(r.entries() =~= Seq::<SettingView>::empty());
        assert(r@ =~= Map::<Seq<char>, SettingView>::empty());
        r
    }

    /// A registry filled with the built-in settings.
    pub fn new() -> (r: Self)
        ensures
            r.wf(),
            r@ == default_settings(),
    {
        Self::initialize_defaults()
    }

    /// The built-in settings.
    fn initialize_defaults() -> (settings: Self)
        ensures
            settings.wf(),
            settings@ == default_settings(),
    {
        let mut settings = Self::empty();
        settings.set("browserwindow_maxrows", SettingValue::Integer(100), true, true);
        settings.set("browserwindow_maxrows_per_partition", SettingValue::Integer(50), true, true);
        settings.set("browserwindow_hide_detail_panel", SettingValue::Boolean(true), true, true);
        settings.set("zookeeper_timeout", SettingValue::Integer(10000), true, true);
        settings.set("broker_read_timeout", SettingValue::Integer(10000), true, true);
        settings.set("max.messages.bytes", SettingValue::Integer(1048576), true, true);
        settings.set("show_timestamp_millis", SettingValue::Boolean(true), true, true);
        settings.set("offset.partition.messages", SettingValue::Integer(5000), true, true);
        settings.set("font_size", SettingValue::Integer(12), false, true);
        settings.set("font_use_default", SettingValue::Boolean(true), false, true);
        settings.set("html_escape_json", SettingValue::Boolean(true), true, true);
        settings.set("show_inactive_in_browser", SettingValue::Boolean(true), true, true);
        settings.set("confirm_exit", SettingValue::Boolean(true), true, true);
        settings.set("key_type", SettingValue::String("byte_array".to_owned()), true, true);
        settings.set("message_type", SettingValue::String("byte_array".to_owned()), true, true);
        settings.set("dataexport_dest_dir", SettingValue::String("".to_owned()), true, true);
        settings.set("dataexport_key_file_pattern", SettingValue::String("key_#pid#_oid#.bin".to_owned()), true, true);
        settings.set("dataexport_message_ccount", SettingValue::Long(1000), true, true);
        settings.set("dataexport_offset_type", SettingValue::String("FIRST".to_owned()), true, true);
        settings.set("dataexport_export_key", SettingValue::Boolean(false), true, true);
        settings.set("dataexport_export_message", SettingValue::Boolean(true), true, true);
        settings.set("dataimport_source_dir", SettingValue::String("".to_owned()), true, true);
        settings.set("dataimport_key_file_pattern", SettingValue::String("key_#pid#_sid#.bin".to_owned()), true, true);
        settings.set("dataimport_import_key", SettingValue::Boolean(false), true, true);
        settings.set("dataimport_export_key", SettingValue::Boolean(false), true, true);
        settings.set("dataimport_export_message", SettingValue::Boolean(true), true, true);
        settings.set("add_message_method_file_for_key", SettingValue::Boolean(true), true, true);
        settings.set("add_message_method_file_for_value", SettingValue::Boolean(true), true, true);
        settings.set("datafind_message_ccount", SettingValue::Long(1000), true, true);
        settings.set("datafind_offset_type", SettingValue::String("FIRST".to_owned()), true, true);
        settings.set("datafind_key_search_type", SettingValue::String("DONT_SEARCH".to_owned()), true, true);
        settings.set("datafind_key_match_type", SettingValue::String("CONTAINS".to_owned()), true, true);
        settings.set("datafind_key_search_term", SettingValue::String("".to_owned()), true, true);
        settings.set("datafind_key_search_case_sensitive", SettingValue::Boolean(true), true, true);
        settings.set("datafind_value_search_type", SettingValue::String("BINARY".to_owned()), true, true);
        settings.set("datafind_value_search_term", SettingValue::String("".to_owned()), true, true);
        settings.set("datafind_value_match_type", SettingValue::String("CONTAINS".to_owned()), true, true);
        settings.set("datafind_value_search_case_sensitive", SettingValue::Boolean(true), true, true);
        settings.set("storm_root", SettingValue::String("/".to_owned()), true, true);
        settings
    }

    /// The place of the first setting whose key does not come before
    /// `key`, and whether that setting has the key itself.
    fn position(&self, key: &str) -> (r: (usize, bool))
        requires
            self.wf(),
        ensures
            r.0 <= self.entries().len(),
            sorted_by_key(self.entries()),
            forall|j: int| 0 <= j < r.0 ==> text_order(#[trigger] self.entries()[j].key, key@) < 0,
            r.1 ==> r.0 < self.entries().len() && self.entries()[r.0 as int].key == key@,
            !r.1 && r.0 < self.entries().len() ==> text_order(
                key@,
                self.entries()[r.0 as int].key,
            ) < 0,
    {
        let mut i: usize = 0;
        while i < self.settings.len()
            invariant
                i <= self.settings@.len(),
                sorted_by_key(self.entries()),
                self.entries().len() == self.settings@.len(),
                forall|j: int|
                    0 <= j < i ==> text_order(#[trigger] self.entries()[j].key, key@) < 0,
            decreases self.settings@.len() - i,
        {
            let order = compare_text(self.settings[i].key.as_str(), key);
            assert(self.entries()[i as int].key == self.settings@[i as int].key@);
            proof {
                lemma_text_order_equal(self.entries()[i as int].key, key@);
                lemma_lex_flip(encode_utf8(self.entries()[i as int].key), encode_utf8(key@));
            }
            if order == 0 {
                return (i, true);
            }
            if order > 0 {
                return (i, false);
            }
            i += 1;
        }
        (i, false)
    }

    /// A key that `position` did not find belongs to no setting.
    proof fn lemma_absent(entries: Seq<SettingView>, key: Seq<char>, at: int)
        requires
            sorted_by_key(entries),
            0 <= at <= entries.len(),
            forall|j: int| 0 <= j < at ==> text_order(#[trigger] entries[j].key, key) < 0,
            at < entries.len() ==> text_order(key, entries[at].key) < 0,
        ensures
            !entries_map(entries).contains_key(key),
            forall|j: int| at <= j < entries.len() ==> text_order(key, #[trigger] entries[j].key) < 0,
    {
        assert forall|j: int| at <= j < entries.len() implies text_order(
            key,
            #[trigger] entries[j].key,
        ) < 0 by {
            if at < j {
                assert(text_order(entries[at].key, entries[j].key) < 0);
                lemma_lex_transitive(
                    encode_utf8(key),
                    encode_utf8(entries[at].key),
                    encode_utf8(entries[j].key),
                );
            }
        }
        assert forall|j: int| 0 <= j < entries.len() implies #[trigger] entries[j].key != key by {
            lemma_text_order_equal(entries[j].key, key);
            lemma_text_order_equal(key, entries[j].key);
        }
        lemma_map_keys(entries, key);
    }

    /// The setting under `key`, if there is one.
    pub fn get(&self, key: &str) -> (r: Option<&Setting>)
        requires
            self.wf(),
        ensures
            match r {
                Some(setting) => self@.contains_key(key@) && self@[key@] == setting@,
                None => !self@.contains_key(key@),
            },
    {
        let (at, found) = self.position(key);
        proof {
            if found {
                lemma_entries_map(self.entries(), at as int);
            } else {
                Self::lemma_absent(self.entries(), key@, at as int);
            }
        }
        if found {
            Some(&self.settings[at])
        } else {
            None
        }
    }

    /// The number under `key`: an `Integer` as it is, a `Long` cut to its low
    /// 32 bits. A missing key is `SettingNotFound`, a value of any other
    /// kind `TypeMismatch`.
    pub fn get_int(&self, key: &str) -> (r: Result<i32, ConfigError>)
        requires
            self.wf(),
        ensures
            r == int_of(self@, key@),
    {
        match self.get(key) {
            None => Err(ConfigError::SettingNotFound),
            Some(setting) => match &setting.value {
                SettingValue::Integer(i) => Ok(*i),
                SettingValue::Long(l) => Ok(#[verifier::truncate] (*l as i32)),
                _ => Err(ConfigError::TypeMismatch),
            },
        }
    }

    /// The number under `key`: a `Long` as it is, an `Integer` widened. A
    /// missing key is `SettingNotFound`, a value of any other kind
    /// `TypeMismatch`.
    pub fn get_long(&self, key: &str) -> (r: Result<i64, ConfigError>)
        requires
            self.wf(),
        ensures
            r == long_of(self@, key@),
    {
        match self.get(key) {
            None => Err(ConfigError::SettingNotFound),
            Some(setting) => match &setting.value {
                SettingValue::Long(l) => Ok(*l),
                SettingValue::Integer(i) => Ok(*i as i64),
                _ => Err(ConfigError::TypeMismatch),
            },
        }
    }

    /// The text under `key`: a `String` as it is, a `Boolean` as `true` or
    /// `false`. A missing key is `SettingNotFound`, a value of any other
    /// kind `TypeMismatch`.
    pub fn get_string(&self, key: &str) -> (r: Result<String, ConfigError>)
        requires
            self.wf(),
        ensures
            match r {
                Ok(text) => string_of_setting(self@, key@) == Ok::<Seq<char>, ConfigError>(text@),
                Err(e) => string_of_setting(self@, key@) == Err::<Seq<char>, ConfigError>(e),
            },
    {
        match self.get(key) {
            None => Err(ConfigError::SettingNotFound),
            Some(setting) => match &setting.value {
                SettingValue::String(s) => Ok(s.clone()),
                SettingValue::Boolean(b) => Ok(
                    if *b {
                        "true".to_owned()
                    } else {
                        "false".to_owned()
                    },
                ),
                _ => Err(ConfigError::TypeMismatch),
            },
        }
    }

    /// The truth value under `key`. A missing key is `SettingNotFound`, a
    /// value of any other kind `TypeMismatch`.
    pub fn get_bool(&self, key: &str) -> (r: Result<bool, ConfigError>)
        requires
            self.wf(),
        ensures
            r == bool_of(self@, key@),
    {
        match self.get(key) {
            None => Err(ConfigError::SettingNotFound),
            Some(setting) => match &setting.value {
                SettingValue::Boolean(b) => Ok(*b),
                _ => Err(ConfigError::TypeMismatch),
            },
        }
    }

    /// Puts a setting under `key`, in place of the one that was there.
    pub fn set(&mut self, key: &str, value: SettingValue, dynamic: bool, persisted: bool)
        requires
            old(self).wf(),
        ensures
            final(self).wf(),
            final(self)@ == old(self)@.insert(
                key@,
                SettingView { key: key@, value: value@, dynamic, persisted },
            ),
    {
        let (at, found) = self.position(key);
        let setting = Setting::new(key.to_owned(), value, dynamic, persisted);
        let ghost before = self.entries();
        let ghost fresh = setting@;
        proof {
            if !found {
                Self::lemma_absent(before, key@, at as int);
            }
        }
        if found {
            self.settings[at] = setting;
            proof {
                assert(self.entries() =~= before.update(at as int, fresh));
                lemma_replace_entry(before, at as int, fresh);
            }
        } else {
            self.settings.insert(at, setting);
            proof {
                assert(self.entries() =~= before.insert(at as int, fresh));
                lemma_insert_entry(before, at as int, fresh);
            }
        }
    }

    /// How many settings the registry holds.
    pub fn len(&self) -> (r: usize)
        ensures
            r == self.entries().len(),
    {
        self.settings.len()
    }
}

/// What `get_int` gives on a registry.
pub open spec fn int_of(settings: Map<Seq<char>, SettingView>, key: Seq<char>) -> Result<
    i32,
    ConfigError,
> {
    if !settings.contains_key(key) {
        Err(ConfigError::SettingNotFound)
    } else {
        match settings[key].value {
            SettingValueView::Integer(i) => Ok(i),
            SettingValueView::Long(l) => Ok(l as i32),
            _ => Err(ConfigError::TypeMismatch),
        }
    }
}

/// What `get_long` gives on a registry.
pub open spec fn long_of(settings: Map<Seq<char>, SettingView>, key: Seq<char>) -> Result<
    i64,
    ConfigError,
> {
    if !settings.contains_key(key) {
        Err(ConfigError::SettingNotFound)
    } else {
        match settings[key].value {
            SettingValueView::Long(l) => Ok(l),
            SettingValueView::Integer(i) => Ok(i as i64),
            _ => Err(ConfigError::TypeMismatch),
        }
    }
}

/// What `get_string` gives on a registry.
pub open spec fn string_of_setting(settings: Map<Seq<char>, SettingView>, key: Seq<char>)
    -> Result<Seq<char>, ConfigError> {
    if !settings.contains_key(key) {
        Err(ConfigError::SettingNotFound)
    } else {
        match settings[key].value {
            SettingValueView::Text(s) => Ok(s),
            SettingValueView::Boolean(b) => Ok(
                if b {
                    "true"@
                } else {
                    "false"@
                },
            ),
            _ => Err(ConfigError::TypeMismatch),
        }
    }
}

/// What `get_bool` gives on a registry.
pub open spec fn bool_of(settings: Map<Seq<char>, SettingView>, key: Seq<char>) -> Result<
    bool,
    ConfigError,
> {
    if !settings.contains_key(key) {
        Err(ConfigError::SettingNotFound)
    } else {
        match settings[key].value {
            SettingValueView::Boolean(b) => Ok(b),
            _ => Err(ConfigError::TypeMismatch),
        }
    }
}

/// The text of a truth value.
pub open spec fn bool_text(b: bool) -> Seq<char> {
    if b {
        "true"@
    } else {
        "false"@
    }
}

/// The element under which a setting is written: its name, its value as
/// text, whether it is dynamic, the code of its kind, whether it is
/// persisted.
pub open spec fn setting_element(setting: SettingView) -> XmlElementView {
    XmlElementView {
        name: "setting"@,
        attributes: seq![
            XmlAttributeView { key: "name"@, value: setting.key },
            XmlAttributeView { key: "value"@, value: value_text(setting.value) },
            XmlAttributeView { key: "dynamic"@, value: bool_text(setting.dynamic) },
            XmlAttributeView {
                key: "data_type"@,
                value: decimal_text(kind_of(setting.value).code()),
            },
            XmlAttributeView { key: "persisted"@, value: bool_text(setting.persisted) },
        ],
    }
}

/// One element for each setting that is persisted, in the order of the
/// entries.
pub open spec fn persisted_nodes(entries: Seq<SettingView>) -> Seq<XmlNodeView>
    decreases entries.len(),
{
    if entries.len() == 0 {
        Seq::empty()
    } else if entries.last().persisted {
        persisted_nodes(entries.drop_last()).push(
            XmlNodeView::Empty(setting_element(entries.last())),
        )
    } else {
        persisted_nodes(entries.drop_last())
    }
}

/// The settings file in pieces: the root element `settings` around one
/// element for each persisted setting.
pub open spec fn settings_nodes(entries: Seq<SettingView>) -> Seq<XmlNodeView> {
    seq![XmlNodeView::Start(XmlElementView { name: "settings"@, attributes: Seq::empty() })]
        + persisted_nodes(entries) + seq![XmlNodeView::End("settings"@)]
}

/// What an optional attribute that holds `true` or `false` stands for:
/// `fallback` where it is absent or holds anything else.
pub open spec fn flag_of(attributes: Seq<XmlAttributeView>, key: Seq<char>, fallback: bool)
    -> bool {
    match attribute_value(attributes, key) {
        Some(text) => match parse_strict_bool(text) {
            Some(b) => b,
            None => fallback,
        },
        None => fallback,
    }
}

/// The setting that an element describes. The attributes `name`, `value`
/// and `data_type` must be there, the code must name a kind, and the value
/// must be one of that kind; `dynamic` defaults to false and `persisted`
/// to true.
pub open spec fn record_of(element: XmlElementView) -> Option<SettingView> {
    let name = attribute_value(element.attributes, "name"@);
    let value = attribute_value(element.attributes, "value"@);
    let code = attribute_value(element.attributes, "data_type"@);
    if element.name != "setting"@ || name is None || value is None || code is None {
        None
    } else {
        match parse_decimal(code->0, 1, 6) {
            None => None,
            Some(c) => match parse_value(value->0, kind_with_code(c)) {
                None => None,
                Some(v) => Some(
                    SettingView {
                        key: name->0,
                        value: v,
                        dynamic: flag_of(element.attributes, "dynamic"@, false),
                        persisted: flag_of(element.attributes, "persisted"@, true),
                    },
                ),
            },
        }
    }
}

/// The kind with the given code, which is from 1 to 6.
pub open spec fn kind_with_code(code: int) -> SettingDataType {
    if code == 1 {
        SettingDataType::Integer
    } else if code == 2 {
        SettingDataType::Long
    } else if code == 3 {
        SettingDataType::Double
    } else if code == 4 {
        SettingDataType::String
    } else if code == 5 {
        SettingDataType::Boolean
    } else {
        SettingDataType::Color
    }
}

/// The setting that a piece of a document describes: that of its element
/// where it is an element.
pub open spec fn node_record(node: XmlNodeView) -> Option<SettingView> {
    match node {
        XmlNodeView::Start(element) => record_of(element),
        XmlNodeView::Empty(element) => record_of(element),
        XmlNodeView::End(_) => None,
    }
}

/// The registry after the pieces of a settings file were read into it:
/// each piece that describes a setting puts it under its key, any other
/// piece changes nothing.
pub open spec fn loaded(settings: Map<Seq<char>, SettingView>, nodes: Seq<XmlNodeView>) -> Map<
    Seq<char>,
    SettingView,
>
    decreases nodes.len(),
{
    if nodes.len() == 0 {
        settings
    } else {
        match node_record(nodes.last()) {
            Some(setting) => loaded(settings, nodes.drop_last()).insert(setting.key, setting),
            None => loaded(settings, nodes.drop_last()),
        }
    }
}

/// The schema of the settings file as a value.
pub open spec fn settings_schema_view() -> Seq<TagSchemaView> {
    seq![
        TagSchemaView {
            name: "setting"@,
            keys: seq!["name"@, "value"@, "dynamic"@, "data_type"@, "persisted"@],
        },
    ]
}

/// The schema of the settings file: the element `setting` and its five
/// attributes.
pub fn settings_schema() -> (r: Vec<TagSchema>)
    ensures
        schemas_view(r@) == settings_schema_view(),
{
    let mut keys: Vec<String> = Vec::new();
    keys.push("name".to_owned());
    keys.push("value".to_owned());
    keys.push("dynamic".to_owned());
    keys.push("data_type".to_owned());
    keys.push("persisted".to_owned());
    let mut r: Vec<TagSchema> = Vec::new();
    let one = schema("setting", keys);
    assert(one@.keys =~= seq!["name"@, "value"@, "dynamic"@, "data_type"@, "persisted"@]);
    r.push(one);
    assert(schemas_view(r@) =~= settings_schema_view());
    r
}

/// The element under which a setting is written.
pub fn setting_to_element(setting: &Setting) -> (element: XmlElement)
    ensures
        element@ == setting_element(setting@),
{
    let mut element = XmlElement::new("setting");
    element.push("name", setting.key.as_str());
    element.push("value", setting.value.to_xml_string().as_str());
    element.push("dynamic", format_bool(setting.dynamic));
    element.push("data_type", format_integer(setting.data_type().as_i32() as i64).as_str());
    element.push("persisted", format_bool(setting.persisted));
    assert(element@.attributes =~= setting_element(setting@).attributes);
    element
}

/// Reads an optional attribute that holds `true` or `false`.
fn read_flag(element: &XmlElement, key: &str, fallback: bool) -> (r: bool)
    ensures
        r == flag_of(element@.attributes, key@, fallback),
{
    match element.get(key) {
        Some(text) => match parse_bool(text.as_str()) {
            Some(b) => b,
            None => fallback,
        },
        None => fallback,
    }
}

/// The setting that an element describes, if it describes one.
pub fn setting_from_element(element: &XmlElement) -> (r: Option<Setting>)
    ensures
        match r {
            Some(setting) => record_of(element@) == Some(setting@),
            None => record_of(element@) is None,
        },
{
    if !text_eq(element.name.as_str(), "setting") {
        return None;
    }
    let name = match element.get("name") {
        Some(name) => name,
        None => {
            return None;
        },
    };
    let value = match element.get("value") {
        Some(value) => value,
        None => {
            return None;
        },
    };
    let code = match element.get("data_type") {
        Some(code) => code,
        None => {
            return None;
        },
    };
    let code = match parse_integer(code.as_str(), 1, 6) {
        Some(code) => code,
        None => {
            return None;
        },
    };
    let data_type = match SettingDataType::from_i32(code as i32) {
        Ok(data_type) => data_type,
        Err(_) => {
            return None;
        },
    };
    assert(data_type == kind_with_code(code as int));
    match SettingValue::from_string(value.as_str(), data_type) {
        Err(_) => None,
        Ok(value) => Some(
            Setting::new(
                name.clone(),
                value,
                read_flag(element, "dynamic", false),
                read_flag(element, "persisted", true),
            ),
        ),
    }
}

impl UserSettings {
    /// The settings file in pieces.
    pub fn to_nodes(&self) -> (nodes: Vec<XmlNode>)
        requires
            self.wf(),
        ensures
            nodes_view(nodes@) == settings_nodes(self.entries()),
    {
        let mut nodes: Vec<XmlNode> = Vec::new();
        nodes.push(XmlNode::Start(XmlElement::new("settings")));
        let ghost head = seq![
            XmlNodeView::Start(XmlElementView { name: "settings"@, attributes: Seq::empty() }),
        ];
        assert(nodes_view(nodes@) =~= head + persisted_nodes(self.entries().take(0)));
        let mut i: usize = 0;
        while i < self.settings.len()
            invariant
                i <= self.settings@.len(),
                self.entries().len() == self.settings@.len(),
                head == seq![
                    XmlNodeView::Start(
                        XmlElementView { name: "settings"@, attributes: Seq::empty() },
                    ),
                ],
                nodes_view(nodes@) == head + persisted_nodes(self.entries().take(i as int)),
            decreases self.settings@.len() - i,
        {
            let ghost before = nodes_view(nodes@);
            let ghost entries = self.entries();
            proof {
                assert(entries.take(i + 1).drop_last() =~= entries.take(i as int));
                assert(entries.take(i + 1).last() == self.settings@[i as int]@);
            }
            if self.settings[i].persisted {
                let element = setting_to_element(&self.settings[i]);
                nodes.push(XmlNode::Empty(element));
                assert(nodes_view(nodes@) =~= before.push(XmlNodeView::Empty(element@)));
                assert(nodes_view(nodes@) =~= head + persisted_nodes(entries.take(i + 1)));
            }
            i += 1;
        }
        assert(self.entries().take(i as int) =~= self.entries());
        let ghost before = nodes_view(nodes@);
        nodes.push(XmlNode::End("settings".to_owned()));
        assert(nodes_view(nodes@) =~= before.push(XmlNodeView::End("settings"@)));
        assert(nodes_view(nodes@) =~= settings_nodes(self.entries()));
        nodes
    }

    /// The settings file as text: the persisted settings in the order of
    /// their keys, one element each.
    pub fn to_xml(&self) -> (r: Result<String, ConfigError>)
        requires
            self.wf(),
        ensures
            r matches Ok(text) && text@ == document_text(settings_nodes(self.entries())),
    {
        Ok(write_document(&self.to_nodes()))
    }

    /// Reads the pieces of a settings file into the registry. Each element
    /// that describes a setting replaces the setting under its key; an
    /// element that describes none is passed over.
    pub fn from_nodes(&mut self, nodes: &Vec<XmlNode>)
        requires
            old(self).wf(),
        ensures
            final(self).wf(),
            final(self)@ == loaded(old(self)@, nodes_view(nodes@)),
    {
        let ghost all = nodes_view(nodes@);
        let mut i: usize = 0;
        assert(all.take(0) =~= Seq::empty());
        while i < nodes.len()
            invariant
                i <= nodes@.len(),
                all == nodes_view(nodes@),
                self.wf(),
                self@ == loaded(old(self)@, all.take(i as int)),
            decreases nodes@.len() - i,
        {
            proof {
                assert(all.take(i + 1).drop_last() =~= all.take(i as int));
                assert(all.take(i + 1).last() == nodes@[i as int]@);
            }
            let found = match &nodes[i] {
                XmlNode::Start(element) => setting_from_element(element),
                XmlNode::Empty(element) => setting_from_element(element),
                XmlNode::End(_) => None,
            };
            match found {
                Some(setting) => {
                    self.set(
                        setting.key.as_str(),
                        setting.value,
                        setting.dynamic,
                        setting.persisted,
                    );
                },
                None => {},
            }
            i += 1;
        }
        assert(all.take(i as int) =~= all);
    }

    /// Reads a settings file into the registry. A text that is not
    /// well-formed XML is refused and the registry stays as it is. In any
    /// other each element that describes a setting replaces the setting
    /// under its key, and an element that describes none is passed over.
    pub fn from_xml(&mut self, xml: &str) -> (r: Result<(), ConfigError>)
        requires
            old(self).wf(),
        ensures
            final(self).wf(),
            match parsed(xml@, settings_schema_view()) {
                Some(nodes) => r is Ok && final(self)@ == loaded(old(self)@, nodes),
                None => r == Err::<(), ConfigError>(ConfigError::MalformedXml) && final(self)@
                    == old(self)@,
            },
    {
        let schemas = settings_schema();
        match read_document(xml, &schemas) {
            Err(e) => Err(e),
            Ok(nodes) => {
                self.from_nodes(&nodes);
                Ok(())
            },
        }
    }
}

/// A record that cannot be read does not keep the others from loading:
/// whatever else a settings file holds, a piece of it that describes a
/// setting, and after which no piece describes one with the same key, is
/// in the registry once the file is read.
pub proof fn lemma_good_records_load(
    settings: Map<Seq<char>, SettingView>,
    nodes: Seq<XmlNodeView>,
    at: int,
)
    requires
        0 <= at < nodes.len(),
        node_record(nodes[at]) is Some,
        forall|j: int|
            at < j < nodes.len() ==> !(node_record(#[trigger] nodes[j]) matches Some(other)
                && other.key == node_record(nodes[at])->0.key),
    ensures
        loaded(settings, nodes).contains_key(node_record(nodes[at])->0.key),
        loaded(settings, nodes)[node_record(nodes[at])->0.key] == node_record(nodes[at])->0,
    decreases nodes.len(),
{
    if at < nodes.len() - 1 {
        let shorter = nodes.drop_last();
        assert(shorter[at] == nodes[at]);
        assert forall|j: int| at < j < shorter.len() implies !(node_record(
            #[trigger] shorter[j],
        ) matches Some(other) && other.key == node_record(shorter[at])->0.key) by {
            assert(shorter[j] == nodes[j]);
        }
        lemma_good_records_load(settings, shorter, at);
        assert(nodes.last() == nodes[nodes.len() - 1]);
    }
}

/// A piece that describes no setting leaves the registry as the pieces
/// before it made it.
pub proof fn lemma_bad_record_skipped(
    settings: Map<Seq<char>, SettingView>,
    nodes: Seq<XmlNodeView>,
    bad: XmlNodeView,
)
    requires
        node_record(bad) is None,
    ensures
        loaded(settings, nodes.push(bad)) == loaded(settings, nodes),
{
    assert(nodes.push(bad).drop_last() =~= nodes);
}

} // verus!
