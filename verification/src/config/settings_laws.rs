//! What holds of every setting: a value that is written as text is read
//! back as the value it was, and a value is read under the kind it has.

use vstd::prelude::*;
use crate::config::settings::{
    bool_of, bool_text, comma_at, flag_of, int_of, is_double_text, kind_of, kind_with_code,
    entries_map, loaded, long_of, node_record, parse_color, parse_truth, parse_value,
    persisted_nodes, record_of, setting_element, settings_nodes, string_of_setting, value_text,
    SettingValueView, SettingView,
};
use crate::config::xml::{attribute_value, XmlAttributeView, XmlElementView, XmlNodeView};
use crate::error::ConfigError;
use crate::text::{
    all_digits, decimal_digits, decimal_text, digit_char, digits_value, is_digit, parse_decimal,
    parse_strict_bool, same_ignoring_ascii_case,
};

verus! {

/// Once an integer is set under a key it is read back as the number it
/// is, as an int and as a long; as a text or a truth value it is refused
/// for its kind.
pub proof fn lemma_integer_is_read_as_number(
    settings: Map<Seq<char>, SettingView>,
    key: Seq<char>,
    number: i32,
    dynamic: bool,
    persisted: bool,
)
    ensures
        ({
            let after = settings.insert(
                key,
                SettingView { key, value: SettingValueView::Integer(number), dynamic, persisted },
            );
            &&& int_of(after, key) == Ok::<i32, ConfigError>(number)
            &&& long_of(after, key) == Ok::<i64, ConfigError>(number as i64)
            &&& string_of_setting(after, key) == Err::<Seq<char>, ConfigError>(
                ConfigError::TypeMismatch,
            )
            &&& bool_of(after, key) == Err::<bool, ConfigError>(ConfigError::TypeMismatch)
        }),
{
}

/// The digits of a number are digits, at least one, and stand for the
/// number.
pub proof fn lemma_digits(n: nat)
    ensures
        decimal_digits(n).len() > 0,
        all_digits(decimal_digits(n)),
        digits_value(decimal_digits(n)) == n,
    decreases n,
{
    if n < 10 {
        let s = decimal_digits(n);
        assert(s.drop_last() =~= Seq::<char>::empty());
        assert(digits_value(s.drop_last()) == 0);
        assert(s.last() == digit_char(n as int));
    } else {
        lemma_digits(n / 10);
        let shorter = decimal_digits(n / 10);
        let s = decimal_digits(n);
        assert(s.drop_last() =~= shorter);
        assert(s.last() == digit_char((n % 10) as int));
        assert forall|i: int| 0 <= i < s.len() implies is_digit(#[trigger] s[i]) by {
            if i < shorter.len() {
                assert(s[i] == shorter[i]);
            }
        }
    }
}

/// A number that is written in decimal is read back as the number it is,
/// wherever it lies in the range that is read.
pub proof fn lemma_decimal_round_trip(v: int, lo: int, hi: int)
    requires
        lo <= v <= hi,
    ensures
        parse_decimal(decimal_text(v), lo, hi) == Some(v),
{
    let s = decimal_text(v);
    if v < 0 {
        lemma_digits((-v) as nat);
        assert(s[0] == '-');
        assert(s.drop_first() =~= decimal_digits((-v) as nat));
    } else {
        lemma_digits(v as nat);
        assert(is_digit(s[0]));
    }
}

/// A text is equal to itself but for the case of ASCII letters.
pub proof fn lemma_same_reflexive(s: Seq<char>)
    ensures
        same_ignoring_ascii_case(s, s),
{
}

/// The first comma at or after `from` stands at `end`, where only digits
/// stand between the two.
pub proof fn lemma_comma_after_digits(s: Seq<char>, from: int, end: int)
    requires
        0 <= from <= end < s.len(),
        forall|k: int| from <= k < end ==> is_digit(#[trigger] s[k]),
        s[end] == ',',
    ensures
        comma_at(s, from) == end,
    decreases end - from,
{
    if from < end {
        assert(is_digit(s[from]));
        lemma_comma_after_digits(s, from + 1, end);
    }
}

/// There is no comma at or after `from`, where only digits stand from
/// there on.
pub proof fn lemma_no_comma_in_digits(s: Seq<char>, from: int)
    requires
        0 <= from <= s.len(),
        forall|k: int| from <= k < s.len() ==> is_digit(#[trigger] s[k]),
    ensures
        comma_at(s, from) == s.len(),
    decreases s.len() - from,
{
    if from < s.len() {
        assert(is_digit(s[from]));
        lemma_no_comma_in_digits(s, from + 1);
    }
}

/// A colour that is written as text is read back as the colour it is.
pub proof fn lemma_color_round_trip(r: u8, g: u8, b: u8)
    ensures
        parse_color(value_text(SettingValueView::Color(r, g, b))) == Some((r, g, b)),
{
    let first = decimal_text(r as int);
    let second = decimal_text(g as int);
    let third = decimal_text(b as int);
    let s = value_text(SettingValueView::Color(r, g, b));
    lemma_digits(r as nat);
    lemma_digits(g as nat);
    lemma_digits(b as nat);
    let p = first.len() as int;
    let q = p + 1 + second.len();
    assert(s =~= first + seq![','] + second + seq![','] + third);
    assert(s.len() == q + 1 + third.len());
    assert forall|k: int| 0 <= k < p implies is_digit(#[trigger] s[k]) by {
        assert(s[k] == first[k]);
    }
    assert(s[p] == ',');
    assert forall|k: int| p + 1 <= k < q implies is_digit(#[trigger] s[k]) by {
        assert(s[k] == second[k - p - 1]);
    }
    assert(s[q] == ',');
    assert forall|k: int| q + 1 <= k < s.len() implies is_digit(#[trigger] s[k]) by {
        assert(s[k] == third[k - q - 1]);
    }
    lemma_comma_after_digits(s, 0, p);
    lemma_comma_after_digits(s, p + 1, q);
    lemma_no_comma_in_digits(s, q + 1);
    assert(s.subrange(0, p) =~= first);
    assert(s.subrange(p + 1, q) =~= second);
    assert(s.subrange(q + 1, s.len() as int) =~= third);
    lemma_decimal_round_trip(r as int, 0, 255);
    lemma_decimal_round_trip(g as int, 0, 255);
    lemma_decimal_round_trip(b as int, 0, 255);
}

/// Whether a value can be written and read: every value can, but for a
/// `Double` whose text is no number in floating point.
pub open spec fn is_writable(value: SettingValueView) -> bool {
    match value {
        SettingValueView::Double(text) => is_double_text(text),
        _ => true,
    }
}

/// A value that is written as text and read under its kind is the value it
/// was, of the kind it was.
pub proof fn lemma_value_round_trip(value: SettingValueView)
    requires
        is_writable(value),
    ensures
        parse_value(value_text(value), kind_of(value)) == Some(value),
{
    match value {
        SettingValueView::Integer(i) => {
            lemma_decimal_round_trip(i as int, i32::MIN as int, i32::MAX as int);
        },
        SettingValueView::Long(l) => {
            lemma_decimal_round_trip(l as int, i64::MIN as int, i64::MAX as int);
        },
        SettingValueView::Double(_) => {},
        SettingValueView::Text(_) => {},
        SettingValueView::Boolean(b) => {
            reveal_strlit("true");
            reveal_strlit("false");
            reveal_strlit("1");
            lemma_same_reflexive("true"@);
            lemma_same_reflexive("false"@);
            assert(parse_truth(value_text(value)) == Some(b));
        },
        SettingValueView::Color(r, g, b) => {
            lemma_color_round_trip(r, g, b);
        },
    }
}

/// The five keys of a `setting` element are five different texts.
pub proof fn lemma_setting_keys_differ()
    ensures
        "name"@ != "value"@,
        "name"@ != "dynamic"@,
        "name"@ != "data_type"@,
        "name"@ != "persisted"@,
        "value"@ != "dynamic"@,
        "value"@ != "data_type"@,
        "value"@ != "persisted"@,
        "dynamic"@ != "data_type"@,
        "dynamic"@ != "persisted"@,
        "data_type"@ != "persisted"@,
{
    reveal_strlit("name");
    reveal_strlit("value");
    reveal_strlit("dynamic");
    reveal_strlit("data_type");
    reveal_strlit("persisted");
    assert("name"@.len() == 4);
    assert("value"@.len() == 5);
    assert("dynamic"@.len() == 7);
    assert("data_type"@.len() == 9);
    assert("persisted"@.len() == 9);
    assert("data_type"@[0] == 'd');
    assert("persisted"@[0] == 'p');
}

/// The text of a truth value is read back as the truth value, in the
/// strict form too.
pub proof fn lemma_bool_text_round_trip(b: bool)
    ensures
        parse_strict_bool(bool_text(b)) == Some(b),
{
    reveal_strlit("true");
    reveal_strlit("false");
    assert("true"@.len() == 4);
    assert("false"@.len() == 5);
}

/// A setting that is written as an element is read back from it as the
/// setting it was.
pub proof fn lemma_record_round_trip(setting: SettingView)
    requires
        is_writable(setting.value),
    ensures
        record_of(setting_element(setting)) == Some(setting),
{
    let element = setting_element(setting);
    let a = element.attributes;
    lemma_setting_keys_differ();
    let a1 = a.drop_first();
    let a2 = a1.drop_first();
    let a3 = a2.drop_first();
    let a4 = a3.drop_first();
    assert(a4.drop_first() =~= Seq::<XmlAttributeView>::empty());
    assert(attribute_value(a4, "persisted"@) == Some(bool_text(setting.persisted)));
    assert(attribute_value(a3, "data_type"@) == Some(
        decimal_text(kind_of(setting.value).code()),
    ));
    assert(attribute_value(a3, "persisted"@) == attribute_value(a4, "persisted"@));
    assert(attribute_value(a2, "dynamic"@) == Some(bool_text(setting.dynamic)));
    assert(attribute_value(a2, "data_type"@) == attribute_value(a3, "data_type"@));
    assert(attribute_value(a2, "persisted"@) == attribute_value(a3, "persisted"@));
    assert(attribute_value(a1, "value"@) == Some(value_text(setting.value)));
    assert(attribute_value(a1, "dynamic"@) == attribute_value(a2, "dynamic"@));
    assert(attribute_value(a1, "data_type"@) == attribute_value(a2, "data_type"@));
    assert(attribute_value(a1, "persisted"@) == attribute_value(a2, "persisted"@));
    assert(attribute_value(a, "name"@) == Some(setting.key));
    assert(attribute_value(a, "value"@) == attribute_value(a1, "value"@));
    assert(attribute_value(a, "dynamic"@) == attribute_value(a1, "dynamic"@));
    assert(attribute_value(a, "data_type"@) == attribute_value(a1, "data_type"@));
    assert(attribute_value(a, "persisted"@) == attribute_value(a1, "persisted"@));
    let code = kind_of(setting.value).code();
    lemma_decimal_round_trip(code, 1, 6);
    assert(kind_with_code(code) == kind_of(setting.value));
    lemma_value_round_trip(setting.value);
    lemma_bool_text_round_trip(setting.dynamic);
    lemma_bool_text_round_trip(setting.persisted);
    assert(flag_of(a, "dynamic"@, false) == setting.dynamic);
    assert(flag_of(a, "persisted"@, true) == setting.persisted);
}

/// The entries that are persisted, in their order.
pub open spec fn persisted_only(entries: Seq<SettingView>) -> Seq<SettingView>
    decreases entries.len(),
{
    if entries.len() == 0 {
        Seq::empty()
    } else if entries.last().persisted {
        persisted_only(entries.drop_last()).push(entries.last())
    } else {
        persisted_only(entries.drop_last())
    }
}

/// Every entry can be written and read.
pub open spec fn all_writable(entries: Seq<SettingView>) -> bool {
    forall|i: int| 0 <= i < entries.len() ==> is_writable((#[trigger] entries[i]).value)
}

/// Reading pieces after other pieces is reading them into what the others
/// left.
pub proof fn lemma_loaded_in_turn(
    settings: Map<Seq<char>, SettingView>,
    first: Seq<XmlNodeView>,
    second: Seq<XmlNodeView>,
)
    ensures
        loaded(settings, first + second) == loaded(loaded(settings, first), second),
    decreases second.len(),
{
    if second.len() == 0 {
        assert(first + second =~= first);
    } else {
        assert((first + second).drop_last() =~= first + second.drop_last());
        assert((first + second).last() == second.last());
        lemma_loaded_in_turn(settings, first, second.drop_last());
    }
}

/// Reading the elements of the persisted entries puts each of them under
/// its key.
pub proof fn lemma_persisted_loaded(entries: Seq<SettingView>)
    requires
        all_writable(entries),
    ensures
        loaded(Map::empty(), persisted_nodes(entries)) == entries_map(persisted_only(entries)),
    decreases entries.len(),
{
    if entries.len() > 0 {
        let shorter = entries.drop_last();
        assert forall|i: int| 0 <= i < shorter.len() implies is_writable(
            (#[trigger] shorter[i]).value,
        ) by {
            assert(shorter[i] == entries[i]);
        }
        lemma_persisted_loaded(shorter);
        if entries.last().persisted {
            let last = entries.last();
            assert(is_writable(entries[entries.len() - 1].value));
            lemma_record_round_trip(last);
            let nodes = persisted_nodes(entries);
            assert(nodes.drop_last() =~= persisted_nodes(shorter));
            assert(nodes.last() == XmlNodeView::Empty(setting_element(last)));
            assert(persisted_only(entries).drop_last() =~= persisted_only(shorter));
        }
    }
}

/// A registry that reads the file of another into nothing holds the
/// persisted settings of the other, each as it was.
pub proof fn lemma_settings_file_round_trip(entries: Seq<SettingView>)
    requires
        all_writable(entries),
    ensures
        loaded(Map::empty(), settings_nodes(entries)) == entries_map(persisted_only(entries)),
{
    let open = XmlNodeView::Start(XmlElementView { name: "settings"@, attributes: Seq::empty() });
    let close = XmlNodeView::End("settings"@);
    let inner = persisted_nodes(entries);
    let empty = Map::<Seq<char>, SettingView>::empty();
    reveal_strlit("settings");
    reveal_strlit("setting");
    assert("settings"@.len() == 8);
    assert("setting"@.len() == 7);
    assert(node_record(open) is None);
    assert(node_record(close) is None);
    assert(seq![open].drop_last() =~= Seq::<XmlNodeView>::empty());
    assert(seq![open].last() == open);
    assert(loaded(empty, Seq::<XmlNodeView>::empty()) == empty);
    assert(loaded(empty, seq![open]) == loaded(empty, seq![open].drop_last()));
    assert(loaded(empty, seq![open]) == empty);
    lemma_loaded_in_turn(empty, seq![open], inner);
    lemma_persisted_loaded(entries);
    assert((seq![open] + inner + seq![close]).drop_last() =~= seq![open] + inner);
    assert((seq![open] + inner + seq![close]).last() == close);
}

} // verus!
