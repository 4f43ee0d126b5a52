use offset_explorer::config::settings::{
    is_double_literal, parse_color_text, parse_lenient_bool, setting_from_element,
    setting_to_element, Setting, SettingDataType, SettingValue, UserSettings,
};
use offset_explorer::config::xml::{XmlElement, XmlNode};
use offset_explorer::error::ConfigError;

fn element(name: &str, attributes: &[(&str, &str)]) -> XmlElement {
    let mut e = XmlElement::new(name);
    for (k, v) in attributes {
        e.push(k, v);
    }
    e
}

#[test]
fn data_types_have_the_codes_one_to_six() {
    let all = [
        (1, SettingDataType::Integer, "Integer"),
        (2, SettingDataType::Long, "Long"),
        (3, SettingDataType::Double, "Double"),
        (4, SettingDataType::String, "String"),
        (5, SettingDataType::Boolean, "Boolean"),
        (6, SettingDataType::Color, "Color"),
    ];
    for (code, kind, name) in all {
        assert_eq!(SettingDataType::from_i32(code), Ok(kind));
        assert_eq!(kind.as_i32(), code);
        assert_eq!(kind.as_str(), name);
    }
    assert_eq!(SettingDataType::from_i32(0), Err(ConfigError::UnknownDataType));
    assert_eq!(SettingDataType::from_i32(7), Err(ConfigError::UnknownDataType));
    assert_eq!(SettingDataType::from_i32(-1), Err(ConfigError::UnknownDataType));
}

#[test]
fn an_integer_is_read_as_int_and_not_as_string() {
    let mut settings = UserSettings::new();
    settings.set("answer", SettingValue::Integer(5), true, true);
    assert_eq!(settings.get_int("answer"), Ok(5));
    assert_eq!(settings.get_long("answer"), Ok(5));
    assert_eq!(settings.get_string("answer"), Err(ConfigError::TypeMismatch));
    assert_eq!(settings.get_bool("answer"), Err(ConfigError::TypeMismatch));
    assert_eq!(settings.get_int("no such key"), Err(ConfigError::SettingNotFound));
}

#[test]
fn the_coercions_are_as_defined() {
    let mut settings = UserSettings::empty();
    settings.set("long", SettingValue::Long(0x1_0000_0007), false, true);
    settings.set("flag", SettingValue::Boolean(true), false, true);
    settings.set("off", SettingValue::Boolean(false), false, true);
    settings.set("text", SettingValue::String("hello".to_string()), false, true);
    settings.set("negative", SettingValue::Long(-1), false, true);
    assert_eq!(settings.get_int("long"), Ok(7));
    assert_eq!(settings.get_int("negative"), Ok(-1));
    assert_eq!(settings.get_long("long"), Ok(0x1_0000_0007));
    assert_eq!(settings.get_string("flag"), Ok("true".to_string()));
    assert_eq!(settings.get_string("off"), Ok("false".to_string()));
    assert_eq!(settings.get_string("text"), Ok("hello".to_string()));
    assert_eq!(settings.get_bool("flag"), Ok(true));
    assert_eq!(settings.get_bool("text"), Err(ConfigError::TypeMismatch));
    assert_eq!(settings.get_long("text"), Err(ConfigError::TypeMismatch));
    assert_eq!(settings.get_int("flag"), Err(ConfigError::TypeMismatch));
}

#[test]
fn set_overwrites_and_keeps_the_keys_apart() {
    let mut settings = UserSettings::empty();
    assert_eq!(settings.len(), 0);
    settings.set("b", SettingValue::Integer(1), false, true);
    settings.set("a", SettingValue::Integer(2), false, true);
    settings.set("c", SettingValue::Integer(3), false, true);
    settings.set("b", SettingValue::String("now text".to_string()), true, false);
    assert_eq!(settings.len(), 3);
    assert_eq!(settings.get_int("a"), Ok(2));
    assert_eq!(settings.get_int("c"), Ok(3));
    let b = settings.get("b").unwrap();
    assert_eq!(b.key, "b");
    assert_eq!(b.data_type(), SettingDataType::String);
    assert!(b.dynamic);
    assert!(!b.persisted);
    assert!(settings.get("B").is_none());
}

#[test]
fn a_new_registry_holds_the_defaults() {
    let settings = UserSettings::new();
    assert_eq!(settings.len(), 39);
    assert_eq!(settings.get_int("browserwindow_maxrows"), Ok(100));
    assert_eq!(settings.get_int("max.messages.bytes"), Ok(1048576));
    assert_eq!(settings.get_bool("dataexport_export_key"), Ok(false));
    assert_eq!(settings.get_long("datafind_message_ccount"), Ok(1000));
    assert_eq!(settings.get_string("dataimport_key_file_pattern"), Ok("key_#pid#_sid#.bin".to_string()));
    assert_eq!(settings.get_string("storm_root"), Ok("/".to_string()));
    assert_eq!(settings.get_string("dataexport_dest_dir"), Ok(String::new()));
    let font = settings.get("font_size").unwrap();
    assert!(!font.dynamic);
    assert!(font.persisted);
    assert!(settings.get("zookeeper_timeout").unwrap().dynamic);
}

#[test]
fn values_are_written_and_read_back_in_their_kind() {
    let cases = vec![
        (SettingValue::Integer(-42), "-42"),
        (SettingValue::Integer(i32::MIN), "-2147483648"),
        (SettingValue::Long(i64::MAX), "9223372036854775807"),
        (SettingValue::Long(i64::MIN), "-9223372036854775808"),
        (SettingValue::Long(0), "0"),
        (SettingValue::Double("2.5e-3".to_string()), "2.5e-3"),
        (SettingValue::String("a, b".to_string()), "a, b"),
        (SettingValue::Boolean(true), "true"),
        (SettingValue::Boolean(false), "false"),
        (SettingValue::Color { r: 0, g: 128, b: 255 }, "0,128,255"),
    ];
    for (value, text) in cases {
        assert_eq!(value.to_xml_string(), text);
        let back = SettingValue::from_string(text, value.data_type()).unwrap();
        assert_eq!(format!("{:?}", back), format!("{:?}", value));
    }
}

#[test]
fn unparsable_values_are_refused_kind_by_kind() {
    let bad = [
        ("", SettingDataType::Integer),
        ("12a", SettingDataType::Integer),
        ("2147483648", SettingDataType::Integer),
        ("-2147483649", SettingDataType::Integer),
        ("+", SettingDataType::Integer),
        (" 1", SettingDataType::Integer),
        ("9223372036854775808", SettingDataType::Long),
        ("1.5", SettingDataType::Long),
        ("abc", SettingDataType::Double),
        (".", SettingDataType::Double),
        ("1e", SettingDataType::Double),
        ("yes", SettingDataType::Boolean),
        ("", SettingDataType::Boolean),
        ("1,2", SettingDataType::Color),
        ("1,2,3,4", SettingDataType::Color),
        ("1,2,256", SettingDataType::Color),
        ("1,-2,3", SettingDataType::Color),
        ("1, 2,3", SettingDataType::Color),
    ];
    for (text, kind) in bad {
        assert!(
            matches!(SettingValue::from_string(text, kind), Err(ConfigError::UnparsableValue)),
            "{:?} as {:?}",
            text,
            kind
        );
    }
    let good = [
        ("+7", SettingDataType::Integer),
        ("-0", SettingDataType::Integer),
        ("0007", SettingDataType::Integer),
        ("00000000000000000000000000007", SettingDataType::Long),
        ("1", SettingDataType::Boolean),
        ("0", SettingDataType::Boolean),
        ("TRUE", SettingDataType::Boolean),
        ("False", SettingDataType::Boolean),
        ("+1,02,3", SettingDataType::Color),
        ("", SettingDataType::String),
        ("-inf", SettingDataType::Double),
        ("NaN", SettingDataType::Double),
        ("+.5E+10", SettingDataType::Double),
        ("5.", SettingDataType::Double),
    ];
    for (text, kind) in good {
        assert!(SettingValue::from_string(text, kind).is_ok(), "{:?} as {:?}", text, kind);
    }
}

#[test]
fn the_grammar_of_doubles_is_that_of_the_language() {
    for text in ["0", "1.5", "1.", ".5", "1e5", "1E-5", "+1.5e+5", "-0.0", "inf", "+Infinity", "-nan", "007.00"] {
        assert!(text.parse::<f64>().is_ok(), "{}", text);
        assert!(is_double_literal(text), "{}", text);
    }
    for text in ["", "+", "-", ".", "e5", "1e", "1e+", "1.5.5", "1 ", " 1", "0x10", "infinit", "nanx", "1,5", "--1", "1e5.5", "١"] {
        assert!(text.parse::<f64>().is_err(), "{}", text);
        assert!(!is_double_literal(text), "{}", text);
    }
}

#[test]
fn truth_values_and_colours() {
    assert_eq!(parse_lenient_bool("tRuE"), Some(true));
    assert_eq!(parse_lenient_bool("1"), Some(true));
    assert_eq!(parse_lenient_bool("FALSE"), Some(false));
    assert_eq!(parse_lenient_bool("0"), Some(false));
    assert_eq!(parse_lenient_bool("2"), None);
    assert_eq!(parse_lenient_bool("true "), None);
    assert_eq!(parse_color_text("255,0,17"), Some((255, 0, 17)));
    assert_eq!(parse_color_text(",,"), None);
    assert_eq!(parse_color_text("1,2,"), None);
    assert_eq!(parse_color_text("1;2;3"), None);
}

#[test]
fn the_settings_file_is_sorted_and_holds_the_persisted_only() {
    let mut settings = UserSettings::empty();
    settings.set("zeta", SettingValue::Integer(1), true, true);
    settings.set("alpha", SettingValue::String("a<b & \"c\"".to_string()), false, true);
    settings.set("hidden", SettingValue::Boolean(true), true, false);
    settings.set("Beta", SettingValue::Color { r: 1, g: 2, b: 3 }, true, true);
    let xml = settings.to_xml().unwrap();
    assert_eq!(
        xml,
        "<settings>\n  \
         <setting name=\"Beta\" value=\"1,2,3\" dynamic=\"true\" data_type=\"6\" persisted=\"true\"/>\n  \
         <setting name=\"alpha\" value=\"a&lt;b &amp; &quot;c&quot;\" dynamic=\"false\" data_type=\"4\" persisted=\"true\"/>\n  \
         <setting name=\"zeta\" value=\"1\" dynamic=\"true\" data_type=\"1\" persisted=\"true\"/>\n\
         </settings>"
    );
    assert_eq!(UserSettings::empty().to_xml().unwrap(), "<settings>\n</settings>");
}

#[test]
fn the_settings_file_round_trips() {
    let mut settings = UserSettings::new();
    settings.set("custom.colour", SettingValue::Color { r: 9, g: 8, b: 7 }, false, true);
    settings.set("custom.ratio", SettingValue::Double("0.75".to_string()), true, true);
    settings.set("custom.text", SettingValue::String("<&>'\" ü".to_string()), true, true);
    settings.set("font_size", SettingValue::Integer(14), false, true);
    let xml = settings.to_xml().unwrap();
    let mut loaded = UserSettings::empty();
    loaded.from_xml(&xml).unwrap();
    assert_eq!(loaded.len(), settings.len());
    assert_eq!(loaded.to_xml().unwrap(), xml);
    assert_eq!(loaded.get_int("font_size"), Ok(14));
    assert_eq!(loaded.get_string("custom.text"), Ok("<&>'\" ü".to_string()));
    assert!(!loaded.get("custom.colour").unwrap().dynamic);
}

#[test]
fn a_record_that_cannot_be_read_does_not_stop_the_others() {
    let xml = r#"<settings>
  <setting name="first" value="1" dynamic="true" data_type="1" persisted="true"/>
  <setting name="broken" value="not a number" dynamic="true" data_type="1" persisted="true"/>
  <setting name="no_type" value="1" dynamic="true" persisted="true"/>
  <setting name="bad_type" value="1" dynamic="true" data_type="9" persisted="true"/>
  <setting value="1" dynamic="true" data_type="1" persisted="true"/>
  <other name="ignored" value="1" data_type="1"/>
  <setting name="last" value="0,0,0" data_type="6"></setting>
</settings>"#;
    let mut settings = UserSettings::empty();
    assert_eq!(settings.from_xml(xml), Ok(()));
    assert_eq!(settings.len(), 2);
    assert_eq!(settings.get_int("first"), Ok(1));
    assert!(settings.get("broken").is_none());
    let last = settings.get("last").unwrap();
    assert_eq!(last.data_type(), SettingDataType::Color);
    assert!(!last.dynamic);
    assert!(last.persisted);
}

#[test]
fn a_file_that_is_no_xml_leaves_the_registry_as_it_is() {
    let mut settings = UserSettings::new();
    let before = settings.to_xml().unwrap();
    assert_eq!(
        settings.from_xml("<settings><setting name=\"a\" value=\"1\" data_type=\"1\"/></wrong>"),
        Err(ConfigError::MalformedXml)
    );
    assert_eq!(
        settings.from_xml("<settings><setting name=\"a\" name=\"b\" value data_type=\"1\"/></settings>"),
        Err(ConfigError::MalformedXml)
    );
    assert_eq!(settings.to_xml().unwrap(), before);
    assert_eq!(settings.from_xml(""), Ok(()));
    assert_eq!(settings.to_xml().unwrap(), before);
}

#[test]
fn elements_and_settings_correspond() {
    let setting = Setting::new("k".to_string(), SettingValue::Long(-5), true, false);
    let written = setting_to_element(&setting);
    assert_eq!(written.name, "setting");
    let pairs: Vec<(&str, &str)> =
        written.attributes.iter().map(|a| (a.key.as_str(), a.value.as_str())).collect();
    assert_eq!(
        pairs,
        vec![("name", "k"), ("value", "-5"), ("dynamic", "true"), ("data_type", "2"), ("persisted", "false")]
    );
    let read = setting_from_element(&written).unwrap();
    assert_eq!(format!("{:?}", read), format!("{:?}", setting));
    assert!(setting_from_element(&element("setting", &[("name", "k"), ("value", "x"), ("data_type", "5")])).is_none());
    assert!(setting_from_element(&element("sitting", &[("name", "k"), ("value", "1"), ("data_type", "5")])).is_none());
    let defaults = setting_from_element(&element(
        "setting",
        &[("value", "TRUE"), ("name", "k"), ("data_type", "5"), ("dynamic", "1"), ("persisted", "no")],
    ))
    .unwrap();
    assert!(!defaults.dynamic);
    assert!(defaults.persisted);
    let mut settings = UserSettings::empty();
    settings.from_nodes(&vec![
        XmlNode::Start(element("setting", &[("name", "x"), ("value", "1"), ("data_type", "1")])),
        XmlNode::End("setting".to_string()),
        XmlNode::Empty(element("setting", &[("name", "x"), ("value", "2"), ("data_type", "2")])),
    ]);
    assert_eq!(settings.len(), 1);
    assert_eq!(settings.get("x").unwrap().data_type(), SettingDataType::Long);
    assert_eq!(settings.get_int("x"), Ok(2));
}
