use offset_explorer::config::xml::{
    nodes_from_events, read_document, read_events, schema, write_document, XmlElement, XmlEvent,
    XmlNode,
};
use offset_explorer::error::ConfigError;
use offset_explorer::text::{
    chars_of, compare_bytes, compare_text, eq_ignore_ascii_case, format_bool, format_integer,
    format_unsigned, parse_bool, parse_integer, string_of, text_eq, to_ascii_lower,
};

fn element(name: &str, attributes: &[(&str, &str)]) -> XmlElement {
    let mut e = XmlElement::new(name);
    for (k, v) in attributes {
        e.push(k, v);
    }
    e
}

#[test]
fn a_document_is_written_with_indentation_and_escapes() {
    let nodes = vec![
        XmlNode::Start(element("a", &[])),
        XmlNode::Start(element("b", &[("k", "v"), ("q", "<\"'&>")])),
        XmlNode::Empty(element("c", &[("ü", "ö")])),
        XmlNode::End("b".to_string()),
        XmlNode::End("a".to_string()),
        XmlNode::End("extra".to_string()),
        XmlNode::Empty(element("d", &[])),
    ];
    assert_eq!(
        write_document(&nodes),
        "<a>\n  <b k=\"v\" q=\"&lt;&quot;&apos;&amp;&gt;\">\n    <c ü=\"ö\"/>\n  </b>\n</a>\n</extra>\n<d/>"
    );
    assert_eq!(write_document(&vec![]), "");
    assert_eq!(write_document(&vec![XmlNode::End("x".to_string())]), "</x>");
}

#[test]
fn a_document_is_read_into_its_pieces() {
    let schemas = vec![
        schema("b", vec!["q".to_string(), "k".to_string(), "missing".to_string()]),
        schema("b", vec!["never used".to_string()]),
    ];
    let xml = "<?xml version=\"1.0\"?>\n<a x=\"1\">text<b k=\"v\" q=\"&lt;&amp;&#65;\" other=\"dropped\"/><!-- c --></a>";
    let nodes = read_document(xml, &schemas).unwrap();
    let text = format!("{:?}", nodes);
    let expected = vec![
        XmlNode::Start(element("a", &[])),
        XmlNode::Empty(element("b", &[("q", "<&A"), ("k", "v")])),
        XmlNode::End("a".to_string()),
    ];
    assert_eq!(text, format!("{:?}", expected));
    assert_eq!(read_document("<a><b></a>", &schemas).err(), Some(ConfigError::MalformedXml));
    assert_eq!(read_document("<b q=\"1\" q=\"2\" k/>", &schemas).err(), Some(ConfigError::MalformedXml));
    // An entity that cannot be resolved makes the attribute count as absent.
    let nodes = read_document("<b q=\"&nope;\" k=\"v\"/>", &schemas).unwrap();
    assert_eq!(format!("{:?}", nodes), format!("{:?}", vec![XmlNode::Empty(element("b", &[("k", "v")]))]));
    let events = read_events("<a>t</a>").unwrap();
    assert_eq!(events.len(), 3);
    assert!(matches!(events[0], XmlEvent::Start(_)));
    assert!(matches!(events[1], XmlEvent::Other));
    assert!(matches!(&events[2], XmlEvent::End(name) if name == "a"));
    assert_eq!(nodes_from_events(&events, &schemas).unwrap().len(), 2);
    assert!(read_events("<a").is_err());
}

#[test]
fn elements_answer_for_their_first_attribute_of_a_key() {
    let e = element("x", &[("a", "1"), ("b", "2"), ("a", "3")]);
    assert_eq!(e.get("a"), Some(&"1".to_string()));
    assert_eq!(e.get("b"), Some(&"2".to_string()));
    assert_eq!(e.get("c"), None);
    assert_eq!(e.get("A"), None);
}

#[test]
fn numbers_are_written_and_read_in_decimal() {
    for v in [0i64, 1, -1, 9, 10, 11, 99, 100, -100, 1234567890, i64::MAX, i64::MIN] {
        assert_eq!(format_integer(v), v.to_string());
        assert_eq!(parse_integer(&v.to_string(), i64::MIN, i64::MAX), Some(v));
    }
    for v in [0u64, 7, 10, u64::MAX] {
        assert_eq!(format_unsigned(v), v.to_string());
    }
    for text in ["", "+", "-", "1-", "--1", "1 ", "0x1", "9223372036854775808", "-9223372036854775809", "٣"] {
        assert_eq!(parse_integer(text, i64::MIN, i64::MAX), text.parse::<i64>().ok(), "{:?}", text);
    }
    for text in ["0", "+0", "-0", "255", "256", "-1", "+255", "00255", "0256"] {
        assert_eq!(parse_integer(text, 0, 255).map(|v| v as u8), text.parse::<u8>().ok(), "{:?}", text);
    }
    for text in ["127", "128", "-128", "-129", "+127", "-0128"] {
        assert_eq!(parse_integer(text, -128, 127).map(|v| v as i8), text.parse::<i8>().ok(), "{:?}", text);
    }
    assert_eq!(parse_integer("5", 6, 9), None);
    assert_eq!(parse_integer("7", 6, 9), Some(7));
    assert_eq!(parse_integer("-7", -9, -6), Some(-7));
    assert_eq!(parse_integer("7", -9, -6), None);
}

#[test]
fn texts_are_compared_as_specified() {
    assert!(text_eq("abc", "abc"));
    assert!(!text_eq("abc", "abd"));
    assert!(!text_eq("abc", "ab"));
    assert!(text_eq("", ""));
    assert!(eq_ignore_ascii_case("Prod", "pROD"));
    assert!(!eq_ignore_ascii_case("Prod", "Prod "));
    assert!(!eq_ignore_ascii_case("É", "é"));
    assert!(eq_ignore_ascii_case("é[", "é["));
    assert!(!eq_ignore_ascii_case("[", "{"));
    assert!(!eq_ignore_ascii_case("@", "`"));
    assert_eq!(to_ascii_lower('A'), 'a');
    assert_eq!(to_ascii_lower('Z'), 'z');
    assert_eq!(to_ascii_lower('['), '[');
    assert_eq!(to_ascii_lower('É'), 'É');
    for (a, b) in [("", ""), ("", "a"), ("a", ""), ("a", "b"), ("ab", "a"), ("B", "a"), ("é", "z"), ("a", "a")] {
        let expected = match a.cmp(b) {
            std::cmp::Ordering::Less => -1,
            std::cmp::Ordering::Equal => 0,
            std::cmp::Ordering::Greater => 1,
        };
        assert_eq!(compare_text(a, b), expected, "{:?} {:?}", a, b);
        assert_eq!(compare_bytes(a.as_bytes(), b.as_bytes()), expected);
    }
    assert_eq!(chars_of("aé世"), vec!['a', 'é', '世']);
    assert_eq!(string_of(&['a', 'é', '世']), "aé世");
    assert_eq!(parse_bool("true"), Some(true));
    assert_eq!(parse_bool("false"), Some(false));
    assert_eq!(parse_bool("True"), None);
    assert_eq!((format_bool(true), format_bool(false)), ("true", "false"));
}

#[test]
fn refusals_are_put_in_words() {
    assert_eq!(ConfigError::RootNotRemovable.describe(), "the root group cannot be removed");
    assert_eq!(ConfigError::MalformedXml.describe(), "the text is not well-formed XML");
    assert_eq!(
        offset_explorer::error::ValidationError::EmptyPath.describe(),
        "the path is empty"
    );
    assert_eq!(
        offset_explorer::error::DecodeError::InvalidJson.describe(),
        "the bytes are no JSON text"
    );
}
