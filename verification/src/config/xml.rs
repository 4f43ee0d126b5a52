//! The XML that the configuration files are written in: elements with
//! attributes, nothing between them. The text is read and written by
//! `quick_xml`; what is verified here is what is handed to it and what is
//! made of what it hands back.

use vstd::prelude::*;
use vstd::utf8::*;
use quick_xml::events::{BytesEnd, BytesStart, Event};
use quick_xml::{Reader, Writer};
use crate::error::ConfigError;
use crate::text::{lemma_encode_concat, string_from_utf8, text_eq};

verus! {

/// The characters by which a nested element is indented.
pub const INDENT: usize = 2;

/// One attribute of an element.
#[derive(Debug, Clone)]
pub struct XmlAttribute {
    pub key: String,
    pub value: String,
}

/// An attribute as a mathematical value.
pub struct XmlAttributeView {
    pub key: Seq<char>,
    pub value: Seq<char>,
}

impl View for XmlAttribute {
    type V = XmlAttributeView;

    open spec fn view(&self) -> XmlAttributeView {
        XmlAttributeView { key: self.key@, value: self.value@ }
    }
}

/// An element's name and its attributes in the order they are written in.
#[derive(Debug, Clone)]
pub struct XmlElement {
    pub name: String,
    pub attributes: Vec<XmlAttribute>,
}

/// An element as a mathematical value.
pub struct XmlElementView {
    pub name: Seq<char>,
    pub attributes: Seq<XmlAttributeView>,
}

impl View for XmlElement {
    type V = XmlElementView;

    open spec fn view(&self) -> XmlElementView {
        XmlElementView {
            name: self.name@,
            attributes: self.attributes@.map_values(|a: XmlAttribute| a@),
        }
    }
}

/// One piece of a document: the opening tag of an element, an element
/// without content, or a closing tag.
#[derive(Debug, Clone)]
pub enum XmlNode {
    Start(XmlElement),
    Empty(XmlElement),
    End(String),
}

/// A piece of a document as a mathematical value.
pub enum XmlNodeView {
    Start(XmlElementView),
    Empty(XmlElementView),
    End(Seq<char>),
}

impl View for XmlNode {
    type V = XmlNodeView;

    open spec fn view(&self) -> XmlNodeView {
        match *self {
            XmlNode::Start(e) => XmlNodeView::Start(e@),
            XmlNode::Empty(e) => XmlNodeView::Empty(e@),
            XmlNode::End(name) => XmlNodeView::End(name@),
        }
    }
}

/// The pieces of a document as mathematical values.
pub open spec fn nodes_view(nodes: Seq<XmlNode>) -> Seq<XmlNodeView> {
    nodes.map_values(|n: XmlNode| n@)
}

impl XmlElement {
    /// An element without attributes.
    pub fn new(name: &str) -> (r: Self)
        ensures
            r@ == (XmlElementView { name: name@, attributes: Seq::empty() }),
    {
        let r = XmlElement { name: name.to_owned(), attributes: Vec::new() };
        assert(r@.attributes =~= Seq::empty());
        r
    }

    /// Adds an attribute behind those that are there.
    pub fn push(&mut self, key: &str, value: &str)
        ensures
            final(self)@ == (XmlElementView {
                name: old(self)@.name,
                attributes: old(self)@.attributes.push(
                    XmlAttributeView { key: key@, value: value@ },
                ),
            }),
    {
        self.attributes.push(XmlAttribute { key: key.to_owned(), value: value.to_owned() });
        assert(self@.attributes =~= old(self)@.attributes.push(
            XmlAttributeView { key: key@, value: value@ },
        ));
    }

    /// The value of the first attribute with the given key.
    pub fn get(&self, key: &str) -> (r: Option<&String>)
        ensures
            match r {
                Some(value) => attribute_value(self@.attributes, key@) == Some(value@),
                None => attribute_value(self@.attributes, key@) is None,
            },
    {
        let mut i: usize = 0;
        assert(self@.attributes.skip(0) =~= self@.attributes);
        while i < self.attributes.len()
            invariant
                i <= self.attributes@.len(),
                attribute_value(self@.attributes, key@) == attribute_value(
                    self@.attributes.skip(i as int),
                    key@,
                ),
            decreases self.attributes@.len() - i,
        {
            let ghost rest = self@.attributes.skip(i as int);
            assert(rest[0] == self.attributes@[i as int]@);
            assert(rest.drop_first() =~= self@.attributes.skip(i + 1));
            if text_eq(self.attributes[i].key.as_str(), key) {
                return Some(&self.attributes[i].value);
            }
            i += 1;
        }
        assert(self@.attributes.skip(i as int) =~= Seq::empty());
        None
    }
}

/// The value of the first attribute with the given key.
pub open spec fn attribute_value(attributes: Seq<XmlAttributeView>, key: Seq<char>) -> Option<
    Seq<char>,
>
    decreases attributes.len(),
{
    if attributes.len() == 0 {
        None
    } else if attributes[0].key == key {
        Some(attributes[0].value)
    } else {
        attribute_value(attributes.drop_first(), key)
    }
}

/// A character as it stands in an attribute's value: the five characters
/// that XML reserves are written as entities.
pub open spec fn escaped_char(c: char) -> Seq<char> {
    if c == '<' {
        "&lt;"@
    } else if c == '>' {
        "&gt;"@
    } else if c == '&' {
        "&amp;"@
    } else if c == '\'' {
        "&apos;"@
    } else if c == '"' {
        "&quot;"@
    } else {
        seq![c]
    }
}

/// A text as it stands in an attribute's value.
pub open spec fn escaped(text: Seq<char>) -> Seq<char>
    decreases text.len(),
{
    if text.len() == 0 {
        Seq::empty()
    } else {
        escaped(text.drop_last()) + escaped_char(text.last())
    }
}

/// An attribute as it stands in a tag: a space, the key, the value between
/// double quotes.
pub open spec fn attribute_text(attribute: XmlAttributeView) -> Seq<char> {
    seq![' '] + attribute.key + seq!['=', '"'] + escaped(attribute.value) + seq!['"']
}

/// The attributes of a tag, one after the other.
pub open spec fn attributes_text(attributes: Seq<XmlAttributeView>) -> Seq<char>
    decreases attributes.len(),
{
    if attributes.len() == 0 {
        Seq::empty()
    } else {
        attributes_text(attributes.drop_last()) + attribute_text(attributes.last())
    }
}

/// What stands between the brackets of a tag: the name, then the attributes.
pub open spec fn tag_text(element: XmlElementView) -> Seq<char> {
    element.name + attributes_text(element.attributes)
}

/// What precedes a tag: nothing before the first tag of a document, a line
/// break and the indentation before every other.
pub open spec fn line_start(breaks: bool, indent: nat) -> Seq<char> {
    if breaks {
        seq!['\n'] + Seq::new(indent, |i: int| ' ')
    } else {
        Seq::empty()
    }
}

/// A document while it is written: the text so far, the indentation of the
/// next tag, and whether a line break precedes it.
pub struct Layout {
    pub text: Seq<char>,
    pub indent: nat,
    pub breaks: bool,
}

/// The indentation after a closing tag: one step less, never below none.
pub open spec fn outdent(indent: nat) -> nat {
    if indent >= INDENT {
        (indent - INDENT) as nat
    } else {
        0
    }
}

/// The document after one more piece.
pub open spec fn write_node(layout: Layout, node: XmlNodeView) -> Layout {
    match node {
        XmlNodeView::Start(element) => Layout {
            text: layout.text + line_start(layout.breaks, layout.indent) + seq!['<'] + tag_text(
                element,
            ) + seq!['>'],
            indent: layout.indent + INDENT as nat,
            breaks: true,
        },
        XmlNodeView::Empty(element) => Layout {
            text: layout.text + line_start(layout.breaks, layout.indent) + seq!['<'] + tag_text(
                element,
            ) + seq!['/', '>'],
            indent: layout.indent,
            breaks: true,
        },
        XmlNodeView::End(name) => Layout {
            text: layout.text + line_start(layout.breaks, outdent(layout.indent)) + seq![
                '<',
                '/',
            ] + name + seq!['>'],
            indent: outdent(layout.indent),
            breaks: true,
        },
    }
}

/// The document after the given pieces.
pub open spec fn write_nodes(layout: Layout, nodes: Seq<XmlNodeView>) -> Layout
    decreases nodes.len(),
{
    if nodes.len() == 0 {
        layout
    } else {
        write_node(write_nodes(layout, nodes.drop_last()), nodes.last())
    }
}

/// The text of a document made of the given pieces.
pub open spec fn document_text(nodes: Seq<XmlNodeView>) -> Seq<char> {
    write_nodes(Layout { text: Seq::empty(), indent: 0, breaks: false }, nodes).text
}

/// The writer of `quick_xml`, carried as it is.
#[verifier::external_type_specification]
#[verifier::external_body]
#[verifier::reject_recursive_types(W)]
pub struct ExWriter<W>(Writer<W>);

/// The reader of `quick_xml`, carried as it is.
#[verifier::external_type_specification]
#[verifier::external_body]
#[verifier::reject_recursive_types(R)]
pub struct ExReader<R>(Reader<R>);

/// The tag of `quick_xml`, carried as it is.
#[verifier::external_type_specification]
#[verifier::external_body]
pub struct ExBytesStart<'a>(BytesStart<'a>);

/// The bytes that a writer has written.
pub uninterp spec fn writer_bytes(writer: &Writer<Vec<u8>>) -> Seq<u8>;

/// The number of characters by which a writer indents its next tag.
pub uninterp spec fn writer_indent(writer: &Writer<Vec<u8>>) -> nat;

/// Whether a writer puts a line break before its next tag.
pub uninterp spec fn writer_breaks(writer: &Writer<Vec<u8>>) -> bool;

/// What a writer has written and how it goes on, as a document in the
/// making.
pub open spec fn writer_holds(writer: &Writer<Vec<u8>>, layout: Layout) -> bool {
    &&& writer_bytes(writer) == encode_utf8(layout.text)
    &&& writer_indent(writer) == layout.indent
    &&& writer_breaks(writer) == layout.breaks
}

/// `Writer::new_with_indent` over an empty vector, indenting by two spaces:
/// nothing is written yet, and the first tag gets no line break.
#[verifier::external_body]
fn new_writer() -> (writer: Writer<Vec<u8>>)
    ensures
        writer_bytes(&writer) == Seq::<u8>::empty(),
        writer_indent(&writer) == 0,
        !writer_breaks(&writer),
{
    Writer::new_with_indent(Vec::new(), b' ', INDENT)
}

/// `Writer::write_event` with a `Start` event built by `BytesStart::new`
/// and `with_attributes`: the line start, then the tag between `<` and
/// `>`, each value escaped; the indentation grows by one step. Writing to
/// a vector does not fail.
#[verifier::external_body]
fn write_start(writer: &mut Writer<Vec<u8>>, element: &XmlElement)
    ensures
        writer_bytes(final(writer)) == writer_bytes(old(writer)) + encode_utf8(
            line_start(writer_breaks(old(writer)), writer_indent(old(writer))) + seq!['<']
                + tag_text(element@) + seq!['>'],
        ),
        writer_indent(final(writer)) == writer_indent(old(writer)) + INDENT,
        writer_breaks(final(writer)),
{
    let pairs = element.attributes.iter().map(|a| (a.key.as_str(), a.value.as_str()));
    let tag = BytesStart::new(element.name.as_str()).with_attributes(pairs);
    let _ = writer.write_event(Event::Start(tag));
}

/// `Writer::write_event` with an `Empty` event built in the same way: the
/// line start, then the tag between `<` and `/>`; the indentation stays.
#[verifier::external_body]
fn write_empty(writer: &mut Writer<Vec<u8>>, element: &XmlElement)
    ensures
        writer_bytes(final(writer)) == writer_bytes(old(writer)) + encode_utf8(
            line_start(writer_breaks(old(writer)), writer_indent(old(writer))) + seq!['<']
                + tag_text(element@) + seq!['/', '>'],
        ),
        writer_indent(final(writer)) == writer_indent(old(writer)),
        writer_breaks(final(writer)),
{
    let pairs = element.attributes.iter().map(|a| (a.key.as_str(), a.value.as_str()));
    let tag = BytesStart::new(element.name.as_str()).with_attributes(pairs);
    let _ = writer.write_event(Event::Empty(tag));
}

/// `Writer::write_event` with an `End` event built by `BytesEnd::new`: the
/// indentation shrinks by one step, never below none, then come the line
/// start and the name between `</` and `>`.
#[verifier::external_body]
fn write_end(writer: &mut Writer<Vec<u8>>, name: &str)
    ensures
        writer_bytes(final(writer)) == writer_bytes(old(writer)) + encode_utf8(
            line_start(writer_breaks(old(writer)), outdent(writer_indent(old(writer)))) + seq![
                '<',
                '/',
            ] + name@ + seq!['>'],
        ),
        writer_indent(final(writer)) == outdent(writer_indent(old(writer))),
        writer_breaks(final(writer)),
{
    let _ = writer.write_event(Event::End(BytesEnd::new(name)));
}

/// `Writer::into_inner`: the vector that was written to.
#[verifier::external_body]
fn writer_into_bytes(writer: Writer<Vec<u8>>) -> (bytes: Vec<u8>)
    ensures
        bytes@ == writer_bytes(&writer),
{
    writer.into_inner()
}

/// Writes one piece of a document.
fn write_one(writer: &mut Writer<Vec<u8>>, node: &XmlNode, Ghost(layout): Ghost<Layout>)
    requires
        writer_holds(old(writer), layout),
    ensures
        writer_holds(final(writer), write_node(layout, node@)),
{
    proof {
        let after = write_node(layout, node@).text;
        let added = after.skip(layout.text.len() as int);
        assert(after =~= layout.text + added);
        lemma_encode_concat(layout.text, added);
        match node@ {
            XmlNodeView::Start(element) => {
                assert(added =~= line_start(layout.breaks, layout.indent) + seq!['<'] + tag_text(
                    element,
                ) + seq!['>']);
            },
            XmlNodeView::Empty(element) => {
                assert(added =~= line_start(layout.breaks, layout.indent) + seq!['<'] + tag_text(
                    element,
                ) + seq!['/', '>']);
            },
            XmlNodeView::End(name) => {
                assert(added =~= line_start(layout.breaks, outdent(layout.indent)) + seq![
                    '<',
                    '/',
                ] + name + seq!['>']);
            },
        }
    }
    match node {
        XmlNode::Start(element) => write_start(writer, element),
        XmlNode::Empty(element) => write_empty(writer, element),
        XmlNode::End(name) => write_end(writer, name.as_str()),
    }
}

/// Writes a document: each opening and closing tag on a line of its own but
/// the first, nested elements indented by two spaces a level.
pub fn write_document(nodes: &Vec<XmlNode>) -> (text: String)
    ensures
        text@ == document_text(nodes_view(nodes@)),
{
    let mut writer = new_writer();
    let ghost mut layout = Layout { text: Seq::empty(), indent: 0, breaks: false };
    let mut i: usize = 0;
    while i < nodes.len()
        invariant
            i <= nodes@.len(),
            writer_holds(&writer, layout),
            layout == write_nodes(
                Layout { text: Seq::empty(), indent: 0, breaks: false },
                nodes_view(nodes@).take(i as int),
            ),
        decreases nodes@.len() - i,
    {
        write_one(&mut writer, &nodes[i], Ghost(layout));
        proof {
            let views = nodes_view(nodes@);
            assert(views.take(i + 1).drop_last() =~= views.take(i as int));
            assert(views.take(i + 1).last() == nodes@[i as int]@);
            layout = write_node(layout, nodes@[i as int]@);
        }
        i += 1;
    }
    assert(nodes_view(nodes@).take(i as int) =~= nodes_view(nodes@));
    let bytes = writer_into_bytes(writer);
    proof {
        encode_utf8_valid_utf8(layout.text);
        encode_utf8_decode_utf8(layout.text);
    }
    match string_from_utf8(bytes) {
        Ok(text) => text,
        Err(_) => String::new(),
    }
}

/// What the reader hands back for one step.
pub enum XmlEvent {
    /// An opening tag.
    Start(BytesStart<'static>),
    /// An element without content.
    Empty(BytesStart<'static>),
    /// A closing tag, with its name.
    End(String),
    /// Text, a comment, a declaration or the like.
    Other,
    /// The end of the input.
    Eof,
    /// The input is not well-formed at this place.
    Failed,
}

/// An event as a mathematical value.
pub enum XmlEventView {
    Start(BytesStart<'static>),
    Empty(BytesStart<'static>),
    End(Seq<char>),
    Other,
    Eof,
    Failed,
}

impl View for XmlEvent {
    type V = XmlEventView;

    open spec fn view(&self) -> XmlEventView {
        match *self {
            XmlEvent::Start(tag) => XmlEventView::Start(tag),
            XmlEvent::Empty(tag) => XmlEventView::Empty(tag),
            XmlEvent::End(name) => XmlEventView::End(name@),
            XmlEvent::Other => XmlEventView::Other,
            XmlEvent::Eof => XmlEventView::Eof,
            XmlEvent::Failed => XmlEventView::Failed,
        }
    }
}

/// What looking an attribute up in a tag gives.
pub enum AttrLookup {
    /// The attribute's value, unescaped.
    Found(String),
    /// The tag has no such attribute.
    Missing,
    /// The attribute's value holds an entity that cannot be resolved.
    Undecodable,
    /// The tag's attributes are not well-formed before the one looked for.
    Malformed,
}

/// A lookup's outcome as a mathematical value.
pub enum AttrLookupView {
    Found(Seq<char>),
    Missing,
    Undecodable,
    Malformed,
}

impl View for AttrLookup {
    type V = AttrLookupView;

    open spec fn view(&self) -> AttrLookupView {
        match *self {
            AttrLookup::Found(value) => AttrLookupView::Found(value@),
            AttrLookup::Missing => AttrLookupView::Missing,
            AttrLookup::Undecodable => AttrLookupView::Undecodable,
            AttrLookup::Malformed => AttrLookupView::Malformed,
        }
    }
}

/// The events that a reader which trims text yields for a document, up to
/// and with the end of the input or the first failure.
pub uninterp spec fn xml_events(xml: Seq<char>) -> Seq<XmlEventView>;

/// The events that a reader has yet to yield, up to and with the end of
/// the input or the first failure.
pub uninterp spec fn reader_pending(reader: &Reader<&[u8]>) -> Seq<XmlEventView>;

/// The name of a tag.
pub uninterp spec fn tag_name(tag: &BytesStart<'static>) -> Seq<char>;

/// What looking `key` up in a tag gives.
pub uninterp spec fn tag_attribute(tag: &BytesStart<'static>, key: Seq<char>) -> AttrLookupView;

/// Whether an event ends the reading.
pub open spec fn is_last(event: XmlEventView) -> bool {
    event is Eof || event is Failed
}

/// `Reader::from_str` with `trim_text(true)`: a reader that has the events
/// of the document before it, at least one.
#[verifier::external_body]
fn open_reader<'a>(xml: &'a str) -> (reader: Reader<&'a [u8]>)
    ensures
        reader_pending(&reader) == xml_events(xml@),
        reader_pending(&reader).len() > 0,
{
    let mut reader = Reader::from_str(xml);
    reader.trim_text(true);
    reader
}

/// `Reader::read_event`: the first of the events that the reader had
/// before it. The others stay before it, and unless the event ends the
/// reading there is at least one.
#[verifier::external_body]
fn next_event(reader: &mut Reader<&[u8]>) -> (event: XmlEvent)
    requires
        reader_pending(old(reader)).len() > 0,
    ensures
        event@ == reader_pending(old(reader))[0],
        reader_pending(final(reader)) == reader_pending(old(reader)).drop_first(),
        !is_last(event@) ==> reader_pending(final(reader)).len() > 0,
{
    match reader.read_event() {
        Ok(Event::Start(tag)) => XmlEvent::Start(tag.into_owned()),
        Ok(Event::Empty(tag)) => XmlEvent::Empty(tag.into_owned()),
        Ok(Event::End(tag)) => XmlEvent::End(String::from_utf8_lossy(tag.name().as_ref()).into_owned()),
        Ok(Event::Eof) => XmlEvent::Eof,
        Ok(_) => XmlEvent::Other,
        Err(_) => XmlEvent::Failed,
    }
}

/// `BytesStart::name`, read as UTF-8.
#[verifier::external_body]
fn name_of_tag(tag: &BytesStart<'static>) -> (name: String)
    ensures
        name@ == tag_name(tag),
{
    String::from_utf8_lossy(tag.name().as_ref()).into_owned()
}

/// `BytesStart::try_get_attribute`, then `Attribute::unescape_value` on
/// what it found.
#[verifier::external_body]
fn lookup_attribute(tag: &BytesStart<'static>, key: &str) -> (found: AttrLookup)
    ensures
        found@ == tag_attribute(tag, key@),
{
    match tag.try_get_attribute(key) {
        Ok(Some(attribute)) => match attribute.unescape_value() {
            Ok(value) => AttrLookup::Found(value.into_owned()),
            Err(_) => AttrLookup::Undecodable,
        },
        Ok(None) => AttrLookup::Missing,
        Err(_) => AttrLookup::Malformed,
    }
}

/// The events before the end of the input, or `None` where the reading
/// fails before it.
pub open spec fn events_before_end(pending: Seq<XmlEventView>) -> Option<Seq<XmlEventView>>
    decreases pending.len(),
{
    if pending.len() == 0 {
        Some(Seq::empty())
    } else {
        match pending[0] {
            XmlEventView::Eof => Some(Seq::empty()),
            XmlEventView::Failed => None,
            event => match events_before_end(pending.drop_first()) {
                Some(rest) => Some(seq![event] + rest),
                None => None,
            },
        }
    }
}

/// The events as mathematical values.
pub open spec fn events_view(events: Seq<XmlEvent>) -> Seq<XmlEventView> {
    events.map_values(|e: XmlEvent| e@)
}

/// Reads a document to its end. A document that is not well-formed is
/// refused; of any other the events come back in order.
pub fn read_events(xml: &str) -> (r: Result<Vec<XmlEvent>, ConfigError>)
    ensures
        match r {
            Ok(events) => events_before_end(xml_events(xml@)) == Some(events_view(events@)),
            Err(e) => e == ConfigError::MalformedXml && events_before_end(xml_events(xml@))
                is None,
        },
{
    let mut reader = open_reader(xml);
    let mut events: Vec<XmlEvent> = Vec::new();
    assert(events_view(events@) =~= Seq::empty());
    loop
        invariant
            reader_pending(&reader).len() > 0,
            events_before_end(xml_events(xml@)) == match events_before_end(
                reader_pending(&reader),
            ) {
                Some(rest) => Some(events_view(events@) + rest),
                None => None,
            },
        decreases reader_pending(&reader).len(),
    {
        let ghost before = reader_pending(&reader);
        let ghost read = events_view(events@);
        let event = next_event(&mut reader);
        match event {
            XmlEvent::Eof => {
                assert(read + Seq::<XmlEventView>::empty() =~= read);
                return Ok(events);
            },
            XmlEvent::Failed => {
                return Err(ConfigError::MalformedXml);
            },
            _ => {
                events.push(event);
                proof {
                    assert(events_view(events@) =~= read.push(before[0]));
                    match events_before_end(before.drop_first()) {
                        Some(rest) => {
                            assert(read + (seq![before[0]] + rest) =~= read.push(before[0])
                                + rest);
                        },
                        None => {},
                    }
                }
            },
        }
    }
}

/// The attributes that a kind of element may carry.
pub struct TagSchema {
    pub name: String,
    pub keys: Vec<String>,
}

/// A schema as a mathematical value.
pub struct TagSchemaView {
    pub name: Seq<char>,
    pub keys: Seq<Seq<char>>,
}

impl View for TagSchema {
    type V = TagSchemaView;

    open spec fn view(&self) -> TagSchemaView {
        TagSchemaView { name: self.name@, keys: self.keys@.map_values(|k: String| k@) }
    }
}

/// The schemas as mathematical values.
pub open spec fn schemas_view(schemas: Seq<TagSchema>) -> Seq<TagSchemaView> {
    schemas.map_values(|s: TagSchema| s@)
}

/// The keys that the first schema for `name` lists; none where no schema
/// is for that name.
pub open spec fn keys_for(schemas: Seq<TagSchemaView>, name: Seq<char>) -> Seq<Seq<char>>
    decreases schemas.len(),
{
    if schemas.len() == 0 {
        Seq::empty()
    } else if schemas[0].name == name {
        schemas[0].keys
    } else {
        keys_for(schemas.drop_first(), name)
    }
}

/// The attributes of a tag under the given keys, in the order of the keys.
/// A key that the tag lacks, or whose value cannot be unescaped, gives no
/// attribute. `None` where the tag's attributes are not well-formed.
pub open spec fn gathered(tag: &BytesStart<'static>, keys: Seq<Seq<char>>) -> Option<
    Seq<XmlAttributeView>,
>
    decreases keys.len(),
{
    if keys.len() == 0 {
        Some(Seq::empty())
    } else {
        match gathered(tag, keys.drop_last()) {
            None => None,
            Some(found) => match tag_attribute(tag, keys.last()) {
                AttrLookupView::Found(value) => Some(
                    found.push(XmlAttributeView { key: keys.last(), value }),
                ),
                AttrLookupView::Missing => Some(found),
                AttrLookupView::Undecodable => Some(found),
                AttrLookupView::Malformed => None,
            },
        }
    }
}

/// The element that a tag stands for under the given schemas.
pub open spec fn element_of(tag: &BytesStart<'static>, schemas: Seq<TagSchemaView>) -> Option<
    XmlElementView,
> {
    match gathered(tag, keys_for(schemas, tag_name(tag))) {
        Some(attributes) => Some(XmlElementView { name: tag_name(tag), attributes }),
        None => None,
    }
}

/// The pieces that the events stand for under the given schemas: tags
/// become elements, anything else but a closing tag is dropped. `None`
/// where a tag's attributes are not well-formed.
pub open spec fn nodes_of(events: Seq<XmlEventView>, schemas: Seq<TagSchemaView>) -> Option<
    Seq<XmlNodeView>,
>
    decreases events.len(),
{
    if events.len() == 0 {
        Some(Seq::empty())
    } else {
        match nodes_of(events.drop_last(), schemas) {
            None => None,
            Some(nodes) => match events.last() {
                XmlEventView::Start(tag) => match element_of(&tag, schemas) {
                    Some(element) => Some(nodes.push(XmlNodeView::Start(element))),
                    None => None,
                },
                XmlEventView::Empty(tag) => match element_of(&tag, schemas) {
                    Some(element) => Some(nodes.push(XmlNodeView::Empty(element))),
                    None => None,
                },
                XmlEventView::End(name) => Some(nodes.push(XmlNodeView::End(name))),
                _ => Some(nodes),
            },
        }
    }
}

/// Finds the keys that the schemas list for an element.
fn find_keys<'a>(schemas: &'a Vec<TagSchema>, name: &str) -> (r: Option<&'a Vec<String>>)
    ensures
        match r {
            Some(keys) => keys@.map_values(|k: String| k@) == keys_for(schemas_view(schemas@), name@),
            None => keys_for(schemas_view(schemas@), name@) == Seq::<Seq<char>>::empty(),
        },
{
    let mut i: usize = 0;
    assert(schemas_view(schemas@).skip(0) =~= schemas_view(schemas@));
    while i < schemas.len()
        invariant
            i <= schemas@.len(),
            keys_for(schemas_view(schemas@), name@) == keys_for(
                schemas_view(schemas@).skip(i as int),
                name@,
            ),
        decreases schemas@.len() - i,
    {
        let ghost rest = schemas_view(schemas@).skip(i as int);
        assert(rest[0] == schemas@[i as int]@);
        assert(rest.drop_first() =~= schemas_view(schemas@).skip(i + 1));
        if text_eq(schemas[i].name.as_str(), name) {
            return Some(&schemas[i].keys);
        }
        i += 1;
    }
    None
}

/// Makes an element of a tag: its name, and its attributes under the keys
/// that the schemas list for that name.
fn read_element(tag: &BytesStart<'static>, schemas: &Vec<TagSchema>) -> (r: Option<XmlElement>)
    ensures
        match r {
            Some(element) => element_of(tag, schemas_view(schemas@)) == Some(element@),
            None => element_of(tag, schemas_view(schemas@)) is None,
        },
{
    let name = name_of_tag(tag);
    let mut element = XmlElement { name, attributes: Vec::new() };
    assert(element@.attributes =~= Seq::empty());
    match find_keys(schemas, element.name.as_str()) {
        None => Some(element),
        Some(keys) => {
            let ghost wanted = keys@.map_values(|k: String| k@);
            let mut i: usize = 0;
            while i < keys.len()
                invariant
                    i <= keys@.len(),
                    wanted == keys@.map_values(|k: String| k@),
                    wanted == keys_for(schemas_view(schemas@), tag_name(tag)),
                    element@.name == tag_name(tag),
                    gathered(tag, wanted.take(i as int)) == Some(element@.attributes),
                decreases keys@.len() - i,
            {
                proof {
                    assert(wanted.take(i + 1).drop_last() =~= wanted.take(i as int));
                    assert(wanted.take(i + 1).last() == keys@[i as int]@);
                }
                match lookup_attribute(tag, keys[i].as_str()) {
                    AttrLookup::Found(value) => {
                        let ghost before = element@.attributes;
                        element.attributes.push(XmlAttribute { key: keys[i].clone(), value });
                        assert(element@.attributes =~= before.push(
                            XmlAttributeView { key: keys@[i as int]@, value: value@ },
                        ));
                    },
                    AttrLookup::Missing => {},
                    AttrLookup::Undecodable => {},
                    AttrLookup::Malformed => {
                        proof {
                            lemma_gathered_fails(tag, wanted, i + 1);
                        }
                        return None;
                    },
                }
                i += 1;
            }
            assert(wanted.take(i as int) =~= wanted);
            Some(element)
        },
    }
}

/// Once the gathering has failed on some of the keys it fails on all.
proof fn lemma_gathered_fails(tag: &BytesStart<'static>, keys: Seq<Seq<char>>, upto: int)
    requires
        0 <= upto <= keys.len(),
        gathered(tag, keys.take(upto)) is None,
    ensures
        gathered(tag, keys) is None,
    decreases keys.len() - upto,
{
    if upto < keys.len() {
        assert(keys.take(upto + 1).drop_last() =~= keys.take(upto));
        lemma_gathered_fails(tag, keys, upto + 1);
    } else {
        assert(keys.take(upto) =~= keys);
    }
}

/// Once the conversion has failed on some of the events it fails on all.
proof fn lemma_nodes_fail(events: Seq<XmlEventView>, schemas: Seq<TagSchemaView>, upto: int)
    requires
        0 <= upto <= events.len(),
        nodes_of(events.take(upto), schemas) is None,
    ensures
        nodes_of(events, schemas) is None,
    decreases events.len() - upto,
{
    if upto < events.len() {
        assert(events.take(upto + 1).drop_last() =~= events.take(upto));
        lemma_nodes_fail(events, schemas, upto + 1);
    } else {
        assert(events.take(upto) =~= events);
    }
}

/// Turns the events of a document into its pieces. Tags become elements
/// with the attributes that the schemas list for them; text and the like
/// are dropped. A tag whose attributes are not well-formed makes the
/// document malformed.
pub fn nodes_from_events(events: &Vec<XmlEvent>, schemas: &Vec<TagSchema>) -> (r: Result<
    Vec<XmlNode>,
    ConfigError,
>)
    ensures
        match r {
            Ok(nodes) => nodes_of(events_view(events@), schemas_view(schemas@)) == Some(
                nodes_view(nodes@),
            ),
            Err(e) => e == ConfigError::MalformedXml && nodes_of(
                events_view(events@),
                schemas_view(schemas@),
            ) is None,
        },
{
    let mut nodes: Vec<XmlNode> = Vec::new();
    let ghost all = events_view(events@);
    let ghost rules = schemas_view(schemas@);
    assert(nodes_view(nodes@) =~= Seq::empty());
    let mut i: usize = 0;
    while i < events.len()
        invariant
            i <= events@.len(),
            all == events_view(events@),
            rules == schemas_view(schemas@),
            nodes_of(all.take(i as int), rules) == Some(nodes_view(nodes@)),
        decreases events@.len() - i,
    {
        proof {
            assert(all.take(i + 1).drop_last() =~= all.take(i as int));
            assert(all.take(i + 1).last() == events@[i as int]@);
        }
        let ghost before = nodes_view(nodes@);
        match &events[i] {
            XmlEvent::Start(tag) => match read_element(tag, schemas) {
                Some(element) => {
                    nodes.push(XmlNode::Start(element));
                    assert(nodes_view(nodes@) =~= before.push(XmlNodeView::Start(element@)));
                },
                None => {
                    proof {
                        lemma_nodes_fail(all, rules, i + 1);
                    }
                    return Err(ConfigError::MalformedXml);
                },
            },
            XmlEvent::Empty(tag) => match read_element(tag, schemas) {
                Some(element) => {
                    nodes.push(XmlNode::Empty(element));
                    assert(nodes_view(nodes@) =~= before.push(XmlNodeView::Empty(element@)));
                },
                None => {
                    proof {
                        lemma_nodes_fail(all, rules, i + 1);
                    }
                    return Err(ConfigError::MalformedXml);
                },
            },
            XmlEvent::End(name) => {
                nodes.push(XmlNode::End(name.clone()));
                assert(nodes_view(nodes@) =~= before.push(XmlNodeView::End(name@)));
            },
            _ => {},
        }
        i += 1;
    }
    assert(all.take(i as int) =~= all);
    Ok(nodes)
}

/// What reading a document under the given schemas gives: its pieces, or
/// `None` where it is not well-formed.
pub open spec fn parsed(xml: Seq<char>, schemas: Seq<TagSchemaView>) -> Option<Seq<XmlNodeView>> {
    match events_before_end(xml_events(xml)) {
        None => None,
        Some(events) => nodes_of(events, schemas),
    }
}

/// Reads a document into its pieces. A document that is not well-formed is
/// refused.
pub fn read_document(xml: &str, schemas: &Vec<TagSchema>) -> (r: Result<Vec<XmlNode>, ConfigError>)
    ensures
        match r {
            Ok(nodes) => parsed(xml@, schemas_view(schemas@)) == Some(nodes_view(nodes@)),
            Err(e) => e == ConfigError::MalformedXml && parsed(xml@, schemas_view(schemas@))
                is None,
        },
{
    match read_events(xml) {
        Err(e) => Err(e),
        Ok(events) => nodes_from_events(&events, schemas),
    }
}

/// A schema for elements of the given name with the given attribute keys.
pub fn schema(name: &str, keys: Vec<String>) -> (r: TagSchema)
    ensures
        r@ == (TagSchemaView { name: name@, keys: keys@.map_values(|k: String| k@) }),
{
    TagSchema { name: name.to_owned(), keys }
}

} // verus!
