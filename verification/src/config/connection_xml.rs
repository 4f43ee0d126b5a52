//! Connection records as XML: one `connection` element for each record,
//! with its folders and its topics nested in it. Secrets are masked on the
//! way out and unmasked on the way in.

use vstd::prelude::*;
use crate::config::crypto::{
    decrypt_password, encrypt_password, lemma_secret_comes_back, spec_decode, spec_encode,
    MAX_SECRET_LEN,
};
use crate::config::server_connection::{
    add_all_outcome, connections_view, text_opt, with_topic, BrokerSecurityType, ClusterVersion,
    ServerConnection, ServerConnectionSettings, ServerConnectionView, StoreView,
    TopicDecoderConfig, TopicDecoderConfigView, TopicEntry, TopicEntryView, TopicFolder,
};
use crate::config::settings::{bool_text, flag_of, UserSettings};
use crate::config::xml::{
    attribute_value, document_text, nodes_view, parsed, read_document, schema, schemas_view,
    write_document, TagSchema, TagSchemaView, XmlAttributeView, XmlElement, XmlElementView,
    XmlNode, XmlNodeView,
};
use crate::error::ConfigError;
use crate::text::{
    decimal_text, format_bool, format_integer, parse_bool, parse_decimal, parse_integer, text_eq,
};
use vstd::utf8::encode_utf8;

verus! {

/// One attribute where the value is there, none where it is absent.
pub open spec fn optional_attribute(key: Seq<char>, value: Option<Seq<char>>) -> Seq<
    XmlAttributeView,
> {
    match value {
        Some(value) => seq![XmlAttributeView { key, value }],
        None => Seq::empty(),
    }
}

/// The text of a port: its number, or nothing where no port is set.
pub open spec fn port_text(port: Option<i64>) -> Seq<char> {
    match port {
        Some(port) => decimal_text(port as int),
        None => Seq::empty(),
    }
}

/// The attributes that every `connection` element carries.
pub open spec fn required_attributes(c: ServerConnectionView) -> Seq<XmlAttributeView> {
    seq![
        XmlAttributeView { key: "name"@, value: c.name },
        XmlAttributeView { key: "host"@, value: c.host },
        XmlAttributeView { key: "chroot"@, value: c.chroot },
        XmlAttributeView { key: "port"@, value: port_text(c.port) },
        XmlAttributeView { key: "id"@, value: decimal_text(c.id as int) },
        XmlAttributeView { key: "group"@, value: decimal_text(c.server_group_id as int) },
        XmlAttributeView { key: "version"@, value: c.version.name() },
        XmlAttributeView { key: "broker_security_type"@, value: c.broker_security_type.name() },
        XmlAttributeView { key: "bootstrap_servers"@, value: c.bootstrap_servers },
        XmlAttributeView {
            key: "validate_ssl_endpoint_hostname"@,
            value: bool_text(c.validate_ssl_endpoint_hostname),
        },
        XmlAttributeView { key: "enable_poller"@, value: bool_text(c.enable_poller) },
    ]
}

/// One attribute for each pair whose value is there, in the order of the
/// pairs.
pub open spec fn present(pairs: Seq<(Seq<char>, Option<Seq<char>>)>) -> Seq<XmlAttributeView>
    decreases pairs.len(),
{
    if pairs.len() == 0 {
        Seq::empty()
    } else {
        present(pairs.drop_last()) + optional_attribute(pairs.last().0, pairs.last().1)
    }
}

/// The fields of a record that are written where they are set, each with
/// the key it is written under, in the order they are written in.
pub open spec fn optional_pairs(c: ServerConnectionView) -> Seq<(Seq<char>, Option<Seq<char>>)> {
    seq![
        ("truststore_location"@, c.truststore_location),
        ("truststore_password"@, c.truststore_password),
        ("keystore_location"@, c.keystore_location),
        ("keystore_password"@, c.keystore_password),
        ("keystore_privatekey"@, c.keystore_privatekey),
        ("sasl_mechanism"@, c.sasl_mechanism),
        ("sasl_callback"@, c.sasl_callback),
        ("sasl_endpoint_token"@, c.sasl_endpoint_token),
        ("jaas_config"@, c.jaas_config),
        ("schema_registry_endpoint"@, c.schema_registry_endpoint),
        ("schema_registry_basic_auth"@, c.schema_registry_basic_auth),
        ("schema_registry_ssl_truststore_location"@, c.schema_registry_ssl_truststore_location),
        ("schema_registry_ssl_truststore_password"@, c.schema_registry_ssl_truststore_password),
        ("schema_registry_ssl_keystore_location"@, c.schema_registry_ssl_keystore_location),
        ("schema_registry_ssl_keystore_password"@, c.schema_registry_ssl_keystore_password),
        ("schema_registry_ssl_keystore_private_key"@, c.schema_registry_ssl_keystore_private_key),
    ]
}

/// The attributes that a `connection` element carries where the field is
/// set.
pub open spec fn optional_attributes(c: ServerConnectionView) -> Seq<XmlAttributeView> {
    present(optional_pairs(c))
}

/// The fields of a topic's configuration, each with the key it is written
/// under, in the order they are written in.
pub open spec fn topic_pairs(config: TopicDecoderConfigView) -> Seq<
    (Seq<char>, Option<Seq<char>>),
> {
    seq![
        ("key_decoder"@, config.key_decoder),
        ("message_decoder"@, config.message_decoder),
        ("string_type"@, config.string_type),
        ("header_type"@, config.header_type),
        ("offset_request_type"@, config.offset_request_type),
        ("parent_folder"@, config.parent_folder),
    ]
}

/// Pairs of a key and a text that may be absent, as mathematical values.
pub open spec fn pairs_view(pairs: Seq<(&'static str, &Option<String>)>) -> Seq<
    (Seq<char>, Option<Seq<char>>),
> {
    pairs.map_values(|p: (&'static str, &Option<String>)| (p.0@, text_opt(*p.1)))
}

/// The `connection` element of a record, each field written as it is.
pub open spec fn connection_element(c: ServerConnectionView) -> XmlElementView {
    XmlElementView {
        name: "connection"@,
        attributes: required_attributes(c) + optional_attributes(c),
    }
}

/// The `folder` elements of a record.
pub open spec fn folder_nodes(folders: Seq<Seq<char>>) -> Seq<XmlNodeView> {
    Seq::new(
        folders.len(),
        |i: int|
            XmlNodeView::Empty(
                XmlElementView {
                    name: "folder"@,
                    attributes: seq![XmlAttributeView { key: "name"@, value: folders[i] }],
                },
            ),
    )
}

/// The `topic` element of a topic entry.
pub open spec fn topic_element(topic: TopicEntryView) -> XmlElementView {
    XmlElementView {
        name: "topic"@,
        attributes: seq![XmlAttributeView { key: "name"@, value: topic.name }] + present(
            topic_pairs(topic.config),
        ),
    }
}

/// The `topic` elements of a record.
pub open spec fn topic_nodes(topics: Seq<TopicEntryView>) -> Seq<XmlNodeView> {
    Seq::new(topics.len(), |i: int| XmlNodeView::Empty(topic_element(topics[i])))
}

/// A block of elements between the opening and the closing tag of `name`,
/// or nothing where there are no elements.
pub open spec fn block(name: Seq<char>, inner: Seq<XmlNodeView>) -> Seq<XmlNodeView> {
    if inner.len() == 0 {
        Seq::empty()
    } else {
        seq![XmlNodeView::Start(XmlElementView { name, attributes: Seq::empty() })] + inner + seq![
            XmlNodeView::End(name),
        ]
    }
}

/// The pieces of one record: its element, its folders, its topics.
pub open spec fn connection_nodes(c: ServerConnectionView) -> Seq<XmlNodeView> {
    seq![XmlNodeView::Start(connection_element(c))] + block("folders"@, folder_nodes(c.folders))
        + block("topics"@, topic_nodes(c.topic_configs)) + seq![XmlNodeView::End("connection"@)]
}

/// The pieces of the records, one record after the other.
pub open spec fn all_connection_nodes(connections: Seq<ServerConnectionView>) -> Seq<XmlNodeView>
    decreases connections.len(),
{
    if connections.len() == 0 {
        Seq::empty()
    } else {
        all_connection_nodes(connections.drop_last()) + connection_nodes(connections.last())
    }
}

/// The connections file in pieces: the root element `connections` around
/// the records.
pub open spec fn store_nodes(connections: Seq<ServerConnectionView>) -> Seq<XmlNodeView> {
    seq![XmlNodeView::Start(XmlElementView { name: "connections"@, attributes: Seq::empty() })]
        + all_connection_nodes(connections) + seq![XmlNodeView::End("connections"@)]
}

/// A secret as it stands in the file: masked by the codec where it is
/// there, absent where it is absent.
pub open spec fn masked_secret(plain: Option<Seq<char>>) -> Result<
    Option<Seq<char>>,
    ConfigError,
> {
    match plain {
        None => Ok(None),
        Some(secret) => match spec_encode(secret) {
            Ok(hex) => Ok(Some(hex)),
            Err(e) => Err(e),
        },
    }
}

/// A secret as it is read from the file: unmasked by the codec where it is
/// there, absent where it is absent.
pub open spec fn unmasked_secret(masked: Option<Seq<char>>) -> Result<
    Option<Seq<char>>,
    ConfigError,
> {
    match masked {
        None => Ok(None),
        Some(hex) => match spec_decode(hex) {
            Ok(secret) => Ok(Some(secret)),
            Err(e) => Err(e),
        },
    }
}

/// A record with the given secrets and every other field of `c`.
pub open spec fn with_secrets(
    c: ServerConnectionView,
    truststore_password: Option<Seq<char>>,
    keystore_password: Option<Seq<char>>,
    keystore_privatekey: Option<Seq<char>>,
    schema_registry_ssl_truststore_password: Option<Seq<char>>,
    schema_registry_ssl_keystore_password: Option<Seq<char>>,
    schema_registry_ssl_keystore_private_key: Option<Seq<char>>,
) -> ServerConnectionView {
    ServerConnectionView {
        truststore_password,
        keystore_password,
        keystore_privatekey,
        schema_registry_ssl_truststore_password,
        schema_registry_ssl_keystore_password,
        schema_registry_ssl_keystore_private_key,
        ..c
    }
}

/// The record `c` with its six secrets replaced by what was made of them,
/// or the refusal of the first secret, in the order of the fields, of
/// which nothing could be made.
pub open spec fn with_each_secret(
    c: ServerConnectionView,
    truststore_password: Result<Option<Seq<char>>, ConfigError>,
    keystore_password: Result<Option<Seq<char>>, ConfigError>,
    keystore_privatekey: Result<Option<Seq<char>>, ConfigError>,
    schema_registry_ssl_truststore_password: Result<Option<Seq<char>>, ConfigError>,
    schema_registry_ssl_keystore_password: Result<Option<Seq<char>>, ConfigError>,
    schema_registry_ssl_keystore_private_key: Result<Option<Seq<char>>, ConfigError>,
) -> Result<ServerConnectionView, ConfigError> {
    if truststore_password is Err {
        Err(truststore_password->Err_0)
    } else if keystore_password is Err {
        Err(keystore_password->Err_0)
    } else if keystore_privatekey is Err {
        Err(keystore_privatekey->Err_0)
    } else if schema_registry_ssl_truststore_password is Err {
        Err(schema_registry_ssl_truststore_password->Err_0)
    } else if schema_registry_ssl_keystore_password is Err {
        Err(schema_registry_ssl_keystore_password->Err_0)
    } else if schema_registry_ssl_keystore_private_key is Err {
        Err(schema_registry_ssl_keystore_private_key->Err_0)
    } else {
        Ok(
            with_secrets(
                c,
                truststore_password->Ok_0,
                keystore_password->Ok_0,
                keystore_privatekey->Ok_0,
                schema_registry_ssl_truststore_password->Ok_0,
                schema_registry_ssl_keystore_password->Ok_0,
                schema_registry_ssl_keystore_private_key->Ok_0,
            ),
        )
    }
}

/// A record as it stands in the file: each of its secrets masked. A secret
/// of more than 126 bytes is refused.
pub open spec fn masked_record(c: ServerConnectionView) -> Result<ServerConnectionView, ConfigError> {
    with_each_secret(
        c,
        masked_secret(c.truststore_password),
        masked_secret(c.keystore_password),
        masked_secret(c.keystore_privatekey),
        masked_secret(c.schema_registry_ssl_truststore_password),
        masked_secret(c.schema_registry_ssl_keystore_password),
        masked_secret(c.schema_registry_ssl_keystore_private_key),
    )
}

/// A record of the file as it stands in the store: each of its secrets
/// unmasked. A secret that does not unmask is refused.
pub open spec fn unmasked_record(c: ServerConnectionView) -> Result<ServerConnectionView, ConfigError> {
    with_each_secret(
        c,
        unmasked_secret(c.truststore_password),
        unmasked_secret(c.keystore_password),
        unmasked_secret(c.keystore_privatekey),
        unmasked_secret(c.schema_registry_ssl_truststore_password),
        unmasked_secret(c.schema_registry_ssl_keystore_password),
        unmasked_secret(c.schema_registry_ssl_keystore_private_key),
    )
}

/// Whether a secret fits the codec's buffer.
pub open spec fn secret_fits(secret: Option<Seq<char>>) -> bool {
    match secret {
        Some(s) => encode_utf8(s).len() <= MAX_SECRET_LEN,
        None => true,
    }
}

/// Whether all secrets of a record fit the codec's buffer.
pub open spec fn secrets_fit(c: ServerConnectionView) -> bool {
    &&& secret_fits(c.truststore_password)
    &&& secret_fits(c.keystore_password)
    &&& secret_fits(c.keystore_privatekey)
    &&& secret_fits(c.schema_registry_ssl_truststore_password)
    &&& secret_fits(c.schema_registry_ssl_keystore_password)
    &&& secret_fits(c.schema_registry_ssl_keystore_private_key)
}

/// Whether a record holds no secret.
pub open spec fn no_secrets(c: ServerConnectionView) -> bool {
    &&& c.truststore_password is None
    &&& c.keystore_password is None
    &&& c.keystore_privatekey is None
    &&& c.schema_registry_ssl_truststore_password is None
    &&& c.schema_registry_ssl_keystore_password is None
    &&& c.schema_registry_ssl_keystore_private_key is None
}

/// Masks a secret where one is there.
fn mask_secret(secret: &Option<String>) -> (r: Result<Option<String>, ConfigError>)
    ensures
        match r {
            Ok(masked) => masked_secret(text_opt(*secret)) == Ok::<Option<Seq<char>>, ConfigError>(
                text_opt(masked),
            ),
            Err(e) => masked_secret(text_opt(*secret)) == Err::<Option<Seq<char>>, ConfigError>(e),
        },
{
    match secret {
        None => Ok(None),
        Some(text) => match encrypt_password(text.as_str()) {
            Ok(hex) => Ok(Some(hex)),
            Err(e) => Err(e),
        },
    }
}

/// Unmasks a secret where one is there.
fn unmask_secret(masked: &Option<String>) -> (r: Result<Option<String>, ConfigError>)
    ensures
        match r {
            Ok(plain) => unmasked_secret(text_opt(*masked)) == Ok::<
                Option<Seq<char>>,
                ConfigError,
            >(text_opt(plain)),
            Err(e) => unmasked_secret(text_opt(*masked)) == Err::<Option<Seq<char>>, ConfigError>(
                e,
            ),
        },
{
    match masked {
        None => Ok(None),
        Some(hex) => match decrypt_password(hex.as_str()) {
            Ok(text) => Ok(Some(text)),
            Err(e) => Err(e),
        },
    }
}

/// A copy of a record with each of its secrets masked. A secret of more
/// than 126 bytes is refused; a record without secrets is copied as it is.
pub fn mask_secrets(connection: &ServerConnection) -> (r: Result<ServerConnection, ConfigError>)
    ensures
        match r {
            Ok(record) => masked_record(connection@) == Ok::<ServerConnectionView, ConfigError>(
                record@,
            ),
            Err(e) => masked_record(connection@) == Err::<ServerConnectionView, ConfigError>(e),
        },
{
    let truststore_password = match mask_secret(&connection.truststore_password) {
        Ok(value) => value,
        Err(e) => {
            return Err(e);
        },
    };
    let keystore_password = match mask_secret(&connection.keystore_password) {
        Ok(value) => value,
        Err(e) => {
            return Err(e);
        },
    };
    let keystore_privatekey = match mask_secret(&connection.keystore_privatekey) {
        Ok(value) => value,
        Err(e) => {
            return Err(e);
        },
    };
    let schema_registry_ssl_truststore_password = match mask_secret(&connection.schema_registry_ssl_truststore_password) {
        Ok(value) => value,
        Err(e) => {
            return Err(e);
        },
    };
    let schema_registry_ssl_keystore_password = match mask_secret(&connection.schema_registry_ssl_keystore_password) {
        Ok(value) => value,
        Err(e) => {
            return Err(e);
        },
    };
    let schema_registry_ssl_keystore_private_key = match mask_secret(&connection.schema_registry_ssl_keystore_private_key) {
        Ok(value) => value,
        Err(e) => {
            return Err(e);
        },
    };
    let mut record = connection.clone();
    record.truststore_password = truststore_password;
    record.keystore_password = keystore_password;
    record.keystore_privatekey = keystore_privatekey;
    record.schema_registry_ssl_truststore_password = schema_registry_ssl_truststore_password;
    record.schema_registry_ssl_keystore_password = schema_registry_ssl_keystore_password;
    record.schema_registry_ssl_keystore_private_key = schema_registry_ssl_keystore_private_key;
    Ok(record)
}

/// A copy of a record with each of its secrets unmasked. The first secret
/// that does not unmask is refused with the codec's refusal; a record
/// without secrets is copied as it is.
pub fn unmask_secrets(connection: &ServerConnection) -> (r: Result<ServerConnection, ConfigError>)
    ensures
        match r {
            Ok(record) => unmasked_record(connection@) == Ok::<ServerConnectionView, ConfigError>(
                record@,
            ),
            Err(e) => unmasked_record(connection@) == Err::<ServerConnectionView, ConfigError>(e),
        },
{
    let truststore_password = match unmask_secret(&connection.truststore_password) {
        Ok(value) => value,
        Err(e) => {
            return Err(e);
        },
    };
    let keystore_password = match unmask_secret(&connection.keystore_password) {
        Ok(value) => value,
        Err(e) => {
            return Err(e);
        },
    };
    let keystore_privatekey = match unmask_secret(&connection.keystore_privatekey) {
        Ok(value) => value,
        Err(e) => {
            return Err(e);
        },
    };
    let schema_registry_ssl_truststore_password = match unmask_secret(&connection.schema_registry_ssl_truststore_password) {
        Ok(value) => value,
        Err(e) => {
            return Err(e);
        },
    };
    let schema_registry_ssl_keystore_password = match unmask_secret(&connection.schema_registry_ssl_keystore_password) {
        Ok(value) => value,
        Err(e) => {
            return Err(e);
        },
    };
    let schema_registry_ssl_keystore_private_key = match unmask_secret(&connection.schema_registry_ssl_keystore_private_key) {
        Ok(value) => value,
        Err(e) => {
            return Err(e);
        },
    };
    let mut record = connection.clone();
    record.truststore_password = truststore_password;
    record.keystore_password = keystore_password;
    record.keystore_privatekey = keystore_privatekey;
    record.schema_registry_ssl_truststore_password = schema_registry_ssl_truststore_password;
    record.schema_registry_ssl_keystore_password = schema_registry_ssl_keystore_password;
    record.schema_registry_ssl_keystore_private_key = schema_registry_ssl_keystore_private_key;
    Ok(record)
}

/// Adds one attribute for each pair whose value is there.
fn push_present(element: &mut XmlElement, pairs: &Vec<(&'static str, &Option<String>)>)
    ensures
        final(element)@ == (XmlElementView {
            name: old(element)@.name,
            attributes: old(element)@.attributes + present(pairs_view(pairs@)),
        }),
{
    let ghost base = element@.attributes;
    let ghost all = pairs_view(pairs@);
    assert(all.take(0) =~= Seq::empty());
    assert(base + present(all.take(0)) =~= base);
    let mut i: usize = 0;
    while i < pairs.len()
        invariant
            i <= pairs@.len(),
            all == pairs_view(pairs@),
            element@.name == old(element)@.name,
            element@.attributes == base + present(all.take(i as int)),
        decreases pairs@.len() - i,
    {
        proof {
            assert(all.take(i + 1).drop_last() =~= all.take(i as int));
            assert(all.take(i + 1).last() == (pairs@[i as int].0@, text_opt(*pairs@[i as int].1)));
        }
        let ghost so_far = element@.attributes;
        match pairs[i].1 {
            Some(text) => {
                element.push(pairs[i].0, text.as_str());
                assert(element@.attributes =~= base + present(all.take(i + 1)));
            },
            None => {
                assert(so_far =~= base + present(all.take(i + 1)));
            },
        }
        i += 1;
    }
    assert(all.take(i as int) =~= all);
}

/// The fields of a record that are written where they are set.
fn optional_fields(connection: &ServerConnection) -> (pairs: Vec<(&'static str, &Option<String>)>)
    ensures
        pairs_view(pairs@) == optional_pairs(connection@),
{
    let mut pairs: Vec<(&'static str, &Option<String>)> = Vec::new();
    pairs.push(("truststore_location", &connection.truststore_location));
    pairs.push(("truststore_password", &connection.truststore_password));
    pairs.push(("keystore_location", &connection.keystore_location));
    pairs.push(("keystore_password", &connection.keystore_password));
    pairs.push(("keystore_privatekey", &connection.keystore_privatekey));
    pairs.push(("sasl_mechanism", &connection.sasl_mechanism));
    pairs.push(("sasl_callback", &connection.sasl_callback));
    pairs.push(("sasl_endpoint_token", &connection.sasl_endpoint_token));
    pairs.push(("jaas_config", &connection.jaas_config));
    pairs.push(("schema_registry_endpoint", &connection.schema_registry_endpoint));
    pairs.push(("schema_registry_basic_auth", &connection.schema_registry_basic_auth));
    pairs.push(("schema_registry_ssl_truststore_location", &connection.schema_registry_ssl_truststore_location));
    pairs.push(("schema_registry_ssl_truststore_password", &connection.schema_registry_ssl_truststore_password));
    pairs.push(("schema_registry_ssl_keystore_location", &connection.schema_registry_ssl_keystore_location));
    pairs.push(("schema_registry_ssl_keystore_password", &connection.schema_registry_ssl_keystore_password));
    pairs.push(("schema_registry_ssl_keystore_private_key", &connection.schema_registry_ssl_keystore_private_key));
    assert(pairs_view(pairs@) =~= optional_pairs(connection@));
    pairs
}

/// The fields of a topic's configuration.
fn topic_fields(config: &TopicDecoderConfig) -> (pairs: Vec<(&'static str, &Option<String>)>)
    ensures
        pairs_view(pairs@) == topic_pairs(config@),
{
    let mut pairs: Vec<(&'static str, &Option<String>)> = Vec::new();
    pairs.push(("key_decoder", &config.key_decoder));
    pairs.push(("message_decoder", &config.message_decoder));
    pairs.push(("string_type", &config.string_type));
    pairs.push(("header_type", &config.header_type));
    pairs.push(("offset_request_type", &config.offset_request_type));
    pairs.push(("parent_folder", &config.parent_folder));
    assert(pairs_view(pairs@) =~= topic_pairs(config@));
    pairs
}

/// The `connection` element of a record, each field written as it is.
pub fn connection_to_element(connection: &ServerConnection) -> (element: XmlElement)
    ensures
        element@ == connection_element(connection@),
{
    let mut element = XmlElement::new("connection");
    element.push("name", connection.name.as_str());
    element.push("host", connection.host.as_str());
    element.push("chroot", connection.chroot.as_str());
    match connection.port {
        Some(port) => element.push("port", format_integer(port).as_str()),
        None => element.push("port", ""),
    }
    element.push("id", format_integer(connection.id).as_str());
    element.push("group", format_integer(connection.server_group_id).as_str());
    element.push("version", connection.version.as_str());
    element.push("broker_security_type", connection.broker_security_type.as_str());
    element.push("bootstrap_servers", connection.bootstrap_servers.as_str());
    element.push(
        "validate_ssl_endpoint_hostname",
        format_bool(connection.validate_ssl_endpoint_hostname),
    );
    element.push("enable_poller", format_bool(connection.enable_poller));
    proof {
        reveal_strlit("");
        assert(""@ =~= Seq::<char>::empty());
        assert(element@.attributes =~= required_attributes(connection@));
    }
    push_present(&mut element, &optional_fields(connection));
    element
}

/// The `topic` element of a topic entry.
pub fn topic_to_element(topic: &TopicEntry) -> (element: XmlElement)
    ensures
        element@ == topic_element(topic@),
{
    let mut element = XmlElement::new("topic");
    element.push("name", topic.name.as_str());
    assert(element@.attributes =~= seq![XmlAttributeView { key: "name"@, value: topic@.name }]);
    push_present(&mut element, &topic_fields(&topic.config));
    element
}

/// Appends the pieces of one record.
fn write_connection(nodes: &mut Vec<XmlNode>, connection: &ServerConnection)
    ensures
        nodes_view(final(nodes)@) == nodes_view(old(nodes)@) + connection_nodes(connection@),
{
    let ghost before = nodes_view(nodes@);
    let ghost c = connection@;
    nodes.push(XmlNode::Start(connection_to_element(connection)));
    assert(nodes_view(nodes@) =~= before + seq![XmlNodeView::Start(connection_element(c))]);
    let ghost head = nodes_view(nodes@);
    if connection.folders.len() > 0 {
        nodes.push(XmlNode::Start(XmlElement::new("folders")));
        let ghost opened = nodes_view(nodes@);
        assert(opened =~= head + seq![
            XmlNodeView::Start(XmlElementView { name: "folders"@, attributes: Seq::empty() }),
        ]);
        let mut i: usize = 0;
        while i < connection.folders.len()
            invariant
                i <= connection.folders@.len(),
                c == connection@,
                nodes_view(nodes@) == opened + folder_nodes(c.folders).take(i as int),
            decreases connection.folders@.len() - i,
        {
            let ghost so_far = nodes_view(nodes@);
            let mut element = XmlElement::new("folder");
            element.push("name", connection.folders[i].name.as_str());
            assert(element@.attributes =~= seq![
                XmlAttributeView { key: "name"@, value: c.folders[i as int] },
            ]);
            nodes.push(XmlNode::Empty(element));
            assert(nodes_view(nodes@) =~= so_far.push(XmlNodeView::Empty(element@)));
            assert(folder_nodes(c.folders).take(i + 1) =~= folder_nodes(c.folders).take(
                i as int,
            ).push(folder_nodes(c.folders)[i as int]));
            i += 1;
        }
        assert(folder_nodes(c.folders).take(i as int) =~= folder_nodes(c.folders));
        let ghost filled = nodes_view(nodes@);
        nodes.push(XmlNode::End("folders".to_owned()));
        assert(nodes_view(nodes@) =~= filled.push(XmlNodeView::End("folders"@)));
        assert(nodes_view(nodes@) =~= head + block("folders"@, folder_nodes(c.folders)));
    } else {
        assert(nodes_view(nodes@) =~= head + block("folders"@, folder_nodes(c.folders)));
    }
    let ghost with_folders = nodes_view(nodes@);
    if connection.topic_configs.len() > 0 {
        nodes.push(XmlNode::Start(XmlElement::new("topics")));
        let ghost opened = nodes_view(nodes@);
        assert(opened =~= with_folders + seq![
            XmlNodeView::Start(XmlElementView { name: "topics"@, attributes: Seq::empty() }),
        ]);
        let mut i: usize = 0;
        while i < connection.topic_configs.len()
            invariant
                i <= connection.topic_configs@.len(),
                c == connection@,
                nodes_view(nodes@) == opened + topic_nodes(c.topic_configs).take(i as int),
            decreases connection.topic_configs@.len() - i,
        {
            let ghost so_far = nodes_view(nodes@);
            let element = topic_to_element(&connection.topic_configs[i]);
            nodes.push(XmlNode::Empty(element));
            assert(nodes_view(nodes@) =~= so_far.push(XmlNodeView::Empty(element@)));
            assert(topic_nodes(c.topic_configs).take(i + 1) =~= topic_nodes(c.topic_configs).take(
                i as int,
            ).push(topic_nodes(c.topic_configs)[i as int]));
            i += 1;
        }
        assert(topic_nodes(c.topic_configs).take(i as int) =~= topic_nodes(c.topic_configs));
        let ghost filled = nodes_view(nodes@);
        nodes.push(XmlNode::End("topics".to_owned()));
        assert(nodes_view(nodes@) =~= filled.push(XmlNodeView::End("topics"@)));
        assert(nodes_view(nodes@) =~= with_folders + block(
            "topics"@,
            topic_nodes(c.topic_configs),
        ));
    } else {
        assert(nodes_view(nodes@) =~= with_folders + block(
            "topics"@,
            topic_nodes(c.topic_configs),
        ));
    }
    let ghost with_topics = nodes_view(nodes@);
    nodes.push(XmlNode::End("connection".to_owned()));
    assert(nodes_view(nodes@) =~= with_topics.push(XmlNodeView::End("connection"@)));
    assert(nodes_view(nodes@) =~= before + connection_nodes(c));
}

/// The connections file in pieces, each field of each record written as
/// it is.
pub fn connections_to_nodes(connections: &[ServerConnection]) -> (nodes: Vec<XmlNode>)
    ensures
        nodes_view(nodes@) == store_nodes(connections_view(connections@)),
{
    let ghost all = connections_view(connections@);
    let mut nodes: Vec<XmlNode> = Vec::new();
    nodes.push(XmlNode::Start(XmlElement::new("connections")));
    let ghost head = nodes_view(nodes@);
    assert(head =~= seq![
        XmlNodeView::Start(XmlElementView { name: "connections"@, attributes: Seq::empty() }),
    ]);
    assert(all.take(0) =~= Seq::empty());
    assert(nodes_view(nodes@) =~= head + all_connection_nodes(all.take(0)));
    let mut i: usize = 0;
    while i < connections.len()
        invariant
            i <= connections@.len(),
            all == connections_view(connections@),
            nodes_view(nodes@) == head + all_connection_nodes(all.take(i as int)),
        decreases connections@.len() - i,
    {
        proof {
            assert(all.take(i + 1).drop_last() =~= all.take(i as int));
            assert(all.take(i + 1).last() == connections@[i as int]@);
        }
        write_connection(&mut nodes, &connections[i]);
        assert(nodes_view(nodes@) =~= head + all_connection_nodes(all.take(i + 1)));
        i += 1;
    }
    assert(all.take(i as int) =~= all);
    let ghost filled = nodes_view(nodes@);
    nodes.push(XmlNode::End("connections".to_owned()));
    assert(nodes_view(nodes@) =~= filled.push(XmlNodeView::End("connections"@)));
    nodes
}

/// The records as they stand in the file, each with its secrets masked,
/// or the refusal of the first record that holds a secret too long.
pub open spec fn masked_records(plain: Seq<ServerConnectionView>) -> Result<
    Seq<ServerConnectionView>,
    ConfigError,
>
    decreases plain.len(),
{
    if plain.len() == 0 {
        Ok(Seq::empty())
    } else {
        match masked_records(plain.drop_last()) {
            Err(e) => Err(e),
            Ok(front) => match masked_record(plain.last()) {
                Err(e) => Err(e),
                Ok(record) => Ok(front.push(record)),
            },
        }
    }
}

/// The records of a file as they stand in the store, each with its
/// secrets unmasked, or the refusal of the first secret that does not
/// unmask.
pub open spec fn unmasked_records(masked: Seq<ServerConnectionView>) -> Result<
    Seq<ServerConnectionView>,
    ConfigError,
>
    decreases masked.len(),
{
    if masked.len() == 0 {
        Ok(Seq::empty())
    } else {
        match unmasked_records(masked.drop_last()) {
            Err(e) => Err(e),
            Ok(front) => match unmasked_record(masked.last()) {
                Err(e) => Err(e),
                Ok(record) => Ok(front.push(record)),
            },
        }
    }
}

/// No record holds a secret.
pub open spec fn all_without_secrets(connections: Seq<ServerConnectionView>) -> bool {
    forall|i: int| 0 <= i < connections.len() ==> no_secrets(#[trigger] connections[i])
}

/// Once the first records are refused, so are all.
pub proof fn lemma_masked_records_refused(plain: Seq<ServerConnectionView>, n: int)
    requires
        0 <= n <= plain.len(),
        masked_records(plain.take(n)) is Err,
    ensures
        masked_records(plain) == masked_records(plain.take(n)),
    decreases plain.len() - n,
{
    if n < plain.len() {
        assert(plain.take(n + 1).drop_last() =~= plain.take(n));
        lemma_masked_records_refused(plain, n + 1);
    } else {
        assert(plain.take(n) =~= plain);
    }
}

/// Once the first records are refused, so are all.
pub proof fn lemma_unmasked_records_refused(masked: Seq<ServerConnectionView>, n: int)
    requires
        0 <= n <= masked.len(),
        unmasked_records(masked.take(n)) is Err,
    ensures
        unmasked_records(masked) == unmasked_records(masked.take(n)),
    decreases masked.len() - n,
{
    if n < masked.len() {
        assert(masked.take(n + 1).drop_last() =~= masked.take(n));
        lemma_unmasked_records_refused(masked, n + 1);
    } else {
        assert(masked.take(n) =~= masked);
    }
}

/// Copies of the records with their secrets masked, or the refusal of the
/// first record that holds a secret too long.
pub fn mask_all(connections: &[ServerConnection]) -> (r: Result<Vec<ServerConnection>, ConfigError>)
    ensures
        match r {
            Ok(records) => masked_records(connections_view(connections@)) == Ok::<
                Seq<ServerConnectionView>,
                ConfigError,
            >(connections_view(records@)),
            Err(e) => masked_records(connections_view(connections@)) == Err::<
                Seq<ServerConnectionView>,
                ConfigError,
            >(e),
        },
{
    let ghost all = connections_view(connections@);
    let mut records: Vec<ServerConnection> = Vec::with_capacity(connections.len());
    let mut i: usize = 0;
    assert(all.take(0) =~= Seq::empty());
    assert(connections_view(records@) =~= Seq::empty());
    while i < connections.len()
        invariant
            i <= connections@.len(),
            all == connections_view(connections@),
            masked_records(all.take(i as int)) == Ok::<Seq<ServerConnectionView>, ConfigError>(
                connections_view(records@),
            ),
        decreases connections@.len() - i,
    {
        proof {
            assert(all.take(i + 1).drop_last() =~= all.take(i as int));
            assert(all.take(i + 1).last() == connections@[i as int]@);
        }
        let ghost front = connections_view(records@);
        match mask_secrets(&connections[i]) {
            Err(e) => {
                proof {
                    lemma_masked_records_refused(all, i + 1);
                }
                return Err(e);
            },
            Ok(one) => {
                records.push(one);
                assert(connections_view(records@) =~= front.push(one@));
            },
        }
        i += 1;
    }
    assert(all.take(i as int) =~= all);
    Ok(records)
}

/// Copies of the records with their secrets unmasked, or the refusal of
/// the first secret that does not unmask.
pub fn unmask_all(connections: &[ServerConnection]) -> (r: Result<Vec<ServerConnection>, ConfigError>)
    ensures
        match r {
            Ok(records) => unmasked_records(connections_view(connections@)) == Ok::<
                Seq<ServerConnectionView>,
                ConfigError,
            >(connections_view(records@)),
            Err(e) => unmasked_records(connections_view(connections@)) == Err::<
                Seq<ServerConnectionView>,
                ConfigError,
            >(e),
        },
{
    let ghost all = connections_view(connections@);
    let mut records: Vec<ServerConnection> = Vec::with_capacity(connections.len());
    let mut i: usize = 0;
    assert(all.take(0) =~= Seq::empty());
    assert(connections_view(records@) =~= Seq::empty());
    while i < connections.len()
        invariant
            i <= connections@.len(),
            all == connections_view(connections@),
            unmasked_records(all.take(i as int)) == Ok::<Seq<ServerConnectionView>, ConfigError>(
                connections_view(records@),
            ),
        decreases connections@.len() - i,
    {
        proof {
            assert(all.take(i + 1).drop_last() =~= all.take(i as int));
            assert(all.take(i + 1).last() == connections@[i as int]@);
        }
        let ghost front = connections_view(records@);
        match unmask_secrets(&connections[i]) {
            Err(e) => {
                proof {
                    lemma_unmasked_records_refused(all, i + 1);
                }
                return Err(e);
            },
            Ok(one) => {
                records.push(one);
                assert(connections_view(records@) =~= front.push(one@));
            },
        }
        i += 1;
    }
    assert(all.take(i as int) =~= all);
    Ok(records)
}


/// The text of an attribute, or `fallback` where it is absent.
pub open spec fn text_or(attributes: Seq<XmlAttributeView>, key: Seq<char>, fallback: Seq<char>)
    -> Seq<char> {
    match attribute_value(attributes, key) {
        Some(text) => text,
        None => fallback,
    }
}

/// The number that an attribute holds, or `fallback` where it is absent
/// or holds no number.
pub open spec fn number_or(attributes: Seq<XmlAttributeView>, key: Seq<char>, fallback: i64)
    -> i64 {
    match attribute_value(attributes, key) {
        Some(text) => match parse_decimal(text, i64::MIN as int, i64::MAX as int) {
            Some(v) => v as i64,
            None => fallback,
        },
        None => fallback,
    }
}

/// The number that an attribute holds, if it holds one.
pub open spec fn number_of(attributes: Seq<XmlAttributeView>, key: Seq<char>) -> Option<i64> {
    match attribute_value(attributes, key) {
        Some(text) => match parse_decimal(text, i64::MIN as int, i64::MAX as int) {
            Some(v) => Some(v as i64),
            None => None,
        },
        None => None,
    }
}

/// The security mode that an element names: unsecured where it names none,
/// `None` where it names one that does not exist.
pub open spec fn security_of(attributes: Seq<XmlAttributeView>) -> Option<BrokerSecurityType> {
    match attribute_value(attributes, "broker_security_type"@) {
        Some(text) => BrokerSecurityType::named(text),
        None => Some(BrokerSecurityType::PLAINTEXT),
    }
}

/// The version that an element names: 1.0 where it names none.
pub open spec fn version_of(attributes: Seq<XmlAttributeView>) -> ClusterVersion {
    match attribute_value(attributes, "version"@) {
        Some(text) => ClusterVersion::named(text),
        None => ClusterVersion::VERSION_1_0,
    }
}

/// The record that a `connection` element describes, each field read as
/// it is written. A field that the element lacks is as in a new record;
/// an id or a group that is no number counts as lacking, and so does a
/// switch that is neither `true` nor `false`. An element that names a
/// security mode which does not exist is refused.
pub open spec fn parse_connection(element: XmlElementView) -> Result<
    ServerConnectionView,
    ConfigError,
> {
    let a = element.attributes;
    match security_of(a) {
        None => Err(ConfigError::UnknownSecurityType),
        Some(security) => Ok(
            ServerConnectionView {
                id: number_or(a, "id"@, 0),
                server_group_id: number_or(a, "group"@, 1),
                name: text_or(a, "name"@, Seq::empty()),
                host: text_or(a, "host"@, Seq::empty()),
                port: number_of(a, "port"@),
                chroot: text_or(a, "chroot"@, "/"@),
                version: version_of(a),
                broker_security_type: security,
                bootstrap_servers: text_or(a, "bootstrap_servers"@, Seq::empty()),
                validate_ssl_endpoint_hostname: flag_of(
                    a,
                    "validate_ssl_endpoint_hostname"@,
                    true,
                ),
                enable_poller: flag_of(a, "enable_poller"@, true),
                truststore_location: attribute_value(a, "truststore_location"@),
                truststore_password: attribute_value(a, "truststore_password"@),
                keystore_location: attribute_value(a, "keystore_location"@),
                keystore_password: attribute_value(a, "keystore_password"@),
                keystore_privatekey: attribute_value(a, "keystore_privatekey"@),
                sasl_mechanism: attribute_value(a, "sasl_mechanism"@),
                sasl_callback: attribute_value(a, "sasl_callback"@),
                sasl_endpoint_token: attribute_value(a, "sasl_endpoint_token"@),
                jaas_config: attribute_value(a, "jaas_config"@),
                schema_registry_endpoint: attribute_value(a, "schema_registry_endpoint"@),
                schema_registry_basic_auth: attribute_value(a, "schema_registry_basic_auth"@),
                schema_registry_ssl_truststore_location: attribute_value(a, "schema_registry_ssl_truststore_location"@),
                schema_registry_ssl_truststore_password: attribute_value(a, "schema_registry_ssl_truststore_password"@),
                schema_registry_ssl_keystore_location: attribute_value(a, "schema_registry_ssl_keystore_location"@),
                schema_registry_ssl_keystore_password: attribute_value(a, "schema_registry_ssl_keystore_password"@),
                schema_registry_ssl_keystore_private_key: attribute_value(a, "schema_registry_ssl_keystore_private_key"@),
                folders: Seq::empty(),
                topic_configs: Seq::empty(),
            },
        ),
    }
}

/// The topic entry that a `topic` element with a name describes.
pub open spec fn parse_topic(name: Seq<char>, attributes: Seq<XmlAttributeView>)
    -> TopicEntryView {
    TopicEntryView {
        name,
        config: TopicDecoderConfigView {
            key_decoder: attribute_value(attributes, "key_decoder"@),
            message_decoder: attribute_value(attributes, "message_decoder"@),
            string_type: attribute_value(attributes, "string_type"@),
            header_type: attribute_value(attributes, "header_type"@),
            offset_request_type: attribute_value(attributes, "offset_request_type"@),
            parent_folder: attribute_value(attributes, "parent_folder"@),
        },
    }
}

/// Reads an attribute as text.
fn read_text(element: &XmlElement, key: &str, fallback: &str) -> (r: String)
    ensures
        r@ == text_or(element@.attributes, key@, fallback@),
{
    match element.get(key) {
        Some(text) => text.clone(),
        None => fallback.to_owned(),
    }
}

/// Reads an attribute that may be absent.
fn read_optional(element: &XmlElement, key: &str) -> (r: Option<String>)
    ensures
        text_opt(r) == attribute_value(element@.attributes, key@),
{
    match element.get(key) {
        Some(text) => Some(text.clone()),
        None => None,
    }
}

/// Reads an attribute as a number.
fn read_number(element: &XmlElement, key: &str) -> (r: Option<i64>)
    ensures
        r == number_of(element@.attributes, key@),
        number_or(element@.attributes, key@, 0) == (match r {
            Some(v) => v,
            None => 0,
        }),
        number_or(element@.attributes, key@, 1) == (match r {
            Some(v) => v,
            None => 1,
        }),
{
    match element.get(key) {
        Some(text) => parse_integer(text.as_str(), i64::MIN, i64::MAX),
        None => None,
    }
}

/// Reads an attribute that holds `true` or `false`.
fn read_switch(element: &XmlElement, key: &str, fallback: bool) -> (r: bool)
    ensures
        r == flag_of(element@.attributes, key@, fallback),
{
    match element.get(key) {
        Some(text) => match parse_bool(text.as_str()) {
            Some(b) => b,
            None => fallback,
        },
        None => fallback,
    }
}

/// The record that a `connection` element describes, each field read as
/// it is written.
pub fn parse_connection_start(element: &XmlElement) -> (r: Result<ServerConnection, ConfigError>)
    ensures
        match r {
            Ok(connection) => parse_connection(element@) == Ok::<
                ServerConnectionView,
                ConfigError,
            >(connection@),
            Err(e) => parse_connection(element@) == Err::<ServerConnectionView, ConfigError>(e),
        },
{
    let security = match element.get("broker_security_type") {
        Some(text) => match BrokerSecurityType::from_str(text.as_str()) {
            Ok(mode) => mode,
            Err(e) => {
                return Err(e);
            },
        },
        None => BrokerSecurityType::PLAINTEXT,
    };
    let version = match element.get("version") {
        Some(text) => match ClusterVersion::from_str(text.as_str()) {
            Ok(version) => version,
            Err(e) => {
                return Err(e);
            },
        },
        None => ClusterVersion::VERSION_1_0,
    };
    let id = match read_number(element, "id") {
        Some(v) => v,
        None => 0,
    };
    let group = match read_number(element, "group") {
        Some(v) => v,
        None => 1,
    };
    proof {
        reveal_strlit("");
        assert(""@ =~= Seq::<char>::empty());
    }
    let connection = ServerConnection {
        id,
        server_group_id: group,
        name: read_text(element, "name", ""),
        host: read_text(element, "host", ""),
        port: read_number(element, "port"),
        chroot: read_text(element, "chroot", "/"),
        version,
        broker_security_type: security,
        bootstrap_servers: read_text(element, "bootstrap_servers", ""),
        validate_ssl_endpoint_hostname: read_switch(
            element,
            "validate_ssl_endpoint_hostname",
            true,
        ),
        enable_poller: read_switch(element, "enable_poller", true),
        truststore_location: read_optional(element, "truststore_location"),
        truststore_password: read_optional(element, "truststore_password"),
        keystore_location: read_optional(element, "keystore_location"),
        keystore_password: read_optional(element, "keystore_password"),
        keystore_privatekey: read_optional(element, "keystore_privatekey"),
        sasl_mechanism: read_optional(element, "sasl_mechanism"),
        sasl_callback: read_optional(element, "sasl_callback"),
        sasl_endpoint_token: read_optional(element, "sasl_endpoint_token"),
        jaas_config: read_optional(element, "jaas_config"),
        schema_registry_endpoint: read_optional(element, "schema_registry_endpoint"),
        schema_registry_basic_auth: read_optional(element, "schema_registry_basic_auth"),
        schema_registry_ssl_truststore_location: read_optional(element, "schema_registry_ssl_truststore_location"),
        schema_registry_ssl_truststore_password: read_optional(element, "schema_registry_ssl_truststore_password"),
        schema_registry_ssl_keystore_location: read_optional(element, "schema_registry_ssl_keystore_location"),
        schema_registry_ssl_keystore_password: read_optional(element, "schema_registry_ssl_keystore_password"),
        schema_registry_ssl_keystore_private_key: read_optional(element, "schema_registry_ssl_keystore_private_key"),
        folders: Vec::new(),
        topic_configs: Vec::new(),
    };
    assert(connection@.folders =~= Seq::empty());
    assert(connection@.topic_configs =~= Seq::empty());
    Ok(connection)
}

/// The topic entry that a `topic` element with a name describes.
fn topic_from_element(name: &String, element: &XmlElement) -> (r: TopicEntry)
    ensures
        r@ == parse_topic(name@, element@.attributes),
{
    TopicEntry {
        name: name.clone(),
        config: TopicDecoderConfig {
            key_decoder: read_optional(element, "key_decoder"),
            message_decoder: read_optional(element, "message_decoder"),
            string_type: read_optional(element, "string_type"),
            header_type: read_optional(element, "header_type"),
            offset_request_type: read_optional(element, "offset_request_type"),
            parent_folder: read_optional(element, "parent_folder"),
        },
    }
}

/// Where the reading of a connections file stands: which elements are
/// open, the record that is being read, and the records that are read.
pub struct LoadState {
    pub in_connections: bool,
    pub in_connection: bool,
    pub in_folders: bool,
    pub in_topics: bool,
    pub current: Option<ServerConnection>,
    pub done: Vec<ServerConnection>,
}

/// The state of a reading as a mathematical value.
pub struct LoadStateView {
    pub in_connections: bool,
    pub in_connection: bool,
    pub in_folders: bool,
    pub in_topics: bool,
    pub current: Option<ServerConnectionView>,
    pub done: Seq<ServerConnectionView>,
}

impl View for LoadState {
    type V = LoadStateView;

    open spec fn view(&self) -> LoadStateView {
        LoadStateView {
            in_connections: self.in_connections,
            in_connection: self.in_connection,
            in_folders: self.in_folders,
            in_topics: self.in_topics,
            current: match self.current {
                Some(c) => Some(c@),
                None => None,
            },
            done: connections_view(self.done@),
        }
    }
}

/// The state before anything is read.
pub open spec fn initial_state() -> LoadStateView {
    LoadStateView {
        in_connections: false,
        in_connection: false,
        in_folders: false,
        in_topics: false,
        current: None,
        done: Seq::empty(),
    }
}

/// The state after an opening tag. The root and the two blocks are noted
/// as open. A `connection` in the root starts a record; one that cannot be
/// read is passed over with all that it holds. A `folder` in the folders
/// block and a `topic` in the topics block, each with a name, are added to
/// the record that is being read. Any other tag changes nothing.
pub open spec fn open_tag(state: LoadStateView, element: XmlElementView) -> LoadStateView {
    let name = attribute_value(element.attributes, "name"@);
    if element.name == "connections"@ {
        LoadStateView { in_connections: true, ..state }
    } else if element.name == "connection"@ && state.in_connections {
        match parse_connection(element) {
            Err(_) => LoadStateView { in_connection: true, current: None, ..state },
            Ok(c) => LoadStateView { in_connection: true, current: Some(c), ..state },
        }
    } else if element.name == "folders"@ && state.in_connection {
        LoadStateView { in_folders: true, ..state }
    } else if element.name == "topics"@ && state.in_connection {
        LoadStateView { in_topics: true, ..state }
    } else if element.name == "folder"@ && state.in_folders && state.current is Some
        && name is Some {
        LoadStateView {
            current: Some(
                ServerConnectionView {
                    folders: state.current->0.folders.push(name->0),
                    ..state.current->0
                },
            ),
            ..state
        }
    } else if element.name == "topic"@ && state.in_topics && state.current is Some
        && name is Some {
        LoadStateView {
            current: Some(
                ServerConnectionView {
                    topic_configs: with_topic(
                        state.current->0.topic_configs,
                        parse_topic(name->0, element.attributes),
                    ),
                    ..state.current->0
                },
            ),
            ..state
        }
    } else {
        state
    }
}

/// The state after a closing tag. The root and the two blocks are noted
/// as closed. The end of a `connection` puts the record that is being
/// read behind those that are read. Any other tag changes nothing.
pub open spec fn close_tag(state: LoadStateView, name: Seq<char>) -> LoadStateView {
    if name == "connections"@ {
        LoadStateView { in_connections: false, ..state }
    } else if name == "connection"@ && state.in_connection {
        match state.current {
            Some(c) => LoadStateView {
                in_connection: false,
                current: None,
                done: state.done.push(c),
                ..state
            },
            None => LoadStateView { in_connection: false, ..state },
        }
    } else if name == "folders"@ && state.in_connection {
        LoadStateView { in_folders: false, ..state }
    } else if name == "topics"@ && state.in_connection {
        LoadStateView { in_topics: false, ..state }
    } else {
        state
    }
}

/// The state after one piece of the file. An element without content
/// counts as its opening tag and then its closing tag.
pub open spec fn step(state: LoadStateView, node: XmlNodeView) -> LoadStateView {
    match node {
        XmlNodeView::Start(element) => open_tag(state, element),
        XmlNodeView::Empty(element) => close_tag(open_tag(state, element), element.name),
        XmlNodeView::End(name) => close_tag(state, name),
    }
}

/// The state after the given pieces.
pub open spec fn run(state: LoadStateView, nodes: Seq<XmlNodeView>) -> LoadStateView
    decreases nodes.len(),
{
    if nodes.len() == 0 {
        state
    } else {
        step(run(state, nodes.drop_last()), nodes.last())
    }
}

/// The records that the pieces of a connections file describe, each field
/// as it is written. A record that cannot be read is not among them.
pub open spec fn records_of(nodes: Seq<XmlNodeView>) -> Seq<ServerConnectionView> {
    run(initial_state(), nodes).done
}

impl LoadState {
    /// The state before anything is read.
    pub fn new() -> (r: Self)
        ensures
            r@ == initial_state(),
    {
        let r = LoadState {
            in_connections: false,
            in_connection: false,
            in_folders: false,
            in_topics: false,
            current: None,
            done: Vec::new(),
        };
        assert(r@.done =~= Seq::empty());
        r
    }

    /// Takes an opening tag in.
    pub fn open_tag(&mut self, element: &XmlElement)
        ensures
            final(self)@ == open_tag(old(self)@, element@),
    {
        let name = element.name.as_str();
        if text_eq(name, "connections") {
            self.in_connections = true;
        } else if text_eq(name, "connection") && self.in_connections {
            self.in_connection = true;
            self.current = match parse_connection_start(element) {
                Err(_) => None,
                Ok(connection) => Some(connection),
            };
        } else if text_eq(name, "folders") && self.in_connection {
            self.in_folders = true;
        } else if text_eq(name, "topics") && self.in_connection {
            self.in_topics = true;
        } else if text_eq(name, "folder") && self.in_folders {
            match element.get("name") {
                None => {},
                Some(folder) => match self.current.take() {
                    None => {},
                    Some(connection) => {
                        let mut connection = connection;
                        connection.add_folder(TopicFolder::new(folder.clone()));
                        self.current = Some(connection);
                    },
                },
            }
        } else if text_eq(name, "topic") && self.in_topics {
            match element.get("name") {
                None => {},
                Some(topic) => match self.current.take() {
                    None => {},
                    Some(connection) => {
                        let mut connection = connection;
                        let entry = topic_from_element(topic, element);
                        connection.set_topic_config(entry.name, entry.config);
                        self.current = Some(connection);
                    },
                },
            }
        }
    }

    /// Takes a closing tag in.
    pub fn close_tag(&mut self, name: &str)
        ensures
            final(self)@ == close_tag(old(self)@, name@),
    {
        if text_eq(name, "connections") {
            self.in_connections = false;
        } else if text_eq(name, "connection") && self.in_connection {
            self.in_connection = false;
            match self.current.take() {
                None => {},
                Some(connection) => {
                    self.done.push(connection);
                    assert(self@.done =~= old(self)@.done.push(connection@));
                },
            }
        } else if text_eq(name, "folders") && self.in_connection {
            self.in_folders = false;
        } else if text_eq(name, "topics") && self.in_connection {
            self.in_topics = false;
        }
    }

    /// Takes one piece of the file in.
    pub fn step(&mut self, node: &XmlNode)
        ensures
            final(self)@ == step(old(self)@, node@),
    {
        match node {
            XmlNode::Start(element) => self.open_tag(element),
            XmlNode::Empty(element) => {
                self.open_tag(element);
                self.close_tag(element.name.as_str());
            },
            XmlNode::End(name) => self.close_tag(name.as_str()),
        }
    }
}

/// The records that the pieces of a connections file describe, each field
/// as it is written. A record that cannot be read, as one that names a
/// security mode which does not exist, is passed over.
pub fn records_from_nodes(nodes: &Vec<XmlNode>) -> (r: Vec<ServerConnection>)
    ensures
        connections_view(r@) == records_of(nodes_view(nodes@)),
{
    let ghost all = nodes_view(nodes@);
    let mut state = LoadState::new();
    assert(all.take(0) =~= Seq::empty());
    let mut i: usize = 0;
    while i < nodes.len()
        invariant
            i <= nodes@.len(),
            all == nodes_view(nodes@),
            run(initial_state(), all.take(i as int)) == state@,
        decreases nodes@.len() - i,
    {
        proof {
            assert(all.take(i + 1).drop_last() =~= all.take(i as int));
            assert(all.take(i + 1).last() == nodes@[i as int]@);
        }
        state.step(&nodes[i]);
        i += 1;
    }
    assert(all.take(i as int) =~= all);
    state.done
}

/// The schema of the connections file as a value.
pub open spec fn connection_schema_view() -> Seq<TagSchemaView> {
    seq![
        TagSchemaView {
            name: "connection"@,
            keys: seq![
                "name"@,
                "host"@,
                "chroot"@,
                "port"@,
                "id"@,
                "group"@,
                "version"@,
                "broker_security_type"@,
                "bootstrap_servers"@,
                "validate_ssl_endpoint_hostname"@,
                "enable_poller"@,
                "truststore_location"@,
                "truststore_password"@,
                "keystore_location"@,
                "keystore_password"@,
                "keystore_privatekey"@,
                "sasl_mechanism"@,
                "sasl_callback"@,
                "sasl_endpoint_token"@,
                "jaas_config"@,
                "schema_registry_endpoint"@,
                "schema_registry_basic_auth"@,
                "schema_registry_ssl_truststore_location"@,
                "schema_registry_ssl_truststore_password"@,
                "schema_registry_ssl_keystore_location"@,
                "schema_registry_ssl_keystore_password"@,
                "schema_registry_ssl_keystore_private_key"@,
            ],
        },
        TagSchemaView { name: "folder"@, keys: seq!["name"@] },
        TagSchemaView {
            name: "topic"@,
            keys: seq![
                "name"@,
                "key_decoder"@,
                "message_decoder"@,
                "string_type"@,
                "header_type"@,
                "offset_request_type"@,
                "parent_folder"@,
            ],
        },
    ]
}

/// The schema of the connections file: the elements `connection`, `folder`
/// and `topic` with their attributes.
pub fn connection_schema() -> (r: Vec<TagSchema>)
    ensures
        schemas_view(r@) == connection_schema_view(),
{
    let mut keys: Vec<String> = Vec::new();
    keys.push("name".to_owned());
    keys.push("host".to_owned());
    keys.push("chroot".to_owned());
    keys.push("port".to_owned());
    keys.push("id".to_owned());
    keys.push("group".to_owned());
    keys.push("version".to_owned());
    keys.push("broker_security_type".to_owned());
    keys.push("bootstrap_servers".to_owned());
    keys.push("validate_ssl_endpoint_hostname".to_owned());
    keys.push("enable_poller".to_owned());
    keys.push("truststore_location".to_owned());
    keys.push("truststore_password".to_owned());
    keys.push("keystore_location".to_owned());
    keys.push("keystore_password".to_owned());
    keys.push("keystore_privatekey".to_owned());
    keys.push("sasl_mechanism".to_owned());
    keys.push("sasl_callback".to_owned());
    keys.push("sasl_endpoint_token".to_owned());
    keys.push("jaas_config".to_owned());
    keys.push("schema_registry_endpoint".to_owned());
    keys.push("schema_registry_basic_auth".to_owned());
    keys.push("schema_registry_ssl_truststore_location".to_owned());
    keys.push("schema_registry_ssl_truststore_password".to_owned());
    keys.push("schema_registry_ssl_keystore_location".to_owned());
    keys.push("schema_registry_ssl_keystore_password".to_owned());
    keys.push("schema_registry_ssl_keystore_private_key".to_owned());
    let connection = schema("connection", keys);
    assert(connection@.keys =~= connection_schema_view()[0].keys);
    let mut keys: Vec<String> = Vec::new();
    keys.push("name".to_owned());
    let folder = schema("folder", keys);
    assert(folder@.keys =~= connection_schema_view()[1].keys);
    let mut keys: Vec<String> = Vec::new();
    keys.push("name".to_owned());
    keys.push("key_decoder".to_owned());
    keys.push("message_decoder".to_owned());
    keys.push("string_type".to_owned());
    keys.push("header_type".to_owned());
    keys.push("offset_request_type".to_owned());
    keys.push("parent_folder".to_owned());
    let topic = schema("topic", keys);
    assert(topic@.keys =~= connection_schema_view()[2].keys);
    let mut r: Vec<TagSchema> = Vec::new();
    r.push(connection);
    r.push(folder);
    r.push(topic);
    assert(schemas_view(r@) =~= connection_schema_view());
    r
}

/// A record without secrets is written and read as it is.
pub proof fn lemma_without_secrets(c: ServerConnectionView)
    requires
        no_secrets(c),
    ensures
        masked_record(c) == Ok::<ServerConnectionView, ConfigError>(c),
        unmasked_record(c) == Ok::<ServerConnectionView, ConfigError>(c),
{
}

/// Records without secrets are written and read as they are.
pub proof fn lemma_all_without_secrets(connections: Seq<ServerConnectionView>)
    requires
        all_without_secrets(connections),
    ensures
        masked_records(connections) == Ok::<Seq<ServerConnectionView>, ConfigError>(connections),
        unmasked_records(connections) == Ok::<Seq<ServerConnectionView>, ConfigError>(
            connections,
        ),
    decreases connections.len(),
{
    if connections.len() > 0 {
        let front = connections.drop_last();
        assert forall|i: int| 0 <= i < front.len() implies no_secrets(#[trigger] front[i]) by {
            assert(front[i] == connections[i]);
        }
        lemma_all_without_secrets(front);
        lemma_without_secrets(connections.last());
        assert(front.push(connections.last()) =~= connections);
    } else {
        assert(connections =~= Seq::empty());
    }
}

/// A record whose secrets fit the buffer is masked, and only such a
/// record; the refusal of any other is that the secret is too long.
pub proof fn lemma_masked_record_refusal(c: ServerConnectionView)
    ensures
        masked_record(c) is Ok <==> secrets_fit(c),
        masked_record(c) matches Err(e) ==> e == ConfigError::SecretTooLong,
{
}

/// A record whose secrets fit the buffer comes back from its masked form
/// with its secrets as they were.
pub proof fn lemma_record_comes_back(c: ServerConnectionView)
    requires
        secrets_fit(c),
    ensures
        masked_record(c) is Ok,
        unmasked_record(masked_record(c)->Ok_0) == Ok::<ServerConnectionView, ConfigError>(c),
{
    lemma_option_comes_back(c.truststore_password);
    lemma_option_comes_back(c.keystore_password);
    lemma_option_comes_back(c.keystore_privatekey);
    lemma_option_comes_back(c.schema_registry_ssl_truststore_password);
    lemma_option_comes_back(c.schema_registry_ssl_keystore_password);
    lemma_option_comes_back(c.schema_registry_ssl_keystore_private_key);
}

/// A secret that fits the buffer, or none, comes back from its masked
/// form.
pub proof fn lemma_option_comes_back(secret: Option<Seq<char>>)
    requires
        secret_fits(secret),
    ensures
        masked_secret(secret) is Ok,
        unmasked_secret(masked_secret(secret)->Ok_0) == Ok::<Option<Seq<char>>, ConfigError>(
            secret,
        ),
{
    if let Some(text) = secret {
        lemma_secret_comes_back(text);
    }
}

/// What reading the pieces of a connections file into the store `before`
/// ends with: a secret that does not unmask and a record that cannot be
/// added each leave the store as it was and give their refusal; otherwise
/// all records that could be read are added.
pub open spec fn file_loads(
    before: StoreView,
    nodes: Seq<XmlNodeView>,
    after: StoreView,
    r: Result<(), ConfigError>,
) -> bool {
    match unmasked_records(records_of(nodes)) {
        Err(e) => r == Err::<(), ConfigError>(e) && after == before,
        Ok(plain) => loads(before, plain, after, r),
    }
}

impl ServerConnectionSettings {
    /// The connections file in pieces, with the secrets masked. A store
    /// that holds a secret of more than 126 bytes is refused, and no other.
    pub fn to_nodes(&self) -> (r: Result<Vec<XmlNode>, ConfigError>)
        ensures
            match r {
                Ok(nodes) => masked_records(self@.connections) is Ok && nodes_view(nodes@)
                    == store_nodes(masked_records(self@.connections)->Ok_0),
                Err(e) => masked_records(self@.connections) == Err::<
                    Seq<ServerConnectionView>,
                    ConfigError,
                >(e),
            },
    {
        match mask_all(self.get_connections()) {
            Err(e) => Err(e),
            Ok(masked) => Ok(connections_to_nodes(masked.as_slice())),
        }
    }

    /// The connections file as text, with the secrets masked. A store that
    /// holds a secret of more than 126 bytes is refused, and no other.
    pub fn to_xml(&self) -> (r: Result<String, ConfigError>)
        ensures
            match r {
                Ok(text) => masked_records(self@.connections) is Ok && text@ == document_text(
                    store_nodes(masked_records(self@.connections)->Ok_0),
                ),
                Err(e) => masked_records(self@.connections) == Err::<
                    Seq<ServerConnectionView>,
                    ConfigError,
                >(e),
            },
    {
        match self.to_nodes() {
            Err(e) => Err(e),
            Ok(nodes) => Ok(write_document(&nodes)),
        }
    }

    /// Reads the pieces of a connections file into the store: the records
    /// are read, their secrets unmasked, and all are added as
    /// `add_connection` adds them. A record that cannot be read is passed
    /// over. Where a secret does not unmask or a record cannot be added,
    /// the store stays as it is.
    pub fn from_nodes(&mut self, nodes: &Vec<XmlNode>) -> (r: Result<(), ConfigError>)
        ensures
            old(self).wf() ==> final(self).wf(),
            file_loads(old(self)@, nodes_view(nodes@), final(self)@, r),
    {
        let records = records_from_nodes(nodes);
        match unmask_all(records.as_slice()) {
            Err(e) => Err(e),
            Ok(plain) => self.add_all(plain.as_slice()),
        }
    }

    /// Reads a connections file into the store. A text that is not
    /// well-formed XML is refused; any other is read as `from_nodes` reads
    /// its pieces. A store that refuses stays as it is.
    pub fn from_xml(&mut self, xml: &str, _settings: &UserSettings) -> (r: Result<(), ConfigError>)
        ensures
            old(self).wf() ==> final(self).wf(),
            match parsed(xml@, connection_schema_view()) {
                None => r == Err::<(), ConfigError>(ConfigError::MalformedXml) && final(self)@
                    == old(self)@,
                Some(nodes) => file_loads(old(self)@, nodes, final(self)@, r),
            },
    {
        let schemas = connection_schema();
        match read_document(xml, &schemas) {
            Err(e) => Err(e),
            Ok(nodes) => self.from_nodes(&nodes),
        }
    }
}

/// Adding the records `plain` to the store `before` ends with the store
/// `after` and the result `r`: all are added, or the first refusal is
/// returned and the store is as it was.
pub open spec fn loads(
    before: StoreView,
    plain: Seq<ServerConnectionView>,
    after: StoreView,
    r: Result<(), ConfigError>,
) -> bool {
    match add_all_outcome(before, plain) {
        Ok(store) => r is Ok && after == store,
        Err(e) => r == Err::<(), ConfigError>(e) && after == before,
    }
}

} // verus!
