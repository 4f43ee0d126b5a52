use offset_explorer::config::connection_xml::{
    parse_connection_start, connection_schema, connection_to_element, connections_to_nodes,
    mask_secrets, records_from_nodes, unmask_secrets,
};
use offset_explorer::config::crypto::decrypt_password;
use offset_explorer::config::server_connection::{
    BrokerSecurityType, ClusterVersion, ServerConnection, ServerConnectionSettings,
    TopicDecoderConfig, TopicFolder,
};
use offset_explorer::config::settings::UserSettings;
use offset_explorer::config::sorting::name_rank;
use offset_explorer::config::xml::{read_document, write_document, XmlElement, XmlNode};
use offset_explorer::error::ConfigError;

fn named(id: i64, name: &str) -> ServerConnection {
    ServerConnection::new(id, name.to_string())
}

fn reachable(name: &str, host: &str, port: i64) -> ServerConnection {
    let mut c = named(0, name);
    c.set_host(host.to_string());
    c.set_port(Some(port));
    c
}

fn empty_config() -> TopicDecoderConfig {
    TopicDecoderConfig {
        key_decoder: None,
        message_decoder: None,
        string_type: None,
        header_type: None,
        offset_request_type: None,
        parent_folder: None,
    }
}

#[test]
fn security_types_have_their_names() {
    let all = [
        (BrokerSecurityType::PLAINTEXT, "PLAINTEXT", false, false),
        (BrokerSecurityType::SSL, "SSL", false, true),
        (BrokerSecurityType::SASL_PLAINTEXT, "SASL_PLAINTEXT", true, false),
        (BrokerSecurityType::SASL_SSL, "SASL_SSL", true, true),
    ];
    for (mode, name, sasl, ssl) in all {
        assert_eq!(mode.as_str(), name);
        assert_eq!(BrokerSecurityType::from_str(name), Ok(mode));
        assert_eq!(mode.is_sasl(), sasl);
        assert_eq!(mode.is_ssl(), ssl);
    }
    assert_eq!(BrokerSecurityType::from_str("ssl"), Err(ConfigError::UnknownSecurityType));
    assert_eq!(BrokerSecurityType::from_str(""), Err(ConfigError::UnknownSecurityType));
}

#[test]
fn versions_fall_back_to_the_latest() {
    assert_eq!(ClusterVersion::from_str("1.0.0"), Ok(ClusterVersion::VERSION_1_0));
    assert_eq!(ClusterVersion::from_str("VERSION_1_0_0"), Ok(ClusterVersion::VERSION_1_0));
    assert_eq!(ClusterVersion::from_str("LATEST"), Ok(ClusterVersion::LATEST));
    assert_eq!(ClusterVersion::from_str("3.7"), Ok(ClusterVersion::LATEST));
    assert_eq!(ClusterVersion::LATEST.as_str(), "LATEST");
    assert_eq!(ClusterVersion::VERSION_1_0.as_str(), "VERSION_1_0_0");
    assert_eq!(ClusterVersion::VERSION_3_7.as_str(), "VERSION_1_0_0");
}

#[test]
fn a_new_connection_has_the_defaults() {
    let c = named(7, "Prod");
    assert_eq!(c.get_id(), 7);
    assert_eq!(c.get_name(), "Prod");
    assert_eq!(c.get_host(), "");
    assert_eq!(c.get_port(), None);
    assert_eq!(c.server_group_id, 1);
    assert_eq!(c.chroot, "/");
    assert_eq!(c.version, ClusterVersion::VERSION_1_0);
    assert_eq!(*c.get_security_type(), BrokerSecurityType::PLAINTEXT);
    assert!(c.validate_ssl_endpoint_hostname);
    assert!(c.enable_poller);
    assert!(c.no_zookeeper_mode());
    assert_eq!(c.get_sasl_username(), None);
    assert_eq!(c.get_sasl_password(), None);
    assert!(c.folders.is_empty());
    assert!(c.topic_configs.is_empty());
    assert_eq!(TopicFolder::new("f".to_string()).get_name(), "f");
}

#[test]
fn the_address_list_prefers_the_explicit_one() {
    let mut c = named(1, "c");
    assert_eq!(c.get_bootstrap_servers(), "");
    c.set_host("h1".to_string());
    assert!(!c.no_zookeeper_mode());
    assert_eq!(c.get_bootstrap_servers(), "h1");
    c.set_port(Some(9092));
    assert_eq!(c.get_bootstrap_servers(), "h1:9092");
    c.set_port(Some(-1));
    assert_eq!(c.get_bootstrap_servers(), "h1:-1");
    c.bootstrap_servers = "a:1,b:2".to_string();
    assert_eq!(c.get_bootstrap_servers(), "a:1,b:2");
    c.set_name("renamed".to_string());
    assert_eq!(c.get_name(), "renamed");
    c.sasl_callback = Some("user".to_string());
    c.sasl_endpoint_token = Some("secret".to_string());
    assert_eq!(c.get_sasl_username(), Some(&"user".to_string()));
    assert_eq!(c.get_sasl_password(), Some(&"secret".to_string()));
}

#[test]
fn topic_configs_are_kept_by_name() {
    let mut c = named(1, "c");
    c.set_topic_config("orders".to_string(), empty_config());
    c.set_topic_config("payments".to_string(), empty_config());
    let mut changed = empty_config();
    changed.key_decoder = Some("String".to_string());
    c.set_topic_config("orders".to_string(), changed);
    assert_eq!(c.topic_configs.len(), 2);
    assert_eq!(c.topic_configs[0].name, "orders");
    assert_eq!(c.topic_configs[0].config.key_decoder, Some("String".to_string()));
    assert_eq!(c.topic_configs[1].name, "payments");
    c.add_folder(TopicFolder::new("f1".to_string()));
    c.add_folder(TopicFolder::new("f2".to_string()));
    assert_eq!(c.folders.iter().map(|f| f.get_name()).collect::<Vec<_>>(), vec!["f1", "f2"]);
}

#[test]
fn names_that_differ_in_case_only_are_one_name() {
    let mut store = ServerConnectionSettings::with_next_id(100);
    assert_eq!(store.add_connection(named(0, "Prod")), Ok(101));
    assert_eq!(store.add_connection(named(0, "prod")), Err(ConfigError::DuplicateName));
    assert_eq!(store.add_connection(named(55, "PROD")), Err(ConfigError::DuplicateName));
    assert_eq!(store.len(), 1);
    assert_eq!(store.add_connection(named(0, "Pröd")), Ok(102));
    // Only the case of ASCII letters is passed over.
    assert_eq!(store.add_connection(named(0, "PRÖD")), Ok(103));
    assert_eq!(store.find_connection_by_name("PROD").unwrap().get_id(), 101);
    assert_eq!(store.find_connection_by_name("pröd").unwrap().get_id(), 102);
    assert!(store.find_connection_by_name("pro").is_none());
}

#[test]
fn ids_are_handed_out_above_the_last_and_never_twice() {
    let mut store = ServerConnectionSettings::with_next_id(-2);
    assert_eq!(store.add_connection(named(1, "one")), Ok(1));
    assert_eq!(store.add_connection(named(1, "uno")), Err(ConfigError::DuplicateId));
    // -1 is free, 0 is never handed out, 1 is taken.
    assert_eq!(store.add_connection(named(0, "a")), Ok(-1));
    assert_eq!(store.add_connection(named(0, "b")), Ok(2));
    assert_eq!(store.add_connection(named(0, "c")), Ok(3));
    assert_eq!(store.generate_id(), Some(4));
    assert_eq!(store.add_connection(named(0, "d")), Ok(5));
    let ids: Vec<i64> = store.get_connections().iter().map(|c| c.get_id()).collect();
    assert_eq!(ids, vec![1, -1, 2, 3, 5]);
    let mut full = ServerConnectionSettings::with_next_id(i64::MAX);
    assert_eq!(full.add_connection(named(0, "x")), Err(ConfigError::IdsExhausted));
    assert_eq!(full.generate_id(), None);
    assert_eq!(full.add_connection(named(9, "x")), Ok(9));
    let mut last = ServerConnectionSettings::with_next_id(i64::MAX - 1);
    assert_eq!(last.add_connection(named(0, "x")), Ok(i64::MAX));
    assert_eq!(last.add_connection(named(0, "y")), Err(ConfigError::IdsExhausted));
    assert_eq!(last.len(), 1);
}

#[test]
fn a_store_made_by_the_clock_starts_empty() {
    let mut store = ServerConnectionSettings::new();
    assert_eq!(store.len(), 0);
    let first = store.add_connection(named(0, "a")).unwrap();
    let second = store.add_connection(named(0, "b")).unwrap();
    assert!(first != 0 && second > first);
}

#[test]
fn connections_are_found_and_removed_by_id() {
    let mut store = ServerConnectionSettings::with_next_id(0);
    store.add_connection(reachable("A", "h1", 9092)).unwrap();
    store.add_connection(reachable("B", "h2", 9093)).unwrap();
    store.add_connection(reachable("C", "h3", 9094)).unwrap();
    assert_eq!(store.find_connection(2).unwrap().get_host(), "h2");
    assert!(store.find_connection(4).is_none());
    assert!(store.find_connection(0).is_none());
    assert_eq!(store.remove_connection(4), Err(ConfigError::ConnectionNotFound));
    assert_eq!(store.len(), 3);
    assert_eq!(store.remove_connection(2), Ok(()));
    assert_eq!(store.remove_connection(2), Err(ConfigError::ConnectionNotFound));
    let names: Vec<&str> = store.get_connections().iter().map(|c| c.get_name()).collect();
    assert_eq!(names, vec!["A", "C"]);
    // The name of a removed connection is free again, its id is not handed out again.
    assert_eq!(store.add_connection(reachable("b", "h2", 9093)), Ok(4));
}

#[test]
fn sorting_is_by_name_without_regard_to_case() {
    let mut store = ServerConnectionSettings::with_next_id(0);
    for name in ["delta", "Alpha", "charlie", "Bravo", "ÉCLAIR", "éclair2", "alpha2"] {
        store.add_connection(named(0, name)).unwrap();
    }
    store.sort_by_name();
    let names: Vec<&str> = store.get_connections().iter().map(|c| c.get_name()).collect();
    assert_eq!(names, vec!["Alpha", "alpha2", "Bravo", "charlie", "delta", "ÉCLAIR", "éclair2"]);
    assert_eq!(name_rank(&named(1, "a"), &named(2, "B")), -1);
    assert_eq!(name_rank(&named(1, "Straße"), &named(2, "STRASSE")), 1);
    assert_eq!(name_rank(&named(1, "É"), &named(2, "é")), 0);
    // Records of equal rank stay in their order.
    let mut ties = ServerConnectionSettings::with_next_id(0);
    ties.add_connection(named(0, "é")).unwrap();
    ties.add_connection(named(0, "a")).unwrap();
    ties.add_connection(named(0, "É")).unwrap();
    ties.sort_by_name();
    let ids: Vec<i64> = ties.get_connections().iter().map(|c| c.get_id()).collect();
    assert_eq!(ids, vec![2, 1, 3]);
}

#[test]
fn a_store_round_trips_through_its_file() {
    let mut store = ServerConnectionSettings::with_next_id(1000);
    let a = store.add_connection(reachable("A", "h1", 9092)).unwrap();
    let b = store.add_connection(reachable("B", "h2", 9093)).unwrap();
    let xml = store.to_xml().unwrap();
    let mut fresh = ServerConnectionSettings::with_next_id(5);
    assert_eq!(fresh.from_xml(&xml, &UserSettings::new()), Ok(()));
    let mut before: Vec<(String, String, Option<i64>)> = store
        .get_connections()
        .iter()
        .map(|c| (c.get_name().to_string(), c.get_host().to_string(), c.get_port()))
        .collect();
    let mut after: Vec<(String, String, Option<i64>)> = fresh
        .get_connections()
        .iter()
        .map(|c| (c.get_name().to_string(), c.get_host().to_string(), c.get_port()))
        .collect();
    before.sort();
    after.sort();
    assert_eq!(before, after);
    assert_eq!(
        after,
        vec![
            ("A".to_string(), "h1".to_string(), Some(9092)),
            ("B".to_string(), "h2".to_string(), Some(9093)),
        ]
    );
    assert_eq!((a, b), (1001, 1002));
    assert_eq!(fresh.find_connection_by_name("A").unwrap().get_id(), a);
    assert_eq!(fresh.find_connection_by_name("B").unwrap().get_id(), b);
    assert_eq!(fresh.to_xml().unwrap(), xml);
}

#[test]
fn the_connections_file_is_written_as_specified() {
    let mut store = ServerConnectionSettings::with_next_id(41);
    let mut c = reachable("A \"quoted\"", "h1", 9092);
    c.broker_security_type = BrokerSecurityType::SASL_SSL;
    c.version = ClusterVersion::LATEST;
    c.sasl_mechanism = Some("PLAIN".to_string());
    c.schema_registry_endpoint = Some("http://r:8081".to_string());
    c.enable_poller = false;
    c.add_folder(TopicFolder::new("f1".to_string()));
    let mut config = empty_config();
    config.message_decoder = Some("Avro".to_string());
    config.parent_folder = Some("f1".to_string());
    c.set_topic_config("orders".to_string(), config);
    store.add_connection(c).unwrap();
    store.add_connection(named(0, "bare")).unwrap();
    assert_eq!(
        store.to_xml().unwrap(),
        "<connections>\n  \
         <connection name=\"A &quot;quoted&quot;\" host=\"h1\" chroot=\"/\" port=\"9092\" id=\"42\" group=\"1\" \
         version=\"LATEST\" broker_security_type=\"SASL_SSL\" bootstrap_servers=\"\" \
         validate_ssl_endpoint_hostname=\"true\" enable_poller=\"false\" sasl_mechanism=\"PLAIN\" \
         schema_registry_endpoint=\"http://r:8081\">\n    \
         <folders>\n      <folder name=\"f1\"/>\n    </folders>\n    \
         <topics>\n      <topic name=\"orders\" message_decoder=\"Avro\" parent_folder=\"f1\"/>\n    </topics>\n  \
         </connection>\n  \
         <connection name=\"bare\" host=\"\" chroot=\"/\" port=\"\" id=\"43\" group=\"1\" \
         version=\"VERSION_1_0_0\" broker_security_type=\"PLAINTEXT\" bootstrap_servers=\"\" \
         validate_ssl_endpoint_hostname=\"true\" enable_poller=\"true\">\n  \
         </connection>\n\
         </connections>"
    );
    let mut fresh = ServerConnectionSettings::with_next_id(0);
    fresh.from_xml(&store.to_xml().unwrap(), &UserSettings::new()).unwrap();
    let back = fresh.find_connection(42).unwrap();
    assert_eq!(back.get_name(), "A \"quoted\"");
    assert_eq!(back.folders.len(), 1);
    assert_eq!(back.folders[0].get_name(), "f1");
    assert_eq!(back.topic_configs.len(), 1);
    assert_eq!(back.topic_configs[0].name, "orders");
    assert_eq!(back.topic_configs[0].config.message_decoder, Some("Avro".to_string()));
    assert_eq!(back.topic_configs[0].config.key_decoder, None);
    assert_eq!(back.sasl_mechanism, Some("PLAIN".to_string()));
    assert!(!back.enable_poller);
    assert_eq!(back.version, ClusterVersion::LATEST);
    assert_eq!(back.get_port(), Some(9092));
    assert_eq!(fresh.find_connection(43).unwrap().get_port(), None);
}

#[test]
fn secrets_are_masked_in_the_file() {
    let mut c = named(8, "secure");
    c.truststore_password = Some("trust-me".to_string());
    c.keystore_privatekey = Some("".to_string());
    c.truststore_location = Some("/etc/truststore.jks".to_string());
    let masked = mask_secrets(&c).unwrap();
    assert_eq!(masked.truststore_location, c.truststore_location);
    assert_eq!(masked.keystore_password, None);
    let hex = masked.truststore_password.clone().unwrap();
    assert_eq!(hex.len(), 256);
    assert!(!hex.contains("trust-me"));
    assert_eq!(masked.keystore_privatekey.as_ref().unwrap().len(), 256);
    // Every secret comes back from its masked form.
    let back = unmask_secrets(&masked).unwrap();
    assert_eq!(back.truststore_password, Some("trust-me".to_string()));
    assert_eq!(back.keystore_privatekey, Some(String::new()));
    assert_eq!(back.keystore_password, None);
    assert_eq!(back.get_name(), "secure");
    assert_eq!(decrypt_password(&hex).unwrap(), "trust-me");
    let mut store = ServerConnectionSettings::with_next_id(0);
    store.add_connection(c).unwrap();
    let xml = store.to_xml().unwrap();
    assert!(!xml.contains("trust-me"));
    assert!(xml.contains("truststore_location=\"/etc/truststore.jks\""));
    assert!(xml.contains(&format!(" truststore_password=\"{}\"", hex)));
    // The file gives the store back with its secrets.
    let mut fresh = ServerConnectionSettings::with_next_id(0);
    fresh.from_xml(&xml, &UserSettings::new()).unwrap();
    let loaded = fresh.find_connection(8).unwrap();
    assert_eq!(loaded.truststore_password, Some("trust-me".to_string()));
    assert_eq!(loaded.keystore_privatekey, Some(String::new()));
    assert_eq!(loaded.truststore_location, Some("/etc/truststore.jks".to_string()));
    // A secret that is too long for the buffer is refused, and so is the file.
    let mut long = named(0, "long");
    long.keystore_password = Some("x".repeat(127));
    assert_eq!(mask_secrets(&long).err(), Some(ConfigError::SecretTooLong));
    store.add_connection(long).unwrap();
    assert_eq!(store.to_xml(), Err(ConfigError::SecretTooLong));
}

#[test]
fn a_store_counts_its_ids_from_the_clock() {
    let store = ServerConnectionSettings::at_clock(Some(1_700_000_000_000));
    assert_eq!(store.len(), 0);
    let mut store = store;
    assert_eq!(store.add_connection(named(0, "first")).unwrap(), 1_700_000_000_001);
    let mut early = ServerConnectionSettings::at_clock(None);
    assert_eq!(early.add_connection(named(0, "first")).unwrap(), 1);
    let mut late = ServerConnectionSettings::at_clock(Some(u64::MAX));
    assert_eq!(late.add_connection(named(0, "first")), Err(ConfigError::IdsExhausted));
    let mut now = ServerConnectionSettings::new();
    assert!(now.add_connection(named(0, "first")).unwrap() > 1_600_000_000_000);
}

#[test]
fn a_secret_that_does_not_unmask_stops_the_load() {
    let xml = "<connections><connection name=\"a\" id=\"77\" keystore_password=\"zz\"></connection></connections>";
    let mut store = ServerConnectionSettings::with_next_id(0);
    store.add_connection(named(0, "kept")).unwrap();
    assert_eq!(store.from_xml(xml, &UserSettings::new()), Err(ConfigError::MalformedHex));
    assert_eq!(store.len(), 1);
    let xml = "<connections><connection name=\"a\" id=\"77\" keystore_password=\"05\"/></connections>";
    assert_eq!(store.from_xml(xml, &UserSettings::new()), Err(ConfigError::InconsistentLength));
    let xml = "<connections><connection name=\"a\" id=\"77\" keystore_password=\"00\"/></connections>";
    assert_eq!(store.from_xml(xml, &UserSettings::new()), Ok(()));
    assert_eq!(store.find_connection(77).unwrap().keystore_password, Some(String::new()));
}

#[test]
fn a_load_that_is_refused_leaves_the_store_as_it_is() {
    let mut store = ServerConnectionSettings::with_next_id(10);
    store.add_connection(named(0, "kept")).unwrap();
    let before = store.to_xml().unwrap();
    let clash = "<connections>\
        <connection name=\"new\" id=\"5\"/>\
        <connection name=\"KEPT\" id=\"6\"/>\
        </connections>";
    assert_eq!(store.from_xml(clash, &UserSettings::new()), Err(ConfigError::DuplicateName));
    assert_eq!(store.to_xml().unwrap(), before);
    let same_id = "<connections><connection name=\"x\" id=\"11\"/></connections>";
    assert_eq!(store.from_xml(same_id, &UserSettings::new()), Err(ConfigError::DuplicateId));
    assert_eq!(store.from_xml("<connections><connection", &UserSettings::new()), Err(ConfigError::MalformedXml));
    assert_eq!(store.to_xml().unwrap(), before);
    // The id that was not handed out during the refused load is handed out next.
    assert_eq!(store.add_connection(named(0, "next")), Ok(12));
}

#[test]
fn fields_that_are_absent_or_unreadable_get_their_defaults() {
    let xml = "<connections>\
        <ignored name=\"x\"/>\
        <connection name=\"a\" id=\"abc\" group=\"\" port=\"\" validate_ssl_endpoint_hostname=\"no\" enable_poller=\"false\" version=\"9.9\">\
          <folder name=\"outside a block\"/>\
          <folders><folder/><folder name=\"in\"/></folders>\
          <topics><topic key_decoder=\"nameless\"/><topic name=\"t\" string_type=\"UTF8\"/></topics>\
        </connection>\
        </connections>\
        <connection name=\"outside the root\" id=\"77\"/>";
    let mut store = ServerConnectionSettings::with_next_id(500);
    assert_eq!(store.from_xml(xml, &UserSettings::new()), Ok(()));
    assert_eq!(store.len(), 1);
    let c = store.find_connection(501).unwrap();
    assert_eq!(c.get_name(), "a");
    assert_eq!(c.server_group_id, 1);
    assert_eq!(c.get_port(), None);
    assert!(c.validate_ssl_endpoint_hostname);
    assert!(!c.enable_poller);
    assert_eq!(c.version, ClusterVersion::LATEST);
    assert_eq!(c.chroot, "/");
    assert_eq!(c.folders.iter().map(|f| f.get_name()).collect::<Vec<_>>(), vec!["in"]);
    assert_eq!(c.topic_configs.len(), 1);
    assert_eq!(c.topic_configs[0].config.string_type, Some("UTF8".to_string()));
}

#[test]
fn elements_and_records_correspond() {
    let mut c = reachable("A", "h1", 9092);
    c.id = 3;
    c.keystore_password = Some("kept as it is".to_string());
    let written = connection_to_element(&c);
    assert_eq!(written.name, "connection");
    assert_eq!(written.attributes.len(), 12);
    assert_eq!(written.get("port"), Some(&"9092".to_string()));
    assert_eq!(written.get("keystore_password"), Some(&"kept as it is".to_string()));
    assert_eq!(written.get("truststore_password"), None);
    let back = parse_connection_start(&written).unwrap();
    assert_eq!(format!("{:?}", back), format!("{:?}", c));
    let mut wrong = XmlElement::new("connection");
    wrong.push("broker_security_type", "plaintext");
    assert_eq!(parse_connection_start(&wrong).err(), Some(ConfigError::UnknownSecurityType));
    let nodes = connections_to_nodes(&[c.clone()]);
    assert_eq!(nodes.len(), 4);
    assert!(matches!(&nodes[3], XmlNode::End(name) if name == "connections"));
    let records = records_from_nodes(&nodes);
    assert_eq!(records.len(), 1);
    assert_eq!(format!("{:?}", records[0]), format!("{:?}", c));
    let read = read_document(&write_document(&nodes), &connection_schema()).unwrap();
    assert_eq!(format!("{:?}", read), format!("{:?}", nodes));
}

#[test]
fn a_record_that_cannot_be_read_is_passed_over() {
    let xml = "<connections>\
        <connection name=\"before\" id=\"5\"/>\
        <connection name=\"odd\" id=\"6\" broker_security_type=\"TLS\">\
          <folders><folder name=\"lost with its record\"/></folders>\
          <topics><topic name=\"t\"/></topics>\
        </connection>\
        <connection name=\"after\" id=\"7\" broker_security_type=\"SSL\">\
          <folders><folder name=\"kept\"/></folders>\
        </connection>\
        </connections>";
    let mut store = ServerConnectionSettings::with_next_id(0);
    assert_eq!(store.from_xml(xml, &UserSettings::new()), Ok(()));
    assert_eq!(store.len(), 2);
    assert_eq!(store.find_connection(5).unwrap().get_name(), "before");
    assert!(store.find_connection(6).is_none());
    let after = store.find_connection(7).unwrap();
    assert_eq!(after.broker_security_type, BrokerSecurityType::SSL);
    assert_eq!(after.folders.len(), 1);
    let only_odd = "<connections><connection name=\"x\" broker_security_type=\"TLS\"/></connections>";
    assert_eq!(store.from_xml(only_odd, &UserSettings::new()), Ok(()));
    assert_eq!(store.len(), 2);
}
