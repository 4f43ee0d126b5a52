//! Connection records and the store that keeps them.

use vstd::prelude::*;
use crate::config::sorting::{is_stable_order, sort_connections, sorted_stably};
use crate::error::ConfigError;
use crate::text::{
    decimal_text, eq_ignore_ascii_case, format_integer, same_ignoring_ascii_case, text_eq,
};

verus! {

/// How a connection is secured.
#[allow(non_camel_case_types)]
#[derive(Debug, Clone, Copy, PartialEq, Eq, Structural)]
pub enum BrokerSecurityType {
    PLAINTEXT,
    SSL,
    SASL_PLAINTEXT,
    SASL_SSL,
}

impl BrokerSecurityType {
    /// The name under which the mode is written to a file.
    pub open spec fn name(self) -> Seq<char> {
        match self {
            BrokerSecurityType::PLAINTEXT => "PLAINTEXT"@,
            BrokerSecurityType::SSL => "SSL"@,
            BrokerSecurityType::SASL_PLAINTEXT => "SASL_PLAINTEXT"@,
            BrokerSecurityType::SASL_SSL => "SASL_SSL"@,
        }
    }

    /// The mode that a name stands for, if it stands for one.
    pub open spec fn named(s: Seq<char>) -> Option<Self> {
        if s == "PLAINTEXT"@ {
            Some(BrokerSecurityType::PLAINTEXT)
        } else if s == "SSL"@ {
            Some(BrokerSecurityType::SSL)
        } else if s == "SASL_PLAINTEXT"@ {
            Some(BrokerSecurityType::SASL_PLAINTEXT)
        } else if s == "SASL_SSL"@ {
            Some(BrokerSecurityType::SASL_SSL)
        } else {
            None
        }
    }

    /// Reads a mode from its name. Any other text is refused.
    pub fn from_str(s: &str) -> (r: Result<Self, ConfigError>)
        ensures
            match Self::named(s@) {
                Some(mode) => r == Ok::<Self, ConfigError>(mode),
                None => r == Err::<Self, ConfigError>(ConfigError::UnknownSecurityType),
            },
    {
        if text_eq(s, "PLAINTEXT") {
            Ok(BrokerSecurityType::PLAINTEXT)
        } else if text_eq(s, "SSL") {
            Ok(BrokerSecurityType::SSL)
        } else if text_eq(s, "SASL_PLAINTEXT") {
            Ok(BrokerSecurityType::SASL_PLAINTEXT)
        } else if text_eq(s, "SASL_SSL") {
            Ok(BrokerSecurityType::SASL_SSL)
        } else {
            Err(ConfigError::UnknownSecurityType)
        }
    }

    /// The name under which the mode is written to a file.
    pub fn as_str(&self) -> (r: &'static str)
        ensures
            r@ == self.name(),
    {
        match self {
            BrokerSecurityType::PLAINTEXT => "PLAINTEXT",
            BrokerSecurityType::SSL => "SSL",
            BrokerSecurityType::SASL_PLAINTEXT => "SASL_PLAINTEXT",
            BrokerSecurityType::SASL_SSL => "SASL_SSL",
        }
    }

    /// Whether the mode authenticates with SASL.
    pub fn is_sasl(&self) -> (r: bool)
        ensures
            r == (*self == BrokerSecurityType::SASL_PLAINTEXT || *self
                == BrokerSecurityType::SASL_SSL),
    {
        match self {
            BrokerSecurityType::SASL_PLAINTEXT => true,
            BrokerSecurityType::SASL_SSL => true,
            _ => false,
        }
    }

    /// Whether the mode encrypts with TLS.
    pub fn is_ssl(&self) -> (r: bool)
        ensures
            r == (*self == BrokerSecurityType::SSL || *self == BrokerSecurityType::SASL_SSL),
    {
        match self {
            BrokerSecurityType::SSL => true,
            BrokerSecurityType::SASL_SSL => true,
            _ => false,
        }
    }
}

/// The version of the cluster that a connection leads to.
#[allow(non_camel_case_types)]
#[derive(Debug, Clone, Copy, PartialEq, Eq, Structural)]
pub enum ClusterVersion {
    VERSION_0_8_0,
    VERSION_0_8_1,
    VERSION_0_8_2,
    VERSION_0_8_2_0,
    VERSION_0_8_2_1,
    VERSION_0_8_2_2,
    VERSION_0_9,
    VERSION_0_10,
    VERSION_0_10_1,
    VERSION_0_10_2,
    VERSION_0_11,
    VERSION_1_0,
    VERSION_1_1,
    VERSION_2_0,
    VERSION_2_1,
    VERSION_2_2,
    VERSION_2_3,
    VERSION_2_4,
    VERSION_2_5,
    VERSION_2_6,
    VERSION_2_7,
    VERSION_2_8,
    VERSION_3_0,
    VERSION_3_1,
    VERSION_3_2,
    VERSION_3_3,
    VERSION_3_4,
    VERSION_3_5,
    VERSION_3_6,
    VERSION_3_7,
    LATEST,
}

impl ClusterVersion {
    /// The version that a text stands for: 1.0 for its two names, the
    /// latest for any other text.
    pub open spec fn named(s: Seq<char>) -> Self {
        if s == "1.0.0"@ || s == "VERSION_1_0_0"@ {
            ClusterVersion::VERSION_1_0
        } else {
            ClusterVersion::LATEST
        }
    }

    /// The name under which the version is written to a file: `LATEST` for
    /// the latest, that of 1.0 for every other.
    pub open spec fn name(self) -> Seq<char> {
        if self == ClusterVersion::LATEST {
            "LATEST"@
        } else {
            "VERSION_1_0_0"@
        }
    }

    /// Reads a version. No text is refused: one that names no version
    /// stands for the latest.
    pub fn from_str(s: &str) -> (r: Result<Self, ConfigError>)
        ensures
            r == Ok::<Self, ConfigError>(Self::named(s@)),
    {
        if text_eq(s, "1.0.0") || text_eq(s, "VERSION_1_0_0") {
            Ok(ClusterVersion::VERSION_1_0)
        } else {
            Ok(ClusterVersion::LATEST)
        }
    }

    /// The name under which the version is written to a file.
    pub fn as_str(&self) -> (r: &'static str)
        ensures
            r@ == self.name(),
    {
        match self {
            ClusterVersion::LATEST => "LATEST",
            _ => "VERSION_1_0_0",
        }
    }
}

/// A text that may be absent, as a mathematical value.
pub open spec fn text_opt(o: Option<String>) -> Option<Seq<char>> {
    match o {
        Some(s) => Some(s@),
        None => None,
    }
}

/// A copy of a text that may be absent.
pub fn clone_text_opt(o: &Option<String>) -> (r: Option<String>)
    ensures
        text_opt(r) == text_opt(*o),
{
    match o {
        Some(s) => Some(s.clone()),
        None => None,
    }
}

/// A folder under which topics are grouped for display.
#[derive(Debug)]
pub struct TopicFolder {
    pub name: String,
}

impl View for TopicFolder {
    type V = Seq<char>;

    open spec fn view(&self) -> Seq<char> {
        self.name@
    }
}

impl Clone for TopicFolder {
    fn clone(&self) -> (r: Self)
        ensures
            r@ == self@,
    {
        TopicFolder { name: self.name.clone() }
    }
}

impl TopicFolder {
    /// A folder with the given name.
    pub fn new(name: String) -> (r: Self)
        ensures
            r@ == name@,
    {
        Self { name }
    }

    /// The folder's name.
    /// The name of the connection.
    pub fn get_name(&self) -> (r: &str)
        ensures
            r@ == self@,
    {
        self.name.as_str()
    }
}

/// How the messages of one topic are decoded and shown.
#[derive(Debug)]
pub struct TopicDecoderConfig {
    pub key_decoder: Option<String>,
    pub message_decoder: Option<String>,
    pub string_type: Option<String>,
    pub header_type: Option<String>,
    pub offset_request_type: Option<String>,
    pub parent_folder: Option<String>,
}

/// A topic's decoder configuration as a mathematical value.
pub struct TopicDecoderConfigView {
    pub key_decoder: Option<Seq<char>>,
    pub message_decoder: Option<Seq<char>>,
    pub string_type: Option<Seq<char>>,
    pub header_type: Option<Seq<char>>,
    pub offset_request_type: Option<Seq<char>>,
    pub parent_folder: Option<Seq<char>>,
}

impl View for TopicDecoderConfig {
    type V = TopicDecoderConfigView;

    open spec fn view(&self) -> TopicDecoderConfigView {
        TopicDecoderConfigView {
            key_decoder: text_opt(self.key_decoder),
            message_decoder: text_opt(self.message_decoder),
            string_type: text_opt(self.string_type),
            header_type: text_opt(self.header_type),
            offset_request_type: text_opt(self.offset_request_type),
            parent_folder: text_opt(self.parent_folder),
        }
    }
}

impl Clone for TopicDecoderConfig {
    fn clone(&self) -> (r: Self)
        ensures
            r@ == self@,
    {
        TopicDecoderConfig {
            key_decoder: clone_text_opt(&self.key_decoder),
            message_decoder: clone_text_opt(&self.message_decoder),
            string_type: clone_text_opt(&self.string_type),
            header_type: clone_text_opt(&self.header_type),
            offset_request_type: clone_text_opt(&self.offset_request_type),
            parent_folder: clone_text_opt(&self.parent_folder),
        }
    }
}

/// A topic's name with its decoder configuration.
#[derive(Debug)]
pub struct TopicEntry {
    pub name: String,
    pub config: TopicDecoderConfig,
}

/// A topic entry as a mathematical value.
pub struct TopicEntryView {
    pub name: Seq<char>,
    pub config: TopicDecoderConfigView,
}

impl View for TopicEntry {
    type V = TopicEntryView;

    open spec fn view(&self) -> TopicEntryView {
        TopicEntryView { name: self.name@, config: self.config@ }
    }
}

impl Clone for TopicEntry {
    fn clone(&self) -> (r: Self)
        ensures
            r@ == self@,
    {
        TopicEntry { name: self.name.clone(), config: self.config.clone() }
    }
}

/// The folders as mathematical values.
pub open spec fn folders_view(folders: Seq<TopicFolder>) -> Seq<Seq<char>> {
    folders.map_values(|f: TopicFolder| f@)
}

/// The topic entries as mathematical values.
pub open spec fn topics_view(topics: Seq<TopicEntry>) -> Seq<TopicEntryView> {
    topics.map_values(|t: TopicEntry| t@)
}

/// The topic entries with `fresh` in the place of the first entry of its
/// name, or at the end where no entry has that name.
pub open spec fn with_topic(topics: Seq<TopicEntryView>, fresh: TopicEntryView) -> Seq<
    TopicEntryView,
>
    decreases topics.len(),
{
    if topics.len() == 0 {
        seq![fresh]
    } else if topics[0].name == fresh.name {
        seq![fresh] + topics.drop_first()
    } else {
        seq![topics[0]] + with_topic(topics.drop_first(), fresh)
    }
}

/// How to reach one cluster and how to authenticate against it. The
/// secrets among the fields are held in the clear; they are masked when
/// the record is written to a file.
#[derive(Debug)]
pub struct ServerConnection {
    pub id: i64,
    pub server_group_id: i64,
    pub name: String,
    pub host: String,
    pub port: Option<i64>,
    pub chroot: String,
    pub version: ClusterVersion,
    pub broker_security_type: BrokerSecurityType,
    pub bootstrap_servers: String,
    pub validate_ssl_endpoint_hostname: bool,
    pub enable_poller: bool,
    pub truststore_location: Option<String>,
    pub truststore_password: Option<String>,
    pub keystore_location: Option<String>,
    pub keystore_password: Option<String>,
    pub keystore_privatekey: Option<String>,
    pub sasl_mechanism: Option<String>,
    pub sasl_callback: Option<String>,
    pub sasl_endpoint_token: Option<String>,
    pub jaas_config: Option<String>,
    pub schema_registry_endpoint: Option<String>,
    pub schema_registry_basic_auth: Option<String>,
    pub schema_registry_ssl_truststore_location: Option<String>,
    pub schema_registry_ssl_truststore_password: Option<String>,
    pub schema_registry_ssl_keystore_location: Option<String>,
    pub schema_registry_ssl_keystore_password: Option<String>,
    pub schema_registry_ssl_keystore_private_key: Option<String>,
    pub folders: Vec<TopicFolder>,
    pub topic_configs: Vec<TopicEntry>,
}

/// A connection record as a mathematical value.
pub struct ServerConnectionView {
    pub id: i64,
    pub server_group_id: i64,
    pub name: Seq<char>,
    pub host: Seq<char>,
    pub port: Option<i64>,
    pub chroot: Seq<char>,
    pub version: ClusterVersion,
    pub broker_security_type: BrokerSecurityType,
    pub bootstrap_servers: Seq<char>,
    pub validate_ssl_endpoint_hostname: bool,
    pub enable_poller: bool,
    pub truststore_location: Option<Seq<char>>,
    pub truststore_password: Option<Seq<char>>,
    pub keystore_location: Option<Seq<char>>,
    pub keystore_password: Option<Seq<char>>,
    pub keystore_privatekey: Option<Seq<char>>,
    pub sasl_mechanism: Option<Seq<char>>,
    pub sasl_callback: Option<Seq<char>>,
    pub sasl_endpoint_token: Option<Seq<char>>,
    pub jaas_config: Option<Seq<char>>,
    pub schema_registry_endpoint: Option<Seq<char>>,
    pub schema_registry_basic_auth: Option<Seq<char>>,
    pub schema_registry_ssl_truststore_location: Option<Seq<char>>,
    pub schema_registry_ssl_truststore_password: Option<Seq<char>>,
    pub schema_registry_ssl_keystore_location: Option<Seq<char>>,
    pub schema_registry_ssl_keystore_password: Option<Seq<char>>,
    pub schema_registry_ssl_keystore_private_key: Option<Seq<char>>,
    pub folders: Seq<Seq<char>>,
    pub topic_configs: Seq<TopicEntryView>,
}

impl View for ServerConnection {
    type V = ServerConnectionView;

    open spec fn view(&self) -> ServerConnectionView {
        ServerConnectionView {
            id: self.id,
            server_group_id: self.server_group_id,
            name: self.name@,
            host: self.host@,
            port: self.port,
            chroot: self.chroot@,
            version: self.version,
            broker_security_type: self.broker_security_type,
            bootstrap_servers: self.bootstrap_servers@,
            validate_ssl_endpoint_hostname: self.validate_ssl_endpoint_hostname,
            enable_poller: self.enable_poller,
            truststore_location: text_opt(self.truststore_location),
            truststore_password: text_opt(self.truststore_password),
            keystore_location: text_opt(self.keystore_location),
            keystore_password: text_opt(self.keystore_password),
            keystore_privatekey: text_opt(self.keystore_privatekey),
            sasl_mechanism: text_opt(self.sasl_mechanism),
            sasl_callback: text_opt(self.sasl_callback),
            sasl_endpoint_token: text_opt(self.sasl_endpoint_token),
            jaas_config: text_opt(self.jaas_config),
            schema_registry_endpoint: text_opt(self.schema_registry_endpoint),
            schema_registry_basic_auth: text_opt(self.schema_registry_basic_auth),
            schema_registry_ssl_truststore_location: text_opt(self.schema_registry_ssl_truststore_location),
            schema_registry_ssl_truststore_password: text_opt(self.schema_registry_ssl_truststore_password),
            schema_registry_ssl_keystore_location: text_opt(self.schema_registry_ssl_keystore_location),
            schema_registry_ssl_keystore_password: text_opt(self.schema_registry_ssl_keystore_password),
            schema_registry_ssl_keystore_private_key: text_opt(self.schema_registry_ssl_keystore_private_key),
            folders: folders_view(self.folders@),
            topic_configs: topics_view(self.topic_configs@),
        }
    }
}

/// A copy of the folders.
fn clone_folders(folders: &Vec<TopicFolder>) -> (r: Vec<TopicFolder>)
    ensures
        folders_view(r@) == folders_view(folders@),
{
    let mut r: Vec<TopicFolder> = Vec::with_capacity(folders.len());
    let mut i: usize = 0;
    while i < folders.len()
        invariant
            i <= folders@.len(),
            r@.len() == i,
            forall|j: int| 0 <= j < i ==> r@[j]@ == folders@[j]@,
        decreases folders@.len() - i,
    {
        r.push(folders[i].clone());
        i += 1;
    }
    assert(folders_view(r@) =~= folders_view(folders@));
    r
}

/// A copy of the topic entries.
fn clone_topics(topics: &Vec<TopicEntry>) -> (r: Vec<TopicEntry>)
    ensures
        topics_view(r@) == topics_view(topics@),
{
    let mut r: Vec<TopicEntry> = Vec::with_capacity(topics.len());
    let mut i: usize = 0;
    while i < topics.len()
        invariant
            i <= topics@.len(),
            r@.len() == i,
            forall|j: int| 0 <= j < i ==> r@[j]@ == topics@[j]@,
        decreases topics@.len() - i,
    {
        r.push(topics[i].clone());
        i += 1;
    }
    assert(topics_view(r@) =~= topics_view(topics@));
    r
}

impl Clone for ServerConnection {
    fn clone(&self) -> (r: Self)
        ensures
            r@ == self@,
    {
        ServerConnection {
            id: self.id,
            server_group_id: self.server_group_id,
            name: self.name.clone(),
            host: self.host.clone(),
            port: self.port,
            chroot: self.chroot.clone(),
            version: self.version,
            broker_security_type: self.broker_security_type,
            bootstrap_servers: self.bootstrap_servers.clone(),
            validate_ssl_endpoint_hostname: self.validate_ssl_endpoint_hostname,
            enable_poller: self.enable_poller,
            truststore_location: clone_text_opt(&self.truststore_location),
            truststore_password: clone_text_opt(&self.truststore_password),
            keystore_location: clone_text_opt(&self.keystore_location),
            keystore_password: clone_text_opt(&self.keystore_password),
            keystore_privatekey: clone_text_opt(&self.keystore_privatekey),
            sasl_mechanism: clone_text_opt(&self.sasl_mechanism),
            sasl_callback: clone_text_opt(&self.sasl_callback),
            sasl_endpoint_token: clone_text_opt(&self.sasl_endpoint_token),
            jaas_config: clone_text_opt(&self.jaas_config),
            schema_registry_endpoint: clone_text_opt(&self.schema_registry_endpoint),
            schema_registry_basic_auth: clone_text_opt(&self.schema_registry_basic_auth),
            schema_registry_ssl_truststore_location: clone_text_opt(&self.schema_registry_ssl_truststore_location),
            schema_registry_ssl_truststore_password: clone_text_opt(&self.schema_registry_ssl_truststore_password),
            schema_registry_ssl_keystore_location: clone_text_opt(&self.schema_registry_ssl_keystore_location),
            schema_registry_ssl_keystore_password: clone_text_opt(&self.schema_registry_ssl_keystore_password),
            schema_registry_ssl_keystore_private_key: clone_text_opt(&self.schema_registry_ssl_keystore_private_key),
            folders: clone_folders(&self.folders),
            topic_configs: clone_topics(&self.topic_configs),
        }
    }
}

/// A connection as `new` makes it: in group 1, with the root path, of
/// version 1.0, unsecured, with both switches on and nothing else set.
pub open spec fn new_connection(id: i64, name: Seq<char>) -> ServerConnectionView {
    ServerConnectionView {
        id,
        server_group_id: 1,
        name,
        host: Seq::empty(),
        port: None,
        chroot: "/"@,
        version: ClusterVersion::VERSION_1_0,
        broker_security_type: BrokerSecurityType::PLAINTEXT,
        bootstrap_servers: Seq::empty(),
        validate_ssl_endpoint_hostname: true,
        enable_poller: true,
        truststore_location: None,
        truststore_password: None,
        keystore_location: None,
        keystore_password: None,
        keystore_privatekey: None,
        sasl_mechanism: None,
        sasl_callback: None,
        sasl_endpoint_token: None,
        jaas_config: None,
        schema_registry_endpoint: None,
        schema_registry_basic_auth: None,
        schema_registry_ssl_truststore_location: None,
        schema_registry_ssl_truststore_password: None,
        schema_registry_ssl_keystore_location: None,
        schema_registry_ssl_keystore_password: None,
        schema_registry_ssl_keystore_private_key: None,
        folders: Seq::empty(),
        topic_configs: Seq::empty(),
    }
}

/// The address list of a connection: the explicit list where one is set,
/// else the host, with a colon and the port where a port is set.
pub open spec fn bootstrap_address(connection: ServerConnectionView) -> Seq<char> {
    if connection.bootstrap_servers.len() > 0 {
        connection.bootstrap_servers
    } else {
        match connection.port {
            Some(port) => connection.host + seq![':'] + decimal_text(port as int),
            None => connection.host,
        }
    }
}

impl ServerConnection {
    /// A connection with the given id and name and nothing else set.
    pub fn new(id: i64, name: String) -> (r: Self)
        ensures
            r@ == new_connection(id, name@),
    {
        let r = Self {
            id,
            server_group_id: 1,
            name,
            host: String::new(),
            port: None,
            chroot: "/".to_owned(),
            version: ClusterVersion::VERSION_1_0,
            broker_security_type: BrokerSecurityType::PLAINTEXT,
            bootstrap_servers: String::new(),
            validate_ssl_endpoint_hostname: true,
            enable_poller: true,
            truststore_location: None,
            truststore_password: None,
            keystore_location: None,
            keystore_password: None,
            keystore_privatekey: None,
            sasl_mechanism: None,
            sasl_callback: None,
            sasl_endpoint_token: None,
            jaas_config: None,
            schema_registry_endpoint: None,
            schema_registry_basic_auth: None,
            schema_registry_ssl_truststore_location: None,
            schema_registry_ssl_truststore_password: None,
            schema_registry_ssl_keystore_location: None,
            schema_registry_ssl_keystore_password: None,
            schema_registry_ssl_keystore_private_key: None,
            folders: Vec::new(),
            topic_configs: Vec::new(),
        };
        assert(r@.folders =~= Seq::empty());
        assert(r@.topic_configs =~= Seq::empty());
        r
    }

    /// The id of the connection.
    pub fn get_id(&self) -> (r: i64)
        ensures
            r == self@.id,
    {
        self.id
    }

    pub fn get_name(&self) -> (r: &str)
        ensures
            r@ == self@.name,
    {
        self.name.as_str()
    }

    /// Gives the connection another name.
    pub fn set_name(&mut self, name: String)
        ensures
            final(self)@ == (ServerConnectionView { name: name@, ..old(self)@ }),
    {
        self.name = name;
    }

    /// The host of the connection.
    pub fn get_host(&self) -> (r: &str)
        ensures
            r@ == self@.host,
    {
        self.host.as_str()
    }

    /// Gives the connection another host.
    pub fn set_host(&mut self, host: String)
        ensures
            final(self)@ == (ServerConnectionView { host: host@, ..old(self)@ }),
    {
        self.host = host;
    }

    /// The port of the connection, where one is set.
    pub fn get_port(&self) -> (r: Option<i64>)
        ensures
            r == self@.port,
    {
        self.port
    }

    /// Gives the connection another port, or none.
    pub fn set_port(&mut self, port: Option<i64>)
        ensures
            final(self)@ == (ServerConnectionView { port, ..old(self)@ }),
    {
        self.port = port;
    }

    /// Whether the connection goes without a coordination service, which
    /// is the case where no host is set.
    pub fn no_zookeeper_mode(&self) -> (r: bool)
        ensures
            r == (self@.host.len() == 0),
    {
        self.host.as_str().is_empty()
    }

    /// The address list to connect to.
    pub fn get_bootstrap_servers(&self) -> (r: String)
        ensures
            r@ == bootstrap_address(self@),
    {
        if self.bootstrap_servers.as_str().is_empty() {
            match self.port {
                Some(port) => {
                    let mut r = self.host.clone();
                    r.append(":");
                    r.append(format_integer(port).as_str());
                    proof {
                        reveal_strlit(":");
                        assert(":"@ =~= seq![':']);
                    }
                    r
                },
                None => self.host.clone(),
            }
        } else {
            self.bootstrap_servers.clone()
        }
    }

    /// The SASL user name, which is kept in the callback field.
    pub fn get_sasl_username(&self) -> (r: Option<&String>)
        ensures
            match r {
                Some(name) => self@.sasl_callback == Some(name@),
                None => self@.sasl_callback is None,
            },
    {
        self.sasl_callback.as_ref()
    }

    /// The SASL password, which is kept in the token field.
    pub fn get_sasl_password(&self) -> (r: Option<&String>)
        ensures
            match r {
                Some(password) => self@.sasl_endpoint_token == Some(password@),
                None => self@.sasl_endpoint_token is None,
            },
    {
        self.sasl_endpoint_token.as_ref()
    }

    /// How the connection is secured.
    pub fn get_security_type(&self) -> (r: &BrokerSecurityType)
        ensures
            *r == self@.broker_security_type,
    {
        &self.broker_security_type
    }

    /// Adds a folder behind those that are there.
    pub fn add_folder(&mut self, folder: TopicFolder)
        ensures
            final(self)@ == (ServerConnectionView {
                folders: old(self)@.folders.push(folder@),
                ..old(self)@
            }),
    {
        self.folders.push(folder);
        assert(folders_view(self.folders@) =~= old(self)@.folders.push(folder@));
    }

    /// Puts a decoder configuration under a topic's name, in place of the
    /// one that was there.
    pub fn set_topic_config(&mut self, name: String, config: TopicDecoderConfig)
        ensures
            final(self)@ == (ServerConnectionView {
                topic_configs: with_topic(
                    old(self)@.topic_configs,
                    TopicEntryView { name: name@, config: config@ },
                ),
                ..old(self)@
            }),
    {
        let ghost fresh = TopicEntryView { name: name@, config: config@ };
        let ghost before = old(self)@.topic_configs;
        let mut i: usize = 0;
        assert(before.skip(0) =~= before);
        assert(before.take(0) + with_topic(before.skip(0), fresh) =~= with_topic(before, fresh));
        while i < self.topic_configs.len()
            invariant
                i <= self.topic_configs@.len(),
                *self == *old(self),
                before == old(self)@.topic_configs,
                fresh == (TopicEntryView { name: name@, config: config@ }),
                with_topic(before, fresh) == before.take(i as int) + with_topic(
                    before.skip(i as int),
                    fresh,
                ),
            decreases self.topic_configs@.len() - i,
        {
            let ghost rest = before.skip(i as int);
            assert(rest[0] == self.topic_configs@[i as int]@);
            assert(rest.drop_first() =~= before.skip(i + 1));
            if text_eq(self.topic_configs[i].name.as_str(), name.as_str()) {
                self.topic_configs[i] = TopicEntry { name, config };
                assert(topics_view(self.topic_configs@) =~= before.take(i as int) + (seq![fresh]
                    + rest.drop_first()));
                return ;
            }
            assert(before.take(i + 1) + with_topic(before.skip(i + 1), fresh) =~= before.take(
                i as int,
            ) + (seq![rest[0]] + with_topic(rest.drop_first(), fresh)));
            i += 1;
        }
        assert(before.skip(i as int) =~= Seq::empty());
        self.topic_configs.push(TopicEntry { name, config });
        assert(topics_view(self.topic_configs@) =~= before.take(i as int) + seq![fresh]);
    }
}

/// The connection records as mathematical values.
pub open spec fn connections_view(connections: Seq<ServerConnection>) -> Seq<
    ServerConnectionView,
> {
    connections.map_values(|c: ServerConnection| c@)
}

/// A store as a mathematical value: the records in their order, and the
/// last id that the store has handed out.
pub struct StoreView {
    pub connections: Seq<ServerConnectionView>,
    pub next_id: i64,
}

/// Some record has the given id.
pub open spec fn has_id(connections: Seq<ServerConnectionView>, id: i64) -> bool {
    exists|i: int| 0 <= i < connections.len() && #[trigger] connections[i].id == id
}

/// Some record has the given name, but for the case of ASCII letters.
pub open spec fn has_name(connections: Seq<ServerConnectionView>, name: Seq<char>) -> bool {
    exists|i: int|
        0 <= i < connections.len() && same_ignoring_ascii_case(
            #[trigger] connections[i].name,
            name,
        )
}

/// The place of the first record with the given id, or the number of
/// records where there is none.
pub open spec fn place_of_id(connections: Seq<ServerConnectionView>, id: i64) -> int
    decreases connections.len(),
{
    if connections.len() == 0 {
        0
    } else if connections[0].id == id {
        0
    } else {
        1 + place_of_id(connections.drop_first(), id)
    }
}

/// The place of the first record with the given name, but for the case of
/// ASCII letters, or the number of records where there is none.
pub open spec fn place_of_name(connections: Seq<ServerConnectionView>, name: Seq<char>) -> int
    decreases connections.len(),
{
    if connections.len() == 0 {
        0
    } else if same_ignoring_ascii_case(connections[0].name, name) {
        0
    } else {
        1 + place_of_name(connections.drop_first(), name)
    }
}

/// No two records share an id or, but for the case of ASCII letters, a
/// name, and no record has the id 0.
pub open spec fn store_wf(connections: Seq<ServerConnectionView>) -> bool {
    &&& forall|i: int| 0 <= i < connections.len() ==> (#[trigger] connections[i]).id != 0
    &&& forall|i: int, j: int|
        #![trigger connections[i], connections[j]]
        0 <= i < j < connections.len() ==> connections[i].id != connections[j].id
            && !same_ignoring_ascii_case(connections[i].name, connections[j].name)
}

/// The next id that the store hands out: the smallest one above `after`
/// that is not 0 and that no record has. `None` where there is none left.
pub open spec fn fresh_id(connections: Seq<ServerConnectionView>, after: int) -> Option<i64>
    decreases i64::MAX - after,
{
    if after >= i64::MAX || after < i64::MIN {
        None
    } else if after + 1 != 0 && !has_id(connections, (after + 1) as i64) {
        Some((after + 1) as i64)
    } else {
        fresh_id(connections, after + 1)
    }
}

/// What adding a record to a store gives. A name that is taken is
/// refused. A record with the id 0 gets the next id of the store; any
/// other keeps its id, which is refused where it is taken.
pub open spec fn add_outcome(store: StoreView, connection: ServerConnectionView) -> Result<
    StoreView,
    ConfigError,
> {
    if has_name(store.connections, connection.name) {
        Err(ConfigError::DuplicateName)
    } else if connection.id != 0 {
        if has_id(store.connections, connection.id) {
            Err(ConfigError::DuplicateId)
        } else {
            Ok(
                StoreView {
                    connections: store.connections.push(connection),
                    next_id: store.next_id,
                },
            )
        }
    } else {
        match fresh_id(store.connections, store.next_id as int) {
            None => Err(ConfigError::IdsExhausted),
            Some(id) => Ok(
                StoreView {
                    connections: store.connections.push(ServerConnectionView { id, ..connection }),
                    next_id: id,
                },
            ),
        }
    }
}

/// What adding the records one after the other gives: the store with all
/// of them, or the first refusal.
pub open spec fn add_all_outcome(store: StoreView, records: Seq<ServerConnectionView>) -> Result<
    StoreView,
    ConfigError,
>
    decreases records.len(),
{
    if records.len() == 0 {
        Ok(store)
    } else {
        match add_all_outcome(store, records.drop_last()) {
            Err(e) => Err(e),
            Ok(before) => add_outcome(before, records.last()),
        }
    }
}

/// Once the adding is refused on some of the records it is refused on all.
pub proof fn lemma_add_all_fails(store: StoreView, records: Seq<ServerConnectionView>, upto: int)
    requires
        0 <= upto <= records.len(),
        add_all_outcome(store, records.take(upto)) is Err,
    ensures
        add_all_outcome(store, records) == add_all_outcome(store, records.take(upto)),
    decreases records.len() - upto,
{
    if upto < records.len() {
        assert(records.take(upto + 1).drop_last() =~= records.take(upto));
        lemma_add_all_fails(store, records, upto + 1);
    } else {
        assert(records.take(upto) =~= records);
    }
}

/// Adding records keeps the records that were there, in their places.
pub proof fn lemma_add_all_keeps(store: StoreView, records: Seq<ServerConnectionView>)
    ensures
        add_all_outcome(store, records) matches Ok(after) ==> after.connections.len()
            == store.connections.len() + records.len() && after.connections.take(
            store.connections.len() as int,
        ) == store.connections,
    decreases records.len(),
{
    if records.len() == 0 {
        assert(store.connections.take(store.connections.len() as int) =~= store.connections);
    } else {
        lemma_add_all_keeps(store, records.drop_last());
        match add_all_outcome(store, records.drop_last()) {
            Ok(before) => {
                match add_outcome(before, records.last()) {
                    Ok(after) => {
                        assert(after.connections.take(store.connections.len() as int)
                            =~= before.connections.take(store.connections.len() as int));
                    },
                    Err(_) => {},
                }
            },
            Err(_) => {},
        }
    }
}

/// What removing the record with the given id gives.
pub open spec fn remove_outcome(store: StoreView, id: i64) -> Result<StoreView, ConfigError> {
    if has_id(store.connections, id) {
        Ok(
            StoreView {
                connections: store.connections.remove(place_of_id(store.connections, id)),
                next_id: store.next_id,
            },
        )
    } else {
        Err(ConfigError::ConnectionNotFound)
    }
}

/// The place that `place_of_id` gives holds the first record with the id.
pub proof fn lemma_place_of_id(connections: Seq<ServerConnectionView>, id: i64)
    ensures
        0 <= place_of_id(connections, id) <= connections.len(),
        has_id(connections, id) <==> place_of_id(connections, id) < connections.len(),
        place_of_id(connections, id) < connections.len() ==> connections[place_of_id(
            connections,
            id,
        )].id == id,
        forall|j: int|
            0 <= j < place_of_id(connections, id) ==> (#[trigger] connections[j]).id != id,
    decreases connections.len(),
{
    if connections.len() > 0 && connections[0].id != id {
        let rest = connections.drop_first();
        lemma_place_of_id(rest, id);
        let at = place_of_id(rest, id);
        if has_id(connections, id) {
            let i = choose|i: int| 0 <= i < connections.len() && #[trigger] connections[i].id == id;
            assert(rest[i - 1].id == id);
        }
        if at < rest.len() {
            assert(connections[at + 1].id == id);
        }
        assert forall|j: int| 0 <= j < 1 + at implies (#[trigger] connections[j]).id != id by {
            if j > 0 {
                assert(rest[j - 1].id != id);
            }
        }
    } else if connections.len() > 0 {
        assert(connections[0].id == id);
    }
}

/// The place that `place_of_name` gives holds the first record with the
/// name.
pub proof fn lemma_place_of_name(connections: Seq<ServerConnectionView>, name: Seq<char>)
    ensures
        0 <= place_of_name(connections, name) <= connections.len(),
        has_name(connections, name) <==> place_of_name(connections, name) < connections.len(),
        place_of_name(connections, name) < connections.len() ==> same_ignoring_ascii_case(
            connections[place_of_name(connections, name)].name,
            name,
        ),
    decreases connections.len(),
{
    if connections.len() > 0 && !same_ignoring_ascii_case(connections[0].name, name) {
        let rest = connections.drop_first();
        lemma_place_of_name(rest, name);
        let at = place_of_name(rest, name);
        if has_name(connections, name) {
            let i = choose|i: int|
                0 <= i < connections.len() && same_ignoring_ascii_case(
                    #[trigger] connections[i].name,
                    name,
                );
            assert(same_ignoring_ascii_case(rest[i - 1].name, name));
        }
        if at < rest.len() {
            assert(same_ignoring_ascii_case(connections[at + 1].name, name));
        }
    } else if connections.len() > 0 {
        assert(same_ignoring_ascii_case(connections[0].name, name));
    }
}

/// `SystemTime::now` as milliseconds since the Unix epoch, or `None` where
/// the clock reads a time before it. Nothing is known of the number.
#[verifier::external_body]
fn clock_millis() -> (r: Option<u64>) {
    match std::time::SystemTime::now().duration_since(std::time::UNIX_EPOCH) {
        Ok(since) => Some(since.as_millis() as u64),
        Err(_) => None,
    }
}

/// The number from which a store made at the clock reading `clock` counts
/// its ids: the milliseconds where they fit a signed number, the largest
/// signed number where they do not, and 0 where the clock reads a time
/// before the epoch.
pub open spec fn first_id_at(clock: Option<u64>) -> i64 {
    match clock {
        None => 0,
        Some(millis) => if millis <= i64::MAX as u64 {
            millis as i64
        } else {
            i64::MAX
        },
    }
}

/// The store of connection records.
pub struct ServerConnectionSettings {
    connections: Vec<ServerConnection>,
    next_id: i64,
}

impl View for ServerConnectionSettings {
    type V = StoreView;

    closed spec fn view(&self) -> StoreView {
        StoreView { connections: connections_view(self.connections@), next_id: self.next_id }
    }
}

impl ServerConnectionSettings {
    /// The store is in order: no two records share an id or, but for the
    /// case of ASCII letters, a name, and no record has the id 0.
    pub open spec fn wf(&self) -> bool {
        store_wf(self@.connections)
    }

    /// An empty store whose ids start above the clock's reading in
    /// milliseconds, so that they do not meet ids of earlier runs.
    pub fn new() -> (r: Self)
        ensures
            r@.connections == Seq::<ServerConnectionView>::empty(),
            r@.next_id >= 0,
            r.wf(),
    {
        Self::at_clock(clock_millis())
    }

    /// An empty store as it is made at the clock reading `clock`.
    pub fn at_clock(clock: Option<u64>) -> (r: Self)
        ensures
            r@ == (StoreView { connections: Seq::empty(), next_id: first_id_at(clock) }),
            r.wf(),
    {
        let next_id: i64 = match clock {
            None => 0,
            Some(millis) => if millis <= i64::MAX as u64 {
                millis as i64
            } else {
                i64::MAX
            },
        };
        Self::with_next_id(next_id)
    }

    /// An empty store whose ids start above `next_id`.
    pub fn with_next_id(next_id: i64) -> (r: Self)
        ensures
            r@ == (StoreView { connections: Seq::empty(), next_id }),
            r.wf(),
    {
        let r = Self { connections: Vec::new(), next_id };
        assert(r@.connections =~= Seq::empty());
        r
    }

    /// The records in their order.
    pub fn get_connections(&self) -> (r: &[ServerConnection])
        ensures
            connections_view(r@) == self@.connections,
    {
        self.connections.as_slice()
    }

    /// The place of the first record with the given id.
    fn position_of_id(&self, id: i64) -> (at: usize)
        ensures
            at == place_of_id(self@.connections, id),
            at <= self.connections@.len(),
    {
        let ghost all = self@.connections;
        let mut i: usize = 0;
        assert(all.skip(0) =~= all);
        while i < self.connections.len()
            invariant
                i <= self.connections@.len(),
                all == connections_view(self.connections@),
                place_of_id(all, id) == i + place_of_id(all.skip(i as int), id),
            decreases self.connections@.len() - i,
        {
            let ghost rest = all.skip(i as int);
            assert(rest[0] == self.connections@[i as int]@);
            assert(rest.drop_first() =~= all.skip(i + 1));
            if self.connections[i].id == id {
                return i;
            }
            i += 1;
        }
        assert(all.skip(i as int) =~= Seq::empty());
        i
    }

    /// The place of the first record with the given name.
    fn position_of_name(&self, name: &str) -> (at: usize)
        ensures
            at == place_of_name(self@.connections, name@),
            at <= self.connections@.len(),
    {
        let ghost all = self@.connections;
        let mut i: usize = 0;
        assert(all.skip(0) =~= all);
        while i < self.connections.len()
            invariant
                i <= self.connections@.len(),
                all == connections_view(self.connections@),
                place_of_name(all, name@) == i + place_of_name(all.skip(i as int), name@),
            decreases self.connections@.len() - i,
        {
            let ghost rest = all.skip(i as int);
            assert(rest[0] == self.connections@[i as int]@);
            assert(rest.drop_first() =~= all.skip(i + 1));
            if eq_ignore_ascii_case(self.connections[i].name.as_str(), name) {
                return i;
            }
            i += 1;
        }
        assert(all.skip(i as int) =~= Seq::empty());
        i
    }

    /// A copy of the first record with the given id.
    pub fn find_connection(&self, id: i64) -> (r: Option<ServerConnection>)
        ensures
            match r {
                Some(connection) => has_id(self@.connections, id) && connection@
                    == self@.connections[place_of_id(self@.connections, id)],
                None => !has_id(self@.connections, id),
            },
    {
        proof {
            lemma_place_of_id(self@.connections, id);
        }
        let at = self.position_of_id(id);
        if at < self.connections.len() {
            Some(self.connections[at].clone())
        } else {
            None
        }
    }

    /// A copy of the first record with the given name, compared without
    /// regard to the case of ASCII letters.
    pub fn find_connection_by_name(&self, name: &str) -> (r: Option<ServerConnection>)
        ensures
            match r {
                Some(connection) => has_name(self@.connections, name@) && connection@
                    == self@.connections[place_of_name(self@.connections, name@)],
                None => !has_name(self@.connections, name@),
            },
    {
        proof {
            lemma_place_of_name(self@.connections, name@);
        }
        let at = self.position_of_name(name);
        if at < self.connections.len() {
            Some(self.connections[at].clone())
        } else {
            None
        }
    }

    /// The next id of the store, which becomes the last one handed out.
    /// Where no id is left the store stays as it is.
    pub fn generate_id(&mut self) -> (r: Option<i64>)
        ensures
            r == fresh_id(old(self)@.connections, old(self)@.next_id as int),
            final(self)@.connections == old(self)@.connections,
            final(self)@.next_id == (match r {
                Some(id) => id,
                None => old(self)@.next_id,
            }),
    {
        let mut candidate = self.next_id;
        while candidate < i64::MAX
            invariant
                *self == *old(self),
                fresh_id(self@.connections, self.next_id as int) == fresh_id(
                    self@.connections,
                    candidate as int,
                ),
            decreases i64::MAX - candidate,
        {
            candidate = candidate + 1;
            proof {
                lemma_place_of_id(self@.connections, candidate);
            }
            if candidate != 0 && self.position_of_id(candidate) == self.connections.len() {
                self.next_id = candidate;
                return Some(candidate);
            }
        }
        None
    }

    /// Adds a record to the store and returns its id. A name that is
    /// taken, compared without regard to the case of ASCII letters, is
    /// refused. A record with the id 0 gets the next id of the store; any
    /// other keeps its id, which is refused where it is taken. A store
    /// that refuses stays as it is.
    pub fn add_connection(&mut self, connection: ServerConnection) -> (r: Result<i64, ConfigError>)
        ensures
            match add_outcome(old(self)@, connection@) {
                Ok(store) => final(self)@ == store && r == Ok::<i64, ConfigError>(
                    store.connections.last().id,
                ),
                Err(e) => final(self)@ == old(self)@ && r == Err::<i64, ConfigError>(e),
            },
            old(self).wf() ==> final(self).wf(),
    {
        let ghost before = self@;
        proof {
            lemma_place_of_name(before.connections, connection@.name);
            lemma_place_of_id(before.connections, connection@.id);
        }
        if self.position_of_name(connection.name.as_str()) < self.connections.len() {
            return Err(ConfigError::DuplicateName);
        }
        let mut connection = connection;
        if connection.id == 0 {
            match self.generate_id() {
                None => {
                    return Err(ConfigError::IdsExhausted);
                },
                Some(id) => {
                    proof {
                        lemma_fresh_id(before.connections, before.next_id as int);
                    }
                    connection.id = id;
                },
            }
        } else if self.position_of_id(connection.id) < self.connections.len() {
            return Err(ConfigError::DuplicateId);
        }
        let id = connection.id;
        let ghost added = connection@;
        self.connections.push(connection);
        proof {
            assert(self@.connections =~= before.connections.push(added));
            if store_wf(before.connections) {
                let after = self@.connections;
                assert forall|i: int, j: int|
                    #![trigger after[i], after[j]]
                    0 <= i < j < after.len() implies after[i].id != after[j].id
                    && !same_ignoring_ascii_case(after[i].name, after[j].name) by {
                    if j == after.len() - 1 {
                        assert(before.connections[i].id != added.id);
                        assert(!same_ignoring_ascii_case(before.connections[i].name, added.name));
                    } else {
                        assert(before.connections[i].id != before.connections[j].id);
                    }
                }
            }
        }
        Ok(id)
    }

    /// Adds the records one after the other, as `add_connection` adds
    /// them. Where one is refused none is added and the store stays as it
    /// is.
    pub fn add_all(&mut self, records: &[ServerConnection]) -> (r: Result<(), ConfigError>)
        ensures
            match add_all_outcome(old(self)@, connections_view(records@)) {
                Ok(store) => r is Ok && final(self)@ == store,
                Err(e) => r == Err::<(), ConfigError>(e) && final(self)@ == old(self)@,
            },
            old(self).wf() ==> final(self).wf(),
    {
        let ghost all = connections_view(records@);
        let ghost start = old(self)@;
        let kept = self.connections.len();
        let next_id = self.next_id;
        assert(all.take(0) =~= Seq::empty());
        let mut i: usize = 0;
        while i < records.len()
            invariant
                i <= records@.len(),
                all == connections_view(records@),
                start == old(self)@,
                kept == start.connections.len(),
                next_id == start.next_id,
                add_all_outcome(start, all.take(i as int)) == Ok::<StoreView, ConfigError>(self@),
                store_wf(start.connections) ==> store_wf(self@.connections),
            decreases records@.len() - i,
        {
            proof {
                assert(all.take(i + 1).drop_last() =~= all.take(i as int));
                assert(all.take(i + 1).last() == records@[i as int]@);
                lemma_add_all_keeps(start, all.take(i as int));
            }
            match self.add_connection(records[i].clone()) {
                Err(e) => {
                    proof {
                        lemma_add_all_fails(start, all, i + 1);
                    }
                    self.connections.truncate(kept);
                    self.next_id = next_id;
                    assert(self@.connections =~= start.connections);
                    return Err(e);
                },
                Ok(_) => {},
            }
            i += 1;
        }
        assert(all.take(i as int) =~= all);
        Ok(())
    }

    /// Removes the first record with the given id. A store that has none
    /// refuses and stays as it is.
    pub fn remove_connection(&mut self, id: i64) -> (r: Result<(), ConfigError>)
        ensures
            match remove_outcome(old(self)@, id) {
                Ok(store) => final(self)@ == store && r is Ok,
                Err(e) => final(self)@ == old(self)@ && r == Err::<(), ConfigError>(e),
            },
            old(self).wf() ==> final(self).wf(),
    {
        let ghost before = self@.connections;
        proof {
            lemma_place_of_id(before, id);
        }
        let at = self.position_of_id(id);
        if at >= self.connections.len() {
            return Err(ConfigError::ConnectionNotFound);
        }
        self.connections.remove(at);
        proof {
            let after = self@.connections;
            assert(after =~= before.remove(at as int));
            if store_wf(before) {
                assert forall|i: int| 0 <= i < after.len() implies (#[trigger] after[i]).id
                    != 0 by {
                    if i < at {
                        assert(before[i].id != 0);
                    } else {
                        assert(before[i + 1].id != 0);
                    }
                }
                assert forall|i: int, j: int|
                    #![trigger after[i], after[j]]
                    0 <= i < j < after.len() implies after[i].id != after[j].id
                    && !same_ignoring_ascii_case(after[i].name, after[j].name) by {
                    let a = if i < at {
                        i
                    } else {
                        i + 1
                    };
                    let b = if j < at {
                        j
                    } else {
                        j + 1
                    };
                    assert(before[a].id != before[b].id);
                }
            }
        }
        Ok(())
    }

    /// Orders the records by name for display, without regard to case.
    /// Records whose names are of equal rank stay in their order.
    pub fn sort_by_name(&mut self)
        ensures
            sorted_stably(old(self)@.connections, final(self)@.connections),
            final(self)@.next_id == old(self)@.next_id,
            old(self).wf() ==> final(self).wf(),
    {
        sort_connections(&mut self.connections);
        proof {
            let before = old(self)@.connections;
            let after = self@.connections;
            if store_wf(before) {
                let places = choose|places: Seq<int>| is_stable_order(before, after, places);
                assert forall|i: int| 0 <= i < after.len() implies (#[trigger] after[i]).id
                    != 0 by {
                    assert(after[i] == before[places[i]]);
                }
                assert forall|i: int, j: int|
                    #![trigger after[i], after[j]]
                    0 <= i < j < after.len() implies after[i].id != after[j].id
                    && !same_ignoring_ascii_case(after[i].name, after[j].name) by {
                    assert(places[i] != places[j]);
                    assert(after[i] == before[places[i]]);
                    assert(after[j] == before[places[j]]);
                    if places[i] < places[j] {
                        assert(before[places[i]].id != before[places[j]].id);
                    } else {
                        assert(before[places[j]].id != before[places[i]].id);
                        lemma_same_symmetric(before[places[j]].name, before[places[i]].name);
                    }
                }
            }
        }
    }

    /// The number of records.
    pub fn len(&self) -> (r: usize)
        ensures
            r == self@.connections.len(),
    {
        self.connections.len()
    }
}

/// Being equal but for the case of ASCII letters does not depend on which
/// text is named first.
pub proof fn lemma_same_symmetric(a: Seq<char>, b: Seq<char>)
    ensures
        same_ignoring_ascii_case(a, b) == same_ignoring_ascii_case(b, a),
{
}

/// An id that the store hands out is not 0 and belongs to no record.
pub proof fn lemma_fresh_id(connections: Seq<ServerConnectionView>, after: int)
    ensures
        fresh_id(connections, after) matches Some(id) ==> id != 0 && id > after && !has_id(
            connections,
            id,
        ),
    decreases i64::MAX - after,
{
    if !(after >= i64::MAX || after < i64::MIN) {
        if !(after + 1 != 0 && !has_id(connections, (after + 1) as i64)) {
            lemma_fresh_id(connections, after + 1);
        }
    }
}

/// Of two records whose names differ in the case of ASCII letters at most
/// a store takes one only: once the first is added the second is refused
/// for its name.
pub proof fn lemma_same_name_refused(
    store: StoreView,
    first: ServerConnectionView,
    second: ServerConnectionView,
)
    requires
        same_ignoring_ascii_case(first.name, second.name),
        add_outcome(store, first) is Ok,
    ensures
        add_outcome(add_outcome(store, first)->Ok_0, second) == Err::<StoreView, ConfigError>(
            ConfigError::DuplicateName,
        ),
{
    let after = add_outcome(store, first)->Ok_0;
    let last = after.connections.len() - 1;
    assert(after.connections[last].name == first.name);
}

} // verus!
