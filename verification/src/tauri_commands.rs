//! What the user interface sends to the application and gets back from it.

use std::collections::HashMap;
use vstd::pervasive::arbitrary;
use vstd::prelude::*;
use vstd::std_specs::convert::FromSpecImpl;
use crate::decoders::string_decoder::{from_utf8_lossy, utf8_lossy};
use vstd::slice::slice_to_vec;
use vstd::string::*;
use crate::kafka::mapper::{
    ConsumerGroupInfo, ConsumerMember, KafkaMessage, PartitionMetadata, TopicMetadata,
};
use crate::schema_registry::client::SchemaInfo as RegistrySchemaInfo;

verus! {

/// A request to add or change a connection.
#[derive(Debug)]
pub struct ServerConnectionRequest {
    pub name: String,
    pub bootstrap_servers: Option<String>,
    pub security_type: Option<String>,
    pub zookeeper_hosts: Option<String>,
    pub zookeeper_chroot: Option<String>,
}

/// A request to create a topic.
#[derive(Debug)]
pub struct CreateTopicRequest {
    pub name: String,
    pub partitions: i32,
    pub replication_factor: i32,
}

/// A request to send a message.
#[derive(Debug)]
pub struct ProduceMessageRequest {
    pub topic: String,
    pub key: Option<String>,
    pub value: Option<String>,
    pub headers: Option<HashMap<String, String>>,
}

/// A message as it is shown: its key and its value as text.
#[derive(Debug)]
pub struct KafkaMessageResponse {
    pub topic: Option<String>,
    pub partition: i32,
    pub offset: i64,
    pub key: Option<String>,
    pub value: Option<String>,
    pub timestamp: i64,
}

/// A partition as it is shown.
#[derive(Debug)]
pub struct PartitionInfo {
    pub id: i32,
    pub leader: i32,
    pub replicas: Vec<i32>,
    pub isr: Vec<i32>,
}

/// A topic as it is shown.
#[derive(Debug)]
pub struct TopicMetadataResponse {
    pub name: String,
    pub partition_count: i32,
    pub replication_factor: i32,
    pub internal: bool,
    pub partitions: Vec<PartitionInfo>,
}

/// A member of a consumer group as it is shown.
#[derive(Debug)]
pub struct ConsumerMemberResponse {
    pub member_id: String,
    pub client_id: String,
    pub client_host: String,
}

/// A consumer group as it is shown.
#[derive(Debug)]
pub struct ConsumerGroupResponse {
    pub group_id: String,
    pub state: String,
    pub protocol_type: Option<String>,
    pub members: Vec<ConsumerMemberResponse>,
}

/// A failure as it is shown.
#[derive(Debug)]
pub struct ErrorResponse {
    pub error: String,
    pub message: String,
}

/// A schema as it is shown: its language by name.
#[derive(Debug)]
pub struct SchemaInfo {
    pub subject: String,
    pub version: i32,
    pub id: i32,
    pub schema: String,
    pub schema_type: String,
}

/// The error of `anyhow`, carried as it is.
#[verifier::external_type_specification]
#[verifier::external_body]
pub struct ExAnyhowError(anyhow::Error);

/// `anyhow::Error` shown through its `Display`. The words are those that
/// the error itself writes; nothing is known of them.
#[verifier::external_body]
fn words_of(error: &anyhow::Error) -> (r: String) {
    error.to_string()
}

impl ErrorResponse {
    /// A failure under the heading `Error`, with the words that say what
    /// went wrong.
    pub fn from_words(words: String) -> (r: Self)
        ensures
            r.error@ == "Error"@,
            r.message@ == words@,
    {
        Self { error: "Error".to_owned(), message: words }
    }
}

/// Bytes that may be absent, shown as text in UTF-8.
pub open spec fn shown_bytes(bytes: Option<Vec<u8>>) -> Option<Seq<char>> {
    match bytes {
        Some(b) => Some(utf8_lossy(b@)),
        None => None,
    }
}

/// A text that may be absent, as a sequence of characters.
pub open spec fn shown_text(text: Option<String>) -> Option<Seq<char>> {
    match text {
        Some(t) => Some(t@),
        None => None,
    }
}

/// Shows bytes that may be absent as text in UTF-8.
fn show_bytes(bytes: &Option<Vec<u8>>) -> (r: Option<String>)
    ensures
        shown_text(r) == shown_bytes(*bytes),
{
    match bytes {
        Some(b) => Some(from_utf8_lossy(b.as_slice())),
        None => None,
    }
}

impl FromSpecImpl<KafkaMessage> for KafkaMessageResponse {
    open spec fn obeys_from_spec() -> bool {
        false
    }

    open spec fn from_spec(msg: KafkaMessage) -> Self {
        arbitrary()
    }
}

impl From<KafkaMessage> for KafkaMessageResponse {
    /// The message with its key and its value shown as text in UTF-8.
    fn from(msg: KafkaMessage) -> (r: Self)
        ensures
            shown_text(r.topic) == shown_text(msg.topic),
            r.partition == msg.partition,
            r.offset == msg.offset,
            shown_text(r.key) == shown_bytes(msg.key),
            shown_text(r.value) == shown_bytes(msg.payload),
            r.timestamp == msg.timestamp,
    {
        Self {
            key: show_bytes(&msg.key),
            value: show_bytes(&msg.payload),
            topic: msg.topic,
            partition: msg.partition,
            offset: msg.offset,
            timestamp: msg.timestamp,
        }
    }
}

impl FromSpecImpl<anyhow::Error> for ErrorResponse {
    open spec fn obeys_from_spec() -> bool {
        false
    }

    open spec fn from_spec(err: anyhow::Error) -> Self {
        arbitrary()
    }
}

impl From<anyhow::Error> for ErrorResponse {
    /// The failure under the heading `Error`, with the words that the
    /// error writes of itself.
    fn from(err: anyhow::Error) -> (r: Self)
        ensures
            r.error@ == "Error"@,
    {
        Self::from_words(words_of(&err))
    }
}

impl FromSpecImpl<RegistrySchemaInfo> for SchemaInfo {
    open spec fn obeys_from_spec() -> bool {
        false
    }

    open spec fn from_spec(info: RegistrySchemaInfo) -> Self {
        arbitrary()
    }
}

impl From<RegistrySchemaInfo> for SchemaInfo {
    /// The schema with its language shown by name.
    fn from(info: RegistrySchemaInfo) -> (r: Self)
        ensures
            r.subject@ == info.subject@,
            r.version == info.version,
            r.id == info.id,
            r.schema@ == info.schema@,
            r.schema_type@ == info.schema_type.name(),
    {
        Self {
            schema_type: info.schema_type.as_str().to_owned(),
            subject: info.subject,
            version: info.version,
            id: info.id,
            schema: info.schema,
        }
    }
}

/// A copy of a list of numbers.
fn copy_numbers(numbers: &Vec<i32>) -> (r: Vec<i32>)
    ensures
        r@ == numbers@,
{
    slice_to_vec(numbers.as_slice())
}

impl PartitionInfo {
    /// A partition as it is shown, from what the cluster reports.
    pub fn from_metadata(partition: &PartitionMetadata) -> (r: Self)
        ensures
            r.id == partition.id,
            r.leader == partition.leader,
            r.replicas@ == partition.replicas@,
            r.isr@ == partition.isr@,
    {
        Self {
            id: partition.id,
            leader: partition.leader,
            replicas: copy_numbers(&partition.replicas),
            isr: copy_numbers(&partition.isr),
        }
    }
}

/// The number of replicas that is shown for a topic: that of its first
/// partition, 0 where it has none.
pub open spec fn shown_replication(partitions: Seq<PartitionMetadata>) -> i32 {
    if partitions.len() == 0 {
        0
    } else {
        partitions[0].replicas@.len() as i32
    }
}

impl TopicMetadataResponse {
    /// A topic as it is shown, from what the cluster reports: the number
    /// of its partitions, the number of replicas of the first of them, and
    /// the partitions in their order.
    pub fn from_metadata(metadata: &TopicMetadata) -> (r: Self)
        ensures
            r.name@ == metadata.name@,
            r.partition_count == metadata.partitions@.len() as i32,
            r.replication_factor == shown_replication(metadata.partitions@),
            r.internal == metadata.internal,
            r.partitions@.len() == metadata.partitions@.len(),
            forall|i: int|
                0 <= i < r.partitions@.len() ==> (#[trigger] r.partitions@[i]).id
                    == metadata.partitions@[i].id && r.partitions@[i].leader
                    == metadata.partitions@[i].leader && r.partitions@[i].replicas@
                    == metadata.partitions@[i].replicas@ && r.partitions@[i].isr@
                    == metadata.partitions@[i].isr@,
    {
        let mut partitions: Vec<PartitionInfo> = Vec::with_capacity(metadata.partitions.len());
        let mut i: usize = 0;
        while i < metadata.partitions.len()
            invariant
                i <= metadata.partitions@.len(),
                partitions@.len() == i,
                forall|j: int|
                    0 <= j < i ==> (#[trigger] partitions@[j]).id == metadata.partitions@[j].id
                        && partitions@[j].leader == metadata.partitions@[j].leader
                        && partitions@[j].replicas@ == metadata.partitions@[j].replicas@
                        && partitions@[j].isr@ == metadata.partitions@[j].isr@,
            decreases metadata.partitions@.len() - i,
        {
            partitions.push(PartitionInfo::from_metadata(&metadata.partitions[i]));
            i += 1;
        }
        Self {
            name: metadata.name.clone(),
            partition_count: #[verifier::truncate] (metadata.partitions.len() as i32),
            replication_factor: if metadata.partitions.len() == 0 {
                0
            } else {
                #[verifier::truncate] (metadata.partitions[0].replicas.len() as i32)
            },
            internal: metadata.internal,
            partitions,
        }
    }
}

impl ConsumerMemberResponse {
    /// A member of a consumer group as it is shown.
    pub fn from_member(member: &ConsumerMember) -> (r: Self)
        ensures
            r.member_id@ == member.member_id@,
            r.client_id@ == member.client_id@,
            r.client_host@ == member.client_host@,
    {
        Self {
            member_id: member.member_id.clone(),
            client_id: member.client_id.clone(),
            client_host: member.client_host.clone(),
        }
    }
}

impl ConsumerGroupResponse {
    /// A consumer group as it is shown, its members in their order.
    pub fn from_info(group: &ConsumerGroupInfo) -> (r: Self)
        ensures
            r.group_id@ == group.group_id@,
            r.state@ == group.state@,
            shown_text(r.protocol_type) == shown_text(group.protocol_type),
            r.members@.len() == group.members@.len(),
            forall|i: int|
                0 <= i < r.members@.len() ==> (#[trigger] r.members@[i]).member_id@
                    == group.members@[i].member_id@ && r.members@[i].client_id@
                    == group.members@[i].client_id@ && r.members@[i].client_host@
                    == group.members@[i].client_host@,
    {
        let mut members: Vec<ConsumerMemberResponse> = Vec::with_capacity(group.members.len());
        let mut i: usize = 0;
        while i < group.members.len()
            invariant
                i <= group.members@.len(),
                members@.len() == i,
                forall|j: int|
                    0 <= j < i ==> (#[trigger] members@[j]).member_id@
                        == group.members@[j].member_id@ && members@[j].client_id@
                        == group.members@[j].client_id@ && members@[j].client_host@
                        == group.members@[j].client_host@,
            decreases group.members@.len() - i,
        {
            members.push(ConsumerMemberResponse::from_member(&group.members[i]));
            i += 1;
        }
        Self {
            group_id: group.group_id.clone(),
            state: group.state.clone(),
            protocol_type: match &group.protocol_type {
                Some(text) => Some(text.clone()),
                None => None,
            },
            members,
        }
    }
}

impl ProduceMessageRequest {
    /// The key of the message as the bytes of its text in UTF-8.
    pub fn key_bytes(&self) -> (r: Option<Vec<u8>>)
        ensures
            match r {
                Some(bytes) => self.key is Some && bytes@ == vstd::utf8::encode_utf8(self.key->0@),
                None => self.key is None,
            },
    {
        match &self.key {
            Some(text) => Some(text.as_str().as_bytes_vec()),
            None => None,
        }
    }

    /// The value of the message as the bytes of its text in UTF-8.
    pub fn value_bytes(&self) -> (r: Option<Vec<u8>>)
        ensures
            match r {
                Some(bytes) => self.value is Some && bytes@ == vstd::utf8::encode_utf8(self.value->0@),
                None => self.value is None,
            },
    {
        match &self.value {
            Some(text) => Some(text.as_str().as_bytes_vec()),
            None => None,
        }
    }
}

} // verus!
