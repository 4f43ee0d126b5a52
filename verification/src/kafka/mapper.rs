//! What the cluster client reports: topics, partitions, consumer groups
//! and messages.

use vstd::prelude::*;
use vstd::string::*;
use crate::error::ValidationError;

verus! {

/// A partition as the cluster reports it.
#[derive(Debug, Clone)]
pub struct PartitionMetadata {
    pub id: i32,
    pub leader: i32,
    pub replicas: Vec<i32>,
    pub isr: Vec<i32>,
}

/// A topic as the cluster reports it.
#[derive(Debug, Clone)]
pub struct TopicMetadata {
    pub name: String,
    pub partitions: Vec<PartitionMetadata>,
    pub internal: bool,
}

/// A member of a consumer group.
#[derive(Debug, Clone)]
pub struct ConsumerMember {
    pub member_id: String,
    pub client_id: String,
    pub client_host: String,
}

/// A consumer group as the cluster reports it.
#[derive(Debug, Clone)]
pub struct ConsumerGroupInfo {
    pub group_id: String,
    pub state: String,
    pub protocol_type: Option<String>,
    pub members: Vec<ConsumerMember>,
}

/// A message as it was read from a partition.
#[derive(Debug, Clone)]
pub struct KafkaMessage {
    pub topic: Option<String>,
    pub partition: i32,
    pub offset: i64,
    pub key: Option<Vec<u8>>,
    pub payload: Option<Vec<u8>>,
    pub timestamp: i64,
}

/// What is wrong with a request for a new topic, the first fault in the
/// order of the checks, or nothing.
pub open spec fn new_topic_fault(name: Seq<char>, partitions: i32, replication_factor: i32)
    -> Option<ValidationError> {
    if name.len() == 0 {
        Some(ValidationError::EmptyTopicName)
    } else if partitions <= 0 {
        Some(ValidationError::PartitionsNotPositive)
    } else if replication_factor <= 0 {
        Some(ValidationError::ReplicationNotPositive)
    } else {
        None
    }
}

/// Checks a request for a new topic before it is sent: the name must not
/// be empty, and the numbers of partitions and of replicas must be
/// positive. The first fault in that order is returned.
pub fn check_new_topic(name: &str, partitions: i32, replication_factor: i32) -> (r: Result<
    (),
    ValidationError,
>)
    ensures
        match new_topic_fault(name@, partitions, replication_factor) {
            Some(fault) => r == Err::<(), ValidationError>(fault),
            None => r is Ok,
        },
{
    if name.is_empty() {
        Err(ValidationError::EmptyTopicName)
    } else if partitions <= 0 {
        Err(ValidationError::PartitionsNotPositive)
    } else if replication_factor <= 0 {
        Err(ValidationError::ReplicationNotPositive)
    } else {
        Ok(())
    }
}

/// Checks the name of a topic that is to be deleted: it must not be empty.
pub fn check_topic_name(name: &str) -> (r: Result<(), ValidationError>)
    ensures
        name@.len() == 0 ==> r == Err::<(), ValidationError>(ValidationError::EmptyTopicName),
        name@.len() > 0 ==> r is Ok,
{
    if name.is_empty() {
        Err(ValidationError::EmptyTopicName)
    } else {
        Ok(())
    }
}

/// Whether a topic is one that the cluster keeps for itself, which is the
/// case where its name starts with an underscore.
pub fn is_internal_topic(name: &str) -> (r: bool)
    ensures
        r == (name@.len() > 0 && name@[0] == '_'),
{
    !name.is_empty() && name.get_char(0) == '_'
}

} // verus!
