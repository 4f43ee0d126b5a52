use offset_explorer::kafka::client::KafkaClient;
use offset_explorer::kafka::mapper::{ConsumerGroupInfo, KafkaMessage, PartitionMetadata};
use offset_explorer::models::broker::Broker;
use offset_explorer::models::consumer::Consumer;
use offset_explorer::models::partition::Partition;
use offset_explorer::models::topic::Topic;
use offset_explorer::tauri_commands::{ErrorResponse, KafkaMessageResponse, SchemaInfo};
use offset_explorer::schema_registry::client::{SchemaInfo as RegistrySchemaInfo, SchemaType};
use offset_explorer::zookeeper::client::ZooKeeperClient;
use offset_explorer::async_ops::TaskProgress;

#[test]
fn test_metadata_structs() {
    let partition = PartitionMetadata {
        id: 0,
        leader: 1,
        replicas: vec![1, 2],
        isr: vec![1],
    };
    assert_eq!(partition.id, 0);
    assert_eq!(partition.leader, 1);
}

#[test]
fn test_consumer_group_info() {
    let group = ConsumerGroupInfo {
        group_id: "test-group".to_string(),
        state: "Stable".to_string(),
        protocol_type: Some("consumer".to_string()),
        members: vec![],
    };
    assert_eq!(group.group_id, "test-group");
}

#[test]
fn test_error_response_conversion() {
    let err = anyhow::Error::msg("Test error");
    let response: ErrorResponse = err.into();
    assert_eq!(response.error, "Error");
}

#[test]
fn error_response_carries_the_words() {
    let response: ErrorResponse = anyhow::Error::msg("Test error").into();
    assert_eq!(response.message, "Test error");
}

#[test]
fn test_kafka_message_conversion() {
    let kafka_msg = KafkaMessage {
        topic: Some("test-topic".to_string()),
        partition: 0,
        offset: 123,
        key: Some(b"key".to_vec()),
        payload: Some(b"value".to_vec()),
        timestamp: 123456789,
    };

    let response: KafkaMessageResponse = kafka_msg.into();
    assert_eq!(response.topic, Some("test-topic".to_string()));
    assert_eq!(response.partition, 0);
    assert_eq!(response.offset, 123);
}

#[test]
fn kafka_message_key_and_value_are_shown_as_text() {
    let response: KafkaMessageResponse = KafkaMessage {
        topic: None,
        partition: 3,
        offset: -1,
        key: Some(b"key".to_vec()),
        payload: Some(vec![0xff, b'a']),
        timestamp: 7,
    }
    .into();
    assert_eq!(response.topic, None);
    assert_eq!(response.key, Some("key".to_string()));
    assert_eq!(response.value, Some("\u{fffd}a".to_string()));
    assert_eq!(response.timestamp, 7);
}

#[test]
fn schema_info_shows_its_language_by_name() {
    let shown: SchemaInfo = RegistrySchemaInfo {
        subject: "orders-value".to_string(),
        version: 3,
        id: 17,
        schema: "{}".to_string(),
        schema_type: SchemaType::PROTOBUF,
    }
    .into();
    assert_eq!(shown.schema_type, "PROTOBUF");
    assert_eq!(shown.subject, "orders-value");
    assert_eq!(shown.version, 3);
    assert_eq!(shown.id, 17);
    assert_eq!(SchemaType::AVRO.as_str(), "AVRO");
    assert_eq!(SchemaType::JSON.as_str(), "JSON");
}

#[test]
fn models_keep_their_parts() {
    let broker = Broker::new(1, "b1".to_string(), 9092);
    assert_eq!(broker.get_id(), 1);
    assert_eq!(broker.get_host(), "b1");
    assert_eq!(broker.get_port(), 9092);
    assert_eq!(Consumer::new("g".to_string()).get_group_id(), "g");
    let partition = Partition::new(2, "t".to_string(), 1);
    assert_eq!((partition.id, partition.topic_name.as_str(), partition.leader), (2, "t", 1));
    let topic = Topic::new("t".to_string(), 3, 2);
    assert_eq!(topic.get_name(), "t");
    assert_eq!((topic.partition_count, topic.replication_factor), (3, 2));
    assert!(KafkaClient::new().is_ok());
    assert!(ZooKeeperClient::new().is_ok());
    let progress = TaskProgress::new(100);
    assert_eq!((progress.current, progress.total, progress.is_complete), (0, 100, false));
    assert_eq!(progress.message, "");
    assert_eq!(progress.error, None);
}

#[test]
fn an_error_response_is_made_of_words() {
    let response = ErrorResponse::from_words("disk full".to_string());
    assert_eq!(response.error, "Error");
    assert_eq!(response.message, "disk full");
}
