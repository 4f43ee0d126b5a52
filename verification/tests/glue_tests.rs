use offset_explorer::error::ValidationError;
use offset_explorer::kafka::mapper::{
    check_new_topic, check_topic_name, is_internal_topic, ConsumerGroupInfo, ConsumerMember,
    PartitionMetadata, TopicMetadata,
};
use offset_explorer::schema_registry::client::{
    cache_is_fresh, compatibility_url, id_cache_key, latest_version, schema_by_id_url, schema_url,
    subject_url, subjects_url, trim_base_url, version_cache_key, versions_url, SchemaType,
};
use offset_explorer::tauri_commands::{
    ConsumerGroupResponse, PartitionInfo, ProduceMessageRequest, TopicMetadataResponse,
};

#[test]
fn a_new_topic_is_checked_before_it_is_sent() {
    assert_eq!(check_new_topic("", 0, 0), Err(ValidationError::EmptyTopicName));
    assert_eq!(check_new_topic("t", 0, 0), Err(ValidationError::PartitionsNotPositive));
    assert_eq!(check_new_topic("t", -1, 3), Err(ValidationError::PartitionsNotPositive));
    assert_eq!(check_new_topic("t", 1, 0), Err(ValidationError::ReplicationNotPositive));
    assert_eq!(check_new_topic("t", 1, 1), Ok(()));
    assert_eq!(check_topic_name(""), Err(ValidationError::EmptyTopicName));
    assert_eq!(check_topic_name("t"), Ok(()));
}

#[test]
fn topics_of_the_cluster_start_with_an_underscore() {
    assert!(is_internal_topic("__consumer_offsets"));
    assert!(is_internal_topic("_schemas"));
    assert!(!is_internal_topic("orders"));
    assert!(!is_internal_topic("orders_"));
    assert!(!is_internal_topic(""));
    assert!(!is_internal_topic("é_"));
}

#[test]
fn what_the_cluster_reports_is_shown() {
    let metadata = TopicMetadata {
        name: "orders".to_string(),
        partitions: vec![
            PartitionMetadata { id: 0, leader: 1, replicas: vec![1, 2, 3], isr: vec![1, 2] },
            PartitionMetadata { id: 1, leader: 2, replicas: vec![2], isr: vec![] },
        ],
        internal: false,
    };
    let shown = TopicMetadataResponse::from_metadata(&metadata);
    assert_eq!(shown.name, "orders");
    assert_eq!(shown.partition_count, 2);
    assert_eq!(shown.replication_factor, 3);
    assert!(!shown.internal);
    assert_eq!(shown.partitions.len(), 2);
    assert_eq!(shown.partitions[0].replicas, vec![1, 2, 3]);
    assert_eq!(shown.partitions[1].isr, Vec::<i32>::new());
    assert_eq!(shown.partitions[1].leader, 2);
    let bare = TopicMetadataResponse::from_metadata(&TopicMetadata {
        name: "_x".to_string(),
        partitions: vec![],
        internal: true,
    });
    assert_eq!((bare.partition_count, bare.replication_factor, bare.internal), (0, 0, true));
    let one = PartitionInfo::from_metadata(&metadata.partitions[1]);
    assert_eq!((one.id, one.leader), (1, 2));
    let group = ConsumerGroupResponse::from_info(&ConsumerGroupInfo {
        group_id: "g".to_string(),
        state: "Stable".to_string(),
        protocol_type: Some("consumer".to_string()),
        members: vec![ConsumerMember {
            member_id: "m".to_string(),
            client_id: "c".to_string(),
            client_host: "h".to_string(),
        }],
    });
    assert_eq!(group.group_id, "g");
    assert_eq!(group.state, "Stable");
    assert_eq!(group.protocol_type, Some("consumer".to_string()));
    assert_eq!(group.members.len(), 1);
    assert_eq!(group.members[0].client_host, "h");
}

#[test]
fn a_message_is_sent_as_the_bytes_of_its_text() {
    let request = ProduceMessageRequest {
        topic: "t".to_string(),
        key: Some("ké".to_string()),
        value: None,
        headers: None,
    };
    assert_eq!(request.key_bytes(), Some(vec![b'k', 0xc3, 0xa9]));
    assert_eq!(request.value_bytes(), None);
}

#[test]
fn schema_languages_are_read_from_their_names() {
    assert_eq!(SchemaType::from_str("AVRO"), Ok(SchemaType::AVRO));
    assert_eq!(SchemaType::from_str("PROTOBUF"), Ok(SchemaType::PROTOBUF));
    assert_eq!(SchemaType::from_str("JSON"), Ok(SchemaType::JSON));
    assert_eq!(SchemaType::from_str("avro"), Err(ValidationError::InvalidSchemaType));
    assert_eq!(SchemaType::from_str(""), Err(ValidationError::InvalidSchemaType));
}

#[test]
fn the_addresses_of_the_registry_are_put_together() {
    assert_eq!(trim_base_url("http://r:8081///"), "http://r:8081");
    assert_eq!(trim_base_url("http://r:8081/a"), "http://r:8081/a");
    assert_eq!(trim_base_url("///"), "");
    assert_eq!(trim_base_url(""), "");
    let base = "http://r";
    assert_eq!(subjects_url(base), "http://r/subjects");
    assert_eq!(subject_url(base, "s"), "http://r/subjects/s");
    assert_eq!(versions_url(base, "s"), "http://r/subjects/s/versions");
    assert_eq!(schema_url(base, "s", 3), "http://r/subjects/s/versions/3");
    assert_eq!(schema_url(base, "s", -1), "http://r/subjects/s/versions/-1");
    assert_eq!(compatibility_url(base, "s"), "http://r/compatibility/subjects/s");
    assert_eq!(schema_by_id_url(base, 17), "http://r/schemas/ids/17");
    assert_eq!(version_cache_key("s", 3), "s:v3");
    assert_eq!(id_cache_key(17), "id:17");
}

#[test]
fn the_latest_version_is_the_highest() {
    assert_eq!(latest_version(&[]), None);
    assert_eq!(latest_version(&[3]), Some(3));
    assert_eq!(latest_version(&[1, 5, 2, 5, -7]), Some(5));
    assert_eq!(latest_version(&[-3, -2]), Some(-2));
    assert!(cache_is_fresh(0));
    assert!(cache_is_fresh(-1));
    assert!(!cache_is_fresh(1));
}
