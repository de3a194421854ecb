use uns_cli::service::TagService;
use uns_cli::{
    JsonTagRepository, MemoryMqttClient, MqttTagPublisher, Tag, TagMap, TagServiceImpl, UnsError,
};

fn memory_service() -> TagServiceImpl<JsonTagRepository, MqttTagPublisher<MemoryMqttClient>> {
    TagServiceImpl::new(
        JsonTagRepository::new(),
        MqttTagPublisher::new(MemoryMqttClient::new()),
    )
}

fn service_with(tags: TagMap) -> TagServiceImpl<JsonTagRepository, MqttTagPublisher<MemoryMqttClient>>
{
    TagServiceImpl::new(
        JsonTagRepository::with_tags(tags),
        MqttTagPublisher::new(MemoryMqttClient::new()),
    )
}

#[test]
fn test_load_and_publish_tags() {
    let mut service = memory_service();

    let source = r#"{"tags":{"US/TX/AUSTIN/AREA1/LINE1/MACHINE1/PUMP1/PRESSURE":{
        "path":"US/TX/AUSTIN/AREA1/LINE1/MACHINE1/PUMP1/PRESSURE",
        "name":"Pump 1 Pressure",
        "description":"Pressure sensor for Pump 1",
        "value":"45.7"}}}"#;

    let result = service.load_and_publish_tags(source);
    assert!(result.is_ok());

    let messages = &service.publisher.client.messages;
    assert_eq!(messages.len(), 2);
    assert_eq!(
        messages[0].topic,
        "tags/US.TX.AUSTIN.AREA1.LINE1.MACHINE1.PUMP1.PRESSURE"
    );
    assert_eq!(messages[1].topic, "tags/database");
}

#[test]
fn test_update_and_publish_tag() {
    let mut tags = TagMap::new();
    tags.insert(
        "US/TX/AUSTIN/AREA1/LINE1/MACHINE1/PUMP1/PRESSURE".to_string(),
        Tag::new(
            "US/TX/AUSTIN/AREA1/LINE1/MACHINE1/PUMP1/PRESSURE".to_string(),
            "Pump 1 Pressure".to_string(),
            "Pressure sensor for Pump 1".to_string(),
            "45.7".to_string(),
        ),
    );
    let mut service = service_with(tags);

    let result = service.update_and_publish_tag(
        "US/TX/AUSTIN/AREA1/LINE1/MACHINE1/PUMP1/PRESSURE",
        "50.2".to_string(),
    );
    assert!(result.is_ok());
}

#[test]
fn test_update_publishes_tag_then_database() {
    let mut tags = TagMap::new();
    tags.insert(
        "A/B".to_string(),
        Tag::new("A/B".to_string(), "N".to_string(), "D".to_string(), "1".to_string()),
    );
    let mut service = service_with(tags);

    service.update_and_publish_tag("A/B", "2".to_string()).unwrap();

    let messages = &service.publisher.client.messages;
    assert_eq!(messages.len(), 2);
    assert_eq!(messages[0].topic, "tags/A.B");
    assert_eq!(messages[1].topic, "tags/database");
}

#[test]
fn test_load_failure_publishes_nothing() {
    let mut service = memory_service();

    let err = service.load_and_publish_tags("not a tag document").unwrap_err();
    assert!(matches!(err, UnsError::Serialization(_)));
    assert_eq!(service.publisher.client.messages.len(), 0);
}

#[test]
fn test_update_failure_publishes_nothing() {
    let mut service = memory_service();

    let err = service.update_and_publish_tag("NO/SUCH", "1".to_string()).unwrap_err();
    assert!(matches!(err, UnsError::NotFound(_)));
    assert_eq!(service.publisher.client.messages.len(), 0);
}

#[test]
fn test_scenario_load_then_publish() {
    let mut service = memory_service();

    let source = r#"{"tags":{"A/B":{"path":"A/B","name":"N","description":"D","value":"1"}}}"#;
    service.load_and_publish_tags(source).unwrap();

    let messages = &service.publisher.client.messages;
    assert_eq!(messages.len(), 2);

    assert_eq!(messages[0].topic, "tags/A.B");
    assert!(messages[0].retain);
    let individual = String::from_utf8(messages[0].payload.clone()).unwrap();
    assert!(individual.contains("\"value\":\"1\""));

    assert_eq!(messages[1].topic, "tags/database");
    assert!(messages[1].retain);
    let aggregate = String::from_utf8(messages[1].payload.clone()).unwrap();
    assert!(aggregate.contains("\"A/B\""));
    assert!(aggregate.contains("\"value\":\"1\""));
}

#[test]
fn test_scenario_update_then_publish() {
    let mut service = memory_service();
    let source = r#"{"tags":{"A/B":{"path":"A/B","name":"N","description":"D","value":"1"}}}"#;
    service.load_and_publish_tags(source).unwrap();

    service.update_and_publish_tag("A/B", "2".to_string()).unwrap();

    let messages = &service.publisher.client.messages;
    assert_eq!(messages.len(), 4);
    assert_eq!(messages[2].topic, "tags/A.B");
    let individual = String::from_utf8(messages[2].payload.clone()).unwrap();
    assert!(individual.contains("\"value\":\"2\""));
    assert_eq!(messages[3].topic, "tags/database");
    let aggregate = String::from_utf8(messages[3].payload.clone()).unwrap();
    assert!(aggregate.contains("\"value\":\"2\""));

    let tag = service.get_tag("A/B").unwrap().unwrap();
    assert_eq!(tag.value, "2");
}

#[test]
fn test_get_all_tags_is_a_copy() {
    let mut tags = TagMap::new();
    tags.insert(
        "A/B".to_string(),
        Tag::new("A/B".to_string(), "N".to_string(), "D".to_string(), "1".to_string()),
    );
    let service = service_with(tags);

    let mut snapshot = service.get_all_tags().unwrap();
    snapshot.insert(
        "C/D".to_string(),
        Tag::new("C/D".to_string(), "N2".to_string(), "D2".to_string(), "2".to_string()),
    );

    let again = service.get_all_tags().unwrap();
    assert_eq!(again.len(), 1);
    assert!(!again.contains_key("C/D"));
}

struct HaltingMqttClient {
    delivered: usize,
    fail_after: usize,
}

impl uns_cli::publisher::MqttClient for HaltingMqttClient {
    fn duplicate(&self) -> Self {
        HaltingMqttClient { delivered: self.delivered, fail_after: self.fail_after }
    }

    fn publish(&mut self, _topic: &str, _payload: Vec<u8>, _retain: bool) -> Result<(), UnsError> {
        if self.delivered >= self.fail_after {
            Err(UnsError::Mqtt("transport down".to_string()))
        } else {
            self.delivered += 1;
            Ok(())
        }
    }

    fn subscribe(&mut self, _topic: &str) -> Result<(), UnsError> {
        Ok(())
    }
}

#[test]
fn test_load_publishes_individual_tags_in_document_order() {
    let mut service = memory_service();

    let source = r#"{"tags":{
        "A/B":{"path":"A/B","name":"N1","description":"D1","value":"1"},
        "C/D":{"path":"C/D","name":"N2","description":"D2","value":"2"}
    }}"#;
    service.load_and_publish_tags(source).unwrap();

    let messages = &service.publisher.client.messages;
    assert_eq!(messages.len(), 3);
    assert_eq!(messages[0].topic, "tags/A.B");
    assert_eq!(messages[1].topic, "tags/C.D");
    assert_eq!(messages[2].topic, "tags/database");
}

#[test]
fn test_load_aborts_before_snapshot_on_transport_failure() {
    let mut tags = TagMap::new();
    tags.insert(
        "A/B".to_string(),
        Tag::new("A/B".to_string(), "N1".to_string(), "D1".to_string(), "1".to_string()),
    );
    tags.insert(
        "C/D".to_string(),
        Tag::new("C/D".to_string(), "N2".to_string(), "D2".to_string(), "2".to_string()),
    );
    let mut service = TagServiceImpl::new(
        JsonTagRepository::new(),
        MqttTagPublisher::new(HaltingMqttClient { delivered: 0, fail_after: 1 }),
    );

    let source = r#"{"tags":{
        "A/B":{"path":"A/B","name":"N1","description":"D1","value":"1"},
        "C/D":{"path":"C/D","name":"N2","description":"D2","value":"2"}
    }}"#;
    let err = service.load_and_publish_tags(source).unwrap_err();
    assert!(matches!(err, UnsError::Mqtt(_)));
    assert_eq!(service.publisher.client.delivered, 1);
}

#[test]
fn test_update_aborts_before_snapshot_on_transport_failure() {
    let mut tags = TagMap::new();
    tags.insert(
        "A/B".to_string(),
        Tag::new("A/B".to_string(), "N".to_string(), "D".to_string(), "1".to_string()),
    );
    let mut service = TagServiceImpl::new(
        JsonTagRepository::with_tags(tags),
        MqttTagPublisher::new(HaltingMqttClient { delivered: 0, fail_after: 1 }),
    );

    let err = service.update_and_publish_tag("A/B", "2".to_string()).unwrap_err();
    assert!(matches!(err, UnsError::Mqtt(_)));
    assert_eq!(service.publisher.client.delivered, 1);

    let tag = service.get_tag("A/B").unwrap().unwrap();
    assert_eq!(tag.value, "2");
}
