use uns_cli::publisher::{MqttClient, MqttPublisher};
use uns_cli::{MemoryMqttClient, MqttTagPublisher, Tag, TagDatabase, TagMap, UnsError};

fn pressure_tag() -> Tag {
    Tag::new(
        "US/TX/AUSTIN/AREA1/LINE1/MACHINE1/PUMP1/PRESSURE".to_string(),
        "Pump 1 Pressure".to_string(),
        "Pressure sensor for Pump 1".to_string(),
        "45.7".to_string(),
    )
}

#[test]
fn test_publish_tag() {
    let mut publisher = MqttTagPublisher::new(MemoryMqttClient::new());

    let tag = pressure_tag();
    let result = publisher.publish_tag(&tag);
    assert!(result.is_ok());

    let messages = &publisher.client.messages;
    assert_eq!(messages.len(), 1);
    assert_eq!(
        messages[0].topic,
        "tags/US.TX.AUSTIN.AREA1.LINE1.MACHINE1.PUMP1.PRESSURE"
    );
    assert!(messages[0].retain);
    let payload = String::from_utf8(messages[0].payload.clone()).unwrap();
    assert!(payload.contains("\"value\":\"45.7\""));
}

#[test]
fn test_publish_database() {
    let mut publisher = MqttTagPublisher::new(MemoryMqttClient::new());

    let mut tags = TagMap::new();
    tags.insert(
        "test/tag".to_string(),
        Tag::new(
            "test/tag".to_string(),
            "Test Tag".to_string(),
            "A test tag".to_string(),
            "test".to_string(),
        ),
    );
    let data = TagDatabase { tags };

    let result = publisher.publish_database(&data);
    assert!(result.is_ok());

    let messages = &publisher.client.messages;
    assert_eq!(messages.len(), 1);
    assert_eq!(messages[0].topic, "tags/database");
    assert!(messages[0].retain);
    let payload = String::from_utf8(messages[0].payload.clone()).unwrap();
    assert!(payload.contains("\"test/tag\""));
}

#[test]
fn test_publish_tags_in_order() {
    let mut publisher = MqttTagPublisher::new(MemoryMqttClient::new());

    let tags = vec![
        Tag::new("A/B".to_string(), "N1".to_string(), "D1".to_string(), "1".to_string()),
        Tag::new("C/D".to_string(), "N2".to_string(), "D2".to_string(), "2".to_string()),
        Tag::new("E/F".to_string(), "N3".to_string(), "D3".to_string(), "3".to_string()),
    ];

    publisher.publish_tags(&tags).unwrap();

    let messages = &publisher.client.messages;
    assert_eq!(messages.len(), 3);
    assert_eq!(messages[0].topic, "tags/A.B");
    assert_eq!(messages[1].topic, "tags/C.D");
    assert_eq!(messages[2].topic, "tags/E.F");
}

struct FailingMqttClient {
    delivered: usize,
    fail_after: usize,
}

impl MqttClient for FailingMqttClient {
    fn duplicate(&self) -> Self {
        FailingMqttClient { delivered: self.delivered, fail_after: self.fail_after }
    }

    fn publish(&mut self, _topic: &str, _payload: Vec<u8>, _retain: bool) -> Result<(), UnsError> {
        if self.delivered >= self.fail_after {
            Err(UnsError::Mqtt("transport down".to_string()))
        } else {
            self.delivered += 1;
            Ok(())
        }
    }

    fn subscribe(&mut self, _topic: &str) -> Result<(), UnsError> {
        Ok(())
    }
}

#[test]
fn test_publish_tags_stops_at_first_failure() {
    let mut publisher = MqttTagPublisher::new(FailingMqttClient { delivered: 0, fail_after: 1 });

    let tags = vec![
        Tag::new("A/B".to_string(), "N1".to_string(), "D1".to_string(), "1".to_string()),
        Tag::new("C/D".to_string(), "N2".to_string(), "D2".to_string(), "2".to_string()),
        Tag::new("E/F".to_string(), "N3".to_string(), "D3".to_string(), "3".to_string()),
    ];

    let err = publisher.publish_tags(&tags).unwrap_err();
    assert!(matches!(err, UnsError::Mqtt(_)));
    assert_eq!(publisher.client.delivered, 1);
}

#[test]
fn test_subscribe_records_topic_and_sends_nothing() {
    let mut client = MemoryMqttClient::new();
    client.subscribe("tags/#").unwrap();

    assert_eq!(client.subscriptions.len(), 1);
    assert_eq!(client.subscriptions[0], "tags/#");
    assert_eq!(client.messages.len(), 0);
}
