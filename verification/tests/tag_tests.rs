use uns_cli::{Tag, UnsError};

#[test]
fn test_new_tag() {
    let tag = Tag::new(
        "US/TX/AUSTIN/AREA1/LINE1/MACHINE1/PUMP1/PRESSURE".to_string(),
        "Pump 1 Pressure".to_string(),
        "Pressure sensor for Pump 1".to_string(),
        "45.7".to_string(),
    );

    assert_eq!(tag.path, "US/TX/AUSTIN/AREA1/LINE1/MACHINE1/PUMP1/PRESSURE");
    assert_eq!(tag.name, "Pump 1 Pressure");
    assert_eq!(tag.description, "Pressure sensor for Pump 1");
    assert_eq!(tag.value, "45.7");
}

#[test]
fn test_update_value() {
    let mut tag = Tag::new(
        "US/TX/AUSTIN/AREA1/LINE1/MACHINE1/PUMP1/PRESSURE".to_string(),
        "Pump 1 Pressure".to_string(),
        "Pressure sensor for Pump 1".to_string(),
        "45.7".to_string(),
    );

    let old_value = tag.update_value("50.2".to_string());

    assert_eq!(old_value, "45.7");
    assert_eq!(tag.value, "50.2");
}

#[test]
fn test_to_mqtt_topic() {
    let tag = Tag::new(
        "US/TX/AUSTIN/AREA1/LINE1/MACHINE1/PUMP1/PRESSURE".to_string(),
        "Pump 1 Pressure".to_string(),
        "Pressure sensor for Pump 1".to_string(),
        "45.7".to_string(),
    );

    assert_eq!(
        tag.to_mqtt_topic(),
        "tags/US.TX.AUSTIN.AREA1.LINE1.MACHINE1.PUMP1.PRESSURE"
    );
}

#[test]
fn test_to_mqtt_topic_single_segment() {
    let tag = Tag::new(
        "PRESSURE".to_string(),
        "Pressure".to_string(),
        "A sensor".to_string(),
        "1.0".to_string(),
    );

    assert_eq!(tag.to_mqtt_topic(), "tags/PRESSURE");
}

#[test]
fn test_error_messages() {
    assert_eq!(
        UnsError::Repository("file missing".to_string()).message(),
        "Repository error: file missing"
    );
    assert_eq!(UnsError::Mqtt("down".to_string()).message(), "MQTT error: down");
    assert_eq!(
        UnsError::Serialization("bad data".to_string()).message(),
        "Serialization error: bad data"
    );
    assert_eq!(UnsError::NotFound("A/B".to_string()).message(), "Not found: A/B");
    assert_eq!(UnsError::Other("odd".to_string()).message(), "Error: odd");
}
