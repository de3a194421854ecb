use uns_cli::repository::TagRepository;
use uns_cli::{JsonTagRepository, Tag, TagMap, UnsError};

fn pressure_tag() -> Tag {
    Tag::new(
        "US/TX/AUSTIN/AREA1/LINE1/MACHINE1/PUMP1/PRESSURE".to_string(),
        "Pump 1 Pressure".to_string(),
        "Pressure sensor for Pump 1".to_string(),
        "45.7".to_string(),
    )
}

fn pressure_map() -> TagMap {
    let mut tags = TagMap::new();
    tags.insert(
        "US/TX/AUSTIN/AREA1/LINE1/MACHINE1/PUMP1/PRESSURE".to_string(),
        pressure_tag(),
    );
    tags
}

#[test]
fn test_load_tags() {
    let test_data = r#"{
            "tags": {
                "US/TX/AUSTIN/AREA1/LINE1/MACHINE1/PUMP1/PRESSURE": {
                    "path": "US/TX/AUSTIN/AREA1/LINE1/MACHINE1/PUMP1/PRESSURE",
                    "name": "Pump 1 Pressure",
                    "description": "Pressure sensor for Pump 1",
                    "value": "45.7"
                }
            }
        }"#;

    let mut repo = JsonTagRepository::new();
    let tags = repo.load_tags(test_data).unwrap();

    assert_eq!(tags.len(), 1);
    assert!(tags.contains_key("US/TX/AUSTIN/AREA1/LINE1/MACHINE1/PUMP1/PRESSURE"));

    let tag = tags.get("US/TX/AUSTIN/AREA1/LINE1/MACHINE1/PUMP1/PRESSURE").unwrap();
    assert_eq!(tag.name, "Pump 1 Pressure");
    assert_eq!(tag.value, "45.7");
}

#[test]
fn test_update_tag() {
    let mut repo = JsonTagRepository::with_tags(pressure_map());

    let updated_tag = repo
        .update_tag(
            "US/TX/AUSTIN/AREA1/LINE1/MACHINE1/PUMP1/PRESSURE",
            "50.2".to_string(),
        )
        .unwrap()
        .unwrap();

    assert_eq!(updated_tag.value, "50.2");

    let all_tags = repo.get_all_tags().unwrap();
    let tag = all_tags.get("US/TX/AUSTIN/AREA1/LINE1/MACHINE1/PUMP1/PRESSURE").unwrap();
    assert_eq!(tag.value, "50.2");
}

#[test]
fn test_save_tags() {
    let tags = pressure_map();
    let repo = JsonTagRepository::with_tags(pressure_map());

    let saved = repo.save_tags(&tags);

    let mut other = JsonTagRepository::new();
    let loaded = other.load_tags(&saved).unwrap();

    assert_eq!(loaded.len(), 1);
    assert!(loaded.contains_key("US/TX/AUSTIN/AREA1/LINE1/MACHINE1/PUMP1/PRESSURE"));

    let tag = loaded.get("US/TX/AUSTIN/AREA1/LINE1/MACHINE1/PUMP1/PRESSURE").unwrap();
    assert_eq!(tag.name, "Pump 1 Pressure");
    assert_eq!(tag.value, "45.7");
}

#[test]
fn test_update_tag_preserves_other_fields() {
    let mut repo = JsonTagRepository::with_tags(pressure_map());

    let updated = repo
        .update_tag(
            "US/TX/AUSTIN/AREA1/LINE1/MACHINE1/PUMP1/PRESSURE",
            "60.0".to_string(),
        )
        .unwrap()
        .unwrap();

    assert_eq!(updated.path, "US/TX/AUSTIN/AREA1/LINE1/MACHINE1/PUMP1/PRESSURE");
    assert_eq!(updated.name, "Pump 1 Pressure");
    assert_eq!(updated.description, "Pressure sensor for Pump 1");
    assert_eq!(updated.value, "60.0");
}

#[test]
fn test_get_absent_returns_none_update_absent_fails() {
    let mut repo = JsonTagRepository::with_tags(pressure_map());

    let got = repo.get_tag("NO/SUCH/PATH").unwrap();
    assert!(got.is_none());

    let err = repo.update_tag("NO/SUCH/PATH", "1".to_string()).unwrap_err();
    assert!(matches!(err, UnsError::NotFound(_)));

    let all_tags = repo.get_all_tags().unwrap();
    assert_eq!(all_tags.len(), 1);
}

#[test]
fn test_load_invalid_document_fails_with_serialization() {
    let mut repo = JsonTagRepository::with_tags(pressure_map());

    let err = repo.load_tags("this is not a tag document").unwrap_err();
    assert!(matches!(err, UnsError::Serialization(_)));

    let all_tags = repo.get_all_tags().unwrap();
    assert_eq!(all_tags.len(), 1);
}

#[test]
fn test_load_duplicate_key_fails_with_serialization() {
    let test_data = r#"{"tags":{
        "A/B":{"path":"A/B","name":"N","description":"D","value":"1"},
        "A/B":{"path":"A/B","name":"N","description":"D","value":"2"}
    }}"#;

    let mut repo = JsonTagRepository::new();
    let err = repo.load_tags(test_data).unwrap_err();
    assert!(matches!(err, UnsError::Serialization(_)));
}

#[test]
fn test_load_replaces_previous_set() {
    let mut repo = JsonTagRepository::with_tags(pressure_map());

    let test_data = r#"{"tags":{"A/B":{"path":"A/B","name":"N","description":"D","value":"1"}}}"#;
    let tags = repo.load_tags(test_data).unwrap();

    assert_eq!(tags.len(), 1);
    let all_tags = repo.get_all_tags().unwrap();
    assert_eq!(all_tags.len(), 1);
    assert!(all_tags.contains_key("A/B"));
    assert!(!all_tags.contains_key("US/TX/AUSTIN/AREA1/LINE1/MACHINE1/PUMP1/PRESSURE"));
}

#[test]
fn test_save_load_round_trip_with_escapes() {
    let mut tags = TagMap::new();
    tags.insert(
        "A/B".to_string(),
        Tag::new(
            "A/B".to_string(),
            "a \"quoted\" name".to_string(),
            "a back\\slash".to_string(),
            "1".to_string(),
        ),
    );
    let repo = JsonTagRepository::with_tags(TagMap::new());

    let saved = repo.save_tags(&tags);

    let mut other = JsonTagRepository::new();
    let loaded = other.load_tags(&saved).unwrap();
    let tag = loaded.get("A/B").unwrap();
    assert_eq!(tag.name, "a \"quoted\" name");
    assert_eq!(tag.description, "a back\\slash");
}

#[test]
fn test_save_empty_set_exact_document() {
    let repo = JsonTagRepository::new();
    let saved = repo.save_tags(&TagMap::new());
    assert_eq!(saved, "{\"tags\":{}}");

    let mut other = JsonTagRepository::new();
    let loaded = other.load_tags(&saved).unwrap();
    assert_eq!(loaded.len(), 0);
}

#[test]
fn test_save_one_tag_exact_document() {
    let mut tags = TagMap::new();
    tags.insert(
        "A/B".to_string(),
        Tag::new("A/B".to_string(), "N".to_string(), "D".to_string(), "1".to_string()),
    );
    let repo = JsonTagRepository::new();
    let saved = repo.save_tags(&tags);
    assert_eq!(
        saved,
        "{\"tags\":{\"A/B\":{\"path\":\"A/B\",\"name\":\"N\",\"description\":\"D\",\"value\":\"1\"}}}"
    );
}

#[test]
fn test_load_accepts_any_member_order() {
    let test_data = r#"{"tags":{"A/B":{"name":"N","path":"A/B","value":"1","description":"D"}}}"#;

    let mut repo = JsonTagRepository::new();
    let tags = repo.load_tags(test_data).unwrap();
    let tag = tags.get("A/B").unwrap();
    assert_eq!(tag.path, "A/B");
    assert_eq!(tag.name, "N");
    assert_eq!(tag.description, "D");
    assert_eq!(tag.value, "1");
}

#[test]
fn test_load_ignores_unknown_members() {
    let test_data = r#"{"version":3,"tags":{"A/B":{"path":"A/B","unit":{"si":"bar","x":[1,2]},"name":"N","description":"D","value":"1","quality":"good"}},"extra":"y"}"#;

    let mut repo = JsonTagRepository::new();
    let tags = repo.load_tags(test_data).unwrap();
    assert_eq!(tags.len(), 1);
    let tag = tags.get("A/B").unwrap();
    assert_eq!(tag.name, "N");
    assert_eq!(tag.value, "1");
}

#[test]
fn test_load_rejects_repeated_member() {
    let test_data = r#"{"tags":{"A/B":{"path":"A/B","path":"C/D","name":"N","description":"D","value":"1"}}}"#;

    let mut repo = JsonTagRepository::new();
    let err = repo.load_tags(test_data).unwrap_err();
    assert!(matches!(err, UnsError::Serialization(_)));
}

#[test]
fn test_load_rejects_missing_member() {
    let test_data = r#"{"tags":{"A/B":{"path":"A/B","name":"N","description":"D"}}}"#;

    let mut repo = JsonTagRepository::new();
    let err = repo.load_tags(test_data).unwrap_err();
    assert!(matches!(err, UnsError::Serialization(_)));
}

#[test]
fn test_load_reads_json_escapes() {
    let test_data = r#"{"tags":{"A/B":{"path":"A\/B","name":"line\nbreak","description":"tab\there A 😀","value":"q\"b\\s\b\f\r"}}}"#;

    let mut repo = JsonTagRepository::new();
    let tags = repo.load_tags(test_data).unwrap();
    let tag = tags.get("A/B").unwrap();
    assert_eq!(tag.path, "A/B");
    assert_eq!(tag.name, "line\nbreak");
    assert_eq!(tag.description, "tab\there A \u{1F600}");
    assert_eq!(tag.value, "q\"b\\s\u{8}\u{c}\r");
}

#[test]
fn test_save_escapes_control_characters() {
    let mut tags = TagMap::new();
    tags.insert(
        "A/B".to_string(),
        Tag::new(
            "A/B".to_string(),
            "N".to_string(),
            "D".to_string(),
            "a\nb\tc\r\u{8}\u{c}\u{1}d".to_string(),
        ),
    );
    let repo = JsonTagRepository::new();
    let saved = repo.save_tags(&tags);
    assert!(saved.contains("a\\nb\\tc\\r\\b\\f\\u0001d"));

    let mut other = JsonTagRepository::new();
    let loaded = other.load_tags(&saved).unwrap();
    assert_eq!(loaded.get("A/B").unwrap().value, "a\nb\tc\r\u{8}\u{c}\u{1}d");
}

#[test]
fn test_load_rejects_raw_control_character() {
    let test_data = "{\"tags\":{\"A/B\":{\"path\":\"A/B\",\"name\":\"a\nb\",\"description\":\"D\",\"value\":\"1\"}}}";

    let mut repo = JsonTagRepository::new();
    let err = repo.load_tags(test_data).unwrap_err();
    assert!(matches!(err, UnsError::Serialization(_)));
}
