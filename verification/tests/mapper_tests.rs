use mirthbr::json::{parse_json, JVal};
use mirthbr::mapper::MapperProcessor;
use mirthbr::message::Message;
use mirthbr::models::Mapping;
use serde_json::Value;

#[test]
fn test_simple_mapping() {
    let mappings = vec![
        Mapping { source: "name".to_string(), target: "patientName".to_string() },
        Mapping { source: "age".to_string(), target: "patientAge".to_string() },
    ];
    let processor = MapperProcessor::new(mappings);

    let msg = Message::new(4, r#"{"name": "John", "age": 30}"#.to_string(), "test".to_string());

    let result = processor.process(msg).expect("Processing failed");
    let json: Value = serde_json::from_str(&result.content).unwrap();

    assert_eq!(json["patientName"], "John");
    assert_eq!(json["patientAge"], 30);
    // original fields remain: the mapper writes into the same object
    assert_eq!(json["name"], "John");
}

#[test]
fn test_nested_mapping() {
    let mappings = vec![
        Mapping { source: "patient.name".to_string(), target: "out.name".to_string() },
    ];
    let processor = MapperProcessor::new(mappings);

    let msg = Message::new(4, r#"{"patient": {"name": "Alice"}}"#.to_string(), "test".to_string());

    let result = processor.process(msg).expect("Processing failed");
    let json: Value = serde_json::from_str(&result.content).unwrap();

    assert_eq!(json["out"]["name"], "Alice");
}

#[test]
fn test_mapper_rejects_non_json() {
    let processor = MapperProcessor::new(vec![]);
    let msg = Message::new(4, "MSH|not json".to_string(), "test".to_string());
    assert!(processor.process(msg).is_err());
}

#[test]
fn test_missing_source_is_skipped() {
    let mappings = vec![
        Mapping { source: "absent.path".to_string(), target: "out".to_string() },
    ];
    let processor = MapperProcessor::new(mappings);
    let msg = Message::new(4, r#"{"a": 1}"#.to_string(), "test".to_string());
    let result = processor.process(msg).unwrap();
    let json: Value = serde_json::from_str(&result.content).unwrap();
    assert_eq!(json["a"], 1);
    assert!(json.get("out").is_none());
}

#[test]
fn test_array_index_source() {
    let mappings = vec![
        Mapping { source: "items[1]".to_string(), target: "picked".to_string() },
    ];
    let processor = MapperProcessor::new(mappings);
    let msg = Message::new(4, r#"{"items": ["a", "b", "c"]}"#.to_string(), "test".to_string());
    let result = processor.process(msg).unwrap();
    let json: Value = serde_json::from_str(&result.content).unwrap();
    assert_eq!(json["picked"], "b");
}

#[test]
fn test_get_by_path_reads_values() {
    let processor = MapperProcessor::new(vec![]);
    let parsed = parse_json(r#"{"a": {"b": [10, 20]}}"#).unwrap();
    let v = processor.get_value_by_path(&parsed, "a.b[1]").unwrap();
    match v {
        JVal::Num(_) => {},
        _ => panic!("expected a number"),
    }
    assert!(processor.get_value_by_path(&parsed, "a.c").is_none());
    assert!(processor.get_value_by_path(&parsed, "a.b[9]").is_none());
}

#[test]
fn test_set_by_path_creates_objects() {
    let processor = MapperProcessor::new(vec![]);
    let parsed = parse_json(r#"{}"#).unwrap();
    let updated = processor
        .set_value_by_path(parsed, "x.y", JVal::Bool(true))
        .unwrap();
    let text = mirthbr::json::json_to_string(updated);
    let json: Value = serde_json::from_str(&text).unwrap();
    assert_eq!(json["x"]["y"], true);
}

#[test]
fn test_set_by_path_rejects_non_object_parent() {
    let processor = MapperProcessor::new(vec![]);
    let parsed = parse_json(r#"{"x": 5}"#).unwrap();
    assert!(processor.set_value_by_path(parsed, "x.y.z", JVal::Null).is_err());
}
