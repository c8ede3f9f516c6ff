use ndjson_converter::{assemble_records, ndjson_lines, DatasetMetadata, ImageEntry, ParseError, Record};

fn meta(name: &str) -> DatasetMetadata {
    DatasetMetadata {
        record_type: "dataset".to_string(),
        task: "detect".to_string(),
        name: name.to_string(),
        description: String::new(),
        bytes: 0,
        url: String::new(),
        class_names: Vec::new(),
        kpt_shape: None,
        version: 0,
    }
}

fn image(file: &str) -> ImageEntry {
    ImageEntry {
        record_type: "image".to_string(),
        file: file.to_string(),
        output_file: None,
        url: String::new(),
        width: 640,
        height: 480,
        split: "train".to_string(),
        annotations: None,
        classifications: Vec::new(),
    }
}

#[test]
fn lines_are_trimmed_and_blank_ones_dropped() {
    let lines = ndjson_lines("{\"a\":1}\r\n\n   \n  {\"b\":2}  \n");
    assert_eq!(lines, vec!["{\"a\":1}", "{\"b\":2}"]);
    assert!(ndjson_lines("").is_empty());
    assert_eq!(ndjson_lines("\u{3000}x\u{a0}"), vec!["x"]);
}

#[test]
fn records_assemble_in_order() {
    let data = assemble_records(vec![
        Ok(Record::Dataset(meta("first"))),
        Ok(Record::Image(image("a.jpg"))),
        Ok(Record::Other),
        Ok(Record::Dataset(meta("second"))),
        Ok(Record::Image(image("b.jpg"))),
    ])
    .ok()
    .unwrap();
    assert_eq!(data.metadata.name, "second");
    assert_eq!(data.images.len(), 2);
    assert_eq!(data.images[0].file, "a.jpg");
    assert_eq!(data.images[1].file, "b.jpg");
}

#[test]
fn parse_missing_metadata_returns_error() {
    let result = assemble_records(vec![Ok(Record::Image(image("img1.jpg")))]);
    assert!(matches!(result, Err(ParseError::NoMetadata)));
}

#[test]
fn parse_malformed_json_returns_error() {
    let bad = serde_json::from_str::<serde_json::Value>("{invalid json}").unwrap_err();
    let result = assemble_records(vec![Ok(Record::Dataset(meta("test"))), Err(bad)]);
    assert!(matches!(result, Err(ParseError::JsonError(_))));
}

#[test]
fn first_decoding_error_wins() {
    let first = serde_json::from_str::<serde_json::Value>("{").unwrap_err();
    let first_text = first.to_string();
    let second = serde_json::from_str::<serde_json::Value>("[1,").unwrap_err();
    match assemble_records(vec![Ok(Record::Other), Err(first), Err(second)]) {
        Err(ParseError::JsonError(e)) => assert_eq!(e.to_string(), first_text),
        _ => panic!("expected a JSON error"),
    }
}
