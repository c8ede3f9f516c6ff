use ndjson_converter::{get_class_list, get_class_names, parse_class_id, DatasetMetadata, NDJSONData};

fn with_classes(pairs: &[(&str, &str)]) -> NDJSONData {
    NDJSONData {
        metadata: DatasetMetadata {
            record_type: "dataset".to_string(),
            task: "detect".to_string(),
            name: "test".to_string(),
            description: String::new(),
            bytes: 0,
            url: String::new(),
            class_names: pairs.iter().map(|(k, v)| (k.to_string(), v.to_string())).collect(),
            kpt_shape: None,
            version: 1,
        },
        images: vec![],
    }
}

#[test]
fn get_class_list_orders_by_id() {
    let data = with_classes(&[("2", "bird"), ("0", "cat"), ("1", "dog")]);
    assert_eq!(get_class_list(&data), vec!["cat", "dog", "bird"]);
}

#[test]
fn class_list_fills_gaps() {
    let data = with_classes(&[("3", "x"), ("0", "cat"), ("name", "ignored"), ("-1", "neg")]);
    assert_eq!(get_class_list(&data), vec!["cat", "class_1", "class_2", "x"]);
}

#[test]
fn class_list_of_no_usable_ids_is_empty() {
    assert!(get_class_list(&with_classes(&[])).is_empty());
    assert!(get_class_list(&with_classes(&[("a", "b")])).is_empty());
    assert!(get_class_list(&with_classes(&[("-4", "b")])).is_empty());
}

#[test]
fn later_names_override_earlier_ones() {
    let data = with_classes(&[("1", "dog"), ("01", "wolf")]);
    let names = get_class_names(&data);
    assert_eq!(names.get(1).map(|s| s.as_str()), Some("wolf"));
    assert_eq!(names.get(2), None);
    assert_eq!(names.max_id(), Some(1));
    assert!(!names.is_empty());
}

#[test]
fn class_ids_parse_as_decimal_i32() {
    assert_eq!(parse_class_id("0"), Some(0));
    assert_eq!(parse_class_id("007"), Some(7));
    assert_eq!(parse_class_id("+5"), Some(5));
    assert_eq!(parse_class_id("-0"), Some(0));
    assert_eq!(parse_class_id("-2147483648"), Some(i32::MIN));
    assert_eq!(parse_class_id("2147483647"), Some(i32::MAX));
    assert_eq!(parse_class_id("2147483648"), None);
    assert_eq!(parse_class_id("99999999999999999999"), None);
    assert_eq!(parse_class_id(""), None);
    assert_eq!(parse_class_id("-"), None);
    assert_eq!(parse_class_id("1a"), None);
    assert_eq!(parse_class_id(" 1"), None);
}
