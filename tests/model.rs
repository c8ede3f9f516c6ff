use ndjson_converter::{
    default_split, default_task, image_download_key, image_entry_download_key, normalize_split,
    DatasetMetadata, ImageEntry, NDJSONData,
};

fn entry(file: &str, split: &str) -> ImageEntry {
    ImageEntry {
        record_type: "image".to_string(),
        file: file.to_string(),
        output_file: None,
        url: String::new(),
        width: 640,
        height: 480,
        split: split.to_string(),
        annotations: None,
        classifications: Vec::new(),
    }
}

fn dataset(images: Vec<ImageEntry>) -> NDJSONData {
    NDJSONData {
        metadata: DatasetMetadata {
            record_type: "dataset".to_string(),
            task: "detect".to_string(),
            name: "test".to_string(),
            description: String::new(),
            bytes: 0,
            url: String::new(),
            class_names: Vec::new(),
            kpt_shape: None,
            version: 1,
        },
        images,
    }
}

#[test]
fn val_is_read_as_valid() {
    assert_eq!(normalize_split("val"), "valid");
    assert_eq!(normalize_split("valid"), "valid");
    assert_eq!(normalize_split("train"), "train");
    assert_eq!(normalize_split("Val"), "Val");
}

#[test]
fn download_keys_carry_the_split_length() {
    assert_eq!(image_download_key("val", "img1.jpg"), "5:valid:img1.jpg");
    assert_eq!(image_download_key("test", "a:b.jpg"), "4:test:a:b.jpg");
    assert_eq!(image_download_key("", "x"), "0::x");
    assert_eq!(image_download_key("é", "x"), "2:é:x");
    assert_ne!(image_download_key("train", "img1.jpg"), image_download_key("valid", "img1.jpg"));
}

#[test]
fn entry_key_uses_the_effective_name() {
    let mut e = entry("img1.jpg", "val");
    assert_eq!(image_entry_download_key(&e), "5:valid:img1.jpg");
    e.output_file = Some("img1__x.jpg".to_string());
    assert_eq!(image_entry_download_key(&e), "5:valid:img1__x.jpg");
    assert_eq!(e.effective_file_name(), "img1__x.jpg");
}

#[test]
fn defaults() {
    assert_eq!(default_task(), "detect");
    assert_eq!(default_split(), "train");
}

#[test]
fn train_images_filters_correctly() {
    let data = dataset(vec![entry("train1.jpg", "train"), entry("valid1.jpg", "valid"), entry("train2.jpg", "train")]);
    let train = data.train_images();
    assert_eq!(train.len(), 2);
    assert!(train.iter().all(|img| img.split == "train"));
}

#[test]
fn valid_images_filters_correctly() {
    let data = dataset(vec![entry("train1.jpg", "train"), entry("valid1.jpg", "valid"), entry("val1.jpg", "val")]);
    let valid = data.valid_images();
    assert_eq!(valid.len(), 2);
    assert!(valid.iter().all(|img| img.split == "valid" || img.split == "val"));
}

#[test]
fn splits_are_disjoint_and_ordered() {
    let data = dataset(vec![
        entry("a.jpg", "val"),
        entry("b.jpg", "train"),
        entry("c.jpg", "valid"),
        entry("d.jpg", "test"),
        entry("e.jpg", "other"),
    ]);
    let names = |v: Vec<&ImageEntry>| v.iter().map(|e| e.file.clone()).collect::<Vec<_>>();
    assert_eq!(names(data.train_images()), vec!["b.jpg"]);
    assert_eq!(names(data.valid_images()), vec!["a.jpg", "c.jpg"]);
    assert_eq!(names(data.test_images()), vec!["d.jpg"]);
}
