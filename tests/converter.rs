use ndjson_converter::{
    convert_plan, get_converter, image_download_key, CocoConverter, CreateMlConverter, DatasetMetadata,
    DownloadedImages, FileContent, Format, ImageEntry, NDJSONData, PascalVocConverter, PlannedFile, SplitName,
    YoloConverter,
};

fn entry(file: &str, output: Option<&str>, split: &str) -> ImageEntry {
    ImageEntry {
        record_type: "image".to_string(),
        file: file.to_string(),
        output_file: output.map(|s| s.to_string()),
        url: String::new(),
        width: 640,
        height: 480,
        split: split.to_string(),
        annotations: None,
        classifications: Vec::new(),
    }
}

fn dataset(task: &str, class: &str, images: Vec<ImageEntry>) -> NDJSONData {
    NDJSONData {
        metadata: DatasetMetadata {
            record_type: "dataset".to_string(),
            task: task.to_string(),
            name: "test".to_string(),
            description: String::new(),
            bytes: 0,
            url: String::new(),
            class_names: vec![("0".to_string(), class.to_string())],
            kpt_shape: None,
            version: 1,
        },
        images,
    }
}

fn bytes_at(files: &[PlannedFile], path: &str) -> Option<Vec<u8>> {
    files.iter().find(|f| f.path == path).and_then(|f| match &f.content {
        FileContent::Data(b) => Some(b.clone()),
        _ => None,
    })
}

fn has(files: &[PlannedFile], path: &str) -> bool {
    files.iter().any(|f| f.path == path)
}

fn two_splits() -> (NDJSONData, DownloadedImages) {
    let data = dataset("detect", "animal", vec![entry("img1.jpg", None, "train"), entry("img1.jpg", None, "val")]);
    let mut downloaded = DownloadedImages::new();
    downloaded.insert(image_download_key("train", "img1.jpg"), vec![1]);
    downloaded.insert(image_download_key("valid", "img1.jpg"), vec![2]);
    (data, downloaded)
}

#[test]
fn coco_convert_uses_split_aware_download_keys() {
    let (data, downloaded) = two_splits();
    let files = CocoConverter::new().convert(&data, &downloaded);
    assert_eq!(bytes_at(&files, "train/img1.jpg"), Some(vec![1]));
    assert_eq!(bytes_at(&files, "valid/img1.jpg"), Some(vec![2]));
    assert!(matches!(
        files.iter().find(|f| f.path == "valid/_annotations.coco.json").map(|f| &f.content),
        Some(FileContent::CocoJson { split: SplitName::Valid })
    ));
}

#[test]
fn createml_convert_uses_split_aware_download_keys() {
    let (data, downloaded) = two_splits();
    let files = CreateMlConverter::new().convert(&data, &downloaded);
    assert_eq!(bytes_at(&files, "train/img1.jpg"), Some(vec![1]));
    assert_eq!(bytes_at(&files, "valid/img1.jpg"), Some(vec![2]));
}

#[test]
fn pascal_voc_convert_uses_split_aware_download_keys() {
    let (data, downloaded) = two_splits();
    let files = PascalVocConverter::new().convert(&data, &downloaded);
    assert_eq!(bytes_at(&files, "train/img1.jpg"), Some(vec![1]));
    assert_eq!(bytes_at(&files, "valid/img1.jpg"), Some(vec![2]));
}

#[test]
fn convert_uses_effective_file_name_in_images_and_json() {
    let data = dataset("detect", "animal", vec![entry("img1.jpg", Some("img1__abcd1234.jpg"), "train")]);
    let mut downloaded = DownloadedImages::new();
    downloaded.insert(image_download_key("train", "img1__abcd1234.jpg"), vec![1]);
    let files = CreateMlConverter::new().convert(&data, &downloaded);
    assert_eq!(bytes_at(&files, "train/img1__abcd1234.jpg"), Some(vec![1]));
    assert_eq!(files[0].path, "train.json");
    assert!(matches!(files[0].content, FileContent::CreateMlJson { split: SplitName::Train }));
    assert_eq!(files.len(), 2);
}

#[test]
fn convert_uses_effective_file_names_for_duplicate_outputs() {
    let mut a = entry("Frame_98.jpg", None, "train");
    a.url = "https://cdn.example/a.jpg".to_string();
    let mut b = entry("Frame_98.jpg", Some("Frame_98__abcd1234.jpg"), "train");
    b.url = "https://cdn.example/b.jpg".to_string();
    let data = dataset("detect", "heic", vec![a, b]);
    let mut downloaded = DownloadedImages::new();
    downloaded.insert(image_download_key("train", "Frame_98.jpg"), vec![1]);
    downloaded.insert(image_download_key("train", "Frame_98__abcd1234.jpg"), vec![2]);
    let files = PascalVocConverter::new().convert(&data, &downloaded);
    assert_eq!(bytes_at(&files, "train/Frame_98.jpg"), Some(vec![1]));
    assert_eq!(bytes_at(&files, "train/Frame_98__abcd1234.jpg"), Some(vec![2]));
    assert!(has(&files, "train/Frame_98.xml"));
    assert!(has(&files, "train/Frame_98__abcd1234.xml"));
    assert!(matches!(
        files.iter().find(|f| f.path == "train/Frame_98__abcd1234.xml").map(|f| &f.content),
        Some(FileContent::VocXml { image: 1 })
    ));
}

#[test]
fn yolo_writes_class_files_and_label_paths() {
    let data = dataset("detect", "cat", vec![entry("img1.jpg", None, "train")]);
    let mut downloaded = DownloadedImages::new();
    downloaded.insert(image_download_key("train", "img1.jpg"), vec![7]);
    let files = YoloConverter::new().convert(&data, &downloaded);
    assert_eq!(
        bytes_at(&files, "data.yaml"),
        Some(b"path: .\ntrain: train/images\nval: valid/images\ntest: test/images\nnc: 1\nnames:\n  0: cat\n".to_vec())
    );
    assert_eq!(bytes_at(&files, "classes.txt"), Some(b"cat".to_vec()));
    assert!(matches!(
        files.iter().find(|f| f.path == "train/labels/img1.txt").map(|f| &f.content),
        Some(FileContent::Labels { image: 0 })
    ));
    assert_eq!(bytes_at(&files, "train/images/img1.jpg"), Some(vec![7]));
    assert_eq!(files.len(), 4);
}

#[test]
fn yolo_pose_yaml_has_keypoint_shape() {
    let mut data = dataset("pose", "person", vec![]);
    data.metadata.class_names.push(("2".to_string(), "dog".to_string()));
    data.metadata.kpt_shape = Some(vec![17, 3]);
    let files = YoloConverter::new().convert(&data, &DownloadedImages::new());
    assert_eq!(
        bytes_at(&files, "data.yaml"),
        Some(
            b"path: .\ntrain: train/images\nval: valid/images\ntest: test/images\nnc: 3\nnames:\n  0: person\n  1: class_1\n  2: dog\nkpt_shape: [17, 3]\n"
                .to_vec()
        )
    );
    assert_eq!(bytes_at(&files, "classes.txt"), Some(b"person\nclass_1\ndog".to_vec()));
}

#[test]
fn darknet_is_flat() {
    let data = dataset("detect", "cat", vec![entry("a.b.jpg", None, "valid")]);
    let mut downloaded = DownloadedImages::new();
    downloaded.insert(image_download_key("valid", "a.b.jpg"), vec![3]);
    let files = YoloConverter::new_darknet().convert(&data, &downloaded);
    assert_eq!(bytes_at(&files, "_darknet.labels"), Some(b"cat".to_vec()));
    assert!(has(&files, "valid/a.b.txt"));
    assert_eq!(bytes_at(&files, "valid/a.b.jpg"), Some(vec![3]));
    assert!(!has(&files, "data.yaml"));
}

#[test]
fn classification_files_images_by_class() {
    let mut a = entry("a.jpg", None, "train");
    a.classifications = vec![0];
    let mut b = entry("b.jpg", None, "train");
    b.classifications = vec![4, 0];
    let c = entry("c.jpg", None, "train");
    let data = dataset("classify", "cat", vec![a, b, c]);
    let mut downloaded = DownloadedImages::new();
    downloaded.insert(image_download_key("train", "a.jpg"), vec![1]);
    downloaded.insert(image_download_key("train", "b.jpg"), vec![2]);
    downloaded.insert(image_download_key("train", "c.jpg"), vec![3]);
    for files in [
        PascalVocConverter::new().convert(&data, &downloaded),
        convert_plan(Format::Yolo, &data, &downloaded),
    ] {
        assert_eq!(bytes_at(&files, "train/cat/a.jpg"), Some(vec![1]));
        assert_eq!(bytes_at(&files, "train/class_4/b.jpg"), Some(vec![2]));
        assert!(!files.iter().any(|f| f.path.ends_with("c.jpg")));
        assert!(!files.iter().any(|f| f.path.ends_with(".xml") || f.path.ends_with(".txt") && f.path != "classes.txt"));
    }
}

#[test]
fn empty_test_split_leaves_no_test_artifacts() {
    let data = dataset("detect", "cat", vec![entry("a.jpg", None, "train"), entry("b.jpg", None, "val")]);
    let mut downloaded = DownloadedImages::new();
    downloaded.insert(image_download_key("train", "a.jpg"), vec![1]);
    for fmt in [Format::Yolo, Format::YoloDarknet, Format::Coco, Format::PascalVoc, Format::CreateMl] {
        let files = convert_plan(fmt, &data, &downloaded);
        assert!(!files.iter().any(|f| f.path.starts_with("test/") || f.path == "test.json"));
        assert!(files.iter().any(|f| f.path.starts_with("train")));
    }
}

#[test]
fn missing_downloads_are_left_out() {
    let data = dataset("detect", "cat", vec![entry("a.jpg", None, "test")]);
    let files = CocoConverter::new().convert(&data, &DownloadedImages::new());
    assert_eq!(files.len(), 1);
    assert_eq!(files[0].path, "test/_annotations.coco.json");
}

#[test]
fn get_converter_returns_known_formats() {
    assert!(get_converter("yolo").is_some());
    assert!(get_converter("YOLO").is_some());
    assert!(get_converter("coco").is_some());
    assert!(get_converter("pascal_voc").is_some());
    assert!(get_converter("voc").is_some());
    assert!(get_converter("createml").is_some());
    assert!(get_converter("yolo_darknet").is_some());
}

#[test]
fn get_converter_returns_none_for_unknown() {
    assert!(get_converter("unknown_format").is_none());
    assert!(get_converter("").is_none());
    assert!(get_converter("xml").is_none());
}

#[test]
fn get_converter_picks_the_named_format() {
    let data = dataset("detect", "cat", vec![]);
    let dl = DownloadedImages::new();
    let files = get_converter("Yolo_Darknet").unwrap().convert(&data, &dl);
    assert_eq!(files.len(), 1);
    assert_eq!(files[0].path, "_darknet.labels");
}
