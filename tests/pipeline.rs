use ndjson_converter::{
    all_downloads_failed, clamp_pixel_box, download_targets, image_download_key, reports_zip_progress, DownloadedImages, ImageEntry,
    PixelBox,
};

fn entry(file: &str, split: &str, url: &str) -> ImageEntry {
    ImageEntry {
        record_type: "image".to_string(),
        file: file.to_string(),
        output_file: None,
        url: url.to_string(),
        width: 10,
        height: 10,
        split: split.to_string(),
        annotations: None,
        classifications: Vec::new(),
    }
}

#[test]
fn only_records_with_urls_are_fetched() {
    let mut renamed = entry("a.jpg", "train", "https://x/b");
    renamed.output_file = Some("a__1.jpg".to_string());
    let targets = download_targets(&[entry("a.jpg", "val", "https://x/a"), entry("c.jpg", "train", ""), renamed]);
    assert_eq!(targets.len(), 2);
    assert_eq!(targets[0].key, "5:valid:a.jpg");
    assert_eq!(targets[0].url, "https://x/a");
    assert_eq!(targets[1].key, image_download_key("train", "a__1.jpg"));
    assert_eq!(targets[1].name, "a__1.jpg");
}

#[test]
fn run_fails_only_when_every_attempt_failed() {
    assert!(all_downloads_failed(true, 3, 0));
    assert!(!all_downloads_failed(true, 3, 1));
    assert!(!all_downloads_failed(true, 0, 0));
    assert!(!all_downloads_failed(false, 3, 0));
}

#[test]
fn zip_progress_every_fiftieth_and_last() {
    assert!(reports_zip_progress(0, 120));
    assert!(!reports_zip_progress(1, 120));
    assert!(reports_zip_progress(50, 120));
    assert!(reports_zip_progress(119, 120));
    assert!(!reports_zip_progress(118, 120));
}

#[test]
fn later_downloads_replace_earlier_ones() {
    let mut d = DownloadedImages::new();
    d.insert("k".to_string(), vec![1]);
    d.insert("k".to_string(), vec![2]);
    assert_eq!(d.get("k"), Some(&vec![2]));
    assert_eq!(d.get("other"), None);
}

#[test]
fn pixel_boxes_are_clamped_into_the_image() {
    let b = clamp_pixel_box(-3, 10, 700, 480, 640, 480);
    assert_eq!((b.xmin, b.ymin, b.xmax, b.ymax), (0, 10, 640, 480));
    let c = clamp_pixel_box(650, -1, 20, 500, 640, 480);
    assert_eq!((c.xmin, c.ymin, c.xmax, c.ymax), (640, 0, 20, 480));
    let d = clamp_pixel_box(224, 144, 352, 240, 640, 480);
    assert_eq!(d, PixelBox { xmin: 224, ymin: 144, xmax: 352, ymax: 240 });
}
