use ndjson_converter::{
    file_name_with_suffix, next_unique_file_name, prepare_images_with_unique_output_names,
    short_stable_hash, ImageEntry, NameSet,
};

fn entry(file: &str, split: &str, url: &str, width: i32) -> ImageEntry {
    ImageEntry {
        record_type: "image".to_string(),
        file: file.to_string(),
        output_file: None,
        url: url.to_string(),
        width,
        height: width * 3 / 4,
        split: split.to_string(),
        annotations: None,
        classifications: Vec::new(),
    }
}

#[test]
fn stable_hash_known_values() {
    assert_eq!(short_stable_hash(""), "84222325");
    assert_eq!(short_stable_hash("a"), "8601ec8c");
    assert_eq!(short_stable_hash("foobar"), "f73967e8");
    assert_eq!(short_stable_hash("foobar"), short_stable_hash("foobar"));
    assert_eq!(short_stable_hash("https://c.example/img1.jpg").len(), 8);
}

#[test]
fn suffix_goes_before_the_extension() {
    assert_eq!(file_name_with_suffix("img1.jpg", "abcd1234"), "img1__abcd1234.jpg");
    assert_eq!(file_name_with_suffix("a.b.png", "x"), "a.b__x.png");
    assert_eq!(file_name_with_suffix("README", "x"), "README__x");
    assert_eq!(file_name_with_suffix(".bashrc", "x"), ".bashrc__x");
    assert_eq!(file_name_with_suffix("a.", "x"), "a.__x");
}

#[test]
fn unique_name_counts_up_when_the_hash_name_is_taken() {
    let hash = short_stable_hash("src");
    let mut used = NameSet::new();
    let first = next_unique_file_name("f.jpg", "src", &mut used);
    assert_eq!(first, format!("f__{}.jpg", hash));
    let second = next_unique_file_name("f.jpg", "src", &mut used);
    assert_eq!(second, format!("f__{}__2.jpg", hash));
    let third = next_unique_file_name("f.jpg", "src", &mut used);
    assert_eq!(third, format!("f__{}__3.jpg", hash));
    assert!(used.contains(&first) && used.contains(&second) && used.contains(&third));
}

#[test]
fn prepare_images_keeps_first_and_renames_same_split_duplicates() {
    let images = vec![
        entry("img1.jpg", "train", "https://a.example/img1.jpg", 640),
        entry("img1.jpg", "val", "https://b.example/img1.jpg", 320),
        entry("img1.jpg", "train", "https://c.example/img1.jpg", 800),
        entry("img2.jpg", "test", "https://c.example/img2.jpg", 640),
    ];
    let prepared = prepare_images_with_unique_output_names(&images);

    assert_eq!(prepared.len(), 4);
    assert_eq!(prepared[0].file, "img1.jpg");
    assert_eq!(prepared[0].effective_file_name(), "img1.jpg");
    assert_eq!(prepared[1].split, "val");
    assert_eq!(prepared[1].effective_file_name(), "img1.jpg");
    assert_eq!(
        prepared[2].effective_file_name(),
        file_name_with_suffix("img1.jpg", &short_stable_hash("https://c.example/img1.jpg"))
    );
    assert_eq!(prepared[3].effective_file_name(), "img2.jpg");
}

#[test]
fn prepare_images_uses_counter_when_hash_suffix_collides() {
    let images = vec![
        entry("img1.jpg", "train", "https://a.example/img1.jpg", 640),
        entry("img1.jpg", "train", "https://b.example/img1.jpg", 640),
        entry("img1.jpg", "train", "https://b.example/img1.jpg", 640),
    ];
    let prepared = prepare_images_with_unique_output_names(&images);

    assert_eq!(prepared.len(), 3);
    let hash = short_stable_hash("https://b.example/img1.jpg");
    assert_eq!(prepared[0].effective_file_name(), "img1.jpg");
    assert_eq!(prepared[1].effective_file_name(), file_name_with_suffix("img1.jpg", &hash));
    assert_eq!(
        prepared[2].effective_file_name(),
        file_name_with_suffix("img1.jpg", &format!("{}__2", hash))
    );
}

#[test]
fn resolver_runs_are_identical() {
    let images = vec![
        entry("a.jpg", "train", "", 640),
        entry("a.jpg", "train", "", 640),
        entry("a.jpg", "valid", "u", 640),
        entry("a.jpg", "val", "v", 640),
    ];
    let first = prepare_images_with_unique_output_names(&images);
    let second = prepare_images_with_unique_output_names(&images);
    for (x, y) in first.iter().zip(second.iter()) {
        assert_eq!(x.effective_file_name(), y.effective_file_name());
    }
    // An empty URL hashes the file name instead.
    assert_eq!(first[1].effective_file_name(), file_name_with_suffix("a.jpg", &short_stable_hash("a.jpg")));
    // "val" and "valid" are one split.
    assert_eq!(first[2].effective_file_name(), "a.jpg");
    assert_eq!(first[3].effective_file_name(), file_name_with_suffix("a.jpg", &short_stable_hash("v")));
}

#[test]
fn first_occurrence_yields_to_an_earlier_claim() {
    let hash = short_stable_hash("x");
    let renamed = file_name_with_suffix("a.jpg", &hash);
    let images = vec![
        entry("a.jpg", "train", "", 1),
        entry("a.jpg", "train", "x", 1),
        entry(&renamed, "train", "y", 1),
    ];
    let prepared = prepare_images_with_unique_output_names(&images);
    assert_eq!(prepared[1].effective_file_name(), renamed);
    assert_ne!(prepared[2].effective_file_name(), renamed);
    assert_eq!(prepared[2].effective_file_name(), file_name_with_suffix(&renamed, &short_stable_hash("y")));
}
