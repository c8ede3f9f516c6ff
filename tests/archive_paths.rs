use ndjson_converter::{is_ndjson_size_allowed, is_windows_reserved_segment, normalize_zip_path, MAX_NDJSON_BYTES};

#[test]
fn normalize_zip_path_accepts_simple_paths() {
    assert_eq!(normalize_zip_path("images/foo.jpg").unwrap(), "images/foo.jpg");
    assert_eq!(normalize_zip_path("labels\\foo.txt").unwrap(), "labels/foo.txt");
}

#[test]
fn normalize_zip_path_rejects_parent_dirs() {
    assert!(normalize_zip_path("../evil.txt").is_err());
    assert!(normalize_zip_path("images/../../evil.txt").is_err());
}

#[test]
fn normalize_zip_path_rejects_absolute_paths() {
    assert!(normalize_zip_path("/etc/passwd").is_err());
}

#[test]
fn normalize_zip_path_rejects_windows_prefix() {
    assert!(normalize_zip_path("C:\\evil.txt").is_err());
}

#[test]
fn normalize_zip_path_rejects_windows_reserved_names() {
    assert!(normalize_zip_path("CON.txt").is_err());
    assert!(normalize_zip_path("train/NUL.jpg").is_err());
    assert!(normalize_zip_path("labels/lpt1").is_err());
}

#[test]
fn ndjson_size_limit_allows_max_size() {
    assert!(is_ndjson_size_allowed(MAX_NDJSON_BYTES));
}

#[test]
fn ndjson_size_limit_rejects_oversize() {
    assert!(!is_ndjson_size_allowed(MAX_NDJSON_BYTES + 1));
}

#[test]
fn zip_path_error_messages() {
    assert_eq!(normalize_zip_path("").unwrap_err(), "ZIP entry path is empty");
    assert_eq!(normalize_zip_path("//server/x").unwrap_err(), "Invalid ZIP entry path: //server/x");
    assert_eq!(normalize_zip_path("a\\..\\b").unwrap_err(), "Invalid ZIP entry path: a\\..\\b");
}

#[test]
fn zip_path_accepts_current_dir_and_dotted_names() {
    assert_eq!(normalize_zip_path("./a/./b.txt").unwrap(), "./a/./b.txt");
    assert_eq!(normalize_zip_path("a//b").unwrap(), "a//b");
    assert_eq!(normalize_zip_path("..a/b..").unwrap(), "..a/b..");
    assert_eq!(normalize_zip_path("train/CONSOLE.jpg").unwrap(), "train/CONSOLE.jpg");
    assert_eq!(normalize_zip_path("1:x").unwrap(), "1:x");
}

#[test]
fn reserved_segments() {
    assert!(is_windows_reserved_segment("con"));
    assert!(is_windows_reserved_segment("Aux.tar.gz"));
    assert!(is_windows_reserved_segment("COM9"));
    assert!(is_windows_reserved_segment("lpt3. . "));
    assert!(is_windows_reserved_segment("nul..."));
    assert!(!is_windows_reserved_segment("COM0"));
    assert!(!is_windows_reserved_segment("COM10"));
    assert!(!is_windows_reserved_segment("CONS"));
    assert!(!is_windows_reserved_segment(""));
    assert!(!is_windows_reserved_segment(". ."));
    assert!(!is_windows_reserved_segment(".con"));
}
