//! Conversion of NDJSON image-dataset descriptions into standard annotation formats: the
//! dataset model, NDJSON framing, collision-free output names, download rules and the
//! per-format archive layout.
pub mod archive;
pub mod classes;
pub mod converter;
pub mod downloads;
pub mod model;
pub mod naming;
pub mod network;
pub mod parser;
pub mod pipeline;
pub mod pixel;
pub mod text;

pub use archive::{is_ndjson_size_allowed, is_windows_reserved_segment, normalize_zip_path, MAX_NDJSON_BYTES};
pub use classes::{get_class_list, get_class_names, parse_class_id, ClassNames};
pub use converter::{
    convert_plan, get_converter, CocoConverter, Converter, CreateMlConverter, FileContent, Format,
    PascalVocConverter, PlannedFile, YoloConverter,
};
pub use downloads::{ConvertResult, DownloadResult, DownloadedImages, ProgressEvent};
pub use model::{
    default_split, default_task, image_download_key, image_entry_download_key, normalize_split, DatasetMetadata, ImageEntry,
    NDJSONData, SplitName,
};
pub use naming::{
    file_name_with_suffix, next_unique_file_name, prepare_images_with_unique_output_names,
    short_stable_hash, NameSet,
};
pub use network::{
    check_download_url, check_parsed_url, check_resolved_addresses, is_forbidden_ip, IpAddress,
    ParsedUrl, UrlCheck, UrlError, UrlHost,
};
pub use parser::{assemble_records, ndjson_lines, ParseError, Record};
pub use pixel::{clamp_pixel_box, PixelBox};
pub use pipeline::{
    all_downloads_failed, download_targets, reports_zip_progress, DownloadTarget,
    MAX_DOWNLOAD_BYTES, MAX_DOWNLOAD_CONCURRENCY,
};
