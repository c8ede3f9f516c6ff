//! The decisions of a conversion run that sit between its I/O steps.
use crate::model::{download_key, image_download_key, ImageEntry};
use vstd::prelude::*;
use vstd::string::*;

verus! {

/// Concurrent downloads allowed at once.
pub const MAX_DOWNLOAD_CONCURRENCY: usize = 20;

/// Largest image body, in bytes, that a download may store.
pub const MAX_DOWNLOAD_BYTES: usize = 52428800;

/// One image to fetch.
pub struct DownloadTarget {
    /// The key the bytes are stored under.
    pub key: String,
    pub url: String,
    /// The record's effective file name, reported with progress.
    pub name: String,
}

pub open spec fn has_url(e: ImageEntry) -> bool {
    e.url@.len() > 0
}

/// The images to fetch: every record with a URL, in input order, keyed by its normalized
/// split and effective file name.
pub fn download_targets(images: &[ImageEntry]) -> (r: Vec<DownloadTarget>)
    ensures
        r@.len() == images@.filter(|e: ImageEntry| has_url(e)).len(),
        forall|k: int|
            0 <= k < r@.len() ==> {
                let e = images@.filter(|e: ImageEntry| has_url(e))[k];
                &&& (#[trigger] r@[k]).key@ == download_key(e.split@, e.effective_name())
                &&& r@[k].url@ == e.url@
                &&& r@[k].name@ == e.effective_name()
            },
{
    let mut r: Vec<DownloadTarget> = Vec::new();
    let mut i: usize = 0;
    while i < images.len()
        invariant
            i <= images@.len(),
            r@.len() == images@.subrange(0, i as int).filter(|e: ImageEntry| has_url(e)).len(),
            forall|k: int|
                0 <= k < r@.len() ==> {
                    let e = images@.subrange(0, i as int).filter(|e: ImageEntry| has_url(e))[k];
                    &&& (#[trigger] r@[k]).key@ == download_key(e.split@, e.effective_name())
                    &&& r@[k].url@ == e.url@
                    &&& r@[k].name@ == e.effective_name()
                },
        decreases images@.len() - i,
    {
        let e = &images[i];
        let ghost before = images@.subrange(0, i as int).filter(|e: ImageEntry| has_url(e));
        proof {
            assert(images@.subrange(0, i + 1).drop_last() =~= images@.subrange(0, i as int));
            reveal(Seq::filter);
        }
        if !e.url.as_str().is_empty() {
            let name = e.effective_file_name();
            r.push(DownloadTarget {
                key: image_download_key(e.split.as_str(), name),
                url: e.url.clone(),
                name: String::from_str(name),
            });
            assert(images@.subrange(0, i + 1).filter(|e: ImageEntry| has_url(e)) == before.push(*e));
        }
        i = i + 1;
    }
    assert(images@.subrange(0, images@.len() as int) =~= images@);
    r
}

/// A run that asked for images fails when downloads were attempted and none stored bytes.
pub fn all_downloads_failed(include_images: bool, attempted: u32, stored: usize) -> (r: bool)
    ensures
        r == (include_images && attempted > 0 && stored == 0),
{
    include_images && attempted > 0 && stored == 0
}

/// Whether writing the `idx`-th of `count` archive entries is reported: every fiftieth
/// entry, and the last one.
pub fn reports_zip_progress(idx: usize, count: usize) -> (r: bool)
    ensures
        r == (idx % 50 == 0 || idx + 1 == count),
{
    idx % 50 == 0 || (count > 0 && idx == count - 1)
}

} // verus!
