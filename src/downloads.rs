//! Downloaded image payloads, keyed by (split, effective file name), and the download tally.
use crate::text::str_eq;
use vstd::prelude::*;
use vstd::string::*;

verus! {

/// The bytes that `entries` hold under each key, a later entry overriding an earlier one.
pub open spec fn payload_map(e: Seq<(Seq<char>, Seq<u8>)>) -> Map<Seq<char>, Seq<u8>>
    decreases e.len(),
{
    if e.len() == 0 {
        Map::empty()
    } else {
        payload_map(e.drop_last()).insert(e.last().0, e.last().1)
    }
}

/// Downloaded image bytes keyed by `image_download_key`.
pub struct DownloadedImages {
    entries: Vec<(String, Vec<u8>)>,
}

impl View for DownloadedImages {
    type V = Map<Seq<char>, Seq<u8>>;

    closed spec fn view(&self) -> Map<Seq<char>, Seq<u8>> {
        payload_map(self.entries@.map_values(|p: (String, Vec<u8>)| (p.0@, p.1@)))
    }
}

pub fn copy_bytes(v: &Vec<u8>) -> (r: Vec<u8>)
    ensures
        r@ == v@,
{
    let mut r: Vec<u8> = Vec::new();
    let mut i: usize = 0;
    while i < v.len()
        invariant
            i <= v@.len(),
            r@ == v@.subrange(0, i as int),
        decreases v@.len() - i,
    {
        r.push(v[i]);
        i = i + 1;
    }
    assert(r@ =~= v@);
    r
}

impl DownloadedImages {
    pub fn new() -> (r: DownloadedImages)
        ensures
            r@ == Map::<Seq<char>, Seq<u8>>::empty(),
    {
        DownloadedImages { entries: Vec::new() }
    }

    /// Stores `bytes` under `key`, replacing what was there.
    pub fn insert(&mut self, key: String, bytes: Vec<u8>)
        ensures
            final(self)@ == old(self)@.insert(key@, bytes@),
    {
        let ghost before = self.entries@;
        self.entries.push((key, bytes));
        assert(self.entries@.map_values(|p: (String, Vec<u8>)| (p.0@, p.1@)).drop_last() =~= before.map_values(
            |p: (String, Vec<u8>)| (p.0@, p.1@),
        ));
    }

    /// The bytes stored under `key`.
    pub fn get(&self, key: &str) -> (r: Option<&Vec<u8>>)
        ensures
            r matches Some(b) ==> self@.contains_key(key@) && self@[key@] == b@,
            r is None ==> !self@.contains_key(key@),
    {
        let ghost ev = self.entries@.map_values(|p: (String, Vec<u8>)| (p.0@, p.1@));
        let mut k: usize = self.entries.len();
        assert(ev.subrange(0, k as int) =~= ev);
        while k > 0
            invariant
                k <= self.entries@.len(),
                ev == self.entries@.map_values(|p: (String, Vec<u8>)| (p.0@, p.1@)),
                payload_map(ev.subrange(0, k as int)).contains_key(key@) == self@.contains_key(key@),
                payload_map(ev.subrange(0, k as int)).contains_key(key@) ==> payload_map(
                    ev.subrange(0, k as int),
                )[key@] == self@[key@],
            decreases k,
        {
            assert(ev.subrange(0, k as int).drop_last() =~= ev.subrange(0, k - 1));
            if str_eq(self.entries[k - 1].0.as_str(), key) {
                return Some(&self.entries[k - 1].1);
            }
            k = k - 1;
        }
        None
    }
}

/// What a batch of downloads produced.
pub struct DownloadResult {
    pub files: DownloadedImages,
    /// The number of records that had a URL and so were attempted.
    pub total: u32,
    /// The number of attempts that stored no bytes.
    pub failed: usize,
}

/// One progress notification of a conversion run.
pub struct ProgressEvent {
    pub phase: String,
    pub current: u32,
    pub total: u32,
    pub item: Option<String>,
}

/// The summary of a finished conversion run.
pub struct ConvertResult {
    pub zip_path: String,
    pub file_count: usize,
    pub image_count: usize,
    pub download_total: u32,
    pub failed_downloads: usize,
}

} // verus!
