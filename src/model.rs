//! The dataset model: metadata, image records, splits and download keys.
use crate::text::{decimal, push_char, push_decimal, str_eq};
use vstd::prelude::*;
use vstd::string::*;
use vstd::utf8::encode_utf8;

verus! {

/// The annotation payload of an image record, carried through unchanged.
#[verifier::external_type_specification]
#[verifier::external_body]
pub struct ExJsonValue(serde_json::Value);

pub assume_specification[ <serde_json::Value as Clone>::clone ](v: &serde_json::Value) -> (r: serde_json::Value)
    ensures
        r == *v,
;

/// The name a split is known by once "val" is read as "valid".
pub open spec fn normalized_split(s: Seq<char>) -> Seq<char> {
    if s == "val"@ || s == "valid"@ {
        "valid"@
    } else {
        s
    }
}

/// Reads the split "val" as its synonym "valid"; other names are kept.
pub fn normalize_split(split: &str) -> (r: &str)
    ensures
        r@ == normalized_split(split@),
{
    if str_eq(split, "val") || str_eq(split, "valid") {
        "valid"
    } else {
        split
    }
}

/// The key of a downloaded image: the byte length of the normalized split, the split and
/// the file name, separated by colons, so that no two (split, file) pairs share a key.
pub open spec fn download_key(split: Seq<char>, file: Seq<char>) -> Seq<char> {
    let s = normalized_split(split);
    decimal(encode_utf8(s).len()) + seq![':'] + s + seq![':'] + file
}

pub fn image_download_key(split: &str, file: &str) -> (r: String)
    ensures
        r@ == download_key(split@, file@),
{
    let s = normalize_split(split);
    let mut r = String::new();
    let n = s.as_bytes().len();
    push_decimal(&mut r, n as u128);
    push_char(&mut r, ':');
    r.append(s);
    push_char(&mut r, ':');
    r.append(file);
    assert(r@ =~= download_key(split@, file@));
    r
}

/// The key a record's downloaded bytes are stored under: its split and effective file name.
pub fn image_entry_download_key(image: &ImageEntry) -> (r: String)
    ensures
        r@ == download_key(image.split@, image.effective_name()),
{
    image_download_key(image.split.as_str(), image.effective_file_name())
}

/// The task kind that a dataset without one is read as.
pub fn default_task() -> (r: String)
    ensures
        r@ == "detect"@,
{
    String::from_str("detect")
}

/// The split that an image record without one belongs to.
pub fn default_split() -> (r: String)
    ensures
        r@ == "train"@,
{
    String::from_str("train")
}

/// Dataset-level metadata.
pub struct DatasetMetadata {
    pub record_type: String,
    pub task: String,
    pub name: String,
    pub description: String,
    pub bytes: u64,
    pub url: String,
    /// Class names keyed by their class id written as text, in the order they were read.
    pub class_names: Vec<(String, String)>,
    pub kpt_shape: Option<Vec<i32>>,
    pub version: i32,
}

/// One image of the dataset.
pub struct ImageEntry {
    pub record_type: String,
    pub file: String,
    /// The collision-free name assigned to the image; when absent, `file` is used.
    pub output_file: Option<String>,
    pub url: String,
    pub width: i32,
    pub height: i32,
    pub split: String,
    /// The raw annotation payload; its geometry is read where the output is rendered.
    pub annotations: Option<serde_json::Value>,
    /// The class ids of a classification record, decoded from its annotations when read.
    pub classifications: Vec<i32>,
}

impl ImageEntry {
    /// The name the image is written and looked up under.
    pub open spec fn effective_name(&self) -> Seq<char> {
        match self.output_file {
            Some(o) => o@,
            None => self.file@,
        }
    }

    pub fn effective_file_name(&self) -> (r: &str)
        ensures
            r@ == self.effective_name(),
    {
        match &self.output_file {
            Some(o) => o.as_str(),
            None => self.file.as_str(),
        }
    }

    /// A copy of the record with its output name set to `output_file`.
    pub fn with_output_file(&self, output_file: Option<String>) -> (r: ImageEntry)
        ensures
            r.record_type@ == self.record_type@,
            r.file@ == self.file@,
            r.output_file == output_file,
            r.url@ == self.url@,
            r.width == self.width,
            r.height == self.height,
            r.split@ == self.split@,
            r.annotations == self.annotations,
            r.classifications@ == self.classifications@,
    {
        ImageEntry {
            record_type: self.record_type.clone(),
            file: self.file.clone(),
            output_file,
            url: self.url.clone(),
            width: self.width,
            height: self.height,
            split: self.split.clone(),
            annotations: match &self.annotations {
                Some(v) => Some(v.clone()),
                None => None,
            },
            classifications: self.get_classifications(),
        }
    }

    /// The class ids of a classification record; the first one is the image's label.
    pub fn get_classifications(&self) -> (r: Vec<i32>)
        ensures
            r@ == self.classifications@,
    {
        let mut r: Vec<i32> = Vec::new();
        let mut i: usize = 0;
        while i < self.classifications.len()
            invariant
                i <= self.classifications@.len(),
                r@ == self.classifications@.subrange(0, i as int),
            decreases self.classifications@.len() - i,
        {
            r.push(self.classifications[i]);
            i = i + 1;
        }
        assert(r@ =~= self.classifications@);
        r
    }
}

/// A parsed dataset: its metadata and its image records in input order.
pub struct NDJSONData {
    pub metadata: DatasetMetadata,
    pub images: Vec<ImageEntry>,
}

pub open spec fn in_train(e: ImageEntry) -> bool {
    e.split@ == "train"@
}

pub open spec fn in_valid(e: ImageEntry) -> bool {
    e.split@ == "valid"@ || e.split@ == "val"@
}

pub open spec fn in_test(e: ImageEntry) -> bool {
    e.split@ == "test"@
}

/// Which split a loop over the records selects.
#[derive(Clone, Copy, PartialEq, Eq, Structural)]
pub enum SplitName {
    Train,
    Valid,
    Test,
}

impl SplitName {
    pub open spec fn holds(self, e: ImageEntry) -> bool {
        match self {
            SplitName::Train => in_train(e),
            SplitName::Valid => in_valid(e),
            SplitName::Test => in_test(e),
        }
    }

    pub open spec fn pred(self) -> spec_fn(ImageEntry) -> bool {
        |e: ImageEntry| self.holds(e)
    }

    /// The directory name of the split in every output format.
    pub open spec fn dir(self) -> Seq<char> {
        match self {
            SplitName::Train => "train"@,
            SplitName::Valid => "valid"@,
            SplitName::Test => "test"@,
        }
    }

    pub fn dir_name(&self) -> (r: &'static str)
        ensures
            r@ == self.dir(),
    {
        match self {
            SplitName::Train => "train",
            SplitName::Valid => "valid",
            SplitName::Test => "test",
        }
    }

    pub fn contains(&self, e: &ImageEntry) -> (r: bool)
        ensures
            r == self.holds(*e),
    {
        match self {
            SplitName::Train => str_eq(e.split.as_str(), "train"),
            SplitName::Valid => str_eq(e.split.as_str(), "valid") || str_eq(e.split.as_str(), "val"),
            SplitName::Test => str_eq(e.split.as_str(), "test"),
        }
    }
}

/// The records that a sequence of references points to.
pub open spec fn derefs(s: Seq<&ImageEntry>) -> Seq<ImageEntry> {
    s.map_values(|x: &ImageEntry| *x)
}

impl NDJSONData {
    /// The records of `split`, in input order.
    pub fn images_of(&self, split: SplitName) -> (r: Vec<&ImageEntry>)
        ensures
            derefs(r@) == self.images@.filter(split.pred()),
    {
        let mut r: Vec<&ImageEntry> = Vec::new();
        let mut i: usize = 0;
        while i < self.images.len()
            invariant
                i <= self.images@.len(),
                derefs(r@) == self.images@.subrange(0, i as int).filter(split.pred()),
            decreases self.images@.len() - i,
        {
            let e = &self.images[i];
            proof {
                let s = self.images@.subrange(0, i + 1);
                assert(s.drop_last() =~= self.images@.subrange(0, i as int));
                reveal_with_fuel(Seq::filter, 1);
            }
            let ghost before = r@;
            if split.contains(e) {
                r.push(e);
                assert(derefs(r@) =~= derefs(before).push(*e));
            }
            i = i + 1;
        }
        assert(self.images@.subrange(0, self.images@.len() as int) =~= self.images@);
        r
    }

    /// The records of the training split.
    pub fn train_images(&self) -> (r: Vec<&ImageEntry>)
        ensures
            derefs(r@) == self.images@.filter(SplitName::Train.pred()),
    {
        self.images_of(SplitName::Train)
    }

    /// The records of the validation split, whether marked "valid" or "val".
    pub fn valid_images(&self) -> (r: Vec<&ImageEntry>)
        ensures
            derefs(r@) == self.images@.filter(SplitName::Valid.pred()),
    {
        self.images_of(SplitName::Valid)
    }

    /// The records of the test split.
    pub fn test_images(&self) -> (r: Vec<&ImageEntry>)
        ensures
            derefs(r@) == self.images@.filter(SplitName::Test.pred()),
    {
        self.images_of(SplitName::Test)
    }
}

/// A split's directory name is already normalized.
pub proof fn lemma_dir_normalized(s: SplitName)
    ensures
        normalized_split(s.dir()) == s.dir(),
{
    reveal_strlit("val");
    reveal_strlit("valid");
    reveal_strlit("train");
    reveal_strlit("test");
    assert("train"@.len() != "val"@.len());
    assert("train"@[0] != "valid"@[0]);
    assert("test"@.len() != "val"@.len());
    assert("test"@.len() != "valid"@.len());
}

/// The three splits never share a record: every record marked "val" or "valid" is a
/// validation record, every validation record is marked one of the two, no record is
/// selected by two splits, and together they hold no more records than the dataset.
pub proof fn lemma_splits_disjoint(images: Seq<ImageEntry>)
    ensures
        forall|e: ImageEntry|
            images.contains(e) && (e.split@ == "val"@ || e.split@ == "valid"@) ==> #[trigger] images.filter(
                SplitName::Valid.pred(),
            ).contains(e),
        forall|e: ImageEntry| #[trigger]
            images.filter(SplitName::Valid.pred()).contains(e) ==> images.contains(e) && (e.split@
                == "val"@ || e.split@ == "valid"@),
        forall|e: ImageEntry|
            !(#[trigger] images.filter(SplitName::Train.pred()).contains(e) && images.filter(
                SplitName::Valid.pred(),
            ).contains(e)),
        forall|e: ImageEntry|
            !(#[trigger] images.filter(SplitName::Train.pred()).contains(e) && images.filter(
                SplitName::Test.pred(),
            ).contains(e)),
        forall|e: ImageEntry|
            !(#[trigger] images.filter(SplitName::Valid.pred()).contains(e) && images.filter(
                SplitName::Test.pred(),
            ).contains(e)),
        images.filter(SplitName::Train.pred()).len() + images.filter(SplitName::Valid.pred()).len()
            + images.filter(SplitName::Test.pred()).len() <= images.len(),
    decreases images.len(),
{
    reveal_strlit("val");
    reveal_strlit("valid");
    reveal_strlit("train");
    reveal_strlit("test");
    broadcast use vstd::seq_lib::group_filter_ensures;
    assert forall|e: ImageEntry|
        images.contains(e) && (e.split@ == "val"@ || e.split@ == "valid"@) implies #[trigger] images.filter(
            SplitName::Valid.pred(),
        ).contains(e) by {
        let i = choose|i: int| 0 <= i < images.len() && images[i] == e;
        images.lemma_filter_contains(SplitName::Valid.pred(), i);
    }
    assert forall|e: ImageEntry| #[trigger]
        images.filter(SplitName::Valid.pred()).contains(e) implies images.contains(e) && (e.split@
            == "val"@ || e.split@ == "valid"@) by {
        let i = choose|i: int| 0 <= i < images.filter(SplitName::Valid.pred()).len() && images.filter(SplitName::Valid.pred())[i] == e;
        images.lemma_filter_pred(SplitName::Valid.pred(), i);
        images.lemma_filter_contains_rev(SplitName::Valid.pred(), e);
    }
    if images.len() > 0 {
        lemma_splits_disjoint(images.drop_last());
        reveal(Seq::filter);
        let x = images.last();
        assert("train"@.len() != "test"@.len());
        assert("train"@.len() != "val"@.len());
        assert("test"@.len() != "val"@.len());
        assert("train"@[0] != "valid"@[0]);
        assert("test"@.len() != "valid"@.len());
        assert(!(SplitName::Train.holds(x) && SplitName::Valid.holds(x)));
        assert(!(SplitName::Train.holds(x) && SplitName::Test.holds(x)));
        assert(!(SplitName::Valid.holds(x) && SplitName::Test.holds(x)));
    }
    assert forall|e: ImageEntry|
        !(#[trigger] images.filter(SplitName::Train.pred()).contains(e) && images.filter(
            SplitName::Valid.pred(),
        ).contains(e)) by {
        if images.filter(SplitName::Train.pred()).contains(e) && images.filter(SplitName::Valid.pred()).contains(e) {
            let i = choose|i: int| 0 <= i < images.filter(SplitName::Train.pred()).len() && images.filter(SplitName::Train.pred())[i] == e;
            let j = choose|j: int| 0 <= j < images.filter(SplitName::Valid.pred()).len() && images.filter(SplitName::Valid.pred())[j] == e;
            images.lemma_filter_pred(SplitName::Train.pred(), i);
            images.lemma_filter_pred(SplitName::Valid.pred(), j);
            assert(e.split@ == "train"@);
            assert("train"@[0] != "valid"@[0]);
            assert("train"@.len() != "val"@.len());
        }
    }
    assert forall|e: ImageEntry|
        !(#[trigger] images.filter(SplitName::Train.pred()).contains(e) && images.filter(
            SplitName::Test.pred(),
        ).contains(e)) by {
        if images.filter(SplitName::Train.pred()).contains(e) && images.filter(SplitName::Test.pred()).contains(e) {
            let i = choose|i: int| 0 <= i < images.filter(SplitName::Train.pred()).len() && images.filter(SplitName::Train.pred())[i] == e;
            let j = choose|j: int| 0 <= j < images.filter(SplitName::Test.pred()).len() && images.filter(SplitName::Test.pred())[j] == e;
            images.lemma_filter_pred(SplitName::Train.pred(), i);
            images.lemma_filter_pred(SplitName::Test.pred(), j);
            assert(e.split@ == "train"@);
            assert("train"@.len() != "test"@.len());
        }
    }
    assert forall|e: ImageEntry|
        !(#[trigger] images.filter(SplitName::Valid.pred()).contains(e) && images.filter(
            SplitName::Test.pred(),
        ).contains(e)) by {
        if images.filter(SplitName::Valid.pred()).contains(e) && images.filter(SplitName::Test.pred()).contains(e) {
            let i = choose|i: int| 0 <= i < images.filter(SplitName::Valid.pred()).len() && images.filter(SplitName::Valid.pred())[i] == e;
            let j = choose|j: int| 0 <= j < images.filter(SplitName::Test.pred()).len() && images.filter(SplitName::Test.pred())[j] == e;
            images.lemma_filter_pred(SplitName::Valid.pred(), i);
            images.lemma_filter_pred(SplitName::Test.pred(), j);
            assert(e.split@ == "test"@);
            assert("test"@.len() != "val"@.len());
            assert("test"@.len() != "valid"@.len());
        }
    }
}

} // verus!
