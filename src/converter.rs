//! The conversion engine: for each target format, the archive's file layout. Image payloads
//! and class-list artifacts are produced here; annotation bodies whose numbers are
//! fractional are named by the image or split they describe and rendered by the caller.
use crate::classes::{
    class_label, class_label_of, class_list_spec, class_map, get_class_list,
    get_class_names, lemma_class_list_exact, pair_views, ClassNames,
};
use crate::downloads::{copy_bytes, DownloadedImages};
use crate::model::{download_key, image_download_key, ImageEntry, NDJSONData, SplitName};
use crate::naming::{last_dot, last_dot_exec};
use crate::text::{chars_of, decimal, push_char, push_decimal, push_signed_decimal, signed_decimal, str_eq};
use vstd::prelude::*;
use vstd::string::*;
use vstd::utf8::encode_utf8;

verus! {

/// The target formats.
#[derive(Clone, Copy, PartialEq, Eq, Structural)]
pub enum Format {
    Yolo,
    YoloDarknet,
    Coco,
    PascalVoc,
    CreateMl,
}

/// What an output file holds.
pub enum FileContent {
    /// These bytes.
    Data(Vec<u8>),
    /// The YOLO label lines of the image at this index of the dataset's records.
    Labels { image: usize },
    /// The Pascal VOC XML document of the image at this index of the dataset's records.
    VocXml { image: usize },
    /// The COCO JSON document of a split.
    CocoJson { split: SplitName },
    /// The CreateML JSON document of a split.
    CreateMlJson { split: SplitName },
}

pub ghost enum ContentView {
    Data(Seq<u8>),
    Labels(int),
    VocXml(int),
    CocoJson(SplitName),
    CreateMlJson(SplitName),
}

/// One file of the output archive.
pub struct PlannedFile {
    pub path: String,
    pub content: FileContent,
}

pub ghost struct FileView {
    pub path: Seq<char>,
    pub content: ContentView,
}

impl View for PlannedFile {
    type V = FileView;

    open spec fn view(&self) -> FileView {
        FileView {
            path: self.path@,
            content: match self.content {
                FileContent::Data(b) => ContentView::Data(b@),
                FileContent::Labels { image } => ContentView::Labels(image as int),
                FileContent::VocXml { image } => ContentView::VocXml(image as int),
                FileContent::CocoJson { split } => ContentView::CocoJson(split),
                FileContent::CreateMlJson { split } => ContentView::CreateMlJson(split),
            },
        }
    }
}

pub open spec fn files_view(s: Seq<PlannedFile>) -> Seq<FileView> {
    s.map_values(|f: PlannedFile| f@)
}

/// A file name without its last extension.
pub open spec fn stem_of(name: Seq<char>) -> Seq<char> {
    match last_dot(name) {
        Some(d) => name.subrange(0, d),
        None => name,
    }
}

/// The image file at `path`, when bytes were downloaded under `key`.
pub open spec fn data_entry(path: Seq<char>, key: Seq<char>, dl: Map<Seq<char>, Seq<u8>>) -> Seq<FileView> {
    if dl.contains_key(key) {
        seq![FileView { path, content: ContentView::Data(dl[key]) }]
    } else {
        seq![]
    }
}

/// A classified image filed under its first class: `{split}/{class name}/{file}`.
pub open spec fn class_folder_entry(
    s: SplitName,
    e: ImageEntry,
    dl: Map<Seq<char>, Seq<u8>>,
    names: Map<int, Seq<char>>,
) -> Seq<FileView> {
    if e.classifications@.len() > 0 {
        data_entry(
            s.dir() + seq!['/'] + class_label(names, e.classifications@[0] as int) + seq!['/']
                + e.effective_name(),
            download_key(s.dir(), e.effective_name()),
            dl,
        )
    } else {
        seq![]
    }
}

/// The files that one record of split `s`, at index `i`, contributes.
pub open spec fn image_files(
    fmt: Format,
    classify: bool,
    s: SplitName,
    e: ImageEntry,
    i: int,
    dl: Map<Seq<char>, Seq<u8>>,
    names: Map<int, Seq<char>>,
) -> Seq<FileView> {
    let eff = e.effective_name();
    let key = download_key(s.dir(), eff);
    match fmt {
        Format::Yolo => if classify {
            class_folder_entry(s, e, dl, names)
        } else {
            seq![FileView { path: s.dir() + "/labels/"@ + stem_of(eff) + ".txt"@, content: ContentView::Labels(i) }]
                + data_entry(s.dir() + "/images/"@ + eff, key, dl)
        },
        Format::YoloDarknet => if classify {
            class_folder_entry(s, e, dl, names)
        } else {
            seq![FileView { path: s.dir() + seq!['/'] + stem_of(eff) + ".txt"@, content: ContentView::Labels(i) }]
                + data_entry(s.dir() + seq!['/'] + eff, key, dl)
        },
        Format::PascalVoc => if classify {
            class_folder_entry(s, e, dl, names)
        } else {
            seq![FileView { path: s.dir() + seq!['/'] + stem_of(eff) + ".xml"@, content: ContentView::VocXml(i) }]
                + data_entry(s.dir() + seq!['/'] + eff, key, dl)
        },
        Format::Coco | Format::CreateMl => data_entry(s.dir() + seq!['/'] + eff, key, dl),
    }
}

/// The files of the records of split `s` among the first `n` records, in input order.
pub open spec fn split_files(
    fmt: Format,
    classify: bool,
    s: SplitName,
    imgs: Seq<ImageEntry>,
    n: int,
    dl: Map<Seq<char>, Seq<u8>>,
    names: Map<int, Seq<char>>,
) -> Seq<FileView>
    decreases n,
{
    if n <= 0 {
        seq![]
    } else {
        split_files(fmt, classify, s, imgs, n - 1, dl, names) + if s.holds(imgs[n - 1]) {
            image_files(fmt, classify, s, imgs[n - 1], n - 1, dl, names)
        } else {
            seq![]
        }
    }
}

/// The files of split `s`: none when it has no records; else its records' files, with the
/// COCO document after them or the CreateML document before them.
pub open spec fn split_block(
    fmt: Format,
    classify: bool,
    s: SplitName,
    imgs: Seq<ImageEntry>,
    dl: Map<Seq<char>, Seq<u8>>,
    names: Map<int, Seq<char>>,
) -> Seq<FileView> {
    let files = split_files(fmt, classify, s, imgs, imgs.len() as int, dl, names);
    if imgs.filter(s.pred()).len() == 0 {
        seq![]
    } else {
        match fmt {
            Format::Coco => files + seq![FileView { path: s.dir() + "/_annotations.coco.json"@, content: ContentView::CocoJson(s) }],
            Format::CreateMl => seq![FileView { path: s.dir() + ".json"@, content: ContentView::CreateMlJson(s) }] + files,
            _ => files,
        }
    }
}

/// The class names joined by newlines.
pub open spec fn joined(list: Seq<Seq<char>>) -> Seq<char>
    decreases list.len(),
{
    if list.len() == 0 {
        seq![]
    } else if list.len() == 1 {
        list[0]
    } else {
        joined(list.drop_last()) + seq!['\n'] + list.last()
    }
}

/// The `names:` lines of `data.yaml` for the first `n` classes.
pub open spec fn yaml_names(list: Seq<Seq<char>>, n: int) -> Seq<char>
    decreases n,
{
    if n <= 0 {
        seq![]
    } else {
        yaml_names(list, n - 1) + "  "@ + decimal((n - 1) as nat) + ": "@ + list[n - 1] + seq!['\n']
    }
}

/// The `kpt_shape` line of `data.yaml`: present for pose datasets with a keypoint shape.
pub open spec fn yaml_kpt(task: Seq<char>, kpt: Option<Seq<i32>>) -> Seq<char> {
    match kpt {
        Some(k) if task == "pose"@ && k.len() > 0 => "kpt_shape: ["@ + signed_decimal(k[0] as int) + ", "@
            + signed_decimal(if k.len() > 1 { k[1] as int } else { 2 }) + "]\n"@,
        _ => seq![],
    }
}

/// The YOLO dataset description.
pub open spec fn data_yaml(list: Seq<Seq<char>>, task: Seq<char>, kpt: Option<Seq<i32>>) -> Seq<char> {
    "path: .\ntrain: train/images\nval: valid/images\ntest: test/images\nnc: "@ + decimal(list.len())
        + "\nnames:\n"@ + yaml_names(list, list.len() as int) + yaml_kpt(task, kpt)
}

/// The class-list files at the archive's root.
pub open spec fn class_artifacts(fmt: Format, list: Seq<Seq<char>>, task: Seq<char>, kpt: Option<Seq<i32>>) -> Seq<FileView> {
    match fmt {
        Format::Yolo => seq![
            FileView { path: "data.yaml"@, content: ContentView::Data(encode_utf8(data_yaml(list, task, kpt))) },
            FileView { path: "classes.txt"@, content: ContentView::Data(encode_utf8(joined(list))) },
        ],
        Format::YoloDarknet => seq![
            FileView { path: "_darknet.labels"@, content: ContentView::Data(encode_utf8(joined(list))) },
        ],
        _ => seq![],
    }
}

pub open spec fn kpt_view(k: Option<Vec<i32>>) -> Option<Seq<i32>> {
    match k {
        Some(v) => Some(v@),
        None => None,
    }
}

/// The whole output of converting `data` to `fmt`: the class-list files, then the train,
/// valid and test splits.
pub open spec fn plan_spec(fmt: Format, data: NDJSONData, dl: Map<Seq<char>, Seq<u8>>) -> Seq<FileView> {
    let names = class_map(pair_views(data.metadata.class_names@));
    let task = data.metadata.task@;
    let classify = task == "classify"@;
    let imgs = data.images@;
    class_artifacts(fmt, class_list_spec(names), task, kpt_view(data.metadata.kpt_shape))
        + split_block(fmt, classify, SplitName::Train, imgs, dl, names)
        + split_block(fmt, classify, SplitName::Valid, imgs, dl, names)
        + split_block(fmt, classify, SplitName::Test, imgs, dl, names)
}

fn push_file(out: &mut Vec<PlannedFile>, f: PlannedFile)
    ensures
        files_view(final(out)@) == files_view(old(out)@).push(f@),
{
    let ghost before = out@;
    out.push(f);
    assert(files_view(out@) =~= files_view(before).push(f@));
}

fn push_data(out: &mut Vec<PlannedFile>, path: String, key: &str, dl: &DownloadedImages)
    ensures
        files_view(final(out)@) == files_view(old(out)@) + data_entry(path@, key@, dl@),
{
    match dl.get(key) {
        Some(b) => {
            let ghost p = path@;
            push_file(out, PlannedFile { path, content: FileContent::Data(copy_bytes(b)) });
            assert(files_view(out@) =~= files_view(old(out)@) + data_entry(p, key@, dl@));
        },
        None => {
            assert(files_view(out@) =~= files_view(old(out)@) + data_entry(path@, key@, dl@));
        },
    }
}

fn stem_exec(name: &str) -> (r: String)
    ensures
        r@ == stem_of(name@),
{
    let cs = chars_of(name);
    let end = match last_dot_exec(cs.as_slice()) {
        Some(d) => d,
        None => cs.len(),
    };
    proof {
        crate::naming::lemma_last_dot_bounds(name@);
    }
    let mut r = String::new();
    let mut i: usize = 0;
    while i < end
        invariant
            end <= cs@.len(),
            cs@ == name@,
            i <= end,
            r@ == cs@.subrange(0, i as int),
        decreases end - i,
    {
        push_char(&mut r, cs[i]);
        assert(r@ =~= cs@.subrange(0, i + 1));
        i = i + 1;
    }
    assert(r@ =~= stem_of(name@));
    r
}

fn push_class_folder(out: &mut Vec<PlannedFile>, s: SplitName, e: &ImageEntry, dl: &DownloadedImages, names: &ClassNames)
    ensures
        files_view(final(out)@) == files_view(old(out)@) + class_folder_entry(s, *e, dl@, names.map()),
{
    if e.classifications.len() > 0 {
        let eff = e.effective_file_name();
        let mut path = String::from_str(s.dir_name());
        push_char(&mut path, '/');
        let label = class_label_of(names, e.classifications[0]);
        path.append(label.as_str());
        push_char(&mut path, '/');
        path.append(eff);
        let key = image_download_key(s.dir_name(), eff);
        proof {
            crate::model::lemma_dir_normalized(s);
        }
        assert(path@ =~= s.dir() + seq!['/'] + class_label(names.map(), e.classifications@[0] as int) + seq!['/'] + e.effective_name());
        push_data(out, path, key.as_str(), dl);
    } else {
        assert(files_view(out@) =~= files_view(old(out)@) + class_folder_entry(s, *e, dl@, names.map()));
    }
}

fn push_image_files(
    out: &mut Vec<PlannedFile>,
    fmt: Format,
    classify: bool,
    s: SplitName,
    e: &ImageEntry,
    i: usize,
    dl: &DownloadedImages,
    names: &ClassNames,
)
    ensures
        files_view(final(out)@) == files_view(old(out)@) + image_files(fmt, classify, s, *e, i as int, dl@, names.map()),
{
    let eff = e.effective_file_name();
    let key = image_download_key(s.dir_name(), eff);
    proof {
        crate::model::lemma_dir_normalized(s);
    }
    let ghost start = files_view(out@);
    let per_image_class_folder = classify && (fmt == Format::Yolo || fmt == Format::YoloDarknet || fmt == Format::PascalVoc);
    if per_image_class_folder {
        push_class_folder(out, s, e, dl, names);
        return;
    }
    match fmt {
        Format::Coco | Format::CreateMl => {
            let mut path = String::from_str(s.dir_name());
            push_char(&mut path, '/');
            path.append(eff);
            assert(path@ =~= s.dir() + seq!['/'] + e.effective_name());
            push_data(out, path, key.as_str(), dl);
        },
        _ => {
            let stem = stem_exec(eff);
            let mut label_path = String::from_str(s.dir_name());
            let mut image_path = String::from_str(s.dir_name());
            let content;
            match fmt {
                Format::Yolo => {
                    label_path.append("/labels/");
                    label_path.append(stem.as_str());
                    label_path.append(".txt");
                    image_path.append("/images/");
                    content = FileContent::Labels { image: i };
                },
                Format::YoloDarknet => {
                    push_char(&mut label_path, '/');
                    label_path.append(stem.as_str());
                    label_path.append(".txt");
                    push_char(&mut image_path, '/');
                    content = FileContent::Labels { image: i };
                },
                _ => {
                    push_char(&mut label_path, '/');
                    label_path.append(stem.as_str());
                    label_path.append(".xml");
                    push_char(&mut image_path, '/');
                    content = FileContent::VocXml { image: i };
                },
            }
            image_path.append(eff);
            let ghost lp = label_path@;
            let ghost ip = image_path@;
            let ghost eff_v = e.effective_name();
            let ghost d = s.dir();
            assert(fmt == Format::Yolo ==> lp =~= d + "/labels/"@ + stem_of(eff_v) + ".txt"@ && ip =~= d + "/images/"@ + eff_v);
            assert(fmt == Format::YoloDarknet ==> lp =~= d + seq!['/'] + stem_of(eff_v) + ".txt"@ && ip =~= d + seq!['/'] + eff_v);
            assert(fmt == Format::PascalVoc ==> lp =~= d + seq!['/'] + stem_of(eff_v) + ".xml"@ && ip =~= d + seq!['/'] + eff_v);
            push_file(out, PlannedFile { path: label_path, content });
            push_data(out, image_path, key.as_str(), dl);
            assert(files_view(out@) =~= start + image_files(fmt, classify, s, *e, i as int, dl@, names.map()));
        },
    }
}

fn push_split(
    out: &mut Vec<PlannedFile>,
    fmt: Format,
    classify: bool,
    s: SplitName,
    data: &NDJSONData,
    dl: &DownloadedImages,
    names: &ClassNames,
)
    ensures
        files_view(final(out)@) == files_view(old(out)@) + split_block(fmt, classify, s, data.images@, dl@, names.map()),
{
    let ghost start = files_view(out@);
    let members = data.images_of(s);
    if members.len() == 0 {
        assert(files_view(out@) =~= start + split_block(fmt, classify, s, data.images@, dl@, names.map()));
        return;
    }
    if fmt == Format::CreateMl {
        let mut path = String::from_str(s.dir_name());
        path.append(".json");
        push_file(out, PlannedFile { path, content: FileContent::CreateMlJson { split: s } });
    }
    let ghost mid = files_view(out@);
    let mut i: usize = 0;
    while i < data.images.len()
        invariant
            i <= data.images@.len(),
            files_view(out@) == mid + split_files(fmt, classify, s, data.images@, i as int, dl@, names.map()),
        decreases data.images@.len() - i,
    {
        let e = &data.images[i];
        if s.contains(e) {
            push_image_files(out, fmt, classify, s, e, i, dl, names);
        }
        assert(files_view(out@) =~= mid + split_files(fmt, classify, s, data.images@, i + 1, dl@, names.map()));
        i = i + 1;
    }
    if fmt == Format::Coco {
        let mut path = String::from_str(s.dir_name());
        path.append("/_annotations.coco.json");
        push_file(out, PlannedFile { path, content: FileContent::CocoJson { split: s } });
    }
    assert(files_view(out@) =~= start + split_block(fmt, classify, s, data.images@, dl@, names.map()));
}

fn joined_exec(list: &Vec<String>) -> (r: String)
    ensures
        r@ == joined(list@.map_values(|s: String| s@)),
{
    let ghost lv = list@.map_values(|s: String| s@);
    let mut r = String::new();
    let mut i: usize = 0;
    while i < list.len()
        invariant
            i <= list@.len(),
            lv == list@.map_values(|s: String| s@),
            r@ == joined(lv.subrange(0, i as int)),
        decreases list@.len() - i,
    {
        assert(lv.subrange(0, i + 1).drop_last() =~= lv.subrange(0, i as int));
        if i > 0 {
            push_char(&mut r, '\n');
        }
        r.append(list[i].as_str());
        i = i + 1;
    }
    assert(lv.subrange(0, list@.len() as int) =~= lv);
    r
}

fn data_yaml_exec(list: &Vec<String>, task: &str, kpt: &Option<Vec<i32>>) -> (r: String)
    ensures
        r@ == data_yaml(list@.map_values(|s: String| s@), task@, kpt_view(*kpt)),
{
    let ghost lv = list@.map_values(|s: String| s@);
    let mut r = String::from_str("path: .\ntrain: train/images\nval: valid/images\ntest: test/images\nnc: ");
    push_decimal(&mut r, list.len() as u128);
    r.append("\nnames:\n");
    let ghost head = r@;
    let mut i: usize = 0;
    while i < list.len()
        invariant
            i <= list@.len(),
            lv == list@.map_values(|s: String| s@),
            r@ == head + yaml_names(lv, i as int),
        decreases list@.len() - i,
    {
        r.append("  ");
        push_decimal(&mut r, i as u128);
        r.append(": ");
        r.append(list[i].as_str());
        push_char(&mut r, '\n');
        assert(r@ =~= head + yaml_names(lv, i + 1));
        i = i + 1;
    }
    match kpt {
        Some(k) if str_eq(task, "pose") && k.len() > 0 => {
            r.append("kpt_shape: [");
            push_signed_decimal(&mut r, k[0] as i64);
            r.append(", ");
            push_signed_decimal(&mut r, if k.len() > 1 { k[1] as i64 } else { 2 });
            r.append("]\n");
        },
        _ => {},
    }
    assert(r@ =~= data_yaml(lv, task@, kpt_view(*kpt)));
    r
}

fn text_bytes(s: &String) -> (r: Vec<u8>)
    ensures
        r@ == encode_utf8(s@),
{
    s.as_str().as_bytes_vec()
}

/// Lays out the archive that converting `data` to `fmt` produces.
pub fn convert_plan(fmt: Format, data: &NDJSONData, downloaded: &DownloadedImages) -> (r: Vec<PlannedFile>)
    ensures
        files_view(r@) == plan_spec(fmt, *data, downloaded@),
{
    let names = get_class_names(data);
    let classify = str_eq(data.metadata.task.as_str(), "classify");
    let mut out: Vec<PlannedFile> = Vec::new();
    let ghost m = class_map(pair_views(data.metadata.class_names@));
    if fmt == Format::Yolo || fmt == Format::YoloDarknet {
        let list = get_class_list(data);
        proof {
            let lv = list@.map_values(|s: String| s@);
            assert forall|i: int| 0 <= i < lv.len() implies #[trigger] lv[i] == class_label(m, i) by {
                assert(lv[i] == list@[i]@);
            }
            lemma_class_list_exact(m, lv);
        }
        let joined_names = joined_exec(&list);
        if fmt == Format::Yolo {
            let yaml = data_yaml_exec(&list, data.metadata.task.as_str(), &data.metadata.kpt_shape);
            push_file(&mut out, PlannedFile { path: String::from_str("data.yaml"), content: FileContent::Data(text_bytes(&yaml)) });
            push_file(&mut out, PlannedFile { path: String::from_str("classes.txt"), content: FileContent::Data(text_bytes(&joined_names)) });
        } else {
            push_file(&mut out, PlannedFile { path: String::from_str("_darknet.labels"), content: FileContent::Data(text_bytes(&joined_names)) });
        }
    }
    let ghost artifacts = files_view(out@);
    assert(artifacts =~= class_artifacts(fmt, class_list_spec(m), data.metadata.task@, kpt_view(data.metadata.kpt_shape)));
    push_split(&mut out, fmt, classify, SplitName::Train, data, downloaded, &names);
    push_split(&mut out, fmt, classify, SplitName::Valid, data, downloaded, &names);
    push_split(&mut out, fmt, classify, SplitName::Test, data, downloaded, &names);
    assert(files_view(out@) =~= plan_spec(fmt, *data, downloaded@));
    out
}

/// A path that belongs to split `s`: a file under its directory, or its own document.
pub open spec fn mentions_split(p: Seq<char>, s: SplitName) -> bool {
    ||| p.len() > s.dir().len() && p.subrange(0, (s.dir().len() + 1) as int) == s.dir() + seq!['/']
    ||| p == s.dir() + ".json"@
}

/// Every path of a split's records lies under the split's directory.
proof fn lemma_split_files_under(
    fmt: Format,
    classify: bool,
    s: SplitName,
    imgs: Seq<ImageEntry>,
    n: int,
    dl: Map<Seq<char>, Seq<u8>>,
    names: Map<int, Seq<char>>,
)
    ensures
        forall|k: int|
            0 <= k < split_files(fmt, classify, s, imgs, n, dl, names).len() ==> {
                let p = #[trigger] split_files(fmt, classify, s, imgs, n, dl, names)[k].path;
                p.len() > s.dir().len() && p.subrange(0, (s.dir().len() + 1) as int) == s.dir() + seq!['/']
            },
    decreases n,
{
    reveal_strlit("/labels/");
    reveal_strlit("/images/");
    if n > 0 {
        lemma_split_files_under(fmt, classify, s, imgs, n - 1, dl, names);
        let prev = split_files(fmt, classify, s, imgs, n - 1, dl, names);
        let add = if s.holds(imgs[n - 1]) { image_files(fmt, classify, s, imgs[n - 1], n - 1, dl, names) } else { seq![] };
        let d = s.dir();
        assert forall|k: int| 0 <= k < add.len() implies {
            let p = #[trigger] add[k].path;
            p.len() > d.len() && p.subrange(0, (d.len() + 1) as int) == d + seq!['/']
        } by {
            let p = add[k].path;
            assert(p.subrange(0, (d.len() + 1) as int) =~= d + seq!['/']);
        }
        assert forall|k: int| 0 <= k < split_files(fmt, classify, s, imgs, n, dl, names).len() implies {
            let p = #[trigger] split_files(fmt, classify, s, imgs, n, dl, names)[k].path;
            p.len() > d.len() && p.subrange(0, (d.len() + 1) as int) == d + seq!['/']
        } by {
            if k >= prev.len() {
                assert(split_files(fmt, classify, s, imgs, n, dl, names)[k] == add[k - prev.len()]);
            } else {
                assert(split_files(fmt, classify, s, imgs, n, dl, names)[k] == prev[k]);
            }
        }
    }
}

proof fn lemma_head(p: Seq<char>, a: Seq<char>)
    requires
        a.len() >= 4,
        p.len() > a.len() && p.subrange(0, (a.len() + 1) as int) == a + seq!['/'] || p == a + ".json"@,
    ensures
        p[0] == a[0],
        p[1] == a[1],
{
    if p.len() > a.len() && p.subrange(0, (a.len() + 1) as int) == a + seq!['/'] {
        let q = p.subrange(0, (a.len() + 1) as int);
        assert(q[0] == p[0] && q[1] == p[1]);
        assert(q[0] == a[0] && q[1] == a[1]);
    } else {
        assert((a + ".json"@)[0] == a[0]);
        assert((a + ".json"@)[1] == a[1]);
    }
}

proof fn lemma_dirs_apart(p: Seq<char>, s: SplitName, t: SplitName)
    requires
        s != t,
        p.len() > t.dir().len() && p.subrange(0, (t.dir().len() + 1) as int) == t.dir() + seq!['/'] || p == t.dir() + ".json"@,
    ensures
        !mentions_split(p, s),
{
    reveal_strlit("train");
    reveal_strlit("valid");
    reveal_strlit("test");
    lemma_head(p, t.dir());
    if mentions_split(p, s) {
        lemma_head(p, s.dir());
    }
}

/// A split without records leaves nothing in the output: no file under its directory and
/// no document of its own, in any format.
pub proof fn lemma_empty_split_leaves_nothing(fmt: Format, data: NDJSONData, dl: Map<Seq<char>, Seq<u8>>, s: SplitName)
    requires
        data.images@.filter(s.pred()).len() == 0,
    ensures
        forall|k: int| 0 <= k < plan_spec(fmt, data, dl).len() ==> !mentions_split(#[trigger] plan_spec(fmt, data, dl)[k].path, s),
{
    reveal_strlit("data.yaml");
    reveal_strlit("classes.txt");
    reveal_strlit("_darknet.labels");
    reveal_strlit("train");
    reveal_strlit("valid");
    reveal_strlit("test");
    reveal_strlit("/_annotations.coco.json");
    reveal_strlit(".json");
    let names = class_map(pair_views(data.metadata.class_names@));
    let task = data.metadata.task@;
    let classify = task == "classify"@;
    let imgs = data.images@;
    let arts = class_artifacts(fmt, class_list_spec(names), task, kpt_view(data.metadata.kpt_shape));
    let plan = plan_spec(fmt, data, dl);
    let bt = split_block(fmt, classify, SplitName::Train, imgs, dl, names);
    let bv = split_block(fmt, classify, SplitName::Valid, imgs, dl, names);
    let bs = split_block(fmt, classify, SplitName::Test, imgs, dl, names);
    assert(plan == arts + bt + bv + bs);
    assert forall|k: int| 0 <= k < plan.len() implies !mentions_split(#[trigger] plan[k].path, s) by {
        let p = plan[k].path;
        if k < arts.len() {
            assert(p[0] == 'd' || p[0] == 'c' || p[0] == '_');
            if mentions_split(p, s) {
                lemma_head(p, s.dir());
            }
        } else {
            let (t, blk, off) = if k < arts.len() + bt.len() {
                (SplitName::Train, bt, arts.len() as int)
            } else if k < arts.len() + bt.len() + bv.len() {
                (SplitName::Valid, bv, (arts.len() + bt.len()) as int)
            } else {
                (SplitName::Test, bs, (arts.len() + bt.len() + bv.len()) as int)
            };
            assert(plan[k] == blk[k - off]);
            assert(t != s) by {
                if t == s {
                    assert(blk.len() == 0);
                }
            }
            let files = split_files(fmt, classify, t, imgs, imgs.len() as int, dl, names);
            lemma_split_files_under(fmt, classify, t, imgs, imgs.len() as int, dl, names);
            let d = t.dir();
            if fmt == Format::Coco && k - off == files.len() {
                assert(p =~= d + "/_annotations.coco.json"@);
                assert(p.subrange(0, (d.len() + 1) as int) =~= d + seq!['/']);
            } else if fmt == Format::Coco {
                assert(blk[k - off] == files[k - off]);
            } else if fmt == Format::CreateMl && k - off == 0 {
                assert(p == d + ".json"@);
            } else if fmt == Format::CreateMl {
                assert(blk[k - off] == files[k - off - 1]);
            } else {
                assert(blk[k - off] == files[k - off]);
            }
            lemma_dirs_apart(p, s, t);
        }
    }
}

/// The YOLO and YOLO-Darknet converter.
pub struct YoloConverter {
    pub darknet: bool,
}

impl YoloConverter {
    pub fn new() -> (r: YoloConverter)
        ensures
            !r.darknet,
    {
        YoloConverter { darknet: false }
    }

    /// The variant that writes the flat Darknet layout.
    pub fn new_darknet() -> (r: YoloConverter)
        ensures
            r.darknet,
    {
        YoloConverter { darknet: true }
    }

    pub open spec fn format(&self) -> Format {
        if self.darknet {
            Format::YoloDarknet
        } else {
            Format::Yolo
        }
    }

    pub fn convert(&self, data: &NDJSONData, downloaded: &DownloadedImages) -> (r: Vec<PlannedFile>)
        ensures
            files_view(r@) == plan_spec(self.format(), *data, downloaded@),
    {
        convert_plan(if self.darknet { Format::YoloDarknet } else { Format::Yolo }, data, downloaded)
    }
}

/// The COCO converter.
pub struct CocoConverter;

impl CocoConverter {
    pub fn new() -> (r: CocoConverter) {
        CocoConverter
    }

    pub fn convert(&self, data: &NDJSONData, downloaded: &DownloadedImages) -> (r: Vec<PlannedFile>)
        ensures
            files_view(r@) == plan_spec(Format::Coco, *data, downloaded@),
    {
        convert_plan(Format::Coco, data, downloaded)
    }
}

/// The Pascal VOC converter.
pub struct PascalVocConverter;

impl PascalVocConverter {
    pub fn new() -> (r: PascalVocConverter) {
        PascalVocConverter
    }

    pub fn convert(&self, data: &NDJSONData, downloaded: &DownloadedImages) -> (r: Vec<PlannedFile>)
        ensures
            files_view(r@) == plan_spec(Format::PascalVoc, *data, downloaded@),
    {
        convert_plan(Format::PascalVoc, data, downloaded)
    }
}

/// The CreateML converter.
pub struct CreateMlConverter;

impl CreateMlConverter {
    pub fn new() -> (r: CreateMlConverter) {
        CreateMlConverter
    }

    pub fn convert(&self, data: &NDJSONData, downloaded: &DownloadedImages) -> (r: Vec<PlannedFile>)
        ensures
            files_view(r@) == plan_spec(Format::CreateMl, *data, downloaded@),
    {
        convert_plan(Format::CreateMl, data, downloaded)
    }
}

/// One converter of each target format, chosen by name.
pub enum Converter {
    Yolo(YoloConverter),
    Coco(CocoConverter),
    PascalVoc(PascalVocConverter),
    CreateMl(CreateMlConverter),
}

impl Converter {
    pub open spec fn format(&self) -> Format {
        match self {
            Converter::Yolo(y) => y.format(),
            Converter::Coco(_) => Format::Coco,
            Converter::PascalVoc(_) => Format::PascalVoc,
            Converter::CreateMl(_) => Format::CreateMl,
        }
    }

    pub fn convert(&self, data: &NDJSONData, downloaded: &DownloadedImages) -> (r: Vec<PlannedFile>)
        ensures
            files_view(r@) == plan_spec(self.format(), *data, downloaded@),
    {
        match self {
            Converter::Yolo(y) => y.convert(data, downloaded),
            Converter::Coco(c) => c.convert(data, downloaded),
            Converter::PascalVoc(p) => p.convert(data, downloaded),
            Converter::CreateMl(c) => c.convert(data, downloaded),
        }
    }
}

/// The format that a lower-case format name selects.
pub open spec fn format_named(n: Seq<char>) -> Option<Format> {
    if n == "yolo"@ {
        Some(Format::Yolo)
    } else if n == "yolo_darknet"@ {
        Some(Format::YoloDarknet)
    } else if n == "coco"@ {
        Some(Format::Coco)
    } else if n == "pascal_voc"@ || n == "voc"@ {
        Some(Format::PascalVoc)
    } else if n == "createml"@ {
        Some(Format::CreateMl)
    } else {
        None
    }
}

/// What `str::to_lowercase` makes of a text.
pub uninterp spec fn lowercase_of(s: Seq<char>) -> Seq<char>;

/// Relies on `str::to_lowercase`: the result depends on the characters alone.
#[verifier::external_body]
fn lowercase(s: &str) -> (r: String)
    ensures
        r@ == lowercase_of(s@),
{
    s.to_lowercase()
}

/// The format that a lower-case format name selects.
pub fn format_for_lowercase_name(name: &str) -> (r: Option<Format>)
    ensures
        r == format_named(name@),
{
    if str_eq(name, "yolo") {
        Some(Format::Yolo)
    } else if str_eq(name, "yolo_darknet") {
        Some(Format::YoloDarknet)
    } else if str_eq(name, "coco") {
        Some(Format::Coco)
    } else if str_eq(name, "pascal_voc") || str_eq(name, "voc") {
        Some(Format::PascalVoc)
    } else if str_eq(name, "createml") {
        Some(Format::CreateMl)
    } else {
        None
    }
}

/// The converter of a format.
pub fn converter_for(fmt: Format) -> (r: Converter)
    ensures
        r.format() == fmt,
{
    match fmt {
        Format::Yolo => Converter::Yolo(YoloConverter::new()),
        Format::YoloDarknet => Converter::Yolo(YoloConverter::new_darknet()),
        Format::Coco => Converter::Coco(CocoConverter::new()),
        Format::PascalVoc => Converter::PascalVoc(PascalVocConverter::new()),
        Format::CreateMl => Converter::CreateMl(CreateMlConverter::new()),
    }
}

/// The converter that a format name selects, ignoring case; `None` for an unknown name.
pub fn get_converter(format: &str) -> (r: Option<Converter>)
    ensures
        r matches Some(c) ==> format_named(lowercase_of(format@)) == Some(c.format()),
        r is None ==> format_named(lowercase_of(format@)) is None,
{
    let lower = lowercase(format);
    match format_for_lowercase_name(lower.as_str()) {
        Some(f) => Some(converter_for(f)),
        None => None,
    }
}

} // verus!
