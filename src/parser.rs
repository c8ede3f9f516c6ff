//! NDJSON framing: the input text cut into records, and the decoded records assembled into
//! a dataset.
use crate::model::{DatasetMetadata, ImageEntry, NDJSONData};
use crate::text::{chars_of, string_of};
use vstd::prelude::*;
use vstd::string::*;

verus! {

/// The error a JSON decoder reports, carried through unchanged.
#[verifier::external_type_specification]
#[verifier::external_body]
pub struct ExJsonError(serde_json::Error);

/// Why an NDJSON text could not be read as a dataset.
pub enum ParseError {
    /// A non-blank line is not a JSON record of the expected shape.
    JsonError(serde_json::Error),
    /// No record has the type "dataset".
    NoMetadata,
}

/// One decoded line of the input.
pub enum Record {
    Dataset(DatasetMetadata),
    Image(ImageEntry),
    /// A record of any other type, which is ignored.
    Other,
}

/// A Unicode white-space character, as `char::is_whitespace` defines it.
pub open spec fn is_ws(c: char) -> bool {
    ||| '\t' <= c && c <= '\r'
    ||| c == ' ' || c == '\u{85}' || c == '\u{a0}' || c == '\u{1680}'
    ||| '\u{2000}' <= c && c <= '\u{200a}'
    ||| c == '\u{2028}' || c == '\u{2029}' || c == '\u{202f}' || c == '\u{205f}' || c == '\u{3000}'
}

fn is_ws_exec(c: char) -> (r: bool)
    ensures
        r == is_ws(c),
{
    ('\t' <= c && c <= '\r') || c == ' ' || c == '\u{85}' || c == '\u{a0}' || c == '\u{1680}' || (
    '\u{2000}' <= c && c <= '\u{200a}') || c == '\u{2028}' || c == '\u{2029}' || c == '\u{202f}' || c
        == '\u{205f}' || c == '\u{3000}'
}

/// The text cut at each newline.
pub open spec fn split_lines(s: Seq<char>) -> Seq<Seq<char>>
    decreases s.len(),
{
    if s.len() == 0 {
        seq![seq![]]
    } else {
        let p = split_lines(s.drop_last());
        if s.last() == '\n' {
            p.push(seq![])
        } else {
            p.update(p.len() - 1, p.last().push(s.last()))
        }
    }
}

proof fn lemma_split_lines_nonempty(s: Seq<char>)
    ensures
        split_lines(s).len() >= 1,
    decreases s.len(),
{
    if s.len() > 0 {
        lemma_split_lines_nonempty(s.drop_last());
    }
}

pub open spec fn trim_end_ws(s: Seq<char>) -> Seq<char>
    decreases s.len(),
{
    if s.len() > 0 && is_ws(s.last()) {
        trim_end_ws(s.drop_last())
    } else {
        s
    }
}

pub open spec fn trim_start_ws(s: Seq<char>) -> Seq<char>
    decreases s.len(),
{
    if s.len() > 0 && is_ws(s[0]) {
        trim_start_ws(s.drop_first())
    } else {
        s
    }
}

/// A line without its leading and trailing white space.
pub open spec fn trimmed(s: Seq<char>) -> Seq<char> {
    trim_start_ws(trim_end_ws(s))
}

/// The records of an NDJSON text: its lines, trimmed, blank ones left out.
pub open spec fn record_lines(content: Seq<char>) -> Seq<Seq<char>> {
    split_lines(content).map_values(|l: Seq<char>| trimmed(l)).filter(|l: Seq<char>| l.len() > 0)
}

fn trim_chars(s: &Vec<char>) -> (r: Vec<char>)
    ensures
        r@ == trimmed(s@),
{
    let mut k: usize = s.len();
    assert(s@.subrange(0, k as int) =~= s@);
    while k > 0 && is_ws_exec(s[k - 1])
        invariant
            k <= s@.len(),
            trim_end_ws(s@.subrange(0, k as int)) == trim_end_ws(s@),
        decreases k,
    {
        assert(s@.subrange(0, k as int).drop_last() =~= s@.subrange(0, k - 1));
        k = k - 1;
    }
    let ghost t = s@.subrange(0, k as int);
    assert(trim_end_ws(s@) == t);
    let mut j: usize = 0;
    assert(t.subrange(0, k as int) =~= t);
    while j < k && is_ws_exec(s[j])
        invariant
            j <= k <= s@.len(),
            t == s@.subrange(0, k as int),
            trim_start_ws(t.subrange(j as int, k as int)) == trim_start_ws(t),
        decreases k - j,
    {
        assert(t.subrange(j as int, k as int).drop_first() =~= t.subrange(j + 1, k as int));
        j = j + 1;
    }
    let mut r: Vec<char> = Vec::new();
    let mut i: usize = j;
    while i < k
        invariant
            j <= i <= k <= s@.len(),
            r@ == s@.subrange(j as int, i as int),
        decreases k - i,
    {
        r.push(s[i]);
        i = i + 1;
    }
    assert(r@ =~= t.subrange(j as int, k as int));
    r
}

/// Cuts an NDJSON text into its records: its lines, trimmed, blank ones left out.
pub fn ndjson_lines(content: &str) -> (r: Vec<String>)
    ensures
        r@.map_values(|l: String| l@) == record_lines(content@),
{
    let cs = chars_of(content);
    let mut lines: Vec<Vec<char>> = Vec::new();
    let mut cur: Vec<char> = Vec::new();
    let mut i: usize = 0;
    while i < cs.len()
        invariant
            i <= cs@.len(),
            cs@ == content@,
            lines@.map_values(|l: Vec<char>| l@).push(cur@) == split_lines(cs@.subrange(0, i as int)),
        decreases cs@.len() - i,
    {
        let ghost pre = cs@.subrange(0, i as int);
        let ghost before = lines@.map_values(|l: Vec<char>| l@);
        assert(cs@.subrange(0, i + 1).drop_last() =~= pre);
        proof {
            lemma_split_lines_nonempty(pre);
        }
        if cs[i] == '\n' {
            let done = cur;
            cur = Vec::new();
            lines.push(done);
            assert(lines@.map_values(|l: Vec<char>| l@) =~= before.push(done@));
            assert(lines@.map_values(|l: Vec<char>| l@).push(cur@) =~= split_lines(cs@.subrange(0, i + 1)));
        } else {
            cur.push(cs[i]);
            assert(lines@.map_values(|l: Vec<char>| l@).push(cur@) =~= split_lines(cs@.subrange(0, i + 1)));
        }
        i = i + 1;
    }
    lines.push(cur);
    assert(cs@.subrange(0, cs@.len() as int) =~= cs@);
    let ghost all = lines@.map_values(|l: Vec<char>| l@);
    assert(all == split_lines(content@));
    let mut r: Vec<String> = Vec::new();
    let mut k: usize = 0;
    while k < lines.len()
        invariant
            k <= lines@.len(),
            all == lines@.map_values(|l: Vec<char>| l@),
            r@.map_values(|l: String| l@) == all.subrange(0, k as int).map_values(|l: Seq<char>| trimmed(l)).filter(
                |l: Seq<char>| l.len() > 0,
            ),
        decreases lines@.len() - k,
    {
        let t = trim_chars(&lines[k]);
        let ghost before = r@.map_values(|l: String| l@);
        let ghost m = all.subrange(0, k + 1).map_values(|l: Seq<char>| trimmed(l));
        assert(m.drop_last() =~= all.subrange(0, k as int).map_values(|l: Seq<char>| trimmed(l)));
        assert(m.last() == t@);
        reveal(Seq::filter);
        if t.len() > 0 {
            let line = string_of(t.as_slice());
            r.push(line);
            assert(r@.map_values(|l: String| l@) =~= before.push(t@));
        }
        k = k + 1;
    }
    assert(all.subrange(0, lines@.len() as int) =~= all);
    r
}

/// The image records among `rs`, in order.
pub open spec fn record_images(rs: Seq<Result<Record, serde_json::Error>>) -> Seq<ImageEntry>
    decreases rs.len(),
{
    if rs.len() == 0 {
        seq![]
    } else {
        record_images(rs.drop_last()) + match rs.last() {
            Ok(Record::Image(e)) => seq![e],
            _ => seq![],
        }
    }
}

/// The last dataset record among `rs`.
pub open spec fn last_metadata(rs: Seq<Result<Record, serde_json::Error>>) -> Option<DatasetMetadata>
    decreases rs.len(),
{
    if rs.len() == 0 {
        None
    } else {
        match rs.last() {
            Ok(Record::Dataset(m)) => Some(m),
            _ => last_metadata(rs.drop_last()),
        }
    }
}

/// Assembles decoded records into a dataset: the first record that failed to decode fails
/// the whole input; otherwise the last dataset record gives the metadata (none at all is an
/// error) and the image records, in order, give the images.
pub fn assemble_records(records: Vec<Result<Record, serde_json::Error>>) -> (r: Result<NDJSONData, ParseError>)
    ensures
        r matches Err(ParseError::JsonError(e)) ==> exists|i: int|
            0 <= i < records@.len() && records@[i] == Err::<Record, serde_json::Error>(e) && forall|j: int|
                0 <= j < i ==> (#[trigger] records@[j]) is Ok,
        (exists|i: int| 0 <= i < records@.len() && (#[trigger] records@[i]) is Err) ==> r matches Err(
            ParseError::JsonError(_),
        ),
        (forall|i: int| 0 <= i < records@.len() ==> (#[trigger] records@[i]) is Ok) ==> {
            &&& r is Ok <==> last_metadata(records@) is Some
            &&& r matches Ok(d) ==> Some(d.metadata) == last_metadata(records@) && d.images@ == record_images(records@)
            &&& r is Err ==> r matches Err(ParseError::NoMetadata)
        },
{
    let ghost rs = records@;
    let n = records.len();
    let mut pending = records;
    let mut rev: Vec<Result<Record, serde_json::Error>> = Vec::new();
    while pending.len() > 0
        invariant
            rs == records@,
            pending@ == rs.subrange(0, pending@.len() as int),
            rev@.len() + pending@.len() == n,
            n == rs.len(),
            forall|k: int| 0 <= k < rev@.len() ==> #[trigger] rev@[k] == rs[n - 1 - k],
        decreases pending@.len(),
    {
        let x = pending.pop().unwrap();
        rev.push(x);
    }
    let mut images: Vec<ImageEntry> = Vec::new();
    let mut meta: Option<DatasetMetadata> = None;
    let mut i: usize = 0;
    while i < n
        invariant
            rs == records@,
            n == rs.len(),
            i <= n,
            rev@.len() == n - i,
            forall|k: int| 0 <= k < rev@.len() ==> #[trigger] rev@[k] == rs[n - 1 - k],
            forall|j: int| 0 <= j < i ==> (#[trigger] rs[j]) is Ok,
            images@ == record_images(rs.subrange(0, i as int)),
            meta == last_metadata(rs.subrange(0, i as int)),
        decreases n - i,
    {
        let x = rev.pop().unwrap();
        assert(x == rs[i as int]);
        assert(rs.subrange(0, i + 1).drop_last() =~= rs.subrange(0, i as int));
        match x {
            Err(e) => {
                assert(rs[i as int] == Err::<Record, serde_json::Error>(e));
                assert(!(rs[i as int] is Ok));
                return Err(ParseError::JsonError(e));
            },
            Ok(Record::Dataset(m)) => {
                meta = Some(m);
                assert(images@ =~= record_images(rs.subrange(0, i + 1)));
            },
            Ok(Record::Image(e)) => {
                images.push(e);
            },
            Ok(Record::Other) => {
                assert(images@ =~= record_images(rs.subrange(0, i + 1)));
            },
        }
        i = i + 1;
    }
    assert(rs.subrange(0, n as int) =~= rs);
    match meta {
        None => Err(ParseError::NoMetadata),
        Some(metadata) => Ok(NDJSONData { metadata, images }),
    }
}

} // verus!
