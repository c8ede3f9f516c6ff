//! Rules on the entry paths of the output archive and on the input size.
use crate::text::{chars_of, ci_char_eq, ci_char_eq_exec};
use vstd::prelude::*;
use vstd::string::*;

verus! {

/// Largest NDJSON input, in bytes, that is accepted for conversion.
pub const MAX_NDJSON_BYTES: u64 = 104857600;

/// Whether an input of `size` bytes is small enough to be converted.
pub fn is_ndjson_size_allowed(size: u64) -> (r: bool)
    ensures
        r == (size <= MAX_NDJSON_BYTES),
{
    size <= MAX_NDJSON_BYTES
}

/// `s` with every backslash turned into a forward slash.
pub open spec fn slashed(s: Seq<char>) -> Seq<char> {
    Seq::new(s.len(), |i: int| if s[i] == '\\' { '/' } else { s[i] })
}

/// Length of `s` once trailing spaces and dots are dropped.
pub open spec fn trim_end_len(s: Seq<char>) -> nat
    decreases s.len(),
{
    if s.len() == 0 {
        0
    } else if s.last() == ' ' || s.last() == '.' {
        trim_end_len(s.drop_last())
    } else {
        s.len()
    }
}

/// Index of the first dot of `s`, or its length when it holds none.
pub open spec fn dot_index(s: Seq<char>) -> nat
    decreases s.len(),
{
    if s.len() == 0 {
        0
    } else if s[0] == '.' {
        0
    } else {
        1 + dot_index(s.drop_first())
    }
}

pub open spec fn ci3(b: Seq<char>, x: char, y: char, z: char) -> bool {
    b.len() >= 3 && ci_char_eq(b[0], x) && ci_char_eq(b[1], y) && ci_char_eq(b[2], z)
}

/// Windows device names: CON, PRN, AUX, NUL, COM1-COM9 and LPT1-LPT9, in any ASCII case.
pub open spec fn is_device_name(b: Seq<char>) -> bool {
    ||| b.len() == 3 && (ci3(b, 'C', 'O', 'N') || ci3(b, 'P', 'R', 'N') || ci3(b, 'A', 'U', 'X')
        || ci3(b, 'N', 'U', 'L'))
    ||| b.len() == 4 && (ci3(b, 'C', 'O', 'M') || ci3(b, 'L', 'P', 'T')) && '1' <= b[3] && b[3] <= '9'
}

/// A path segment names a Windows device: its part before the first dot, once trailing
/// spaces and dots are dropped, is a device name.
pub open spec fn is_reserved_segment(s: Seq<char>) -> bool {
    let t = s.subrange(0, trim_end_len(s) as int);
    t.len() > 0 && is_device_name(t.subrange(0, dot_index(t) as int))
}

/// `s[i..j]` is one of the `/`-separated segments of `s`.
pub open spec fn is_segment(s: Seq<char>, i: int, j: int) -> bool {
    &&& 0 <= i <= j <= s.len()
    &&& i == 0 || s[i - 1] == '/'
    &&& j == s.len() || s[j] == '/'
    &&& forall|k: int| i <= k < j ==> s[k] != '/'
}

pub open spec fn is_forbidden_segment(seg: Seq<char>) -> bool {
    seg =~= seq!['.', '.'] || is_reserved_segment(seg)
}

pub open spec fn has_forbidden_segment(s: Seq<char>) -> bool {
    exists|i: int, j: int| is_segment(s, i, j) && is_forbidden_segment(#[trigger] s.subrange(i, j))
}

pub open spec fn is_ascii_alpha(c: char) -> bool {
    ('a' <= c && c <= 'z') || ('A' <= c && c <= 'Z')
}

/// An archive entry path is accepted: it is not empty and, with backslashes read as
/// slashes, it is relative, carries no drive letter, and has no `..` or device segment.
pub open spec fn zip_path_ok(p: Seq<char>) -> bool {
    let n = slashed(p);
    &&& p.len() > 0
    &&& n[0] != '/'
    &&& !(n.len() >= 2 && n[1] == ':' && is_ascii_alpha(n[0]))
    &&& !has_forbidden_segment(n)
}

fn trim_end_len_exec(s: &[char], lo: usize, hi: usize) -> (r: usize)
    requires
        lo <= hi <= s@.len(),
    ensures
        r == trim_end_len(s@.subrange(lo as int, hi as int)),
        r <= hi - lo,
{
    let mut k: usize = hi;
    while k > lo && (s[k - 1] == ' ' || s[k - 1] == '.')
        invariant
            lo <= k <= hi <= s@.len(),
            trim_end_len(s@.subrange(lo as int, k as int)) == trim_end_len(
                s@.subrange(lo as int, hi as int),
            ),
        decreases k,
    {
        assert(s@.subrange(lo as int, k as int).drop_last() =~= s@.subrange(lo as int, k - 1));
        k = k - 1;
    }
    k - lo
}

fn dot_index_exec(s: &[char], lo: usize, hi: usize) -> (r: usize)
    requires
        lo <= hi <= s@.len(),
    ensures
        r == dot_index(s@.subrange(lo as int, hi as int)),
        r <= hi - lo,
{
    let mut i: usize = lo;
    while i < hi && s[i] != '.'
        invariant
            lo <= i <= hi <= s@.len(),
            dot_index(s@.subrange(i as int, hi as int)) + (i - lo) == dot_index(
                s@.subrange(lo as int, hi as int),
            ),
        decreases hi - i,
    {
        assert(s@.subrange(i as int, hi as int).drop_first() =~= s@.subrange(i + 1, hi as int));
        i = i + 1;
    }
    i - lo
}

fn ci3_exec(s: &[char], lo: usize, x: char, y: char, z: char) -> (r: bool)
    requires
        lo + 3 <= s@.len(),
    ensures
        r == ci3(s@.subrange(lo as int, s@.len() as int), x, y, z),
{
    ci_char_eq_exec(s[lo], x) && ci_char_eq_exec(s[lo + 1], y) && ci_char_eq_exec(s[lo + 2], z)
}

/// Whether `s[lo..hi]` names a Windows device.
fn reserved_chars(s: &[char], lo: usize, hi: usize) -> (r: bool)
    requires
        lo <= hi <= s@.len(),
    ensures
        r == is_reserved_segment(s@.subrange(lo as int, hi as int)),
{
    let ghost seg = s@.subrange(lo as int, hi as int);
    let t = trim_end_len_exec(s, lo, hi);
    if t == 0 {
        return false;
    }
    let ghost tseq = seg.subrange(0, t as int);
    assert(tseq =~= s@.subrange(lo as int, lo + t));
    let b = dot_index_exec(s, lo, lo + t);
    let ghost bseq = tseq.subrange(0, b as int);
    assert(bseq =~= s@.subrange(lo as int, lo + b));
    if b == 3 {
        assert(ci3(bseq, 'C', 'O', 'N') == ci3(s@.subrange(lo as int, s@.len() as int), 'C', 'O', 'N'));
        assert(ci3(bseq, 'P', 'R', 'N') == ci3(s@.subrange(lo as int, s@.len() as int), 'P', 'R', 'N'));
        assert(ci3(bseq, 'A', 'U', 'X') == ci3(s@.subrange(lo as int, s@.len() as int), 'A', 'U', 'X'));
        assert(ci3(bseq, 'N', 'U', 'L') == ci3(s@.subrange(lo as int, s@.len() as int), 'N', 'U', 'L'));
        ci3_exec(s, lo, 'C', 'O', 'N') || ci3_exec(s, lo, 'P', 'R', 'N') || ci3_exec(
            s,
            lo,
            'A',
            'U',
            'X',
        ) || ci3_exec(s, lo, 'N', 'U', 'L')
    } else if b == 4 {
        assert(ci3(bseq, 'C', 'O', 'M') == ci3(s@.subrange(lo as int, s@.len() as int), 'C', 'O', 'M'));
        assert(ci3(bseq, 'L', 'P', 'T') == ci3(s@.subrange(lo as int, s@.len() as int), 'L', 'P', 'T'));
        assert(bseq[3] == s@[lo + 3]);
        (ci3_exec(s, lo, 'C', 'O', 'M') || ci3_exec(s, lo, 'L', 'P', 'T')) && '1' <= s[lo + 3]
            && s[lo + 3] <= '9'
    } else {
        false
    }
}

/// Whether a path segment names a Windows device (`CON`, `nul.txt`, `LPT1. .`).
pub fn is_windows_reserved_segment(segment: &str) -> (r: bool)
    ensures
        r == is_reserved_segment(segment@),
{
    let cs = chars_of(segment);
    assert(cs@.subrange(0, cs@.len() as int) =~= segment@);
    reserved_chars(cs.as_slice(), 0, cs.len())
}

/// The message of an archive path that is refused.
pub open spec fn zip_path_error(p: Seq<char>) -> Seq<char> {
    if p.len() == 0 {
        "ZIP entry path is empty"@
    } else {
        "Invalid ZIP entry path: "@ + p
    }
}

fn invalid_zip_path(path: &str) -> (r: String)
    requires
        path@.len() > 0,
    ensures
        r@ == zip_path_error(path@),
{
    let mut r = String::from_str("Invalid ZIP entry path: ");
    r.append(path);
    r
}

/// Checks an archive entry path and returns it with backslashes turned into slashes.
pub fn normalize_zip_path(path: &str) -> (r: Result<String, String>)
    ensures
        r is Ok <==> zip_path_ok(path@),
        r matches Ok(n) ==> n@ == slashed(path@),
        r matches Err(e) ==> e@ == zip_path_error(path@),
{
    if path.is_empty() {
        return Err(String::from_str("ZIP entry path is empty"));
    }
    let src = chars_of(path);
    let mut n: Vec<char> = Vec::new();
    let mut i: usize = 0;
    while i < src.len()
        invariant
            i <= src@.len(),
            src@ == path@,
            n@ =~= slashed(src@.subrange(0, i as int)),
        decreases src@.len() - i,
    {
        n.push(if src[i] == '\\' { '/' } else { src[i] });
        i = i + 1;
    }
    assert(src@.subrange(0, src@.len() as int) =~= src@);
    let ghost ns = n@;
    assert(ns =~= slashed(path@));
    if n[0] == '/' {
        return Err(invalid_zip_path(path));
    }
    if n.len() >= 2 && n[1] == ':' && (('a' <= n[0] && n[0] <= 'z') || ('A' <= n[0] && n[0] <= 'Z')) {
        return Err(invalid_zip_path(path));
    }
    let mut start: usize = 0;
    let mut j: usize = 0;
    loop
        invariant_except_break
            n@ == ns,
            ns == slashed(path@),
            path@.len() > 0,
            ns[0] != '/',
            !(ns.len() >= 2 && ns[1] == ':' && is_ascii_alpha(ns[0])),
            start <= j <= ns.len(),
            start == 0 || ns[start - 1] == '/',
            forall|k: int| start <= k < j ==> ns[k] != '/',
            forall|a: int, b: int|
                is_segment(ns, a, b) && b < j ==> !is_forbidden_segment(#[trigger] ns.subrange(a, b)),
        ensures
            n@ == ns,
            ns == slashed(path@),
            path@.len() > 0,
            ns[0] != '/',
            !(ns.len() >= 2 && ns[1] == ':' && is_ascii_alpha(ns[0])),
            !has_forbidden_segment(ns),
        decreases ns.len() - j,
    {
        if j == n.len() || n[j] == '/' {
            assert(is_segment(ns, start as int, j as int));
            let dots = j - start == 2 && n[start] == '.' && n[start + 1] == '.';
            assert(dots <==> ns.subrange(start as int, j as int) =~= seq!['.', '.']);
            if dots || reserved_chars(n.as_slice(), start, j) {
                assert(is_forbidden_segment(ns.subrange(start as int, j as int)));
                return Err(invalid_zip_path(path));
            }
            assert forall|a: int, b: int|
                is_segment(ns, a, b) && b <= j implies !is_forbidden_segment(
                #[trigger] ns.subrange(a, b),
            ) by {
                if b == j {
                    if a < start {
                        assert(ns[start - 1] == '/');
                    } else if a > start {
                        assert(ns[a - 1] == '/');
                    }
                }
            }
            if j == n.len() {
                break;
            }
            start = j + 1;
        }
        j = j + 1;
    }
    let r = string_from_vec(&n);
    Ok(r)
}

fn string_from_vec(v: &Vec<char>) -> (r: String)
    ensures
        r@ == v@,
{
    crate::text::string_of(v.as_slice())
}

} // verus!
