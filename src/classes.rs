//! Class names: the metadata's text-keyed names read as numeric ids, and the dense list of
//! names that positional formats need.
use crate::model::NDJSONData;
use crate::text::{chars_of, push_signed_decimal, signed_decimal};
use vstd::prelude::*;
use vstd::string::*;

verus! {

/// The value of a run of ASCII digits.
pub open spec fn digits_value(s: Seq<char>) -> int
    decreases s.len(),
{
    if s.len() == 0 {
        0
    } else {
        digits_value(s.drop_last()) * 10 + ((s.last() as u32) - ('0' as u32))
    }
}

pub open spec fn all_digits(s: Seq<char>) -> bool {
    forall|i: int| 0 <= i < s.len() ==> '0' <= #[trigger] s[i] && s[i] <= '9'
}

/// The `i32` that the text `s` denotes: an optional `+` or `-` sign followed by at least one
/// ASCII digit, with a value in the range of `i32`.
pub open spec fn parsed_i32(s: Seq<char>) -> Option<int> {
    let signed = s.len() > 0 && (s[0] == '+' || s[0] == '-');
    let d = if signed { s.drop_first() } else { s };
    let v = if signed && s[0] == '-' { -digits_value(d) } else { digits_value(d) };
    if d.len() == 0 || !all_digits(d) || v < i32::MIN || v > i32::MAX {
        None
    } else {
        Some(v)
    }
}

proof fn lemma_digits_nonneg(s: Seq<char>)
    requires
        all_digits(s),
    ensures
        digits_value(s) >= 0,
    decreases s.len(),
{
    if s.len() > 0 {
        lemma_digits_nonneg(s.drop_last());
    }
}

const DIGITS_CAP: u64 = 2147483649;

/// Reads a class id written in decimal.
pub fn parse_class_id(s: &str) -> (r: Option<i32>)
    ensures
        r matches Some(v) ==> parsed_i32(s@) == Some(v as int),
        r is None ==> parsed_i32(s@) is None,
{
    let cs = chars_of(s);
    let n = cs.len();
    let signed = n > 0 && (cs[0] == '+' || cs[0] == '-');
    let neg = signed && cs[0] == '-';
    let start: usize = if signed { 1 } else { 0 };
    let ghost d = if signed { s@.drop_first() } else { s@ };
    assert(d =~= cs@.subrange(start as int, n as int));
    if start == n {
        return None;
    }
    let mut acc: u64 = 0;
    let mut i: usize = start;
    while i < n
        invariant
            cs@ == s@,
            n == cs@.len(),
            start <= i <= n,
            d == (if s@.len() > 0 && (s@[0] == '+' || s@[0] == '-') { s@.drop_first() } else { s@ }),
            neg == (s@.len() > 0 && s@[0] == '-'),
            d == cs@.subrange(start as int, n as int),
            all_digits(cs@.subrange(start as int, i as int)),
            acc == if digits_value(cs@.subrange(start as int, i as int)) > DIGITS_CAP {
                DIGITS_CAP as int
            } else {
                digits_value(cs@.subrange(start as int, i as int))
            },
        decreases n - i,
    {
        let c = cs[i];
        let ghost pre = cs@.subrange(start as int, i as int);
        let ghost next = cs@.subrange(start as int, i + 1);
        assert(next.drop_last() =~= pre);
        if !('0' <= c && c <= '9') {
            assert(d[i - start] == c);
            return None;
        }
        proof {
            lemma_digits_nonneg(pre);
        }
        let digit = (c as u32 - '0' as u32) as u64;
        if acc < DIGITS_CAP {
            let v = acc * 10 + digit;
            acc = if v > DIGITS_CAP { DIGITS_CAP } else { v };
        }
        assert(all_digits(next));
        i = i + 1;
    }
    proof {
        lemma_digits_nonneg(d);
    }
    if neg {
        if acc > 2147483648 {
            None
        } else {
            Some((0 - acc as i64) as i32)
        }
    } else {
        if acc > 2147483647 {
            None
        } else {
            Some(acc as i32)
        }
    }
}

/// The class names keyed by id: each text key that reads as an id names that class, a later
/// pair overriding an earlier one with the same id; other keys are ignored.
pub open spec fn class_map(pairs: Seq<(Seq<char>, Seq<char>)>) -> Map<int, Seq<char>>
    decreases pairs.len(),
{
    if pairs.len() == 0 {
        Map::empty()
    } else {
        let m = class_map(pairs.drop_last());
        match parsed_i32(pairs.last().0) {
            Some(id) => m.insert(id, pairs.last().1),
            None => m,
        }
    }
}

/// The names an id list written by later entries overriding earlier ones stands for.
pub open spec fn entries_map(e: Seq<(i32, Seq<char>)>) -> Map<int, Seq<char>>
    decreases e.len(),
{
    if e.len() == 0 {
        Map::empty()
    } else {
        entries_map(e.drop_last()).insert(e.last().0 as int, e.last().1)
    }
}

/// Class names keyed by numeric id.
pub struct ClassNames {
    entries: Vec<(i32, String)>,
}

pub open spec fn pair_views(v: Seq<(String, String)>) -> Seq<(Seq<char>, Seq<char>)> {
    v.map_values(|p: (String, String)| (p.0@, p.1@))
}

impl ClassNames {
    pub closed spec fn entry_views(&self) -> Seq<(i32, Seq<char>)> {
        self.entries@.map_values(|p: (i32, String)| (p.0, p.1@))
    }

    /// The names, keyed by id.
    pub closed spec fn map(&self) -> Map<int, Seq<char>> {
        entries_map(self.entry_views())
    }

    /// Whether no class has a name.
    pub fn is_empty(&self) -> (r: bool)
        ensures
            r == self.map().dom().is_empty(),
    {
        proof {
            lemma_entries_map_dom(self.entry_views());
        }
        if self.entries.len() == 0 {
            assert(self.map().dom() =~= Set::<int>::empty());
            true
        } else {
            let ghost k = self.entry_views().last().0 as int;
            assert(self.map().dom().contains(k));
            false
        }
    }

    /// The name of class `id`, if it has one.
    pub fn get(&self, id: i32) -> (r: Option<&String>)
        ensures
            r matches Some(s) ==> self.map().contains_key(id as int) && self.map()[id as int] == s@,
            r is None ==> !self.map().contains_key(id as int),
    {
        let mut k: usize = self.entries.len();
        let ghost ev = self.entry_views();
        assert(ev.subrange(0, k as int) =~= ev);
        while k > 0
            invariant
                k <= self.entries@.len(),
                ev == self.entry_views(),
                entries_map(ev.subrange(0, k as int)).contains_key(id as int) == self.map().contains_key(id as int),
                entries_map(ev.subrange(0, k as int)).contains_key(id as int) ==> entries_map(ev.subrange(0, k as int))[id as int] == self.map()[id as int],
            decreases k,
        {
            let ghost t = ev.subrange(0, k as int);
            assert(t.drop_last() =~= ev.subrange(0, k - 1));
            if self.entries[k - 1].0 == id {
                return Some(&self.entries[k - 1].1);
            }
            k = k - 1;
        }
        None
    }

    /// The largest id that has a name.
    pub fn max_id(&self) -> (r: Option<i32>)
        ensures
            r is None <==> self.map().dom().is_empty(),
            r matches Some(m) ==> self.map().contains_key(m as int) && forall|k: int| #[trigger] self.map().contains_key(k) ==> k <= m,
    {
        proof {
            lemma_entries_map_dom(self.entry_views());
        }
        let mut best: Option<i32> = None;
        let mut i: usize = 0;
        while i < self.entries.len()
            invariant
                i <= self.entries@.len(),
                forall|j: int| 0 <= j < self.entries@.len() ==> (#[trigger] self.entry_views()[j]).0 == self.entries@[j].0,
                self.entry_views().len() == self.entries@.len(),
                self.map().dom() == Set::new(|k: int| exists|j: int| 0 <= j < self.entry_views().len() && self.entry_views()[j].0 as int == k),
                best is None <==> i == 0,
                best matches Some(b) ==> exists|j: int| 0 <= j < i && self.entry_views()[j].0 == b,
                best matches Some(b) ==> forall|j: int| 0 <= j < i ==> self.entry_views()[j].0 <= b,
            decreases self.entries@.len() - i,
        {
            let id = self.entries[i].0;
            assert(id == self.entry_views()[i as int].0);
            let ghost prev = best;
            best = match best {
                Some(b) => if id > b { Some(id) } else { Some(b) },
                None => Some(id),
            };
            proof {
                if let Some(b) = prev {
                    if id <= b {
                        let j = choose|j: int| 0 <= j < i && self.entry_views()[j].0 == b;
                        assert(0 <= j < i + 1 && self.entry_views()[j].0 == b);
                    }
                }
            }
            i = i + 1;
        }
        proof {
            if self.entries@.len() == 0 {
                assert(self.map().dom() =~= Set::<int>::empty());
            } else {
                assert(self.map().dom().contains(self.entry_views()[0].0 as int));
            }
            if let Some(b) = best {
                assert forall|k: int| #[trigger] self.map().contains_key(k) implies k <= b by {
                    assert(self.map().dom().contains(k));
                }
            }
        }
        best
    }
}

proof fn lemma_entries_map_dom(e: Seq<(i32, Seq<char>)>)
    ensures
        entries_map(e).dom() == Set::new(|k: int| exists|j: int| 0 <= j < e.len() && e[j].0 as int == k),
    decreases e.len(),
{
    if e.len() > 0 {
        lemma_entries_map_dom(e.drop_last());
        assert forall|k: int| entries_map(e).dom().contains(k) <==> exists|j: int| 0 <= j < e.len() && e[j].0 as int == k by {
            if entries_map(e.drop_last()).dom().contains(k) {
                let j = choose|j: int| 0 <= j < e.len() - 1 && e.drop_last()[j].0 as int == k;
                assert(e[j] == e.drop_last()[j]);
            }
            if exists|j: int| 0 <= j < e.len() && e[j].0 as int == k {
                let j = choose|j: int| 0 <= j < e.len() && e[j].0 as int == k;
                if j < e.len() - 1 {
                    assert(e.drop_last()[j] == e[j]);
                }
            }
        }
    }
    assert(entries_map(e).dom() =~= Set::new(|k: int| exists|j: int| 0 <= j < e.len() && e[j].0 as int == k));
}

/// The class names of a dataset keyed by numeric id; keys that are not ids are ignored.
pub fn get_class_names(data: &NDJSONData) -> (r: ClassNames)
    ensures
        r.map() == class_map(pair_views(data.metadata.class_names@)),
{
    let pairs = &data.metadata.class_names;
    let mut entries: Vec<(i32, String)> = Vec::new();
    let mut i: usize = 0;
    while i < pairs.len()
        invariant
            i <= pairs@.len(),
            entries_map(entries@.map_values(|p: (i32, String)| (p.0, p.1@))) == class_map(
                pair_views(pairs@.subrange(0, i as int)),
            ),
        decreases pairs@.len() - i,
    {
        let ghost before = entries@;
        assert(pair_views(pairs@.subrange(0, i + 1)).drop_last() =~= pair_views(pairs@.subrange(0, i as int)));
        assert(pair_views(pairs@.subrange(0, i + 1)).last() == (pairs@[i as int].0@, pairs@[i as int].1@));
        match parse_class_id(pairs[i].0.as_str()) {
            Some(id) => {
                entries.push((id, pairs[i].1.clone()));
                assert(entries@.map_values(|p: (i32, String)| (p.0, p.1@)).drop_last() =~= before.map_values(|p: (i32, String)| (p.0, p.1@)));
            },
            None => {},
        }
        i = i + 1;
    }
    assert(pairs@.subrange(0, pairs@.len() as int) =~= pairs@);
    ClassNames { entries }
}

/// The name written for class `id`: its own, or `class_{id}` when it has none.
pub open spec fn class_label(m: Map<int, Seq<char>>, id: int) -> Seq<char> {
    if m.contains_key(id) {
        m[id]
    } else {
        "class_"@ + signed_decimal(id)
    }
}

/// The name written for class `id`.
pub fn class_label_of(names: &ClassNames, id: i32) -> (r: String)
    ensures
        r@ == class_label(names.map(), id as int),
{
    match names.get(id) {
        Some(s) => s.clone(),
        None => {
            let mut r = String::from_str("class_");
            push_signed_decimal(&mut r, id as i64);
            r
        },
    }
}

/// The length of the dense class list: one past the largest non-negative id with a name,
/// or zero.
pub open spec fn class_list_len(m: Map<int, Seq<char>>, n: int) -> bool {
    &&& n >= 0
    &&& forall|k: int| #[trigger] m.contains_key(k) ==> k < n
    &&& n == 0 || m.contains_key(n - 1)
}

/// The class names ordered by id, from 0 to the largest id with a name, with `class_{id}`
/// filling each gap.
pub fn get_class_list(data: &NDJSONData) -> (r: Vec<String>)
    ensures
        class_list_len(class_map(pair_views(data.metadata.class_names@)), r@.len() as int),
        forall|i: int| 0 <= i < r@.len() ==> (#[trigger] r@[i])@ == class_label(class_map(pair_views(data.metadata.class_names@)), i),
{
    let names = get_class_names(data);
    let mut r: Vec<String> = Vec::new();
    let max = match names.max_id() {
        None => return r,
        Some(m) => m,
    };
    if max < 0 {
        return r;
    }
    let mut i: i64 = 0;
    while i <= max as i64
        invariant
            0 <= i <= max + 1,
            names.map() == class_map(pair_views(data.metadata.class_names@)),
            names.map().contains_key(max as int),
            forall|k: int| #[trigger] names.map().contains_key(k) ==> k <= max,
            r@.len() == i,
            forall|j: int| 0 <= j < i ==> (#[trigger] r@[j])@ == class_label(names.map(), j),
        decreases max + 1 - i,
    {
        r.push(class_label_of(&names, i as i32));
        i = i + 1;
    }
    r
}

/// The dense class list of the names `m`.
pub open spec fn class_list_spec(m: Map<int, Seq<char>>) -> Seq<Seq<char>> {
    let n = choose|n: int| class_list_len(m, n);
    Seq::new(n as nat, |i: int| class_label(m, i))
}

proof fn lemma_class_list_len_unique(m: Map<int, Seq<char>>, a: int, b: int)
    requires
        class_list_len(m, a),
        class_list_len(m, b),
    ensures
        a == b,
{
    if a < b {
        assert(m.contains_key(b - 1));
    } else if b < a {
        assert(m.contains_key(a - 1));
    }
}

/// The dense class list, as the list's own view.
pub proof fn lemma_class_list_exact(m: Map<int, Seq<char>>, r: Seq<Seq<char>>)
    requires
        class_list_len(m, r.len() as int),
        forall|i: int| 0 <= i < r.len() ==> #[trigger] r[i] == class_label(m, i),
    ensures
        r == class_list_spec(m),
{
    let n = choose|n: int| class_list_len(m, n);
    lemma_class_list_len_unique(m, n, r.len() as int);
    assert(r =~= class_list_spec(m));
}

} // verus!
