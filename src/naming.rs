//! Collision-free output names: every image gets a name that no other image of its split has.
use crate::model::{normalize_split, normalized_split, ImageEntry};
use crate::text::{decimal, digit_char, push_all, push_char, push_decimal, str_eq, chars_of};
use vstd::prelude::*;
use vstd::string::*;
use vstd::utf8::encode_utf8;

verus! {

pub const FNV_OFFSET: u64 = 0xcbf29ce484222325;

pub const FNV_PRIME: u64 = 0x100000001b3;

/// The 64-bit FNV-1a hash of `bytes`.
pub open spec fn fnv1a(bytes: Seq<u8>) -> u64
    decreases bytes.len(),
{
    if bytes.len() == 0 {
        FNV_OFFSET
    } else {
        (fnv1a(bytes.drop_last()) ^ (bytes.last() as u64)).wrapping_mul(FNV_PRIME)
    }
}

/// The lower-case hexadecimal digit of `d`.
pub open spec fn hex_digit(d: nat) -> char {
    if d < 10 { digit_char(d) } else if d == 10 { 'a' } else if d == 11 { 'b' } else if d == 12 { 'c' }
    else if d == 13 { 'd' } else if d == 14 { 'e' } else { 'f' }
}

/// The last `n` hexadecimal digits of `v`, most significant first.
pub open spec fn hex_digits(v: nat, n: nat) -> Seq<char>
    decreases n,
{
    if n == 0 {
        seq![]
    } else {
        hex_digits(v / 16, (n - 1) as nat).push(hex_digit(v % 16))
    }
}

/// Eight hexadecimal digits of the low 32 bits of the FNV-1a hash of the UTF-8 text `s`.
#[verifier::opaque]
pub open spec fn stable_hash(s: Seq<char>) -> Seq<char> {
    hex_digits((fnv1a(encode_utf8(s)) % 0x1_0000_0000) as nat, 8)
}

fn hex_digit_exec(d: u64) -> (c: char)
    requires
        d < 16,
    ensures
        c == hex_digit(d as nat),
{
    if d == 0 { '0' } else if d == 1 { '1' } else if d == 2 { '2' } else if d == 3 { '3' }
    else if d == 4 { '4' } else if d == 5 { '5' } else if d == 6 { '6' } else if d == 7 { '7' }
    else if d == 8 { '8' } else if d == 9 { '9' } else if d == 10 { 'a' } else if d == 11 { 'b' }
    else if d == 12 { 'c' } else if d == 13 { 'd' } else if d == 14 { 'e' } else { 'f' }
}

fn push_hex(s: &mut String, v: u64, n: u64)
    ensures
        final(s)@ == old(s)@ + hex_digits(v as nat, n as nat),
    decreases n,
{
    let ghost start = s@;
    if n > 0 {
        push_hex(s, v / 16, n - 1);
        push_char(s, hex_digit_exec(v % 16));
        assert(s@ =~= start + hex_digits(v as nat, n as nat));
    } else {
        assert(s@ =~= start + hex_digits(v as nat, n as nat));
    }
}

/// A short digest of `input` that is the same in every run: eight hexadecimal digits of
/// its FNV-1a hash.
pub fn short_stable_hash(input: &str) -> (r: String)
    ensures
        r@ == stable_hash(input@),
{
    let bytes = input.as_bytes();
    let mut hash: u64 = FNV_OFFSET;
    let mut i: usize = 0;
    while i < bytes.len()
        invariant
            i <= bytes@.len(),
            bytes@ == encode_utf8(input@),
            hash == fnv1a(bytes@.subrange(0, i as int)),
        decreases bytes@.len() - i,
    {
        assert(bytes@.subrange(0, i + 1).drop_last() =~= bytes@.subrange(0, i as int));
        hash = (hash ^ (bytes[i] as u64)).wrapping_mul(FNV_PRIME);
        i = i + 1;
    }
    assert(bytes@.subrange(0, bytes@.len() as int) =~= bytes@);
    assert((hash & 0xffff_ffff) == hash % 0x1_0000_0000) by (bit_vector);
    let low = hash & 0xffff_ffff;
    let mut r = String::new();
    push_hex(&mut r, low, 8);
    proof {
        reveal(stable_hash);
    }
    r
}

/// Index of the last dot of `s`, if it has one.
pub open spec fn last_dot(s: Seq<char>) -> Option<int>
    decreases s.len(),
{
    if s.len() == 0 {
        None
    } else if s.last() == '.' {
        Some(s.len() - 1)
    } else {
        last_dot(s.drop_last())
    }
}

/// `file` with `__suffix` inserted before its extension; a name without a stem or an
/// extension gets the suffix at its end.
#[verifier::opaque]
pub open spec fn with_suffix(file: Seq<char>, suffix: Seq<char>) -> Seq<char> {
    match last_dot(file) {
        Some(d) if 0 < d && d < file.len() - 1 => file.subrange(0, d) + seq!['_', '_'] + suffix
            + seq!['.'] + file.subrange(d + 1, file.len() as int),
        _ => file + seq!['_', '_'] + suffix,
    }
}

proof fn lemma_last_dot(s: Seq<char>)
    ensures
        last_dot(s) matches Some(d) ==> 0 <= d < s.len() && s[d] == '.' && forall|k: int|
            d < k < s.len() ==> s[k] != '.',
        last_dot(s) is None ==> forall|k: int| 0 <= k < s.len() ==> s[k] != '.',
    decreases s.len(),
{
    if s.len() > 0 && s.last() != '.' {
        let t = s.drop_last();
        lemma_last_dot(t);
        assert forall|k: int| 0 <= k < t.len() implies t[k] == s[k] by {}
    }
}

pub proof fn lemma_last_dot_bounds(s: Seq<char>)
    ensures
        last_dot(s) matches Some(d) ==> 0 <= d < s.len(),
{
    lemma_last_dot(s);
}

pub(crate) fn last_dot_exec(s: &[char]) -> (r: Option<usize>)
    ensures
        r matches Some(d) ==> last_dot(s@) == Some(d as int),
        r is None ==> last_dot(s@) is None,
{
    let mut k: usize = s.len();
    assert(s@.subrange(0, k as int) =~= s@);
    while k > 0
        invariant
            k <= s@.len(),
            last_dot(s@.subrange(0, k as int)) == last_dot(s@),
        decreases k,
    {
        let ghost t = s@.subrange(0, k as int);
        if s[k - 1] == '.' {
            return Some(k - 1);
        }
        assert(t.drop_last() =~= s@.subrange(0, k - 1));
        k = k - 1;
    }
    None
}

/// Inserts `__suffix` into `file_name` before its extension (`a.jpg` becomes `a__x.jpg`).
pub fn file_name_with_suffix(file_name: &str, suffix: &str) -> (r: String)
    ensures
        r@ == with_suffix(file_name@, suffix@),
{
    let f = chars_of(file_name);
    let sf = chars_of(suffix);
    let mut r = String::new();
    match last_dot_exec(f.as_slice()) {
        Some(d) if 0 < d && d < f.len() - 1 => {
            push_all(&mut r, slice_prefix(f.as_slice(), d).as_slice());
            push_char(&mut r, '_');
            push_char(&mut r, '_');
            push_all(&mut r, sf.as_slice());
            push_char(&mut r, '.');
            push_all(&mut r, slice_from(f.as_slice(), d + 1).as_slice());
        },
        _ => {
            push_all(&mut r, f.as_slice());
            push_char(&mut r, '_');
            push_char(&mut r, '_');
            push_all(&mut r, sf.as_slice());
        },
    }
    proof {
        reveal(with_suffix);
    }
    assert(r@ =~= with_suffix(file_name@, suffix@));
    r
}

fn slice_prefix(s: &[char], n: usize) -> (r: Vec<char>)
    requires
        n <= s@.len(),
    ensures
        r@ == s@.subrange(0, n as int),
{
    let mut r: Vec<char> = Vec::new();
    let mut i: usize = 0;
    while i < n
        invariant
            n <= s@.len(),
            i <= n,
            r@ == s@.subrange(0, i as int),
        decreases n - i,
    {
        r.push(s[i]);
        i = i + 1;
    }
    r
}

fn slice_from(s: &[char], n: usize) -> (r: Vec<char>)
    requires
        n <= s@.len(),
    ensures
        r@ == s@.subrange(n as int, s@.len() as int),
{
    let mut r: Vec<char> = Vec::new();
    let mut i: usize = n;
    while i < s.len()
        invariant
            n <= i <= s@.len(),
            r@ == s@.subrange(n as int, i as int),
        decreases s@.len() - i,
    {
        r.push(s[i]);
        i = i + 1;
    }
    r
}

/// A set of names, kept in the order they were added.
pub struct NameSet {
    names: Vec<String>,
}

impl View for NameSet {
    type V = Set<Seq<char>>;

    closed spec fn view(&self) -> Set<Seq<char>> {
        Set::new(|x: Seq<char>| exists|i: int| 0 <= i < self.names@.len() && #[trigger] self.names@[i]@ == x)
    }
}

impl NameSet {
    pub fn new() -> (r: NameSet)
        ensures
            r@ == Set::<Seq<char>>::empty(),
    {
        let r = NameSet { names: Vec::new() };
        assert(r@ =~= Set::<Seq<char>>::empty());
        r
    }

    pub closed spec fn size(&self) -> nat {
        self.names@.len()
    }

    pub proof fn lemma_finite(&self)
        ensures
            self@.finite(),
            self@.len() <= self.size(),
    {
        let s = self.names@.map_values(|n: String| n@);
        assert forall|x: Seq<char>| self@.contains(x) <==> s.to_set().contains(x) by {
            if self@.contains(x) {
                let i = choose|i: int| 0 <= i < self.names@.len() && #[trigger] self.names@[i]@ == x;
                assert(s[i] == x);
            }
            if s.to_set().contains(x) {
                let i = choose|i: int| 0 <= i < s.len() && s[i] == x;
                assert(self.names@[i]@ == x);
            }
        }
        assert(self@ =~= s.to_set());
        s.lemma_cardinality_of_set();
    }

    pub fn len(&self) -> (r: usize)
        ensures
            r == self.size(),
    {
        self.names.len()
    }

    pub fn contains(&self, name: &str) -> (r: bool)
        ensures
            r == self@.contains(name@),
    {
        let mut i: usize = 0;
        while i < self.names.len()
            invariant
                i <= self.names@.len(),
                forall|k: int| 0 <= k < i ==> self.names@[k]@ != name@,
            decreases self.names@.len() - i,
        {
            if str_eq(self.names[i].as_str(), name) {
                return true;
            }
            i = i + 1;
        }
        false
    }

    /// Adds `name`; returns whether it was absent before.
    pub fn insert(&mut self, name: &str) -> (r: bool)
        ensures
            r == !old(self)@.contains(name@),
            final(self)@ == old(self)@.insert(name@),
            final(self).size() <= old(self).size() + 1,
            !r ==> final(self).size() == old(self).size(),
    {
        if self.contains(name) {
            assert(self@ =~= self@.insert(name@));
            false
        } else {
            let ghost before = self@;
            let ghost old_names = self.names@;
            self.names.push(String::from_str(name));
            assert(self.names@ == old_names.push(self.names@.last()));
            assert forall|x: Seq<char>| self@.contains(x) <==> before.insert(name@).contains(x) by {
                if before.contains(x) {
                    let i = choose|i: int| 0 <= i < old_names.len() && #[trigger] old_names[i]@ == x;
                    assert(self.names@[i]@ == x);
                }
                if x == name@ {
                    assert(self.names@[self.names@.len() - 1]@ == x);
                }
                if self@.contains(x) {
                    let i = choose|i: int| 0 <= i < self.names@.len() && #[trigger] self.names@[i]@ == x;
                    if i < old_names.len() {
                        assert(old_names[i]@ == x);
                    }
                }
            }
            assert(self@ =~= before.insert(name@));
            true
        }
    }
}

/// The suffix of the `k`-th attempt: the hash alone first, then `hash__2`, `hash__3`, ...
pub open spec fn attempt_suffix(hash: Seq<char>, k: nat) -> Seq<char> {
    if k <= 1 {
        hash
    } else {
        hash + seq!['_', '_'] + decimal(k)
    }
}

/// The `k`-th name tried for `file` when its hash source is `src`.
pub open spec fn candidate(file: Seq<char>, src: Seq<char>, k: nat) -> Seq<char> {
    with_suffix(file, attempt_suffix(stable_hash(src), k))
}

/// The first attempt, counting from one, whose name is not in `taken`.
pub open spec fn first_free(file: Seq<char>, src: Seq<char>, taken: Set<Seq<char>>) -> nat {
    choose|k: nat|
        k >= 1 && !taken.contains(candidate(file, src, k)) && forall|j: nat|
            1 <= j < k ==> taken.contains(#[trigger] candidate(file, src, j))
}

/// The name that a record renamed against the names in `taken` receives.
pub open spec fn fresh_name(file: Seq<char>, src: Seq<char>, taken: Set<Seq<char>>) -> Seq<char> {
    candidate(file, src, first_free(file, src, taken))
}

proof fn lemma_decimal_len(n: nat)
    ensures
        decimal(n).len() >= 1,
        n >= 10 ==> decimal(n).len() >= 2,
    decreases n,
{
    if n >= 10 {
        lemma_decimal_len(n / 10);
    }
}

proof fn lemma_decimal_injective(a: nat, b: nat)
    requires
        decimal(a) == decimal(b),
    ensures
        a == b,
    decreases a,
{
    lemma_decimal_len(a);
    lemma_decimal_len(b);
    if a >= 10 && b >= 10 {
        let da = decimal(a / 10);
        let db = decimal(b / 10);
        assert(da =~= decimal(a).drop_last());
        assert(db =~= decimal(b).drop_last());
        lemma_decimal_injective(a / 10, b / 10);
        assert(decimal(a).last() == digit_char(a % 10));
    } else if a < 10 && b < 10 {
        assert(decimal(a)[0] == digit_char(a));
    }
}

proof fn lemma_candidate_injective(file: Seq<char>, src: Seq<char>, j: nat, k: nat)
    requires
        j >= 1,
        k >= 1,
        candidate(file, src, j) == candidate(file, src, k),
    ensures
        j == k,
{
    reveal(with_suffix);
    let h = stable_hash(src);
    let sj = attempt_suffix(h, j);
    let sk = attempt_suffix(h, k);
    match last_dot(file) {
        Some(d) if 0 < d && d < file.len() - 1 => {
            let a = file.subrange(0, d) + seq!['_', '_'];
            let z = seq!['.'] + file.subrange(d + 1, file.len() as int);
            assert(candidate(file, src, j) =~= a + sj + z);
            assert(candidate(file, src, k) =~= a + sk + z);
            assert(sj.len() == sk.len());
            assert(sj =~= (a + sj + z).subrange(a.len() as int, (a.len() + sj.len()) as int));
            assert(sk =~= (a + sk + z).subrange(a.len() as int, (a.len() + sk.len()) as int));
        },
        _ => {
            let a = file + seq!['_', '_'];
            assert(candidate(file, src, j) =~= a + sj);
            assert(candidate(file, src, k) =~= a + sk);
            assert(sj =~= (a + sj).subrange(a.len() as int, (a + sj).len() as int));
            assert(sk =~= (a + sk).subrange(a.len() as int, (a + sk).len() as int));
        },
    }
    assert(sj == sk);
    lemma_decimal_len(j);
    lemma_decimal_len(k);
    if j >= 2 && k >= 2 {
        let p = h + seq!['_', '_'];
        assert(sj =~= p + decimal(j));
        assert(sk =~= p + decimal(k));
        assert(decimal(j) =~= sj.subrange(p.len() as int, sj.len() as int));
        assert(decimal(k) =~= sk.subrange(p.len() as int, sk.len() as int));
        lemma_decimal_injective(j, k);
    } else if j >= 2 {
        assert(sj.len() > h.len());
    } else if k >= 2 {
        assert(sk.len() > h.len());
    }
}

/// If the first `m` attempts are all taken, `taken` holds at least `m` names.
proof fn lemma_attempts_bounded(file: Seq<char>, src: Seq<char>, taken: Set<Seq<char>>, m: nat)
    requires
        taken.finite(),
        forall|j: nat| 1 <= j <= m ==> taken.contains(#[trigger] candidate(file, src, j)),
    ensures
        m <= taken.len(),
{
    let s = Seq::new(m, |i: int| candidate(file, src, (i + 1) as nat));
    assert forall|a: int, b: int| 0 <= a < s.len() && 0 <= b < s.len() && a != b implies s[a]
        != s[b] by {
        if s[a] == s[b] {
            lemma_candidate_injective(file, src, (a + 1) as nat, (b + 1) as nat);
        }
    }
    assert(s.no_duplicates());
    s.unique_seq_to_set();
    assert forall|x: Seq<char>| s.to_set().contains(x) implies taken.contains(x) by {
        let i = choose|i: int| 0 <= i < s.len() && s[i] == x;
        assert(taken.contains(candidate(file, src, (i + 1) as nat)));
    }
    vstd::set_lib::lemma_len_subset(s.to_set(), taken);
}

proof fn lemma_first_free_is(file: Seq<char>, src: Seq<char>, taken: Set<Seq<char>>, k: nat)
    requires
        k >= 1,
        !taken.contains(candidate(file, src, k)),
        forall|j: nat| 1 <= j < k ==> taken.contains(#[trigger] candidate(file, src, j)),
    ensures
        first_free(file, src, taken) == k,
{
    let f = first_free(file, src, taken);
    if f < k {
        assert(taken.contains(candidate(file, src, f)));
    } else if f > k {
        assert(taken.contains(candidate(file, src, k)));
    }
}

/// Tries `file` with the hash of `hash_source` as suffix, then with `__2`, `__3`, ... added
/// to the hash, and claims the first name that `used_names` does not hold yet.
pub fn next_unique_file_name(source_file: &str, hash_source: &str, used_names: &mut NameSet) -> (r: String)
    ensures
        r@ == fresh_name(source_file@, hash_source@, old(used_names)@),
        !old(used_names)@.contains(r@),
        final(used_names)@ == old(used_names)@.insert(r@),
        final(used_names).size() <= old(used_names).size() + 1,
{
    let ghost taken = used_names@;
    let ghost file = source_file@;
    let ghost src = hash_source@;
    proof {
        used_names.lemma_finite();
    }
    let _n = used_names.len();
    let hash = short_stable_hash(hash_source);
    let mut suffix = String::from_str(hash.as_str());
    let mut counter: u128 = 2;
    loop
        invariant
            used_names@ == taken,
            taken == old(used_names)@,
            used_names.size() == old(used_names).size(),
            file == source_file@,
            src == hash_source@,
            taken.finite(),
            taken.len() <= used_names.size(),
            used_names.size() <= usize::MAX,
            2 <= counter,
            counter <= taken.len() + 2,
            hash@ == stable_hash(src),
            suffix@ == attempt_suffix(hash@, (counter - 1) as nat),
            forall|j: nat| 1 <= j < counter - 1 ==> taken.contains(#[trigger] candidate(file, src, j)),
        decreases taken.len() + 2 - counter,
    {
        let candidate_name = file_name_with_suffix(source_file, suffix.as_str());
        let ghost k = (counter - 1) as nat;
        assert(candidate_name@ == candidate(file, src, k));
        if used_names.insert(candidate_name.as_str()) {
            proof {
                lemma_first_free_is(file, src, taken, k);
            }
            return candidate_name;
        }
        proof {
            assert forall|j: nat| 1 <= j <= k implies taken.contains(#[trigger] candidate(file, src, j)) by {
            }
            lemma_attempts_bounded(file, src, taken, k);
        }
        let mut next = String::from_str(hash.as_str());
        push_char(&mut next, '_');
        push_char(&mut next, '_');
        push_decimal(&mut next, counter);
        assert(next@ =~= attempt_suffix(hash@, counter as nat));
        suffix = next;
        counter = counter + 1;
    }
}

/// What a record's renamed output is hashed from: its URL, or its file name when it has none.
pub open spec fn hash_source_of(e: ImageEntry) -> Seq<char> {
    if e.url@.len() == 0 {
        e.file@
    } else {
        e.url@
    }
}

/// The names claimed in `split` by the records `imgs`, whose claimed names are `claimed`.
pub open spec fn taken_in(imgs: Seq<ImageEntry>, claimed: Seq<Seq<char>>, split: Seq<char>) -> Set<Seq<char>> {
    Set::new(
        |x: Seq<char>|
            exists|j: int|
                0 <= j < imgs.len() && normalized_split(#[trigger] imgs[j].split@) == split && claimed[j] == x,
    )
}

/// Some record of `imgs` has the split and the file name of `e`.
pub open spec fn seen_in(imgs: Seq<ImageEntry>, e: ImageEntry) -> bool {
    exists|j: int|
        0 <= j < imgs.len() && normalized_split(#[trigger] imgs[j].split@) == normalized_split(e.split@)
            && imgs[j].file@ == e.file@
}

/// `e`, coming after `imgs`, keeps its own file name: it is the first record with its
/// (split, file name) pair and no earlier record of its split claimed that name.
pub open spec fn keeps_literal(imgs: Seq<ImageEntry>, claimed: Seq<Seq<char>>, e: ImageEntry) -> bool {
    !seen_in(imgs, e) && !taken_in(imgs, claimed, normalized_split(e.split@)).contains(e.file@)
}

/// The name that `e`, coming after `imgs`, claims.
pub open spec fn claim_of(imgs: Seq<ImageEntry>, claimed: Seq<Seq<char>>, e: ImageEntry) -> Seq<char> {
    if keeps_literal(imgs, claimed, e) {
        e.file@
    } else {
        fresh_name(e.file@, hash_source_of(e), taken_in(imgs, claimed, normalized_split(e.split@)))
    }
}

/// The names that the records claim, processed in input order.
pub open spec fn claimed_names(imgs: Seq<ImageEntry>) -> Seq<Seq<char>>
    decreases imgs.len(),
{
    if imgs.len() == 0 {
        seq![]
    } else {
        let p = claimed_names(imgs.drop_last());
        p.push(claim_of(imgs.drop_last(), p, imgs.last()))
    }
}

/// The `i`-th record keeps its own file name.
pub open spec fn kept_literal(imgs: Seq<ImageEntry>, i: int) -> bool {
    keeps_literal(imgs.subrange(0, i), claimed_names(imgs.subrange(0, i)), imgs[i])
}

pub proof fn lemma_claimed_len(imgs: Seq<ImageEntry>)
    ensures
        claimed_names(imgs).len() == imgs.len(),
    decreases imgs.len(),
{
    if imgs.len() > 0 {
        lemma_claimed_len(imgs.drop_last());
    }
}

/// The names claimed by a prefix are the prefix of the names claimed.
pub proof fn lemma_claimed_prefix(imgs: Seq<ImageEntry>, i: int)
    requires
        0 <= i <= imgs.len(),
    ensures
        claimed_names(imgs.subrange(0, i)) == claimed_names(imgs).subrange(0, i),
    decreases imgs.len(),
{
    lemma_claimed_len(imgs);
    if i == imgs.len() {
        assert(imgs.subrange(0, i) =~= imgs);
        assert(claimed_names(imgs).subrange(0, i) =~= claimed_names(imgs));
    } else {
        let t = imgs.drop_last();
        lemma_claimed_prefix(t, i);
        lemma_claimed_len(t);
        assert(t.subrange(0, i) =~= imgs.subrange(0, i));
        assert(claimed_names(imgs).subrange(0, i) =~= claimed_names(t).subrange(0, i));
    }
}

/// The claimed names of the records before `n` whose normalized split is `split`.
fn names_in_split(norm: &Vec<String>, claimed: &Vec<String>, split: &str, n: usize) -> (r: NameSet)
    requires
        n <= norm@.len(),
        n <= claimed@.len(),
    ensures
        r@ == Set::new(
            |x: Seq<char>| exists|j: int| 0 <= j < n && #[trigger] norm@[j]@ == split@ && claimed@[j]@ == x,
        ),
{
    let mut r = NameSet::new();
    let mut j: usize = 0;
    while j < n
        invariant
            n <= norm@.len(),
            n <= claimed@.len(),
            j <= n,
            r@ == Set::new(
                |x: Seq<char>| exists|k: int| 0 <= k < j && #[trigger] norm@[k]@ == split@ && claimed@[k]@ == x,
            ),
        decreases n - j,
    {
        let ghost before = r@;
        if str_eq(norm[j].as_str(), split) {
            r.insert(claimed[j].as_str());
        }
        assert(r@ =~= Set::new(
            |x: Seq<char>| exists|k: int| 0 <= k < j + 1 && #[trigger] norm@[k]@ == split@ && claimed@[k]@ == x,
        )) by {
            assert forall|x: Seq<char>| #![auto] r@.contains(x) implies exists|k: int| 0 <= k < j + 1 && #[trigger] norm@[k]@ == split@ && claimed@[k]@ == x by {
                if before.contains(x) {
                    let k = choose|k: int| 0 <= k < j && #[trigger] norm@[k]@ == split@ && claimed@[k]@ == x;
                    assert(0 <= k < j + 1 && norm@[k]@ == split@ && claimed@[k]@ == x);
                }
            }
        }
        j = j + 1;
    }
    r
}

/// Whether a record before `n` has normalized split `split` and file name `file`.
fn seen_before(norm: &Vec<String>, images: &[ImageEntry], split: &str, file: &str, n: usize) -> (r: bool)
    requires
        n <= norm@.len(),
        n <= images@.len(),
    ensures
        r == exists|j: int| 0 <= j < n && #[trigger] norm@[j]@ == split@ && images@[j].file@ == file@,
{
    let mut j: usize = 0;
    while j < n
        invariant
            n <= norm@.len(),
            n <= images@.len(),
            j <= n,
            forall|k: int| 0 <= k < j ==> !(#[trigger] norm@[k]@ == split@ && images@[k].file@ == file@),
        decreases n - j,
    {
        if str_eq(norm[j].as_str(), split) && str_eq(images[j].file.as_str(), file) {
            return true;
        }
        j = j + 1;
    }
    false
}

fn copy_output_file(o: &Option<String>) -> (r: Option<String>)
    ensures
        r == *o,
{
    match o {
        Some(s) => Some(s.clone()),
        None => None,
    }
}


/// The name that the `i`-th record claims, and whether it is its own file name.
fn resolve_one(images: &[ImageEntry], norm: &Vec<String>, claimed: &Vec<String>, i: usize) -> (r: (String, bool))
    requires
        i < images@.len(),
        claimed@.len() == i,
        norm@.len() == i,
        forall|j: int| 0 <= j < i ==> (#[trigger] norm@[j])@ == normalized_split(images@[j].split@),
        claimed@.map_values(|c: String| c@) == claimed_names(images@.subrange(0, i as int)),
    ensures
        r.0@ == claim_of(images@.subrange(0, i as int), claimed_names(images@.subrange(0, i as int)), images@[i as int]),
        r.1 == keeps_literal(images@.subrange(0, i as int), claimed_names(images@.subrange(0, i as int)), images@[i as int]),
        r.1 ==> r.0@ == images@[i as int].file@,
{
    let img = &images[i];
    let ghost prefix = images@.subrange(0, i as int);
    let ghost pc = claimed_names(prefix);
    proof {
        lemma_claimed_len(prefix);
    }
    let split_key = normalize_split(img.split.as_str());
    let mut used = names_in_split(&norm, &claimed, split_key, i);
    assert(used@ =~= taken_in(prefix, pc, normalized_split(img.split@))) by {
        assert forall|x: Seq<char>| used@.contains(x) <==> taken_in(prefix, pc, normalized_split(img.split@)).contains(x) by {
            if used@.contains(x) {
                let j = choose|j: int| 0 <= j < i && #[trigger] norm@[j]@ == split_key@ && claimed@[j]@ == x;
                assert(claimed@.map_values(|c: String| c@)[j] == pc[j]);
                assert(normalized_split(prefix[j].split@) == normalized_split(img.split@) && pc[j] == x);
            }
            if taken_in(prefix, pc, normalized_split(img.split@)).contains(x) {
                let j = choose|j: int| 0 <= j < prefix.len() && normalized_split(#[trigger] prefix[j].split@) == normalized_split(img.split@) && pc[j] == x;
                assert(claimed@.map_values(|c: String| c@)[j] == pc[j]);
                assert(norm@[j]@ == split_key@ && claimed@[j]@ == x);
            }
        }
    }
    let seen = seen_before(&norm, images, split_key, img.file.as_str(), i);
    assert(seen == seen_in(prefix, *img)) by {
        if seen {
            let j = choose|j: int| 0 <= j < i && #[trigger] norm@[j]@ == split_key@ && images@[j].file@ == img.file@;
            assert(normalized_split(prefix[j].split@) == normalized_split(img.split@));
        }
        if seen_in(prefix, *img) {
            let j = choose|j: int| 0 <= j < prefix.len() && normalized_split(#[trigger] prefix[j].split@) == normalized_split(img.split@) && prefix[j].file@ == img.file@;
            assert(norm@[j]@ == split_key@);
        }
    }
    let ghost claim = claim_of(prefix, pc, *img);
    let ghost keep = keeps_literal(prefix, pc, *img);
    let kept = !seen && used.insert(img.file.as_str());
    assert(kept == keep);
    let name: String;
    if kept {
        name = img.file.clone();
    } else {
        assert(used@ =~= taken_in(prefix, pc, normalized_split(img.split@)));
        name = next_unique_file_name(img.file.as_str(), if img.url.as_str().is_empty() {
            img.file.as_str()
        } else {
            img.url.as_str()
        }, &mut used);
    }
    assert(name@ == claim);
    (name, kept)
}

/// Gives every record a name that no other record of its split has. Records are taken in
/// input order; the first record with a given (split, file name) pair keeps its file name
/// unless an earlier record of the split already claimed it; every other one is renamed to
/// `stem__hash.ext`, where the hash is that of its URL (or file name when the URL is empty),
/// with `__2`, `__3`, ... added to the hash while the name is still taken.
pub fn prepare_images_with_unique_output_names(images: &[ImageEntry]) -> (r: Vec<ImageEntry>)
    ensures
        r@.len() == images@.len(),
        claimed_names(images@).len() == images@.len(),
        forall|i: int|
            0 <= i < images@.len() ==> {
                let a = #[trigger] r@[i];
                let b = images@[i];
                &&& a.record_type@ == b.record_type@
                &&& a.file@ == b.file@
                &&& a.url@ == b.url@
                &&& a.width == b.width
                &&& a.height == b.height
                &&& a.split@ == b.split@
                &&& a.annotations == b.annotations
                &&& a.classifications@ == b.classifications@
                &&& if kept_literal(images@, i) {
                    a.output_file == b.output_file && claimed_names(images@)[i] == b.file@
                } else {
                    a.output_file matches Some(o) && o@ == claimed_names(images@)[i]
                }
            },
{
    let mut out: Vec<ImageEntry> = Vec::new();
    let mut claimed: Vec<String> = Vec::new();
    let mut norm: Vec<String> = Vec::new();
    let mut i: usize = 0;
    while i < images.len()
        invariant
            i <= images@.len(),
            out@.len() == i,
            claimed@.len() == i,
            norm@.len() == i,
            forall|j: int| 0 <= j < i ==> (#[trigger] norm@[j])@ == normalized_split(images@[j].split@),
            claimed@.map_values(|c: String| c@) == claimed_names(images@.subrange(0, i as int)),
            forall|k: int|
                0 <= k < i ==> {
                    let a = #[trigger] out@[k];
                    let b = images@[k];
                    &&& a.record_type@ == b.record_type@
                    &&& a.file@ == b.file@
                    &&& a.url@ == b.url@
                    &&& a.width == b.width
                    &&& a.height == b.height
                    &&& a.split@ == b.split@
                    &&& a.annotations == b.annotations
                    &&& a.classifications@ == b.classifications@
                    &&& if kept_literal(images@, k) {
                        a.output_file == b.output_file && claimed@[k]@ == b.file@
                    } else {
                        a.output_file matches Some(o) && o@ == claimed@[k]@
                    }
                },
        decreases images@.len() - i,
    {
        let img = &images[i];
        let ghost prefix = images@.subrange(0, i as int);
        let ghost pc = claimed_names(prefix);
        proof {
            lemma_claimed_len(prefix);
            assert(images@.subrange(0, i + 1).drop_last() =~= prefix);
            assert(images@.subrange(0, i + 1).last() == *img);
        }
        let (name, kept) = resolve_one(images, &norm, &claimed, i);
        let split_key = normalize_split(img.split.as_str());
        let ghost claim = claim_of(prefix, pc, *img);
        let ghost keep = keeps_literal(prefix, pc, *img);
        if kept {
            out.push(img.with_output_file(copy_output_file(&img.output_file)));
        } else {
            out.push(img.with_output_file(Some(name.clone())));
        }
        let ghost old_claimed = claimed@;
        claimed.push(name);
        norm.push(String::from_str(split_key));
        proof {
            assert(claimed@.map_values(|c: String| c@) =~= old_claimed.map_values(|c: String| c@).push(claim));
            assert(kept_literal(images@, i as int) == keep);
        }
        i = i + 1;
    }
    proof {
        assert(images@.subrange(0, images@.len() as int) =~= images@);
        lemma_claimed_len(images@);
        assert forall|k: int| 0 <= k < images@.len() implies claimed@[k]@ == claimed_names(images@)[k] by {
            assert(claimed@.map_values(|c: String| c@)[k] == claimed@[k]@);
        }
    }
    out
}

/// Two record lists agree on what the resolver reads: splits, file names and URLs.
pub open spec fn same_naming_input(a: Seq<ImageEntry>, b: Seq<ImageEntry>) -> bool {
    a.len() == b.len() && forall|i: int|
        0 <= i < a.len() ==> (#[trigger] a[i]).split@ == b[i].split@ && a[i].file@ == b[i].file@
            && a[i].url@ == b[i].url@
}

proof fn lemma_taken_same(a: Seq<ImageEntry>, b: Seq<ImageEntry>, p: Seq<Seq<char>>, sp: Seq<char>)
    requires
        same_naming_input(a, b),
    ensures
        taken_in(a, p, sp) == taken_in(b, p, sp),
{
    assert forall|x: Seq<char>| taken_in(a, p, sp).contains(x) <==> taken_in(b, p, sp).contains(x) by {
        if taken_in(a, p, sp).contains(x) {
            let j = choose|j: int| 0 <= j < a.len() && normalized_split(#[trigger] a[j].split@) == sp && p[j] == x;
            assert(b[j].split@ == a[j].split@);
        }
        if taken_in(b, p, sp).contains(x) {
            let j = choose|j: int| 0 <= j < b.len() && normalized_split(#[trigger] b[j].split@) == sp && p[j] == x;
            assert(b[j].split@ == a[j].split@);
        }
    }
    assert(taken_in(a, p, sp) =~= taken_in(b, p, sp));
}

/// The resolver is deterministic: the names it assigns depend only on the splits, file
/// names and URLs of the records, in their order, so running it twice on the same input
/// assigns the same names, and the same records keep their own file names.
pub proof fn lemma_resolver_deterministic(a: Seq<ImageEntry>, b: Seq<ImageEntry>)
    requires
        same_naming_input(a, b),
    ensures
        claimed_names(a) == claimed_names(b),
        forall|i: int| 0 <= i < a.len() ==> kept_literal(a, i) == kept_literal(b, i),
    decreases a.len(),
{
    if a.len() > 0 {
        let a0 = a.drop_last();
        let b0 = b.drop_last();
        lemma_resolver_deterministic(a0, b0);
        let p = claimed_names(a0);
        let e = a.last();
        let f = b.last();
        lemma_taken_same(a0, b0, p, normalized_split(e.split@));
        assert(seen_in(a0, e) == seen_in(b0, f)) by {
            if seen_in(a0, e) {
                let j = choose|j: int| 0 <= j < a0.len() && normalized_split(#[trigger] a0[j].split@) == normalized_split(e.split@) && a0[j].file@ == e.file@;
                assert(b0[j].split@ == a0[j].split@);
            }
            if seen_in(b0, f) {
                let j = choose|j: int| 0 <= j < b0.len() && normalized_split(#[trigger] b0[j].split@) == normalized_split(f.split@) && b0[j].file@ == f.file@;
                assert(b0[j].split@ == a0[j].split@);
            }
        }
    }
    assert forall|i: int| 0 <= i < a.len() implies kept_literal(a, i) == kept_literal(b, i) by {
        let sa = a.subrange(0, i);
        let sb = b.subrange(0, i);
        lemma_resolver_deterministic(sa, sb);
        let p = claimed_names(sa);
        lemma_taken_same(sa, sb, p, normalized_split(a[i].split@));
        assert(seen_in(sa, a[i]) == seen_in(sb, b[i])) by {
            if seen_in(sa, a[i]) {
                let j = choose|j: int| 0 <= j < sa.len() && normalized_split(#[trigger] sa[j].split@) == normalized_split(a[i].split@) && sa[j].file@ == a[i].file@;
                assert(sb[j].split@ == sa[j].split@);
            }
            if seen_in(sb, b[i]) {
                let j = choose|j: int| 0 <= j < sb.len() && normalized_split(#[trigger] sb[j].split@) == normalized_split(b[i].split@) && sb[j].file@ == b[i].file@;
                assert(sb[j].split@ == sa[j].split@);
            }
        }
    }
}

/// The first record with a given (split, file name) pair keeps its file name, unless a
/// record before it in the same split was already given that name.
pub proof fn lemma_first_occurrence_keeps_name(imgs: Seq<ImageEntry>, i: int)
    requires
        0 <= i < imgs.len(),
        forall|j: int|
            0 <= j < i ==> !(normalized_split((#[trigger] imgs[j]).split@) == normalized_split(imgs[i].split@)
                && imgs[j].file@ == imgs[i].file@),
        forall|j: int|
            0 <= j < i && normalized_split((#[trigger] imgs[j]).split@) == normalized_split(imgs[i].split@)
                ==> claimed_names(imgs)[j] != imgs[i].file@,
    ensures
        kept_literal(imgs, i),
        claimed_names(imgs)[i] == imgs[i].file@,
{
    let pre = imgs.subrange(0, i);
    lemma_claimed_prefix(imgs, i);
    lemma_claimed_prefix(imgs, i + 1);
    lemma_claimed_len(imgs);
    let pc = claimed_names(pre);
    assert(!seen_in(pre, imgs[i])) by {
        if seen_in(pre, imgs[i]) {
            let j = choose|j: int| 0 <= j < pre.len() && normalized_split(#[trigger] pre[j].split@) == normalized_split(imgs[i].split@) && pre[j].file@ == imgs[i].file@;
            assert(imgs[j] == pre[j]);
        }
    }
    assert(!taken_in(pre, pc, normalized_split(imgs[i].split@)).contains(imgs[i].file@)) by {
        if taken_in(pre, pc, normalized_split(imgs[i].split@)).contains(imgs[i].file@) {
            let j = choose|j: int| 0 <= j < pre.len() && normalized_split(#[trigger] pre[j].split@) == normalized_split(imgs[i].split@) && pc[j] == imgs[i].file@;
            assert(imgs[j] == pre[j]);
            assert(pc[j] == claimed_names(imgs)[j]);
        }
    }
    let s = imgs.subrange(0, i + 1);
    assert(s.drop_last() =~= pre);
    assert(claimed_names(s)[i] == claimed_names(imgs)[i]);
}

proof fn lemma_min_free(file: Seq<char>, src: Seq<char>, taken: Set<Seq<char>>, j: nat, m: nat)
    requires
        1 <= j <= m,
        forall|i: nat| 1 <= i < j ==> taken.contains(#[trigger] candidate(file, src, i)),
        exists|k: nat| j <= k <= m && !taken.contains(#[trigger] candidate(file, src, k)),
    ensures
        exists|k: nat|
            k >= 1 && !taken.contains(candidate(file, src, k)) && forall|i: nat|
                1 <= i < k ==> taken.contains(#[trigger] candidate(file, src, i)),
    decreases m - j,
{
    if !taken.contains(candidate(file, src, j)) {
        assert(j >= 1 && !taken.contains(candidate(file, src, j)) && forall|i: nat|
            1 <= i < j ==> taken.contains(#[trigger] candidate(file, src, i)));
    } else {
        assert forall|i: nat| 1 <= i < j + 1 implies taken.contains(#[trigger] candidate(file, src, i)) by {}
        let k = choose|k: nat| j <= k <= m && !taken.contains(#[trigger] candidate(file, src, k));
        assert(k != j);
        lemma_min_free(file, src, taken, j + 1, m);
    }
}

/// A renamed record's name is never one already taken in its split.
pub proof fn lemma_fresh_name_is_free(file: Seq<char>, src: Seq<char>, taken: Set<Seq<char>>)
    requires
        taken.finite(),
    ensures
        !taken.contains(fresh_name(file, src, taken)),
{
    let m = taken.len() + 1;
    if forall|k: nat| 1 <= k <= m ==> taken.contains(#[trigger] candidate(file, src, k)) {
        lemma_attempts_bounded(file, src, taken, m);
    }
    lemma_min_free(file, src, taken, 1, m);
}

proof fn lemma_taken_finite(imgs: Seq<ImageEntry>, claimed: Seq<Seq<char>>, split: Seq<char>)
    requires
        claimed.len() >= imgs.len(),
    ensures
        taken_in(imgs, claimed, split).finite(),
{
    let all = claimed.to_set();
    assert forall|x: Seq<char>| taken_in(imgs, claimed, split).contains(x) implies all.contains(x) by {
        let j = choose|j: int| 0 <= j < imgs.len() && normalized_split(#[trigger] imgs[j].split@) == split && claimed[j] == x;
        assert(claimed[j] == x);
    }
    vstd::seq_lib::seq_to_set_is_finite(claimed);
    vstd::set_lib::lemma_len_subset(taken_in(imgs, claimed, split), all);
}

proof fn lemma_claim_is_free(pre: Seq<ImageEntry>, pc: Seq<Seq<char>>, e: ImageEntry)
    requires
        pc.len() >= pre.len(),
    ensures
        !taken_in(pre, pc, normalized_split(e.split@)).contains(claim_of(pre, pc, e)),
{
    let sp = normalized_split(e.split@);
    lemma_taken_finite(pre, pc, sp);
    if !keeps_literal(pre, pc, e) {
        lemma_fresh_name_is_free(e.file@, hash_source_of(e), taken_in(pre, pc, sp));
    }
}

/// Within a split, no two records claim the same name: each record's claimed name, which
/// is its effective name when the input carries no output names, is unique in its split.
pub proof fn lemma_claimed_names_unique(imgs: Seq<ImageEntry>)
    ensures
        forall|i: int, j: int|
            0 <= i < j < imgs.len() && normalized_split(imgs[i].split@) == normalized_split(imgs[j].split@)
                ==> #[trigger] claimed_names(imgs)[i] != #[trigger] claimed_names(imgs)[j],
    decreases imgs.len(),
{
    lemma_claimed_len(imgs);
    if imgs.len() > 0 {
        let pre = imgs.drop_last();
        let e = imgs.last();
        let pc = claimed_names(pre);
        lemma_claimed_names_unique(pre);
        lemma_claimed_len(pre);
        let sp = normalized_split(e.split@);
        let taken = taken_in(pre, pc, sp);
        let c = claim_of(pre, pc, e);
        lemma_claim_is_free(pre, pc, e);
        let all = claimed_names(imgs);
        assert(all == pc.push(c));
        assert forall|i: int, j: int|
            0 <= i < j < imgs.len() && normalized_split(imgs[i].split@) == normalized_split(imgs[j].split@)
                implies #[trigger] all[i] != #[trigger] all[j] by {
            if j == imgs.len() - 1 {
                assert(pre[i] == imgs[i]);
                assert(all[i] == pc[i]);
                assert(normalized_split(pre[i].split@) == sp);
                assert(taken.contains(pc[i]));
            } else {
                assert(pre[i] == imgs[i] && pre[j] == imgs[j]);
                assert(all[i] == pc[i] && all[j] == pc[j]);
            }
        }
    }
}

} // verus!
