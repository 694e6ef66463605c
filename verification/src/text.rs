//! Character-level text processing over `Seq<char>`: trimming, splitting,
//! searching and joining, with the semantics of the corresponding `str`
//! methods of the standard library.
use vstd::prelude::*;

verus! {

// ---------------------------------------------------------------------------
// Conversions between strings and characters (std calls)
// ---------------------------------------------------------------------------

/// Calls `str::chars` and collects the characters: the result is exactly the
/// sequence of characters of `s`.
#[verifier::external_body]
pub(crate) fn chars_of(s: &str) -> (v: Vec<char>)
    ensures
        v@ == s@,
{
    s.chars().collect()
}

/// Builds a `String` from characters with `FromIterator<char>`: the string
/// holds exactly these characters.
#[verifier::external_body]
pub(crate) fn string_of(v: &[char]) -> (s: String)
    ensures
        s@ == v@,
{
    v.iter().collect()
}

/// Compares two string slices with `str`'s `==`, which compares their
/// characters.
#[verifier::external_body]
pub(crate) fn str_eq(a: &str, b: &str) -> (r: bool)
    ensures
        r == (a@ == b@),
{
    a == b
}

/// What `char::is_alphanumeric` answers for a character (Unicode
/// Alphabetic or Numeric).
pub uninterp spec fn std_is_alphanumeric(c: char) -> bool;

/// ASCII characters are alphanumeric exactly when they are letters or digits.
pub open spec fn ascii_alnum(c: char) -> bool {
    ('a' <= c && c <= 'z') || ('A' <= c && c <= 'Z') || ('0' <= c && c <= '9')
}

/// Calls `char::is_alphanumeric`. Its result is named; for ASCII characters
/// the standard library documents it as "letter or digit".
#[verifier::external_body]
pub(crate) fn is_alphanumeric(c: char) -> (r: bool)
    ensures
        r == std_is_alphanumeric(c),
        (c as u32) < 128 ==> (r == ascii_alnum(c)),
{
    c.is_alphanumeric()
}

/// What `str::to_lowercase` returns (full Unicode lower-casing).
pub uninterp spec fn std_to_lowercase(s: Seq<char>) -> Seq<char>;

/// ASCII lower-casing of a sequence of characters.
pub open spec fn ascii_lower_char(c: char) -> char {
    if 'A' <= c && c <= 'Z' {
        ((c as u32) + 32) as char
    } else {
        c
    }
}

pub open spec fn all_ascii(s: Seq<char>) -> bool {
    forall|i: int| 0 <= i < s.len() ==> (#[trigger] s[i] as u32) < 128
}

/// Calls `str::to_lowercase`. The result is named; on ASCII input it is the
/// ASCII lower-casing, as the standard library documents.
#[verifier::external_body]
pub(crate) fn to_lowercase(s: &str) -> (r: String)
    ensures
        r@ == std_to_lowercase(s@),
        all_ascii(s@) ==> r@ == s@.map_values(|c: char| ascii_lower_char(c)),
{
    s.to_lowercase()
}

// ---------------------------------------------------------------------------
// Character classes
// ---------------------------------------------------------------------------

/// `char::is_whitespace`: the Unicode White_Space property.
pub open spec fn is_ws(c: char) -> bool {
    let u = c as u32;
    (0x9 <= u && u <= 0xD) || u == 0x20 || u == 0x85 || u == 0xA0 || u == 0x1680 || (0x2000 <= u
        && u <= 0x200A) || u == 0x2028 || u == 0x2029 || u == 0x202F || u == 0x205F || u == 0x3000
}

pub fn is_whitespace(c: char) -> (r: bool)
    ensures
        r == is_ws(c),
{
    let u = c as u32;
    (0x9 <= u && u <= 0xD) || u == 0x20 || u == 0x85 || u == 0xA0 || u == 0x1680 || (0x2000 <= u
        && u <= 0x200A) || u == 0x2028 || u == 0x2029 || u == 0x202F || u == 0x205F || u == 0x3000
}

/// A class of characters used to trim or split text.
pub enum CharClass {
    /// `char::is_whitespace`.
    Whitespace,
    /// One given character.
    Exactly(char),
    /// Any character of the given text.
    AnyOf(&'static str),
    /// Neither alphanumeric nor `_`.
    NotIdent,
    /// Neither alphanumeric nor `_` nor `.`.
    NotIdentOrDot,
}

pub open spec fn in_class(k: CharClass, c: char) -> bool {
    match k {
        CharClass::Whitespace => is_ws(c),
        CharClass::Exactly(x) => c == x,
        CharClass::AnyOf(v) => v@.contains(c),
        CharClass::NotIdent => !std_is_alphanumeric(c) && c != '_',
        CharClass::NotIdentOrDot => !std_is_alphanumeric(c) && c != '_' && c != '.',
    }
}

pub fn class_contains(k: &CharClass, c: char) -> (r: bool)
    ensures
        r == in_class(*k, c),
{
    match k {
        CharClass::Whitespace => is_whitespace(c),
        CharClass::Exactly(x) => c == *x,
        CharClass::AnyOf(t) => {
            let v = chars_of(t);
            let mut i: usize = 0;
            while i < v.len()
                invariant
                    0 <= i <= v.len(),
                    v@ == t@,
                    in_class(*k, c) == v@.contains(c),
                    forall|j: int| 0 <= j < i ==> v@[j] != c,
                decreases v.len() - i,
            {
                if v[i] == c {
                    assert(v@[i as int] == c);
                    assert(v@.contains(c));
                    return true;
                }
                i = i + 1;
            }
            false
        },
        CharClass::NotIdent => !is_alphanumeric(c) && c != '_',
        CharClass::NotIdentOrDot => !is_alphanumeric(c) && c != '_' && c != '.',
    }
}

/// Whether two character sequences are equal.
pub fn seq_eq(a: &[char], b: &[char]) -> (r: bool)
    ensures
        r == (a@ == b@),
{
    if a.len() != b.len() {
        return false;
    }
    let mut i: usize = 0;
    while i < a.len()
        invariant
            0 <= i <= a.len(),
            a@.len() == b@.len(),
            forall|j: int| 0 <= j < i ==> a@[j] == b@[j],
        decreases a.len() - i,
    {
        if a[i] != b[i] {
            return false;
        }
        i = i + 1;
    }
    assert(a@ =~= b@);
    true
}

/// The character sequences held by a vector of character vectors.
pub open spec fn views(v: Seq<Vec<char>>) -> Seq<Seq<char>> {
    v.map_values(|x: Vec<char>| x@)
}

// ---------------------------------------------------------------------------
// Scanning
// ---------------------------------------------------------------------------

/// The first index `j >= i` at which membership of `s[j]` in `k` equals
/// `want`, or `s.len()` when there is none.
pub open spec fn scan(s: Seq<char>, k: CharClass, want: bool, i: int) -> int
    decreases s.len() - i,
{
    if i < 0 || i >= s.len() {
        s.len() as int
    } else if in_class(k, s[i]) == want {
        i
    } else {
        scan(s, k, want, i + 1)
    }
}

pub proof fn lemma_scan_bounds(s: Seq<char>, k: CharClass, want: bool, i: int)
    requires
        0 <= i <= s.len(),
    ensures
        i <= scan(s, k, want, i) <= s.len(),
        forall|j: int| i <= j < scan(s, k, want, i) ==> in_class(k, #[trigger] s[j]) != want,
        scan(s, k, want, i) < s.len() ==> in_class(k, s[scan(s, k, want, i)]) == want,
    decreases s.len() - i,
{
    if i < s.len() && in_class(k, s[i]) != want {
        lemma_scan_bounds(s, k, want, i + 1);
    }
}

pub fn scan_exec(s: &[char], k: &CharClass, want: bool, i: usize) -> (r: usize)
    requires
        i <= s.len(),
    ensures
        r == scan(s@, *k, want, i as int),
        i <= r <= s.len(),
{
    let mut j = i;
    while j < s.len()
        invariant
            i <= j <= s.len(),
            scan(s@, *k, want, i as int) == scan(s@, *k, want, j as int),
        decreases s.len() - j,
    {
        if class_contains(k, s[j]) == want {
            return j;
        }
        j = j + 1;
    }
    j
}

/// The end of `s[lo..j]` once trailing members of `k` are removed.
pub open spec fn trim_end_pos(s: Seq<char>, k: CharClass, lo: int, j: int) -> int
    decreases j - lo,
{
    if j <= lo {
        lo
    } else if in_class(k, s[j - 1]) {
        trim_end_pos(s, k, lo, j - 1)
    } else {
        j
    }
}

pub proof fn lemma_trim_end_pos_bounds(s: Seq<char>, k: CharClass, lo: int, j: int)
    requires
        lo <= j,
    ensures
        lo <= trim_end_pos(s, k, lo, j) <= j,
    decreases j - lo,
{
    if j > lo && in_class(k, s[j - 1]) {
        lemma_trim_end_pos_bounds(s, k, lo, j - 1);
    }
}

pub fn trim_end_pos_exec(s: &[char], k: &CharClass, lo: usize, hi: usize) -> (r: usize)
    requires
        lo <= hi <= s.len(),
    ensures
        r == trim_end_pos(s@, *k, lo as int, hi as int),
        lo <= r <= hi,
{
    let mut j = hi;
    while j > lo
        invariant
            lo <= j <= hi,
            hi <= s.len(),
            trim_end_pos(s@, *k, lo as int, hi as int) == trim_end_pos(s@, *k, lo as int, j as int),
        decreases j - lo,
    {
        if !class_contains(k, s[j - 1]) {
            return j;
        }
        j = j - 1;
    }
    j
}

/// Copies `s[a..b]`.
pub fn slice_range(s: &[char], a: usize, b: usize) -> (r: Vec<char>)
    requires
        a <= b <= s.len(),
    ensures
        r@ == s@.subrange(a as int, b as int),
{
    let mut r: Vec<char> = Vec::new();
    let mut i = a;
    while i < b
        invariant
            a <= i <= b <= s.len(),
            r@ == s@.subrange(a as int, i as int),
        decreases b - i,
    {
        r.push(s[i]);
        i = i + 1;
        assert(r@ =~= s@.subrange(a as int, i as int));
    }
    r
}

// ---------------------------------------------------------------------------
// Trimming
// ---------------------------------------------------------------------------

/// `trim_start_matches`: drops leading members of `k`.
pub open spec fn trim_start(s: Seq<char>, k: CharClass) -> Seq<char> {
    s.subrange(scan(s, k, false, 0), s.len() as int)
}

/// `trim_end_matches`: drops trailing members of `k`.
pub open spec fn trim_end(s: Seq<char>, k: CharClass) -> Seq<char> {
    s.subrange(0, trim_end_pos(s, k, 0, s.len() as int))
}

/// `trim_matches`: drops leading and trailing members of `k`.
pub open spec fn trim(s: Seq<char>, k: CharClass) -> Seq<char> {
    let a = scan(s, k, false, 0);
    s.subrange(a, trim_end_pos(s, k, a, s.len() as int))
}

pub fn trim_start_exec(s: &[char], k: &CharClass) -> (r: Vec<char>)
    ensures
        r@ == trim_start(s@, *k),
{
    let a = scan_exec(s, k, false, 0);
    slice_range(s, a, s.len())
}

pub fn trim_end_exec(s: &[char], k: &CharClass) -> (r: Vec<char>)
    ensures
        r@ == trim_end(s@, *k),
{
    let b = trim_end_pos_exec(s, k, 0, s.len());
    slice_range(s, 0, b)
}

pub fn trim_exec(s: &[char], k: &CharClass) -> (r: Vec<char>)
    ensures
        r@ == trim(s@, *k),
{
    let a = scan_exec(s, k, false, 0);
    let b = trim_end_pos_exec(s, k, a, s.len());
    slice_range(s, a, b)
}

// ---------------------------------------------------------------------------
// Splitting
// ---------------------------------------------------------------------------

/// The pieces of `s[i..]` separated by members of `k` (`str::split` with a
/// character predicate): `n` separators give `n + 1` pieces.
pub open spec fn split_from(s: Seq<char>, k: CharClass, i: int) -> Seq<Seq<char>>
    decreases s.len() - i,
{
    if i < 0 || i > s.len() {
        seq![]
    } else {
        let j = scan(s, k, true, i);
        if j < i || j >= s.len() {
            seq![s.subrange(i, s.len() as int)]
        } else {
            seq![s.subrange(i, j)] + split_from(s, k, j + 1)
        }
    }
}

pub open spec fn split(s: Seq<char>, k: CharClass) -> Seq<Seq<char>> {
    split_from(s, k, 0)
}

/// Splitting gives at least one piece.
pub proof fn lemma_split_nonempty(s: Seq<char>, k: CharClass)
    ensures
        split(s, k).len() >= 1,
{
    lemma_scan_bounds(s, k, true, 0);
}

pub fn split_exec(s: &[char], k: &CharClass) -> (r: Vec<Vec<char>>)
    ensures
        views(r@) == split(s@, *k),
{
    let mut out: Vec<Vec<char>> = Vec::new();
    let mut i: usize = 0;
    loop
        invariant
            0 <= i <= s.len(),
            views(out@) + split_from(s@, *k, i as int) == split(s@, *k),
        decreases s.len() - i,
    {
        let j = scan_exec(s, k, true, i);
        let piece = slice_range(s, i, j);
        let ghost before = views(out@);
        out.push(piece);
        assert(views(out@) =~= before.push(piece@));
        if j >= s.len() {
            assert(split_from(s@, *k, i as int) == seq![s@.subrange(i as int, s.len() as int)]);
            assert(views(out@) =~= before + split_from(s@, *k, i as int));
            return out;
        }
        assert(split_from(s@, *k, i as int) == seq![s@.subrange(i as int, j as int)] + split_from(
            s@,
            *k,
            j + 1,
        ));
        assert(views(out@) + split_from(s@, *k, j + 1) =~= before + split_from(
            s@,
            *k,
            i as int,
        ));
        i = j + 1;
    }
}

/// Drops the empty pieces, keeping the order of the others.
pub open spec fn drop_empty(ps: Seq<Seq<char>>) -> Seq<Seq<char>>
    decreases ps.len(),
{
    if ps.len() == 0 {
        seq![]
    } else {
        let rest = drop_empty(ps.drop_last());
        if ps.last().len() > 0 {
            rest.push(ps.last())
        } else {
            rest
        }
    }
}

pub fn drop_empty_exec(ps: &Vec<Vec<char>>) -> (r: Vec<Vec<char>>)
    ensures
        views(r@) == drop_empty(views(ps@)),
{
    let mut out: Vec<Vec<char>> = Vec::new();
    let mut i: usize = 0;
    while i < ps.len()
        invariant
            0 <= i <= ps.len(),
            views(out@) == drop_empty(views(ps@).take(i as int)),
        decreases ps.len() - i,
    {
        let ghost pre = views(ps@).take(i as int);
        assert(views(ps@).take(i + 1).drop_last() =~= pre);
        if ps[i].len() > 0 {
            let ghost before = views(out@);
            out.push(ps[i].clone());
            assert(views(out@) =~= before.push(ps[i as int]@));
        }
        i = i + 1;
    }
    assert(views(ps@).take(ps.len() as int) =~= views(ps@));
    out
}

/// `str::split_whitespace`: the non-empty pieces between whitespace.
pub open spec fn words(s: Seq<char>) -> Seq<Seq<char>> {
    drop_empty(split(s, CharClass::Whitespace))
}

pub fn words_exec(s: &[char]) -> (r: Vec<Vec<char>>)
    ensures
        views(r@) == words(s@),
{
    let pieces = split_exec(s, &CharClass::Whitespace);
    drop_empty_exec(&pieces)
}

/// Removes one trailing carriage return.
pub open spec fn strip_cr(l: Seq<char>) -> Seq<char> {
    if l.len() > 0 && l.last() == '\r' {
        l.drop_last()
    } else {
        l
    }
}

/// `str::lines`: the pieces between `'\n'`, each without a `'\r'` that ends
/// it before the newline; a final empty piece is not a line.
pub open spec fn lines(s: Seq<char>) -> Seq<Seq<char>> {
    let ps = split(s, CharClass::Exactly('\n'));
    let body = ps.drop_last().map_values(|l: Seq<char>| strip_cr(l));
    if ps.len() > 0 && ps.last().len() > 0 {
        body.push(ps.last())
    } else {
        body
    }
}

pub fn lines_exec(s: &[char]) -> (r: Vec<Vec<char>>)
    ensures
        views(r@) == lines(s@),
{
    let ps = split_exec(s, &CharClass::Exactly('\n'));
    let mut out: Vec<Vec<char>> = Vec::new();
    let n = ps.len();
    let ghost pv = views(ps@);
    let mut i: usize = 0;
    while i + 1 < n
        invariant
            n == ps.len(),
            pv == views(ps@),
            0 <= i <= n,
            i + 1 < n || i == 0 || i + 1 == n,
            views(out@) == pv.take(i as int).map_values(|l: Seq<char>| strip_cr(l)),
        decreases n - i,
    {
        let l = &ps[i];
        let ln = l.len();
        let ghost before = views(out@);
        assert(pv[i as int] == l@);
        if ln > 0 && l[ln - 1] == '\r' {
            let t = slice_range(l.as_slice(), 0, ln - 1);
            assert(t@ =~= strip_cr(l@));
            out.push(t);
        } else {
            let t = l.clone();
            assert(t@ == strip_cr(l@));
            out.push(t);
        }
        assert(views(out@) =~= before.push(strip_cr(pv[i as int])));
        assert(pv.take(i + 1).map_values(|l: Seq<char>| strip_cr(l)) =~= pv.take(i as int).map_values(
            |l: Seq<char>| strip_cr(l),
        ).push(strip_cr(pv[i as int])));
        i = i + 1;
    }
    if n > 0 {
        assert(i + 1 == n);
        assert(pv.take(i as int) =~= pv.drop_last());
        if ps[n - 1].len() > 0 {
            let ghost before = views(out@);
            out.push(ps[n - 1].clone());
            assert(views(out@) =~= before.push(pv.last()));
        }
    } else {
        assert(pv.drop_last().map_values(|l: Seq<char>| strip_cr(l)) =~= seq![]);
    }
    out
}

// ---------------------------------------------------------------------------
// Searching
// ---------------------------------------------------------------------------

pub open spec fn occurs_at(s: Seq<char>, p: Seq<char>, i: int) -> bool {
    0 <= i && i + p.len() <= s.len() && s.subrange(i, i + p.len()) == p
}

pub open spec fn is_first_occurrence(s: Seq<char>, p: Seq<char>, i: int) -> bool {
    occurs_at(s, p, i) && forall|j: int| 0 <= j < i ==> !occurs_at(s, p, j)
}

/// `str::find` with a string pattern, counted in characters.
pub open spec fn find(s: Seq<char>, p: Seq<char>) -> Option<int> {
    if exists|i: int| is_first_occurrence(s, p, i) {
        Some(choose|i: int| is_first_occurrence(s, p, i))
    } else {
        None
    }
}

pub open spec fn contains(s: Seq<char>, p: Seq<char>) -> bool {
    exists|i: int| occurs_at(s, p, i)
}

pub open spec fn starts_with(s: Seq<char>, p: Seq<char>) -> bool {
    occurs_at(s, p, 0)
}

pub open spec fn ends_with(s: Seq<char>, p: Seq<char>) -> bool {
    p.len() <= s.len() && occurs_at(s, p, s.len() - p.len())
}

pub fn occurs_at_exec(s: &[char], p: &[char], i: usize) -> (r: bool)
    ensures
        r == occurs_at(s@, p@, i as int),
{
    if i > s.len() || p.len() > s.len() - i {
        return false;
    }
    let mut j: usize = 0;
    while j < p.len()
        invariant
            i + p.len() <= s.len(),
            0 <= j <= p.len(),
            forall|t: int| 0 <= t < j ==> s@[i + t] == p@[t],
        decreases p.len() - j,
    {
        if s[i + j] != p[j] {
            assert(s@.subrange(i as int, i + p.len())[j as int] != p@[j as int]);
            return false;
        }
        j = j + 1;
    }
    assert(s@.subrange(i as int, i + p.len()) =~= p@);
    true
}

/// What `find` returns is the first occurrence.
pub proof fn lemma_find_some(s: Seq<char>, p: Seq<char>)
    ensures
        find(s, p) matches Some(i) ==> is_first_occurrence(s, p, i),
{
}

pub proof fn lemma_find_is(s: Seq<char>, p: Seq<char>, i: int)
    requires
        is_first_occurrence(s, p, i),
    ensures
        find(s, p) == Some(i),
{
    let c = choose|x: int| is_first_occurrence(s, p, x);
    assert(is_first_occurrence(s, p, c));
    if c < i {
        assert(!occurs_at(s, p, c));
    }
    if i < c {
        assert(!occurs_at(s, p, i));
    }
}

pub fn find_exec(s: &[char], p: &[char]) -> (r: Option<usize>)
    ensures
        match r {
            Some(i) => find(s@, p@) == Some(i as int),
            None => find(s@, p@) is None,
        },
        r is Some <==> contains(s@, p@),
{
    let mut i: usize = 0;
    loop
        invariant
            0 <= i <= s.len(),
            forall|j: int| 0 <= j < i ==> !occurs_at(s@, p@, j),
        decreases s.len() - i,
    {
        if occurs_at_exec(s, p, i) {
            proof {
                lemma_find_is(s@, p@, i as int);
            }
            return Some(i);
        }
        if i == s.len() {
            assert forall|j: int| !occurs_at(s@, p@, j) by {
                if 0 <= j < i {
                }
            }
            return None;
        }
        i = i + 1;
    }
}

pub fn starts_with_exec(s: &[char], p: &[char]) -> (r: bool)
    ensures
        r == starts_with(s@, p@),
{
    occurs_at_exec(s, p, 0)
}

pub fn ends_with_exec(s: &[char], p: &[char]) -> (r: bool)
    ensures
        r == ends_with(s@, p@),
{
    if p.len() > s.len() {
        return false;
    }
    occurs_at_exec(s, p, s.len() - p.len())
}

pub fn contains_exec(s: &[char], p: &[char]) -> (r: bool)
    ensures
        r == contains(s@, p@),
{
    find_exec(s, p).is_some()
}

// ---------------------------------------------------------------------------
// Rewriting
// ---------------------------------------------------------------------------

/// `str::replace` of one character by a string, over the first `n` characters.
pub open spec fn replace_upto(s: Seq<char>, c: char, rep: Seq<char>, n: int) -> Seq<char>
    decreases n,
{
    if n <= 0 {
        seq![]
    } else {
        replace_upto(s, c, rep, n - 1) + (if s[n - 1] == c {
            rep
        } else {
            seq![s[n - 1]]
        })
    }
}

pub open spec fn replace_char(s: Seq<char>, c: char, rep: Seq<char>) -> Seq<char> {
    replace_upto(s, c, rep, s.len() as int)
}

pub fn replace_char_exec(s: &[char], c: char, rep: &[char]) -> (r: Vec<char>)
    ensures
        r@ == replace_char(s@, c, rep@),
{
    let mut out: Vec<char> = Vec::new();
    let mut i: usize = 0;
    while i < s.len()
        invariant
            0 <= i <= s.len(),
            out@ == replace_upto(s@, c, rep@, i as int),
        decreases s.len() - i,
    {
        if s[i] == c {
            let mut j: usize = 0;
            let ghost base = out@;
            while j < rep.len()
                invariant
                    0 <= j <= rep.len(),
                    out@ == base + rep@.take(j as int),
                decreases rep.len() - j,
            {
                out.push(rep[j]);
                j = j + 1;
                assert(out@ =~= base + rep@.take(j as int));
            }
            assert(rep@.take(rep.len() as int) =~= rep@);
        } else {
            let ghost base = out@;
            out.push(s[i]);
            assert(out@ =~= base + seq![s@[i as int]]);
        }
        i = i + 1;
    }
    out
}

/// Appends `b` to `a`.
pub fn append(a: &mut Vec<char>, b: &[char])
    ensures
        final(a)@ == old(a)@ + b@,
{
    let ghost base = a@;
    let mut j: usize = 0;
    while j < b.len()
        invariant
            0 <= j <= b.len(),
            a@ == base + b@.take(j as int),
        decreases b.len() - j,
    {
        a.push(b[j]);
        j = j + 1;
        assert(a@ =~= base + b@.take(j as int));
    }
    assert(b@.take(b.len() as int) =~= b@);
}

/// `join`: the parts with `sep` between consecutive ones.
pub open spec fn join(ps: Seq<Seq<char>>, sep: Seq<char>) -> Seq<char>
    decreases ps.len(),
{
    if ps.len() == 0 {
        seq![]
    } else if ps.len() == 1 {
        ps[0]
    } else {
        join(ps.drop_last(), sep) + sep + ps.last()
    }
}

pub fn join_exec(ps: &Vec<Vec<char>>, sep: &[char]) -> (r: Vec<char>)
    ensures
        r@ == join(views(ps@), sep@),
{
    let mut out: Vec<char> = Vec::new();
    let mut i: usize = 0;
    while i < ps.len()
        invariant
            0 <= i <= ps.len(),
            out@ == join(views(ps@).take(i as int), sep@),
        decreases ps.len() - i,
    {
        let ghost pre = views(ps@).take(i as int);
        assert(views(ps@).take(i + 1).drop_last() =~= pre);
        if i > 0 {
            append(&mut out, sep);
        }
        append(&mut out, ps[i].as_slice());
        i = i + 1;
        assert(views(ps@).take(i as int).last() == ps[i - 1]@);
        if i == 1 {
            assert(out@ =~= join(views(ps@).take(i as int), sep@));
        }
    }
    assert(views(ps@).take(ps.len() as int) =~= views(ps@));
    out
}

} // verus!

verus! {

// ---------------------------------------------------------------------------
// Numbers
// ---------------------------------------------------------------------------

pub open spec fn digit_char(d: nat) -> char {
    ((d + 48) as u32) as char
}

/// The decimal digits of a number, as `usize`'s `Display` writes them.
pub open spec fn decimal(n: nat) -> Seq<char>
    decreases n,
{
    if n < 10 {
        seq![digit_char(n)]
    } else {
        decimal(n / 10) + seq![digit_char(n % 10)]
    }
}

/// Writes a number in decimal.
pub fn decimal_exec(n: usize) -> (r: Vec<char>)
    ensures
        r@ == decimal(n as nat),
    decreases n,
{
    if n < 10 {
        let c = char_of_digit(n as u8);
        let mut v: Vec<char> = Vec::new();
        v.push(c);
        assert(v@ =~= seq![digit_char(n as nat)]);
        v
    } else {
        let mut v = decimal_exec(n / 10);
        let c = char_of_digit((n % 10) as u8);
        let ghost before = v@;
        v.push(c);
        assert(v@ =~= before + seq![digit_char((n % 10) as nat)]);
        v
    }
}

fn char_of_digit(d: u8) -> (c: char)
    requires
        d < 10,
    ensures
        c == digit_char(d as nat),
{
    match d {
        0 => '0',
        1 => '1',
        2 => '2',
        3 => '3',
        4 => '4',
        5 => '5',
        6 => '6',
        7 => '7',
        8 => '8',
        _ => '9',
    }
}

} // verus!
