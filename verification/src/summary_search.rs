//! Lexical search over stored summaries: filter, score, rank and report.
use vstd::prelude::*;
use crate::config::SummaryLevel;
use crate::models::Chunk;
use crate::hashing::bytes_of;
use crate::order::{index_views, is_ranking, lemma_ranking_unique, rank_scores, ranking, score_views};
use crate::text::{append, chars_of, decimal, decimal_exec, std_to_lowercase, str_eq, string_of, to_lowercase};

verus! {

/// A stored summary, as the search reads it.
pub struct SummaryRecord {
    pub id: String,
    pub level: SummaryLevel,
    pub target_id: String,
    pub text: String,
    pub file_path: Option<String>,
    pub start_line: Option<usize>,
    pub end_line: Option<usize>,
    pub language: Option<String>,
}

/// The level that a lower-case name stands for.
pub open spec fn level_named(s: Seq<char>) -> Option<SummaryLevel> {
    if s == "function"@ {
        Some(SummaryLevel::Function)
    } else if s == "class"@ {
        Some(SummaryLevel::Class)
    } else if s == "file"@ {
        Some(SummaryLevel::File)
    } else if s == "module"@ {
        Some(SummaryLevel::Module)
    } else if s == "repo"@ {
        Some(SummaryLevel::Repo)
    } else {
        None
    }
}

/// Reads a level's name, in any case.
pub fn parse_level(s: &str) -> (r: Option<SummaryLevel>)
    ensures
        r == level_named(std_to_lowercase(s@)),
{
    let l = to_lowercase(s);
    let ls = l.as_str();
    proof {
        reveal_strlit("function");
        reveal_strlit("class");
        reveal_strlit("file");
        reveal_strlit("module");
        reveal_strlit("repo");
    }
    if str_eq(ls, "function") {
        Some(SummaryLevel::Function)
    } else if str_eq(ls, "class") {
        Some(SummaryLevel::Class)
    } else if str_eq(ls, "file") {
        Some(SummaryLevel::File)
    } else if str_eq(ls, "module") {
        Some(SummaryLevel::Module)
    } else if str_eq(ls, "repo") {
        Some(SummaryLevel::Repo)
    } else {
        None
    }
}

/// The name a level is shown by.
pub open spec fn level_name(l: SummaryLevel) -> Seq<char> {
    match l {
        SummaryLevel::Function => "Function"@,
        SummaryLevel::Class => "Class"@,
        SummaryLevel::File => "File"@,
        SummaryLevel::Module => "Module"@,
        SummaryLevel::Repo => "Repo"@,
    }
}

fn level_name_exec(l: &SummaryLevel) -> (r: Vec<char>)
    ensures
        r@ == level_name(*l),
{
    match l {
        SummaryLevel::Function => chars_of("Function"),
        SummaryLevel::Class => chars_of("Class"),
        SummaryLevel::File => chars_of("File"),
        SummaryLevel::Module => chars_of("Module"),
        SummaryLevel::Repo => chars_of("Repo"),
    }
}

/// Whether a summary passes the level filter and the (lower-case) language
/// filter; a summary without a language fails a language filter.
pub open spec fn passes(r: SummaryRecord, level: Option<SummaryLevel>, lang: Option<Seq<char>>) -> bool {
    &&& (level matches Some(l) ==> r.level == l)
    &&& match lang {
        None => true,
        Some(lf) => match r.language {
            Some(l) => std_to_lowercase(l@) == lf,
            None => false,
        },
    }
}

/// Whether `q` occurs in `h` at byte `i`.
pub open spec fn occurs_bytes(h: Seq<u8>, q: Seq<u8>, i: int) -> bool {
    0 <= i && i + q.len() <= h.len() && h.subrange(i, i + q.len()) == q
}

pub open spec fn first_occurrence_bytes(h: Seq<u8>, q: Seq<u8>, i: int) -> bool {
    occurs_bytes(h, q, i) && forall|j: int| 0 <= j < i ==> !occurs_bytes(h, q, j)
}

/// The score of a text for a query, both as bytes: the query's length less
/// the position of its first occurrence, when the query occurs and that
/// difference is not negative.
pub open spec fn lexical_score(h: Seq<u8>, q: Seq<u8>) -> Option<int> {
    if exists|i: int| first_occurrence_bytes(h, q, i) {
        let i = choose|i: int| first_occurrence_bytes(h, q, i);
        if i <= q.len() {
            Some(q.len() - i)
        } else {
            None
        }
    } else {
        None
    }
}

/// The text a summary is searched in: its text and its id, lower-cased,
/// with a space between.
pub open spec fn haystack(r: SummaryRecord) -> Seq<char> {
    std_to_lowercase(r.text@) + seq![' '] + std_to_lowercase(r.id@)
}

/// The score of a summary, when it passes the filters and scores.
pub open spec fn summary_score(
    r: SummaryRecord,
    q: Seq<char>,
    level: Option<SummaryLevel>,
    lang: Option<Seq<char>>,
) -> Option<int> {
    if passes(r, level, lang) {
        lexical_score(vstd::utf8::encode_utf8(haystack(r)), vstd::utf8::encode_utf8(q))
    } else {
        None
    }
}

fn occurs_bytes_exec(h: &[u8], q: &[u8], i: usize) -> (r: bool)
    requires
        i + q.len() <= h.len(),
    ensures
        r == occurs_bytes(h@, q@, i as int),
{
    let mut k: usize = 0;
    while k < q.len()
        invariant
            0 <= k <= q.len(),
            i + q.len() <= h.len(),
            forall|t: int| 0 <= t < k ==> h@[i + t] == q@[t],
        decreases q.len() - k,
    {
        if h[i + k] != q[k] {
            assert(h@.subrange(i as int, i + q.len())[k as int] != q@[k as int]);
            return false;
        }
        k = k + 1;
    }
    assert(h@.subrange(i as int, i + q.len()) =~= q@);
    true
}

/// Scores a text for a query, both as bytes.
pub fn lexical_score_exec(h: &[u8], q: &[u8]) -> (r: Option<usize>)
    ensures
        match r {
            Some(s) => lexical_score(h@, q@) == Some(s as int),
            None => lexical_score(h@, q@) is None,
        },
{
    if q.len() > h.len() {
        assert forall|i: int| !#[trigger] occurs_bytes(h@, q@, i) by {}
        return None;
    }
    let last = h.len() - q.len();
    let mut i: usize = 0;
    while i <= q.len() && i <= last
        invariant
            last + q.len() == h.len(),
            0 <= i,
            i <= q.len() + 1,
            i <= last + 1,
            forall|j: int| 0 <= j < i ==> !#[trigger] occurs_bytes(h@, q@, j),
        decreases q.len() + 1 - i,
    {
        if occurs_bytes_exec(h, q, i) {
            assert(first_occurrence_bytes(h@, q@, i as int));
            let ghost c = choose|c: int| first_occurrence_bytes(h@, q@, c);
            assert(c == i) by {
                if c < i {
                    assert(!occurs_bytes(h@, q@, c));
                } else if c > i {
                    assert(!occurs_bytes(h@, q@, i as int));
                }
            }
            return Some(q.len() - i);
        }
        i = i + 1;
    }
    proof {
        if exists|c: int| first_occurrence_bytes(h@, q@, c) {
            let c = choose|c: int| first_occurrence_bytes(h@, q@, c);
            if c <= q.len() {
                assert(c <= last);
                assert(!occurs_bytes(h@, q@, c));
            }
        }
    }
    None
}

/// The scores of all summaries, in their order.
pub open spec fn scores_of(
    rs: Seq<SummaryRecord>,
    q: Seq<char>,
    level: Option<SummaryLevel>,
    lang: Option<Seq<char>>,
) -> Seq<Option<int>> {
    Seq::new(rs.len(), |i: int| summary_score(rs[i], q, level, lang))
}

fn passes_exec(r: &SummaryRecord, level: &Option<SummaryLevel>, lang: &Option<String>) -> (b: bool)
    ensures
        b == passes(*r, *level, match *lang {
            Some(l) => Some(l@),
            None => None,
        }),
{
    let level_ok = match level {
        Some(l) => match (l, &r.level) {
            (SummaryLevel::Function, SummaryLevel::Function) => true,
            (SummaryLevel::Class, SummaryLevel::Class) => true,
            (SummaryLevel::File, SummaryLevel::File) => true,
            (SummaryLevel::Module, SummaryLevel::Module) => true,
            (SummaryLevel::Repo, SummaryLevel::Repo) => true,
            _ => false,
        },
        None => true,
    };
    let lang_ok = match lang {
        None => true,
        Some(lf) => match &r.language {
            Some(l) => {
                let ll = to_lowercase(l.as_str());
                str_eq(ll.as_str(), lf.as_str())
            },
            None => false,
        },
    };
    level_ok && lang_ok
}

fn score_exec(r: &SummaryRecord, q: &[u8], level: &Option<SummaryLevel>, lang: &Option<String>, Ghost(qc): Ghost<Seq<char>>) -> (s: Option<usize>)
    requires
        q@ == vstd::utf8::encode_utf8(qc),
    ensures
        match s {
            Some(v) => summary_score(*r, qc, *level, match *lang {
                Some(l) => Some(l@),
                None => None,
            }) == Some(v as int),
            None => summary_score(*r, qc, *level, match *lang {
                Some(l) => Some(l@),
                None => None,
            }) is None,
        },
{
    if !passes_exec(r, level, lang) {
        return None;
    }
    let mut hay = chars_of(to_lowercase(r.text.as_str()).as_str());
    append(&mut hay, &[' ']);
    append(&mut hay, chars_of(to_lowercase(r.id.as_str()).as_str()).as_slice());
    assert(hay@ =~= haystack(*r));
    let hs = string_of(hay.as_slice());
    let hb = bytes_of(hs.as_str());
    lexical_score_exec(hb.as_slice(), q)
}

/// Where a summary points: its file and lines when all three are known,
/// else its target.
pub open spec fn location(r: SummaryRecord) -> Seq<char> {
    match (r.file_path, r.start_line, r.end_line) {
        (Some(p), Some(a), Some(b)) => p@ + ":"@ + decimal(a as nat) + "-"@ + decimal(b as nat),
        _ => r.target_id@,
    }
}

/// The report of one summary.
pub open spec fn summary_entry(r: SummaryRecord) -> Seq<char> {
    "Summary: "@ + r.id@ + "\nLevel: "@ + level_name(r.level) + "\nTarget: "@ + r.target_id@
        + "\nLocation: "@ + location(r) + "\nText: "@ + r.text@ + "\n\n"@
}

/// The reports of the summaries at the places `o`, in that order.
pub open spec fn summary_entries(rs: Seq<SummaryRecord>, o: Seq<int>) -> Seq<char>
    decreases o.len(),
{
    if o.len() == 0 {
        seq![]
    } else {
        summary_entries(rs, o.drop_last()) + summary_entry(rs[o.last()])
    }
}

/// The summaries tool's answer: the best `top` summaries for the query,
/// under the optional level and language filters.
pub open spec fn summaries_report_spec(
    rs: Seq<SummaryRecord>,
    query: Seq<char>,
    top: int,
    level: Option<Seq<char>>,
    lang: Option<Seq<char>>,
) -> Seq<char> {
    let q = std_to_lowercase(query);
    if q.len() == 0 {
        "Query cannot be empty"@
    } else {
        let lv = match level {
            Some(l) => level_named(std_to_lowercase(l)),
            None => None,
        };
        let lf = match lang {
            Some(l) => Some(std_to_lowercase(l)),
            None => None,
        };
        let o = ranking(scores_of(rs, q, lv, lf));
        let shown = if o.len() <= top {
            o
        } else {
            o.take(top)
        };
        if shown.len() == 0 {
            "No summaries matched."@
        } else {
            summary_entries(rs, shown)
        }
    }
}

fn push_entry(out: &mut Vec<char>, r: &SummaryRecord)
    ensures
        final(out)@ == old(out)@ + summary_entry(*r),
{
    let ghost before = out@;
    append(out, chars_of("Summary: ").as_slice());
    append(out, chars_of(r.id.as_str()).as_slice());
    append(out, chars_of("\nLevel: ").as_slice());
    append(out, level_name_exec(&r.level).as_slice());
    append(out, chars_of("\nTarget: ").as_slice());
    append(out, chars_of(r.target_id.as_str()).as_slice());
    append(out, chars_of("\nLocation: ").as_slice());
    let ghost mid = out@;
    match (&r.file_path, r.start_line, r.end_line) {
        (Some(p), Some(a), Some(b)) => {
            append(out, chars_of(p.as_str()).as_slice());
            append(out, chars_of(":").as_slice());
            append(out, decimal_exec(a).as_slice());
            append(out, chars_of("-").as_slice());
            append(out, decimal_exec(b).as_slice());
        },
        _ => {
            append(out, chars_of(r.target_id.as_str()).as_slice());
        },
    }
    assert(out@ =~= mid + location(*r));
    append(out, chars_of("\nText: ").as_slice());
    append(out, chars_of(r.text.as_str()).as_slice());
    append(out, chars_of("\n\n").as_slice());
    assert(out@ =~= before + summary_entry(*r));
}

/// Answers a summaries search: lower-cases the query, filters by level and
/// language when asked, scores each summary, and reports the best `top`.
pub fn summaries_report(
    rs: &Vec<SummaryRecord>,
    query: &str,
    top: usize,
    level: Option<&str>,
    lang: Option<&str>,
) -> (r: String)
    ensures
        r@ == summaries_report_spec(rs@, query@, top as int, match level {
            Some(l) => Some(l@),
            None => None,
        }, match lang {
            Some(l) => Some(l@),
            None => None,
        }),
{
    let q = to_lowercase(query);
    if chars_of(q.as_str()).len() == 0 {
        return string_of(chars_of("Query cannot be empty").as_slice());
    }
    let lv = match level {
        Some(l) => parse_level(l),
        None => None,
    };
    let lf = match lang {
        Some(l) => Some(to_lowercase(l)),
        None => None,
    };
    let ghost lfv = match &lf {
        Some(l) => Some(l@),
        None => None,
    };
    let qb = bytes_of(q.as_str());
    let ghost want = scores_of(rs@, q@, lv, lfv);
    let mut scores: Vec<Option<u128>> = Vec::new();
    let mut i: usize = 0;
    while i < rs.len()
        invariant
            0 <= i <= rs.len(),
            want == scores_of(rs@, q@, lv, lfv),
            qb@ == vstd::utf8::encode_utf8(q@),
            lfv == match lf {
                Some(l) => Some(l@),
                None => None,
            },
            scores@.len() == i,
            want.len() == rs.len(),
            score_views(scores@) =~= want.take(i as int),
        decreases rs.len() - i,
    {
        let sc = match score_exec(&rs[i], qb.as_slice(), &lv, &lf, Ghost(q@)) {
            Some(v) => Some(v as u128),
            None => None,
        };
        let ghost before = scores@;
        scores.push(sc);
        assert(want[i as int] == summary_score(rs@[i as int], q@, lv, lfv));
        assert(score_views(scores@)[i as int] == want[i as int]);
        assert(score_views(scores@) =~= want.take(i + 1)) by {
            assert forall|k: int| 0 <= k < i implies score_views(scores@)[k] == want[k] by {
                assert(scores@[k] == before[k]);
                assert(score_views(before)[k] == want.take(i as int)[k]);
            }
        }
        i = i + 1;
    }
    assert(want.take(rs.len() as int) =~= want);
    let o = rank_scores(&scores);
    proof {
        lemma_ranking_unique(want, ranking(want), index_views(o@));
    }
    let n = if o.len() <= top { o.len() } else { top };
    if n == 0 {
        return string_of(chars_of("No summaries matched.").as_slice());
    }
    let ghost shown = index_views(o@).take(n as int);
    let mut out: Vec<char> = Vec::new();
    let mut k: usize = 0;
    while k < n
        invariant
            0 <= k <= n <= o.len(),
            shown == index_views(o@).take(n as int),
            is_ranking(want, index_views(o@)),
            want.len() == rs.len(),
            out@ == summary_entries(rs@, shown.take(k as int)),
        decreases n - k,
    {
        let idx = o[k];
        assert(index_views(o@)[k as int] == idx as int);
        push_entry(&mut out, &rs[idx]);
        assert(shown.take(k + 1).drop_last() =~= shown.take(k as int));
        k = k + 1;
    }
    assert(shown.take(n as int) =~= shown);
    proof {
        let ov = index_views(o@);
        if ov.len() <= top {
            assert(ov.take(n as int) =~= ov);
        }
    }
    string_of(out.as_slice())
}

/// Whether a summary covers lines of a chunk: it names the chunk's file and
/// a line range that meets the chunk's.
pub open spec fn summary_covers_spec(c: Chunk, s: SummaryRecord) -> bool {
    match (s.start_line, s.end_line, s.file_path) {
        (Some(a), Some(b), Some(fp)) => fp@ == c.file_path@ && (if c.start_line >= a {
            c.start_line as int
        } else {
            a as int
        }) <= (if c.end_line <= b {
            c.end_line as int
        } else {
            b as int
        }),
        _ => false,
    }
}

/// Decides whether a summary covers lines of a chunk.
pub fn summary_covers(c: &Chunk, s: &SummaryRecord) -> (b: bool)
    ensures
        b == summary_covers_spec(*c, *s),
{
    match (s.start_line, s.end_line, &s.file_path) {
        (Some(a), Some(b), Some(fp)) => {
            if !crate::graph::string_eq(fp, &c.file_path) {
                return false;
            }
            let start = if c.start_line >= a { c.start_line } else { a };
            let end = if c.end_line <= b { c.end_line } else { b };
            start <= end
        },
        _ => false,
    }
}

/// The place of the summary with identifier `id`, searching the first `n`.
pub open spec fn summary_place(v: Seq<SummaryRecord>, id: Seq<char>, n: int) -> Option<int>
    decreases n,
{
    if n <= 0 {
        None
    } else if v[n - 1].id@ == id {
        Some(n - 1)
    } else {
        summary_place(v, id, n - 1)
    }
}

/// The summary stored under `id`.
pub open spec fn lookup_summary(v: Seq<SummaryRecord>, id: Seq<char>) -> Option<SummaryRecord> {
    match summary_place(v, id, v.len() as int) {
        Some(i) => Some(v[i]),
        None => None,
    }
}

/// The summaries after storing `s`: it replaces the summary with its
/// identifier, or comes last.
pub open spec fn add_summary_spec(v: Seq<SummaryRecord>, s: SummaryRecord) -> Seq<SummaryRecord> {
    match summary_place(v, s.id@, v.len() as int) {
        Some(i) => v.update(i, s),
        None => v.push(s),
    }
}

/// No two summaries share an identifier.
pub open spec fn ids_unique(v: Seq<SummaryRecord>) -> bool {
    forall|i: int, j: int| 0 <= i < j < v.len() ==> (#[trigger] v[i]).id@ != (#[trigger] v[j]).id@
}

pub proof fn lemma_summary_place(v: Seq<SummaryRecord>, id: Seq<char>, n: int)
    requires
        0 <= n <= v.len(),
    ensures
        match summary_place(v, id, n) {
            Some(i) => 0 <= i < n && v[i].id@ == id,
            None => forall|j: int| 0 <= j < n ==> (#[trigger] v[j]).id@ != id,
        },
    decreases n,
{
    if n > 0 {
        lemma_summary_place(v, id, n - 1);
    }
}

proof fn lemma_place_unique(v: Seq<SummaryRecord>, id: Seq<char>, k: int)
    requires
        ids_unique(v),
        0 <= k < v.len(),
        v[k].id@ == id,
    ensures
        summary_place(v, id, v.len() as int) == Some(k),
{
    lemma_place_from(v, id, k, v.len() as int);
}

proof fn lemma_place_from(v: Seq<SummaryRecord>, id: Seq<char>, k: int, n: int)
    requires
        ids_unique(v),
        0 <= k < n <= v.len(),
        v[k].id@ == id,
    ensures
        summary_place(v, id, n) == Some(k),
    decreases n,
{
    if n - 1 != k {
        assert(v[n - 1].id@ != v[k].id@);
        lemma_place_from(v, id, k, n - 1);
    }
}

/// Storing a summary and looking up its identifier gives it back; every
/// other identifier gives what it gave before, and identifiers stay unique.
pub proof fn law_add_then_lookup(v: Seq<SummaryRecord>, s: SummaryRecord, other: Seq<char>)
    requires
        ids_unique(v),
    ensures
        lookup_summary(add_summary_spec(v, s), s.id@) == Some(s),
        other != s.id@ ==> lookup_summary(add_summary_spec(v, s), other) == lookup_summary(v, other),
        ids_unique(add_summary_spec(v, s)),
{
    let w = add_summary_spec(v, s);
    lemma_summary_place(v, s.id@, v.len() as int);
    lemma_summary_place(v, other, v.len() as int);
    assert(ids_unique(w)) by {
        assert forall|i: int, j: int| 0 <= i < j < w.len() implies (#[trigger] w[i]).id@ != (#[trigger] w[j]).id@ by {
            match summary_place(v, s.id@, v.len() as int) {
                Some(p) => {
                    if i != p && j != p {
                        assert(w[i] == v[i] && w[j] == v[j]);
                    } else if i == p {
                        assert(w[j] == v[j]);
                        assert(v[p].id@ == s.id@);
                    } else {
                        assert(w[i] == v[i]);
                        assert(v[p].id@ == s.id@);
                    }
                },
                None => {
                    if j == v.len() {
                        assert(w[i] == v[i]);
                    } else {
                        assert(w[i] == v[i] && w[j] == v[j]);
                    }
                },
            }
        }
    }
    match summary_place(v, s.id@, v.len() as int) {
        Some(p) => {
            lemma_place_unique(w, s.id@, p);
        },
        None => {
            lemma_place_unique(w, s.id@, v.len() as int);
        },
    }
    lemma_summary_place(w, other, w.len() as int);
    if other != s.id@ {
        match summary_place(v, other, v.len() as int) {
            Some(q) => {
                assert(w[q] == v[q]) by {
                    match summary_place(v, s.id@, v.len() as int) {
                        Some(p) => {
                            assert(q != p);
                        },
                        None => {},
                    }
                }
                lemma_place_unique(w, other, q);
            },
            None => {
                match summary_place(w, other, w.len() as int) {
                    Some(q) => {
                        match summary_place(v, s.id@, v.len() as int) {
                            Some(p) => {
                                if q != p {
                                    assert(w[q] == v[q]);
                                }
                            },
                            None => {
                                if q < v.len() {
                                    assert(w[q] == v[q]);
                                }
                            },
                        }
                    },
                    None => {},
                }
            },
        }
    }
}


/// Whether a summary points into one of the files.
pub open spec fn in_files(s: SummaryRecord, files: Seq<Seq<char>>) -> bool {
    match s.file_path {
        Some(p) => files.contains(p@),
        None => false,
    }
}

/// The first `n` summaries without those that point into the files.
pub open spec fn without_files(v: Seq<SummaryRecord>, files: Seq<Seq<char>>, n: int) -> Seq<SummaryRecord>
    decreases n,
{
    if n <= 0 {
        seq![]
    } else {
        let prev = without_files(v, files, n - 1);
        if in_files(v[n - 1], files) {
            prev
        } else {
            prev.push(v[n - 1])
        }
    }
}

proof fn lemma_without_files(v: Seq<SummaryRecord>, files: Seq<Seq<char>>, n: int)
    requires
        0 <= n <= v.len(),
        ids_unique(v),
    ensures
        ids_unique(without_files(v, files, n)),
        forall|k: int|
            0 <= k < without_files(v, files, n).len() ==> exists|j: int|
                0 <= j < n && #[trigger] without_files(v, files, n)[k] == v[j],
    decreases n,
{
    if n > 0 {
        lemma_without_files(v, files, n - 1);
        let prev = without_files(v, files, n - 1);
        let r = without_files(v, files, n);
        if !in_files(v[n - 1], files) {
            assert forall|k: int| 0 <= k < prev.len() implies (#[trigger] prev[k]).id@ != v[n - 1].id@ by {
                let j = choose|j: int| 0 <= j < n - 1 && prev[k] == v[j];
                assert(v[j].id@ != v[n - 1].id@);
            }
            assert forall|a: int, b: int| 0 <= a < b < r.len() implies (#[trigger] r[a]).id@ != (#[trigger] r[b]).id@ by {
                if b < prev.len() {
                    assert(r[a] == prev[a] && r[b] == prev[b]);
                } else {
                    assert(r[a] == prev[a]);
                }
            }
            assert forall|k: int| 0 <= k < r.len() implies exists|j: int| 0 <= j < n && #[trigger] r[k] == v[j] by {
                if k < prev.len() {
                    assert(r[k] == prev[k]);
                    let j = choose|j: int| 0 <= j < n - 1 && prev[k] == v[j];
                    assert(r[k] == v[j]);
                } else {
                    assert(r[k] == v[n - 1]);
                }
            }
        }
    }
}

/// The stored summaries, one per identifier.
pub struct SummaryIndex {
    summaries: Vec<SummaryRecord>,
    path: String,
}

impl SummaryIndex {
    /// The stored summaries, in the order they were first stored.
    pub closed spec fn entries(&self) -> Seq<SummaryRecord> {
        self.summaries@
    }

    pub open spec fn wf(&self) -> bool {
        ids_unique(self.entries())
    }

    /// The stored summaries.
    pub fn summaries(&self) -> (r: &Vec<SummaryRecord>)
        ensures
            r@ == self.entries(),
    {
        &self.summaries
    }

    pub closed spec fn path_view(&self) -> Seq<char> {
        self.path@
    }

    /// An empty index stored at `path`.
    pub fn new(path: &str) -> (r: Self)
        ensures
            r.wf(),
            r.entries().len() == 0,
            r.path_view() == path@,
    {
        SummaryIndex { summaries: Vec::new(), path: string_of(chars_of(path).as_slice()) }
    }

    /// The file the index is stored in.
    pub fn path(&self) -> (r: &String)
        ensures
            r@ == self.path_view(),
    {
        &self.path
    }

    fn place(&self, id: &String) -> (r: Option<usize>)
        ensures
            match r {
                Some(i) => summary_place(self.entries(), id@, self.entries().len() as int) == Some(i as int),
                None => summary_place(self.entries(), id@, self.entries().len() as int) is None,
            },
    {
        let mut n: usize = self.summaries.len();
        while n > 0
            invariant
                0 <= n <= self.summaries@.len(),
                summary_place(self.summaries@, id@, self.summaries@.len() as int) == summary_place(
                    self.summaries@,
                    id@,
                    n as int,
                ),
            decreases n,
        {
            if crate::graph::string_eq(&self.summaries[n - 1].id, id) {
                return Some(n - 1);
            }
            n = n - 1;
        }
        None
    }

    /// Stores a summary, replacing the one with its identifier.
    pub fn add_summary(&mut self, summary: SummaryRecord)
        requires
            old(self).wf(),
        ensures
            final(self).wf(),
            final(self).entries() == add_summary_spec(old(self).entries(), summary),
            final(self).path_view() == old(self).path_view(),
    {
        proof {
            law_add_then_lookup(self.summaries@, summary, summary.id@);
            lemma_summary_place(self.summaries@, summary.id@, self.summaries@.len() as int);
        }
        match self.place(&summary.id) {
            Some(i) => {
                self.summaries.set(i, summary);
            },
            None => {
                self.summaries.push(summary);
            },
        }
    }

    /// The summary stored under `id`.
    pub fn get_summary(&self, id: &str) -> (r: Option<&SummaryRecord>)
        ensures
            match r {
                Some(s) => lookup_summary(self.entries(), id@) == Some(*s),
                None => lookup_summary(self.entries(), id@) is None,
            },
    {
        let key = string_of(chars_of(id).as_slice());
        proof {
            lemma_summary_place(self.summaries@, key@, self.summaries@.len() as int);
        }
        match self.place(&key) {
            Some(i) => Some(&self.summaries[i]),
            None => None,
        }
    }

    /// Drops the summaries that point into the files, keeping the others in
    /// order.
    pub fn remove_by_files(&mut self, files: &Vec<String>)
        requires
            old(self).wf(),
        ensures
            final(self).wf(),
            final(self).entries() == without_files(
                old(self).entries(),
                files@.map_values(|f: String| f@),
                old(self).entries().len() as int,
            ),
            final(self).path_view() == old(self).path_view(),
    {
        let ghost fv = files@.map_values(|f: String| f@);
        let ghost v = self.summaries@;
        let mut kept: Vec<SummaryRecord> = Vec::new();
        let mut i: usize = 0;
        while i < self.summaries.len()
            invariant
                0 <= i <= self.summaries.len(),
                v == self.summaries@,
                fv == files@.map_values(|f: String| f@),
                kept@ == without_files(v, fv, i as int),
            decreases self.summaries.len() - i,
        {
            let hit = match &self.summaries[i].file_path {
                Some(p) => {
                    let mut k: usize = 0;
                    let mut found = false;
                    while k < files.len()
                        invariant
                            0 <= k <= files.len(),
                            fv == files@.map_values(|f: String| f@),
                            found == exists|t: int| 0 <= t < k && fv[t] == p@,
                        decreases files.len() - k,
                    {
                        assert(fv[k as int] == files@[k as int]@);
                        if crate::graph::string_eq(&files[k], p) {
                            found = true;
                        }
                        assert(found == exists|t: int| 0 <= t < k + 1 && fv[t] == p@) by {
                            if !found {
                                assert forall|t: int| 0 <= t < k + 1 implies fv[t] != p@ by {
                                    if t < k {
                                        assert(!(0 <= t < k && fv[t] == p@));
                                    }
                                }
                            }
                        }
                        k = k + 1;
                    }
                    proof {
                        if found {
                            let t = choose|t: int| 0 <= t < files.len() && fv[t] == p@;
                            assert(fv.contains(p@));
                        } else {
                            assert(!fv.contains(p@));
                        }
                    }
                    found
                },
                None => false,
            };
            if !hit {
                let r = &self.summaries[i];
                let c = SummaryRecord {
                    id: r.id.clone(),
                    level: r.level,
                    target_id: r.target_id.clone(),
                    text: r.text.clone(),
                    file_path: match &r.file_path {
                        Some(p) => Some(p.clone()),
                        None => None,
                    },
                    start_line: r.start_line,
                    end_line: r.end_line,
                    language: match &r.language {
                        Some(l) => Some(l.clone()),
                        None => None,
                    },
                };
                assert(c == *r);
                kept.push(c);
            }
            i = i + 1;
        }
        proof {
            lemma_without_files(v, fv, v.len() as int);
        }
        self.summaries = kept;
    }

    /// Removes every summary.
    pub fn clear(&mut self)
        ensures
            final(self).wf(),
            final(self).entries().len() == 0,
            final(self).path_view() == old(self).path_view(),
    {
        self.summaries = Vec::new();
    }
}

} // verus!
