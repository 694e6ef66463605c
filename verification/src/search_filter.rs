//! The filters of a search: a path glob, matched against paths relative to
//! the repository's root, and a language, read from a file's extension or
//! from a chunk.
use vstd::prelude::*;
use crate::glob_filter::{any_matches, build_glob_set, glob_compiles, glob_ok, glob_set_builds, set_matches, GlobFilter};
use crate::models::{language_of_extension, Chunk, Language};
use crate::pathname::{path_extension, path_strip_prefix, std_path_extension, std_path_strip_prefix};
use crate::text::{contains, contains_exec, chars_of};

verus! {

/// A glob set of one pattern: none when no pattern is given, when the
/// pattern does not compile, or when globset cannot build the set.
pub fn build_single_globset(pattern: Option<&str>) -> (r: Option<GlobFilter>)
    ensures
        pattern is None ==> r is None,
        pattern matches Some(p) ==> (r is Some <==> glob_compiles(p@) && glob_set_builds(seq![p@])),
        r matches Some(f) ==> pattern matches Some(p) && f.patterns() == seq![p@],
{
    match pattern {
        None => None,
        Some(p) => {
            if !glob_ok(p) {
                return None;
            }
            let mut v: Vec<String> = Vec::new();
            v.push(p.to_string());
            assert(crate::glob_filter::texts(v@) =~= seq![p@]);
            build_glob_set(v)
        },
    }
}

/// The path relative to `root`, or the path itself when `root` is not a
/// prefix of it.
pub open spec fn relative_to(root: Seq<char>, path: Seq<char>) -> Seq<char> {
    match std_path_strip_prefix(path, root) {
        Some(r) => r,
        None => path,
    }
}

/// Whether a path passes the glob filter: always without one, else when a
/// pattern matches the path relative to the root.
pub open spec fn glob_passes(matcher: Option<Seq<Seq<char>>>, root: Seq<char>, path: Seq<char>) -> bool {
    match matcher {
        None => true,
        Some(ps) => any_matches(ps, relative_to(root, path)),
    }
}

pub open spec fn matcher_patterns(m: Option<GlobFilter>) -> Option<Seq<Seq<char>>> {
    match m {
        Some(f) => Some(f.patterns()),
        None => None,
    }
}

/// Decides whether a path passes the glob filter.
pub fn path_matches(matcher: &Option<GlobFilter>, root: &str, path: &str) -> (b: bool)
    ensures
        b == glob_passes(matcher_patterns(*matcher), root@, path@),
{
    match matcher {
        None => true,
        Some(set) => match path_strip_prefix(path, root) {
            Some(rel) => set_matches(set, rel.as_str()),
            None => set_matches(set, path),
        },
    }
}

/// Whether a file passes the language filter: always without one or when
/// its path has no extension, else when its extension names the language.
pub open spec fn language_passes(filter: Option<Language>, path: Seq<char>) -> bool {
    match filter {
        None => true,
        Some(l) => match std_path_extension(path) {
            None => true,
            Some(e) => language_of_extension(e) == l,
        },
    }
}

/// Decides whether a file passes the language filter.
pub fn language_matches(filter: &Option<Language>, path: &str) -> (b: bool)
    ensures
        b == language_passes(*filter, path@),
{
    match filter {
        None => true,
        Some(l) => match path_extension(path) {
            None => true,
            Some(e) => Language::from_extension(e.as_str()) == *l,
        },
    }
}

/// Whether a chunk passes both filters: its own language, when a language
/// is asked for, and its path.
pub open spec fn chunk_passes(filter: Option<Language>, matcher: Option<Seq<Seq<char>>>, root: Seq<char>, c: Chunk) -> bool {
    (filter matches Some(l) ==> c.language == l) && glob_passes(matcher, root, c.file_path@)
}

/// Decides whether a ranked chunk is kept.
pub fn chunk_matches(filter: &Option<Language>, matcher: &Option<GlobFilter>, root: &str, chunk: &Chunk) -> (b: bool)
    ensures
        b == chunk_passes(*filter, matcher_patterns(*matcher), root@, *chunk),
{
    let lang_ok = match filter {
        None => true,
        Some(l) => chunk.language == *l,
    };
    lang_ok && path_matches(matcher, root, chunk.file_path.as_str())
}

/// Whether a located item passes the language and glob filters.
pub open spec fn file_passes(filter: Option<Language>, matcher: Option<Seq<Seq<char>>>, root: Seq<char>, path: Seq<char>) -> bool {
    language_passes(filter, path) && glob_passes(matcher, root, path)
}

/// The symbols, as label and file path, whose label contains the query and
/// whose file passes the filters, in order.
pub open spec fn symbol_hits(
    query: Seq<char>,
    filter: Option<Language>,
    matcher: Option<Seq<Seq<char>>>,
    root: Seq<char>,
    syms: Seq<(Seq<char>, Seq<char>)>,
) -> Seq<(Seq<char>, Seq<char>)> {
    syms.filter(|s: (Seq<char>, Seq<char>)| contains(s.0, query) && file_passes(filter, matcher, root, s.1))
}

pub open spec fn pair_views(v: Seq<(String, String)>) -> Seq<(Seq<char>, Seq<char>)> {
    v.map_values(|p: (String, String)| (p.0@, p.1@))
}

/// Searches symbols by label: keeps, in order, each (label, file path)
/// whose label contains the query and whose file passes the filters.
pub fn symbol_matches(
    query: &str,
    filter: &Option<Language>,
    matcher: &Option<GlobFilter>,
    root: &str,
    symbols: &Vec<(String, String)>,
) -> (r: Vec<(String, String)>)
    ensures
        pair_views(r@) == symbol_hits(query@, *filter, matcher_patterns(*matcher), root@, pair_views(symbols@)),
{
    let ghost sv = pair_views(symbols@);
    let ghost pred = |s: (Seq<char>, Seq<char>)| contains(s.0, query@) && file_passes(*filter, matcher_patterns(*matcher), root@, s.1);
    let q = chars_of(query);
    let mut out: Vec<(String, String)> = Vec::new();
    let mut i: usize = 0;
    while i < symbols.len()
        invariant
            0 <= i <= symbols.len(),
            q@ == query@,
            sv == pair_views(symbols@),
            pred == (|s: (Seq<char>, Seq<char>)| contains(s.0, query@) && file_passes(*filter, matcher_patterns(*matcher), root@, s.1)),
            pair_views(out@) == sv.take(i as int).filter(pred),
        decreases symbols.len() - i,
    {
        let s = &symbols[i];
        assert(sv[i as int] == (s.0@, s.1@));
        let label = chars_of(s.0.as_str());
        let keep = contains_exec(label.as_slice(), q.as_slice()) && language_matches(filter, s.1.as_str())
            && path_matches(matcher, root, s.1.as_str());
        let ghost before = pair_views(out@);
        if keep {
            out.push((s.0.clone(), s.1.clone()));
            assert(pair_views(out@) =~= before.push(sv[i as int]));
        }
        assert(sv.take(i + 1).drop_last() =~= sv.take(i as int));
        assert(sv.take(i + 1).filter(pred) == if pred(sv[i as int]) {
            sv.take(i as int).filter(pred).push(sv[i as int])
        } else {
            sv.take(i as int).filter(pred)
        }) by {
            reveal(Seq::filter);
        }
        i = i + 1;
    }
    assert(sv.take(symbols.len() as int) =~= sv);
    out
}

pub open spec fn hit_views(v: Seq<(String, usize, String)>) -> Seq<(Seq<char>, usize, Seq<char>)> {
    v.map_values(|h: (String, usize, String)| (h.0@, h.1, h.2@))
}

/// The line hits whose file passes the filters, in order.
pub open spec fn line_hits(
    filter: Option<Language>,
    matcher: Option<Seq<Seq<char>>>,
    root: Seq<char>,
    hits: Seq<(Seq<char>, usize, Seq<char>)>,
) -> Seq<(Seq<char>, usize, Seq<char>)> {
    hits.filter(|h: (Seq<char>, usize, Seq<char>)| file_passes(filter, matcher, root, h.0))
}

/// Keeps, in order, the (path, line, text) hits of a line search whose
/// file passes the filters.
pub fn filter_line_hits(
    filter: &Option<Language>,
    matcher: &Option<GlobFilter>,
    root: &str,
    hits: &Vec<(String, usize, String)>,
) -> (r: Vec<(String, usize, String)>)
    ensures
        hit_views(r@) == line_hits(*filter, matcher_patterns(*matcher), root@, hit_views(hits@)),
{
    let ghost hv = hit_views(hits@);
    let ghost pred = |h: (Seq<char>, usize, Seq<char>)| file_passes(*filter, matcher_patterns(*matcher), root@, h.0);
    let mut out: Vec<(String, usize, String)> = Vec::new();
    let mut i: usize = 0;
    while i < hits.len()
        invariant
            0 <= i <= hits.len(),
            hv == hit_views(hits@),
            pred == (|h: (Seq<char>, usize, Seq<char>)| file_passes(*filter, matcher_patterns(*matcher), root@, h.0)),
            hit_views(out@) == hv.take(i as int).filter(pred),
        decreases hits.len() - i,
    {
        let h = &hits[i];
        assert(hv[i as int] == (h.0@, h.1, h.2@));
        let keep = language_matches(filter, h.0.as_str()) && path_matches(matcher, root, h.0.as_str());
        let ghost before = hit_views(out@);
        if keep {
            out.push((h.0.clone(), h.1, h.2.clone()));
            assert(hit_views(out@) =~= before.push(hv[i as int]));
        }
        assert(hv.take(i + 1).drop_last() =~= hv.take(i as int));
        assert(hv.take(i + 1).filter(pred) == if pred(hv[i as int]) {
            hv.take(i as int).filter(pred).push(hv[i as int])
        } else {
            hv.take(i as int).filter(pred)
        }) by {
            reveal(Seq::filter);
        }
        i = i + 1;
    }
    assert(hv.take(hits.len() as int) =~= hv);
    out
}

} // verus!
