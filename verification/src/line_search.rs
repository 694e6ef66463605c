//! Regular-expression search over the lines of files: case-insensitive
//! search for the agent's tools, and the case-sensitive search of the
//! command line, with the repository's wanted and skipped globs.
use vstd::prelude::*;
use crate::syntax::utf8_text;
use crate::glob_filter::{allowed, build_globset, built_patterns, filter_patterns, path_allowed, texts, GlobFilter};
use crate::text::{append, chars_of, lines, lines_exec, string_of, views};

verus! {

#[verifier::external_type_specification]
#[verifier::external_body]
pub struct ExRegex(regex::Regex);

#[verifier::external_type_specification]
#[verifier::external_body]
pub struct ExRegexError(regex::Error);

/// Whether the regex crate accepts a pattern, built case-insensitively with
/// its default limits.
pub uninterp spec fn regex_accepts(pattern: Seq<char>) -> bool;

/// Whether the case-insensitive regex built from `pattern` matches somewhere
/// in `line`.
pub uninterp spec fn regex_finds(pattern: Seq<char>, line: Seq<char>) -> bool;

/// A pattern compiled for case-insensitive matching, with its source text.
/// Its fields are private: a value exists only as `compile_case_insensitive`
/// built it, so `re` is always the regex compiled from `source`.
pub struct LinePattern {
    source: String,
    re: regex::Regex,
}

impl LinePattern {
    /// The text the pattern was compiled from.
    pub closed spec fn source(&self) -> Seq<char> {
        self.source@
    }
}

/// Calls `regex::RegexBuilder::new(pattern).case_insensitive(true).build()`,
/// and keeps the pattern's text beside the compiled regex. The build succeeds
/// exactly when the crate accepts the pattern.
#[verifier::external_body]
fn compile_case_insensitive(pattern: &str) -> (r: Result<LinePattern, regex::Error>)
    ensures
        r is Ok <==> regex_accepts(pattern@),
        r matches Ok(p) ==> p.source() == pattern@,
{
    match regex::RegexBuilder::new(pattern).case_insensitive(true).build() {
        Ok(re) => Ok(LinePattern { source: pattern.to_string(), re }),
        Err(e) => Err(e),
    }
}

/// Calls `regex::Regex::is_match` on the compiled pattern: whether it matches
/// somewhere in `line`.
#[verifier::external_body]
fn pattern_finds(p: &LinePattern, line: &str) -> (b: bool)
    ensures
        b == regex_finds(p.source(), line@),
{
    p.re.is_match(line)
}

/// Calls the `Display` of `regex::Error`: the crate's message for a rejected
/// pattern. Nothing is stated of its text.
#[verifier::external_body]
fn regex_error_message(e: &regex::Error) -> (s: String) {
    e.to_string()
}

/// Whether `c` has a meaning of its own in a regular expression.
pub open spec fn is_meta(c: char) -> bool {
    c == '\\' || c == '.' || c == '+' || c == '*' || c == '?' || c == '(' || c == ')' || c == '|'
        || c == '[' || c == ']' || c == '{' || c == '}' || c == '^' || c == '$' || c == '#'
        || c == '&' || c == '-' || c == '~'
}

/// `text` with a backslash before each meta character.
pub open spec fn escape_spec(text: Seq<char>) -> Seq<char>
    decreases text.len(),
{
    if text.len() == 0 {
        seq![]
    } else {
        let c = text.last();
        escape_spec(text.drop_last()) + if is_meta(c) {
            seq!['\\', c]
        } else {
            seq![c]
        }
    }
}

/// Calls `regex::escape`, which puts a backslash before every meta character
/// of the text and copies the other characters.
#[verifier::external_body]
fn regex_escape(text: &str) -> (s: String)
    ensures
        s@ == escape_spec(text@),
{
    regex::escape(text)
}

/// A pattern that the regex crate refused, with its message.
pub enum SearchError {
    InvalidPattern(String),
}

/// Drops one carriage return that ends a line.
pub open spec fn strip_cr_bytes(l: Seq<u8>) -> Seq<u8> {
    if l.len() > 0 && l.last() == 13 {
        l.drop_last()
    } else {
        l
    }
}

/// After reading the first `n` bytes: the finished lines (each without its
/// newline and a carriage return before it) and the line being read.
pub open spec fn read_state(b: Seq<u8>, n: int) -> (Seq<Seq<u8>>, Seq<u8>)
    decreases n,
{
    if n <= 0 {
        (seq![], seq![])
    } else {
        let (done, cur) = read_state(b, n - 1);
        if b[n - 1] == 10 {
            (done.push(strip_cr_bytes(cur)), seq![])
        } else {
            (done, cur.push(b[n - 1]))
        }
    }
}

/// The lines of a byte stream, as a buffered reader hands them out: split at
/// each newline, a carriage return before it dropped, and a last piece
/// without a newline kept when it is not empty.
pub open spec fn byte_lines(b: Seq<u8>) -> Seq<Seq<u8>> {
    let (done, cur) = read_state(b, b.len() as int);
    if cur.len() > 0 {
        done.push(cur)
    } else {
        done
    }
}

/// Among the first `n` lines, those that are valid UTF-8 and in which the
/// pattern finds a match, each with its line number counted from 1.
pub open spec fn found_lines(pattern: Seq<char>, ls: Seq<Seq<u8>>, n: int) -> Seq<(int, Seq<char>)>
    decreases n,
{
    if n <= 0 {
        seq![]
    } else {
        let prev = found_lines(pattern, ls, n - 1);
        let l = ls[n - 1];
        if vstd::utf8::valid_utf8(l) && regex_finds(pattern, vstd::utf8::decode_utf8(l)) {
            prev.push((n, vstd::utf8::decode_utf8(l)))
        } else {
            prev
        }
    }
}

/// The matches of a pattern in a file's bytes.
pub open spec fn file_matches(pattern: Seq<char>, content: Seq<u8>) -> Seq<(int, Seq<char>)> {
    let ls = byte_lines(content);
    found_lines(pattern, ls, ls.len() as int)
}

pub open spec fn found_view(v: Seq<(usize, String)>) -> Seq<(int, Seq<char>)> {
    v.map_values(|m: (usize, String)| (m.0 as int, m.1@))
}

pub proof fn lemma_read_state_len(b: Seq<u8>, n: int)
    requires
        0 <= n <= b.len(),
    ensures
        read_state(b, n).0.len() + read_state(b, n).1.len() <= n,
    decreases n,
{
    if n > 0 {
        lemma_read_state_len(b, n - 1);
    }
}

/// Splits bytes into lines as `byte_lines` says.
pub fn split_byte_lines(content: &[u8]) -> (r: Vec<Vec<u8>>)
    ensures
        r@.map_values(|l: Vec<u8>| l@) == byte_lines(content@),
{
    let mut done: Vec<Vec<u8>> = Vec::new();
    let mut cur: Vec<u8> = Vec::new();
    let mut i: usize = 0;
    while i < content.len()
        invariant
            0 <= i <= content.len(),
            done@.map_values(|l: Vec<u8>| l@) == read_state(content@, i as int).0,
            cur@ == read_state(content@, i as int).1,
        decreases content.len() - i,
    {
        let b = content[i];
        let ghost before = done@.map_values(|l: Vec<u8>| l@);
        if b == 10 {
            let n = cur.len();
            let mut line = cur;
            if n > 0 && line[n - 1] == 13 {
                line.pop();
            }
            assert(line@ == strip_cr_bytes(read_state(content@, i as int).1));
            done.push(line);
            assert(done@.map_values(|l: Vec<u8>| l@) =~= before.push(line@));
            cur = Vec::new();
        } else {
            cur.push(b);
        }
        i = i + 1;
        assert(cur@ =~= read_state(content@, i as int).1);
    }
    if cur.len() > 0 {
        let ghost before = done@.map_values(|l: Vec<u8>| l@);
        done.push(cur);
        assert(done@.map_values(|l: Vec<u8>| l@) =~= before.push(read_state(content@, i as int).1));
    }
    done
}

/// Searches the lines of files for a regular expression, ignoring case.
pub struct RegexSearcher;

impl RegexSearcher {
    /// Compiles a pattern for case-insensitive search; the regex crate's
    /// message when it refuses the pattern.
    pub fn compile(pattern: &str) -> (r: Result<LinePattern, SearchError>)
        ensures
            r is Ok <==> regex_accepts(pattern@),
            r matches Ok(p) ==> p.source() == pattern@,
    {
        match compile_case_insensitive(pattern) {
            Ok(p) => Ok(p),
            Err(e) => Err(SearchError::InvalidPattern(regex_error_message(&e))),
        }
    }

    /// The lines of a file's content in which the pattern finds a match,
    /// numbered from 1; lines that are not valid UTF-8 are skipped but
    /// counted.
    pub fn matching_lines(pattern: &LinePattern, content: &[u8]) -> (r: Vec<(usize, String)>)
        ensures
            found_view(r@) == file_matches(pattern.source(), content@),
    {
        let ls = split_byte_lines(content);
        let ghost lv = ls@.map_values(|l: Vec<u8>| l@);
        let mut out: Vec<(usize, String)> = Vec::new();
        let mut i: usize = 0;
        while i < ls.len()
            invariant
                0 <= i <= ls.len(),
                lv == ls@.map_values(|l: Vec<u8>| l@),
                lv == byte_lines(content@),
                found_view(out@) == found_lines(pattern.source(), lv, i as int),
            decreases ls.len() - i,
        {
            assert(lv[i as int] == ls[i as int]@);
            let ghost before = found_view(out@);
            match utf8_text(ls[i].as_slice()) {
                Some(text) => {
                    if pattern_finds(pattern, text.as_str()) {
                        out.push((i + 1, text));
                        assert(found_view(out@) =~= before.push(((i + 1) as int, text@)));
                    }
                },
                None => {},
            }
            i = i + 1;
        }
        out
    }

    /// The pattern that finds a symbol as a whole word: its text, escaped,
    /// between two word boundaries.
    pub fn reference_pattern(symbol: &str) -> (r: String)
        ensures
            r@ == seq!['\\', 'b'] + escape_spec(symbol@) + seq!['\\', 'b'],
    {
        let escaped = chars_of(regex_escape(symbol).as_str());
        let mut out: Vec<char> = vec!['\\', 'b'];
        append(&mut out, escaped.as_slice());
        append(&mut out, &['\\', 'b']);
        proof {
            assert(out@ =~= seq!['\\', 'b'] + escape_spec(symbol@) + seq!['\\', 'b']);
        }
        string_of(out.as_slice())
    }
}


// ---------------------------------------------------------------------------
// Case-sensitive search
// ---------------------------------------------------------------------------

/// Whether the regex crate accepts a pattern with `Regex::new`, that is,
/// case-sensitively with its default limits.
pub uninterp spec fn regex_accepts_exact(pattern: Seq<char>) -> bool;

/// Whether the regex that `Regex::new` builds from `pattern` matches
/// somewhere in `line`.
pub uninterp spec fn regex_finds_exact(pattern: Seq<char>, line: Seq<char>) -> bool;

/// A pattern compiled for case-sensitive matching, with its source text.
/// Its fields are private: a value exists only as `compile_exact` built it,
/// so `re` is always the regex compiled from `source`.
pub struct ExactPattern {
    source: String,
    re: regex::Regex,
}

impl ExactPattern {
    /// The text the pattern was compiled from.
    pub closed spec fn source(&self) -> Seq<char> {
        self.source@
    }
}

/// Calls `regex::Regex::new(pattern)` and keeps the pattern's text beside
/// the compiled regex. The build succeeds exactly when the crate accepts the
/// pattern.
#[verifier::external_body]
fn compile_exact(pattern: &str) -> (r: Result<ExactPattern, regex::Error>)
    ensures
        r is Ok <==> regex_accepts_exact(pattern@),
        r matches Ok(p) ==> p.source() == pattern@,
{
    match regex::Regex::new(pattern) {
        Ok(re) => Ok(ExactPattern { source: pattern.to_string(), re }),
        Err(e) => Err(e),
    }
}

/// Calls `regex::Regex::is_match` on the compiled pattern: whether it
/// matches somewhere in `line`.
#[verifier::external_body]
fn exact_finds(p: &ExactPattern, line: &str) -> (b: bool)
    ensures
        b == regex_finds_exact(p.source(), line@),
{
    p.re.is_match(line)
}

/// The message for a pattern that the regex crate refused: the pattern in
/// quotes, then the crate's own message.
pub open spec fn invalid_regex_message(pattern: Seq<char>, msg: Seq<char>) -> Seq<char> {
    "Invalid regex '"@ + pattern + "': "@ + msg
}

/// Compiles a pattern for case-sensitive search, or gives the message for
/// a pattern that the regex crate refuses.
pub fn compile_case_sensitive(pattern: &str) -> (r: Result<ExactPattern, String>)
    ensures
        r is Ok <==> regex_accepts_exact(pattern@),
        r matches Ok(p) ==> p.source() == pattern@,
        r matches Err(m) ==> exists|msg: Seq<char>| m@ == invalid_regex_message(pattern@, msg),
{
    match compile_exact(pattern) {
        Ok(p) => Ok(p),
        Err(e) => {
            let msg = regex_error_message(&e);
            let mut out = chars_of("Invalid regex '");
            append(&mut out, chars_of(pattern).as_slice());
            append(&mut out, chars_of("': ").as_slice());
            append(&mut out, chars_of(msg.as_str()).as_slice());
            let m = string_of(out.as_slice());
            assert(m@ == invalid_regex_message(pattern@, msg@));
            Err(m)
        },
    }
}

/// Among the first `n` lines, those in which the pattern finds a match,
/// each with its line number counted from 1.
pub open spec fn exact_lines(pattern: Seq<char>, ls: Seq<Seq<char>>, n: int) -> Seq<(int, Seq<char>)>
    decreases n,
{
    if n <= 0 {
        seq![]
    } else {
        let prev = exact_lines(pattern, ls, n - 1);
        if regex_finds_exact(pattern, ls[n - 1]) {
            prev.push((n, ls[n - 1]))
        } else {
            prev
        }
    }
}

/// The case-sensitive matches of a pattern in a file's text, line by line
/// as `str::lines` splits it.
pub open spec fn file_matches_exact(pattern: Seq<char>, content: Seq<char>) -> Seq<(int, Seq<char>)> {
    let ls = lines(content);
    exact_lines(pattern, ls, ls.len() as int)
}

/// The hits of one file: none when its path relative to the root is not
/// allowed by the wanted and skipped sets, else its matching lines.
pub open spec fn file_hits_spec(
    pattern: Seq<char>,
    wanted: Option<Seq<Seq<char>>>,
    skipped: Option<Seq<Seq<char>>>,
    rel: Seq<char>,
    content: Seq<char>,
) -> Seq<(int, Seq<char>)> {
    if allowed(wanted, skipped, rel) {
        file_matches_exact(pattern, content)
    } else {
        seq![]
    }
}

/// The lines of one file, at path `rel` relative to the root, in which the
/// pattern finds a case-sensitive match, numbered from 1; none when the
/// wanted and skipped sets do not allow the path.
pub fn regex_file_hits(
    rel: &str,
    content: &str,
    p: &ExactPattern,
    wanted: &Option<GlobFilter>,
    skipped: &Option<GlobFilter>,
) -> (r: Vec<(usize, String)>)
    ensures
        found_view(r@) == file_hits_spec(p.source(), filter_patterns(*wanted), filter_patterns(*skipped), rel@, content@),
{
    let mut out: Vec<(usize, String)> = Vec::new();
    if !path_allowed(wanted, skipped, rel) {
        return out;
    }
    let cs = chars_of(content);
    let ls = lines_exec(cs.as_slice());
    let ghost lv = views(ls@);
    let mut i: usize = 0;
    while i < ls.len()
        invariant
            0 <= i <= ls.len(),
            lv == views(ls@),
            lv == lines(content@),
            found_view(out@) == exact_lines(p.source(), lv, i as int),
        decreases ls.len() - i,
    {
        assert(lv[i as int] == ls[i as int]@);
        let line = string_of(ls[i].as_slice());
        let ghost before = found_view(out@);
        if exact_finds(p, line.as_str()) {
            out.push((i + 1, line));
            assert(found_view(out@) =~= before.push(((i + 1) as int, lv[i as int])));
        }
        i = i + 1;
    }
    out
}

/// The wanted globs of a search: the configured ones, or every path when
/// none is configured.
pub open spec fn search_includes(wanted: Seq<Seq<char>>) -> Seq<Seq<char>> {
    if wanted.len() == 0 {
        seq!["**/*"@]
    } else {
        wanted
    }
}

/// The skipped globs of a search: the configured ones, then dependency,
/// build-output and version-control directories.
pub open spec fn search_excludes(skipped: Seq<Seq<char>>) -> Seq<Seq<char>> {
    skipped + seq!["node_modules/**"@, "dist/**"@, "build/**"@, "target/**"@, ".git/**"@]
}

/// The wanted and skipped sets of a search over the repository.
pub fn search_globsets(include_paths: &Vec<String>, exclude_paths: &Vec<String>) -> (r: (
    Option<GlobFilter>,
    Option<GlobFilter>,
))
    ensures
        filter_patterns(r.0) == built_patterns(search_includes(texts(include_paths@))),
        filter_patterns(r.1) == built_patterns(search_excludes(texts(exclude_paths@))),
{
    let mut inc: Vec<String> = Vec::new();
    if include_paths.len() == 0 {
        inc.push(string_of(chars_of("**/*").as_slice()));
        assert(texts(inc@) =~= search_includes(texts(include_paths@)));
    } else {
        let mut i: usize = 0;
        while i < include_paths.len()
            invariant
                0 <= i <= include_paths.len(),
                texts(inc@) == texts(include_paths@).take(i as int),
            decreases include_paths.len() - i,
        {
            let c = include_paths[i].clone();
            let ghost before = texts(inc@);
            inc.push(c);
            assert(texts(inc@) =~= before.push(include_paths@[i as int]@));
            assert(texts(include_paths@).take(i + 1) =~= texts(include_paths@).take(i as int).push(include_paths@[i as int]@));
            assert(texts(inc@) =~= texts(include_paths@).take(i + 1));
            i = i + 1;
        }
        assert(texts(include_paths@).take(include_paths.len() as int) =~= texts(include_paths@));
    }
    let mut exc: Vec<String> = Vec::new();
    let mut j: usize = 0;
    while j < exclude_paths.len()
        invariant
            0 <= j <= exclude_paths.len(),
            texts(exc@) == texts(exclude_paths@).take(j as int),
        decreases exclude_paths.len() - j,
    {
        let c = exclude_paths[j].clone();
        let ghost before = texts(exc@);
        exc.push(c);
        assert(texts(exc@) =~= before.push(exclude_paths@[j as int]@));
        assert(texts(exclude_paths@).take(j + 1) =~= texts(exclude_paths@).take(j as int).push(exclude_paths@[j as int]@));
        assert(texts(exc@) =~= texts(exclude_paths@).take(j + 1));
        j = j + 1;
    }
    assert(texts(exclude_paths@).take(exclude_paths.len() as int) =~= texts(exclude_paths@));
    exc.push(string_of(chars_of("node_modules/**").as_slice()));
    exc.push(string_of(chars_of("dist/**").as_slice()));
    exc.push(string_of(chars_of("build/**").as_slice()));
    exc.push(string_of(chars_of("target/**").as_slice()));
    exc.push(string_of(chars_of(".git/**").as_slice()));
    assert(texts(exc@) =~= search_excludes(texts(exclude_paths@)));
    (build_globset(&inc), build_globset(&exc))
}

pub open spec fn text_files(files: Seq<(String, String)>) -> Seq<(Seq<char>, Seq<char>)> {
    files.map_values(|f: (String, String)| (f.0@, f.1@))
}

/// The hits of the first `n` files, each with the file's relative path.
pub open spec fn search_upto(
    pattern: Seq<char>,
    wanted: Option<Seq<Seq<char>>>,
    skipped: Option<Seq<Seq<char>>>,
    files: Seq<(Seq<char>, Seq<char>)>,
    n: int,
) -> Seq<(Seq<char>, int, Seq<char>)>
    decreases n,
{
    if n <= 0 {
        seq![]
    } else {
        let f = files[n - 1];
        search_upto(pattern, wanted, skipped, files, n - 1) + file_hits_spec(pattern, wanted, skipped, f.0, f.1).map_values(
            |h: (int, Seq<char>)| (f.0, h.0, h.1),
        )
    }
}

pub open spec fn hit_triples(v: Seq<(String, usize, String)>) -> Seq<(Seq<char>, int, Seq<char>)> {
    v.map_values(|h: (String, usize, String)| (h.0@, h.1 as int, h.2@))
}

/// Searches the repository's files case-sensitively. `files` holds each
/// file's path relative to the root and its text, in walk order; a path is
/// searched when the wanted globs (every path when none is configured)
/// match it and the skipped globs, with the usual build and dependency
/// directories added, do not. Fails, before any file, when the regex crate
/// refuses the pattern.
pub fn regex_search(
    pattern: &str,
    include_paths: &Vec<String>,
    exclude_paths: &Vec<String>,
    files: &Vec<(String, String)>,
) -> (r: Result<Vec<(String, usize, String)>, String>)
    ensures
        r is Ok <==> regex_accepts_exact(pattern@),
        r matches Err(m) ==> exists|msg: Seq<char>| m@ == invalid_regex_message(pattern@, msg),
        r matches Ok(v) ==> hit_triples(v@) == search_upto(
            pattern@,
            built_patterns(search_includes(texts(include_paths@))),
            built_patterns(search_excludes(texts(exclude_paths@))),
            text_files(files@),
            files@.len() as int,
        ),
{
    let p = match compile_case_sensitive(pattern) {
        Ok(p) => p,
        Err(m) => {
            return Err(m);
        },
    };
    let (inc, exc) = search_globsets(include_paths, exclude_paths);
    let ghost ip = filter_patterns(inc);
    let ghost ep = filter_patterns(exc);
    let ghost fv = text_files(files@);
    let mut out: Vec<(String, usize, String)> = Vec::new();
    let mut i: usize = 0;
    while i < files.len()
        invariant
            0 <= i <= files.len(),
            p.source() == pattern@,
            ip == filter_patterns(inc),
            ep == filter_patterns(exc),
            fv == text_files(files@),
            hit_triples(out@) == search_upto(pattern@, ip, ep, fv, i as int),
        decreases files.len() - i,
    {
        let f = &files[i];
        assert(fv[i as int] == (f.0@, f.1@));
        let hits = regex_file_hits(f.0.as_str(), f.1.as_str(), &p, &inc, &exc);
        let ghost hv = found_view(hits@);
        let ghost base = hit_triples(out@);
        let mut k: usize = 0;
        while k < hits.len()
            invariant
                0 <= k <= hits.len(),
                hv == found_view(hits@),
                hit_triples(out@) == base + hv.take(k as int).map_values(|h: (int, Seq<char>)| (f.0@, h.0, h.1)),
            decreases hits.len() - k,
        {
            let ghost before = hit_triples(out@);
            out.push((f.0.clone(), hits[k].0, hits[k].1.clone()));
            assert(hv[k as int] == (hits@[k as int].0 as int, hits@[k as int].1@));
            assert(hit_triples(out@) =~= before.push((f.0@, hits@[k as int].0 as int, hits@[k as int].1@)));
            assert(hv.take(k + 1).map_values(|h: (int, Seq<char>)| (f.0@, h.0, h.1)) =~= hv.take(k as int).map_values(
                |h: (int, Seq<char>)| (f.0@, h.0, h.1),
            ).push((f.0@, hv[k as int].0, hv[k as int].1)));
            k = k + 1;
        }
        assert(hv.take(hits.len() as int) =~= hv);
        assert(hit_triples(out@) =~= search_upto(pattern@, ip, ep, fv, i + 1));
        i = i + 1;
    }
    Ok(out)
}

} // verus!
