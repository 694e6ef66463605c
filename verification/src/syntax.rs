//! Syntax queries: tree-sitter parses a source text and reports the
//! captures of a query as plain records.
use vstd::prelude::*;
use tree_sitter::StreamingIterator;

verus! {

/// The tree-sitter grammars the library parses with.
#[derive(Clone, Copy, Debug, PartialEq, Eq, Structural)]
pub enum Grammar {
    Python,
    Java,
    TypeScript,
    Tsx,
    Cpp,
    Go,
    Rust,
    Ruby,
    Php,
    CSharp,
    C,
}

pub open spec fn grammar_code(g: Grammar) -> u8 {
    match g {
        Grammar::Python => 0,
        Grammar::Java => 1,
        Grammar::TypeScript => 2,
        Grammar::Tsx => 3,
        Grammar::Cpp => 4,
        Grammar::Go => 5,
        Grammar::Rust => 6,
        Grammar::Ruby => 7,
        Grammar::Php => 8,
        Grammar::CSharp => 9,
        Grammar::C => 10,
    }
}

/// One capture of a query match: the capture's name, the captured node's
/// kind, its text (when it is valid UTF-8), its byte range and its first and
/// last row (0-indexed).
#[derive(Debug)]
pub struct Capture {
    pub capture: String,
    pub kind: String,
    pub text: Option<String>,
    pub start_byte: usize,
    pub end_byte: usize,
    pub start_row: usize,
    pub end_row: usize,
}

pub type CaptureView = (Seq<char>, Seq<char>, Option<Seq<char>>, usize, usize, usize, usize);

impl View for Capture {
    type V = CaptureView;

    open spec fn view(&self) -> CaptureView {
        (
            self.capture@,
            self.kind@,
            match self.text {
                Some(t) => Some(t@),
                None => None,
            },
            self.start_byte,
            self.end_byte,
            self.start_row,
            self.end_row,
        )
    }
}

/// The captures of each match, in match order.
pub open spec fn matches_view(m: Seq<Vec<Capture>>) -> Seq<Seq<CaptureView>> {
    m.map_values(|v: Vec<Capture>| v@.map_values(|c: Capture| c@))
}

/// The capture names of a query compiled for a grammar, by capture index;
/// nothing when the grammar cannot be loaded or the query does not compile.
pub uninterp spec fn ts_capture_names(grammar: u8, query: Seq<char>) -> Option<Seq<Seq<char>>>;

/// For each match of a query over a parsed text, in the order the query
/// cursor yields them, each capture's index, node kind and byte range;
/// nothing when the grammar cannot be loaded, the text cannot be parsed or
/// the query does not compile.
pub uninterp spec fn ts_capture_spans(grammar: u8, query: Seq<char>, content: Seq<char>) -> Option<
    Seq<Seq<(u32, Seq<char>, usize, usize)>>,
>;

/// For each match as above, each capture's first and last row.
pub uninterp spec fn ts_capture_rows(grammar: u8, query: Seq<char>, content: Seq<char>) -> Option<
    Seq<Seq<(usize, usize)>>,
>;

/// The two reports have the same matches and captures, and every capture
/// index names a capture of the query.
pub open spec fn joinable(
    names: Seq<Seq<char>>,
    spans: Seq<Seq<(u32, Seq<char>, usize, usize)>>,
    rows: Seq<Seq<(usize, usize)>>,
) -> bool {
    &&& spans.len() == rows.len()
    &&& forall|i: int| 0 <= i < spans.len() ==> (#[trigger] spans[i]).len() == rows[i].len()
    &&& forall|i: int, j: int|
        0 <= i < spans.len() && 0 <= j < spans[i].len() ==> ((#[trigger] spans[i][j]).0 as int) < names.len()
}

/// The text of the bytes `a..b` of `bytes`, when they are valid UTF-8.
pub open spec fn text_of(bytes: Seq<u8>, a: usize, b: usize) -> Option<Seq<char>> {
    let sub = bytes.subrange(a as int, b as int);
    if vstd::utf8::valid_utf8(sub) {
        Some(vstd::utf8::decode_utf8(sub))
    } else {
        None
    }
}

/// The captures of the reports, capture by capture, with their texts cut
/// from the UTF-8 bytes of the source.
pub open spec fn joined(
    names: Seq<Seq<char>>,
    spans: Seq<Seq<(u32, Seq<char>, usize, usize)>>,
    rows: Seq<Seq<(usize, usize)>>,
    bytes: Seq<u8>,
) -> Seq<Seq<CaptureView>> {
    Seq::new(
        spans.len(),
        |i: int|
            Seq::new(
                spans[i].len(),
                |j: int|
                    (
                        names[spans[i][j].0 as int],
                        spans[i][j].1,
                        text_of(bytes, spans[i][j].2, spans[i][j].3),
                        spans[i][j].2,
                        spans[i][j].3,
                        rows[i][j].0,
                        rows[i][j].1,
                    ),
            ),
    )
}

/// What tree-sitter reports for a query over a source text with a grammar:
/// the captures of each match in the order the query cursor yields them,
/// or nothing when the grammar cannot be loaded, the text cannot be parsed,
/// the query does not compile, or the reports cannot be joined.
pub open spec fn ts_query_captures(grammar: u8, query: Seq<char>, content: Seq<char>) -> Option<
    Seq<Seq<CaptureView>>,
> {
    match (
        ts_capture_names(grammar, query),
        ts_capture_spans(grammar, query, content),
        ts_capture_rows(grammar, query, content),
    ) {
        (Some(n), Some(s), Some(r)) => if joinable(n, s, r) {
            Some(joined(n, s, r, vstd::utf8::encode_utf8(content)))
        } else {
            None
        },
        _ => None,
    }
}

/// Every row is at most the row after it in a capture, and below
/// `usize::MAX`.
pub open spec fn rows_below(rows: Seq<Seq<(usize, usize)>>) -> bool {
    forall|i: int, j: int|
        0 <= i < rows.len() && 0 <= j < rows[i].len() ==> (#[trigger] rows[i][j]).0 <= rows[i][j].1
            < usize::MAX
}

/// Every capture's first row is at most its last row, and the last row
/// leaves room for a 1-indexed line number.
pub open spec fn rows_fit(ms: Seq<Seq<CaptureView>>) -> bool {
    forall|i: int, j: int|
        0 <= i < ms.len() && 0 <= j < ms[i].len() ==> (#[trigger] ms[i][j]).5 <= ms[i][j].6
            < usize::MAX
}

/// Converts a grammar to tree-sitter's language value.
#[verifier::external_body]
fn ts_language(g: Grammar) -> tree_sitter_language::LanguageFn {
    match g {
        Grammar::Python => tree_sitter_python::LANGUAGE,
        Grammar::Java => tree_sitter_java::LANGUAGE,
        Grammar::TypeScript => tree_sitter_typescript::LANGUAGE_TYPESCRIPT,
        Grammar::Tsx => tree_sitter_typescript::LANGUAGE_TSX,
        Grammar::Cpp => tree_sitter_cpp::LANGUAGE,
        Grammar::Go => tree_sitter_go::LANGUAGE,
        Grammar::Rust => tree_sitter_rust::LANGUAGE,
        Grammar::Ruby => tree_sitter_ruby::LANGUAGE,
        Grammar::Php => tree_sitter_php::LANGUAGE_PHP,
        Grammar::CSharp => tree_sitter_c_sharp::LANGUAGE,
        Grammar::C => tree_sitter_c::LANGUAGE,
    }
}

#[verifier::external_type_specification]
#[verifier::external_body]
pub struct ExLanguageFn(tree_sitter_language::LanguageFn);

/// Compiles `query` for the grammar (`Query::new`) and lists its capture
/// names (`Query::capture_names`). Its result is named.
#[verifier::external_body]
fn ts_names(grammar: Grammar, query: &str) -> (r: Option<Vec<String>>)
    ensures
        match r {
            Some(v) => ts_capture_names(grammar_code(grammar), query@) == Some(v@.map_values(|s: String| s@)),
            None => ts_capture_names(grammar_code(grammar), query@) is None,
        },
{
    let lang: tree_sitter::Language = ts_language(grammar).into();
    let q = tree_sitter::Query::new(&lang, query).ok()?;
    Some(q.capture_names().iter().map(|n| n.to_string()).collect())
}

pub open spec fn spans_view(v: Seq<Vec<(u32, String, usize, usize)>>) -> Seq<Seq<(u32, Seq<char>, usize, usize)>> {
    v.map_values(|m: Vec<(u32, String, usize, usize)>| m@.map_values(|c: (u32, String, usize, usize)| (c.0, c.1@, c.2, c.3)))
}

/// Every byte range lies within `n` bytes.
pub open spec fn spans_within(spans: Seq<Seq<(u32, Seq<char>, usize, usize)>>, n: int) -> bool {
    forall|i: int, j: int|
        0 <= i < spans.len() && 0 <= j < spans[i].len() ==> (#[trigger] spans[i][j]).2 <= spans[i][j].3 <= n
}

/// Parses `content` (`Parser::set_language`, `Parser::parse`), compiles
/// `query` and runs it from the root node (`QueryCursor::matches`),
/// recording each capture's index, node kind (`Node::kind`) and byte range.
/// Its result is named. Besides, a node's byte range lies within the text
/// it was parsed from.
#[verifier::external_body]
fn ts_spans(grammar: Grammar, query: &str, content: &str) -> (r: Option<Vec<Vec<(u32, String, usize, usize)>>>)
    ensures
        match r {
            Some(m) => ts_capture_spans(grammar_code(grammar), query@, content@) == Some(spans_view(m@))
                && spans_within(spans_view(m@), vstd::utf8::encode_utf8(content@).len() as int),
            None => ts_capture_spans(grammar_code(grammar), query@, content@) is None,
        },
{
    let lang: tree_sitter::Language = ts_language(grammar).into();
    let mut parser = tree_sitter::Parser::new();
    parser.set_language(&lang).ok()?;
    let tree = parser.parse(content, None)?;
    let q = tree_sitter::Query::new(&lang, query).ok()?;
    let mut cursor = tree_sitter::QueryCursor::new();
    let mut it = cursor.matches(&q, tree.root_node(), content.as_bytes());
    let mut out = Vec::new();
    while let Some(m) = it.next() {
        out.push(m.captures().iter().map(|c| (c.index, c.node.kind().to_string(), c.node.start_byte(), c.node.end_byte())).collect());
    }
    Some(out)
}

/// Parses and queries as `ts_spans` does, recording each capture's first
/// and last row (`Node::start_position`, `Node::end_position`). Its result
/// is named. Besides, a node's start point never follows its end point,
/// and a row counts the line breaks before a position inside the text, so
/// it is below the text's byte length, itself below `usize::MAX`.
#[verifier::external_body]
fn ts_rows(grammar: Grammar, query: &str, content: &str) -> (r: Option<Vec<Vec<(usize, usize)>>>)
    ensures
        match r {
            Some(m) => ts_capture_rows(grammar_code(grammar), query@, content@) == Some(m@.map_values(|v: Vec<(usize, usize)>| v@))
                && rows_below(m@.map_values(|v: Vec<(usize, usize)>| v@)),
            None => ts_capture_rows(grammar_code(grammar), query@, content@) is None,
        },
{
    let lang: tree_sitter::Language = ts_language(grammar).into();
    let mut parser = tree_sitter::Parser::new();
    parser.set_language(&lang).ok()?;
    let tree = parser.parse(content, None)?;
    let q = tree_sitter::Query::new(&lang, query).ok()?;
    let mut cursor = tree_sitter::QueryCursor::new();
    let mut it = cursor.matches(&q, tree.root_node(), content.as_bytes());
    let mut out = Vec::new();
    while let Some(m) = it.next() {
        out.push(m.captures().iter().map(|c| (c.node.start_position().row, c.node.end_position().row)).collect());
    }
    Some(out)
}

/// Calls `std::str::from_utf8`: the text the bytes encode, when they are
/// valid UTF-8.
#[verifier::external_body]
pub(crate) fn utf8_text(bytes: &[u8]) -> (r: Option<String>)
    ensures
        match r {
            Some(s) => vstd::utf8::valid_utf8(bytes@) && s@ == vstd::utf8::decode_utf8(bytes@),
            None => !vstd::utf8::valid_utf8(bytes@),
        },
{
    std::str::from_utf8(bytes).ok().map(|s| s.to_string())
}

/// Runs a syntax query over a source text: the captures of every match, in
/// order, with their names, kinds, texts, byte ranges and rows.
pub fn run_query(grammar: Grammar, query: &str, content: &str) -> (r: Option<Vec<Vec<Capture>>>)
    ensures
        match r {
            Some(m) => ts_query_captures(grammar_code(grammar), query@, content@) == Some(matches_view(m@)),
            None => ts_query_captures(grammar_code(grammar), query@, content@) is None,
        },
        r matches Some(m) ==> rows_fit(matches_view(m@)),
{
    let names = match ts_names(grammar, query) {
        Some(n) => n,
        None => {
            return None;
        },
    };
    let spans = match ts_spans(grammar, query, content) {
        Some(s) => s,
        None => {
            return None;
        },
    };
    let rows = match ts_rows(grammar, query, content) {
        Some(r) => r,
        None => {
            return None;
        },
    };
    let bytes = crate::hashing::bytes_of(content);
    let ghost bv = vstd::utf8::encode_utf8(content@);
    assert(bytes@ == bv);
    let ghost nv = names@.map_values(|s: String| s@);
    let ghost sv = spans_view(spans@);
    let ghost rv = rows@.map_values(|v: Vec<(usize, usize)>| v@);
    if spans.len() != rows.len() {
        return None;
    }
    let mut out: Vec<Vec<Capture>> = Vec::new();
    let mut i: usize = 0;
    while i < spans.len()
        invariant
            0 <= i <= spans.len(),
            spans.len() == rows.len(),
            nv == names@.map_values(|s: String| s@),
            sv == spans_view(spans@),
            rv == rows@.map_values(|v: Vec<(usize, usize)>| v@),
            bytes@ == bv,
            bv == vstd::utf8::encode_utf8(content@),
            rows_below(rv),
            spans_within(sv, bv.len() as int),
            ts_capture_names(grammar_code(grammar), query@) == Some(nv),
            ts_capture_spans(grammar_code(grammar), query@, content@) == Some(sv),
            ts_capture_rows(grammar_code(grammar), query@, content@) == Some(rv),
            out@.len() == i,
            forall|a: int| 0 <= a < i ==> (#[trigger] sv[a]).len() == rv[a].len(),
            forall|a: int, b: int| 0 <= a < i && 0 <= b < sv[a].len() ==> ((#[trigger] sv[a][b]).0 as int) < nv.len(),
            forall|a: int| 0 <= a < i ==> (#[trigger] out@[a])@.map_values(|c: Capture| c@) == joined(nv, sv, rv, bv)[a],
        decreases spans.len() - i,
    {
        let sm = &spans[i];
        let rm = &rows[i];
        if sm.len() != rm.len() {
            proof {
                assert(!joinable(nv, sv, rv)) by {
                    assert(sv[i as int].len() != rv[i as int].len());
                }
            }
            return None;
        }
        let mut caps: Vec<Capture> = Vec::new();
        let mut j: usize = 0;
        while j < sm.len()
            invariant
                0 <= j <= sm.len(),
                sm.len() == rm.len(),
                0 <= i < spans.len(),
                *sm == spans@[i as int],
                *rm == rows@[i as int],
                nv == names@.map_values(|s: String| s@),
                sv == spans_view(spans@),
                rv == rows@.map_values(|v: Vec<(usize, usize)>| v@),
                bytes@ == bv,
                rows_below(rv),
                spans_within(sv, bv.len() as int),
                ts_capture_names(grammar_code(grammar), query@) == Some(nv),
                ts_capture_spans(grammar_code(grammar), query@, content@) == Some(sv),
                ts_capture_rows(grammar_code(grammar), query@, content@) == Some(rv),
                bv == vstd::utf8::encode_utf8(content@),
                spans.len() == rows.len(),
                caps@.len() == j,
                forall|b: int| 0 <= b < j ==> ((#[trigger] sv[i as int][b]).0 as int) < nv.len(),
                forall|b: int| 0 <= b < j ==> (#[trigger] caps@[b])@ == joined(nv, sv, rv, bv)[i as int][b],
            decreases sm.len() - j,
        {
            let (idx, kind, sb, eb) = &sm[j];
            let (sr, er) = rm[j];
            assert(sv[i as int][j as int] == (*idx, kind@, *sb, *eb));
            assert(rv[i as int][j as int] == (sr, er));
            if *idx as usize >= names.len() {
                proof {
                    assert(!joinable(nv, sv, rv)) by {
                        assert(sv[i as int][j as int].0 as int >= nv.len());
                    }
                }
                return None;
            }
            let piece = slice_bytes(&bytes, *sb, *eb);
            let text = utf8_text(piece.as_slice());
            let ghost before = caps@;
            caps.push(Capture {
                capture: names[*idx as usize].clone(),
                kind: kind.clone(),
                text,
                start_byte: *sb,
                end_byte: *eb,
                start_row: sr,
                end_row: er,
            });
            assert forall|b: int| 0 <= b < j + 1 implies (#[trigger] caps@[b])@ == joined(nv, sv, rv, bv)[i as int][b] by {
                if b < j {
                    assert(caps@[b] == before[b]);
                }
            }
            j = j + 1;
        }
        assert(caps@.map_values(|c: Capture| c@) =~= joined(nv, sv, rv, bv)[i as int]);
        out.push(caps);
        i = i + 1;
    }
    assert(joinable(nv, sv, rv));
    assert(matches_view(out@) =~= joined(nv, sv, rv, bv)) by {
        assert forall|a: int| 0 <= a < out@.len() implies matches_view(out@)[a] == joined(nv, sv, rv, bv)[a] by {
            assert(out@[a]@.map_values(|c: Capture| c@) == joined(nv, sv, rv, bv)[a]);
        }
    }
    assert(rows_fit(matches_view(out@))) by {
        assert forall|a: int, b: int|
            0 <= a < matches_view(out@).len() && 0 <= b < matches_view(out@)[a].len() implies (#[trigger] matches_view(out@)[a][b]).5
            <= matches_view(out@)[a][b].6 < usize::MAX by {
            assert(matches_view(out@)[a][b] == joined(nv, sv, rv, bv)[a][b]);
            assert(rv[a][b].0 <= rv[a][b].1 < usize::MAX);
        }
    }
    Some(out)
}

/// Copies the bytes `a..b`.
fn slice_bytes(v: &Vec<u8>, a: usize, b: usize) -> (r: Vec<u8>)
    requires
        a <= b <= v@.len(),
    ensures
        r@ == v@.subrange(a as int, b as int),
{
    let mut r: Vec<u8> = Vec::new();
    let mut i = a;
    while i < b
        invariant
            a <= i <= b <= v@.len(),
            r@ == v@.subrange(a as int, i as int),
        decreases b - i,
    {
        r.push(v[i]);
        i = i + 1;
        assert(r@ =~= v@.subrange(a as int, i as int));
    }
    r
}

} // verus!
