//! Chunking source files into definitions found by syntax queries.
use vstd::prelude::*;
use crate::config::{ChunkingConfig, SplitStrategy};
use crate::hashing::{bytes_of, hex_lower, sha256, sha256_hex};
use crate::models::{Chunk, Language};
use crate::syntax::{grammar_code, matches_view, rows_fit, run_query, ts_query_captures, Capture,
    CaptureView, Grammar};
use crate::text::{chars_of, slice_range, string_of};

verus! {

/// Why a file could not be chunked.
#[derive(Clone, Copy, Debug, PartialEq, Eq, Structural)]
pub enum ChunkError {
    /// The language has no grammar.
    UnknownLanguage,
    /// The text could not be parsed or a query could not be compiled.
    Syntax,
    /// A captured node does not cover whole characters of the text.
    InvalidText,
}

/// Splits a source file into chunks.
pub trait Chunker {
    fn chunk(&self, content: &str, file_path: &str) -> Result<Vec<Chunk>, ChunkError>;
}

/// The captures of all matches, in order.
pub open spec fn flat(ms: Seq<Seq<CaptureView>>) -> Seq<CaptureView>
    decreases ms.len(),
{
    if ms.len() == 0 {
        seq![]
    } else {
        flat(ms.drop_last()) + ms.last()
    }
}

/// Every capture has its text.
pub open spec fn texts_ok(cs: Seq<CaptureView>) -> bool {
    forall|i: int| 0 <= i < cs.len() ==> (#[trigger] cs[i]).2 is Some
}

/// The SHA-256, as hex, of a path followed by a text (both UTF-8).
pub open spec fn chunk_hash(path: Seq<char>, text: Seq<char>) -> Seq<char> {
    hex_lower(sha256(vstd::utf8::encode_utf8(path) + vstd::utf8::encode_utf8(text)))
}

/// `ch` is the chunk of capture `c` in file `path` of language `lang`: its
/// text, lines (1-indexed), bytes and node kind, the hash of path and
/// text, and the hash's first 16 digits as its identifier.
pub open spec fn chunk_is(ch: Chunk, c: CaptureView, path: Seq<char>, lang: Language) -> bool {
    let text = c.2->0;
    let hash = chunk_hash(path, text);
    &&& ch.id@ == hash.take(16)
    &&& ch.language == lang
    &&& ch.file_path@ == path
    &&& ch.start_line == c.5 + 1
    &&& ch.end_line == c.6 + 1
    &&& ch.start_byte == Some(c.3)
    &&& ch.end_byte == Some(c.4)
    &&& ch.node_type@ == c.1
    &&& ch.content_hash@ == hash
    &&& ch.content@ == text
    &&& ch.parent_scope is None
    &&& ch.scope_path@.len() == 0
}

/// Every chunk's first line is at least 1 and at most its last line.
pub open spec fn chunk_lines_ordered(v: Seq<Chunk>) -> bool {
    forall|i: int| 0 <= i < v.len() ==> 1 <= (#[trigger] v[i]).start_line <= v[i].end_line
}

pub open spec fn chunks_are(v: Seq<Chunk>, cs: Seq<CaptureView>, path: Seq<char>, lang: Language) -> bool {
    v.len() == cs.len() && forall|i: int| 0 <= i < v.len() ==> chunk_is(#[trigger] v[i], cs[i], path, lang)
}

/// Whether every capture of the matches has its text.
pub fn all_texts(ms: &Vec<Vec<Capture>>) -> (b: bool)
    ensures
        b == texts_ok(flat(matches_view(ms@))),
{
    let ghost mv = matches_view(ms@);
    let mut i: usize = 0;
    while i < ms.len()
        invariant
            0 <= i <= ms.len(),
            mv == matches_view(ms@),
            texts_ok(flat(mv.take(i as int))),
        decreases ms.len() - i,
    {
        let m = &ms[i];
        let ghost cv = mv[i as int];
        assert(cv == m@.map_values(|c: Capture| c@));
        let mut j: usize = 0;
        while j < m.len()
            invariant
                0 <= j <= m.len(),
                0 <= i < ms.len(),
                mv == matches_view(ms@),
                cv == mv[i as int],
                cv == m@.map_values(|c: Capture| c@),
                forall|t: int| 0 <= t < j ==> (#[trigger] cv[t]).2 is Some,
            decreases m.len() - j,
        {
            assert(cv[j as int] == m@[j as int]@);
            if m[j].text.is_none() {
                proof {
                    assert(mv.take(i + 1).drop_last() =~= mv.take(i as int));
                    assert(mv.take(i + 1).last() == cv);
                    lemma_flat_prefix(mv, i + 1);
                    let f = flat(mv.take(i + 1));
                    let k = flat(mv.take(i as int)).len() + j;
                    assert(f[k] == cv[j as int]);
                }
                return false;
            }
            j = j + 1;
        }
        proof {
            assert(mv.take(i + 1).drop_last() =~= mv.take(i as int));
            assert(mv.take(i + 1).last() == cv);
        }
        i = i + 1;
    }
    assert(mv.take(ms.len() as int) =~= mv);
    true
}

/// Texts missing from a prefix of the matches are missing from all of them.
pub proof fn lemma_flat_prefix(ms: Seq<Seq<CaptureView>>, n: int)
    requires
        0 <= n <= ms.len(),
    ensures
        flat(ms.take(n)).is_prefix_of(flat(ms)),
    decreases ms.len() - n,
{
    if n < ms.len() {
        lemma_flat_prefix(ms, n + 1);
        assert(ms.take(n + 1).drop_last() =~= ms.take(n));
        let a = flat(ms.take(n));
        let b = flat(ms.take(n + 1));
        assert forall|i: int| 0 <= i < a.len() implies a[i] == flat(ms)[i] by {
            assert(a[i] == b[i]);
        }
    } else {
        assert(ms.take(n) =~= ms);
    }
}

fn make_chunk(c: &Capture, text: &String, file_path: &str, language: Language) -> (ch: Chunk)
    requires
        c.text == Some(*text),
        c.start_row <= c.end_row < usize::MAX,
    ensures
        chunk_is(ch, c@, file_path@, language),
{
    let mut data = bytes_of(file_path);
    let tb = bytes_of(text.as_str());
    let ghost d0 = data@;
    let mut k: usize = 0;
    while k < tb.len()
        invariant
            0 <= k <= tb.len(),
            data@ == d0 + tb@.take(k as int),
        decreases tb.len() - k,
    {
        data.push(tb[k]);
        k = k + 1;
        assert(data@ =~= d0 + tb@.take(k as int));
    }
    assert(tb@.take(tb.len() as int) =~= tb@);
    let hash = sha256_hex(data.as_slice());
    let hc = chars_of(hash.as_str());
    let id = string_of(slice_range(hc.as_slice(), 0, 16).as_slice());
    assert(id@ =~= hash@.take(16));
    Chunk {
        id,
        language,
        file_path: string_of(chars_of(file_path).as_slice()),
        start_line: c.start_row + 1,
        end_line: c.end_row + 1,
        start_byte: Some(c.start_byte),
        end_byte: Some(c.end_byte),
        node_type: c.kind.clone(),
        content_hash: hash,
        content: text.clone(),
        parent_scope: None,
        scope_path: Vec::new(),
    }
}

/// One chunk per capture of the matches, in order.
pub fn chunks_from_matches(ms: &Vec<Vec<Capture>>, file_path: &str, language: Language) -> (r: Vec<Chunk>)
    requires
        rows_fit(matches_view(ms@)),
        texts_ok(flat(matches_view(ms@))),
    ensures
        chunks_are(r@, flat(matches_view(ms@)), file_path@, language),
        chunk_lines_ordered(r@),
{
    let ghost mv = matches_view(ms@);
    let mut out: Vec<Chunk> = Vec::new();
    let mut i: usize = 0;
    while i < ms.len()
        invariant
            0 <= i <= ms.len(),
            mv == matches_view(ms@),
            rows_fit(mv),
            texts_ok(flat(mv)),
            chunks_are(out@, flat(mv.take(i as int)), file_path@, language),
            chunk_lines_ordered(out@),
        decreases ms.len() - i,
    {
        let m = &ms[i];
        let ghost cv = mv[i as int];
        assert(cv == m@.map_values(|c: Capture| c@));
        let ghost base = flat(mv.take(i as int));
        proof {
            lemma_flat_prefix(mv, i + 1);
            assert(mv.take(i + 1).drop_last() =~= mv.take(i as int));
            assert(mv.take(i + 1).last() == cv);
        }
        let mut j: usize = 0;
        while j < m.len()
            invariant
                0 <= j <= m.len(),
                cv == m@.map_values(|c: Capture| c@),
                cv == mv[i as int],
                0 <= i < mv.len(),
                rows_fit(mv),
                texts_ok(flat(mv)),
                flat(mv.take(i + 1)) == base + cv,
                flat(mv.take(i + 1)).is_prefix_of(flat(mv)),
                chunks_are(out@, base + cv.take(j as int), file_path@, language),
                chunk_lines_ordered(out@),
            decreases m.len() - j,
        {
            let c = &m[j];
            assert(cv[j as int] == c@);
            assert(mv[i as int][j as int] == c@);
            let ghost k = base.len() + j;
            assert(flat(mv)[k as int] == c@) by {
                assert(flat(mv.take(i + 1))[k as int] == cv[j as int]);
            }
            match &c.text {
                Some(t) => {
                    let ch = make_chunk(c, t, file_path, language);
                    let ghost before = out@;
                    out.push(ch);
                    proof {
                        assert(base + cv.take(j + 1) =~= (base + cv.take(j as int)).push(cv[j as int]));
                        assert forall|x: int| 0 <= x < out@.len() implies chunk_is(
                            #[trigger] out@[x],
                            (base + cv.take(j + 1))[x],
                            file_path@,
                            language,
                        ) by {
                            if x < before.len() {
                                assert(out@[x] == before[x]);
                            }
                        }
                        assert forall|x: int| 0 <= x < out@.len() implies 1 <= (#[trigger] out@[x]).start_line
                            <= out@[x].end_line by {
                            if x < before.len() {
                                assert(out@[x] == before[x]);
                            }
                        }
                    }
                },
                None => {
                    assert(flat(mv)[k as int].2 is Some);
                },
            }
            j = j + 1;
        }
        assert(cv.take(m@.len() as int) =~= cv);
        i = i + 1;
    }
    assert(mv.take(ms.len() as int) =~= mv);
    out
}

/// Runs one query and chunks its captures: `Syntax` when tree-sitter
/// reports nothing, `InvalidText` when a capture has no text.
pub fn chunk_with_query(grammar: Grammar, query: &str, content: &str, file_path: &str, language: Language) -> (r: Result<Vec<Chunk>, ChunkError>)
    ensures
        match ts_query_captures(grammar_code(grammar), query@, content@) {
            None => r == Err::<Vec<Chunk>, ChunkError>(ChunkError::Syntax),
            Some(ms) => if texts_ok(flat(ms)) {
                r matches Ok(v) && chunks_are(v@, flat(ms), file_path@, language)
            } else {
                r == Err::<Vec<Chunk>, ChunkError>(ChunkError::InvalidText)
            },
        },
        r matches Ok(v) ==> chunk_lines_ordered(v@),
{
    match run_query(grammar, query, content) {
        None => Err(ChunkError::Syntax),
        Some(ms) => {
            if all_texts(&ms) {
                Ok(chunks_from_matches(&ms, file_path, language))
            } else {
                Err(ChunkError::InvalidText)
            }
        },
    }
}

/// A query pattern and its priority.
#[derive(Debug)]
pub struct ChunkQuery {
    pub pattern: String,
    pub priority: u8,
}

pub open spec fn query_views(v: Seq<ChunkQuery>) -> Seq<(Seq<char>, u8)> {
    v.map_values(|q: ChunkQuery| (q.pattern@, q.priority))
}

/// The chunk queries of a language: patterns naming the definitions that
/// make chunks, with their priorities.
pub open spec fn queries_for(lang: Language) -> Seq<(Seq<char>, u8)> {
    match lang {
        Language::Python => seq![("(function_definition) @function"@, 10u8), ("(class_definition) @class"@, 5u8)],
        Language::Go => seq![
            ("(function_declaration) @function"@, 10u8),
            ("(method_declaration) @method"@, 10u8),
            ("(type_declaration) @type"@, 5u8),
        ],
        Language::Rust => seq![
            ("(function_item) @function"@, 10u8),
            ("(impl_item) @impl"@, 8u8),
            ("(struct_item) @struct"@, 5u8),
            ("(enum_item) @enum"@, 5u8),
            ("(trait_item) @trait"@, 5u8),
        ],
        Language::Java => seq![("(method_declaration) @method"@, 10u8), ("(class_declaration) @class"@, 5u8)],
        Language::TypeScript | Language::JavaScript => seq![
            ("(function_declaration) @function"@, 10u8),
            ("(class_declaration) @class"@, 5u8),
            ("(method_definition) @method"@, 10u8),
        ],
        Language::Cpp => seq![("(function_definition) @function"@, 10u8), ("(class_specifier) @class"@, 5u8)],
        Language::Ruby => seq![("(method) @method"@, 10u8), ("(module) @module"@, 5u8), ("(class) @class"@, 5u8)],
        Language::Php => seq![
            ("(function_definition) @function"@, 10u8),
            ("(method_declaration) @method"@, 10u8),
            ("(class_declaration) @class"@, 5u8),
        ],
        Language::CSharp => seq![
            ("(method_declaration) @method"@, 10u8),
            ("(class_declaration) @class"@, 5u8),
            ("(interface_declaration) @interface"@, 5u8),
            ("(struct_declaration) @struct"@, 5u8),
        ],
        Language::C => seq![
            ("(function_definition) @function"@, 10u8),
            ("(struct_specifier) @struct"@, 5u8),
            ("(enum_specifier) @enum"@, 5u8),
        ],
        Language::Unknown => seq![],
    }
}

/// Whether a query pattern ends with the capture `label`.
pub open spec fn captures_as(pattern: Seq<char>, label: Seq<char>) -> bool {
    label.len() <= pattern.len() && pattern.subrange(pattern.len() - label.len(), pattern.len() as int) == label
}

proof fn lemma_last_of_label(p: Seq<char>, label: Seq<char>)
    requires
        captures_as(p, label),
        label.len() > 0,
    ensures
        p[p.len() - 1] == label[label.len() - 1],
{
    assert(p.subrange(p.len() - label.len(), p.len() as int)[label.len() - 1] == p[p.len() - 1]);
}

proof fn lemma_lower_priorities_end(lang: Language)
    ensures
        forall|i: int|
            0 <= i < queries_for(lang).len() && (#[trigger] queries_for(lang)[i]).1 != 10 ==> {
                let p = queries_for(lang)[i].0;
                p.len() > 0 && p[p.len() - 1] != 'n' && p[p.len() - 1] != 'd'
            },
{
    match lang {
        Language::Python => {
            reveal_strlit("(class_definition) @class");
        },
        Language::Go => {
            reveal_strlit("(type_declaration) @type");
        },
        Language::Rust => {
            reveal_strlit("(impl_item) @impl");
            reveal_strlit("(struct_item) @struct");
            reveal_strlit("(enum_item) @enum");
            reveal_strlit("(trait_item) @trait");
        },
        Language::Java => {
            reveal_strlit("(class_declaration) @class");
        },
        Language::TypeScript | Language::JavaScript => {
            reveal_strlit("(class_declaration) @class");
        },
        Language::Cpp => {
            reveal_strlit("(class_specifier) @class");
        },
        Language::Ruby => {
            reveal_strlit("(module) @module");
            reveal_strlit("(class) @class");
        },
        Language::Php => {
            reveal_strlit("(class_declaration) @class");
        },
        Language::CSharp => {
            reveal_strlit("(class_declaration) @class");
            reveal_strlit("(interface_declaration) @interface");
            reveal_strlit("(struct_declaration) @struct");
        },
        Language::C => {
            reveal_strlit("(struct_specifier) @struct");
            reveal_strlit("(enum_specifier) @enum");
        },
        Language::Unknown => {},
    }
}

/// The query table: no query for an unknown language and at least one for
/// every other; TypeScript and JavaScript share theirs; every priority is
/// 5, 8 or 10; each language's first query has priority 10; and every
/// query that captures functions or methods has priority 10.
pub proof fn law_query_table(lang: Language)
    ensures
        lang == Language::Unknown <==> queries_for(lang).len() == 0,
        queries_for(Language::TypeScript) == queries_for(Language::JavaScript),
        forall|i: int|
            0 <= i < queries_for(lang).len() ==> {
                let p = (#[trigger] queries_for(lang)[i]).1;
                p == 5 || p == 8 || p == 10
            },
        lang != Language::Unknown ==> queries_for(lang)[0].1 == 10,
        forall|i: int|
            0 <= i < queries_for(lang).len() && (captures_as((#[trigger] queries_for(lang)[i]).0, "@function"@)
                || captures_as(queries_for(lang)[i].0, "@method"@)) ==> queries_for(lang)[i].1 == 10,
{
    reveal_strlit("@function");
    reveal_strlit("@method");
    lemma_lower_priorities_end(lang);
    let q = queries_for(lang);
    assert forall|i: int|
        0 <= i < q.len() && (captures_as(#[trigger] q[i].0, "@function"@) || captures_as(q[i].0, "@method"@))
        implies q[i].1 == 10 by {
        if captures_as(q[i].0, "@function"@) {
            lemma_last_of_label(q[i].0, "@function"@);
        } else {
            lemma_last_of_label(q[i].0, "@method"@);
        }
    }
}


/// Whether a pattern captures a type-level definition: a class, type,
/// implementation, struct, enum, trait, module or interface.
pub open spec fn captures_type(p: Seq<char>) -> bool {
    captures_as(p, "@class"@) || captures_as(p, "@type"@) || captures_as(p, "@impl"@) || captures_as(p, "@struct"@) || captures_as(p, "@enum"@) || captures_as(p, "@trait"@) || captures_as(p, "@module"@) || captures_as(p, "@interface"@)
}

/// Whether a pattern matches nodes of the grammar kind `kind`.
pub open spec fn matches_node(p: Seq<char>, kind: Seq<char>) -> bool {
    p.len() > kind.len() + 1 && p[0] == '(' && p.subrange(1, kind.len() + 1int) == kind && p[kind.len() + 1int] == ')'
}

/// Every language the chunker knows chunks both its callables (functions
/// or methods, at the top priority 10) and at least one kind of type-level
/// definition (at a lower priority).
pub proof fn law_queries_cover_callables_and_types(lang: Language)
    requires
        lang != Language::Unknown,
    ensures
        exists|i: int|
            0 <= i < queries_for(lang).len() && (captures_as((#[trigger] queries_for(lang)[i]).0, "@function"@)
                || captures_as(queries_for(lang)[i].0, "@method"@)) && queries_for(lang)[i].1 == 10,
        exists|j: int|
            0 <= j < queries_for(lang).len() && captures_type((#[trigger] queries_for(lang)[j]).0)
                && queries_for(lang)[j].1 < 10,
{
    reveal_strlit("@function");
    reveal_strlit("@method");
    reveal_strlit("@class");
    reveal_strlit("@type");
    reveal_strlit("@impl");
    reveal_strlit("@struct");
    reveal_strlit("@enum");
    reveal_strlit("@trait");
    reveal_strlit("@module");
    reveal_strlit("@interface");
    let q = queries_for(lang);
    match lang {
        Language::Python => {
            reveal_strlit("(function_definition) @function");
            reveal_strlit("(class_definition) @class");
            assert(q[0].0.subrange(q[0].0.len() - "@function"@.len(), q[0].0.len() as int) =~= "@function"@);
            assert(q[1].0.subrange(q[1].0.len() - "@class"@.len(), q[1].0.len() as int) =~= "@class"@);
            assert(captures_type(q[1].0));
        },
        Language::Go => {
            reveal_strlit("(function_declaration) @function");
            reveal_strlit("(type_declaration) @type");
            assert(q[0].0.subrange(q[0].0.len() - "@function"@.len(), q[0].0.len() as int) =~= "@function"@);
            assert(q[2].0.subrange(q[2].0.len() - "@type"@.len(), q[2].0.len() as int) =~= "@type"@);
            assert(captures_type(q[2].0));
        },
        Language::Rust => {
            reveal_strlit("(function_item) @function");
            reveal_strlit("(impl_item) @impl");
            assert(q[0].0.subrange(q[0].0.len() - "@function"@.len(), q[0].0.len() as int) =~= "@function"@);
            assert(q[1].0.subrange(q[1].0.len() - "@impl"@.len(), q[1].0.len() as int) =~= "@impl"@);
            assert(captures_type(q[1].0));
        },
        Language::Java => {
            reveal_strlit("(method_declaration) @method");
            reveal_strlit("(class_declaration) @class");
            assert(q[0].0.subrange(q[0].0.len() - "@method"@.len(), q[0].0.len() as int) =~= "@method"@);
            assert(q[1].0.subrange(q[1].0.len() - "@class"@.len(), q[1].0.len() as int) =~= "@class"@);
            assert(captures_type(q[1].0));
        },
        Language::TypeScript => {
            reveal_strlit("(function_declaration) @function");
            reveal_strlit("(class_declaration) @class");
            assert(q[0].0.subrange(q[0].0.len() - "@function"@.len(), q[0].0.len() as int) =~= "@function"@);
            assert(q[1].0.subrange(q[1].0.len() - "@class"@.len(), q[1].0.len() as int) =~= "@class"@);
            assert(captures_type(q[1].0));
        },
        Language::Cpp => {
            reveal_strlit("(function_definition) @function");
            reveal_strlit("(class_specifier) @class");
            assert(q[0].0.subrange(q[0].0.len() - "@function"@.len(), q[0].0.len() as int) =~= "@function"@);
            assert(q[1].0.subrange(q[1].0.len() - "@class"@.len(), q[1].0.len() as int) =~= "@class"@);
            assert(captures_type(q[1].0));
        },
        Language::Ruby => {
            reveal_strlit("(method) @method");
            reveal_strlit("(module) @module");
            assert(q[0].0.subrange(q[0].0.len() - "@method"@.len(), q[0].0.len() as int) =~= "@method"@);
            assert(q[1].0.subrange(q[1].0.len() - "@module"@.len(), q[1].0.len() as int) =~= "@module"@);
            assert(captures_type(q[1].0));
        },
        Language::Php => {
            reveal_strlit("(function_definition) @function");
            reveal_strlit("(class_declaration) @class");
            assert(q[0].0.subrange(q[0].0.len() - "@function"@.len(), q[0].0.len() as int) =~= "@function"@);
            assert(q[2].0.subrange(q[2].0.len() - "@class"@.len(), q[2].0.len() as int) =~= "@class"@);
            assert(captures_type(q[2].0));
        },
        Language::CSharp => {
            reveal_strlit("(method_declaration) @method");
            reveal_strlit("(class_declaration) @class");
            assert(q[0].0.subrange(q[0].0.len() - "@method"@.len(), q[0].0.len() as int) =~= "@method"@);
            assert(q[1].0.subrange(q[1].0.len() - "@class"@.len(), q[1].0.len() as int) =~= "@class"@);
            assert(captures_type(q[1].0));
        },
        Language::C => {
            reveal_strlit("(function_definition) @function");
            reveal_strlit("(struct_specifier) @struct");
            assert(q[0].0.subrange(q[0].0.len() - "@function"@.len(), q[0].0.len() as int) =~= "@function"@);
            assert(q[1].0.subrange(q[1].0.len() - "@struct"@.len(), q[1].0.len() as int) =~= "@struct"@);
            assert(captures_type(q[1].0));
        },
        Language::JavaScript => {
            reveal_strlit("(function_declaration) @function");
            reveal_strlit("(class_declaration) @class");
            assert(q[0].0.subrange(q[0].0.len() - "@function"@.len(), q[0].0.len() as int) =~= "@function"@);
            assert(q[1].0.subrange(q[1].0.len() - "@class"@.len(), q[1].0.len() as int) =~= "@class"@);
            assert(captures_type(q[1].0));
        },
        Language::Unknown => {},
    }
}

/// The grammar node kinds each language's table chunks: its functions and
/// methods and its type-level definitions.
pub open spec fn chunked_node_kinds(lang: Language) -> Seq<Seq<char>> {
    match lang {
        Language::Python => seq!["function_definition"@, "class_definition"@],
        Language::Go => seq!["function_declaration"@, "method_declaration"@, "type_declaration"@],
        Language::Rust => seq!["function_item"@, "impl_item"@, "struct_item"@, "enum_item"@, "trait_item"@],
        Language::Java => seq!["method_declaration"@, "class_declaration"@],
        Language::TypeScript | Language::JavaScript => seq!["function_declaration"@, "class_declaration"@, "method_definition"@],
        Language::Cpp => seq!["function_definition"@, "class_specifier"@],
        Language::Ruby => seq!["method"@, "module"@, "class"@],
        Language::Php => seq!["function_definition"@, "method_declaration"@, "class_declaration"@],
        Language::CSharp => seq!["method_declaration"@, "class_declaration"@, "interface_declaration"@, "struct_declaration"@],
        Language::C => seq!["function_definition"@, "struct_specifier"@, "enum_specifier"@],
        Language::Unknown => seq![],
    }
}

/// Every node kind that a language's definitions are made of is matched by
/// one of its chunk queries: C++ classes (`class_specifier`), Java and C#
/// methods (`method_declaration`), TypeScript methods (`method_definition`),
/// Go types, Rust impls, and so on.
pub proof fn law_queries_match_definitions(lang: Language, k: int)
    requires
        0 <= k < chunked_node_kinds(lang).len(),
    ensures
        exists|i: int| 0 <= i < queries_for(lang).len() && matches_node((#[trigger] queries_for(lang)[i]).0, chunked_node_kinds(lang)[k]),
{
    let q = queries_for(lang);
    match lang {
        Language::Python => {
            if k == 0 {
                reveal_strlit("(function_definition) @function");
                reveal_strlit("function_definition");
                assert(q[0].0.subrange(1, "function_definition"@.len() + 1int) =~= "function_definition"@);
                assert(matches_node(q[0].0, chunked_node_kinds(lang)[k]));
            }
            if k == 1 {
                reveal_strlit("(class_definition) @class");
                reveal_strlit("class_definition");
                assert(q[1].0.subrange(1, "class_definition"@.len() + 1int) =~= "class_definition"@);
                assert(matches_node(q[1].0, chunked_node_kinds(lang)[k]));
            }
        },
        Language::Go => {
            if k == 0 {
                reveal_strlit("(function_declaration) @function");
                reveal_strlit("function_declaration");
                assert(q[0].0.subrange(1, "function_declaration"@.len() + 1int) =~= "function_declaration"@);
                assert(matches_node(q[0].0, chunked_node_kinds(lang)[k]));
            }
            if k == 1 {
                reveal_strlit("(method_declaration) @method");
                reveal_strlit("method_declaration");
                assert(q[1].0.subrange(1, "method_declaration"@.len() + 1int) =~= "method_declaration"@);
                assert(matches_node(q[1].0, chunked_node_kinds(lang)[k]));
            }
            if k == 2 {
                reveal_strlit("(type_declaration) @type");
                reveal_strlit("type_declaration");
                assert(q[2].0.subrange(1, "type_declaration"@.len() + 1int) =~= "type_declaration"@);
                assert(matches_node(q[2].0, chunked_node_kinds(lang)[k]));
            }
        },
        Language::Rust => {
            if k == 0 {
                reveal_strlit("(function_item) @function");
                reveal_strlit("function_item");
                assert(q[0].0.subrange(1, "function_item"@.len() + 1int) =~= "function_item"@);
                assert(matches_node(q[0].0, chunked_node_kinds(lang)[k]));
            }
            if k == 1 {
                reveal_strlit("(impl_item) @impl");
                reveal_strlit("impl_item");
                assert(q[1].0.subrange(1, "impl_item"@.len() + 1int) =~= "impl_item"@);
                assert(matches_node(q[1].0, chunked_node_kinds(lang)[k]));
            }
            if k == 2 {
                reveal_strlit("(struct_item) @struct");
                reveal_strlit("struct_item");
                assert(q[2].0.subrange(1, "struct_item"@.len() + 1int) =~= "struct_item"@);
                assert(matches_node(q[2].0, chunked_node_kinds(lang)[k]));
            }
            if k == 3 {
                reveal_strlit("(enum_item) @enum");
                reveal_strlit("enum_item");
                assert(q[3].0.subrange(1, "enum_item"@.len() + 1int) =~= "enum_item"@);
                assert(matches_node(q[3].0, chunked_node_kinds(lang)[k]));
            }
            if k == 4 {
                reveal_strlit("(trait_item) @trait");
                reveal_strlit("trait_item");
                assert(q[4].0.subrange(1, "trait_item"@.len() + 1int) =~= "trait_item"@);
                assert(matches_node(q[4].0, chunked_node_kinds(lang)[k]));
            }
        },
        Language::Java => {
            if k == 0 {
                reveal_strlit("(method_declaration) @method");
                reveal_strlit("method_declaration");
                assert(q[0].0.subrange(1, "method_declaration"@.len() + 1int) =~= "method_declaration"@);
                assert(matches_node(q[0].0, chunked_node_kinds(lang)[k]));
            }
            if k == 1 {
                reveal_strlit("(class_declaration) @class");
                reveal_strlit("class_declaration");
                assert(q[1].0.subrange(1, "class_declaration"@.len() + 1int) =~= "class_declaration"@);
                assert(matches_node(q[1].0, chunked_node_kinds(lang)[k]));
            }
        },
        Language::TypeScript => {
            if k == 0 {
                reveal_strlit("(function_declaration) @function");
                reveal_strlit("function_declaration");
                assert(q[0].0.subrange(1, "function_declaration"@.len() + 1int) =~= "function_declaration"@);
                assert(matches_node(q[0].0, chunked_node_kinds(lang)[k]));
            }
            if k == 1 {
                reveal_strlit("(class_declaration) @class");
                reveal_strlit("class_declaration");
                assert(q[1].0.subrange(1, "class_declaration"@.len() + 1int) =~= "class_declaration"@);
                assert(matches_node(q[1].0, chunked_node_kinds(lang)[k]));
            }
            if k == 2 {
                reveal_strlit("(method_definition) @method");
                reveal_strlit("method_definition");
                assert(q[2].0.subrange(1, "method_definition"@.len() + 1int) =~= "method_definition"@);
                assert(matches_node(q[2].0, chunked_node_kinds(lang)[k]));
            }
        },
        Language::Cpp => {
            if k == 0 {
                reveal_strlit("(function_definition) @function");
                reveal_strlit("function_definition");
                assert(q[0].0.subrange(1, "function_definition"@.len() + 1int) =~= "function_definition"@);
                assert(matches_node(q[0].0, chunked_node_kinds(lang)[k]));
            }
            if k == 1 {
                reveal_strlit("(class_specifier) @class");
                reveal_strlit("class_specifier");
                assert(q[1].0.subrange(1, "class_specifier"@.len() + 1int) =~= "class_specifier"@);
                assert(matches_node(q[1].0, chunked_node_kinds(lang)[k]));
            }
        },
        Language::Ruby => {
            if k == 0 {
                reveal_strlit("(method) @method");
                reveal_strlit("method");
                assert(q[0].0.subrange(1, "method"@.len() + 1int) =~= "method"@);
                assert(matches_node(q[0].0, chunked_node_kinds(lang)[k]));
            }
            if k == 1 {
                reveal_strlit("(module) @module");
                reveal_strlit("module");
                assert(q[1].0.subrange(1, "module"@.len() + 1int) =~= "module"@);
                assert(matches_node(q[1].0, chunked_node_kinds(lang)[k]));
            }
            if k == 2 {
                reveal_strlit("(class) @class");
                reveal_strlit("class");
                assert(q[2].0.subrange(1, "class"@.len() + 1int) =~= "class"@);
                assert(matches_node(q[2].0, chunked_node_kinds(lang)[k]));
            }
        },
        Language::Php => {
            if k == 0 {
                reveal_strlit("(function_definition) @function");
                reveal_strlit("function_definition");
                assert(q[0].0.subrange(1, "function_definition"@.len() + 1int) =~= "function_definition"@);
                assert(matches_node(q[0].0, chunked_node_kinds(lang)[k]));
            }
            if k == 1 {
                reveal_strlit("(method_declaration) @method");
                reveal_strlit("method_declaration");
                assert(q[1].0.subrange(1, "method_declaration"@.len() + 1int) =~= "method_declaration"@);
                assert(matches_node(q[1].0, chunked_node_kinds(lang)[k]));
            }
            if k == 2 {
                reveal_strlit("(class_declaration) @class");
                reveal_strlit("class_declaration");
                assert(q[2].0.subrange(1, "class_declaration"@.len() + 1int) =~= "class_declaration"@);
                assert(matches_node(q[2].0, chunked_node_kinds(lang)[k]));
            }
        },
        Language::CSharp => {
            if k == 0 {
                reveal_strlit("(method_declaration) @method");
                reveal_strlit("method_declaration");
                assert(q[0].0.subrange(1, "method_declaration"@.len() + 1int) =~= "method_declaration"@);
                assert(matches_node(q[0].0, chunked_node_kinds(lang)[k]));
            }
            if k == 1 {
                reveal_strlit("(class_declaration) @class");
                reveal_strlit("class_declaration");
                assert(q[1].0.subrange(1, "class_declaration"@.len() + 1int) =~= "class_declaration"@);
                assert(matches_node(q[1].0, chunked_node_kinds(lang)[k]));
            }
            if k == 2 {
                reveal_strlit("(interface_declaration) @interface");
                reveal_strlit("interface_declaration");
                assert(q[2].0.subrange(1, "interface_declaration"@.len() + 1int) =~= "interface_declaration"@);
                assert(matches_node(q[2].0, chunked_node_kinds(lang)[k]));
            }
            if k == 3 {
                reveal_strlit("(struct_declaration) @struct");
                reveal_strlit("struct_declaration");
                assert(q[3].0.subrange(1, "struct_declaration"@.len() + 1int) =~= "struct_declaration"@);
                assert(matches_node(q[3].0, chunked_node_kinds(lang)[k]));
            }
        },
        Language::C => {
            if k == 0 {
                reveal_strlit("(function_definition) @function");
                reveal_strlit("function_definition");
                assert(q[0].0.subrange(1, "function_definition"@.len() + 1int) =~= "function_definition"@);
                assert(matches_node(q[0].0, chunked_node_kinds(lang)[k]));
            }
            if k == 1 {
                reveal_strlit("(struct_specifier) @struct");
                reveal_strlit("struct_specifier");
                assert(q[1].0.subrange(1, "struct_specifier"@.len() + 1int) =~= "struct_specifier"@);
                assert(matches_node(q[1].0, chunked_node_kinds(lang)[k]));
            }
            if k == 2 {
                reveal_strlit("(enum_specifier) @enum");
                reveal_strlit("enum_specifier");
                assert(q[2].0.subrange(1, "enum_specifier"@.len() + 1int) =~= "enum_specifier"@);
                assert(matches_node(q[2].0, chunked_node_kinds(lang)[k]));
            }
        },
        Language::JavaScript => {
            if k == 0 {
                reveal_strlit("(function_declaration) @function");
                reveal_strlit("function_declaration");
                assert(q[0].0.subrange(1, "function_declaration"@.len() + 1int) =~= "function_declaration"@);
                assert(matches_node(q[0].0, chunked_node_kinds(lang)[k]));
            }
            if k == 1 {
                reveal_strlit("(class_declaration) @class");
                reveal_strlit("class_declaration");
                assert(q[1].0.subrange(1, "class_declaration"@.len() + 1int) =~= "class_declaration"@);
                assert(matches_node(q[1].0, chunked_node_kinds(lang)[k]));
            }
            if k == 2 {
                reveal_strlit("(method_definition) @method");
                reveal_strlit("method_definition");
                assert(q[2].0.subrange(1, "method_definition"@.len() + 1int) =~= "method_definition"@);
                assert(matches_node(q[2].0, chunked_node_kinds(lang)[k]));
            }
        },
        Language::Unknown => {},
    }
}

/// The grammar of a language; TypeScript and JavaScript parse with the
/// TypeScript grammar.
pub open spec fn grammar_of(lang: Language) -> Option<Grammar> {
    match lang {
        Language::Python => Some(Grammar::Python),
        Language::Java => Some(Grammar::Java),
        Language::TypeScript | Language::JavaScript => Some(Grammar::TypeScript),
        Language::Cpp => Some(Grammar::Cpp),
        Language::Go => Some(Grammar::Go),
        Language::Rust => Some(Grammar::Rust),
        Language::Ruby => Some(Grammar::Ruby),
        Language::Php => Some(Grammar::Php),
        Language::CSharp => Some(Grammar::CSharp),
        Language::C => Some(Grammar::C),
        Language::Unknown => None,
    }
}

fn query(pattern: &str, priority: u8) -> (q: ChunkQuery)
    ensures
        q.pattern@ == pattern@,
        q.priority == priority,
{
    ChunkQuery { pattern: string_of(chars_of(pattern).as_slice()), priority }
}

/// The captures of the first `n` queries, run in turn; the first failure
/// decides.
pub open spec fn queries_upto(g: Grammar, qs: Seq<(Seq<char>, u8)>, content: Seq<char>, n: int) -> Result<
    Seq<CaptureView>,
    ChunkError,
>
    decreases n,
{
    if n <= 0 {
        Ok(seq![])
    } else {
        match queries_upto(g, qs, content, n - 1) {
            Err(e) => Err(e),
            Ok(acc) => match ts_query_captures(grammar_code(g), qs[n - 1].0, content) {
                None => Err(ChunkError::Syntax),
                Some(ms) => if texts_ok(flat(ms)) {
                    Ok(acc + flat(ms))
                } else {
                    Err(ChunkError::InvalidText)
                },
            },
        }
    }
}

/// Chunks by a language's queries.
pub struct GenericChunker {
    language: Language,
    queries: Vec<ChunkQuery>,
    config: ChunkingConfig,
}

impl GenericChunker {
    pub closed spec fn language_spec(&self) -> Language {
        self.language
    }

    pub closed spec fn queries_spec(&self) -> Seq<(Seq<char>, u8)> {
        query_views(self.queries@)
    }

    pub closed spec fn config_spec(&self) -> ChunkingConfig {
        self.config
    }

    /// A chunker for `language` with the default budgets.
    pub fn new(language: Language) -> (c: Self)
        ensures
            c.language_spec() == language,
            c.queries_spec() == queries_for(language),
            c.config_spec().max_tokens == 512,
            c.config_spec().overlap_tokens == 50,
            c.config_spec().split_strategy == SplitStrategy::Split,
            c.config_spec().use_cast_chunking,
            c.config_spec().max_chars == 2000,
    {
        Self::with_config(language, ChunkingConfig::default())
    }

    /// A chunker for `language` with the given budgets.
    pub fn with_config(language: Language, config: ChunkingConfig) -> (c: Self)
        ensures
            c.language_spec() == language,
            c.queries_spec() == queries_for(language),
            c.config_spec() == config,
    {
        let queries = Self::get_queries_for_language(language);
        GenericChunker { language, queries, config }
    }

    /// The chunk queries of a language.
    pub fn get_queries_for_language(lang: Language) -> (r: Vec<ChunkQuery>)
        ensures
            query_views(r@) == queries_for(lang),
    {
        let mut v: Vec<ChunkQuery> = Vec::new();
        match lang {
            Language::Python => {
                v.push(query("(function_definition) @function", 10));
                v.push(query("(class_definition) @class", 5));
            },
            Language::Go => {
                v.push(query("(function_declaration) @function", 10));
                v.push(query("(method_declaration) @method", 10));
                v.push(query("(type_declaration) @type", 5));
            },
            Language::Rust => {
                v.push(query("(function_item) @function", 10));
                v.push(query("(impl_item) @impl", 8));
                v.push(query("(struct_item) @struct", 5));
                v.push(query("(enum_item) @enum", 5));
                v.push(query("(trait_item) @trait", 5));
            },
            Language::Java => {
                v.push(query("(method_declaration) @method", 10));
                v.push(query("(class_declaration) @class", 5));
            },
            Language::TypeScript | Language::JavaScript => {
                v.push(query("(function_declaration) @function", 10));
                v.push(query("(class_declaration) @class", 5));
                v.push(query("(method_definition) @method", 10));
            },
            Language::Cpp => {
                v.push(query("(function_definition) @function", 10));
                v.push(query("(class_specifier) @class", 5));
            },
            Language::Ruby => {
                v.push(query("(method) @method", 10));
                v.push(query("(module) @module", 5));
                v.push(query("(class) @class", 5));
            },
            Language::Php => {
                v.push(query("(function_definition) @function", 10));
                v.push(query("(method_declaration) @method", 10));
                v.push(query("(class_declaration) @class", 5));
            },
            Language::CSharp => {
                v.push(query("(method_declaration) @method", 10));
                v.push(query("(class_declaration) @class", 5));
                v.push(query("(interface_declaration) @interface", 5));
                v.push(query("(struct_declaration) @struct", 5));
            },
            Language::C => {
                v.push(query("(function_definition) @function", 10));
                v.push(query("(struct_specifier) @struct", 5));
                v.push(query("(enum_specifier) @enum", 5));
            },
            Language::Unknown => {},
        }
        assert(query_views(v@) =~= queries_for(lang));
        v
    }

    /// The grammar the chunker parses with; none for an unknown language.
    fn create_parser(&self) -> (r: Option<Grammar>)
        ensures
            r == grammar_of(self.language_spec()),
    {
        match self.language {
            Language::Python => Some(Grammar::Python),
            Language::Java => Some(Grammar::Java),
            Language::TypeScript | Language::JavaScript => Some(Grammar::TypeScript),
            Language::Cpp => Some(Grammar::Cpp),
            Language::Go => Some(Grammar::Go),
            Language::Rust => Some(Grammar::Rust),
            Language::Ruby => Some(Grammar::Ruby),
            Language::Php => Some(Grammar::Php),
            Language::CSharp => Some(Grammar::CSharp),
            Language::C => Some(Grammar::C),
            Language::Unknown => None,
        }
    }
}

impl Chunker for GenericChunker {
    /// Runs each query of the language in turn and makes one chunk per
    /// capture, in order; an unknown language, a text that does not parse,
    /// a query that does not compile or a capture without text is an error.
    fn chunk(&self, content: &str, file_path: &str) -> (r: Result<Vec<Chunk>, ChunkError>)
        ensures
            match grammar_of(self.language_spec()) {
                None => r == Err::<Vec<Chunk>, ChunkError>(ChunkError::UnknownLanguage),
                Some(g) => match queries_upto(g, self.queries_spec(), content@, self.queries_spec().len() as int) {
                    Err(e) => r == Err::<Vec<Chunk>, ChunkError>(e),
                    Ok(cs) => r matches Ok(v) && chunks_are(v@, cs, file_path@, self.language_spec()),
                },
            },
            r matches Ok(v) ==> chunk_lines_ordered(v@),
    {
        let grammar = match self.create_parser() {
            Some(g) => g,
            None => {
                return Err(ChunkError::UnknownLanguage);
            },
        };
        let ghost qs = self.queries_spec();
        let mut chunks: Vec<Chunk> = Vec::new();
        let mut i: usize = 0;
        while i < self.queries.len()
            invariant
                0 <= i <= self.queries.len(),
                qs == query_views(self.queries@),
                qs == self.queries_spec(),
                grammar_of(self.language_spec()) == Some(grammar),
                self.language == self.language_spec(),
                queries_upto(grammar, qs, content@, i as int) matches Ok(cs) && chunks_are(
                    chunks@,
                    cs,
                    file_path@,
                    self.language,
                ),
                chunk_lines_ordered(chunks@),
            decreases self.queries.len() - i,
        {
            let q = &self.queries[i];
            assert(qs[i as int].0 == q.pattern@);
            match chunk_with_query(grammar, q.pattern.as_str(), content, file_path, self.language) {
                Err(e) => {
                    proof {
                        assert(queries_upto(grammar, qs, content@, i + 1) == Err::<Seq<CaptureView>, ChunkError>(e));
                        lemma_queries_err(grammar, qs, content@, i + 1);
                    }
                    return Err(e);
                },
                Ok(more) => {
                    let ghost before = chunks@;
                    let ghost cs = queries_upto(grammar, qs, content@, i as int)->Ok_0;
                    let ghost ms = ts_query_captures(grammar_code(grammar), qs[i as int].0, content@)->0;
                    let ghost mv = more@;
                    let mut more = more;
                    chunks.append(&mut more);
                    assert(chunks@ == before + mv);
                    proof {
                        assert(queries_upto(grammar, qs, content@, i + 1) == Ok::<Seq<CaptureView>, ChunkError>(cs + flat(ms)));
                        assert forall|x: int| 0 <= x < chunks@.len() implies chunk_is(
                            #[trigger] chunks@[x],
                            (cs + flat(ms))[x],
                            file_path@,
                            self.language,
                        ) by {
                            if x < before.len() {
                                assert(chunks@[x] == before[x]);
                            } else {
                                assert(chunks@[x] == mv[x - before.len()]);
                            }
                        }
                        assert forall|x: int| 0 <= x < chunks@.len() implies 1 <= (#[trigger] chunks@[x]).start_line
                            <= chunks@[x].end_line by {
                            if x < before.len() {
                                assert(chunks@[x] == before[x]);
                            } else {
                                assert(chunks@[x] == mv[x - before.len()]);
                            }
                        }
                    }
                },
            }
            i = i + 1;
        }
        Ok(chunks)
    }
}

/// Once a query fails, every longer prefix of the queries fails the same
/// way.
pub proof fn lemma_queries_err(g: Grammar, qs: Seq<(Seq<char>, u8)>, content: Seq<char>, n: int)
    requires
        0 <= n <= qs.len(),
        queries_upto(g, qs, content, n) is Err,
    ensures
        queries_upto(g, qs, content, qs.len() as int) == queries_upto(g, qs, content, n),
    decreases qs.len() - n,
{
    if n < qs.len() {
        lemma_queries_err(g, qs, content, n + 1);
    }
}

#[verifier::allow_in_spec]
pub fn python_chunk_query() -> &'static str
    returns
        "
            (function_definition) @function
            (class_definition) @class
        ",
{
    "
            (function_definition) @function
            (class_definition) @class
        "
}

#[verifier::allow_in_spec]
pub fn java_chunk_query() -> &'static str
    returns
        "
            (class_declaration) @class
            (interface_declaration) @interface
            (enum_declaration) @enum
            (method_declaration) @method
            (constructor_declaration) @constructor
        ",
{
    "
            (class_declaration) @class
            (interface_declaration) @interface
            (enum_declaration) @enum
            (method_declaration) @method
            (constructor_declaration) @constructor
        "
}

#[verifier::allow_in_spec]
pub fn typescript_chunk_query() -> &'static str
    returns
        "
            (function_declaration) @function
            (method_definition) @method
            (class_declaration) @class
            (interface_declaration) @interface
            (arrow_function) @arrow
        ",
{
    "
            (function_declaration) @function
            (method_definition) @method
            (class_declaration) @class
            (interface_declaration) @interface
            (arrow_function) @arrow
        "
}

/// What chunking with one query gives: `Syntax` when tree-sitter reports
/// nothing, `InvalidText` when a capture has no text, else the captures.
pub open spec fn query_chunks(g: Grammar, q: Seq<char>, content: Seq<char>) -> Result<Seq<CaptureView>, ChunkError> {
    match ts_query_captures(grammar_code(g), q, content) {
        None => Err(ChunkError::Syntax),
        Some(ms) => if texts_ok(flat(ms)) {
            Ok(flat(ms))
        } else {
            Err(ChunkError::InvalidText)
        },
    }
}

/// The chunks of a result of `query_chunks`.
pub open spec fn chunks_match(r: Result<Vec<Chunk>, ChunkError>, q: Result<Seq<CaptureView>, ChunkError>, path: Seq<char>, lang: Language) -> bool {
    match q {
        Err(e) => r == Err::<Vec<Chunk>, ChunkError>(e),
        Ok(cs) => r matches Ok(v) && chunks_are(v@, cs, path, lang),
    }
}

/// Chunks Python functions and classes.
pub struct PythonChunker;

impl PythonChunker {
    pub fn new() -> Self {
        PythonChunker
    }
}

impl Chunker for PythonChunker {
    fn chunk(&self, content: &str, file_path: &str) -> (r: Result<Vec<Chunk>, ChunkError>)
        ensures
            chunks_match(r, query_chunks(Grammar::Python, python_chunk_query()@, content@), file_path@, Language::Python),
            r matches Ok(v) ==> chunk_lines_ordered(v@),
    {
        chunk_with_query(Grammar::Python, python_chunk_query(), content, file_path, Language::Python)
    }
}

/// Chunks Java classes, interfaces, enums, methods and constructors.
pub struct JavaChunker;

impl JavaChunker {
    pub fn new() -> Self {
        JavaChunker
    }
}

impl Chunker for JavaChunker {
    fn chunk(&self, content: &str, file_path: &str) -> (r: Result<Vec<Chunk>, ChunkError>)
        ensures
            chunks_match(r, query_chunks(Grammar::Java, java_chunk_query()@, content@), file_path@, Language::Java),
            r matches Ok(v) ==> chunk_lines_ordered(v@),
    {
        chunk_with_query(Grammar::Java, java_chunk_query(), content, file_path, Language::Java)
    }
}

/// Chunks TypeScript functions, methods, classes, interfaces and arrow
/// functions; `.tsx` and `.jsx` files parse with the TSX grammar.
pub struct TypeScriptChunker;

impl TypeScriptChunker {
    pub fn new() -> Self {
        TypeScriptChunker
    }
}

impl Chunker for TypeScriptChunker {
    fn chunk(&self, content: &str, file_path: &str) -> (r: Result<Vec<Chunk>, ChunkError>)
        ensures
            chunks_match(
                r,
                query_chunks(
                    if crate::pathname::std_path_extension(file_path@) == Some("tsx"@)
                        || crate::pathname::std_path_extension(file_path@) == Some("jsx"@) {
                        Grammar::Tsx
                    } else {
                        Grammar::TypeScript
                    },
                    typescript_chunk_query()@,
                    content@,
                ),
                file_path@,
                Language::TypeScript,
            ),
            r matches Ok(v) ==> chunk_lines_ordered(v@),
    {
        let grammar = if crate::symbols::is_tsx_path(file_path) {
            Grammar::Tsx
        } else {
            Grammar::TypeScript
        };
        chunk_with_query(grammar, typescript_chunk_query(), content, file_path, Language::TypeScript)
    }
}

} // verus!
