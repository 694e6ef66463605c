//! References read from source text: imports, variable definitions and
//! uses, and calls.
use vstd::prelude::*;
use crate::graph::strs;
use crate::models::Language;
use crate::syntax::{grammar_code, matches_view, run_query, ts_query_captures, Capture,
    CaptureView, Grammar};
use crate::text::{
    chars_of, contains, contains_exec, drop_empty, drop_empty_exec, find, find_exec, lemma_find_is,
    lines, lines_exec, occurs_at, slice_range, split, split_exec, starts_with, starts_with_exec, str_eq,
    string_of, trim, trim_end, trim_end_exec, trim_exec, trim_start, trim_start_exec, views,
    words, words_exec, CharClass,
};

verus! {

/// An imported module, with the name it is bound to when the import gives
/// one.
#[derive(Debug)]
pub struct ImportRef {
    pub module: String,
    pub alias: Option<String>,
}

/// An import's module and alias.
pub type ImportView = (Seq<char>, Option<Seq<char>>);

pub open spec fn import_view(i: ImportRef) -> ImportView {
    (
        i.module@,
        match i.alias {
            Some(a) => Some(a@),
            None => None,
        },
    )
}

pub open spec fn import_views(v: Seq<ImportRef>) -> Seq<ImportView> {
    v.map_values(|i: ImportRef| import_view(i))
}

/// The last piece of `s` split at `c`.
pub open spec fn last_piece(s: Seq<char>, c: char) -> Seq<char> {
    split(s, CharClass::Exactly(c)).last()
}

/// Python: `import m` gives `m`; `from m import a` gives `m` bound to `a`
/// (without commas); `from m` alone gives `m`.
pub open spec fn python_import(t: Seq<char>) -> Option<ImportView> {
    let w = words(t);
    if starts_with(t, "import "@) {
        if w.len() >= 2 {
            Some((w[1], None))
        } else {
            None
        }
    } else if starts_with(t, "from "@) {
        if w.len() >= 2 {
            Some((w[1], if w.len() >= 4 {
                Some(trim(w[3], CharClass::Exactly(',')))
            } else {
                None
            }))
        } else {
            None
        }
    } else {
        None
    }
}

/// TypeScript and JavaScript: `import x from "a/b"` gives `b` bound to the
/// second word (without braces and commas); `import m` gives `m`;
/// `require("a/b")` gives `b`.
pub open spec fn script_import(t: Seq<char>) -> Option<ImportView> {
    let w = words(t);
    if starts_with(t, "import "@) {
        match find(t, "from"@) {
            Some(idx) => {
                let rest = t.subrange(idx + 4, t.len() as int);
                let mod_str = trim(trim(rest, CharClass::Whitespace), CharClass::AnyOf("\"'; {}"));
                let stem = last_piece(mod_str, '/');
                Some(
                    (
                        trim(stem, CharClass::AnyOf("\"'")),
                        if w.len() >= 2 {
                            Some(trim(w[1], CharClass::AnyOf("{},")))
                        } else {
                            None
                        },
                    ),
                )
            },
            None => if w.len() >= 2 {
                Some((trim(w[1], CharClass::AnyOf("; ")), None))
            } else {
                None
            },
        }
    } else if contains(t, "require("@) {
        let start = find(t, "require("@)->0;
        let rest = t.subrange(start + 8, t.len() as int);
        let mod_str = trim(trim(rest, CharClass::Whitespace), CharClass::AnyOf("\"');"));
        Some((last_piece(mod_str, '/'), None))
    } else {
        None
    }
}

/// Java: `import a.b.C;` gives `a.b.C`.
pub open spec fn java_import(t: Seq<char>) -> Option<ImportView> {
    let w = words(t);
    if starts_with(t, "import "@) && w.len() >= 2 {
        Some((trim_end(w[1], CharClass::Exactly(';')), None))
    } else {
        None
    }
}

/// C++: `#include <a.h>` gives `a.h`.
pub open spec fn cpp_import(t: Seq<char>) -> Option<ImportView> {
    let w = words(t);
    if starts_with(t, "#include"@) && w.len() >= 2 {
        Some((trim(w[1], CharClass::AnyOf("<>\"")), None))
    } else {
        None
    }
}

/// The import a line makes, read after its leading whitespace.
pub open spec fn line_import(language: Language, l: Seq<char>) -> Option<ImportView> {
    let t = trim_start(l, CharClass::Whitespace);
    match language {
        Language::Python => python_import(t),
        Language::TypeScript | Language::JavaScript => script_import(t),
        Language::Java => java_import(t),
        Language::Cpp => cpp_import(t),
        _ => None,
    }
}

/// The imports of the first `n` lines, in order.
pub open spec fn imports_upto(language: Language, ls: Seq<Seq<char>>, n: int) -> Seq<ImportView>
    decreases n,
{
    if n <= 0 {
        seq![]
    } else {
        match line_import(language, ls[n - 1]) {
            Some(x) => imports_upto(language, ls, n - 1).push(x),
            None => imports_upto(language, ls, n - 1),
        }
    }
}

/// The imports of a source text.
pub open spec fn imports_of(content: Seq<char>, language: Language) -> Seq<ImportView> {
    imports_upto(language, lines(content), lines(content).len() as int)
}

pub fn last_piece_exec(s: &[char], c: char) -> (r: Vec<char>)
    ensures
        r@ == last_piece(s@, c),
{
    let pieces = split_exec(s, &CharClass::Exactly(c));
    proof {
        crate::text::lemma_split_nonempty(s@, CharClass::Exactly(c));
    }
    let n = pieces.len();
    slice_range(pieces[n - 1].as_slice(), 0, pieces[n - 1].len())
}

fn python_import_exec(t: &[char]) -> (r: Option<ImportRef>)
    ensures
        match r {
            Some(i) => python_import(t@) == Some(import_view(i)),
            None => python_import(t@) is None,
        },
{
    let w = words_exec(t);
    if starts_with_exec(t, chars_of("import ").as_slice()) {
        if w.len() >= 2 {
            Some(ImportRef { module: string_of(w[1].as_slice()), alias: None })
        } else {
            None
        }
    } else if starts_with_exec(t, chars_of("from ").as_slice()) {
        if w.len() >= 2 {
            let alias = if w.len() >= 4 {
                Some(string_of(trim_exec(w[3].as_slice(), &CharClass::Exactly(',')).as_slice()))
            } else {
                None
            };
            Some(ImportRef { module: string_of(w[1].as_slice()), alias })
        } else {
            None
        }
    } else {
        None
    }
}

fn script_import_exec(t: &[char]) -> (r: Option<ImportRef>)
    ensures
        match r {
            Some(i) => script_import(t@) == Some(import_view(i)),
            None => script_import(t@) is None,
        },
{
    let w = words_exec(t);
    if starts_with_exec(t, chars_of("import ").as_slice()) {
        match find_exec(t, chars_of("from").as_slice()) {
            Some(idx) => {
                proof {
                    crate::text::lemma_find_some(t@, "from"@);
                    reveal_strlit("from");
                    assert(occurs_at(t@, "from"@, idx as int));
                    assert(idx + 4 <= t@.len());
                }
                let n = t.len();
                let rest = slice_range(t, idx + 4, n);
                let r1 = trim_exec(rest.as_slice(), &CharClass::Whitespace);
                let mod_str = trim_exec(r1.as_slice(), &CharClass::AnyOf("\"'; {}"));
                let stem = last_piece_exec(mod_str.as_slice(), '/');
                let module = trim_exec(stem.as_slice(), &CharClass::AnyOf("\"'"));
                let alias = if w.len() >= 2 {
                    Some(string_of(trim_exec(w[1].as_slice(), &CharClass::AnyOf("{},")).as_slice()))
                } else {
                    None
                };
                Some(ImportRef { module: string_of(module.as_slice()), alias })
            },
            None => {
                if w.len() >= 2 {
                    let m = trim_exec(w[1].as_slice(), &CharClass::AnyOf("; "));
                    Some(ImportRef { module: string_of(m.as_slice()), alias: None })
                } else {
                    None
                }
            },
        }
    } else if contains_exec(t, chars_of("require(").as_slice()) {
        match find_exec(t, chars_of("require(").as_slice()) {
            Some(start) => {
                proof {
                    crate::text::lemma_find_some(t@, "require("@);
                    reveal_strlit("require(");
                    assert(occurs_at(t@, "require("@, start as int));
                    assert(start + 8 <= t@.len());
                }
                let n = t.len();
                let rest = slice_range(t, start + 8, n);
                let r1 = trim_exec(rest.as_slice(), &CharClass::Whitespace);
                let mod_str = trim_exec(r1.as_slice(), &CharClass::AnyOf("\"');"));
                let stem = last_piece_exec(mod_str.as_slice(), '/');
                Some(ImportRef { module: string_of(stem.as_slice()), alias: None })
            },
            None => None,
        }
    } else {
        None
    }
}

fn java_import_exec(t: &[char]) -> (r: Option<ImportRef>)
    ensures
        match r {
            Some(i) => java_import(t@) == Some(import_view(i)),
            None => java_import(t@) is None,
        },
{
    let w = words_exec(t);
    if starts_with_exec(t, chars_of("import ").as_slice()) && w.len() >= 2 {
        let m = trim_end_exec(w[1].as_slice(), &CharClass::Exactly(';'));
        Some(ImportRef { module: string_of(m.as_slice()), alias: None })
    } else {
        None
    }
}

fn cpp_import_exec(t: &[char]) -> (r: Option<ImportRef>)
    ensures
        match r {
            Some(i) => cpp_import(t@) == Some(import_view(i)),
            None => cpp_import(t@) is None,
        },
{
    let w = words_exec(t);
    if starts_with_exec(t, chars_of("#include").as_slice()) && w.len() >= 2 {
        let m = trim_exec(w[1].as_slice(), &CharClass::AnyOf("<>\""));
        Some(ImportRef { module: string_of(m.as_slice()), alias: None })
    } else {
        None
    }
}

/// Reads the imports of a source text, line by line: Python `import` and
/// `from` lines, TypeScript/JavaScript `import` lines and `require(` calls,
/// Java `import` lines and C++ `#include` lines. Other languages have none.
pub fn extract_import_refs(content: &str, language: Language) -> (r: Vec<ImportRef>)
    ensures
        import_views(r@) == imports_of(content@, language),
{
    let cs = chars_of(content);
    let ls = lines_exec(cs.as_slice());
    let ghost lv = views(ls@);
    let mut out: Vec<ImportRef> = Vec::new();
    let mut i: usize = 0;
    while i < ls.len()
        invariant
            0 <= i <= ls.len(),
            lv == views(ls@),
            lv == lines(content@),
            import_views(out@) == imports_upto(language, lv, i as int),
        decreases ls.len() - i,
    {
        let t = trim_start_exec(ls[i].as_slice(), &CharClass::Whitespace);
        assert(t@ == trim_start(lv[i as int], CharClass::Whitespace));
        let found = match language {
            Language::Python => python_import_exec(t.as_slice()),
            Language::TypeScript | Language::JavaScript => script_import_exec(t.as_slice()),
            Language::Java => java_import_exec(t.as_slice()),
            Language::Cpp => cpp_import_exec(t.as_slice()),
            _ => None,
        };
        match found {
            Some(x) => {
                let ghost before = import_views(out@);
                out.push(x);
                assert(import_views(out@) =~= before.push(import_view(x)));
            },
            None => {},
        }
        i = i + 1;
    }
    out
}

// ---------------------------------------------------------------------------
// Variable definitions and uses
// ---------------------------------------------------------------------------

/// Python: the identifier that ends the text before the first `=`, when
/// that text is not blank.
pub open spec fn python_defs(line: Seq<char>) -> Seq<Seq<char>> {
    match find(line, "="@) {
        Some(eq) => {
            let lhs = trim(line.subrange(0, eq), CharClass::Whitespace);
            if lhs.len() > 0 {
                seq![split(lhs, CharClass::NotIdent).last()]
            } else {
                seq![]
            }
        },
        None => seq![],
    }
}

/// The line holds one of the declaration keywords (as a substring).
pub open spec fn has_decl_key(line: Seq<char>) -> bool {
    contains(line, "let"@) || contains(line, "const"@) || contains(line, "var"@) || contains(
        line,
        "mut"@,
    ) || contains(line, "int"@) || contains(line, "float"@) || contains(line, "double"@)
        || contains(line, "char"@) || contains(line, "auto"@)
}

/// Other languages: on a line with a declaration keyword, the second
/// identifier-like token.
pub open spec fn keyword_defs(line: Seq<char>) -> Seq<Seq<char>> {
    let toks = drop_empty(split(line, CharClass::NotIdent));
    if has_decl_key(line) && toks.len() >= 2 {
        seq![toks[1]]
    } else {
        seq![]
    }
}

pub open spec fn defs_of(line: Seq<char>, language: Language) -> Seq<Seq<char>> {
    match language {
        Language::Python => python_defs(line),
        _ => keyword_defs(line),
    }
}

/// Every token made of identifier characters and dots.
pub open spec fn uses_of(line: Seq<char>) -> Seq<Seq<char>> {
    drop_empty(split(line, CharClass::NotIdentOrDot))
}

fn strings_of(v: &Vec<Vec<char>>) -> (r: Vec<String>)
    ensures
        strs(r@) == views(v@),
{
    let mut out: Vec<String> = Vec::new();
    let mut i: usize = 0;
    while i < v.len()
        invariant
            0 <= i <= v.len(),
            strs(out@) == views(v@).take(i as int),
        decreases v.len() - i,
    {
        let ghost before = strs(out@);
        out.push(string_of(v[i].as_slice()));
        assert(strs(out@) =~= before.push(v@[i as int]@));
        assert(views(v@).take(i + 1) =~= views(v@).take(i as int).push(v@[i as int]@));
        i = i + 1;
    }
    assert(views(v@).take(v.len() as int) =~= views(v@));
    out
}

fn has_decl_key_exec(line: &[char]) -> (b: bool)
    ensures
        b == has_decl_key(line@),
{
    contains_exec(line, chars_of("let").as_slice()) || contains_exec(line, chars_of("const").as_slice())
        || contains_exec(line, chars_of("var").as_slice()) || contains_exec(line, chars_of("mut").as_slice())
        || contains_exec(line, chars_of("int").as_slice()) || contains_exec(line, chars_of("float").as_slice())
        || contains_exec(line, chars_of("double").as_slice()) || contains_exec(line, chars_of("char").as_slice())
        || contains_exec(line, chars_of("auto").as_slice())
}

/// The variables a line defines and the names it uses.
pub fn tokenize_defs_and_uses(line: &str, language: Language) -> (r: (Vec<String>, Vec<String>))
    ensures
        strs(r.0@) == defs_of(line@, language),
        strs(r.1@) == uses_of(line@),
{
    let cs = chars_of(line);
    let mut defs: Vec<String> = Vec::new();
    match language {
        Language::Python => {
            match find_exec(cs.as_slice(), chars_of("=").as_slice()) {
                Some(eq) => {
                    proof {
                        crate::text::lemma_find_some(cs@, "="@);
                        reveal_strlit("=");
                        assert(occurs_at(cs@, "="@, eq as int));
                    }
                    let head = slice_range(cs.as_slice(), 0, eq);
                    let lhs = trim_exec(head.as_slice(), &CharClass::Whitespace);
                    if lhs.len() > 0 {
                        let pieces = split_exec(lhs.as_slice(), &CharClass::NotIdent);
                        proof {
                            crate::text::lemma_split_nonempty(lhs@, CharClass::NotIdent);
                        }
                        let n = pieces.len();
                        defs.push(string_of(pieces[n - 1].as_slice()));
                        assert(strs(defs@) =~= seq![split(lhs@, CharClass::NotIdent).last()]);
                    } else {
                        assert(strs(defs@) =~= Seq::<Seq<char>>::empty());
                    }
                },
                None => {
                    assert(strs(defs@) =~= Seq::<Seq<char>>::empty());
                },
            }
        },
        _ => {
            let pieces = split_exec(cs.as_slice(), &CharClass::NotIdent);
            let toks = drop_empty_exec(&pieces);
            if has_decl_key_exec(cs.as_slice()) && toks.len() >= 2 {
                defs.push(string_of(toks[1].as_slice()));
                assert(strs(defs@) =~= seq![views(toks@)[1]]);
            } else {
                assert(strs(defs@) =~= Seq::<Seq<char>>::empty());
            }
        },
    }
    let pieces = split_exec(cs.as_slice(), &CharClass::NotIdentOrDot);
    let toks = drop_empty_exec(&pieces);
    let uses = strings_of(&toks);
    (defs, uses)
}

// ---------------------------------------------------------------------------
// Calls
// ---------------------------------------------------------------------------

/// A call found in source text: the called name, the 1-indexed line of the
/// match (0 when the match has no capture), and the object it is called on,
/// which also serves as a module hint.
#[derive(Debug)]
pub struct CallHit {
    pub name: String,
    pub line: usize,
    pub qualifier: Option<String>,
    pub module_hint: Option<String>,
}

/// A call's name, line, qualifier and module hint.
pub type CallView = (Seq<char>, int, Option<Seq<char>>, Option<Seq<char>>);

pub open spec fn opt_view(o: Option<String>) -> Option<Seq<char>> {
    match o {
        Some(s) => Some(s@),
        None => None,
    }
}

pub open spec fn call_view(c: CallHit) -> CallView {
    (c.name@, c.line as int, opt_view(c.qualifier), opt_view(c.module_hint))
}

pub open spec fn call_views(v: Seq<CallHit>) -> Seq<CallView> {
    v.map_values(|c: CallHit| call_view(c))
}

/// The text of the last capture named `cap` that has text, among the first
/// `n` captures of a match.
pub open spec fn last_text_upto(m: Seq<CaptureView>, cap: Seq<char>, n: int) -> Option<Seq<char>>
    decreases n,
{
    if n <= 0 {
        None
    } else if m[n - 1].0 == cap && m[n - 1].2 is Some {
        m[n - 1].2
    } else {
        last_text_upto(m, cap, n - 1)
    }
}

/// The call a match records, if it names one.
pub open spec fn call_of_match(m: Seq<CaptureView>) -> Option<CallView> {
    let q = last_text_upto(m, "qualifier"@, m.len() as int);
    match last_text_upto(m, "name"@, m.len() as int) {
        Some(name) => Some(
            (
                name,
                if m.len() > 0 {
                    m[0].5 + 1
                } else {
                    0
                },
                q,
                q,
            ),
        ),
        None => None,
    }
}

pub open spec fn calls_upto(ms: Seq<Seq<CaptureView>>, n: int) -> Seq<CallView>
    decreases n,
{
    if n <= 0 {
        seq![]
    } else {
        match call_of_match(ms[n - 1]) {
            Some(c) => calls_upto(ms, n - 1).push(c),
            None => calls_upto(ms, n - 1),
        }
    }
}

/// Turns query matches into calls, one per match that names a callee.
pub fn calls_from_matches(ms: &Vec<Vec<Capture>>) -> (r: Vec<CallHit>)
    requires
        crate::syntax::rows_fit(matches_view(ms@)),
    ensures
        call_views(r@) == calls_upto(matches_view(ms@), ms@.len() as int),
{
    let ghost mv = matches_view(ms@);
    let mut out: Vec<CallHit> = Vec::new();
    let mut i: usize = 0;
    while i < ms.len()
        invariant
            0 <= i <= ms.len(),
            mv == matches_view(ms@),
            crate::syntax::rows_fit(mv),
            call_views(out@) == calls_upto(mv, i as int),
        decreases ms.len() - i,
    {
        let m = &ms[i];
        let ghost cv = mv[i as int];
        assert(cv == m@.map_values(|c: Capture| c@));
        let mut name: Option<String> = None;
        let mut qual: Option<String> = None;
        let mut j: usize = 0;
        while j < m.len()
            invariant
                0 <= j <= m.len(),
                cv == m@.map_values(|c: Capture| c@),
                opt_view(name) == last_text_upto(cv, "name"@, j as int),
                opt_view(qual) == last_text_upto(cv, "qualifier"@, j as int),
            decreases m.len() - j,
        {
            let c = &m[j];
            assert(cv[j as int] == c@);
            if str_eq(c.capture.as_str(), "name") {
                match &c.text {
                    Some(t) => {
                        name = Some(t.clone());
                    },
                    None => {},
                }
            }
            if str_eq(c.capture.as_str(), "qualifier") {
                match &c.text {
                    Some(t) => {
                        qual = Some(t.clone());
                    },
                    None => {},
                }
            }
            j = j + 1;
        }
        match name {
            Some(n) => {
                let line = if m.len() > 0 {
                    assert(mv[i as int][0] == cv[0]);
                    m[0].start_row + 1
                } else {
                    0
                };
                let module_hint = match &qual {
                    Some(q) => Some(q.clone()),
                    None => None,
                };
                let hit = CallHit { name: n, line, qualifier: qual, module_hint };
                let ghost before = call_views(out@);
                out.push(hit);
                assert(call_views(out@) =~= before.push(call_view(hit)));
            },
            None => {},
        }
        i = i + 1;
    }
    out
}

#[verifier::allow_in_spec]
pub fn python_call_query() -> &'static str
    returns
        "(call function: (identifier) @name) @call
         (call function: (attribute object: (identifier) @qualifier attribute: (identifier) @name)) @call
         (call function: (attribute object: (attribute object: (identifier) @qualifier) attribute: (identifier) @name)) @call",
{
    "(call function: (identifier) @name) @call
         (call function: (attribute object: (identifier) @qualifier attribute: (identifier) @name)) @call
         (call function: (attribute object: (attribute object: (identifier) @qualifier) attribute: (identifier) @name)) @call"
}

#[verifier::allow_in_spec]
pub fn script_call_query() -> &'static str
    returns
        "(call_expression function: (identifier) @name)
         (call_expression function: (member_expression object: (identifier) @qualifier property: (property_identifier) @name))
         (call_expression function: (member_expression property: (property_identifier) @name))",
{
    "(call_expression function: (identifier) @name)
         (call_expression function: (member_expression object: (identifier) @qualifier property: (property_identifier) @name))
         (call_expression function: (member_expression property: (property_identifier) @name))"
}

#[verifier::allow_in_spec]
pub fn java_call_query() -> &'static str
    returns
        "(method_invocation object: (identifier) @qualifier name: (identifier) @name)
         (method_invocation name: (identifier) @name)",
{
    "(method_invocation object: (identifier) @qualifier name: (identifier) @name)
         (method_invocation name: (identifier) @name)"
}

#[verifier::allow_in_spec]
pub fn cpp_call_query() -> &'static str
    returns
        "(call_expression function: (identifier) @name)",
{
    "(call_expression function: (identifier) @name)"
}

/// The grammar and query used to find calls in a language, if it has them.
pub open spec fn call_query(language: Language) -> Option<(Grammar, Seq<char>)> {
    match language {
        Language::Python => Some((Grammar::Python, python_call_query()@)),
        Language::TypeScript | Language::JavaScript => Some((Grammar::TypeScript, script_call_query()@)),
        Language::Java => Some((Grammar::Java, java_call_query()@)),
        Language::Cpp => Some((Grammar::Cpp, cpp_call_query()@)),
        _ => None,
    }
}

/// The calls of a source text; none when the language has no call query or
/// tree-sitter reports nothing.
pub open spec fn calls_of(content: Seq<char>, language: Language) -> Seq<CallView> {
    match call_query(language) {
        None => seq![],
        Some((g, q)) => match ts_query_captures(grammar_code(g), q, content) {
            None => seq![],
            Some(ms) => calls_upto(ms, ms.len() as int),
        },
    }
}

/// Finds the calls in a source text with a syntax query.
pub fn extract_call_names(content: &str, language: Language) -> (r: Vec<CallHit>)
    ensures
        call_views(r@) == calls_of(content@, language),
{
    let (grammar, query) = match language {
        Language::Python => (Grammar::Python, python_call_query()),
        Language::TypeScript | Language::JavaScript => (Grammar::TypeScript, script_call_query()),
        Language::Java => (Grammar::Java, java_call_query()),
        Language::Cpp => (Grammar::Cpp, cpp_call_query()),
        _ => {
            return Vec::new();
        },
    };
    match run_query(grammar, query, content) {
        None => Vec::new(),
        Some(ms) => calls_from_matches(&ms),
    }
}

} // verus!
