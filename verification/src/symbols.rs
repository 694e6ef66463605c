//! Symbol extraction: definitions found by syntax queries.
use vstd::prelude::*;
use crate::models::Language;
use crate::pathname::{path_extension, path_file_stem, path_parent, std_path_extension,
    std_path_file_stem, std_path_parent};
use crate::syntax::{grammar_code, matches_view, rows_fit, run_query, ts_query_captures, Capture,
    CaptureView, Grammar};
use crate::text::{append, chars_of, decimal, decimal_exec, drop_empty, drop_empty_exec, join,
    join_exec, replace_char, replace_char_exec, str_eq, string_of, views};

verus! {

/// The kind of a definition.
#[derive(Clone, Copy, Debug, PartialEq, Eq, Structural)]
pub enum SymbolKind {
    Function,
    Method,
    Class,
    Interface,
    Module,
    Unknown,
}

/// The kind named by a label; other labels give `Unknown`.
pub open spec fn symbol_kind_of(s: Seq<char>) -> SymbolKind {
    if s == "function"@ {
        SymbolKind::Function
    } else if s == "method"@ {
        SymbolKind::Method
    } else if s == "class"@ {
        SymbolKind::Class
    } else if s == "interface"@ {
        SymbolKind::Interface
    } else if s == "module"@ {
        SymbolKind::Module
    } else {
        SymbolKind::Unknown
    }
}

impl<'a> From<&'a str> for SymbolKind {
    fn from(s: &'a str) -> (k: Self) {
        if str_eq(s, "function") {
            SymbolKind::Function
        } else if str_eq(s, "method") {
            SymbolKind::Method
        } else if str_eq(s, "class") {
            SymbolKind::Class
        } else if str_eq(s, "interface") {
            SymbolKind::Interface
        } else if str_eq(s, "module") {
            SymbolKind::Module
        } else {
            SymbolKind::Unknown
        }
    }
}

impl<'a> vstd::std_specs::convert::FromSpecImpl<&'a str> for SymbolKind {
    open spec fn obeys_from_spec() -> bool {
        true
    }

    open spec fn from_spec(v: &'a str) -> Self {
        symbol_kind_of(v@)
    }
}

/// A named definition in a source file (lines are 1-indexed).
#[derive(Debug)]
pub struct Symbol {
    pub id: String,
    pub name: String,
    pub kind: SymbolKind,
    pub language: Language,
    pub file_path: String,
    pub start_line: usize,
    pub end_line: usize,
    pub fqn: String,
    pub visibility: Option<String>,
    /// One or more chunks covering this symbol.
    pub chunk_ids: Vec<String>,
    /// The main chunk, if known.
    pub chunk_id: Option<String>,
}

impl Clone for Symbol {
    fn clone(&self) -> (r: Self)
        ensures
            r.id@ == self.id@,
            r.name@ == self.name@,
            r.kind == self.kind,
            r.language == self.language,
            r.file_path@ == self.file_path@,
            r.start_line == self.start_line,
            r.end_line == self.end_line,
            r.fqn@ == self.fqn@,
            r.visibility == self.visibility,
            r.chunk_ids@ == self.chunk_ids@,
            r.chunk_id == self.chunk_id,
    {
        Symbol {
            id: self.id.clone(),
            name: self.name.clone(),
            kind: self.kind,
            language: self.language,
            file_path: self.file_path.clone(),
            start_line: self.start_line,
            end_line: self.end_line,
            fqn: self.fqn.clone(),
            visibility: crate::graph::clone_opt_string(&self.visibility),
            chunk_ids: crate::graph::clone_strings(&self.chunk_ids),
            chunk_id: crate::graph::clone_opt_string(&self.chunk_id),
        }
    }
}

/// The fully qualified name of a definition: the file's directory with
/// `::` for `/`, the file's stem and the name, empty parts left out, joined
/// by `::`.
pub open spec fn fqn_spec(path: Seq<char>, name: Seq<char>) -> Seq<char> {
    let dir: Seq<Seq<char>> = match std_path_parent(path) {
        Some(p) => if p.len() > 0 {
            seq![replace_char(p, '/', "::"@)]
        } else {
            seq![]
        },
        None => seq![],
    };
    let stem: Seq<Seq<char>> = match std_path_file_stem(path) {
        Some(s) => seq![s],
        None => seq![],
    };
    join(drop_empty(dir + stem + seq![name]), "::"@)
}

/// Builds the fully qualified name of `name` defined in `file_path`.
pub fn build_fqn(file_path: &str, name: &str) -> (r: String)
    ensures
        r@ == fqn_spec(file_path@, name@),
{
    let mut parts: Vec<Vec<char>> = Vec::new();
    let sep = chars_of("::");
    let ghost dir: Seq<Seq<char>> = match std_path_parent(file_path@) {
        Some(p) => if p.len() > 0 {
            seq![replace_char(p, '/', "::"@)]
        } else {
            seq![]
        },
        None => seq![],
    };
    let ghost stem: Seq<Seq<char>> = match std_path_file_stem(file_path@) {
        Some(s) => seq![s],
        None => seq![],
    };
    match path_parent(file_path) {
        Some(p) => {
            let pc = chars_of(p.as_str());
            if pc.len() > 0 {
                parts.push(replace_char_exec(pc.as_slice(), '/', sep.as_slice()));
            }
        },
        None => {},
    }
    assert(views(parts@) =~= dir);
    match path_file_stem(file_path) {
        Some(s) => {
            parts.push(chars_of(s.as_str()));
        },
        None => {},
    }
    assert(views(parts@) =~= dir + stem);
    parts.push(chars_of(name));
    assert(views(parts@) =~= dir + stem + seq![name@]);
    let kept = drop_empty_exec(&parts);
    let joined = join_exec(&kept, sep.as_slice());
    string_of(joined.as_slice())
}

/// The kind that a definition capture names, if it names one.
pub open spec fn def_kind_of(cap: Seq<char>) -> Option<SymbolKind> {
    if cap == "function"@ {
        Some(SymbolKind::Function)
    } else if cap == "method"@ {
        Some(SymbolKind::Method)
    } else if cap == "class"@ {
        Some(SymbolKind::Class)
    } else if cap == "interface"@ {
        Some(SymbolKind::Interface)
    } else if cap == "module"@ {
        Some(SymbolKind::Module)
    } else {
        None
    }
}

/// The last capture named `name` among the first `n` captures of a match.
pub open spec fn last_name_upto(m: Seq<CaptureView>, n: int) -> Option<int>
    decreases n,
{
    if n <= 0 {
        None
    } else if m[n - 1].0 == "name"@ {
        Some(n - 1)
    } else {
        last_name_upto(m, n - 1)
    }
}

/// The last definition capture among the first `n` captures of a match.
pub open spec fn last_def_upto(m: Seq<CaptureView>, n: int) -> Option<int>
    decreases n,
{
    if n <= 0 {
        None
    } else if def_kind_of(m[n - 1].0) is Some {
        Some(n - 1)
    } else {
        last_def_upto(m, n - 1)
    }
}

pub proof fn lemma_last_upto(m: Seq<CaptureView>, n: int)
    requires
        0 <= n <= m.len(),
    ensures
        last_name_upto(m, n) matches Some(i) ==> 0 <= i < n && m[i].0 == "name"@,
        last_def_upto(m, n) matches Some(i) ==> 0 <= i < n && def_kind_of(m[i].0) is Some,
    decreases n,
{
    if n > 0 {
        lemma_last_upto(m, n - 1);
    }
}

/// A definition found by a match: name, kind, first and last line.
pub type FoundSymbol = (Seq<char>, SymbolKind, int, int);

/// What one match yields: nothing (no name or no definition capture),
/// `Some(None)` when the name's text is not valid UTF-8, or the definition.
pub open spec fn match_symbol(m: Seq<CaptureView>) -> Option<Option<FoundSymbol>> {
    match (last_name_upto(m, m.len() as int), last_def_upto(m, m.len() as int)) {
        (Some(ni), Some(di)) => match m[ni].2 {
            Some(name) => Some(
                Some((name, def_kind_of(m[di].0)->0, m[di].5 + 1, m[di].6 + 1)),
            ),
            None => Some(None),
        },
        _ => None,
    }
}

/// The definitions found by the first `n` matches, or `None` when one of
/// them has a name that is not valid UTF-8.
pub open spec fn symbols_upto(ms: Seq<Seq<CaptureView>>, n: int) -> Option<Seq<FoundSymbol>>
    decreases n,
{
    if n <= 0 {
        Some(seq![])
    } else {
        match symbols_upto(ms, n - 1) {
            None => None,
            Some(prev) => match match_symbol(ms[n - 1]) {
                None => Some(prev),
                Some(None) => None,
                Some(Some(x)) => Some(prev.push(x)),
            },
        }
    }
}

/// `s` is the symbol for definition `x` in the file `path` of language
/// `lang`: its id is `path:name:first_line`.
pub open spec fn symbol_is(s: Symbol, x: FoundSymbol, path: Seq<char>, lang: Language) -> bool {
    &&& s.name@ == x.0
    &&& s.kind == x.1
    &&& s.start_line == x.2
    &&& s.end_line == x.3
    &&& s.file_path@ == path
    &&& s.language == lang
    &&& s.id@ == path + ":"@ + x.0 + ":"@ + decimal(x.2 as nat)
    &&& s.fqn@ == fqn_spec(path, x.0)
    &&& s.visibility is None
    &&& s.chunk_ids@.len() == 0
    &&& s.chunk_id is None
}

/// Every symbol's first line is at least 1 and at most its last line.
pub open spec fn symbol_lines_ordered(v: Seq<Symbol>) -> bool {
    forall|i: int| 0 <= i < v.len() ==> 1 <= (#[trigger] v[i]).start_line <= v[i].end_line
}

pub open spec fn symbols_are(v: Seq<Symbol>, xs: Seq<FoundSymbol>, path: Seq<char>, lang: Language) -> bool {
    v.len() == xs.len() && forall|i: int| 0 <= i < v.len() ==> symbol_is(#[trigger] v[i], xs[i], path, lang)
}

/// Builds the symbol for one definition.
fn make_symbol(name: &String, kind: SymbolKind, start_line: usize, end_line: usize, file_path: &str, language: Language) -> (s: Symbol)
    ensures
        symbol_is(s, (name@, kind, start_line as int, end_line as int), file_path@, language),
{
    let mut id = chars_of(file_path);
    let colon = chars_of(":");
    append(&mut id, colon.as_slice());
    let nm = chars_of(name.as_str());
    append(&mut id, nm.as_slice());
    append(&mut id, colon.as_slice());
    let digits = decimal_exec(start_line);
    append(&mut id, digits.as_slice());
    Symbol {
        id: string_of(id.as_slice()),
        name: name.clone(),
        kind,
        language,
        file_path: string_of(chars_of(file_path).as_slice()),
        start_line,
        end_line,
        fqn: build_fqn(file_path, name.as_str()),
        visibility: None,
        chunk_ids: Vec::new(),
        chunk_id: None,
    }
}

/// Why symbols could not be extracted.
#[derive(Clone, Copy, Debug, PartialEq, Eq, Structural)]
pub enum ExtractError {
    /// The grammar could not be loaded, the text not parsed, or the query
    /// not compiled.
    Syntax,
    /// A definition's name is not valid UTF-8.
    InvalidName,
}

/// Turns query matches into symbols: a match with both a `name` capture and
/// a definition capture (`function`, `method`, `class`, `interface`,
/// `module`) yields a symbol; the last capture of each sort wins.
pub fn symbols_from_matches(ms: &Vec<Vec<Capture>>, file_path: &str, language: Language) -> (r: Result<Vec<Symbol>, ExtractError>)
    requires
        rows_fit(matches_view(ms@)),
    ensures
        match symbols_upto(matches_view(ms@), ms@.len() as int) {
            Some(xs) => r matches Ok(v) && symbols_are(v@, xs, file_path@, language),
            None => r == Err::<Vec<Symbol>, ExtractError>(ExtractError::InvalidName),
        },
        r matches Ok(v) ==> symbol_lines_ordered(v@),
{
    let ghost mv = matches_view(ms@);
    let mut out: Vec<Symbol> = Vec::new();
    let mut i: usize = 0;
    while i < ms.len()
        invariant
            0 <= i <= ms.len(),
            mv == matches_view(ms@),
            rows_fit(mv),
            symbols_upto(mv, i as int) matches Some(xs) && symbols_are(out@, xs, file_path@, language),
            symbol_lines_ordered(out@),
        decreases ms.len() - i,
    {
        let m = &ms[i];
        let ghost cv = mv[i as int];
        assert(cv == m@.map_values(|c: Capture| c@));
        let mut name_idx: Option<usize> = None;
        let mut def_idx: Option<usize> = None;
        let mut j: usize = 0;
        while j < m.len()
            invariant
                0 <= j <= m.len(),
                cv == m@.map_values(|c: Capture| c@),
                name_idx == match last_name_upto(cv, j as int) {
                    Some(x) => Some(x as usize),
                    None => None::<usize>,
                },
                def_idx == match last_def_upto(cv, j as int) {
                    Some(x) => Some(x as usize),
                    None => None::<usize>,
                },
            decreases m.len() - j,
        {
            let cap = m[j].capture.as_str();
            assert(cv[j as int].0 == cap@);
            if str_eq(cap, "name") {
                name_idx = Some(j);
            }
            if str_eq(cap, "function") || str_eq(cap, "method") || str_eq(cap, "class") || str_eq(cap, "interface") || str_eq(cap, "module") {
                def_idx = Some(j);
            }
            j = j + 1;
        }
        proof {
            lemma_last_upto(cv, cv.len() as int);
        }
        match (name_idx, def_idx) {
            (Some(ni), Some(di)) => {
                let kind = SymbolKind::from(m[di].capture.as_str());
                assert(def_kind_of(cv[di as int].0) == Some(kind));
                match &m[ni].text {
                    Some(name) => {
                        assert(mv[i as int][di as int] == cv[di as int]);
                        assert(cv[di as int] == m@[di as int]@);
                        assert(m[di as int].start_row <= m[di as int].end_row < usize::MAX);
                        let start_line = m[di].start_row + 1;
                        let end_line = m[di].end_row + 1;
                        let s = make_symbol(name, kind, start_line, end_line, file_path, language);
                        let ghost prev = out@;
                        out.push(s);
                        proof {
                            let xs = symbols_upto(mv, i as int)->0;
                            let x: FoundSymbol = (name@, kind, start_line as int, end_line as int);
                            assert(match_symbol(cv) == Some(Some(x)));
                            assert(symbols_upto(mv, i + 1) == Some(xs.push(x)));
                            assert forall|t: int| 0 <= t < out@.len() implies symbol_is(
                                #[trigger] out@[t],
                                xs.push(x)[t],
                                file_path@,
                                language,
                            ) by {
                                if t < prev.len() {
                                    assert(out@[t] == prev[t]);
                                }
                            }
                            assert forall|t: int| 0 <= t < out@.len() implies 1 <= (#[trigger] out@[t]).start_line
                                <= out@[t].end_line by {
                                if t < prev.len() {
                                    assert(out@[t] == prev[t]);
                                }
                            }
                        }
                    },
                    None => {
                        assert(match_symbol(cv) == Some(None::<FoundSymbol>));
                        proof {
                            assert(symbols_upto(mv, i + 1) is None);
                            lemma_symbols_upto_none(mv, i + 1);
                        }
                        return Err(ExtractError::InvalidName);
                    },
                }
            },
            _ => {
                assert(match_symbol(cv) is None);
            },
        }
        i = i + 1;
    }
    Ok(out)
}

/// Once a match has failed, the whole extraction fails.
pub proof fn lemma_symbols_upto_none(ms: Seq<Seq<CaptureView>>, n: int)
    requires
        0 <= n <= ms.len(),
        symbols_upto(ms, n) is None,
    ensures
        symbols_upto(ms, ms.len() as int) is None,
    decreases ms.len() - n,
{
    if n < ms.len() {
        assert(symbols_upto(ms, n + 1) is None);
        lemma_symbols_upto_none(ms, n + 1);
    }
}

/// The grammar and query used to find the definitions of a language, if the
/// language has them: Python, TypeScript/JavaScript (TSX grammar for `.tsx`
/// and `.jsx` files), Java and C++.
pub open spec fn symbol_query(language: Language, path: Seq<char>) -> Option<(Grammar, Seq<char>)> {
    match language {
        Language::Python => Some((Grammar::Python, python_symbol_query()@)),
        Language::TypeScript | Language::JavaScript => Some(
            (
                if std_path_extension(path) == Some("tsx"@) || std_path_extension(path) == Some(
                    "jsx"@,
                ) {
                    Grammar::Tsx
                } else {
                    Grammar::TypeScript
                },
                typescript_symbol_query()@,
            ),
        ),
        Language::Java => Some((Grammar::Java, java_symbol_query()@)),
        Language::Cpp => Some((Grammar::Cpp, cpp_symbol_query()@)),
        _ => None,
    }
}

#[verifier::allow_in_spec]
pub fn python_symbol_query() -> &'static str
    returns
        "
            (function_definition name: (identifier) @name) @function
            (class_definition name: (identifier) @name) @class
        ",
{
    "
            (function_definition name: (identifier) @name) @function
            (class_definition name: (identifier) @name) @class
        "
}

#[verifier::allow_in_spec]
pub fn typescript_symbol_query() -> &'static str
    returns
        "
            (function_declaration name: (identifier) @name) @function
            (class_declaration name: (type_identifier) @name) @class
            (interface_declaration name: (type_identifier) @name) @interface
            (method_definition name: (property_identifier) @name) @method
            (public_field_definition name: (property_identifier) @name) @method
        ",
{
    "
            (function_declaration name: (identifier) @name) @function
            (class_declaration name: (type_identifier) @name) @class
            (interface_declaration name: (type_identifier) @name) @interface
            (method_definition name: (property_identifier) @name) @method
            (public_field_definition name: (property_identifier) @name) @method
        "
}

#[verifier::allow_in_spec]
pub fn java_symbol_query() -> &'static str
    returns
        "
            (class_declaration name: (identifier) @name) @class
            (interface_declaration name: (identifier) @name) @interface
            (method_declaration name: (identifier) @name) @method
            (constructor_declaration name: (identifier) @name) @method
        ",
{
    "
            (class_declaration name: (identifier) @name) @class
            (interface_declaration name: (identifier) @name) @interface
            (method_declaration name: (identifier) @name) @method
            (constructor_declaration name: (identifier) @name) @method
        "
}

#[verifier::allow_in_spec]
pub fn cpp_symbol_query() -> &'static str
    returns
        "
            (class_specifier name: (type_identifier) @name) @class
            (struct_specifier name: (type_identifier) @name) @class
            (function_definition declarator: (function_declarator declarator: (identifier) @name)) @function
        ",
{
    "
            (class_specifier name: (type_identifier) @name) @class
            (struct_specifier name: (type_identifier) @name) @class
            (function_definition declarator: (function_declarator declarator: (identifier) @name)) @function
        "
}

/// Whether a path names a TSX or JSX file.
pub fn is_tsx_path(path: &str) -> (b: bool)
    ensures
        b == (std_path_extension(path@) == Some("tsx"@) || std_path_extension(path@) == Some(
            "jsx"@,
        )),
{
    match path_extension(path) {
        Some(e) => str_eq(e.as_str(), "tsx") || str_eq(e.as_str(), "jsx"),
        None => false,
    }
}

pub struct SymbolExtractor;

impl SymbolExtractor {
    /// Extracts the definitions of a source file. Languages without a
    /// definition query give no symbols.
    pub fn extract(content: &str, file_path: &str, language: Language) -> (r: Result<Vec<Symbol>, ExtractError>)
        ensures
            match symbol_query(language, file_path@) {
                None => r matches Ok(v) && v@.len() == 0,
                Some((g, q)) => match ts_query_captures(grammar_code(g), q, content@) {
                    None => r == Err::<Vec<Symbol>, ExtractError>(ExtractError::Syntax),
                    Some(ms) => match symbols_upto(ms, ms.len() as int) {
                        Some(xs) => r matches Ok(v) && symbols_are(v@, xs, file_path@, language),
                        None => r == Err::<Vec<Symbol>, ExtractError>(ExtractError::InvalidName),
                    },
                },
            },
            r matches Ok(v) ==> symbol_lines_ordered(v@),
    {
        let (grammar, query) = match language {
            Language::Python => (Grammar::Python, python_symbol_query()),
            Language::TypeScript | Language::JavaScript => {
                if is_tsx_path(file_path) {
                    (Grammar::Tsx, typescript_symbol_query())
                } else {
                    (Grammar::TypeScript, typescript_symbol_query())
                }
            },
            Language::Java => (Grammar::Java, java_symbol_query()),
            Language::Cpp => (Grammar::Cpp, cpp_symbol_query()),
            _ => {
                return Ok(Vec::new());
            },
        };
        match run_query(grammar, query, content) {
            None => Err(ExtractError::Syntax),
            Some(ms) => symbols_from_matches(&ms, file_path, language),
        }
    }
}


/// The definition captures of the symbol queries are exactly the labels
/// that name a kind: a capture is a definition exactly when
/// `SymbolKind::from` gives it a kind other than `Unknown`, and the symbol
/// then has that kind. Every kind but `Unknown` is named by some label, and
/// two labels naming the same kind are the same label.
pub proof fn law_definition_kinds(cap: Seq<char>, other: Seq<char>, k: SymbolKind)
    ensures
        def_kind_of(cap) is Some <==> symbol_kind_of(cap) != SymbolKind::Unknown,
        def_kind_of(cap) matches Some(d) ==> d == symbol_kind_of(cap),
        k != SymbolKind::Unknown ==> exists|l: Seq<char>| symbol_kind_of(l) == k,
        symbol_kind_of(cap) != SymbolKind::Unknown && symbol_kind_of(cap) == symbol_kind_of(other) ==> cap == other,
{
    reveal_strlit("function");
    reveal_strlit("method");
    reveal_strlit("class");
    reveal_strlit("interface");
    reveal_strlit("module");
    assert("function"@.len() == 8 && "function"@[0] == 'f');
    assert("method"@.len() == 6 && "method"@[0] == 'm');
    assert("class"@.len() == 5 && "class"@[0] == 'c');
    assert("interface"@.len() == 9 && "interface"@[0] == 'i');
    assert("module"@.len() == 6 && "module"@[0] == 'm' && "module"@[1] == 'o');
    assert("method"@[1] == 'e');
    match k {
        SymbolKind::Function => {
            assert(symbol_kind_of("function"@) == k);
        },
        SymbolKind::Method => {
            assert(symbol_kind_of("method"@) == k);
        },
        SymbolKind::Class => {
            assert(symbol_kind_of("class"@) == k);
        },
        SymbolKind::Interface => {
            assert(symbol_kind_of("interface"@) == k);
        },
        SymbolKind::Module => {
            assert(symbol_kind_of("module"@) == k);
        },
        SymbolKind::Unknown => {},
    }
}

/// A match with a `name` capture and a definition capture yields a symbol
/// whose kind is the one `SymbolKind::from` gives the last definition
/// capture's label, and never `Unknown`; its lines are those of that
/// capture, 1-indexed.
pub proof fn law_match_kind(m: Seq<CaptureView>)
    ensures
        match_symbol(m) matches Some(Some(x)) ==> x.1 != SymbolKind::Unknown && exists|i: int|
            0 <= i < m.len() && x.1 == symbol_kind_of(#[trigger] m[i].0) && x.2 == m[i].5 + 1 && x.3 == m[i].6 + 1,
        (exists|i: int| 0 <= i < m.len() && #[trigger] m[i].0 == "name"@)
            && (exists|j: int| 0 <= j < m.len() && symbol_kind_of(#[trigger] m[j].0) != SymbolKind::Unknown)
            ==> match_symbol(m) is Some,
{
    lemma_last_upto(m, m.len() as int);
    if let Some(Some(x)) = match_symbol(m) {
        let di = last_def_upto(m, m.len() as int)->0;
        law_definition_kinds(m[di].0, m[di].0, SymbolKind::Unknown);
        assert(x.1 == symbol_kind_of(m[di].0));
    }
    if (exists|i: int| 0 <= i < m.len() && #[trigger] m[i].0 == "name"@)
        && (exists|j: int| 0 <= j < m.len() && symbol_kind_of(#[trigger] m[j].0) != SymbolKind::Unknown) {
        let i = choose|i: int| 0 <= i < m.len() && #[trigger] m[i].0 == "name"@;
        let j = choose|j: int| 0 <= j < m.len() && symbol_kind_of(#[trigger] m[j].0) != SymbolKind::Unknown;
        lemma_last_found(m, i, j, m.len() as int);
    }
}

proof fn lemma_last_found(m: Seq<CaptureView>, i: int, j: int, n: int)
    requires
        0 <= i < n <= m.len(),
        0 <= j < n,
        m[i].0 == "name"@,
        symbol_kind_of(m[j].0) != SymbolKind::Unknown,
    ensures
        last_name_upto(m, n) is Some,
        last_def_upto(m, n) is Some,
    decreases n,
{
    law_definition_kinds(m[j].0, m[j].0, SymbolKind::Unknown);
    if n - 1 != i && n - 1 != j {
        lemma_last_found(m, i, j, n - 1);
    } else if n - 1 != i {
        if i < n - 1 {
            lemma_name_found(m, i, n - 1);
        }
    } else if n - 1 != j {
        lemma_def_found(m, j, n - 1);
    }
}

proof fn lemma_name_found(m: Seq<CaptureView>, i: int, n: int)
    requires
        0 <= i < n <= m.len(),
        m[i].0 == "name"@,
    ensures
        last_name_upto(m, n) is Some,
    decreases n,
{
    if n - 1 != i {
        lemma_name_found(m, i, n - 1);
    }
}

proof fn lemma_def_found(m: Seq<CaptureView>, j: int, n: int)
    requires
        0 <= j < n <= m.len(),
        def_kind_of(m[j].0) is Some,
    ensures
        last_def_upto(m, n) is Some,
    decreases n,
{
    if n - 1 != j {
        lemma_def_found(m, j, n - 1);
    }
}


/// Whether a query holds a pattern that matches `node` nodes with a name
/// and captures them as `label`.
pub open spec fn query_defines(q: Seq<char>, node: Seq<char>, label: Seq<char>) -> bool {
    exists|i: int, j: int|
        0 <= i < j && crate::text::occurs_at(q, seq!['('] + node + seq![' '], i) && crate::text::occurs_at(q, seq![')', ' ', '@'] + label, j)
            && !(exists|k: int| i < k < j && #[trigger] q[k] == '\n')
}

/// The Python definition query finds function_definition, class_definition nodes, each with its name
/// and captured with the label of its kind.
pub proof fn law_python_query_defines()
    ensures
        query_defines(python_symbol_query()@, "function_definition"@, "function"@),
        query_defines(python_symbol_query()@, "class_definition"@, "class"@),
{
    let q = python_symbol_query()@;
    reveal_strlit("
            (function_definition name: (identifier) @name) @function
            (class_definition name: (identifier) @name) @class
        ");
    assert(crate::text::occurs_at(q, seq!['('] + "function_definition"@ + seq![' '], 13) && crate::text::occurs_at(q, seq![')', ' ', '@'] + "function"@, 58)
        && !(exists|k: int| 13 < k < 58 && #[trigger] q[k] == '\n')) by {
        reveal_strlit("function_definition");
        reveal_strlit("function");
        assert(q.subrange(13int, 34int) =~= seq!['('] + "function_definition"@ + seq![' ']);
        assert(q.subrange(58int, 69int) =~= seq![')', ' ', '@'] + "function"@);
    }
    assert(crate::text::occurs_at(q, seq!['('] + "class_definition"@ + seq![' '], 82) && crate::text::occurs_at(q, seq![')', ' ', '@'] + "class"@, 124)
        && !(exists|k: int| 82 < k < 124 && #[trigger] q[k] == '\n')) by {
        reveal_strlit("class_definition");
        reveal_strlit("class");
        assert(q.subrange(82int, 100int) =~= seq!['('] + "class_definition"@ + seq![' ']);
        assert(q.subrange(124int, 132int) =~= seq![')', ' ', '@'] + "class"@);
    }
}

/// The TypeScript definition query finds function_declaration, class_declaration, interface_declaration, method_definition, public_field_definition nodes, each with its name
/// and captured with the label of its kind.
pub proof fn law_typescript_query_defines()
    ensures
        query_defines(typescript_symbol_query()@, "function_declaration"@, "function"@),
        query_defines(typescript_symbol_query()@, "class_declaration"@, "class"@),
        query_defines(typescript_symbol_query()@, "interface_declaration"@, "interface"@),
        query_defines(typescript_symbol_query()@, "method_definition"@, "method"@),
        query_defines(typescript_symbol_query()@, "public_field_definition"@, "method"@),
{
    let q = typescript_symbol_query()@;
    reveal_strlit("
            (function_declaration name: (identifier) @name) @function
            (class_declaration name: (type_identifier) @name) @class
            (interface_declaration name: (type_identifier) @name) @interface
            (method_definition name: (property_identifier) @name) @method
            (public_field_definition name: (property_identifier) @name) @method
        ");
    assert(crate::text::occurs_at(q, seq!['('] + "function_declaration"@ + seq![' '], 13) && crate::text::occurs_at(q, seq![')', ' ', '@'] + "function"@, 59)
        && !(exists|k: int| 13 < k < 59 && #[trigger] q[k] == '\n')) by {
        reveal_strlit("function_declaration");
        reveal_strlit("function");
        assert(q.subrange(13int, 35int) =~= seq!['('] + "function_declaration"@ + seq![' ']);
        assert(q.subrange(59int, 70int) =~= seq![')', ' ', '@'] + "function"@);
    }
    assert(crate::text::occurs_at(q, seq!['('] + "class_declaration"@ + seq![' '], 83) && crate::text::occurs_at(q, seq![')', ' ', '@'] + "class"@, 131)
        && !(exists|k: int| 83 < k < 131 && #[trigger] q[k] == '\n')) by {
        reveal_strlit("class_declaration");
        reveal_strlit("class");
        assert(q.subrange(83int, 102int) =~= seq!['('] + "class_declaration"@ + seq![' ']);
        assert(q.subrange(131int, 139int) =~= seq![')', ' ', '@'] + "class"@);
    }
    assert(crate::text::occurs_at(q, seq!['('] + "interface_declaration"@ + seq![' '], 152) && crate::text::occurs_at(q, seq![')', ' ', '@'] + "interface"@, 204)
        && !(exists|k: int| 152 < k < 204 && #[trigger] q[k] == '\n')) by {
        reveal_strlit("interface_declaration");
        reveal_strlit("interface");
        assert(q.subrange(152int, 175int) =~= seq!['('] + "interface_declaration"@ + seq![' ']);
        assert(q.subrange(204int, 216int) =~= seq![')', ' ', '@'] + "interface"@);
    }
    assert(crate::text::occurs_at(q, seq!['('] + "method_definition"@ + seq![' '], 229) && crate::text::occurs_at(q, seq![')', ' ', '@'] + "method"@, 281)
        && !(exists|k: int| 229 < k < 281 && #[trigger] q[k] == '\n')) by {
        reveal_strlit("method_definition");
        reveal_strlit("method");
        assert(q.subrange(229int, 248int) =~= seq!['('] + "method_definition"@ + seq![' ']);
        assert(q.subrange(281int, 290int) =~= seq![')', ' ', '@'] + "method"@);
    }
    assert(crate::text::occurs_at(q, seq!['('] + "public_field_definition"@ + seq![' '], 303) && crate::text::occurs_at(q, seq![')', ' ', '@'] + "method"@, 361)
        && !(exists|k: int| 303 < k < 361 && #[trigger] q[k] == '\n')) by {
        reveal_strlit("public_field_definition");
        reveal_strlit("method");
        assert(q.subrange(303int, 328int) =~= seq!['('] + "public_field_definition"@ + seq![' ']);
        assert(q.subrange(361int, 370int) =~= seq![')', ' ', '@'] + "method"@);
    }
}

/// The Java definition query finds class_declaration, interface_declaration, method_declaration, constructor_declaration nodes, each with its name
/// and captured with the label of its kind.
pub proof fn law_java_query_defines()
    ensures
        query_defines(java_symbol_query()@, "class_declaration"@, "class"@),
        query_defines(java_symbol_query()@, "interface_declaration"@, "interface"@),
        query_defines(java_symbol_query()@, "method_declaration"@, "method"@),
        query_defines(java_symbol_query()@, "constructor_declaration"@, "method"@),
{
    let q = java_symbol_query()@;
    reveal_strlit("
            (class_declaration name: (identifier) @name) @class
            (interface_declaration name: (identifier) @name) @interface
            (method_declaration name: (identifier) @name) @method
            (constructor_declaration name: (identifier) @name) @method
        ");
    assert(crate::text::occurs_at(q, seq!['('] + "class_declaration"@ + seq![' '], 13) && crate::text::occurs_at(q, seq![')', ' ', '@'] + "class"@, 56)
        && !(exists|k: int| 13 < k < 56 && #[trigger] q[k] == '\n')) by {
        reveal_strlit("class_declaration");
        reveal_strlit("class");
        assert(q.subrange(13int, 32int) =~= seq!['('] + "class_declaration"@ + seq![' ']);
        assert(q.subrange(56int, 64int) =~= seq![')', ' ', '@'] + "class"@);
    }
    assert(crate::text::occurs_at(q, seq!['('] + "interface_declaration"@ + seq![' '], 77) && crate::text::occurs_at(q, seq![')', ' ', '@'] + "interface"@, 124)
        && !(exists|k: int| 77 < k < 124 && #[trigger] q[k] == '\n')) by {
        reveal_strlit("interface_declaration");
        reveal_strlit("interface");
        assert(q.subrange(77int, 100int) =~= seq!['('] + "interface_declaration"@ + seq![' ']);
        assert(q.subrange(124int, 136int) =~= seq![')', ' ', '@'] + "interface"@);
    }
    assert(crate::text::occurs_at(q, seq!['('] + "method_declaration"@ + seq![' '], 149) && crate::text::occurs_at(q, seq![')', ' ', '@'] + "method"@, 193)
        && !(exists|k: int| 149 < k < 193 && #[trigger] q[k] == '\n')) by {
        reveal_strlit("method_declaration");
        reveal_strlit("method");
        assert(q.subrange(149int, 169int) =~= seq!['('] + "method_declaration"@ + seq![' ']);
        assert(q.subrange(193int, 202int) =~= seq![')', ' ', '@'] + "method"@);
    }
    assert(crate::text::occurs_at(q, seq!['('] + "constructor_declaration"@ + seq![' '], 215) && crate::text::occurs_at(q, seq![')', ' ', '@'] + "method"@, 264)
        && !(exists|k: int| 215 < k < 264 && #[trigger] q[k] == '\n')) by {
        reveal_strlit("constructor_declaration");
        reveal_strlit("method");
        assert(q.subrange(215int, 240int) =~= seq!['('] + "constructor_declaration"@ + seq![' ']);
        assert(q.subrange(264int, 273int) =~= seq![')', ' ', '@'] + "method"@);
    }
}

/// The C++ definition query finds class_specifier, struct_specifier, function_definition nodes, each with its name
/// and captured with the label of its kind.
pub proof fn law_cpp_query_defines()
    ensures
        query_defines(cpp_symbol_query()@, "class_specifier"@, "class"@),
        query_defines(cpp_symbol_query()@, "struct_specifier"@, "class"@),
        query_defines(cpp_symbol_query()@, "function_definition"@, "function"@),
{
    let q = cpp_symbol_query()@;
    reveal_strlit("
            (class_specifier name: (type_identifier) @name) @class
            (struct_specifier name: (type_identifier) @name) @class
            (function_definition declarator: (function_declarator declarator: (identifier) @name)) @function
        ");
    assert(crate::text::occurs_at(q, seq!['('] + "class_specifier"@ + seq![' '], 13) && crate::text::occurs_at(q, seq![')', ' ', '@'] + "class"@, 59)
        && !(exists|k: int| 13 < k < 59 && #[trigger] q[k] == '\n')) by {
        reveal_strlit("class_specifier");
        reveal_strlit("class");
        assert(q.subrange(13int, 30int) =~= seq!['('] + "class_specifier"@ + seq![' ']);
        assert(q.subrange(59int, 67int) =~= seq![')', ' ', '@'] + "class"@);
    }
    assert(crate::text::occurs_at(q, seq!['('] + "struct_specifier"@ + seq![' '], 80) && crate::text::occurs_at(q, seq![')', ' ', '@'] + "class"@, 127)
        && !(exists|k: int| 80 < k < 127 && #[trigger] q[k] == '\n')) by {
        reveal_strlit("struct_specifier");
        reveal_strlit("class");
        assert(q.subrange(80int, 98int) =~= seq!['('] + "struct_specifier"@ + seq![' ']);
        assert(q.subrange(127int, 135int) =~= seq![')', ' ', '@'] + "class"@);
    }
    assert(crate::text::occurs_at(q, seq!['('] + "function_definition"@ + seq![' '], 148) && crate::text::occurs_at(q, seq![')', ' ', '@'] + "function"@, 233)
        && !(exists|k: int| 148 < k < 233 && #[trigger] q[k] == '\n')) by {
        reveal_strlit("function_definition");
        reveal_strlit("function");
        assert(q.subrange(148int, 169int) =~= seq!['('] + "function_definition"@ + seq![' ']);
        assert(q.subrange(233int, 244int) =~= seq![')', ' ', '@'] + "function"@);
    }
}


/// Symbols are found for Python, TypeScript, JavaScript, Java and C++
/// files, each parsed with its language's grammar (TSX for `.tsx` and
/// `.jsx` files), and for no other language.
pub proof fn law_symbol_languages(language: Language, path: Seq<char>)
    ensures
        symbol_query(language, path) is Some <==> (language == Language::Python || language == Language::TypeScript
            || language == Language::JavaScript || language == Language::Java || language == Language::Cpp),
        symbol_query(language, path) matches Some((g, q)) ==> (crate::chunking::grammar_of(language) == Some(g)
            || ((language == Language::TypeScript || language == Language::JavaScript) && g == Grammar::Tsx)),
{
}

} // verus!
