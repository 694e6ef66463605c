//! Which summaries an indexing run asks for, and the base text of each:
//! one per function or class, per file, per top-level module and for the
//! repository. The model may rewrite a base text; the record keeps the
//! request's identity.
use vstd::prelude::*;
use crate::config::SummaryLevel;
use crate::models::language_name;
use crate::summary_search::SummaryRecord;
use crate::symbols::{Symbol, SymbolKind};
use crate::text::{
    append, chars_of, decimal, decimal_exec, join, join_exec, lines, lines_exec, slice_range, split, split_exec,
    starts_with, starts_with_exec, string_of, trim, trim_exec, views, CharClass,
};

verus! {

/// A summary to make: its identity, level and target, the text to
/// summarise, what the model is told of it, and where it points.
pub struct SummaryRequest {
    pub id: String,
    pub level: SummaryLevel,
    pub target_id: String,
    pub base_text: String,
    pub context: String,
    pub file_path: Option<String>,
    pub start_line: Option<usize>,
    pub end_line: Option<usize>,
    pub language: Option<String>,
}

/// A request as values: (id, level, target), (base text, context),
/// (file, first line, last line, language).
pub type RequestView = (
    (Seq<char>, SummaryLevel, Seq<char>),
    (Seq<char>, Seq<char>),
    (Option<Seq<char>>, Option<usize>, Option<usize>, Option<Seq<char>>),
);

pub open spec fn opt_chars(o: Option<String>) -> Option<Seq<char>> {
    match o {
        Some(s) => Some(s@),
        None => None,
    }
}

pub open spec fn request_view(r: SummaryRequest) -> RequestView {
    (
        (r.id@, r.level, r.target_id@),
        (r.base_text@, r.context@),
        (opt_chars(r.file_path), r.start_line, r.end_line, opt_chars(r.language)),
    )
}

pub open spec fn request_views(v: Seq<SummaryRequest>) -> Seq<RequestView> {
    v.map_values(|r: SummaryRequest| request_view(r))
}

/// Whether `levels` asks for `l`.
pub open spec fn wants(levels: Seq<SummaryLevel>, l: SummaryLevel) -> bool {
    exists|i: int| 0 <= i < levels.len() && levels[i] == l
}

fn wants_exec(levels: &Vec<SummaryLevel>, l: SummaryLevel) -> (b: bool)
    ensures
        b == wants(levels@, l),
{
    let mut i: usize = 0;
    while i < levels.len()
        invariant
            0 <= i <= levels.len(),
            forall|j: int| 0 <= j < i ==> levels@[j] != l,
        decreases levels.len() - i,
    {
        if levels[i] == l {
            return true;
        }
        i = i + 1;
    }
    false
}

/// A symbol kind's name in summaries.
pub open spec fn kind_label(k: SymbolKind) -> Seq<char> {
    match k {
        SymbolKind::Function => "function"@,
        SymbolKind::Method => "method"@,
        SymbolKind::Class => "class"@,
        SymbolKind::Interface => "interface"@,
        SymbolKind::Module => "module"@,
        SymbolKind::Unknown => "unknown"@,
    }
}

fn kind_label_exec(k: SymbolKind) -> (r: Vec<char>)
    ensures
        r@ == kind_label(k),
{
    match k {
        SymbolKind::Function => chars_of("function"),
        SymbolKind::Method => chars_of("method"),
        SymbolKind::Class => chars_of("class"),
        SymbolKind::Interface => chars_of("interface"),
        SymbolKind::Module => chars_of("module"),
        SymbolKind::Unknown => chars_of("unknown"),
    }
}

/// `name (kind)`.
pub open spec fn sym_item(s: Symbol) -> Seq<char> {
    s.name@ + " ("@ + kind_label(s.kind) + ")"@
}

fn sym_item_exec(s: &Symbol) -> (r: Vec<char>)
    ensures
        r@ == sym_item(*s),
{
    let mut v = chars_of(s.name.as_str());
    append(&mut v, chars_of(" (").as_slice());
    append(&mut v, kind_label_exec(s.kind).as_slice());
    append(&mut v, chars_of(")").as_slice());
    v
}

/// The content of the first file with path `p`.
pub open spec fn content_of(files: Seq<(Seq<char>, Seq<char>)>, p: Seq<char>, n: int) -> Option<Seq<char>>
    decreases n,
{
    if n <= 0 {
        None
    } else {
        match content_of(files, p, n - 1) {
            Some(c) => Some(c),
            None => if files[n - 1].0 == p {
                Some(files[n - 1].1)
            } else {
                None
            },
        }
    }
}

pub open spec fn file_views(v: Seq<(String, String)>) -> Seq<(Seq<char>, Seq<char>)> {
    v.map_values(|f: (String, String)| (f.0@, f.1@))
}

fn content_exec(files: &Vec<(String, String)>, p: &String) -> (r: Option<usize>)
    ensures
        match r {
            Some(i) => i < files.len() && content_of(file_views(files@), p@, files@.len() as int) == Some(
                files@[i as int].1@,
            ),
            None => content_of(file_views(files@), p@, files@.len() as int) is None,
        },
{
    let ghost fv = file_views(files@);
    let mut i: usize = 0;
    while i < files.len()
        invariant
            0 <= i <= files.len(),
            fv == file_views(files@),
            content_of(fv, p@, i as int) is None,
        decreases files.len() - i,
    {
        assert(fv[i as int] == (files@[i as int].0@, files@[i as int].1@));
        if crate::graph::string_eq(&files[i].0, p) {
            proof {
                lemma_content_stays(fv, p@, i + 1);
            }
            return Some(i);
        }
        i = i + 1;
    }
    None
}

proof fn lemma_content_stays(fs: Seq<(Seq<char>, Seq<char>)>, p: Seq<char>, n: int)
    requires
        0 <= n <= fs.len(),
        content_of(fs, p, n) is Some,
    ensures
        content_of(fs, p, fs.len() as int) == content_of(fs, p, n),
    decreases fs.len() - n,
{
    if n < fs.len() {
        lemma_content_stays(fs, p, n + 1);
    }
}

/// From line `i` on, the first line that is not blank, trimmed.
pub open spec fn first_nonblank(ls: Seq<Seq<char>>, i: int) -> Option<Seq<char>>
    decreases ls.len() - i,
{
    if i >= ls.len() || i < 0 {
        None
    } else if trim(ls[i], CharClass::Whitespace).len() > 0 {
        Some(trim(ls[i], CharClass::Whitespace))
    } else {
        first_nonblank(ls, i + 1)
    }
}

/// A symbol's base text: the first non-blank line of its lines, trimmed,
/// when its file is known and its lines lie within it; else its name.
pub open spec fn symbol_text(s: Symbol, files: Seq<(Seq<char>, Seq<char>)>) -> Seq<char> {
    match content_of(files, s.file_path@, files.len() as int) {
        None => s.name@,
        Some(c) => {
            let ls = lines(c);
            if s.start_line > 0 && s.end_line <= ls.len() && s.start_line <= s.end_line {
                match first_nonblank(ls.subrange(s.start_line - 1, s.end_line as int), 0) {
                    Some(t) => t,
                    None => s.name@,
                }
            } else {
                s.name@
            }
        },
    }
}

fn symbol_text_exec(s: &Symbol, files: &Vec<(String, String)>) -> (r: Vec<char>)
    ensures
        r@ == symbol_text(*s, file_views(files@)),
{
    match content_exec(files, &s.file_path) {
        None => chars_of(s.name.as_str()),
        Some(i) => {
            let ls = lines_exec(chars_of(files[i].1.as_str()).as_slice());
            let n = ls.len();
            let ghost lv = views(ls@);
            assert(lv.len() == n);
            if s.start_line > 0 && s.end_line <= n && s.start_line <= s.end_line {
                let ghost sub = views(ls@).subrange(s.start_line - 1, s.end_line as int);
                let mut k: usize = s.start_line - 1;
                while k < s.end_line
                    invariant
                        0 < s.start_line <= s.end_line <= ls.len(),
                        s.start_line - 1 <= k <= s.end_line,
                        lv == views(ls@),
                        lv.len() == ls.len(),
                        lv == lines(files@[i as int].1@),
                        content_of(file_views(files@), s.file_path@, files@.len() as int) == Some(files@[i as int].1@),
                        sub == lv.subrange(s.start_line - 1, s.end_line as int),
                        first_nonblank(sub, 0) == first_nonblank(sub, k - (s.start_line - 1)),
                    decreases s.end_line - k,
                {
                    let t = trim_exec(ls[k].as_slice(), &CharClass::Whitespace);
                    assert(lv[k as int] == ls@[k as int]@);
                    assert(sub[k - (s.start_line - 1)] == lv[k as int]);
                    if t.len() > 0 {
                        return t;
                    }
                    k = k + 1;
                }
                chars_of(s.name.as_str())
            } else {
                chars_of(s.name.as_str())
            }
        },
    }
}

/// The level a symbol is summarised at.
pub open spec fn symbol_level(s: Symbol) -> SummaryLevel {
    if s.kind == SymbolKind::Class {
        SummaryLevel::Class
    } else {
        SummaryLevel::Function
    }
}

/// The request for a symbol.
pub open spec fn symbol_request(s: Symbol, files: Seq<(Seq<char>, Seq<char>)>) -> RequestView {
    (
        (s.id@, symbol_level(s), s.id@),
        (symbol_text(s, files), "Symbol "@ + s.name@ + " in "@ + s.file_path@),
        (Some(s.file_path@), Some(s.start_line), Some(s.end_line), Some(language_name(s.language))),
    )
}

/// The requests for the first `n` symbols whose level is asked for.
pub open spec fn symbol_requests(
    levels: Seq<SummaryLevel>,
    syms: Seq<Symbol>,
    files: Seq<(Seq<char>, Seq<char>)>,
    n: int,
) -> Seq<RequestView>
    decreases n,
{
    if n <= 0 {
        seq![]
    } else {
        let prev = symbol_requests(levels, syms, files, n - 1);
        if wants(levels, symbol_level(syms[n - 1])) {
            prev.push(symbol_request(syms[n - 1], files))
        } else {
            prev
        }
    }
}

fn push_symbol_requests(out: &mut Vec<SummaryRequest>, levels: &Vec<SummaryLevel>, syms: &Vec<Symbol>, files: &Vec<(String, String)>)
    ensures
        request_views(final(out)@) == request_views(old(out)@) + symbol_requests(
            levels@,
            syms@,
            file_views(files@),
            syms@.len() as int,
        ),
{
    let ghost base = request_views(out@);
    let mut i: usize = 0;
    while i < syms.len()
        invariant
            0 <= i <= syms.len(),
            request_views(out@) == base + symbol_requests(levels@, syms@, file_views(files@), i as int),
        decreases syms.len() - i,
    {
        let s = &syms[i];
        let level = if s.kind == SymbolKind::Class { SummaryLevel::Class } else { SummaryLevel::Function };
        if wants_exec(levels, level) {
            let mut ctx = chars_of("Symbol ");
            append(&mut ctx, chars_of(s.name.as_str()).as_slice());
            append(&mut ctx, chars_of(" in ").as_slice());
            append(&mut ctx, chars_of(s.file_path.as_str()).as_slice());
            let r = SummaryRequest {
                id: s.id.clone(),
                level,
                target_id: s.id.clone(),
                base_text: string_of(symbol_text_exec(s, files).as_slice()),
                context: string_of(ctx.as_slice()),
                file_path: Some(s.file_path.clone()),
                start_line: Some(s.start_line),
                end_line: Some(s.end_line),
                language: Some(string_of(chars_of(s.language.name()).as_slice())),
            };
            let ghost before = request_views(out@);
            out.push(r);
            assert(request_view(r) == symbol_request(*s, file_views(files@)));
            assert(request_views(out@) =~= before.push(symbol_request(*s, file_views(files@))));
        }
        i = i + 1;
    }
}

/// The first `n` symbols that belong to file `p`, in order.
pub open spec fn syms_in(syms: Seq<Symbol>, p: Seq<char>, n: int) -> Seq<Symbol>
    decreases n,
{
    if n <= 0 {
        seq![]
    } else {
        let prev = syms_in(syms, p, n - 1);
        if syms[n - 1].file_path@ == p {
            prev.push(syms[n - 1])
        } else {
            prev
        }
    }
}

pub open spec fn items(syms: Seq<Symbol>) -> Seq<Seq<char>> {
    syms.map_values(|s: Symbol| sym_item(s))
}

/// At most the first `k` of a sequence.
pub open spec fn first<T>(s: Seq<T>, k: int) -> Seq<T> {
    if s.len() <= k {
        s
    } else {
        s.take(k)
    }
}

/// The items of the first `k` symbols of file `p`.
fn file_items(syms: &Vec<Symbol>, p: &String, k: usize) -> (r: Vec<Vec<char>>)
    ensures
        views(r@) == items(first(syms_in(syms@, p@, syms@.len() as int), k as int)),
{
    let mut out: Vec<Vec<char>> = Vec::new();
    let ghost all = syms_in(syms@, p@, syms@.len() as int);
    let mut i: usize = 0;
    while i < syms.len()
        invariant
            0 <= i <= syms.len(),
            all == syms_in(syms@, p@, syms@.len() as int),
            views(out@) == items(first(syms_in(syms@, p@, i as int), k as int)),
            out@.len() == first(syms_in(syms@, p@, i as int), k as int).len(),
        decreases syms.len() - i,
    {
        let ghost prev = syms_in(syms@, p@, i as int);
        proof {
            lemma_syms_in_len(syms@, p@, i as int);
        }
        if crate::graph::string_eq(&syms[i].file_path, p) {
            assert(syms_in(syms@, p@, i + 1) == prev.push(syms@[i as int]));
            if out.len() < k {
                assert(prev.len() < k);
                assert(first(prev, k as int) == prev);
                assert(first(prev.push(syms@[i as int]), k as int) == prev.push(syms@[i as int]));
                let ghost before = views(out@);
                out.push(sym_item_exec(&syms[i]));
                assert(views(out@) =~= before.push(sym_item(syms@[i as int])));
                assert(items(prev.push(syms@[i as int])) =~= items(prev).push(sym_item(syms@[i as int])));
            } else {
                assert(prev.len() >= k);
                assert(first(prev.push(syms@[i as int]), k as int) =~= first(prev, k as int));
            }
        } else {
            assert(syms_in(syms@, p@, i + 1) == prev);
        }
        i = i + 1;
    }
    out
}

proof fn lemma_syms_in_len(syms: Seq<Symbol>, p: Seq<char>, n: int)
    requires
        0 <= n <= syms.len(),
    ensures
        syms_in(syms, p, n).len() <= n,
    decreases n,
{
    if n > 0 {
        lemma_syms_in_len(syms, p, n - 1);
    }
}

/// A file's base text: a headline naming its first eight symbols, then its
/// first twenty-four lines.
pub open spec fn file_text(p: Seq<char>, content: Seq<char>, syms: Seq<Symbol>) -> Seq<char> {
    let mine = syms_in(syms, p, syms.len() as int);
    let headline = if mine.len() == 0 {
        "File "@ + p + " with no parsed symbols"@
    } else {
        "File "@ + p + " symbols: "@ + join(items(first(mine, 8)), ", "@)
    };
    headline + "\n"@ + join(first(lines(content), 24), "\n"@)
}

/// The request for a file.
pub open spec fn file_request(p: Seq<char>, content: Seq<char>, syms: Seq<Symbol>) -> RequestView {
    (
        ("file:"@ + p, SummaryLevel::File, "file:"@ + p),
        (file_text(p, content, syms), "File "@ + p),
        (Some(p), Some(1usize), Some(lines(content).len() as usize), crate::pathname::std_path_extension(p)),
    )
}

pub open spec fn file_requests(files: Seq<(Seq<char>, Seq<char>)>, syms: Seq<Symbol>, n: int) -> Seq<RequestView>
    decreases n,
{
    if n <= 0 {
        seq![]
    } else {
        file_requests(files, syms, n - 1).push(file_request(files[n - 1].0, files[n - 1].1, syms))
    }
}

fn file_request_exec(p: &String, content: &String, syms: &Vec<Symbol>) -> (r: SummaryRequest)
    ensures
        request_view(r) == file_request(p@, content@, syms@),
{
    let mine = file_items(syms, p, syms.len());
    let eight = file_items(syms, p, 8);
    let ghost all = syms_in(syms@, p@, syms@.len() as int);
    proof {
        lemma_syms_in_len(syms@, p@, syms@.len() as int);
        assert(first(all, syms@.len() as int) == all);
        assert(views(mine@).len() == mine@.len());
        assert(items(all).len() == all.len());
    }
    let mut text = chars_of("File ");
    append(&mut text, chars_of(p.as_str()).as_slice());
    if mine.len() == 0 {
        append(&mut text, chars_of(" with no parsed symbols").as_slice());
    } else {
        append(&mut text, chars_of(" symbols: ").as_slice());
        append(&mut text, join_exec(&eight, chars_of(", ").as_slice()).as_slice());
    }
    append(&mut text, chars_of("\n").as_slice());
    let ls = lines_exec(chars_of(content.as_str()).as_slice());
    let mut head: Vec<Vec<char>> = Vec::new();
    let mut j: usize = 0;
    while j < ls.len() && j < 24
        invariant
            0 <= j <= ls.len(),
            j <= 24,
            views(head@) == views(ls@).take(j as int),
        decreases ls.len() - j,
    {
        let line = slice_range(ls[j].as_slice(), 0, ls[j].len());
        assert(line@ =~= ls@[j as int]@);
        let ghost before = views(head@);
        head.push(line);
        assert(views(head@) =~= before.push(ls@[j as int]@));
        assert(views(ls@)[j as int] == ls@[j as int]@);
        assert(views(head@) =~= views(ls@).take(j + 1));
        j = j + 1;
    }
    assert(views(head@) == first(lines(content@), 24)) by {
        if ls.len() <= 24 {
            assert(views(ls@).take(ls.len() as int) =~= views(ls@));
        }
    }
    append(&mut text, join_exec(&head, chars_of("\n").as_slice()).as_slice());
    let mut id = chars_of("file:");
    append(&mut id, chars_of(p.as_str()).as_slice());
    let mut ctx = chars_of("File ");
    append(&mut ctx, chars_of(p.as_str()).as_slice());
    SummaryRequest {
        id: string_of(id.as_slice()),
        level: SummaryLevel::File,
        target_id: string_of(id.as_slice()),
        base_text: string_of(text.as_slice()),
        context: string_of(ctx.as_slice()),
        file_path: Some(p.clone()),
        start_line: Some(1),
        end_line: Some(ls.len()),
        language: crate::pathname::path_extension(p.as_str()),
    }
}

fn push_file_requests(out: &mut Vec<SummaryRequest>, files: &Vec<(String, String)>, syms: &Vec<Symbol>)
    ensures
        request_views(final(out)@) == request_views(old(out)@) + file_requests(
            file_views(files@),
            syms@,
            files@.len() as int,
        ),
{
    let ghost base = request_views(out@);
    let mut i: usize = 0;
    while i < files.len()
        invariant
            0 <= i <= files.len(),
            request_views(out@) == base + file_requests(file_views(files@), syms@, i as int),
        decreases files.len() - i,
    {
        let r = file_request_exec(&files[i].0, &files[i].1, syms);
        let ghost before = request_views(out@);
        out.push(r);
        assert(file_views(files@)[i as int] == (files@[i as int].0@, files@[i as int].1@));
        assert(request_views(out@) =~= before.push(request_view(r)));
        i = i + 1;
    }
}

/// The top-level module of a file: the first component of its path below
/// `root`, or `root` for the root itself.
pub open spec fn module_of(root: Seq<char>, path: Seq<char>) -> Seq<char> {
    let rest = if starts_with(path, root + "/"@) {
        path.skip(root.len() + 1int)
    } else {
        path
    };
    let seg = split(rest, CharClass::Exactly('/'))[0];
    if seg.len() == 0 {
        "root"@
    } else {
        seg
    }
}

fn module_exec(root: &str, path: &str) -> (r: Vec<char>)
    ensures
        r@ == module_of(root@, path@),
{
    let mut prefix = chars_of(root);
    append(&mut prefix, chars_of("/").as_slice());
    let pc = chars_of(path);
    let rest = if starts_with_exec(pc.as_slice(), prefix.as_slice()) {
        slice_range(pc.as_slice(), prefix.len(), pc.len())
    } else {
        pc
    };
    proof {
        reveal_strlit("/");
    }
    assert(prefix@ == root@ + "/"@);
    assert(starts_with(path@, root@ + "/"@) ==> rest@ =~= path@.skip(root@.len() + 1int));
    let parts = split_exec(rest.as_slice(), &CharClass::Exactly('/'));
    proof {
        crate::text::lemma_split_nonempty(rest@, CharClass::Exactly('/'));
    }
    let seg = slice_range(parts[0].as_slice(), 0, parts[0].len());
    assert(seg@ =~= views(parts@)[0]);
    if seg.len() == 0 {
        chars_of("root")
    } else {
        seg
    }
}

/// The modules of the first `n` files, each once, in order of first
/// appearance.
pub open spec fn modules_upto(root: Seq<char>, files: Seq<(Seq<char>, Seq<char>)>, n: int) -> Seq<Seq<char>>
    decreases n,
{
    if n <= 0 {
        seq![]
    } else {
        let prev = modules_upto(root, files, n - 1);
        let m = module_of(root, files[n - 1].0);
        if prev.contains(m) {
            prev
        } else {
            prev.push(m)
        }
    }
}

/// The items of the symbols of the first `n` files in module `m`, file by
/// file.
pub open spec fn module_items(
    root: Seq<char>,
    files: Seq<(Seq<char>, Seq<char>)>,
    syms: Seq<Symbol>,
    m: Seq<char>,
    n: int,
) -> Seq<Seq<char>>
    decreases n,
{
    if n <= 0 {
        seq![]
    } else {
        let prev = module_items(root, files, syms, m, n - 1);
        if module_of(root, files[n - 1].0) == m {
            prev + items(syms_in(syms, files[n - 1].0, syms.len() as int))
        } else {
            prev
        }
    }
}

/// The request for a module: its first twenty symbols named.
pub open spec fn module_request(root: Seq<char>, files: Seq<(Seq<char>, Seq<char>)>, syms: Seq<Symbol>, m: Seq<char>) -> RequestView {
    (
        ("module:"@ + m, SummaryLevel::Module, m),
        (
            "Module "@ + m + " includes: "@ + join(first(module_items(root, files, syms, m, files.len() as int), 20), ", "@),
            "Module "@ + m,
        ),
        (None, None, None, None),
    )
}

pub open spec fn module_requests(root: Seq<char>, files: Seq<(Seq<char>, Seq<char>)>, syms: Seq<Symbol>, ms: Seq<Seq<char>>) -> Seq<RequestView>
    decreases ms.len(),
{
    if ms.len() == 0 {
        seq![]
    } else {
        module_requests(root, files, syms, ms.drop_last()).push(module_request(root, files, syms, ms.last()))
    }
}

fn contains_chars(v: &Vec<Vec<char>>, m: &Vec<char>) -> (b: bool)
    ensures
        b == views(v@).contains(m@),
{
    let mut i: usize = 0;
    while i < v.len()
        invariant
            0 <= i <= v.len(),
            forall|j: int| 0 <= j < i ==> views(v@)[j] != m@,
        decreases v.len() - i,
    {
        if crate::text::seq_eq(v[i].as_slice(), m.as_slice()) {
            assert(views(v@)[i as int] == m@);
            return true;
        }
        i = i + 1;
    }
    false
}

fn module_items_exec(root: &str, files: &Vec<(String, String)>, syms: &Vec<Symbol>, m: &Vec<char>) -> (r: Vec<Vec<char>>)
    ensures
        views(r@) == module_items(root@, file_views(files@), syms@, m@, files@.len() as int),
{
    let mut out: Vec<Vec<char>> = Vec::new();
    let mut i: usize = 0;
    while i < files.len()
        invariant
            0 <= i <= files.len(),
            views(out@) == module_items(root@, file_views(files@), syms@, m@, i as int),
        decreases files.len() - i,
    {
        assert(file_views(files@)[i as int] == (files@[i as int].0@, files@[i as int].1@));
        let fm = module_exec(root, files[i].0.as_str());
        if crate::text::seq_eq(fm.as_slice(), m.as_slice()) {
            let its = file_items(syms, &files[i].0, syms.len());
            proof {
                lemma_syms_in_len(syms@, files@[i as int].0@, syms@.len() as int);
                assert(first(syms_in(syms@, files@[i as int].0@, syms@.len() as int), syms@.len() as int) == syms_in(
                    syms@,
                    files@[i as int].0@,
                    syms@.len() as int,
                ));
            }
            let mut j: usize = 0;
            let ghost before = views(out@);
            while j < its.len()
                invariant
                    0 <= j <= its.len(),
                    views(out@) == before + views(its@).take(j as int),
                decreases its.len() - j,
            {
                let c = slice_range(its[j].as_slice(), 0, its[j].len());
                assert(c@ =~= its@[j as int]@);
                assert(views(its@)[j as int] == its@[j as int]@);
                let ghost mid = views(out@);
                out.push(c);
                assert(views(out@) =~= mid.push(c@));
                assert(views(out@) =~= before + views(its@).take(j + 1));
                j = j + 1;
            }
            assert(views(its@).take(its.len() as int) =~= views(its@));
        }
        i = i + 1;
    }
    out
}

fn first_views(v: &Vec<Vec<char>>, k: usize) -> (r: Vec<Vec<char>>)
    ensures
        views(r@) == first(views(v@), k as int),
{
    let mut out: Vec<Vec<char>> = Vec::new();
    let mut j: usize = 0;
    while j < v.len() && j < k
        invariant
            0 <= j <= v.len(),
            j <= k,
            views(out@) == views(v@).take(j as int),
        decreases v.len() - j,
    {
        let c = slice_range(v[j].as_slice(), 0, v[j].len());
        assert(c@ =~= v@[j as int]@);
        assert(views(v@)[j as int] == v@[j as int]@);
        let ghost mid = views(out@);
        out.push(c);
        assert(views(out@) =~= mid.push(c@));
        assert(views(out@) =~= views(v@).take(j + 1));
        j = j + 1;
    }
    if v.len() <= k {
        assert(views(v@).take(v.len() as int) =~= views(v@));
    }
    out
}

fn push_module_requests(out: &mut Vec<SummaryRequest>, root: &str, files: &Vec<(String, String)>, syms: &Vec<Symbol>)
    ensures
        request_views(final(out)@) == request_views(old(out)@) + module_requests(
            root@,
            file_views(files@),
            syms@,
            modules_upto(root@, file_views(files@), files@.len() as int),
        ),
{
    let ghost fv = file_views(files@);
    let mut ms: Vec<Vec<char>> = Vec::new();
    let mut i: usize = 0;
    while i < files.len()
        invariant
            0 <= i <= files.len(),
            fv == file_views(files@),
            views(ms@) == modules_upto(root@, fv, i as int),
        decreases files.len() - i,
    {
        assert(fv[i as int] == (files@[i as int].0@, files@[i as int].1@));
        let m = module_exec(root, files[i].0.as_str());
        if !contains_chars(&ms, &m) {
            let ghost before = views(ms@);
            ms.push(m);
            assert(views(ms@) =~= before.push(m@));
        }
        i = i + 1;
    }
    let ghost all = views(ms@);
    let ghost base = request_views(out@);
    let mut k: usize = 0;
    while k < ms.len()
        invariant
            0 <= k <= ms.len(),
            fv == file_views(files@),
            all == views(ms@),
            request_views(out@) == base + module_requests(root@, fv, syms@, all.take(k as int)),
        decreases ms.len() - k,
    {
        let m = &ms[k];
        assert(all[k as int] == m@);
        let its = module_items_exec(root, files, syms, m);
        let top = first_views(&its, 20);
        let mut text = chars_of("Module ");
        append(&mut text, m.as_slice());
        append(&mut text, chars_of(" includes: ").as_slice());
        append(&mut text, join_exec(&top, chars_of(", ").as_slice()).as_slice());
        let mut id = chars_of("module:");
        append(&mut id, m.as_slice());
        let mut ctx = chars_of("Module ");
        append(&mut ctx, m.as_slice());
        let r = SummaryRequest {
            id: string_of(id.as_slice()),
            level: SummaryLevel::Module,
            target_id: string_of(m.as_slice()),
            base_text: string_of(text.as_slice()),
            context: string_of(ctx.as_slice()),
            file_path: None,
            start_line: None,
            end_line: None,
            language: None,
        };
        assert(request_view(r) == module_request(root@, fv, syms@, m@));
        let ghost before = request_views(out@);
        out.push(r);
        assert(all.take(k + 1).drop_last() =~= all.take(k as int));
        assert(request_views(out@) =~= before.push(request_view(r)));
        k = k + 1;
    }
    assert(all.take(ms.len() as int) =~= all);
}

/// The request for the repository: its file and symbol counts and its
/// first hundred symbols named.
pub open spec fn repo_request(root: Seq<char>, files: Seq<(Seq<char>, Seq<char>)>, syms: Seq<Symbol>) -> RequestView {
    (
        ("repo:root"@, SummaryLevel::Repo, "repo:root"@),
        (
            "Repository summary: "@ + decimal(files.len()) + " files, "@ + decimal(syms.len()) + " symbols. Sample symbols: "@
                + join(items(first(syms, 100)), ", "@),
            "Repository "@ + root,
        ),
        (None, None, None, None),
    )
}

fn repo_request_exec(root: &str, files: &Vec<(String, String)>, syms: &Vec<Symbol>) -> (r: SummaryRequest)
    ensures
        request_view(r) == repo_request(root@, file_views(files@), syms@),
{
    let mut names: Vec<Vec<char>> = Vec::new();
    let mut j: usize = 0;
    while j < syms.len() && j < 100
        invariant
            0 <= j <= syms.len(),
            j <= 100,
            views(names@) == items(syms@.take(j as int)),
        decreases syms.len() - j,
    {
        names.push(sym_item_exec(&syms[j]));
        assert(items(syms@.take(j + 1)) =~= items(syms@.take(j as int)).push(sym_item(syms@[j as int])));
        assert(views(names@) =~= items(syms@.take(j + 1)));
        j = j + 1;
    }
    assert(syms@.take(j as int) =~= first(syms@, 100)) by {
        if syms@.len() <= 100 {
            assert(syms@.take(syms@.len() as int) =~= syms@);
        }
    }
    let mut text = chars_of("Repository summary: ");
    append(&mut text, decimal_exec(files.len()).as_slice());
    append(&mut text, chars_of(" files, ").as_slice());
    append(&mut text, decimal_exec(syms.len()).as_slice());
    append(&mut text, chars_of(" symbols. Sample symbols: ").as_slice());
    append(&mut text, join_exec(&names, chars_of(", ").as_slice()).as_slice());
    let mut ctx = chars_of("Repository ");
    append(&mut ctx, chars_of(root).as_slice());
    SummaryRequest {
        id: string_of(chars_of("repo:root").as_slice()),
        level: SummaryLevel::Repo,
        target_id: string_of(chars_of("repo:root").as_slice()),
        base_text: string_of(text.as_slice()),
        context: string_of(ctx.as_slice()),
        file_path: None,
        start_line: None,
        end_line: None,
        language: None,
    }
}

/// All the requests of a run, in order: symbols, files, modules (in order
/// of first appearance), the repository, each group when its level is
/// asked for.
pub open spec fn summary_requests_spec(
    levels: Seq<SummaryLevel>,
    root: Seq<char>,
    syms: Seq<Symbol>,
    files: Seq<(Seq<char>, Seq<char>)>,
) -> Seq<RequestView> {
    symbol_requests(levels, syms, files, syms.len() as int) + (if wants(levels, SummaryLevel::File) {
        file_requests(files, syms, files.len() as int)
    } else {
        seq![]
    }) + (if wants(levels, SummaryLevel::Module) {
        module_requests(root, files, syms, modules_upto(root, files, files.len() as int))
    } else {
        seq![]
    }) + (if wants(levels, SummaryLevel::Repo) {
        seq![repo_request(root, files, syms)]
    } else {
        seq![]
    })
}

/// The summaries to make for a repository at `root`, given its symbols and
/// its files with their contents.
pub fn summary_requests(
    levels: &Vec<SummaryLevel>,
    root: &str,
    symbols: &Vec<Symbol>,
    files: &Vec<(String, String)>,
) -> (r: Vec<SummaryRequest>)
    ensures
        request_views(r@) == summary_requests_spec(levels@, root@, symbols@, file_views(files@)),
{
    let mut out: Vec<SummaryRequest> = Vec::new();
    assert(request_views(out@) =~= Seq::<RequestView>::empty());
    push_symbol_requests(&mut out, levels, symbols, files);
    let ghost a = request_views(out@);
    if wants_exec(levels, SummaryLevel::File) {
        push_file_requests(&mut out, files, symbols);
    }
    assert(request_views(out@) =~= a + (if wants(levels@, SummaryLevel::File) {
        file_requests(file_views(files@), symbols@, files@.len() as int)
    } else {
        seq![]
    }));
    let ghost b = request_views(out@);
    if wants_exec(levels, SummaryLevel::Module) {
        push_module_requests(&mut out, root, files, symbols);
    }
    assert(request_views(out@) =~= b + (if wants(levels@, SummaryLevel::Module) {
        module_requests(root@, file_views(files@), symbols@, modules_upto(root@, file_views(files@), files@.len() as int))
    } else {
        seq![]
    }));
    let ghost c = request_views(out@);
    if wants_exec(levels, SummaryLevel::Repo) {
        let r = repo_request_exec(root, files, symbols);
        out.push(r);
        assert(request_views(out@) =~= c.push(request_view(r)));
    }
    assert(request_views(out@) =~= c + (if wants(levels@, SummaryLevel::Repo) {
        seq![repo_request(root@, file_views(files@), symbols@)]
    } else {
        seq![]
    }));
    out
}

/// The stored summary for a request, with the text the model gave (or the
/// base text): identity, level, target and location carry over.
pub fn summary_record(req: &SummaryRequest, text: &str) -> (s: SummaryRecord)
    ensures
        s.id@ == req.id@,
        s.level == req.level,
        s.target_id@ == req.target_id@,
        s.text@ == text@,
        opt_chars(s.file_path) == opt_chars(req.file_path),
        s.start_line == req.start_line,
        s.end_line == req.end_line,
        opt_chars(s.language) == opt_chars(req.language),
{
    let file_path = match &req.file_path {
        Some(p) => Some(p.clone()),
        None => None,
    };
    let language = match &req.language {
        Some(l) => Some(l.clone()),
        None => None,
    };
    SummaryRecord {
        id: req.id.clone(),
        level: req.level,
        target_id: req.target_id.clone(),
        text: string_of(chars_of(text).as_slice()),
        file_path,
        start_line: req.start_line,
        end_line: req.end_line,
        language,
    }
}

} // verus!
