//! The agent's tools and the reports they give.
use vstd::prelude::*;
use std::sync::Arc;
use crate::graph::CodeGraph;
use crate::paths::{path_view, Path, PathView, PathNodeView};
use crate::symbol_index::SymbolIndex;
use crate::symbols::{Symbol, SymbolKind};
use crate::text::{append, chars_of, decimal, decimal_exec, string_of, trim, trim_exec, CharClass};

verus! {

/// Reads a file's content.
pub struct ReadCodeTool;

impl ReadCodeTool {
    pub fn new() -> Self {
        ReadCodeTool
    }
}

/// Searches the files of the working directory for a pattern.
pub struct GrepTool;

impl GrepTool {
    pub fn new() -> Self {
        GrepTool
    }
}

/// Finds the definitions of a symbol.
pub struct SymbolTool {
    pub index: Arc<SymbolIndex>,
}

impl SymbolTool {
    pub fn new(index: Arc<SymbolIndex>) -> (t: Self)
        ensures
            t.index == index,
    {
        SymbolTool { index }
    }
}

/// Finds the uses of a symbol in the files of the working directory.
pub struct ReferencesTool;

impl ReferencesTool {
    pub fn new() -> Self {
        ReferencesTool
    }
}

/// Lists a directory.
pub struct ListDirTool;

impl ListDirTool {
    pub fn new() -> Self {
        ListDirTool
    }
}

/// Finds paths between two nodes of the code graph.
pub struct PathTool {
    pub graph: Arc<CodeGraph>,
}

impl PathTool {
    pub fn new(graph: Arc<CodeGraph>) -> (t: Self)
        ensures
            t.graph == graph,
    {
        PathTool { graph }
    }
}

/// A line of text found in a file: path, 1-indexed line number, text.
pub type LineMatch = (Seq<char>, usize, Seq<char>);

/// `path:line: text` with the text trimmed, and a line break.
pub open spec fn match_line(m: LineMatch) -> Seq<char> {
    m.0 + ":"@ + decimal(m.1 as nat) + ": "@ + trim(m.2, CharClass::Whitespace) + "\n"@
}

/// The lines of the first `n` matches.
pub open spec fn match_lines(ms: Seq<LineMatch>, n: int) -> Seq<char>
    decreases n,
{
    if n <= 0 {
        seq![]
    } else {
        match_lines(ms, n - 1) + match_line(ms[n - 1])
    }
}

/// A report on matches: a heading, at most `limit` lines, and a note when
/// more were found.
pub open spec fn listing(ms: Seq<LineMatch>, heading: Seq<char>, limit: int, more: Seq<char>) -> Seq<char> {
    heading + match_lines(ms, if ms.len() <= limit {
        ms.len() as int
    } else {
        limit
    }) + if ms.len() > limit {
        more
    } else {
        seq![]
    }
}

/// The grep tool's report: none found, or how many and the first twenty.
pub open spec fn grep_report_spec(ms: Seq<LineMatch>) -> Seq<char> {
    if ms.len() == 0 {
        "No matches found."@
    } else {
        listing(ms, "Found "@ + decimal(ms.len()) + " matches:\n"@, 20, "... (more matches truncated)\n"@)
    }
}

/// The references tool's report: none found, or how many and the first
/// fifteen.
pub open spec fn references_report_spec(symbol: Seq<char>, ms: Seq<LineMatch>) -> Seq<char> {
    if ms.len() == 0 {
        "No references found for '"@ + symbol + "'."@
    } else {
        listing(
            ms,
            "Found "@ + decimal(ms.len()) + " references to '"@ + symbol + "':\n"@,
            15,
            "... (more references truncated)\n"@,
        )
    }
}

pub open spec fn line_views(v: Seq<(String, usize, String)>) -> Seq<LineMatch> {
    v.map_values(|m: (String, usize, String)| (m.0@, m.1, m.2@))
}

fn text(s: &str) -> (r: Vec<char>)
    ensures
        r@ == s@,
{
    chars_of(s)
}

fn push_match_lines(out: &mut Vec<char>, ms: &Vec<(String, usize, String)>, n: usize)
    requires
        n <= ms@.len(),
    ensures
        final(out)@ == old(out)@ + match_lines(line_views(ms@), n as int),
{
    let ghost lv = line_views(ms@);
    let mut i: usize = 0;
    while i < n
        invariant
            0 <= i <= n <= ms@.len(),
            lv == line_views(ms@),
            out@ == old(out)@ + match_lines(lv, i as int),
        decreases n - i,
    {
        let m = &ms[i];
        let ghost before = out@;
        append(out, chars_of(m.0.as_str()).as_slice());
        append(out, text(":").as_slice());
        append(out, decimal_exec(m.1).as_slice());
        append(out, text(": ").as_slice());
        let t = trim_exec(chars_of(m.2.as_str()).as_slice(), &CharClass::Whitespace);
        append(out, t.as_slice());
        append(out, text("\n").as_slice());
        assert(lv[i as int] == (m.0@, m.1, m.2@));
        assert(out@ =~= before + match_line(lv[i as int]));
        i = i + 1;
    }
}

fn listing_exec(ms: &Vec<(String, usize, String)>, heading: Vec<char>, limit: usize, more: &str) -> (r: String)
    ensures
        r@ == listing(line_views(ms@), heading@, limit as int, more@),
{
    let mut out = heading;
    let n = if ms.len() <= limit { ms.len() } else { limit };
    push_match_lines(&mut out, ms, n);
    if ms.len() > limit {
        append(&mut out, chars_of(more).as_slice());
    } else {
        assert(out@ =~= out@ + Seq::<char>::empty());
    }
    string_of(out.as_slice())
}

/// The grep tool's report on what a search found.
pub fn grep_report(ms: &Vec<(String, usize, String)>) -> (r: String)
    ensures
        r@ == grep_report_spec(line_views(ms@)),
{
    if ms.len() == 0 {
        return string_of(text("No matches found.").as_slice());
    }
    let mut heading = text("Found ");
    append(&mut heading, decimal_exec(ms.len()).as_slice());
    append(&mut heading, text(" matches:\n").as_slice());
    listing_exec(ms, heading, 20, "... (more matches truncated)\n")
}

/// The references tool's report on what a search for `symbol` found.
pub fn references_report(symbol: &str, ms: &Vec<(String, usize, String)>) -> (r: String)
    ensures
        r@ == references_report_spec(symbol@, line_views(ms@)),
{
    if ms.len() == 0 {
        let mut out = text("No references found for '");
        append(&mut out, chars_of(symbol).as_slice());
        append(&mut out, text("'.").as_slice());
        return string_of(out.as_slice());
    }
    let mut heading = text("Found ");
    append(&mut heading, decimal_exec(ms.len()).as_slice());
    append(&mut heading, text(" references to '").as_slice());
    append(&mut heading, chars_of(symbol).as_slice());
    append(&mut heading, text("':\n").as_slice());
    listing_exec(ms, heading, 15, "... (more references truncated)\n")
}

/// The name a symbol kind is printed with.
pub open spec fn kind_name(k: SymbolKind) -> Seq<char> {
    match k {
        SymbolKind::Function => "Function"@,
        SymbolKind::Method => "Method"@,
        SymbolKind::Class => "Class"@,
        SymbolKind::Interface => "Interface"@,
        SymbolKind::Module => "Module"@,
        SymbolKind::Unknown => "Unknown"@,
    }
}

fn kind_name_exec(k: SymbolKind) -> (r: Vec<char>)
    ensures
        r@ == kind_name(k),
{
    match k {
        SymbolKind::Function => text("Function"),
        SymbolKind::Method => text("Method"),
        SymbolKind::Class => text("Class"),
        SymbolKind::Interface => text("Interface"),
        SymbolKind::Module => text("Module"),
        SymbolKind::Unknown => text("Unknown"),
    }
}

/// A symbol's entry in the symbol tool's report.
pub open spec fn symbol_entry(s: Symbol) -> Seq<char> {
    "Symbol: "@ + s.name@ + "\nKind: "@ + kind_name(s.kind) + "\nFile: "@ + s.file_path@ + ":"@ + decimal(
        s.start_line as nat,
    ) + "-"@ + decimal(s.end_line as nat) + "\n\n"@
}

pub open spec fn symbol_entries(v: Seq<Symbol>, n: int) -> Seq<char>
    decreases n,
{
    if n <= 0 {
        seq![]
    } else {
        symbol_entries(v, n - 1) + symbol_entry(v[n - 1])
    }
}

/// The symbol tool's report on the definitions of `name`.
pub open spec fn symbol_report_spec(name: Seq<char>, v: Seq<Symbol>) -> Seq<char> {
    if v.len() == 0 {
        "Symbol '"@ + name + "' not found."@
    } else {
        symbol_entries(v, v.len() as int)
    }
}

/// Reports the definitions found for `name`.
pub fn symbol_report(name: &str, v: &Vec<&Symbol>) -> (r: String)
    ensures
        r@ == symbol_report_spec(name@, v@.map_values(|s: &Symbol| *s)),
{
    let ghost sv = v@.map_values(|s: &Symbol| *s);
    if v.len() == 0 {
        let mut out = text("Symbol '");
        append(&mut out, chars_of(name).as_slice());
        append(&mut out, text("' not found.").as_slice());
        return string_of(out.as_slice());
    }
    let mut out: Vec<char> = Vec::new();
    let mut i: usize = 0;
    while i < v.len()
        invariant
            0 <= i <= v.len(),
            sv == v@.map_values(|s: &Symbol| *s),
            out@ == symbol_entries(sv, i as int),
        decreases v.len() - i,
    {
        let s = v[i];
        let ghost before = out@;
        append(&mut out, text("Symbol: ").as_slice());
        append(&mut out, chars_of(s.name.as_str()).as_slice());
        append(&mut out, text("\nKind: ").as_slice());
        append(&mut out, kind_name_exec(s.kind).as_slice());
        append(&mut out, text("\nFile: ").as_slice());
        append(&mut out, chars_of(s.file_path.as_str()).as_slice());
        append(&mut out, text(":").as_slice());
        append(&mut out, decimal_exec(s.start_line).as_slice());
        append(&mut out, text("-").as_slice());
        append(&mut out, decimal_exec(s.end_line).as_slice());
        append(&mut out, text("\n\n").as_slice());
        assert(sv[i as int] == *s);
        assert(out@ =~= before + symbol_entry(sv[i as int]));
        i = i + 1;
    }
    string_of(out.as_slice())
}

/// A path's node identifiers joined by ` -> `.
pub open spec fn path_line(nodes: Seq<PathNodeView>, n: int) -> Seq<char>
    decreases n,
{
    if n <= 0 {
        seq![]
    } else if n == 1 {
        nodes[0].0
    } else {
        path_line(nodes, n - 1) + " -> "@ + nodes[n - 1].0
    }
}

pub open spec fn path_entries(ps: Seq<PathView>, n: int) -> Seq<char>
    decreases n,
{
    if n <= 0 {
        seq![]
    } else {
        path_entries(ps, n - 1) + "Path #"@ + decimal(n as nat) + ":\n"@ + path_line(ps[n - 1].1, ps[n - 1].1.len() as int)
            + "\n"@
    }
}

/// The path tool's report: none found, or how many and each path's nodes.
pub open spec fn path_report_spec(ps: Seq<PathView>) -> Seq<char> {
    if ps.len() == 0 {
        "No path found."@
    } else {
        "Found "@ + decimal(ps.len()) + " paths:\n"@ + path_entries(ps, ps.len() as int)
    }
}

/// Reports the paths found.
pub fn path_report(paths: &Vec<Path>) -> (r: String)
    ensures
        r@ == path_report_spec(crate::paths::path_views(paths@)),
{
    let ghost pv = crate::paths::path_views(paths@);
    if paths.len() == 0 {
        return string_of(text("No path found.").as_slice());
    }
    let mut out = text("Found ");
    append(&mut out, decimal_exec(paths.len()).as_slice());
    append(&mut out, text(" paths:\n").as_slice());
    let ghost head = out@;
    let mut i: usize = 0;
    while i < paths.len()
        invariant
            0 <= i <= paths.len(),
            pv == crate::paths::path_views(paths@),
            out@ == head + path_entries(pv, i as int),
        decreases paths.len() - i,
    {
        let p = &paths[i];
        let ghost nv = path_view(*p).1;
        assert(pv[i as int] == path_view(*p));
        let ghost before = out@;
        append(&mut out, text("Path #").as_slice());
        append(&mut out, decimal_exec(i + 1).as_slice());
        append(&mut out, text(":\n").as_slice());
        let ghost mid = out@;
        let mut j: usize = 0;
        while j < p.nodes.len()
            invariant
                0 <= j <= p.nodes.len(),
                nv == path_view(*p).1,
                out@ == mid + path_line(nv, j as int),
            decreases p.nodes.len() - j,
        {
            if j > 0 {
                append(&mut out, text(" -> ").as_slice());
            }
            append(&mut out, chars_of(p.nodes[j].node_id.as_str()).as_slice());
            assert(nv[j as int].0 == p.nodes@[j as int].node_id@);
            assert(out@ =~= mid + path_line(nv, j + 1));
            j = j + 1;
        }
        append(&mut out, text("\n").as_slice());
        assert(out@ =~= before + "Path #"@ + decimal((i + 1) as nat) + ":\n"@ + path_line(nv, nv.len() as int) + "\n"@);
        i = i + 1;
    }
    string_of(out.as_slice())
}

} // verus!
