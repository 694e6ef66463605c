//! Linking symbols across files: call edges from callers to callees,
//! import edges from files to files and symbols, and data-flow edges
//! between variable definitions, their uses and the functions holding them.
use vstd::prelude::*;
use crate::builder::{graph_view, GraphView};
use crate::graph::{
    edge_views, has_edge, keys_unique, lemma_link, link, node_views, vhas, CodeGraph, EdgeType,
    EdgeView, NodeId, NodeType, NodeView,
};
use crate::models::Language;
use crate::pathname::{path_file_stem, std_path_file_stem};
use crate::refs::{
    call_views, calls_of, extract_call_names, extract_import_refs, import_views, imports_of,
    CallHit, CallView, ImportRef, ImportView,
};
use crate::symbols::Symbol;
use crate::text::{
    append, chars_of, replace_char, replace_char_exec, starts_with, starts_with_exec, string_of,
    CharClass,
};

verus! {

// ---------------------------------------------------------------------------
// Looking symbols up
// ---------------------------------------------------------------------------

/// The symbols registered under `key` among the first `n`, in registration
/// order: each symbol under its name, then under its fully qualified name
/// when that is not empty.
pub open spec fn lookup_upto(syms: Seq<Symbol>, key: Seq<char>, n: int) -> Seq<usize>
    decreases n,
{
    if n <= 0 {
        seq![]
    } else {
        let s = syms[n - 1];
        let by_name: Seq<usize> = if s.name@ == key {
            seq![(n - 1) as usize]
        } else {
            seq![]
        };
        let by_fqn: Seq<usize> = if s.fqn@.len() > 0 && s.fqn@ == key {
            seq![(n - 1) as usize]
        } else {
            seq![]
        };
        lookup_upto(syms, key, n - 1) + by_name + by_fqn
    }
}

pub open spec fn lookup(syms: Seq<Symbol>, key: Seq<char>) -> Seq<usize> {
    lookup_upto(syms, key, syms.len() as int)
}

/// Indices in `v` are indices of `syms`.
pub open spec fn indices_in(v: Seq<usize>, syms: Seq<Symbol>) -> bool {
    forall|k: int| 0 <= k < v.len() ==> #[trigger] v[k] < syms.len()
}

fn lookup_exec(symbols: &[Symbol], key: &[char]) -> (r: Vec<usize>)
    ensures
        r@ == lookup(symbols@, key@),
        indices_in(r@, symbols@),
{
    let mut out: Vec<usize> = Vec::new();
    let mut i: usize = 0;
    while i < symbols.len()
        invariant
            0 <= i <= symbols.len(),
            out@ == lookup_upto(symbols@, key@, i as int),
            indices_in(out@, symbols@),
        decreases symbols.len() - i,
    {
        let s = &symbols[i];
        let ghost before = out@;
        let name = chars_of(s.name.as_str());
        if crate::text::seq_eq(name.as_slice(), key) {
            out.push(i);
        }
        let ghost mid = out@;
        let fqn = chars_of(s.fqn.as_str());
        if fqn.len() > 0 && crate::text::seq_eq(fqn.as_slice(), key) {
            out.push(i);
        }
        assert(out@ =~= lookup_upto(symbols@, key@, i + 1));
        i = i + 1;
    }
    out
}

/// The module bound to alias `a` by the last of the first `n` imports that
/// binds it.
pub open spec fn alias_module(imports: Seq<ImportView>, a: Seq<char>, n: int) -> Option<Seq<char>>
    decreases n,
{
    if n <= 0 {
        None
    } else if imports[n - 1].1 == Some(a) {
        Some(imports[n - 1].0)
    } else {
        alias_module(imports, a, n - 1)
    }
}

fn alias_module_exec(imports: &Vec<ImportRef>, a: &[char]) -> (r: Option<Vec<char>>)
    ensures
        match r {
            Some(m) => alias_module(import_views(imports@), a@, imports@.len() as int) == Some(m@),
            None => alias_module(import_views(imports@), a@, imports@.len() as int) is None,
        },
{
    let ghost iv = import_views(imports@);
    let mut i: usize = imports.len();
    while i > 0
        invariant
            0 <= i <= imports.len(),
            iv == import_views(imports@),
            alias_module(iv, a@, imports@.len() as int) == alias_module(iv, a@, i as int),
        decreases i,
    {
        let imp = &imports[i - 1];
        match &imp.alias {
            Some(x) => {
                let xc = chars_of(x.as_str());
                if crate::text::seq_eq(xc.as_slice(), a) {
                    return Some(chars_of(imp.module.as_str()));
                }
            },
            None => {},
        }
        i = i - 1;
    }
    None
}

/// The first `n` symbols whose fully qualified name starts with `pref` and
/// whose name is `name`, in order.
pub open spec fn prefixed_upto(syms: Seq<Symbol>, pref: Seq<char>, name: Seq<char>, n: int) -> Seq<
    usize,
>
    decreases n,
{
    if n <= 0 {
        seq![]
    } else if starts_with(syms[n - 1].fqn@, pref) && syms[n - 1].name@ == name {
        prefixed_upto(syms, pref, name, n - 1).push((n - 1) as usize)
    } else {
        prefixed_upto(syms, pref, name, n - 1)
    }
}

fn prefixed_exec(symbols: &[Symbol], pref: &[char], name: &[char]) -> (r: Vec<usize>)
    ensures
        r@ == prefixed_upto(symbols@, pref@, name@, symbols@.len() as int),
        indices_in(r@, symbols@),
{
    let mut out: Vec<usize> = Vec::new();
    let mut i: usize = 0;
    while i < symbols.len()
        invariant
            0 <= i <= symbols.len(),
            out@ == prefixed_upto(symbols@, pref@, name@, i as int),
            indices_in(out@, symbols@),
        decreases symbols.len() - i,
    {
        let s = &symbols[i];
        let fqn = chars_of(s.fqn.as_str());
        let nm = chars_of(s.name.as_str());
        if starts_with_exec(fqn.as_slice(), pref) && crate::text::seq_eq(nm.as_slice(), name) {
            out.push(i);
        }
        i = i + 1;
    }
    out
}

/// `a::b`.
pub open spec fn qualify(a: Seq<char>, b: Seq<char>) -> Seq<char> {
    a + "::"@ + b
}

/// A dotted module path written with `::`.
pub open spec fn colons(m: Seq<char>) -> Seq<char> {
    replace_char(m, '.', "::"@)
}

/// The symbols a call may resolve to, in order: those registered under the
/// called name; with a qualifier, those registered under `qualifier::name`
/// and, when the qualifier is an import alias, those named `name` whose
/// fully qualified name starts with the aliased module; with a module hint,
/// those registered under `hint::name`.
pub open spec fn candidates(syms: Seq<Symbol>, imports: Seq<ImportView>, c: CallView) -> Seq<usize> {
    let by_qual: Seq<usize> = match c.2 {
        Some(q) => lookup(syms, qualify(q, c.0)) + match alias_module(imports, q, imports.len() as int) {
            Some(m) => prefixed_upto(syms, colons(m), c.0, syms.len() as int),
            None => seq![],
        },
        None => seq![],
    };
    let by_hint: Seq<usize> = match c.3 {
        Some(h) => lookup(syms, qualify(colons(h), c.0)),
        None => seq![],
    };
    lookup(syms, c.0) + by_qual + by_hint
}

fn qualify_exec(a: &[char], b: &[char]) -> (r: Vec<char>)
    ensures
        r@ == qualify(a@, b@),
{
    let mut r = crate::text::slice_range(a, 0, a.len());
    let sep = chars_of("::");
    append(&mut r, sep.as_slice());
    append(&mut r, b);
    r
}

fn colons_exec(m: &[char]) -> (r: Vec<char>)
    ensures
        r@ == colons(m@),
{
    let sep = chars_of("::");
    replace_char_exec(m, '.', sep.as_slice())
}

fn extend(a: &mut Vec<usize>, b: &Vec<usize>)
    ensures
        final(a)@ == old(a)@ + b@,
{
    let mut i: usize = 0;
    while i < b.len()
        invariant
            0 <= i <= b.len(),
            a@ == old(a)@ + b@.take(i as int),
        decreases b.len() - i,
    {
        a.push(b[i]);
        i = i + 1;
        assert(a@ =~= old(a)@ + b@.take(i as int));
    }
    assert(b@.take(b.len() as int) =~= b@);
}

fn candidates_exec(symbols: &[Symbol], imports: &Vec<ImportRef>, c: &CallHit) -> (r: Vec<usize>)
    ensures
        r@ == candidates(symbols@, import_views(imports@), crate::refs::call_view(*c)),
        indices_in(r@, symbols@),
{
    let name = chars_of(c.name.as_str());
    let mut out = lookup_exec(symbols, name.as_slice());
    let ghost first = out@;
    match &c.qualifier {
        Some(q) => {
            let qc = chars_of(q.as_str());
            let qn = qualify_exec(qc.as_slice(), name.as_slice());
            let more = lookup_exec(symbols, qn.as_slice());
            extend(&mut out, &more);
            match alias_module_exec(imports, qc.as_slice()) {
                Some(m) => {
                    let pref = colons_exec(m.as_slice());
                    let pre = prefixed_exec(symbols, pref.as_slice(), name.as_slice());
                    extend(&mut out, &pre);
                },
                None => {},
            }
        },
        None => {},
    }
    match &c.module_hint {
        Some(h) => {
            let hc = chars_of(h.as_str());
            let hcol = colons_exec(hc.as_slice());
            let hq = qualify_exec(hcol.as_slice(), name.as_slice());
            let more = lookup_exec(symbols, hq.as_slice());
            extend(&mut out, &more);
        },
        None => {},
    }
    assert(out@ =~= candidates(symbols@, import_views(imports@), crate::refs::call_view(*c)));
    out
}

// ---------------------------------------------------------------------------
// Symbols of a file, by start line
// ---------------------------------------------------------------------------

/// The first position in `v` whose symbol starts after line `line`.
pub open spec fn first_after(syms: Seq<Symbol>, v: Seq<usize>, line: usize, n: int) -> int
    decreases n,
{
    if n <= 0 {
        v.len() as int
    } else {
        let k = v.len() - n;
        if syms[v[k] as int].start_line > line {
            k
        } else {
            first_after(syms, v, line, n - 1)
        }
    }
}

/// `v` with `i` inserted before the first symbol that starts after it.
pub open spec fn insert_by_start(syms: Seq<Symbol>, v: Seq<usize>, i: usize) -> Seq<usize> {
    let p = first_after(syms, v, syms[i as int].start_line, v.len() as int);
    v.take(p).push(i) + v.skip(p)
}

/// The symbols of file `path` among the first `n`, ordered by start line,
/// keeping their order among equal start lines.
pub open spec fn file_symbols_upto(syms: Seq<Symbol>, path: Seq<char>, n: int) -> Seq<usize>
    decreases n,
{
    if n <= 0 {
        seq![]
    } else if syms[n - 1].file_path@ == path {
        insert_by_start(syms, file_symbols_upto(syms, path, n - 1), (n - 1) as usize)
    } else {
        file_symbols_upto(syms, path, n - 1)
    }
}

pub open spec fn file_symbols(syms: Seq<Symbol>, path: Seq<char>) -> Seq<usize> {
    file_symbols_upto(syms, path, syms.len() as int)
}

pub proof fn lemma_first_after(syms: Seq<Symbol>, v: Seq<usize>, line: usize, n: int)
    requires
        0 <= n <= v.len(),
    ensures
        v.len() - n <= first_after(syms, v, line, n) <= v.len(),
    decreases n,
{
    if n > 0 {
        lemma_first_after(syms, v, line, n - 1);
    }
}

pub proof fn lemma_file_symbols_upto(syms: Seq<Symbol>, path: Seq<char>, n: int)
    requires
        0 <= n <= syms.len(),
        syms.len() <= usize::MAX,
    ensures
        forall|k: int|
            0 <= k < file_symbols_upto(syms, path, n).len() ==> #[trigger] file_symbols_upto(
                syms,
                path,
                n,
            )[k] < n && syms[file_symbols_upto(syms, path, n)[k] as int].file_path@ == path,
    decreases n,
{
    if n > 0 {
        lemma_file_symbols_upto(syms, path, n - 1);
        let prev = file_symbols_upto(syms, path, n - 1);
        if syms[n - 1].file_path@ == path {
            let i = (n - 1) as usize;
            let p = first_after(syms, prev, syms[n - 1].start_line, prev.len() as int);
            lemma_first_after(syms, prev, syms[n - 1].start_line, prev.len() as int);
            let r = insert_by_start(syms, prev, i);
            assert forall|k: int| 0 <= k < r.len() implies #[trigger] r[k] < n && syms[r[k] as int].file_path@
                == path by {
                if k < p {
                    assert(r[k] == prev[k]);
                } else if k > p {
                    assert(r[k] == prev[k - 1]);
                }
            }
        }
    }
}

fn first_after_exec(symbols: &[Symbol], v: &Vec<usize>, line: usize) -> (p: usize)
    requires
        indices_in(v@, symbols@),
    ensures
        p == first_after(symbols@, v@, line, v@.len() as int),
        p <= v@.len(),
{
    let mut k: usize = 0;
    while k < v.len()
        invariant
            0 <= k <= v.len(),
            indices_in(v@, symbols@),
            first_after(symbols@, v@, line, v@.len() as int) == first_after(
                symbols@,
                v@,
                line,
                v@.len() - k,
            ),
        decreases v.len() - k,
    {
        if symbols[v[k]].start_line > line {
            return k;
        }
        k = k + 1;
    }
    k
}

fn file_symbols_exec(symbols: &[Symbol], path: &[char]) -> (r: Vec<usize>)
    ensures
        r@ == file_symbols(symbols@, path@),
        indices_in(r@, symbols@),
{
    let mut out: Vec<usize> = Vec::new();
    let mut i: usize = 0;
    while i < symbols.len()
        invariant
            0 <= i <= symbols.len(),
            out@ == file_symbols_upto(symbols@, path@, i as int),
            indices_in(out@, symbols@),
        decreases symbols.len() - i,
    {
        proof {
            lemma_file_symbols_upto(symbols@, path@, i as int);
        }
        let fp = chars_of(symbols[i].file_path.as_str());
        if crate::text::seq_eq(fp.as_slice(), path) {
            let line = symbols[i].start_line;
            let p = first_after_exec(symbols, &out, line);
            let mut next: Vec<usize> = Vec::new();
            let mut k: usize = 0;
            while k < p
                invariant
                    0 <= k <= p <= out.len(),
                    next@ == out@.take(k as int),
                decreases p - k,
            {
                next.push(out[k]);
                k = k + 1;
                assert(next@ =~= out@.take(k as int));
            }
            next.push(i);
            let mut k: usize = p;
            while k < out.len()
                invariant
                    p <= k <= out.len(),
                    next@ == out@.take(p as int).push(i) + out@.subrange(p as int, k as int),
                decreases out.len() - k,
            {
                next.push(out[k]);
                k = k + 1;
                assert(next@ =~= out@.take(p as int).push(i) + out@.subrange(p as int, k as int));
            }
            assert(next@ =~= insert_by_start(symbols@, out@, i));
            out = next;
        }
        proof {
            lemma_file_symbols_upto(symbols@, path@, i + 1);
        }
        i = i + 1;
    }
    out
}

/// The first symbol of `v` whose lines hold `line`.
pub open spec fn first_holding(syms: Seq<Symbol>, v: Seq<usize>, line: int, n: int) -> Option<usize>
    decreases n,
{
    if n <= 0 {
        None
    } else {
        match first_holding(syms, v, line, n - 1) {
            Some(x) => Some(x),
            None => {
                let s = syms[v[n - 1] as int];
                if s.start_line <= line && s.end_line >= line {
                    Some(v[n - 1])
                } else {
                    None
                }
            },
        }
    }
}

/// The symbol of file `path` that makes a call on `line`: the first, by
/// start line, whose lines hold it.
pub open spec fn caller_of(syms: Seq<Symbol>, path: Seq<char>, line: int) -> Option<usize> {
    let v = file_symbols(syms, path);
    first_holding(syms, v, line, v.len() as int)
}

pub proof fn lemma_first_holding(syms: Seq<Symbol>, v: Seq<usize>, line: int, n: int)
    requires
        0 <= n <= v.len(),
    ensures
        first_holding(syms, v, line, n) matches Some(x) ==> exists|k: int| 0 <= k < n && v[k] == x,
    decreases n,
{
    if n > 0 {
        lemma_first_holding(syms, v, line, n - 1);
        if first_holding(syms, v, line, n - 1) is None {
            if first_holding(syms, v, line, n) is Some {
                assert(v[n - 1] == first_holding(syms, v, line, n)->0);
            }
        }
    }
}

fn first_holding_exec(symbols: &[Symbol], v: &Vec<usize>, line: usize) -> (r: Option<usize>)
    requires
        indices_in(v@, symbols@),
    ensures
        r == first_holding(symbols@, v@, line as int, v@.len() as int),
        r matches Some(x) ==> x < symbols@.len(),
{
    let mut k: usize = 0;
    while k < v.len()
        invariant
            0 <= k <= v.len(),
            indices_in(v@, symbols@),
            first_holding(symbols@, v@, line as int, k as int) is None,
        decreases v.len() - k,
    {
        let s = &symbols[v[k]];
        if s.start_line <= line && s.end_line >= line {
            proof {
                assert(first_holding(symbols@, v@, line as int, k + 1) == Some(v@[k as int]));
                lemma_first_holding_stays(symbols@, v@, line as int, k + 1);
            }
            return Some(v[k]);
        }
        k = k + 1;
    }
    None
}

pub proof fn lemma_first_holding_stays(syms: Seq<Symbol>, v: Seq<usize>, line: int, n: int)
    requires
        0 <= n <= v.len(),
    ensures
        first_holding(syms, v, line, n) is Some ==> first_holding(syms, v, line, v.len() as int)
            == first_holding(syms, v, line, n),
    decreases v.len() - n,
{
    if n < v.len() {
        lemma_first_holding_stays(syms, v, line, n + 1);
    }
}

// ---------------------------------------------------------------------------
// Call edges
// ---------------------------------------------------------------------------

/// The first candidate defined in file `fp`.
pub open spec fn first_in_file(syms: Seq<Symbol>, cs: Seq<usize>, fp: Seq<char>, n: int) -> Option<usize>
    decreases n,
{
    if n <= 0 {
        None
    } else {
        match first_in_file(syms, cs, fp, n - 1) {
            Some(x) => Some(x),
            None => if syms[cs[n - 1] as int].file_path@ == fp {
                Some(cs[n - 1])
            } else {
                None
            },
        }
    }
}

/// Links `src` to each of the first `n` candidates in turn.
pub open spec fn link_all(
    es: Seq<EdgeView>,
    src: Seq<char>,
    syms: Seq<Symbol>,
    cs: Seq<usize>,
    k: EdgeType,
    c: u8,
    n: int,
) -> Seq<EdgeView>
    decreases n,
{
    if n <= 0 {
        es
    } else {
        link(link_all(es, src, syms, cs, k, c, n - 1), src, syms[cs[n - 1] as int].id@, k, c)
    }
}

/// A call's edges: from its caller to the first candidate of the caller's
/// file with full confidence, or, when there is none, to every candidate
/// with half confidence. A call outside every symbol adds nothing.
pub open spec fn call_step(
    es: Seq<EdgeView>,
    syms: Seq<Symbol>,
    imports: Seq<ImportView>,
    path: Seq<char>,
    c: CallView,
) -> Seq<EdgeView> {
    match caller_of(syms, path, c.1) {
        None => es,
        Some(ci) => {
            let caller = syms[ci as int];
            let cs = candidates(syms, imports, c);
            match first_in_file(syms, cs, caller.file_path@, cs.len() as int) {
                Some(t) => link(es, caller.id@, syms[t as int].id@, EdgeType::Calls, 100),
                None => link_all(es, caller.id@, syms, cs, EdgeType::Calls, 50, cs.len() as int),
            }
        },
    }
}

pub open spec fn calls_upto(
    es: Seq<EdgeView>,
    syms: Seq<Symbol>,
    imports: Seq<ImportView>,
    path: Seq<char>,
    calls: Seq<CallView>,
    n: int,
) -> Seq<EdgeView>
    decreases n,
{
    if n <= 0 {
        es
    } else {
        call_step(calls_upto(es, syms, imports, path, calls, n - 1), syms, imports, path, calls[n - 1])
    }
}

fn link_all_exec(
    graph: &mut CodeGraph,
    src: &NodeId,
    symbols: &[Symbol],
    cs: &Vec<usize>,
    kind: EdgeType,
    confidence: u8,
)
    requires
        indices_in(cs@, symbols@),
    ensures
        final(graph).nodes@ == old(graph).nodes@,
        edge_views(final(graph).edges@) == link_all(
            edge_views(old(graph).edges@),
            src@,
            symbols@,
            cs@,
            kind,
            confidence,
            cs@.len() as int,
        ),
{
    let mut k: usize = 0;
    while k < cs.len()
        invariant
            0 <= k <= cs.len(),
            indices_in(cs@, symbols@),
            graph.nodes@ == old(graph).nodes@,
            edge_views(graph.edges@) == link_all(
                edge_views(old(graph).edges@),
                src@,
                symbols@,
                cs@,
                kind,
                confidence,
                k as int,
            ),
        decreases cs.len() - k,
    {
        let t = NodeId(symbols[cs[k]].id.clone());
        graph.link(src, &t, kind, confidence);
        k = k + 1;
    }
}

fn first_in_file_exec(symbols: &[Symbol], cs: &Vec<usize>, fp: &String) -> (r: Option<usize>)
    requires
        indices_in(cs@, symbols@),
    ensures
        r == first_in_file(symbols@, cs@, fp@, cs@.len() as int),
        r matches Some(x) ==> x < symbols@.len(),
{
    let mut k: usize = 0;
    while k < cs.len()
        invariant
            0 <= k <= cs.len(),
            indices_in(cs@, symbols@),
            first_in_file(symbols@, cs@, fp@, k as int) is None,
        decreases cs.len() - k,
    {
        if crate::graph::string_eq(&symbols[cs[k]].file_path, fp) {
            proof {
                assert(first_in_file(symbols@, cs@, fp@, k + 1) == Some(cs@[k as int]));
                lemma_first_in_file_stays(symbols@, cs@, fp@, k + 1);
            }
            return Some(cs[k]);
        }
        k = k + 1;
    }
    None
}

pub proof fn lemma_first_in_file_stays(syms: Seq<Symbol>, cs: Seq<usize>, fp: Seq<char>, n: int)
    requires
        0 <= n <= cs.len(),
    ensures
        first_in_file(syms, cs, fp, n) is Some ==> first_in_file(syms, cs, fp, cs.len() as int)
            == first_in_file(syms, cs, fp, n),
    decreases cs.len() - n,
{
    if n < cs.len() {
        lemma_first_in_file_stays(syms, cs, fp, n + 1);
    }
}

fn call_step_exec(
    graph: &mut CodeGraph,
    symbols: &[Symbol],
    imports: &Vec<ImportRef>,
    in_file: &Vec<usize>,
    path: &String,
    c: &CallHit,
)
    requires
        in_file@ == file_symbols(symbols@, path@),
        indices_in(in_file@, symbols@),
    ensures
        final(graph).nodes@ == old(graph).nodes@,
        edge_views(final(graph).edges@) == call_step(
            edge_views(old(graph).edges@),
            symbols@,
            import_views(imports@),
            path@,
            crate::refs::call_view(*c),
        ),
{
    match first_holding_exec(symbols, in_file, c.line) {
        None => {},
        Some(ci) => {
            let caller = &symbols[ci];
            let cs = candidates_exec(symbols, imports, c);
            let src = NodeId(caller.id.clone());
            match first_in_file_exec(symbols, &cs, &caller.file_path) {
                Some(t) => {
                    let dst = NodeId(symbols[t].id.clone());
                    graph.link(&src, &dst, EdgeType::Calls, 100);
                },
                None => {
                    link_all_exec(graph, &src, symbols, &cs, EdgeType::Calls, 50);
                },
            }
        },
    }
}

// ---------------------------------------------------------------------------
// Import edges
// ---------------------------------------------------------------------------

/// The file node, among the first `n` nodes, last found with stem `stem`.
pub open spec fn file_by_stem(ns: Seq<NodeView>, stem: Seq<char>, n: int) -> Option<Seq<char>>
    decreases n,
{
    if n <= 0 {
        None
    } else {
        let x = ns[n - 1];
        if x.1 == NodeType::File && x.5 is Some && std_path_file_stem(x.5->0) == Some(stem) {
            Some(x.0)
        } else {
            file_by_stem(ns, stem, n - 1)
        }
    }
}

/// An import's edges from the importing file: to the file whose stem is the
/// module's last dotted part, and, for an alias, to every symbol registered
/// under it.
pub open spec fn import_step(
    es: Seq<EdgeView>,
    ns: Seq<NodeView>,
    syms: Seq<Symbol>,
    path: Seq<char>,
    imp: ImportView,
) -> Seq<EdgeView> {
    let stem = crate::refs::last_piece(imp.0, '.');
    let es1 = match file_by_stem(ns, stem, ns.len() as int) {
        Some(f) => link(es, path, f, EdgeType::Imports, 100),
        None => es,
    };
    match imp.1 {
        Some(a) => {
            let ts = lookup(syms, a);
            link_all(es1, path, syms, ts, EdgeType::Imports, 100, ts.len() as int)
        },
        None => es1,
    }
}

pub open spec fn imports_upto(
    es: Seq<EdgeView>,
    ns: Seq<NodeView>,
    syms: Seq<Symbol>,
    path: Seq<char>,
    imps: Seq<ImportView>,
    n: int,
) -> Seq<EdgeView>
    decreases n,
{
    if n <= 0 {
        es
    } else {
        import_step(imports_upto(es, ns, syms, path, imps, n - 1), ns, syms, path, imps[n - 1])
    }
}

fn file_by_stem_exec(graph: &CodeGraph, stem: &[char]) -> (r: Option<NodeId>)
    ensures
        match r {
            Some(f) => file_by_stem(node_views(graph.nodes@), stem@, graph.nodes@.len() as int)
                == Some(f@),
            None => file_by_stem(node_views(graph.nodes@), stem@, graph.nodes@.len() as int) is None,
        },
{
    let ghost ns = node_views(graph.nodes@);
    let mut i: usize = graph.nodes.len();
    while i > 0
        invariant
            0 <= i <= graph.nodes.len(),
            ns == node_views(graph.nodes@),
            file_by_stem(ns, stem@, graph.nodes@.len() as int) == file_by_stem(ns, stem@, i as int),
        decreases i,
    {
        let n = &graph.nodes[i - 1];
        assert(ns[i - 1] == n@);
        if n.kind == NodeType::File {
            match &n.file_path {
                Some(p) => {
                    match path_file_stem(p.as_str()) {
                        Some(st) => {
                            let sc = chars_of(st.as_str());
                            if crate::text::seq_eq(sc.as_slice(), stem) {
                                return Some(n.id.clone());
                            }
                        },
                        None => {},
                    }
                },
                None => {},
            }
        }
        i = i - 1;
    }
    None
}

fn import_step_exec(graph: &mut CodeGraph, symbols: &[Symbol], path: &String, imp: &ImportRef)
    ensures
        final(graph).nodes@ == old(graph).nodes@,
        edge_views(final(graph).edges@) == import_step(
            edge_views(old(graph).edges@),
            node_views(old(graph).nodes@),
            symbols@,
            path@,
            crate::refs::import_view(*imp),
        ),
{
    let module = chars_of(imp.module.as_str());
    let stem = crate::refs::last_piece_exec(module.as_slice(), '.');
    let src = NodeId(path.clone());
    match file_by_stem_exec(graph, stem.as_slice()) {
        Some(f) => {
            graph.link(&src, &f, EdgeType::Imports, 100);
        },
        None => {},
    }
    match &imp.alias {
        Some(a) => {
            let ac = chars_of(a.as_str());
            let ts = lookup_exec(symbols, ac.as_slice());
            link_all_exec(graph, &src, symbols, &ts, EdgeType::Imports, 100);
        },
        None => {},
    }
}

// ---------------------------------------------------------------------------
// Calls and imports of every file
// ---------------------------------------------------------------------------

/// A file to link: its path, language and text.
pub type FileView = (Seq<char>, Language, Seq<char>);

pub open spec fn file_view(f: (String, Language, String)) -> FileView {
    (f.0@, f.1, f.2@)
}

/// One file's call and import edges.
pub open spec fn file_links(es: Seq<EdgeView>, ns: Seq<NodeView>, syms: Seq<Symbol>, f: FileView) -> Seq<EdgeView> {
    let imps = imports_of(f.2, f.1);
    let calls = calls_of(f.2, f.1);
    let es1 = calls_upto(es, syms, imps, f.0, calls, calls.len() as int);
    imports_upto(es1, ns, syms, f.0, imps, imps.len() as int)
}

pub open spec fn files_upto(
    es: Seq<EdgeView>,
    ns: Seq<NodeView>,
    syms: Seq<Symbol>,
    files: Seq<FileView>,
    n: int,
) -> Seq<EdgeView>
    decreases n,
{
    if n <= 0 {
        es
    } else {
        file_links(files_upto(es, ns, syms, files, n - 1), ns, syms, files[n - 1])
    }
}

fn file_links_exec(graph: &mut CodeGraph, symbols: &[Symbol], f: &(String, Language, String))
    requires
        symbols@.len() <= usize::MAX,
    ensures
        final(graph).nodes@ == old(graph).nodes@,
        edge_views(final(graph).edges@) == file_links(
            edge_views(old(graph).edges@),
            node_views(old(graph).nodes@),
            symbols@,
            file_view(*f),
        ),
{
    let path = &f.0;
    let language = f.1;
    let content = f.2.as_str();
    let calls = extract_call_names(content, language);
    let imports = extract_import_refs(content, language);
    let pc = chars_of(path.as_str());
    let in_file = file_symbols_exec(symbols, pc.as_slice());
    let ghost es0 = edge_views(graph.edges@);
    let ghost ns0 = node_views(graph.nodes@);
    let ghost iv = import_views(imports@);
    let ghost cv = call_views(calls@);
    let mut i: usize = 0;
    while i < calls.len()
        invariant
            0 <= i <= calls.len(),
            in_file@ == file_symbols(symbols@, path@),
            indices_in(in_file@, symbols@),
            iv == import_views(imports@),
            cv == call_views(calls@),
            graph.nodes@ == old(graph).nodes@,
            edge_views(graph.edges@) == calls_upto(es0, symbols@, iv, path@, cv, i as int),
        decreases calls.len() - i,
    {
        call_step_exec(graph, symbols, &imports, &in_file, path, &calls[i]);
        i = i + 1;
    }
    let ghost es1 = edge_views(graph.edges@);
    let mut i: usize = 0;
    while i < imports.len()
        invariant
            0 <= i <= imports.len(),
            iv == import_views(imports@),
            graph.nodes@ == old(graph).nodes@,
            ns0 == node_views(graph.nodes@),
            edge_views(graph.edges@) == imports_upto(es1, ns0, symbols@, path@, iv, i as int),
        decreases imports.len() - i,
    {
        import_step_exec(graph, symbols, path, &imports[i]);
        i = i + 1;
    }
}

// ---------------------------------------------------------------------------
// Data flow
// ---------------------------------------------------------------------------

/// The identifier of a variable's definition (`suffix` `:var`) or use
/// (`:use`): `path:name:line` followed by the suffix.
pub open spec fn var_id(path: Seq<char>, name: Seq<char>, line: usize, suffix: Seq<char>) -> Seq<char> {
    path + ":"@ + name + ":"@ + crate::text::decimal(line as nat) + suffix
}

pub open spec fn var_node(id: Seq<char>, name: Seq<char>, language: Language, path: Seq<char>, line: usize) -> NodeView {
    (id, NodeType::Variable, name, None, Some(language), Some(path), line, line, seq![])
}

/// The nodes with `n` added unless its identifier is present.
pub open spec fn ensure_node(ns: Seq<NodeView>, n: NodeView) -> Seq<NodeView> {
    if vhas(ns, n.0) {
        ns
    } else {
        ns.push(n)
    }
}

/// A name and the 1-indexed line it is on.
pub type Item = (Seq<char>, usize);

/// The variables defined on lines `start .. start + k` (0-indexed), each
/// with its 1-indexed line.
pub open spec fn def_items(ls: Seq<Seq<char>>, language: Language, start: int, k: int) -> Seq<Item>
    decreases k,
{
    if k <= 0 {
        seq![]
    } else {
        def_items(ls, language, start, k - 1) + crate::refs::defs_of(ls[start + k - 1], language).map_values(
            |d: Seq<char>| (d, (start + k) as usize),
        )
    }
}

/// The names used on lines `start .. start + k`, each with its line.
pub open spec fn use_items(ls: Seq<Seq<char>>, start: int, k: int) -> Seq<Item>
    decreases k,
{
    if k <= 0 {
        seq![]
    } else {
        use_items(ls, start, k - 1) + crate::refs::uses_of(ls[start + k - 1]).map_values(
            |d: Seq<char>| (d, (start + k) as usize),
        )
    }
}

/// A use of a defined variable: the use's node, a data-flow edge from the
/// definition to it and its membership in the function.
pub open spec fn use_step(g: GraphView, path: Seq<char>, func: Symbol, vid: Seq<char>, u: Item) -> GraphView {
    let uid = var_id(path, u.0, u.1, ":use"@);
    let ns = ensure_node(g.0, var_node(uid, u.0, func.language, path, u.1));
    let es = link(
        link(g.1, vid, uid, EdgeType::DataFlow, 100),
        uid,
        func.id@,
        EdgeType::MemberOf,
        100,
    );
    (ns, es)
}

/// The uses among the first `n` that name `name`, applied in order.
pub open spec fn uses_fold(
    g: GraphView,
    path: Seq<char>,
    func: Symbol,
    vid: Seq<char>,
    name: Seq<char>,
    uses: Seq<Item>,
    n: int,
) -> GraphView
    decreases n,
{
    if n <= 0 {
        g
    } else {
        let prev = uses_fold(g, path, func, vid, name, uses, n - 1);
        if uses[n - 1].0 == name {
            use_step(prev, path, func, vid, uses[n - 1])
        } else {
            prev
        }
    }
}

/// A definition: the variable's node, data-flow and membership edges to the
/// function, a definition edge to the file, then its uses.
pub open spec fn def_step(g: GraphView, path: Seq<char>, func: Symbol, uses: Seq<Item>, d: Item) -> GraphView {
    let vid = var_id(path, d.0, d.1, ":var"@);
    let ns = ensure_node(g.0, var_node(vid, d.0, func.language, path, d.1));
    let es = link(
        link(link(g.1, vid, func.id@, EdgeType::DataFlow, 100), vid, path, EdgeType::DefinedIn, 100),
        vid,
        func.id@,
        EdgeType::MemberOf,
        100,
    );
    uses_fold((ns, es), path, func, vid, d.0, uses, uses.len() as int)
}

pub open spec fn defs_fold(
    g: GraphView,
    path: Seq<char>,
    func: Symbol,
    defs: Seq<Item>,
    uses: Seq<Item>,
    n: int,
) -> GraphView
    decreases n,
{
    if n <= 0 {
        g
    } else {
        def_step(defs_fold(g, path, func, defs, uses, n - 1), path, func, uses, defs[n - 1])
    }
}

/// The first line (0-indexed) of a symbol's body.
pub open spec fn body_start(func: Symbol) -> int {
    if func.start_line > 0 {
        func.start_line - 1
    } else {
        0
    }
}

/// The end (exclusive, 0-indexed) of a symbol's body within `n` lines.
pub open spec fn body_end(func: Symbol, n: int) -> int {
    if func.end_line <= n {
        func.end_line as int
    } else {
        n
    }
}

pub open spec fn is_function(func: Symbol) -> bool {
    func.kind == crate::symbols::SymbolKind::Function || func.kind == crate::symbols::SymbolKind::Method
}

/// A function's data flow, read from the lines of its body.
pub open spec fn func_flow(g: GraphView, path: Seq<char>, language: Language, ls: Seq<Seq<char>>, func: Symbol) -> GraphView {
    if is_function(func) {
        let s = body_start(func);
        let e = body_end(func, ls.len() as int);
        let defs = def_items(ls, language, s, e - s);
        let uses = use_items(ls, s, e - s);
        defs_fold(g, path, func, defs, uses, defs.len() as int)
    } else {
        g
    }
}

pub open spec fn funcs_fold(
    g: GraphView,
    syms: Seq<Symbol>,
    v: Seq<usize>,
    path: Seq<char>,
    language: Language,
    ls: Seq<Seq<char>>,
    n: int,
) -> GraphView
    decreases n,
{
    if n <= 0 {
        g
    } else {
        func_flow(funcs_fold(g, syms, v, path, language, ls, n - 1), path, language, ls, syms[v[n - 1] as int])
    }
}

/// One file's data flow: its symbols by start line, each function in turn.
pub open spec fn file_flow(g: GraphView, syms: Seq<Symbol>, f: FileView) -> GraphView {
    let v = file_symbols(syms, f.0);
    let ls = crate::text::lines(f.2);
    funcs_fold(g, syms, v, f.0, f.1, ls, v.len() as int)
}

pub open spec fn flow_upto(g: GraphView, syms: Seq<Symbol>, files: Seq<FileView>, n: int) -> GraphView
    decreases n,
{
    if n <= 0 {
        g
    } else {
        file_flow(flow_upto(g, syms, files, n - 1), syms, files[n - 1])
    }
}

/// Every function's body starts no later than it ends within its file's
/// lines.
pub open spec fn bodies_fit(syms: Seq<Symbol>, files: Seq<FileView>) -> bool {
    forall|i: int, j: int|
        0 <= i < files.len() && 0 <= j < syms.len() && (#[trigger] syms[j]).file_path@ == (
        #[trigger] files[i]).0 && is_function(syms[j]) ==> body_start(syms[j]) <= body_end(
            syms[j],
            crate::text::lines(files[i].2).len() as int,
        )
}

/// The graph after linking calls, imports and data flow of `files`.
pub open spec fn links_spec(g: GraphView, syms: Seq<Symbol>, files: Seq<FileView>) -> GraphView {
    let es = files_upto(g.1, g.0, syms, files, files.len() as int);
    flow_upto((g.0, es), syms, files, files.len() as int)
}

pub open spec fn file_views(files: Seq<(String, Language, String)>) -> Seq<FileView> {
    files.map_values(|f: (String, Language, String)| file_view(f))
}

pub open spec fn items_view(v: Seq<(String, usize)>) -> Seq<Item> {
    v.map_values(|x: (String, usize)| (x.0@, x.1))
}

fn var_id_exec(path: &String, name: &String, line: usize, suffix: &str) -> (r: NodeId)
    ensures
        r@ == var_id(path@, name@, line, suffix@),
{
    let mut id = chars_of(path.as_str());
    let colon = chars_of(":");
    append(&mut id, colon.as_slice());
    let nm = chars_of(name.as_str());
    append(&mut id, nm.as_slice());
    append(&mut id, colon.as_slice());
    let digits = crate::text::decimal_exec(line);
    append(&mut id, digits.as_slice());
    let sf = chars_of(suffix);
    append(&mut id, sf.as_slice());
    NodeId(string_of(id.as_slice()))
}

fn ensure_var_node(graph: &mut CodeGraph, id: &NodeId, name: &String, language: Language, path: &String, line: usize)
    requires
        old(graph).wf(),
    ensures
        final(graph).wf(),
        final(graph).edges@ == old(graph).edges@,
        node_views(final(graph).nodes@) == ensure_node(
            node_views(old(graph).nodes@),
            var_node(id@, name@, language, path@, line),
        ),
{
    proof {
        crate::graph::lemma_unique_views(graph.nodes@);
    }
    if !graph.contains_node(id) {
        let ghost ns = node_views(graph.nodes@);
        proof {
            crate::graph::lemma_vindex_unique(ns, id@);
        }
        let no_chunks: Vec<String> = Vec::new();
        assert(crate::graph::strs(no_chunks@) =~= Seq::<Seq<char>>::empty());
        graph.add_node(
            id.clone(),
            NodeType::Variable,
            name.clone(),
            None,
            Some(language),
            Some(path.clone()),
            line,
            line,
            no_chunks,
        );
        assert(node_views(graph.nodes@) =~= ns.push(var_node(id@, name@, language, path@, line)));
    }
}

fn use_step_exec(graph: &mut CodeGraph, path: &String, func: &Symbol, vid: &NodeId, u: &(String, usize))
    requires
        old(graph).wf(),
    ensures
        final(graph).wf(),
        graph_view(*final(graph)) == use_step(graph_view(*old(graph)), path@, *func, vid@, (u.0@, u.1)),
{
    let uid = var_id_exec(path, &u.0, u.1, ":use");
    ensure_var_node(graph, &uid, &u.0, func.language, path, u.1);
    let fid = NodeId(func.id.clone());
    graph.link(vid, &uid, EdgeType::DataFlow, 100);
    graph.link(&uid, &fid, EdgeType::MemberOf, 100);
}

fn def_step_exec(graph: &mut CodeGraph, path: &String, func: &Symbol, uses: &Vec<(String, usize)>, d: &(String, usize))
    requires
        old(graph).wf(),
    ensures
        final(graph).wf(),
        graph_view(*final(graph)) == def_step(graph_view(*old(graph)), path@, *func, items_view(uses@), (d.0@, d.1)),
{
    let vid = var_id_exec(path, &d.0, d.1, ":var");
    ensure_var_node(graph, &vid, &d.0, func.language, path, d.1);
    let fid = NodeId(func.id.clone());
    let file_id = NodeId(path.clone());
    graph.link(&vid, &fid, EdgeType::DataFlow, 100);
    graph.link(&vid, &file_id, EdgeType::DefinedIn, 100);
    graph.link(&vid, &fid, EdgeType::MemberOf, 100);
    let ghost g1 = graph_view(*graph);
    let ghost uv = items_view(uses@);
    let mut j: usize = 0;
    while j < uses.len()
        invariant
            0 <= j <= uses.len(),
            graph.wf(),
            uv == items_view(uses@),
            graph_view(*graph) == uses_fold(g1, path@, *func, vid@, d.0@, uv, j as int),
        decreases uses.len() - j,
    {
        let u = &uses[j];
        if crate::graph::string_eq(&u.0, &d.0) {
            use_step_exec(graph, path, func, &vid, u);
        }
        j = j + 1;
    }
}

/// Collects the items of one line, each with line number `line_no`.
fn push_items(out: &mut Vec<(String, usize)>, names: Vec<String>, line_no: usize)
    ensures
        items_view(final(out)@) == items_view(old(out)@) + crate::graph::strs(names@).map_values(
            |d: Seq<char>| (d, line_no),
        ),
{
    let mut k: usize = 0;
    while k < names.len()
        invariant
            0 <= k <= names.len(),
            items_view(out@) == items_view(old(out)@) + crate::graph::strs(names@).take(k as int).map_values(
                |d: Seq<char>| (d, line_no),
            ),
        decreases names.len() - k,
    {
        let ghost before = items_view(out@);
        out.push((names[k].clone(), line_no));
        assert(items_view(out@) =~= before.push((names@[k as int]@, line_no)));
        assert(crate::graph::strs(names@).take(k + 1) =~= crate::graph::strs(names@).take(k as int).push(names@[k as int]@));
        k = k + 1;
        assert(items_view(out@) =~= items_view(old(out)@) + crate::graph::strs(names@).take(k as int).map_values(
            |d: Seq<char>| (d, line_no),
        ));
    }
    assert(crate::graph::strs(names@).take(names@.len() as int) =~= crate::graph::strs(names@));
}

fn func_flow_exec(graph: &mut CodeGraph, path: &String, language: Language, ls: &Vec<Vec<char>>, func: &Symbol)
    requires
        old(graph).wf(),
        is_function(*func) ==> body_start(*func) <= body_end(*func, ls@.len() as int),
    ensures
        final(graph).wf(),
        graph_view(*final(graph)) == func_flow(graph_view(*old(graph)), path@, language, crate::text::views(ls@), *func),
{
    if !(func.kind == crate::symbols::SymbolKind::Function || func.kind == crate::symbols::SymbolKind::Method) {
        return;
    }
    let ghost lv = crate::text::views(ls@);
    let start: usize = if func.start_line > 0 { func.start_line - 1 } else { 0 };
    let end: usize = if func.end_line <= ls.len() { func.end_line } else { ls.len() };
    let mut defs: Vec<(String, usize)> = Vec::new();
    let mut uses: Vec<(String, usize)> = Vec::new();
    let mut idx: usize = start;
    while idx < end
        invariant
            start <= idx <= end <= ls@.len(),
            lv == crate::text::views(ls@),
            items_view(defs@) == def_items(lv, language, start as int, idx - start),
            items_view(uses@) == use_items(lv, start as int, idx - start),
        decreases end - idx,
    {
        let line = string_of(ls[idx].as_slice());
        let (d, u) = crate::refs::tokenize_defs_and_uses(line.as_str(), language);
        push_items(&mut defs, d, idx + 1);
        push_items(&mut uses, u, idx + 1);
        idx = idx + 1;
    }
    let ghost g0 = graph_view(*graph);
    let ghost dv = items_view(defs@);
    let ghost uv = items_view(uses@);
    let mut k: usize = 0;
    while k < defs.len()
        invariant
            0 <= k <= defs.len(),
            graph.wf(),
            dv == items_view(defs@),
            uv == items_view(uses@),
            graph_view(*graph) == defs_fold(g0, path@, *func, dv, uv, k as int),
        decreases defs.len() - k,
    {
        def_step_exec(graph, path, func, &uses, &defs[k]);
        k = k + 1;
    }
}

fn file_flow_exec(graph: &mut CodeGraph, symbols: &[Symbol], f: &(String, Language, String))
    requires
        old(graph).wf(),
        symbols@.len() <= usize::MAX,
        forall|j: int|
            0 <= j < symbols@.len() && (#[trigger] symbols@[j]).file_path@ == f.0@ && is_function(symbols@[j])
                ==> body_start(symbols@[j]) <= body_end(symbols@[j], crate::text::lines(f.2@).len() as int),
    ensures
        final(graph).wf(),
        graph_view(*final(graph)) == file_flow(graph_view(*old(graph)), symbols@, file_view(*f)),
{
    let path = &f.0;
    let pc = chars_of(path.as_str());
    let v = file_symbols_exec(symbols, pc.as_slice());
    proof {
        lemma_file_symbols_upto(symbols@, path@, symbols@.len() as int);
    }
    let cs = chars_of(f.2.as_str());
    let ls = lines_exec_of(cs.as_slice());
    let ghost g0 = graph_view(*graph);
    let mut k: usize = 0;
    while k < v.len()
        invariant
            0 <= k <= v.len(),
            graph.wf(),
            v@ == file_symbols(symbols@, path@),
            indices_in(v@, symbols@),
            crate::text::views(ls@) == crate::text::lines(f.2@),
            ls@.len() == crate::text::lines(f.2@).len(),
            path@ == f.0@,
            forall|t: int| 0 <= t < v@.len() ==> symbols@[#[trigger] v@[t] as int].file_path@ == path@,
            forall|j: int|
                0 <= j < symbols@.len() && (#[trigger] symbols@[j]).file_path@ == f.0@ && is_function(symbols@[j])
                    ==> body_start(symbols@[j]) <= body_end(symbols@[j], crate::text::lines(f.2@).len() as int),
            graph_view(*graph) == funcs_fold(g0, symbols@, v@, path@, f.1, crate::text::lines(f.2@), k as int),
        decreases v.len() - k,
    {
        let func = &symbols[v[k]];
        assert(func.file_path@ == path@);
        assert(symbols@[v@[k as int] as int] == *func);
        assert(is_function(*func) ==> body_start(*func) <= body_end(*func, ls@.len() as int)) by {
            let j = v@[k as int] as int;
            assert(0 <= j < symbols@.len());
            assert(symbols@[j].file_path@ == f.0@);
        }
        func_flow_exec(graph, path, f.1, &ls, func);
        k = k + 1;
    }
}

fn lines_exec_of(cs: &[char]) -> (r: Vec<Vec<char>>)
    ensures
        crate::text::views(r@) == crate::text::lines(cs@),
        r@.len() == crate::text::lines(cs@).len(),
{
    crate::text::lines_exec(cs)
}

/// Checks that every function's body starts no later than it ends within
/// its file's lines, the condition under which calls, imports and data flow
/// can be linked.
pub fn bodies_fit_check(symbols: &[Symbol], files: &[(String, Language, String)]) -> (b: bool)
    ensures
        b == bodies_fit(symbols@, file_views(files@)),
{
    let ghost fv = file_views(files@);
    let mut i: usize = 0;
    while i < files.len()
        invariant
            0 <= i <= files.len(),
            fv == file_views(files@),
            forall|a: int, j: int|
                0 <= a < i && 0 <= j < symbols@.len() && (#[trigger] symbols@[j]).file_path@ == (
                #[trigger] fv[a]).0 && is_function(symbols@[j]) ==> body_start(symbols@[j]) <= body_end(
                    symbols@[j],
                    crate::text::lines(fv[a].2).len() as int,
                ),
        decreases files.len() - i,
    {
        let f = &files[i];
        assert(fv[i as int] == file_view(*f));
        let cs = chars_of(f.2.as_str());
        let n = lines_exec_of(cs.as_slice()).len();
        let mut j: usize = 0;
        while j < symbols.len()
            invariant
                0 <= i < files.len(),
                0 <= j <= symbols.len(),
                fv == file_views(files@),
                fv[i as int] == file_view(*f),
                n == crate::text::lines(fv[i as int].2).len(),
                forall|a: int, k: int|
                    0 <= a < i && 0 <= k < symbols@.len() && (#[trigger] symbols@[k]).file_path@ == (
                    #[trigger] fv[a]).0 && is_function(symbols@[k]) ==> body_start(symbols@[k]) <= body_end(
                        symbols@[k],
                        crate::text::lines(fv[a].2).len() as int,
                    ),
                forall|k: int|
                    0 <= k < j && (#[trigger] symbols@[k]).file_path@ == fv[i as int].0 && is_function(symbols@[k])
                        ==> body_start(symbols@[k]) <= body_end(symbols@[k], n as int),
            decreases symbols.len() - j,
        {
            let s = &symbols[j];
            let func = s.kind == crate::symbols::SymbolKind::Function || s.kind == crate::symbols::SymbolKind::Method;
            if func && crate::graph::string_eq(&s.file_path, &f.0) {
                let start: usize = if s.start_line > 0 {
                    s.start_line - 1
                } else {
                    0
                };
                let end: usize = if s.end_line <= n {
                    s.end_line
                } else {
                    n
                };
                if start > end {
                    assert(symbols@[j as int].file_path@ == fv[i as int].0);
                    assert(!bodies_fit(symbols@, fv));
                    return false;
                }
            }
            j = j + 1;
        }
        i = i + 1;
    }
    true
}

impl crate::builder::GraphBuilder {
    /// Adds, for every file: call edges from the symbol that makes each call
    /// to the callees it may resolve to, and import edges from the file to
    /// the files and symbols it imports; then, for every function of every
    /// file, variable nodes for its definitions and uses with data-flow,
    /// definition and membership edges. No edge is added twice.
    pub fn build_calls_and_imports(graph: &mut CodeGraph, symbols: &[Symbol], files: &[(String, Language, String)])
        requires
            old(graph).wf(),
            bodies_fit(symbols@, file_views(files@)),
        ensures
            final(graph).wf(),
            graph_view(*final(graph)) == links_spec(graph_view(*old(graph)), symbols@, file_views(files@)),
    {
        let ghost g0 = graph_view(*graph);
        let ghost fv = file_views(files@);
        let n = symbols.len();
        let mut i: usize = 0;
        while i < files.len()
            invariant
                0 <= i <= files.len(),
                n == symbols@.len(),
                graph.wf(),
                fv == file_views(files@),
                node_views(graph.nodes@) == g0.0,
                edge_views(graph.edges@) == files_upto(g0.1, g0.0, symbols@, fv, i as int),
            decreases files.len() - i,
        {
            file_links_exec(graph, symbols, &files[i]);
            i = i + 1;
        }
        let ghost g1 = graph_view(*graph);
        let mut i: usize = 0;
        while i < files.len()
            invariant
                0 <= i <= files.len(),
                n == symbols@.len(),
                graph.wf(),
                fv == file_views(files@),
                bodies_fit(symbols@, fv),
                graph_view(*graph) == flow_upto(g1, symbols@, fv, i as int),
            decreases files.len() - i,
        {
            let f = &files[i];
            assert(fv[i as int] == file_view(*f));
            assert forall|j: int|
                0 <= j < symbols@.len() && (#[trigger] symbols@[j]).file_path@ == f.0@ && is_function(symbols@[j])
                    implies body_start(symbols@[j]) <= body_end(symbols@[j], crate::text::lines(f.2@).len() as int) by {
                assert(fv[i as int].0 == f.0@);
            }
            file_flow_exec(graph, symbols, f);
            i = i + 1;
        }
    }
}

// ---------------------------------------------------------------------------
// Growth
// ---------------------------------------------------------------------------

/// `b` extends the edges `a`: `a` is a prefix, keys stay unique, and no
/// added edge shares its source, target and kind with another edge.
pub open spec fn egrows(a: Seq<EdgeView>, b: Seq<EdgeView>) -> bool {
    &&& a.is_prefix_of(b)
    &&& (keys_unique(a) ==> keys_unique(b))
    &&& crate::graph::fresh_from(b, a.len() as int)
}

/// `b` extends the graph `a`: nodes and edges are prefixes, node
/// identifiers and edge keys stay unique, and every added node is a
/// variable.
pub open spec fn grows(a: GraphView, b: GraphView) -> bool {
    &&& egrows(a.1, b.1)
    &&& a.0.is_prefix_of(b.0)
    &&& (crate::graph::vunique(a.0) ==> crate::graph::vunique(b.0))
    &&& forall|i: int| a.0.len() <= i < b.0.len() ==> (#[trigger] b.0[i]).1 == NodeType::Variable
}

pub proof fn lemma_egrows_trans(a: Seq<EdgeView>, b: Seq<EdgeView>, c: Seq<EdgeView>)
    requires
        egrows(a, b),
        egrows(b, c),
    ensures
        egrows(a, c),
{
    assert forall|i: int| 0 <= i < a.len() implies a[i] == c[i] by {
        assert(a[i] == b[i]);
    }
    crate::graph::lemma_fresh_trans(a, b, c);
}

pub proof fn lemma_grows_trans(a: GraphView, b: GraphView, c: GraphView)
    requires
        grows(a, b),
        grows(b, c),
    ensures
        grows(a, c),
{
    lemma_egrows_trans(a.1, b.1, c.1);
    assert forall|i: int| 0 <= i < a.0.len() implies a.0[i] == c.0[i] by {
        assert(a.0[i] == b.0[i]);
    }
    assert forall|i: int| a.0.len() <= i < c.0.len() implies (#[trigger] c.0[i]).1 == NodeType::Variable by {
        if i < b.0.len() {
            assert(c.0[i] == b.0[i]);
        }
    }
}

pub proof fn lemma_link_grows(es: Seq<EdgeView>, s: Seq<char>, t: Seq<char>, k: EdgeType, c: u8)
    ensures
        egrows(es, link(es, s, t, k, c)),
{
    lemma_link(es, s, t, k, c);
}

pub proof fn lemma_link_all_grows(
    es: Seq<EdgeView>,
    src: Seq<char>,
    syms: Seq<Symbol>,
    cs: Seq<usize>,
    k: EdgeType,
    c: u8,
    n: int,
)
    ensures
        egrows(es, link_all(es, src, syms, cs, k, c, n)),
    decreases n,
{
    if n > 0 {
        lemma_link_all_grows(es, src, syms, cs, k, c, n - 1);
        let p = link_all(es, src, syms, cs, k, c, n - 1);
        lemma_link_grows(p, src, syms[cs[n - 1] as int].id@, k, c);
        lemma_egrows_trans(es, p, link_all(es, src, syms, cs, k, c, n));
    }
}

pub proof fn lemma_calls_grow(
    es: Seq<EdgeView>,
    syms: Seq<Symbol>,
    imports: Seq<ImportView>,
    path: Seq<char>,
    calls: Seq<CallView>,
    n: int,
)
    ensures
        egrows(es, calls_upto(es, syms, imports, path, calls, n)),
    decreases n,
{
    if n > 0 {
        lemma_calls_grow(es, syms, imports, path, calls, n - 1);
        let p = calls_upto(es, syms, imports, path, calls, n - 1);
        let c = calls[n - 1];
        match caller_of(syms, path, c.1) {
            None => {},
            Some(ci) => {
                let caller = syms[ci as int];
                let cs = candidates(syms, imports, c);
                match first_in_file(syms, cs, caller.file_path@, cs.len() as int) {
                    Some(t) => lemma_link_grows(p, caller.id@, syms[t as int].id@, EdgeType::Calls, 100),
                    None => lemma_link_all_grows(p, caller.id@, syms, cs, EdgeType::Calls, 50, cs.len() as int),
                }
            },
        }
        lemma_egrows_trans(es, p, calls_upto(es, syms, imports, path, calls, n));
    }
}

pub proof fn lemma_imports_grow(
    es: Seq<EdgeView>,
    ns: Seq<NodeView>,
    syms: Seq<Symbol>,
    path: Seq<char>,
    imps: Seq<ImportView>,
    n: int,
)
    ensures
        egrows(es, imports_upto(es, ns, syms, path, imps, n)),
    decreases n,
{
    if n > 0 {
        lemma_imports_grow(es, ns, syms, path, imps, n - 1);
        let p = imports_upto(es, ns, syms, path, imps, n - 1);
        let imp = imps[n - 1];
        let stem = crate::refs::last_piece(imp.0, '.');
        let es1 = match file_by_stem(ns, stem, ns.len() as int) {
            Some(f) => link(p, path, f, EdgeType::Imports, 100),
            None => p,
        };
        match file_by_stem(ns, stem, ns.len() as int) {
            Some(f) => lemma_link_grows(p, path, f, EdgeType::Imports, 100),
            None => {},
        }
        match imp.1 {
            Some(a) => {
                let ts = lookup(syms, a);
                lemma_link_all_grows(es1, path, syms, ts, EdgeType::Imports, 100, ts.len() as int);
                lemma_egrows_trans(p, es1, import_step(p, ns, syms, path, imp));
            },
            None => {},
        }
        lemma_egrows_trans(es, p, imports_upto(es, ns, syms, path, imps, n));
    }
}

pub proof fn lemma_files_grow(es: Seq<EdgeView>, ns: Seq<NodeView>, syms: Seq<Symbol>, files: Seq<FileView>, n: int)
    ensures
        egrows(es, files_upto(es, ns, syms, files, n)),
    decreases n,
{
    if n > 0 {
        lemma_files_grow(es, ns, syms, files, n - 1);
        let p = files_upto(es, ns, syms, files, n - 1);
        let f = files[n - 1];
        let imps = imports_of(f.2, f.1);
        let calls = calls_of(f.2, f.1);
        lemma_calls_grow(p, syms, imps, f.0, calls, calls.len() as int);
        let es1 = calls_upto(p, syms, imps, f.0, calls, calls.len() as int);
        lemma_imports_grow(es1, ns, syms, f.0, imps, imps.len() as int);
        lemma_egrows_trans(p, es1, file_links(p, ns, syms, f));
        lemma_egrows_trans(es, p, files_upto(es, ns, syms, files, n));
    }
}

pub proof fn lemma_ensure_node_grows(ns: Seq<NodeView>, n: NodeView)
    ensures
        ns.is_prefix_of(ensure_node(ns, n)),
        forall|i: int| ns.len() <= i < ensure_node(ns, n).len() ==> #[trigger] ensure_node(ns, n)[i] == n,
        crate::graph::vunique(ns) ==> crate::graph::vunique(ensure_node(ns, n)),
        vhas(ensure_node(ns, n), n.0),
{
    let r = ensure_node(ns, n);
    if !vhas(ns, n.0) {
        assert(r[ns.len() as int].0 == n.0);
        if crate::graph::vunique(ns) {
            assert forall|a: int, b: int|
                0 <= a < r.len() && 0 <= b < r.len() && a != b implies #[trigger] r[a].0
                != #[trigger] r[b].0 by {
                let m = ns.len() as int;
                if a < m && b < m {
                    assert(ns[a].0 != ns[b].0);
                } else if a == m {
                    assert(r[b] == ns[b]);
                } else {
                    assert(r[a] == ns[a]);
                }
            }
        }
    }
}

pub proof fn lemma_use_grows(g: GraphView, path: Seq<char>, func: Symbol, vid: Seq<char>, u: Item)
    ensures
        grows(g, use_step(g, path, func, vid, u)),
{
    let uid = var_id(path, u.0, u.1, ":use"@);
    lemma_ensure_node_grows(g.0, var_node(uid, u.0, func.language, path, u.1));
    let e1 = link(g.1, vid, uid, EdgeType::DataFlow, 100);
    lemma_link_grows(g.1, vid, uid, EdgeType::DataFlow, 100);
    lemma_link_grows(e1, uid, func.id@, EdgeType::MemberOf, 100);
    lemma_egrows_trans(g.1, e1, use_step(g, path, func, vid, u).1);
}

pub proof fn lemma_uses_grow(
    g: GraphView,
    path: Seq<char>,
    func: Symbol,
    vid: Seq<char>,
    name: Seq<char>,
    uses: Seq<Item>,
    n: int,
)
    ensures
        grows(g, uses_fold(g, path, func, vid, name, uses, n)),
    decreases n,
{
    if n > 0 {
        lemma_uses_grow(g, path, func, vid, name, uses, n - 1);
        let p = uses_fold(g, path, func, vid, name, uses, n - 1);
        if uses[n - 1].0 == name {
            lemma_use_grows(p, path, func, vid, uses[n - 1]);
            lemma_grows_trans(g, p, uses_fold(g, path, func, vid, name, uses, n));
        }
    } else {
        lemma_grows_refl(g);
    }
}

pub proof fn lemma_grows_refl(g: GraphView)
    ensures
        grows(g, g),
{
}

pub proof fn lemma_def_grows(g: GraphView, path: Seq<char>, func: Symbol, uses: Seq<Item>, d: Item)
    ensures
        grows(g, def_step(g, path, func, uses, d)),
{
    let vid = var_id(path, d.0, d.1, ":var"@);
    lemma_ensure_node_grows(g.0, var_node(vid, d.0, func.language, path, d.1));
    let e1 = link(g.1, vid, func.id@, EdgeType::DataFlow, 100);
    let e2 = link(e1, vid, path, EdgeType::DefinedIn, 100);
    let e3 = link(e2, vid, func.id@, EdgeType::MemberOf, 100);
    lemma_link_grows(g.1, vid, func.id@, EdgeType::DataFlow, 100);
    lemma_link_grows(e1, vid, path, EdgeType::DefinedIn, 100);
    lemma_link_grows(e2, vid, func.id@, EdgeType::MemberOf, 100);
    lemma_egrows_trans(g.1, e1, e2);
    lemma_egrows_trans(g.1, e2, e3);
    let mid = (ensure_node(g.0, var_node(vid, d.0, func.language, path, d.1)), e3);
    lemma_uses_grow(mid, path, func, vid, d.0, uses, uses.len() as int);
    lemma_grows_trans(g, mid, def_step(g, path, func, uses, d));
}

pub proof fn lemma_defs_grow(g: GraphView, path: Seq<char>, func: Symbol, defs: Seq<Item>, uses: Seq<Item>, n: int)
    ensures
        grows(g, defs_fold(g, path, func, defs, uses, n)),
    decreases n,
{
    if n > 0 {
        lemma_defs_grow(g, path, func, defs, uses, n - 1);
        let p = defs_fold(g, path, func, defs, uses, n - 1);
        lemma_def_grows(p, path, func, uses, defs[n - 1]);
        lemma_grows_trans(g, p, defs_fold(g, path, func, defs, uses, n));
    }
}

pub proof fn lemma_funcs_grow(
    g: GraphView,
    syms: Seq<Symbol>,
    v: Seq<usize>,
    path: Seq<char>,
    language: Language,
    ls: Seq<Seq<char>>,
    n: int,
)
    ensures
        grows(g, funcs_fold(g, syms, v, path, language, ls, n)),
    decreases n,
{
    if n > 0 {
        lemma_funcs_grow(g, syms, v, path, language, ls, n - 1);
        let p = funcs_fold(g, syms, v, path, language, ls, n - 1);
        let func = syms[v[n - 1] as int];
        if is_function(func) {
            let st = body_start(func);
            let e = body_end(func, ls.len() as int);
            let defs = def_items(ls, language, st, e - st);
            let uses = use_items(ls, st, e - st);
            lemma_defs_grow(p, path, func, defs, uses, defs.len() as int);
            lemma_grows_trans(g, p, funcs_fold(g, syms, v, path, language, ls, n));
        }
    }
}

pub proof fn lemma_flow_grows(g: GraphView, syms: Seq<Symbol>, files: Seq<FileView>, n: int)
    ensures
        grows(g, flow_upto(g, syms, files, n)),
    decreases n,
{
    if n > 0 {
        lemma_flow_grows(g, syms, files, n - 1);
        let p = flow_upto(g, syms, files, n - 1);
        let f = files[n - 1];
        let v = file_symbols(syms, f.0);
        lemma_funcs_grow(p, syms, v, f.0, f.1, crate::text::lines(f.2), v.len() as int);
        lemma_grows_trans(g, p, flow_upto(g, syms, files, n));
    }
}

/// Linking calls, imports and data flow never removes or reorders a node
/// or an edge, adds only variable nodes, never gives two nodes one
/// identifier, never records two edges with the same source, target and
/// kind when there were none before, and adds no edge whose source, target
/// and kind match those of any other edge, old or new, whatever the graph
/// held before.
pub proof fn law_links_grow(g: GraphView, syms: Seq<Symbol>, files: Seq<FileView>)
    ensures
        grows(g, links_spec(g, syms, files)),
        crate::graph::fresh_from(links_spec(g, syms, files).1, g.1.len() as int),
{
    lemma_files_grow(g.1, g.0, syms, files, files.len() as int);
    let es = files_upto(g.1, g.0, syms, files, files.len() as int);
    lemma_flow_grows((g.0, es), syms, files, files.len() as int);
    lemma_grows_trans(g, (g.0, es), links_spec(g, syms, files));
}


// ---------------------------------------------------------------------------
// Linking twice
// ---------------------------------------------------------------------------

/// Every edge key of `a` is an edge key of `b`.
pub open spec fn keys_within(a: Seq<EdgeView>, b: Seq<EdgeView>) -> bool {
    forall|s: Seq<char>, t: Seq<char>, k: EdgeType| has_edge(a, s, t, k) ==> has_edge(b, s, t, k)
}

/// Every edge key and node identifier of `a` is one of `b`.
pub open spec fn graph_within(a: GraphView, b: GraphView) -> bool {
    &&& keys_within(a.1, b.1)
    &&& forall|id: Seq<char>| vhas(a.0, id) ==> vhas(b.0, id)
}

proof fn lemma_prefix_within(a: Seq<EdgeView>, b: Seq<EdgeView>)
    requires
        a.is_prefix_of(b),
    ensures
        keys_within(a, b),
{
    assert forall|s: Seq<char>, t: Seq<char>, k: EdgeType| has_edge(a, s, t, k) implies has_edge(b, s, t, k) by {
        let w = choose|i: int| 0 <= i < a.len() && #[trigger] a[i].0 == s && a[i].1 == t && a[i].2 == k;
        assert(b[w] == a[w]);
    }
}

proof fn lemma_grows_within(a: GraphView, b: GraphView, c: GraphView)
    requires
        grows(a, b),
        graph_within(b, c),
    ensures
        graph_within(a, c),
{
    lemma_prefix_within(a.1, b.1);
    assert forall|id: Seq<char>| vhas(a.0, id) implies vhas(c.0, id) by {
        let w = choose|i: int| 0 <= i < a.0.len() && #[trigger] a.0[i].0 == id;
        assert(b.0[w] == a.0[w]);
    }
}

proof fn lemma_egrows_within(a: Seq<EdgeView>, b: Seq<EdgeView>, c: Seq<EdgeView>)
    requires
        egrows(a, b),
        keys_within(b, c),
    ensures
        keys_within(a, c),
{
    lemma_prefix_within(a, b);
}

proof fn lemma_link_settled(y: Seq<EdgeView>, g: Seq<EdgeView>, s: Seq<char>, t: Seq<char>, k: EdgeType, c: u8)
    requires
        keys_within(link(y, s, t, k, c), g),
    ensures
        link(g, s, t, k, c) == g,
{
    lemma_link(y, s, t, k, c);
}

proof fn lemma_link_all_settled(
    y: Seq<EdgeView>,
    g: Seq<EdgeView>,
    src: Seq<char>,
    syms: Seq<Symbol>,
    cs: Seq<usize>,
    k: EdgeType,
    c: u8,
    n: int,
)
    requires
        keys_within(link_all(y, src, syms, cs, k, c, n), g),
    ensures
        link_all(g, src, syms, cs, k, c, n) == g,
    decreases n,
{
    if n > 0 {
        let p = link_all(y, src, syms, cs, k, c, n - 1);
        let t = syms[cs[n - 1] as int].id@;
        lemma_link_grows(p, src, t, k, c);
        lemma_egrows_within(p, link_all(y, src, syms, cs, k, c, n), g);
        lemma_link_all_settled(y, g, src, syms, cs, k, c, n - 1);
        lemma_link_settled(p, g, src, t, k, c);
    }
}

proof fn lemma_call_step_grows(es: Seq<EdgeView>, syms: Seq<Symbol>, imports: Seq<ImportView>, path: Seq<char>, c: CallView)
    ensures
        egrows(es, call_step(es, syms, imports, path, c)),
{
    match caller_of(syms, path, c.1) {
        None => {},
        Some(ci) => {
            let caller = syms[ci as int];
            let cs = candidates(syms, imports, c);
            match first_in_file(syms, cs, caller.file_path@, cs.len() as int) {
                Some(t) => lemma_link_grows(es, caller.id@, syms[t as int].id@, EdgeType::Calls, 100),
                None => lemma_link_all_grows(es, caller.id@, syms, cs, EdgeType::Calls, 50, cs.len() as int),
            }
        },
    }
}

proof fn lemma_call_step_settled(
    y: Seq<EdgeView>,
    g: Seq<EdgeView>,
    syms: Seq<Symbol>,
    imports: Seq<ImportView>,
    path: Seq<char>,
    c: CallView,
)
    requires
        keys_within(call_step(y, syms, imports, path, c), g),
    ensures
        call_step(g, syms, imports, path, c) == g,
{
    match caller_of(syms, path, c.1) {
        None => {},
        Some(ci) => {
            let caller = syms[ci as int];
            let cs = candidates(syms, imports, c);
            match first_in_file(syms, cs, caller.file_path@, cs.len() as int) {
                Some(t) => lemma_link_settled(y, g, caller.id@, syms[t as int].id@, EdgeType::Calls, 100),
                None => lemma_link_all_settled(y, g, caller.id@, syms, cs, EdgeType::Calls, 50, cs.len() as int),
            }
        },
    }
}

proof fn lemma_calls_settled(
    y: Seq<EdgeView>,
    g: Seq<EdgeView>,
    syms: Seq<Symbol>,
    imports: Seq<ImportView>,
    path: Seq<char>,
    calls: Seq<CallView>,
    n: int,
)
    requires
        keys_within(calls_upto(y, syms, imports, path, calls, n), g),
    ensures
        calls_upto(g, syms, imports, path, calls, n) == g,
    decreases n,
{
    if n > 0 {
        let p = calls_upto(y, syms, imports, path, calls, n - 1);
        lemma_call_step_grows(p, syms, imports, path, calls[n - 1]);
        lemma_egrows_within(p, calls_upto(y, syms, imports, path, calls, n), g);
        lemma_calls_settled(y, g, syms, imports, path, calls, n - 1);
        lemma_call_step_settled(p, g, syms, imports, path, calls[n - 1]);
    }
}

/// The two node lists find the same file node for every stem.
pub open spec fn same_stems(a: Seq<NodeView>, b: Seq<NodeView>) -> bool {
    forall|stem: Seq<char>| #[trigger] file_by_stem(b, stem, b.len() as int) == file_by_stem(a, stem, a.len() as int)
}

proof fn lemma_import_step_grows(es: Seq<EdgeView>, ns: Seq<NodeView>, syms: Seq<Symbol>, path: Seq<char>, imp: ImportView)
    ensures
        egrows(es, import_step(es, ns, syms, path, imp)),
{
    let stem = crate::refs::last_piece(imp.0, '.');
    let es1 = match file_by_stem(ns, stem, ns.len() as int) {
        Some(f) => link(es, path, f, EdgeType::Imports, 100),
        None => es,
    };
    match file_by_stem(ns, stem, ns.len() as int) {
        Some(f) => lemma_link_grows(es, path, f, EdgeType::Imports, 100),
        None => {},
    }
    match imp.1 {
        Some(a) => {
            let ts = lookup(syms, a);
            lemma_link_all_grows(es1, path, syms, ts, EdgeType::Imports, 100, ts.len() as int);
            lemma_egrows_trans(es, es1, import_step(es, ns, syms, path, imp));
        },
        None => {},
    }
}

proof fn lemma_import_step_settled(
    y: Seq<EdgeView>,
    g: Seq<EdgeView>,
    ns1: Seq<NodeView>,
    ns2: Seq<NodeView>,
    syms: Seq<Symbol>,
    path: Seq<char>,
    imp: ImportView,
)
    requires
        keys_within(import_step(y, ns1, syms, path, imp), g),
        same_stems(ns1, ns2),
    ensures
        import_step(g, ns2, syms, path, imp) == g,
{
    let stem = crate::refs::last_piece(imp.0, '.');
    assert(file_by_stem(ns2, stem, ns2.len() as int) == file_by_stem(ns1, stem, ns1.len() as int));
    let es1 = match file_by_stem(ns1, stem, ns1.len() as int) {
        Some(f) => link(y, path, f, EdgeType::Imports, 100),
        None => y,
    };
    match imp.1 {
        Some(a) => {
            let ts = lookup(syms, a);
            lemma_link_all_grows(es1, path, syms, ts, EdgeType::Imports, 100, ts.len() as int);
            lemma_egrows_within(es1, import_step(y, ns1, syms, path, imp), g);
        },
        None => {},
    }
    match file_by_stem(ns1, stem, ns1.len() as int) {
        Some(f) => lemma_link_settled(y, g, path, f, EdgeType::Imports, 100),
        None => {},
    }
    match imp.1 {
        Some(a) => {
            let ts = lookup(syms, a);
            lemma_link_all_settled(es1, g, path, syms, ts, EdgeType::Imports, 100, ts.len() as int);
        },
        None => {},
    }
}

proof fn lemma_imports_settled(
    y: Seq<EdgeView>,
    g: Seq<EdgeView>,
    ns1: Seq<NodeView>,
    ns2: Seq<NodeView>,
    syms: Seq<Symbol>,
    path: Seq<char>,
    imps: Seq<ImportView>,
    n: int,
)
    requires
        keys_within(imports_upto(y, ns1, syms, path, imps, n), g),
        same_stems(ns1, ns2),
    ensures
        imports_upto(g, ns2, syms, path, imps, n) == g,
    decreases n,
{
    if n > 0 {
        let p = imports_upto(y, ns1, syms, path, imps, n - 1);
        lemma_import_step_grows(p, ns1, syms, path, imps[n - 1]);
        lemma_egrows_within(p, imports_upto(y, ns1, syms, path, imps, n), g);
        lemma_imports_settled(y, g, ns1, ns2, syms, path, imps, n - 1);
        lemma_import_step_settled(p, g, ns1, ns2, syms, path, imps[n - 1]);
    }
}

proof fn lemma_file_links_grows(es: Seq<EdgeView>, ns: Seq<NodeView>, syms: Seq<Symbol>, f: FileView)
    ensures
        egrows(es, file_links(es, ns, syms, f)),
{
    let imps = imports_of(f.2, f.1);
    let calls = calls_of(f.2, f.1);
    lemma_calls_grow(es, syms, imps, f.0, calls, calls.len() as int);
    let es1 = calls_upto(es, syms, imps, f.0, calls, calls.len() as int);
    lemma_imports_grow(es1, ns, syms, f.0, imps, imps.len() as int);
    lemma_egrows_trans(es, es1, file_links(es, ns, syms, f));
}

proof fn lemma_file_links_settled(
    y: Seq<EdgeView>,
    g: Seq<EdgeView>,
    ns1: Seq<NodeView>,
    ns2: Seq<NodeView>,
    syms: Seq<Symbol>,
    f: FileView,
)
    requires
        keys_within(file_links(y, ns1, syms, f), g),
        same_stems(ns1, ns2),
    ensures
        file_links(g, ns2, syms, f) == g,
{
    let imps = imports_of(f.2, f.1);
    let calls = calls_of(f.2, f.1);
    let es1 = calls_upto(y, syms, imps, f.0, calls, calls.len() as int);
    lemma_imports_grow(es1, ns1, syms, f.0, imps, imps.len() as int);
    lemma_egrows_within(es1, file_links(y, ns1, syms, f), g);
    lemma_calls_settled(y, g, syms, imps, f.0, calls, calls.len() as int);
    lemma_imports_settled(es1, g, ns1, ns2, syms, f.0, imps, imps.len() as int);
}

proof fn lemma_files_settled(
    y: Seq<EdgeView>,
    g: Seq<EdgeView>,
    ns1: Seq<NodeView>,
    ns2: Seq<NodeView>,
    syms: Seq<Symbol>,
    files: Seq<FileView>,
    n: int,
)
    requires
        keys_within(files_upto(y, ns1, syms, files, n), g),
        same_stems(ns1, ns2),
    ensures
        files_upto(g, ns2, syms, files, n) == g,
    decreases n,
{
    if n > 0 {
        let p = files_upto(y, ns1, syms, files, n - 1);
        lemma_file_links_grows(p, ns1, syms, files[n - 1]);
        lemma_egrows_within(p, files_upto(y, ns1, syms, files, n), g);
        lemma_files_settled(y, g, ns1, ns2, syms, files, n - 1);
        lemma_file_links_settled(p, g, ns1, ns2, syms, files[n - 1]);
    }
}

proof fn lemma_ensure_settled(y: Seq<NodeView>, g: Seq<NodeView>, n: NodeView)
    requires
        forall|id: Seq<char>| vhas(ensure_node(y, n), id) ==> vhas(g, id),
    ensures
        ensure_node(g, n) == g,
{
    lemma_ensure_node_grows(y, n);
}

proof fn lemma_use_settled(y: GraphView, g: GraphView, path: Seq<char>, func: Symbol, vid: Seq<char>, u: Item)
    requires
        graph_within(use_step(y, path, func, vid, u), g),
    ensures
        use_step(g, path, func, vid, u) == g,
{
    let uid = var_id(path, u.0, u.1, ":use"@);
    lemma_ensure_settled(y.0, g.0, var_node(uid, u.0, func.language, path, u.1));
    let e1 = link(y.1, vid, uid, EdgeType::DataFlow, 100);
    lemma_link_grows(e1, uid, func.id@, EdgeType::MemberOf, 100);
    lemma_egrows_within(e1, use_step(y, path, func, vid, u).1, g.1);
    lemma_link_settled(y.1, g.1, vid, uid, EdgeType::DataFlow, 100);
    lemma_link_settled(e1, g.1, uid, func.id@, EdgeType::MemberOf, 100);
}

proof fn lemma_uses_settled(
    y: GraphView,
    g: GraphView,
    path: Seq<char>,
    func: Symbol,
    vid: Seq<char>,
    name: Seq<char>,
    uses: Seq<Item>,
    n: int,
)
    requires
        graph_within(uses_fold(y, path, func, vid, name, uses, n), g),
    ensures
        uses_fold(g, path, func, vid, name, uses, n) == g,
    decreases n,
{
    if n > 0 {
        let p = uses_fold(y, path, func, vid, name, uses, n - 1);
        if uses[n - 1].0 == name {
            lemma_use_grows(p, path, func, vid, uses[n - 1]);
            lemma_grows_within(p, uses_fold(y, path, func, vid, name, uses, n), g);
            lemma_uses_settled(y, g, path, func, vid, name, uses, n - 1);
            lemma_use_settled(p, g, path, func, vid, uses[n - 1]);
        } else {
            lemma_uses_settled(y, g, path, func, vid, name, uses, n - 1);
        }
    }
}

proof fn lemma_def_settled(y: GraphView, g: GraphView, path: Seq<char>, func: Symbol, uses: Seq<Item>, d: Item)
    requires
        graph_within(def_step(y, path, func, uses, d), g),
    ensures
        def_step(g, path, func, uses, d) == g,
{
    let vid = var_id(path, d.0, d.1, ":var"@);
    let node = var_node(vid, d.0, func.language, path, d.1);
    let e1 = link(y.1, vid, func.id@, EdgeType::DataFlow, 100);
    let e2 = link(e1, vid, path, EdgeType::DefinedIn, 100);
    let e3 = link(e2, vid, func.id@, EdgeType::MemberOf, 100);
    let mid = (ensure_node(y.0, node), e3);
    lemma_uses_grow(mid, path, func, vid, d.0, uses, uses.len() as int);
    lemma_grows_within(mid, def_step(y, path, func, uses, d), g);
    lemma_ensure_settled(y.0, g.0, node);
    lemma_link_grows(e1, vid, path, EdgeType::DefinedIn, 100);
    lemma_link_grows(e2, vid, func.id@, EdgeType::MemberOf, 100);
    lemma_egrows_within(e2, e3, g.1);
    lemma_egrows_within(e1, e2, g.1);
    lemma_link_settled(y.1, g.1, vid, func.id@, EdgeType::DataFlow, 100);
    lemma_link_settled(e1, g.1, vid, path, EdgeType::DefinedIn, 100);
    lemma_link_settled(e2, g.1, vid, func.id@, EdgeType::MemberOf, 100);
    assert((ensure_node(g.0, node), link(link(link(g.1, vid, func.id@, EdgeType::DataFlow, 100), vid, path, EdgeType::DefinedIn, 100), vid, func.id@, EdgeType::MemberOf, 100)) == g);
    lemma_uses_settled(mid, g, path, func, vid, d.0, uses, uses.len() as int);
}

proof fn lemma_defs_settled(y: GraphView, g: GraphView, path: Seq<char>, func: Symbol, defs: Seq<Item>, uses: Seq<Item>, n: int)
    requires
        graph_within(defs_fold(y, path, func, defs, uses, n), g),
    ensures
        defs_fold(g, path, func, defs, uses, n) == g,
    decreases n,
{
    if n > 0 {
        let p = defs_fold(y, path, func, defs, uses, n - 1);
        lemma_def_grows(p, path, func, uses, defs[n - 1]);
        lemma_grows_within(p, defs_fold(y, path, func, defs, uses, n), g);
        lemma_defs_settled(y, g, path, func, defs, uses, n - 1);
        lemma_def_settled(p, g, path, func, uses, defs[n - 1]);
    }
}

proof fn lemma_funcs_settled(
    y: GraphView,
    g: GraphView,
    syms: Seq<Symbol>,
    v: Seq<usize>,
    path: Seq<char>,
    language: Language,
    ls: Seq<Seq<char>>,
    n: int,
)
    requires
        graph_within(funcs_fold(y, syms, v, path, language, ls, n), g),
    ensures
        funcs_fold(g, syms, v, path, language, ls, n) == g,
    decreases n,
{
    if n > 0 {
        let p = funcs_fold(y, syms, v, path, language, ls, n - 1);
        let func = syms[v[n - 1] as int];
        if is_function(func) {
            let st = body_start(func);
            let e = body_end(func, ls.len() as int);
            let defs = def_items(ls, language, st, e - st);
            let uses = use_items(ls, st, e - st);
            lemma_defs_grow(p, path, func, defs, uses, defs.len() as int);
            lemma_grows_within(p, funcs_fold(y, syms, v, path, language, ls, n), g);
            lemma_funcs_settled(y, g, syms, v, path, language, ls, n - 1);
            lemma_defs_settled(p, g, path, func, defs, uses, defs.len() as int);
        } else {
            lemma_funcs_settled(y, g, syms, v, path, language, ls, n - 1);
        }
    }
}

proof fn lemma_flow_settled(y: GraphView, g: GraphView, syms: Seq<Symbol>, files: Seq<FileView>, n: int)
    requires
        graph_within(flow_upto(y, syms, files, n), g),
    ensures
        flow_upto(g, syms, files, n) == g,
    decreases n,
{
    if n > 0 {
        let p = flow_upto(y, syms, files, n - 1);
        let f = files[n - 1];
        let v = file_symbols(syms, f.0);
        lemma_funcs_grow(p, syms, v, f.0, f.1, crate::text::lines(f.2), v.len() as int);
        lemma_grows_within(p, flow_upto(y, syms, files, n), g);
        lemma_flow_settled(y, g, syms, files, n - 1);
        lemma_funcs_settled(p, g, syms, v, f.0, f.1, crate::text::lines(f.2), v.len() as int);
    }
}

proof fn lemma_stems_prefix(a: Seq<NodeView>, b: Seq<NodeView>, stem: Seq<char>, m: int)
    requires
        a.is_prefix_of(b),
        0 <= m <= a.len(),
    ensures
        file_by_stem(b, stem, m) == file_by_stem(a, stem, m),
    decreases m,
{
    if m > 0 {
        assert(b[m - 1] == a[m - 1]);
        lemma_stems_prefix(a, b, stem, m - 1);
    }
}

proof fn lemma_stems_tail(a: Seq<NodeView>, b: Seq<NodeView>, stem: Seq<char>, m: int)
    requires
        a.is_prefix_of(b),
        a.len() <= m <= b.len(),
        forall|i: int| a.len() <= i < b.len() ==> (#[trigger] b[i]).1 == NodeType::Variable,
    ensures
        file_by_stem(b, stem, m) == file_by_stem(a, stem, a.len() as int),
    decreases m,
{
    if m > a.len() {
        assert(b[m - 1].1 == NodeType::Variable);
        lemma_stems_tail(a, b, stem, m - 1);
    } else {
        lemma_stems_prefix(a, b, stem, m);
    }
}

/// Linking a second time with the same symbols and files changes nothing:
/// the nodes and the edges are those that the first run left.
pub proof fn law_links_twice(g: GraphView, syms: Seq<Symbol>, files: Seq<FileView>)
    ensures
        links_spec(links_spec(g, syms, files), syms, files) == links_spec(g, syms, files),
{
    let n = files.len() as int;
    let h = links_spec(g, syms, files);
    let e = files_upto(g.1, g.0, syms, files, n);
    lemma_flow_grows((g.0, e), syms, files, n);
    assert(same_stems(g.0, h.0)) by {
        assert forall|stem: Seq<char>| #[trigger] file_by_stem(h.0, stem, h.0.len() as int) == file_by_stem(g.0, stem, g.0.len() as int) by {
            lemma_stems_tail(g.0, h.0, stem, h.0.len() as int);
        }
    }
    lemma_prefix_within(e, h.1);
    lemma_files_settled(g.1, h.1, g.0, h.0, syms, files, n);
    assert(graph_within(h, h));
    lemma_flow_settled((g.0, e), h, syms, files, n);
    assert((h.0, h.1) == h);
}


// ---------------------------------------------------------------------------
// Imported names
// ---------------------------------------------------------------------------

/// Whether symbol `s` is registered under `key`: by its name, or by its
/// fully qualified name when that is not empty.
pub open spec fn registered_under(s: Symbol, key: Seq<char>) -> bool {
    s.name@ == key || (s.fqn@.len() > 0 && s.fqn@ == key)
}

proof fn lemma_lookup_has(syms: Seq<Symbol>, key: Seq<char>, n: int, t: int)
    requires
        0 <= t < n <= syms.len(),
        syms.len() <= usize::MAX,
        registered_under(syms[t], key),
    ensures
        exists|k: int| 0 <= k < lookup_upto(syms, key, n).len() && lookup_upto(syms, key, n)[k] == t,
    decreases n,
{
    let prev = lookup_upto(syms, key, n - 1);
    let r = lookup_upto(syms, key, n);
    if t == n - 1 {
        assert(r[prev.len() as int] == t);
    } else {
        lemma_lookup_has(syms, key, n - 1, t);
        let k = choose|k: int| 0 <= k < prev.len() && prev[k] == t;
        assert(r[k] == prev[k]);
    }
}

proof fn lemma_link_all_has(
    es: Seq<EdgeView>,
    src: Seq<char>,
    syms: Seq<Symbol>,
    cs: Seq<usize>,
    k: EdgeType,
    c: u8,
    n: int,
    j: int,
)
    requires
        0 <= j < n <= cs.len(),
    ensures
        has_edge(link_all(es, src, syms, cs, k, c, n), src, syms[cs[j] as int].id@, k),
    decreases n,
{
    let p = link_all(es, src, syms, cs, k, c, n - 1);
    lemma_link(p, src, syms[cs[n - 1] as int].id@, k, c);
    if j < n - 1 {
        lemma_link_all_has(es, src, syms, cs, k, c, n - 1, j);
    }
}

proof fn lemma_import_step_has(es: Seq<EdgeView>, ns: Seq<NodeView>, syms: Seq<Symbol>, path: Seq<char>, imp: ImportView, t: int)
    requires
        imp.1 is Some,
        0 <= t < syms.len() <= usize::MAX,
        registered_under(syms[t], imp.1->0),
    ensures
        has_edge(import_step(es, ns, syms, path, imp), path, syms[t].id@, EdgeType::Imports),
{
    let a = imp.1->0;
    let stem = crate::refs::last_piece(imp.0, '.');
    let es1 = match file_by_stem(ns, stem, ns.len() as int) {
        Some(f) => link(es, path, f, EdgeType::Imports, 100),
        None => es,
    };
    let ts = lookup(syms, a);
    lemma_lookup_has(syms, a, syms.len() as int, t);
    let k = choose|k: int| 0 <= k < ts.len() && ts[k] == t;
    lemma_link_all_has(es1, path, syms, ts, EdgeType::Imports, 100, ts.len() as int, k);
}

proof fn lemma_imports_upto_has(
    es: Seq<EdgeView>,
    ns: Seq<NodeView>,
    syms: Seq<Symbol>,
    path: Seq<char>,
    imps: Seq<ImportView>,
    n: int,
    ii: int,
    t: int,
)
    requires
        0 <= ii < n <= imps.len(),
        imps[ii].1 is Some,
        0 <= t < syms.len() <= usize::MAX,
        registered_under(syms[t], imps[ii].1->0),
    ensures
        has_edge(imports_upto(es, ns, syms, path, imps, n), path, syms[t].id@, EdgeType::Imports),
    decreases n,
{
    let p = imports_upto(es, ns, syms, path, imps, n - 1);
    if ii == n - 1 {
        lemma_import_step_has(p, ns, syms, path, imps[ii], t);
    } else {
        lemma_imports_upto_has(es, ns, syms, path, imps, n - 1, ii, t);
        lemma_import_step_grows(p, ns, syms, path, imps[n - 1]);
        lemma_prefix_within(p, imports_upto(es, ns, syms, path, imps, n));
    }
}

proof fn lemma_files_upto_has(
    es: Seq<EdgeView>,
    ns: Seq<NodeView>,
    syms: Seq<Symbol>,
    files: Seq<FileView>,
    n: int,
    fi: int,
    ii: int,
    t: int,
)
    requires
        0 <= fi < n <= files.len(),
        0 <= ii < imports_of(files[fi].2, files[fi].1).len(),
        imports_of(files[fi].2, files[fi].1)[ii].1 is Some,
        0 <= t < syms.len() <= usize::MAX,
        registered_under(syms[t], imports_of(files[fi].2, files[fi].1)[ii].1->0),
    ensures
        has_edge(files_upto(es, ns, syms, files, n), files[fi].0, syms[t].id@, EdgeType::Imports),
    decreases n,
{
    let p = files_upto(es, ns, syms, files, n - 1);
    if fi == n - 1 {
        let f = files[fi];
        let imps = imports_of(f.2, f.1);
        let calls = calls_of(f.2, f.1);
        let es1 = calls_upto(p, syms, imps, f.0, calls, calls.len() as int);
        lemma_imports_upto_has(es1, ns, syms, f.0, imps, imps.len() as int, ii, t);
    } else {
        lemma_files_upto_has(es, ns, syms, files, n - 1, fi, ii, t);
        lemma_file_links_grows(p, ns, syms, files[n - 1]);
        lemma_prefix_within(p, files_upto(es, ns, syms, files, n));
    }
}

/// Every name a file imports is linked: for each import of a file that
/// binds a name (`from m import name`, `import m as name`, ...), and each
/// symbol registered under that name, by its name or its fully qualified
/// name, the linked graph has an `Imports` edge from the file to the
/// symbol.
pub proof fn law_imported_names_linked(g: GraphView, syms: Seq<Symbol>, files: Seq<FileView>, fi: int, ii: int, t: int)
    requires
        0 <= fi < files.len(),
        0 <= ii < imports_of(files[fi].2, files[fi].1).len(),
        imports_of(files[fi].2, files[fi].1)[ii].1 is Some,
        0 <= t < syms.len() <= usize::MAX,
        registered_under(syms[t], imports_of(files[fi].2, files[fi].1)[ii].1->0),
    ensures
        has_edge(links_spec(g, syms, files).1, files[fi].0, syms[t].id@, EdgeType::Imports),
{
    let n = files.len() as int;
    let e = files_upto(g.1, g.0, syms, files, n);
    lemma_files_upto_has(g.1, g.0, syms, files, n, fi, ii, t);
    lemma_flow_grows((g.0, e), syms, files, n);
    lemma_prefix_within(e, links_spec(g, syms, files).1);
}


// ---------------------------------------------------------------------------
// Calls
// ---------------------------------------------------------------------------

proof fn lemma_first_in_file_is(syms: Seq<Symbol>, cs: Seq<usize>, fp: Seq<char>, n: int)
    requires
        0 <= n <= cs.len(),
        indices_in(cs, syms),
    ensures
        first_in_file(syms, cs, fp, n) matches Some(x) ==> syms[x as int].file_path@ == fp && x < syms.len(),
    decreases n,
{
    if n > 0 {
        lemma_first_in_file_is(syms, cs, fp, n - 1);
    }
}

proof fn lemma_lookup_in(syms: Seq<Symbol>, key: Seq<char>, n: int)
    requires
        0 <= n <= syms.len() <= usize::MAX,
    ensures
        indices_in(lookup_upto(syms, key, n), syms),
    decreases n,
{
    if n > 0 {
        lemma_lookup_in(syms, key, n - 1);
        let prev = lookup_upto(syms, key, n - 1);
        let r = lookup_upto(syms, key, n);
        assert forall|k: int| 0 <= k < r.len() implies #[trigger] r[k] < syms.len() by {
            if k < prev.len() {
                assert(r[k] == prev[k]);
            }
        }
    }
}

proof fn lemma_prefixed_in(syms: Seq<Symbol>, pref: Seq<char>, name: Seq<char>, n: int)
    requires
        0 <= n <= syms.len() <= usize::MAX,
    ensures
        indices_in(prefixed_upto(syms, pref, name, n), syms),
    decreases n,
{
    if n > 0 {
        lemma_prefixed_in(syms, pref, name, n - 1);
        let prev = prefixed_upto(syms, pref, name, n - 1);
        let r = prefixed_upto(syms, pref, name, n);
        assert forall|k: int| 0 <= k < r.len() implies #[trigger] r[k] < syms.len() by {
            if k < prev.len() {
                assert(r[k] == prev[k]);
            }
        }
    }
}

proof fn lemma_candidates_in(syms: Seq<Symbol>, imports: Seq<ImportView>, c: CallView)
    requires
        syms.len() <= usize::MAX,
    ensures
        indices_in(candidates(syms, imports, c), syms),
{
    let n = syms.len() as int;
    lemma_lookup_in(syms, c.0, n);
    let a = lookup(syms, c.0);
    let q: Seq<usize> = match c.2 {
        Some(qq) => {
            lemma_lookup_in(syms, qualify(qq, c.0), n);
            match alias_module(imports, qq, imports.len() as int) {
                Some(m) => {
                    lemma_prefixed_in(syms, colons(m), c.0, n);
                    lookup(syms, qualify(qq, c.0)) + prefixed_upto(syms, colons(m), c.0, n)
                },
                None => lookup(syms, qualify(qq, c.0)) + seq![],
            }
        },
        None => seq![],
    };
    let h: Seq<usize> = match c.3 {
        Some(hh) => {
            lemma_lookup_in(syms, qualify(colons(hh), c.0), n);
            lookup(syms, qualify(colons(hh), c.0))
        },
        None => seq![],
    };
    let all = candidates(syms, imports, c);
    assert(all == a + q + h);
    assert forall|k: int| 0 <= k < all.len() implies #[trigger] all[k] < syms.len() by {
        if k < a.len() {
            assert(all[k] == a[k]);
        } else if k < a.len() + q.len() {
            assert(all[k] == q[k - a.len()]);
            match c.2 {
                Some(qq) => {
                    let l = lookup(syms, qualify(qq, c.0));
                    if k - a.len() >= l.len() {
                        match alias_module(imports, qq, imports.len() as int) {
                            Some(m) => {
                                assert(q[k - a.len()] == prefixed_upto(syms, colons(m), c.0, n)[k - a.len() - l.len()]);
                            },
                            None => {},
                        }
                    }
                },
                None => {},
            }
        } else {
            assert(all[k] == h[k - a.len() - q.len()]);
        }
    }
}

/// The edge a call gives its caller, as `call_step` decides it.
proof fn lemma_call_step_has(es: Seq<EdgeView>, syms: Seq<Symbol>, imports: Seq<ImportView>, path: Seq<char>, c: CallView, t: int)
    requires
        caller_of(syms, path, c.1) is Some,
        0 <= t < syms.len() <= usize::MAX,
        registered_under(syms[t], c.0),
    ensures
        ({
            let caller = syms[caller_of(syms, path, c.1)->0 as int];
            let r = call_step(es, syms, imports, path, c);
            has_edge(r, caller.id@, syms[t].id@, EdgeType::Calls) || exists|u: int|
                0 <= u < syms.len() && (#[trigger] syms[u]).file_path@ == caller.file_path@ && has_edge(
                    r,
                    caller.id@,
                    syms[u].id@,
                    EdgeType::Calls,
                )
        }),
{
    let ci = caller_of(syms, path, c.1)->0;
    let caller = syms[ci as int];
    let cs = candidates(syms, imports, c);
    match first_in_file(syms, cs, caller.file_path@, cs.len() as int) {
        Some(x) => {
            lemma_candidates_in(syms, imports, c);
            lemma_first_in_file_is(syms, cs, caller.file_path@, cs.len() as int);
            lemma_link(es, caller.id@, syms[x as int].id@, EdgeType::Calls, 100);
            assert(syms[x as int].file_path@ == caller.file_path@);
            let r = call_step(es, syms, imports, path, c);
            assert(has_edge(r, caller.id@, syms[x as int].id@, EdgeType::Calls));
        },
        None => {
            lemma_lookup_has(syms, c.0, syms.len() as int, t);
            let l = lookup(syms, c.0);
            let k = choose|k: int| 0 <= k < l.len() && l[k] == t;
            assert(cs[k] == l[k]);
            lemma_link_all_has(es, caller.id@, syms, cs, EdgeType::Calls, 50, cs.len() as int, k);
        },
    }
}

proof fn lemma_calls_upto_has(
    es: Seq<EdgeView>,
    syms: Seq<Symbol>,
    imports: Seq<ImportView>,
    path: Seq<char>,
    calls: Seq<CallView>,
    n: int,
    ki: int,
    t: int,
)
    requires
        0 <= ki < n <= calls.len(),
        caller_of(syms, path, calls[ki].1) is Some,
        0 <= t < syms.len() <= usize::MAX,
        registered_under(syms[t], calls[ki].0),
    ensures
        ({
            let caller = syms[caller_of(syms, path, calls[ki].1)->0 as int];
            let r = calls_upto(es, syms, imports, path, calls, n);
            has_edge(r, caller.id@, syms[t].id@, EdgeType::Calls) || exists|u: int|
                0 <= u < syms.len() && (#[trigger] syms[u]).file_path@ == caller.file_path@ && has_edge(
                    r,
                    caller.id@,
                    syms[u].id@,
                    EdgeType::Calls,
                )
        }),
    decreases n,
{
    let p = calls_upto(es, syms, imports, path, calls, n - 1);
    if ki == n - 1 {
        lemma_call_step_has(p, syms, imports, path, calls[ki], t);
    } else {
        lemma_calls_upto_has(es, syms, imports, path, calls, n - 1, ki, t);
        lemma_call_step_grows(p, syms, imports, path, calls[n - 1]);
        lemma_prefix_within(p, calls_upto(es, syms, imports, path, calls, n));
    }
}

/// Whether the caller of a call has a `Calls` edge to `t`, or to some
/// symbol of its own file.
pub open spec fn call_linked(es: Seq<EdgeView>, syms: Seq<Symbol>, caller: Symbol, t: int) -> bool {
    has_edge(es, caller.id@, syms[t].id@, EdgeType::Calls) || exists|u: int|
        0 <= u < syms.len() && (#[trigger] syms[u]).file_path@ == caller.file_path@ && has_edge(
            es,
            caller.id@,
            syms[u].id@,
            EdgeType::Calls,
        )
}

proof fn lemma_call_linked_keeps(a: Seq<EdgeView>, b: Seq<EdgeView>, syms: Seq<Symbol>, caller: Symbol, t: int)
    requires
        call_linked(a, syms, caller, t),
        keys_within(a, b),
    ensures
        call_linked(b, syms, caller, t),
{
}

proof fn lemma_files_calls_has(
    es: Seq<EdgeView>,
    ns: Seq<NodeView>,
    syms: Seq<Symbol>,
    files: Seq<FileView>,
    n: int,
    fi: int,
    ki: int,
    t: int,
)
    requires
        0 <= fi < n <= files.len(),
        0 <= ki < calls_of(files[fi].2, files[fi].1).len(),
        caller_of(syms, files[fi].0, calls_of(files[fi].2, files[fi].1)[ki].1) is Some,
        0 <= t < syms.len() <= usize::MAX,
        registered_under(syms[t], calls_of(files[fi].2, files[fi].1)[ki].0),
    ensures
        call_linked(
            files_upto(es, ns, syms, files, n),
            syms,
            syms[caller_of(syms, files[fi].0, calls_of(files[fi].2, files[fi].1)[ki].1)->0 as int],
            t,
        ),
    decreases n,
{
    let p = files_upto(es, ns, syms, files, n - 1);
    let f = files[fi];
    let caller = syms[caller_of(syms, f.0, calls_of(f.2, f.1)[ki].1)->0 as int];
    if fi == n - 1 {
        let imps = imports_of(f.2, f.1);
        let calls = calls_of(f.2, f.1);
        let es1 = calls_upto(p, syms, imps, f.0, calls, calls.len() as int);
        lemma_calls_upto_has(p, syms, imps, f.0, calls, calls.len() as int, ki, t);
        lemma_imports_grow(es1, ns, syms, f.0, imps, imps.len() as int);
        lemma_prefix_within(es1, files_upto(es, ns, syms, files, n));
        lemma_call_linked_keeps(es1, files_upto(es, ns, syms, files, n), syms, caller, t);
    } else {
        lemma_files_calls_has(es, ns, syms, files, n - 1, fi, ki, t);
        lemma_file_links_grows(p, ns, syms, files[n - 1]);
        lemma_prefix_within(p, files_upto(es, ns, syms, files, n));
        lemma_call_linked_keeps(p, files_upto(es, ns, syms, files, n), syms, caller, t);
    }
}

/// Every call made inside a symbol is linked: when some symbol `t` is
/// registered under the called name, the calling symbol has a `Calls` edge
/// to `t`, or to a symbol of its own file (the callee it resolves to
/// there).
pub proof fn law_calls_linked(g: GraphView, syms: Seq<Symbol>, files: Seq<FileView>, fi: int, ki: int, t: int)
    requires
        0 <= fi < files.len(),
        0 <= ki < calls_of(files[fi].2, files[fi].1).len(),
        caller_of(syms, files[fi].0, calls_of(files[fi].2, files[fi].1)[ki].1) is Some,
        0 <= t < syms.len() <= usize::MAX,
        registered_under(syms[t], calls_of(files[fi].2, files[fi].1)[ki].0),
    ensures
        call_linked(
            links_spec(g, syms, files).1,
            syms,
            syms[caller_of(syms, files[fi].0, calls_of(files[fi].2, files[fi].1)[ki].1)->0 as int],
            t,
        ),
{
    let n = files.len() as int;
    let e = files_upto(g.1, g.0, syms, files, n);
    let caller = syms[caller_of(syms, files[fi].0, calls_of(files[fi].2, files[fi].1)[ki].1)->0 as int];
    lemma_files_calls_has(g.1, g.0, syms, files, n, fi, ki, t);
    lemma_flow_grows((g.0, e), syms, files, n);
    lemma_prefix_within(e, links_spec(g, syms, files).1);
    lemma_call_linked_keeps(e, links_spec(g, syms, files).1, syms, caller, t);
}


// ---------------------------------------------------------------------------
// Imported files
// ---------------------------------------------------------------------------

/// Whether node `x` of `ns` is a file node whose file has stem `stem`.
pub open spec fn file_with_stem(ns: Seq<NodeView>, x: int, stem: Seq<char>) -> bool {
    &&& ns[x].1 == NodeType::File
    &&& ns[x].5 is Some
    &&& std_path_file_stem(ns[x].5->0) == Some(stem)
}

proof fn lemma_file_by_stem_found(ns: Seq<NodeView>, stem: Seq<char>, n: int, x: int)
    requires
        0 <= x < n <= ns.len(),
        file_with_stem(ns, x, stem),
    ensures
        file_by_stem(ns, stem, n) matches Some(id) && exists|y: int| 0 <= y < n && file_with_stem(ns, y, stem) && #[trigger] ns[y].0 == id,
    decreases n,
{
    if !file_with_stem(ns, n - 1, stem) {
        lemma_file_by_stem_found(ns, stem, n - 1, x);
    }
}

/// The edges of an import to the file it names: an `Imports` edge to a
/// file node with the stem it asks for, when there is one.
pub open spec fn file_import_linked(es: Seq<EdgeView>, ns: Seq<NodeView>, path: Seq<char>, stem: Seq<char>) -> bool {
    exists|y: int| 0 <= y < ns.len() && file_with_stem(ns, y, stem) && has_edge(es, path, #[trigger] ns[y].0, EdgeType::Imports)
}

proof fn lemma_file_import_keeps(a: Seq<EdgeView>, b: Seq<EdgeView>, ns: Seq<NodeView>, path: Seq<char>, stem: Seq<char>)
    requires
        file_import_linked(a, ns, path, stem),
        keys_within(a, b),
    ensures
        file_import_linked(b, ns, path, stem),
{
}

proof fn lemma_import_step_file(es: Seq<EdgeView>, ns: Seq<NodeView>, syms: Seq<Symbol>, path: Seq<char>, imp: ImportView, x: int)
    requires
        0 <= x < ns.len(),
        file_with_stem(ns, x, crate::refs::last_piece(imp.0, '.')),
    ensures
        file_import_linked(import_step(es, ns, syms, path, imp), ns, path, crate::refs::last_piece(imp.0, '.')),
{
    let stem = crate::refs::last_piece(imp.0, '.');
    lemma_file_by_stem_found(ns, stem, ns.len() as int, x);
    let f = file_by_stem(ns, stem, ns.len() as int)->0;
    let es1 = link(es, path, f, EdgeType::Imports, 100);
    lemma_link(es, path, f, EdgeType::Imports, 100);
    assert(file_import_linked(es1, ns, path, stem));
    match imp.1 {
        Some(a) => {
            let ts = lookup(syms, a);
            lemma_link_all_grows(es1, path, syms, ts, EdgeType::Imports, 100, ts.len() as int);
            lemma_prefix_within(es1, import_step(es, ns, syms, path, imp));
            lemma_file_import_keeps(es1, import_step(es, ns, syms, path, imp), ns, path, stem);
        },
        None => {},
    }
}

proof fn lemma_imports_upto_file(
    es: Seq<EdgeView>,
    ns: Seq<NodeView>,
    syms: Seq<Symbol>,
    path: Seq<char>,
    imps: Seq<ImportView>,
    n: int,
    ii: int,
    x: int,
)
    requires
        0 <= ii < n <= imps.len(),
        0 <= x < ns.len(),
        file_with_stem(ns, x, crate::refs::last_piece(imps[ii].0, '.')),
    ensures
        file_import_linked(imports_upto(es, ns, syms, path, imps, n), ns, path, crate::refs::last_piece(imps[ii].0, '.')),
    decreases n,
{
    let p = imports_upto(es, ns, syms, path, imps, n - 1);
    let stem = crate::refs::last_piece(imps[ii].0, '.');
    if ii == n - 1 {
        lemma_import_step_file(p, ns, syms, path, imps[ii], x);
    } else {
        lemma_imports_upto_file(es, ns, syms, path, imps, n - 1, ii, x);
        lemma_import_step_grows(p, ns, syms, path, imps[n - 1]);
        lemma_prefix_within(p, imports_upto(es, ns, syms, path, imps, n));
        lemma_file_import_keeps(p, imports_upto(es, ns, syms, path, imps, n), ns, path, stem);
    }
}

proof fn lemma_files_upto_file(
    es: Seq<EdgeView>,
    ns: Seq<NodeView>,
    syms: Seq<Symbol>,
    files: Seq<FileView>,
    n: int,
    fi: int,
    ii: int,
    x: int,
)
    requires
        0 <= fi < n <= files.len(),
        0 <= ii < imports_of(files[fi].2, files[fi].1).len(),
        0 <= x < ns.len(),
        file_with_stem(ns, x, crate::refs::last_piece(imports_of(files[fi].2, files[fi].1)[ii].0, '.')),
    ensures
        file_import_linked(
            files_upto(es, ns, syms, files, n),
            ns,
            files[fi].0,
            crate::refs::last_piece(imports_of(files[fi].2, files[fi].1)[ii].0, '.'),
        ),
    decreases n,
{
    let p = files_upto(es, ns, syms, files, n - 1);
    let f = files[fi];
    let stem = crate::refs::last_piece(imports_of(f.2, f.1)[ii].0, '.');
    if fi == n - 1 {
        let imps = imports_of(f.2, f.1);
        let calls = calls_of(f.2, f.1);
        let es1 = calls_upto(p, syms, imps, f.0, calls, calls.len() as int);
        lemma_imports_upto_file(es1, ns, syms, f.0, imps, imps.len() as int, ii, x);
    } else {
        lemma_files_upto_file(es, ns, syms, files, n - 1, fi, ii, x);
        lemma_file_links_grows(p, ns, syms, files[n - 1]);
        lemma_prefix_within(p, files_upto(es, ns, syms, files, n));
        lemma_file_import_keeps(p, files_upto(es, ns, syms, files, n), ns, f.0, stem);
    }
}

/// Every import that names a file of the graph is linked: when the graph
/// holds a file node whose file's stem is the last dotted part of the
/// imported module, the importing file gets an `Imports` edge to such a
/// file node.
pub proof fn law_imported_files_linked(g: GraphView, syms: Seq<Symbol>, files: Seq<FileView>, fi: int, ii: int, x: int)
    requires
        0 <= fi < files.len(),
        0 <= ii < imports_of(files[fi].2, files[fi].1).len(),
        0 <= x < g.0.len(),
        file_with_stem(g.0, x, crate::refs::last_piece(imports_of(files[fi].2, files[fi].1)[ii].0, '.')),
    ensures
        file_import_linked(
            links_spec(g, syms, files).1,
            g.0,
            files[fi].0,
            crate::refs::last_piece(imports_of(files[fi].2, files[fi].1)[ii].0, '.'),
        ),
{
    let n = files.len() as int;
    let e = files_upto(g.1, g.0, syms, files, n);
    let stem = crate::refs::last_piece(imports_of(files[fi].2, files[fi].1)[ii].0, '.');
    lemma_files_upto_file(g.1, g.0, syms, files, n, fi, ii, x);
    lemma_flow_grows((g.0, e), syms, files, n);
    lemma_prefix_within(e, links_spec(g, syms, files).1);
    lemma_file_import_keeps(e, links_spec(g, syms, files).1, g.0, files[fi].0, stem);
}

} // verus!
