//! Building the code graph from symbols: symbol and file nodes, definition
//! edges in both directions, and membership of methods in the classes that
//! enclose them.
use vstd::prelude::*;
use crate::graph::{
    edge_views, fresh_from, has_edge, keys_unique, lemma_fresh_trans, lemma_link, lemma_put_node, lemma_unique_views,
    lemma_vindex_unique, link, node_views, put_node, strs, vhas, vindex, vunique, CodeGraph,
    EdgeType, EdgeView, NodeId, NodeType, NodeView, clone_strings,
};
use crate::pathname::{path_file_name, std_path_file_name};
use crate::symbols::{Symbol, SymbolKind};

verus! {

/// The abstract value of a graph: its node views and edge views.
pub type GraphView = (Seq<NodeView>, Seq<EdgeView>);

pub open spec fn graph_view(g: CodeGraph) -> GraphView {
    (node_views(g.nodes@), edge_views(g.edges@))
}

/// The node kind a symbol is drawn as: methods and unknown symbols as
/// functions, interfaces as classes.
pub open spec fn node_type_of(k: SymbolKind) -> NodeType {
    match k {
        SymbolKind::Function | SymbolKind::Method | SymbolKind::Unknown => NodeType::Function,
        SymbolKind::Class | SymbolKind::Interface => NodeType::Class,
        SymbolKind::Module => NodeType::Module,
    }
}

fn node_type(k: SymbolKind) -> (t: NodeType)
    ensures
        t == node_type_of(k),
{
    match k {
        SymbolKind::Function | SymbolKind::Method | SymbolKind::Unknown => NodeType::Function,
        SymbolKind::Class | SymbolKind::Interface => NodeType::Class,
        SymbolKind::Module => NodeType::Module,
    }
}

/// The node of a symbol.
pub open spec fn symbol_node(s: Symbol) -> NodeView {
    (
        s.id@,
        node_type_of(s.kind),
        s.name@,
        Some(s.fqn@),
        Some(s.language),
        Some(s.file_path@),
        s.start_line,
        s.end_line,
        strs(s.chunk_ids@),
    )
}

/// A file node is labelled with the file's name, or nothing.
pub open spec fn file_label(p: Seq<char>) -> Seq<char> {
    match std_path_file_name(p) {
        Some(n) => n,
        None => Seq::empty(),
    }
}

/// The node of the file that defines a symbol; its identifier is the path.
pub open spec fn file_node(s: Symbol) -> NodeView {
    (
        s.file_path@,
        NodeType::File,
        file_label(s.file_path@),
        None,
        Some(s.language),
        Some(s.file_path@),
        0,
        0,
        Seq::empty(),
    )
}

/// One symbol's contribution: its node (replacing one with its id), its
/// file's node unless present, and `DefinedIn` edges both ways unless
/// present.
pub open spec fn define_step(g: GraphView, s: Symbol) -> GraphView {
    let ns1 = put_node(g.0, symbol_node(s));
    let ns2 = if vhas(ns1, s.file_path@) {
        ns1
    } else {
        ns1.push(file_node(s))
    };
    let es1 = link(g.1, s.id@, s.file_path@, EdgeType::DefinedIn, 100);
    let es2 = link(es1, s.file_path@, s.id@, EdgeType::DefinedIn, 100);
    (ns2, es2)
}

pub open spec fn define_upto(g: GraphView, syms: Seq<Symbol>, n: int) -> GraphView
    decreases n,
{
    if n <= 0 {
        g
    } else {
        define_step(define_upto(g, syms, n - 1), syms[n - 1])
    }
}

/// `c` is a class or interface of the same file whose lines enclose `m`'s.
pub open spec fn encloses(c: Symbol, m: Symbol) -> bool {
    &&& (c.kind == SymbolKind::Class || c.kind == SymbolKind::Interface)
    &&& c.file_path@ == m.file_path@
    &&& c.start_line <= m.start_line
    &&& c.end_line >= m.end_line
}

/// The first of the first `n` symbols that encloses `m`.
pub open spec fn container_upto(syms: Seq<Symbol>, m: Symbol, n: int) -> Option<int>
    decreases n,
{
    if n <= 0 {
        None
    } else {
        match container_upto(syms, m, n - 1) {
            Some(i) => Some(i),
            None => if encloses(syms[n - 1], m) {
                Some(n - 1)
            } else {
                None
            },
        }
    }
}

/// The `MemberOf` edges of the first `n` symbols: each method is linked to
/// the first class that encloses it.
pub open spec fn members_upto(es: Seq<EdgeView>, syms: Seq<Symbol>, n: int) -> Seq<EdgeView>
    decreases n,
{
    if n <= 0 {
        es
    } else {
        let prev = members_upto(es, syms, n - 1);
        let m = syms[n - 1];
        if m.kind == SymbolKind::Method {
            match container_upto(syms, m, syms.len() as int) {
                Some(c) => link(prev, m.id@, syms[c].id@, EdgeType::MemberOf, 100),
                None => prev,
            }
        } else {
            prev
        }
    }
}

/// The graph after building from `syms`.
pub open spec fn build_spec(g: GraphView, syms: Seq<Symbol>) -> GraphView {
    let d = define_upto(g, syms, syms.len() as int);
    (d.0, members_upto(d.1, syms, syms.len() as int))
}

pub proof fn lemma_container_upto(syms: Seq<Symbol>, m: Symbol, n: int)
    requires
        0 <= n <= syms.len(),
    ensures
        match container_upto(syms, m, n) {
            Some(i) => 0 <= i < n && encloses(syms[i], m) && forall|j: int|
                0 <= j < i ==> !encloses(#[trigger] syms[j], m),
            None => forall|j: int| 0 <= j < n ==> !encloses(#[trigger] syms[j], m),
        },
    decreases n,
{
    if n > 0 {
        lemma_container_upto(syms, m, n - 1);
    }
}

/// A step keeps node identifiers unique and edge keys unique, keeps every
/// node identifier and edge, and records the symbol, its file and the
/// definition edges.
pub proof fn lemma_define_step(g: GraphView, s: Symbol)
    requires
        vunique(g.0),
    ensures
        vunique(define_step(g, s).0),
        keys_unique(g.1) ==> keys_unique(define_step(g, s).1),
        g.1.is_prefix_of(define_step(g, s).1),
        fresh_from(define_step(g, s).1, g.1.len() as int),
        forall|id: Seq<char>| vhas(g.0, id) ==> vhas(define_step(g, s).0, id),
        forall|a: Seq<char>, b: Seq<char>, q: EdgeType|
            has_edge(g.1, a, b, q) ==> has_edge(define_step(g, s).1, a, b, q),
        vhas(define_step(g, s).0, s.id@),
        vhas(define_step(g, s).0, s.file_path@),
        has_edge(define_step(g, s).1, s.id@, s.file_path@, EdgeType::DefinedIn),
        has_edge(define_step(g, s).1, s.file_path@, s.id@, EdgeType::DefinedIn),
{
    let n = symbol_node(s);
    lemma_put_node(g.0, n);
    let ns1 = put_node(g.0, n);
    let r = define_step(g, s);
    if !vhas(ns1, s.file_path@) {
        let ns2 = ns1.push(file_node(s));
        assert(ns2[ns1.len() as int].0 == s.file_path@);
        assert forall|a: int, b: int|
            0 <= a < ns2.len() && 0 <= b < ns2.len() && a != b implies #[trigger] ns2[a].0
            != #[trigger] ns2[b].0 by {
            let m = ns1.len() as int;
            if a < m && b < m {
                assert(ns1[a].0 != ns1[b].0);
            } else if a == m {
                assert(ns2[b] == ns1[b]);
            } else {
                assert(ns2[a] == ns1[a]);
            }
        }
        assert forall|id: Seq<char>| vhas(ns1, id) implies vhas(ns2, id) by {
            let w = choose|i: int| 0 <= i < ns1.len() && #[trigger] ns1[i].0 == id;
            assert(ns2[w] == ns1[w]);
        }
        let iw = vindex(ns1, s.id@)->0;
        lemma_vindex_unique(ns1, s.id@);
        assert(ns2[iw] == ns1[iw]);
    }
    assert forall|id: Seq<char>| vhas(g.0, id) implies vhas(r.0, id) by {
        if id != n.0 {
            assert(vhas(ns1, id));
        }
    }
    let es1 = link(g.1, s.id@, s.file_path@, EdgeType::DefinedIn, 100);
    lemma_link(g.1, s.id@, s.file_path@, EdgeType::DefinedIn, 100);
    lemma_link(es1, s.file_path@, s.id@, EdgeType::DefinedIn, 100);
    lemma_fresh_trans(g.1, es1, r.1);
}

/// What a prefix of the symbols has contributed stays in the graph.
pub proof fn lemma_define_upto(g: GraphView, syms: Seq<Symbol>, n: int)
    requires
        0 <= n <= syms.len(),
        vunique(g.0),
    ensures
        vunique(define_upto(g, syms, n).0),
        keys_unique(g.1) ==> keys_unique(define_upto(g, syms, n).1),
        g.1.is_prefix_of(define_upto(g, syms, n).1),
        fresh_from(define_upto(g, syms, n).1, g.1.len() as int),
        forall|id: Seq<char>| vhas(g.0, id) ==> vhas(define_upto(g, syms, n).0, id),
        forall|a: Seq<char>, b: Seq<char>, q: EdgeType|
            has_edge(g.1, a, b, q) ==> has_edge(define_upto(g, syms, n).1, a, b, q),
        forall|j: int|
            0 <= j < n ==> {
                let r = define_upto(g, syms, n);
                let s = #[trigger] syms[j];
                &&& vhas(r.0, s.id@)
                &&& vhas(r.0, s.file_path@)
                &&& has_edge(r.1, s.id@, s.file_path@, EdgeType::DefinedIn)
                &&& has_edge(r.1, s.file_path@, s.id@, EdgeType::DefinedIn)
            },
    decreases n,
{
    if n > 0 {
        lemma_define_upto(g, syms, n - 1);
        let p = define_upto(g, syms, n - 1);
        lemma_define_step(p, syms[n - 1]);
        assert(p.1.is_prefix_of(define_upto(g, syms, n).1));
        lemma_fresh_trans(g.1, p.1, define_upto(g, syms, n).1);
        assert(g.1.is_prefix_of(define_upto(g, syms, n).1)) by {
            assert forall|i: int| 0 <= i < g.1.len() implies g.1[i] == define_upto(g, syms, n).1[i] by {
                assert(g.1[i] == p.1[i]);
            }
        }
    }
}

/// Membership edges only add to the edges, keep their keys unique and
/// record each method's first enclosing class.
pub proof fn lemma_members_upto(es: Seq<EdgeView>, syms: Seq<Symbol>, n: int)
    requires
        0 <= n <= syms.len(),
    ensures
        keys_unique(es) ==> keys_unique(members_upto(es, syms, n)),
        es.is_prefix_of(members_upto(es, syms, n)),
        fresh_from(members_upto(es, syms, n), es.len() as int),
        forall|a: Seq<char>, b: Seq<char>, q: EdgeType|
            has_edge(es, a, b, q) ==> has_edge(members_upto(es, syms, n), a, b, q),
        forall|j: int|
            0 <= j < n && (#[trigger] syms[j]).kind == SymbolKind::Method && container_upto(
                syms,
                syms[j],
                syms.len() as int,
            ) is Some ==> has_edge(
                members_upto(es, syms, n),
                syms[j].id@,
                syms[container_upto(syms, syms[j], syms.len() as int)->0].id@,
                EdgeType::MemberOf,
            ),
    decreases n,
{
    if n > 0 {
        lemma_members_upto(es, syms, n - 1);
        let prev = members_upto(es, syms, n - 1);
        let m = syms[n - 1];
        if m.kind == SymbolKind::Method {
            match container_upto(syms, m, syms.len() as int) {
                Some(c) => {
                    lemma_link(prev, m.id@, syms[c].id@, EdgeType::MemberOf, 100);
                    let r = members_upto(es, syms, n);
                    assert forall|i: int| 0 <= i < es.len() implies es[i] == r[i] by {
                        assert(es[i] == prev[i]);
                    }
                    lemma_fresh_trans(es, prev, r);
                },
                None => {},
            }
        }
    }
}

/// Building keeps node identifiers unique; keeps every earlier edge, in
/// order, and edge keys unique; adds no edge whose source, target and kind
/// match those of another edge, old or new; and leaves every symbol with its node, its
/// file's node, `DefinedIn` edges both ways, and every method linked by
/// `MemberOf` to the first class or interface of its file whose lines
/// enclose it.
pub proof fn law_build(g: GraphView, syms: Seq<Symbol>)
    requires
        vunique(g.0),
    ensures
        vunique(build_spec(g, syms).0),
        g.1.is_prefix_of(build_spec(g, syms).1),
        keys_unique(g.1) ==> keys_unique(build_spec(g, syms).1),
        fresh_from(build_spec(g, syms).1, g.1.len() as int),
        forall|id: Seq<char>| vhas(g.0, id) ==> vhas(build_spec(g, syms).0, id),
        forall|j: int|
            0 <= j < syms.len() ==> {
                let r = build_spec(g, syms);
                let s = #[trigger] syms[j];
                &&& vhas(r.0, s.id@)
                &&& vhas(r.0, s.file_path@)
                &&& has_edge(r.1, s.id@, s.file_path@, EdgeType::DefinedIn)
                &&& has_edge(r.1, s.file_path@, s.id@, EdgeType::DefinedIn)
                &&& (s.kind == SymbolKind::Method && container_upto(syms, s, syms.len() as int)
                    is Some ==> has_edge(
                    r.1,
                    s.id@,
                    syms[container_upto(syms, s, syms.len() as int)->0].id@,
                    EdgeType::MemberOf,
                ))
            },
{
    let n = syms.len() as int;
    lemma_define_upto(g, syms, n);
    let d = define_upto(g, syms, n);
    lemma_members_upto(d.1, syms, n);
    let r = build_spec(g, syms);
    assert forall|i: int| 0 <= i < g.1.len() implies g.1[i] == r.1[i] by {
        assert(g.1[i] == d.1[i]);
    }
    lemma_fresh_trans(g.1, d.1, r.1);
}

proof fn lemma_define_edges_settled(b: GraphView, syms: Seq<Symbol>, k: int)
    requires
        0 <= k <= syms.len(),
        forall|j: int|
            0 <= j < syms.len() ==> has_edge(b.1, (#[trigger] syms[j]).id@, syms[j].file_path@, EdgeType::DefinedIn)
                && has_edge(b.1, syms[j].file_path@, syms[j].id@, EdgeType::DefinedIn),
    ensures
        define_upto(b, syms, k).1 == b.1,
    decreases k,
{
    if k > 0 {
        lemma_define_edges_settled(b, syms, k - 1);
        let s = syms[k - 1];
        assert(has_edge(b.1, s.id@, s.file_path@, EdgeType::DefinedIn));
        assert(has_edge(b.1, s.file_path@, s.id@, EdgeType::DefinedIn));
    }
}

proof fn lemma_members_settled(es: Seq<EdgeView>, syms: Seq<Symbol>, k: int)
    requires
        0 <= k <= syms.len(),
        forall|j: int|
            0 <= j < syms.len() && (#[trigger] syms[j]).kind == SymbolKind::Method && container_upto(
                syms,
                syms[j],
                syms.len() as int,
            ) is Some ==> has_edge(
                es,
                syms[j].id@,
                syms[container_upto(syms, syms[j], syms.len() as int)->0].id@,
                EdgeType::MemberOf,
            ),
    ensures
        members_upto(es, syms, k) == es,
    decreases k,
{
    if k > 0 {
        lemma_members_settled(es, syms, k - 1);
        let m = syms[k - 1];
        if m.kind == SymbolKind::Method && container_upto(syms, m, syms.len() as int) is Some {
            assert(has_edge(
                es,
                m.id@,
                syms[container_upto(syms, m, syms.len() as int)->0].id@,
                EdgeType::MemberOf,
            ));
        }
    }
}

/// Building again from the same symbols adds no edge: the edges of a
/// second build are those of the first.
pub proof fn law_build_twice(g: GraphView, syms: Seq<Symbol>)
    requires
        vunique(g.0),
    ensures
        build_spec(build_spec(g, syms), syms).1 == build_spec(g, syms).1,
{
    let b = build_spec(g, syms);
    law_build(g, syms);
    let n = syms.len() as int;
    lemma_define_edges_settled(b, syms, n);
    lemma_members_settled(b.1, syms, n);
}

/// A node survives pruning unless it belongs to one of the files.
pub open spec fn survives(n: NodeView, files: Seq<Seq<char>>) -> bool {
    match n.5 {
        Some(p) => !files.contains(p),
        None => true,
    }
}

/// The surviving nodes among the first `n`, in order.
pub open spec fn kept_nodes(ns: Seq<NodeView>, files: Seq<Seq<char>>, n: int) -> Seq<NodeView>
    decreases n,
{
    if n <= 0 {
        Seq::empty()
    } else if survives(ns[n - 1], files) {
        kept_nodes(ns, files, n - 1).push(ns[n - 1])
    } else {
        kept_nodes(ns, files, n - 1)
    }
}

/// The edges among the first `n` whose both ends are among `ns`, in order.
pub open spec fn kept_edges(es: Seq<EdgeView>, ns: Seq<NodeView>, n: int) -> Seq<EdgeView>
    decreases n,
{
    if n <= 0 {
        Seq::empty()
    } else if vhas(ns, es[n - 1].0) && vhas(ns, es[n - 1].1) {
        kept_edges(es, ns, n - 1).push(es[n - 1])
    } else {
        kept_edges(es, ns, n - 1)
    }
}

/// Kept edges have both ends among the nodes.
pub proof fn lemma_kept_edges(es: Seq<EdgeView>, ns: Seq<NodeView>, n: int)
    requires
        0 <= n <= es.len(),
    ensures
        forall|k: int|
            0 <= k < kept_edges(es, ns, n).len() ==> vhas(ns, (#[trigger] kept_edges(es, ns, n)[k]).0)
                && vhas(ns, kept_edges(es, ns, n)[k].1),
    decreases n,
{
    if n > 0 {
        lemma_kept_edges(es, ns, n - 1);
        let prev = kept_edges(es, ns, n - 1);
        let cur = kept_edges(es, ns, n);
        assert forall|k: int| 0 <= k < cur.len() implies vhas(ns, (#[trigger] cur[k]).0) && vhas(ns, cur[k].1) by {
            if k < prev.len() {
                assert(cur[k] == prev[k]);
            }
        }
    }
}

/// Kept nodes survive, and surviving nodes are kept.
pub proof fn lemma_kept_nodes(ns: Seq<NodeView>, files: Seq<Seq<char>>, n: int)
    requires
        0 <= n <= ns.len(),
    ensures
        forall|k: int|
            0 <= k < kept_nodes(ns, files, n).len() ==> survives(
                #[trigger] kept_nodes(ns, files, n)[k],
                files,
            ) && exists|j: int| 0 <= j < n && ns[j] == kept_nodes(ns, files, n)[k],
    decreases n,
{
    if n > 0 {
        lemma_kept_nodes(ns, files, n - 1);
        let prev = kept_nodes(ns, files, n - 1);
        let cur = kept_nodes(ns, files, n);
        assert forall|k: int| 0 <= k < cur.len() implies survives(#[trigger] cur[k], files) && exists|j: int|
            0 <= j < n && ns[j] == cur[k] by {
            if k < prev.len() {
                assert(cur[k] == prev[k]);
                let j = choose|j: int| 0 <= j < n - 1 && ns[j] == prev[k];
                assert(ns[j] == cur[k]);
            } else {
                assert(ns[n - 1] == cur[k]);
            }
        }
    }
}

/// After pruning, no node of a pruned file is left, and no edge has an end
/// that is not a node.
pub proof fn law_prune(ns: Seq<NodeView>, es: Seq<EdgeView>, files: Seq<Seq<char>>)
    ensures
        forall|k: int|
            0 <= k < kept_nodes(ns, files, ns.len() as int).len() ==> match (#[trigger] kept_nodes(
                ns,
                files,
                ns.len() as int,
            )[k]).5 {
                Some(p) => !files.contains(p),
                None => true,
            },
        forall|k: int|
            0 <= k < kept_edges(es, kept_nodes(ns, files, ns.len() as int), es.len() as int).len()
                ==> vhas(
                kept_nodes(ns, files, ns.len() as int),
                (#[trigger] kept_edges(es, kept_nodes(ns, files, ns.len() as int), es.len() as int)[k]).0,
            ) && vhas(
                kept_nodes(ns, files, ns.len() as int),
                kept_edges(es, kept_nodes(ns, files, ns.len() as int), es.len() as int)[k].1,
            ),
{
    lemma_kept_nodes(ns, files, ns.len() as int);
    lemma_kept_edges(es, kept_nodes(ns, files, ns.len() as int), es.len() as int);
}

/// Builds the graph's symbol layer.
pub struct GraphBuilder;

impl GraphBuilder {
    /// Adds a node for every symbol and for every symbol's file, definition
    /// edges between them, and membership edges from methods to the first
    /// enclosing class of their file. No edge is added twice.
    pub fn build(graph: &mut CodeGraph, symbols: &[Symbol])
        requires
            old(graph).wf(),
        ensures
            final(graph).wf(),
            graph_view(*final(graph)) == build_spec(graph_view(*old(graph)), symbols@),
    {
        let ghost g0 = graph_view(*graph);
        let mut i: usize = 0;
        while i < symbols.len()
            invariant
                0 <= i <= symbols.len(),
                graph.wf(),
                graph_view(*graph) == define_upto(g0, symbols@, i as int),
            decreases symbols.len() - i,
        {
            let s = &symbols[i];
            let ghost before = graph_view(*graph);
            let node_id = NodeId(s.id.clone());
            graph.add_node(
                node_id.clone(),
                node_type(s.kind),
                s.name.clone(),
                Some(s.fqn.clone()),
                Some(s.language),
                Some(s.file_path.clone()),
                s.start_line,
                s.end_line,
                clone_strings(&s.chunk_ids),
            );
            assert(node_views(graph.nodes@) == put_node(before.0, symbol_node(*s)));
            let file_id = NodeId(s.file_path.clone());
            proof {
                lemma_unique_views(graph.nodes@);
            }
            if !graph.contains_node(&file_id) {
                let label = match path_file_name(s.file_path.as_str()) {
                    Some(n) => n,
                    None => String::new(),
                };
                let ghost ns1 = node_views(graph.nodes@);
                proof {
                    lemma_vindex_unique(ns1, file_id@);
                }
                let no_chunks: Vec<String> = Vec::new();
                assert(strs(no_chunks@) =~= Seq::<Seq<char>>::empty());
                graph.add_node(
                    file_id.clone(),
                    NodeType::File,
                    label,
                    None,
                    Some(s.language),
                    Some(s.file_path.clone()),
                    0,
                    0,
                    no_chunks,
                );
                assert(label@ == file_label(s.file_path@));
                assert(vindex(ns1, file_id@) is None);
                assert(node_views(graph.nodes@) =~= ns1.push(file_node(*s)));
            }
            graph.link(&node_id, &file_id, EdgeType::DefinedIn, 100);
            graph.link(&file_id, &node_id, EdgeType::DefinedIn, 100);
            i = i + 1;
        }
        let ghost d = graph_view(*graph);
        let mut i: usize = 0;
        while i < symbols.len()
            invariant
                0 <= i <= symbols.len(),
                graph.wf(),
                node_views(graph.nodes@) == d.0,
                edge_views(graph.edges@) == members_upto(d.1, symbols@, i as int),
            decreases symbols.len() - i,
        {
            let m = &symbols[i];
            if m.kind == SymbolKind::Method {
                let mut j: usize = 0;
                let mut found: Option<usize> = None;
                while j < symbols.len()
                    invariant
                        0 <= j <= symbols.len(),
                        found == match container_upto(symbols@, *m, j as int) {
                            Some(c) => Some(c as usize),
                            None => None::<usize>,
                        },
                    decreases symbols.len() - j,
                {
                    let c = &symbols[j];
                    if found.is_none() && (c.kind == SymbolKind::Class || c.kind == SymbolKind::Interface)
                        && crate::graph::string_eq(&c.file_path, &m.file_path) && c.start_line <= m.start_line
                        && c.end_line >= m.end_line {
                        found = Some(j);
                    }
                    j = j + 1;
                }
                match found {
                    Some(c) => {
                        proof {
                            lemma_container_upto(symbols@, *m, symbols@.len() as int);
                        }
                        let mid = NodeId(m.id.clone());
                        let cid = NodeId(symbols[c].id.clone());
                        graph.link(&mid, &cid, EdgeType::MemberOf, 100);
                    },
                    None => {},
                }
            }
            i = i + 1;
        }
    }

    /// Removes the nodes that belong to the given files, then every edge
    /// whose source or target is no longer a node.
    pub fn prune_files(graph: &mut CodeGraph, files: &[String])
        requires
            old(graph).wf(),
        ensures
            final(graph).wf(),
            node_views(final(graph).nodes@) == kept_nodes(
                node_views(old(graph).nodes@),
                strs(files@),
                old(graph).nodes@.len() as int,
            ),
            edge_views(final(graph).edges@) == kept_edges(
                edge_views(old(graph).edges@),
                node_views(final(graph).nodes@),
                old(graph).edges@.len() as int,
            ),
    {
        let ghost fs = strs(files@);
        let ghost ns0 = node_views(graph.nodes@);
        let mut nodes: Vec<crate::graph::GraphNode> = Vec::new();
        let mut old_nodes: Vec<crate::graph::GraphNode> = Vec::new();
        std::mem::swap(&mut old_nodes, &mut graph.nodes);
        assert(node_views(old_nodes@) == ns0);
        let mut i: usize = 0;
        while i < old_nodes.len()
            invariant
                0 <= i <= old_nodes.len(),
                ns0 == node_views(old_nodes@),
                crate::graph::unique_ids(old_nodes@),
                fs == strs(files@),
                node_views(nodes@) == kept_nodes(ns0, fs, i as int),
                forall|k: int| 0 <= k < nodes@.len() ==> exists|j: int| 0 <= j < i && #[trigger] nodes@[k].id@ == old_nodes@[j].id@,
                crate::graph::unique_ids(nodes@),
            decreases old_nodes.len() - i,
        {
            let n = &old_nodes[i];
            let keep = match &n.file_path {
                Some(p) => {
                    let mut found = false;
                    let mut j: usize = 0;
                    while j < files.len()
                        invariant
                            0 <= j <= files.len(),
                            fs == strs(files@),
                            found == exists|t: int| 0 <= t < j && #[trigger] fs[t] == p@,
                        decreases files.len() - j,
                    {
                        if crate::graph::string_eq(&files[j], p) {
                            found = true;
                        }
                        assert(fs[j as int] == files@[j as int]@);
                        j = j + 1;
                    }
                    !found
                },
                None => true,
            };
            assert(keep == survives(ns0[i as int], fs));
            if keep {
                let ghost prev = nodes@;
                nodes.push(n.clone());
                assert(node_views(nodes@) =~= kept_nodes(ns0, fs, i as int).push(ns0[i as int]));
                assert forall|a: int, b: int|
                    0 <= a < nodes@.len() && 0 <= b < nodes@.len() && a != b implies #[trigger] nodes@[a].id@
                    != #[trigger] nodes@[b].id@ by {
                    let m = prev.len() as int;
                    if a < m && b < m {
                        assert(prev[a].id@ != prev[b].id@);
                    } else if a == m {
                        let j = choose|j: int| 0 <= j < i && #[trigger] prev[b].id@ == old_nodes@[j].id@;
                        assert(old_nodes@[j].id@ != old_nodes@[i as int].id@);
                    } else {
                        let j = choose|j: int| 0 <= j < i && #[trigger] prev[a].id@ == old_nodes@[j].id@;
                        assert(old_nodes@[j].id@ != old_nodes@[i as int].id@);
                    }
                }
                assert forall|k: int| 0 <= k < nodes@.len() implies exists|j: int| 0 <= j < i + 1 && #[trigger] nodes@[k].id@ == old_nodes@[j].id@ by {
                    if k < prev.len() {
                        let j = choose|j: int| 0 <= j < i && #[trigger] prev[k].id@ == old_nodes@[j].id@;
                        assert(nodes@[k].id@ == old_nodes@[j].id@);
                    } else {
                        assert(nodes@[k].id@ == old_nodes@[i as int].id@);
                    }
                }
            }
            i = i + 1;
        }
        graph.nodes = nodes;
        let ghost ns1 = node_views(graph.nodes@);
        let ghost es0 = edge_views(graph.edges@);
        let mut old_edges: Vec<crate::graph::Edge> = Vec::new();
        std::mem::swap(&mut old_edges, &mut graph.edges);
        assert(edge_views(old_edges@) == es0);
        let mut i: usize = 0;
        while i < old_edges.len()
            invariant
                0 <= i <= old_edges.len(),
                es0 == edge_views(old_edges@),
                ns1 == node_views(graph.nodes@),
                graph.wf(),
                edge_views(graph.edges@) == kept_edges(es0, ns1, i as int),
            decreases old_edges.len() - i,
        {
            let e = &old_edges[i];
            proof {
                lemma_unique_views(graph.nodes@);
            }
            if graph.contains_node(&e.source) && graph.contains_node(&e.target) {
                let ghost prev = graph.edges@;
                graph.edges.push(e.clone());
                assert(edge_views(graph.edges@) =~= edge_views(prev).push(es0[i as int]));
            }
            i = i + 1;
        }
    }
}

} // verus!
