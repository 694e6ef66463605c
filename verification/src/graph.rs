//! The code graph: symbols, files and variables as nodes, and typed edges
//! between them.
use vstd::prelude::*;
use vstd::std_specs::cmp::PartialEqSpecImpl;
use crate::models::{Chunk, Language};

verus! {

/// What a graph node stands for.
#[derive(Clone, Copy, Debug, PartialEq, Eq, Structural)]
pub enum NodeType {
    Function,
    Class,
    File,
    Module,
    Variable,
}

/// The identifier of a graph node.
#[derive(Debug)]
pub struct NodeId(pub String);

impl View for NodeId {
    type V = Seq<char>;

    open spec fn view(&self) -> Seq<char> {
        self.0@
    }
}

impl Clone for NodeId {
    fn clone(&self) -> (r: Self)
        ensures
            r == *self,
    {
        NodeId(self.0.clone())
    }
}

impl PartialEq for NodeId {
    fn eq(&self, other: &Self) -> (r: bool) {
        self.0 == other.0
    }
}

impl PartialEqSpecImpl for NodeId {
    open spec fn obeys_eq_spec() -> bool {
        true
    }

    open spec fn eq_spec(&self, other: &NodeId) -> bool {
        self.0@ == other.0@
    }
}

impl Eq for NodeId {

}

/// Copies a vector of strings.
pub fn clone_strings(v: &Vec<String>) -> (r: Vec<String>)
    ensures
        r@ == v@,
{
    let mut r: Vec<String> = Vec::new();
    let mut i: usize = 0;
    while i < v.len()
        invariant
            0 <= i <= v.len(),
            r@ == v@.take(i as int),
        decreases v.len() - i,
    {
        r.push(v[i].clone());
        i = i + 1;
        assert(r@ =~= v@.take(i as int));
    }
    assert(v@.take(v.len() as int) =~= v@);
    r
}

/// Copies an optional string.
pub fn clone_opt_string(o: &Option<String>) -> (r: Option<String>)
    ensures
        r == *o,
{
    match o {
        Some(s) => Some(s.clone()),
        None => None,
    }
}

/// The characters of an optional string.
pub open spec fn opt_str(o: Option<String>) -> Option<Seq<char>> {
    match o {
        Some(s) => Some(s@),
        None => None,
    }
}

/// The characters of each string.
pub open spec fn strs(v: Seq<String>) -> Seq<Seq<char>> {
    v.map_values(|s: String| s@)
}

/// The abstract value of a graph node: identifier, kind, label, fully
/// qualified name, language, file path, first and last line, chunk ids.
pub type NodeView = (
    Seq<char>,
    NodeType,
    Seq<char>,
    Option<Seq<char>>,
    Option<Language>,
    Option<Seq<char>>,
    usize,
    usize,
    Seq<Seq<char>>,
);

/// A node of the code graph.
#[derive(Debug)]
pub struct GraphNode {
    pub id: NodeId,
    pub kind: NodeType,
    /// Name or path.
    pub label: String,
    pub fqn: Option<String>,
    pub language: Option<Language>,
    pub file_path: Option<String>,
    pub start_line: usize,
    pub end_line: usize,
    pub chunk_ids: Vec<String>,
}

impl View for GraphNode {
    type V = NodeView;

    open spec fn view(&self) -> NodeView {
        (
            self.id@,
            self.kind,
            self.label@,
            opt_str(self.fqn),
            self.language,
            opt_str(self.file_path),
            self.start_line,
            self.end_line,
            strs(self.chunk_ids@),
        )
    }
}

/// The abstract values of a sequence of nodes.
pub open spec fn node_views(s: Seq<GraphNode>) -> Seq<NodeView> {
    s.map_values(|n: GraphNode| n@)
}

impl Clone for GraphNode {
    fn clone(&self) -> (r: Self)
        ensures
            r@ == self@,
    {
        GraphNode {
            id: self.id.clone(),
            kind: self.kind,
            label: self.label.clone(),
            fqn: clone_opt_string(&self.fqn),
            language: self.language,
            file_path: clone_opt_string(&self.file_path),
            start_line: self.start_line,
            end_line: self.end_line,
            chunk_ids: clone_strings(&self.chunk_ids),
        }
    }
}

/// The relation an edge records.
#[derive(Clone, Copy, Debug, PartialEq, Eq, Structural, Hash, PartialOrd, Ord)]
pub enum EdgeType {
    Calls,
    DefinedIn,
    Imports,
    MemberOf,
    DataFlow,
}

/// A directed, typed edge. `confidence` is in hundredths: 100 for an edge
/// that was resolved unambiguously, 50 for one of several candidates.
#[derive(Debug)]
pub struct Edge {
    pub source: NodeId,
    pub target: NodeId,
    pub kind: EdgeType,
    pub confidence: u8,
}

impl Clone for Edge {
    fn clone(&self) -> (r: Self)
        ensures
            r == *self,
    {
        Edge {
            source: self.source.clone(),
            target: self.target.clone(),
            kind: self.kind,
            confidence: self.confidence,
        }
    }
}

/// The identity of an edge: its endpoints and kind.
pub open spec fn edge_key(e: Edge) -> (Seq<char>, Seq<char>, EdgeType) {
    (e.source@, e.target@, e.kind)
}

/// The abstract value of an edge: source, target, kind and confidence.
pub type EdgeView = (Seq<char>, Seq<char>, EdgeType, u8);

pub open spec fn edge_view(e: Edge) -> EdgeView {
    (e.source@, e.target@, e.kind, e.confidence)
}

pub open spec fn edge_views(s: Seq<Edge>) -> Seq<EdgeView> {
    s.map_values(|e: Edge| edge_view(e))
}

/// Whether an edge from `s` to `t` of kind `k` is recorded.
pub open spec fn has_edge(es: Seq<EdgeView>, s: Seq<char>, t: Seq<char>, k: EdgeType) -> bool {
    exists|i: int| 0 <= i < es.len() && #[trigger] es[i].0 == s && es[i].1 == t && es[i].2 == k
}

/// The edges after linking `s` to `t` by `k`: unchanged when such an edge
/// is already recorded, else with the new edge last.
pub open spec fn link(es: Seq<EdgeView>, s: Seq<char>, t: Seq<char>, k: EdgeType, c: u8) -> Seq<
    EdgeView,
> {
    if has_edge(es, s, t, k) {
        es
    } else {
        es.push((s, t, k, c))
    }
}

/// No two edges share source, target and kind.
pub open spec fn keys_unique(es: Seq<EdgeView>) -> bool {
    forall|i: int, j: int|
        0 <= i < es.len() && 0 <= j < es.len() && i != j ==> !(#[trigger] es[i].0 == #[trigger] es[j].0
            && es[i].1 == es[j].1 && es[i].2 == es[j].2)
}

/// Linking keeps edge keys unique, keeps every earlier edge where it was,
/// and leaves the edge recorded.
pub proof fn lemma_link(es: Seq<EdgeView>, s: Seq<char>, t: Seq<char>, k: EdgeType, c: u8)
    ensures
        keys_unique(es) ==> keys_unique(link(es, s, t, k, c)),
        es.is_prefix_of(link(es, s, t, k, c)),
        fresh_from(link(es, s, t, k, c), es.len() as int),
        has_edge(link(es, s, t, k, c), s, t, k),
        forall|a: Seq<char>, b: Seq<char>, q: EdgeType|
            has_edge(es, a, b, q) ==> has_edge(link(es, s, t, k, c), a, b, q),
{
    let r = link(es, s, t, k, c);
    if !has_edge(es, s, t, k) {
        assert(r[es.len() as int] == (s, t, k, c));
        assert(r[es.len() as int].0 == s);
        assert forall|a: Seq<char>, b: Seq<char>, q: EdgeType|
            has_edge(es, a, b, q) implies has_edge(r, a, b, q) by {
            let w = choose|i: int| 0 <= i < es.len() && #[trigger] es[i].0 == a && es[i].1 == b && es[i].2 == q;
            assert(r[w] == es[w]);
        }
        assert forall|i: int, j: int|
            es.len() <= i < r.len() && 0 <= j < r.len() && i != j implies !(#[trigger] r[i].0
            == #[trigger] r[j].0 && r[i].1 == r[j].1 && r[i].2 == r[j].2) by {
            assert(r[j] == es[j]);
        }
        if keys_unique(es) {
            assert forall|i: int, j: int|
                0 <= i < r.len() && 0 <= j < r.len() && i != j implies !(#[trigger] r[i].0
                == #[trigger] r[j].0 && r[i].1 == r[j].1 && r[i].2 == r[j].2) by {
                let m = es.len() as int;
                if i < m && j < m {
                    assert(r[i] == es[i] && r[j] == es[j]);
                } else if i == m {
                    assert(r[j] == es[j]);
                } else {
                    assert(r[i] == es[i]);
                }
            }
        }
    }
}

/// Every edge from position `n` on differs in source, target or kind from
/// every other edge.
pub open spec fn fresh_from(es: Seq<EdgeView>, n: int) -> bool {
    forall|i: int, j: int|
        n <= i < es.len() && 0 <= j < es.len() && i != j ==> !(#[trigger] es[i].0 == #[trigger] es[j].0
            && es[i].1 == es[j].1 && es[i].2 == es[j].2)
}

/// Two extensions whose added edges are fresh make one.
pub proof fn lemma_fresh_trans(a: Seq<EdgeView>, b: Seq<EdgeView>, c: Seq<EdgeView>)
    requires
        a.is_prefix_of(b),
        b.is_prefix_of(c),
        fresh_from(b, a.len() as int),
        fresh_from(c, b.len() as int),
    ensures
        fresh_from(c, a.len() as int),
{
    assert forall|i: int, j: int|
        a.len() <= i < c.len() && 0 <= j < c.len() && i != j implies !(#[trigger] c[i].0 == #[trigger] c[j].0
        && c[i].1 == c[j].1 && c[i].2 == c[j].2) by {
        if i >= b.len() {
        } else if j >= b.len() {
            assert(!(c[j].0 == c[i].0 && c[j].1 == c[i].1 && c[j].2 == c[i].2));
        } else {
            assert(c[i] == b[i] && c[j] == b[j]);
        }
    }
}

/// The code graph. `nodes` holds at most one node per identifier.
#[derive(Debug)]
pub struct CodeGraph {
    pub nodes: Vec<GraphNode>,
    pub edges: Vec<Edge>,
}

/// The position of the node with identifier `id`, searching from the end of
/// the first `n` nodes.
pub open spec fn index_upto(nodes: Seq<GraphNode>, id: Seq<char>, n: int) -> Option<int>
    decreases n,
{
    if n <= 0 {
        None
    } else if nodes[n - 1].id@ == id {
        Some(n - 1)
    } else {
        index_upto(nodes, id, n - 1)
    }
}

pub open spec fn index_of(nodes: Seq<GraphNode>, id: Seq<char>) -> Option<int> {
    index_upto(nodes, id, nodes.len() as int)
}

pub open spec fn has_id(nodes: Seq<GraphNode>, id: Seq<char>) -> bool {
    exists|i: int| 0 <= i < nodes.len() && #[trigger] nodes[i].id@ == id
}

pub open spec fn unique_ids(nodes: Seq<GraphNode>) -> bool {
    forall|i: int, j: int|
        0 <= i < nodes.len() && 0 <= j < nodes.len() && i != j ==> #[trigger] nodes[i].id@
            != #[trigger] nodes[j].id@
}

pub proof fn lemma_index_upto(nodes: Seq<GraphNode>, id: Seq<char>, n: int)
    requires
        0 <= n <= nodes.len(),
    ensures
        match index_upto(nodes, id, n) {
            Some(i) => 0 <= i < n && nodes[i].id@ == id && forall|j: int|
                i < j < n ==> #[trigger] nodes[j].id@ != id,
            None => forall|j: int| 0 <= j < n ==> #[trigger] nodes[j].id@ != id,
        },
    decreases n,
{
    if n > 0 && nodes[n - 1].id@ != id {
        lemma_index_upto(nodes, id, n - 1);
    }
}

/// With unique identifiers, `index_of` finds the one node with that id.
pub proof fn lemma_index_of(nodes: Seq<GraphNode>, id: Seq<char>)
    requires
        unique_ids(nodes),
    ensures
        match index_of(nodes, id) {
            Some(i) => 0 <= i < nodes.len() && nodes[i].id@ == id,
            None => !has_id(nodes, id),
        },
        has_id(nodes, id) <==> index_of(nodes, id) is Some,
        forall|i: int| 0 <= i < nodes.len() && nodes[i].id@ == id ==> index_of(nodes, id) == Some(i),
{
    lemma_index_upto(nodes, id, nodes.len() as int);
}

/// The node with identifier `id`, if any.
pub open spec fn node_with(g: CodeGraph, id: Seq<char>) -> Option<NodeView> {
    match index_of(g.nodes@, id) {
        Some(i) => Some(g.nodes@[i]@),
        None => None,
    }
}

/// The position of the last node view with identifier `id` among the first
/// `n`.
pub open spec fn vindex_upto(ns: Seq<NodeView>, id: Seq<char>, n: int) -> Option<int>
    decreases n,
{
    if n <= 0 {
        None
    } else if ns[n - 1].0 == id {
        Some(n - 1)
    } else {
        vindex_upto(ns, id, n - 1)
    }
}

pub open spec fn vindex(ns: Seq<NodeView>, id: Seq<char>) -> Option<int> {
    vindex_upto(ns, id, ns.len() as int)
}

/// Whether some node view has identifier `id`.
pub open spec fn vhas(ns: Seq<NodeView>, id: Seq<char>) -> bool {
    exists|i: int| 0 <= i < ns.len() && #[trigger] ns[i].0 == id
}

/// No two node views share an identifier.
pub open spec fn vunique(ns: Seq<NodeView>) -> bool {
    forall|i: int, j: int|
        0 <= i < ns.len() && 0 <= j < ns.len() && i != j ==> #[trigger] ns[i].0 != #[trigger] ns[j].0
}

/// The nodes after inserting `n`: it replaces the node with its identifier
/// in place, or comes last.
pub open spec fn put_node(ns: Seq<NodeView>, n: NodeView) -> Seq<NodeView> {
    match vindex(ns, n.0) {
        Some(i) => ns.update(i, n),
        None => ns.push(n),
    }
}

pub proof fn lemma_vindex_upto(ns: Seq<NodeView>, id: Seq<char>, n: int)
    requires
        0 <= n <= ns.len(),
    ensures
        match vindex_upto(ns, id, n) {
            Some(i) => 0 <= i < n && ns[i].0 == id,
            None => forall|j: int| 0 <= j < n ==> #[trigger] ns[j].0 != id,
        },
    decreases n,
{
    if n > 0 && ns[n - 1].0 != id {
        lemma_vindex_upto(ns, id, n - 1);
    }
}

pub proof fn lemma_index_views(nodes: Seq<GraphNode>, id: Seq<char>, n: int)
    requires
        0 <= n <= nodes.len(),
    ensures
        index_upto(nodes, id, n) == vindex_upto(node_views(nodes), id, n),
    decreases n,
{
    if n > 0 {
        lemma_index_views(nodes, id, n - 1);
    }
}

/// Identifiers are unique among nodes exactly when they are among their
/// views.
pub proof fn lemma_unique_views(nodes: Seq<GraphNode>)
    ensures
        unique_ids(nodes) <==> vunique(node_views(nodes)),
        forall|id: Seq<char>| has_id(nodes, id) <==> vhas(node_views(nodes), id),
{
    let vs = node_views(nodes);
    assert forall|id: Seq<char>| has_id(nodes, id) <==> vhas(vs, id) by {
        if has_id(nodes, id) {
            let w = choose|i: int| 0 <= i < nodes.len() && #[trigger] nodes[i].id@ == id;
            assert(vs[w].0 == id);
        }
        if vhas(vs, id) {
            let w = choose|i: int| 0 <= i < vs.len() && #[trigger] vs[i].0 == id;
            assert(nodes[w].id@ == id);
        }
    }
    if unique_ids(nodes) {
        assert forall|i: int, j: int|
            0 <= i < vs.len() && 0 <= j < vs.len() && i != j implies #[trigger] vs[i].0
            != #[trigger] vs[j].0 by {
            assert(nodes[i].id@ != nodes[j].id@);
        }
    }
    if vunique(vs) {
        assert forall|i: int, j: int|
            0 <= i < nodes.len() && 0 <= j < nodes.len() && i != j implies #[trigger] nodes[i].id@
            != #[trigger] nodes[j].id@ by {
            assert(vs[i].0 != vs[j].0);
        }
    }
}

/// Inserting a node keeps identifiers unique, and the node is then present.
pub proof fn lemma_put_node(ns: Seq<NodeView>, n: NodeView)
    requires
        vunique(ns),
    ensures
        vunique(put_node(ns, n)),
        vhas(put_node(ns, n), n.0),
        vindex(put_node(ns, n), n.0) matches Some(i) && put_node(ns, n)[i] == n,
        forall|id: Seq<char>| id != n.0 ==> vhas(put_node(ns, n), id) == vhas(ns, id),
        forall|id: Seq<char>| id != n.0 ==> vindex(put_node(ns, n), id) == vindex(ns, id),
        forall|i: int| 0 <= i < ns.len() && ns[i].0 != n.0 ==> put_node(ns, n)[i] == ns[i],
{
    lemma_vindex_unique(ns, n.0);
    let r = put_node(ns, n);
    let m = ns.len() as int;
    // where `n` lands
    let k: int = match vindex(ns, n.0) {
        Some(k) => k,
        None => m,
    };
    assert(r[k] == n);
    assert forall|i: int| 0 <= i < r.len() && i != k implies r[i] == ns[i] && ns[i].0 != n.0 by {
        if vindex(ns, n.0) is None {
            assert(ns[i].0 != n.0);
        } else {
            assert(ns[i].0 != ns[k].0);
        }
    }
    assert forall|a: int, b: int|
        0 <= a < r.len() && 0 <= b < r.len() && a != b implies #[trigger] r[a].0
        != #[trigger] r[b].0 by {
        if a != k && b != k {
            assert(ns[a].0 != ns[b].0);
        }
    }
    lemma_vindex_unique(r, n.0);
    assert forall|id: Seq<char>| id != n.0 implies vhas(r, id) == vhas(ns, id) && vindex(r, id)
        == vindex(ns, id) by {
        lemma_vindex_unique(ns, id);
        lemma_vindex_unique(r, id);
        if vhas(ns, id) {
            let w = choose|i: int| 0 <= i < ns.len() && #[trigger] ns[i].0 == id;
            assert(w != k);
            assert(r[w].0 == id);
        }
        if vhas(r, id) {
            let w = choose|i: int| 0 <= i < r.len() && #[trigger] r[i].0 == id;
            assert(w != k);
            assert(ns[w].0 == id);
        }
    }
}

/// With unique identifiers, `vindex` finds exactly the node with that id.
pub proof fn lemma_vindex_unique(ns: Seq<NodeView>, id: Seq<char>)
    requires
        vunique(ns),
    ensures
        vhas(ns, id) <==> vindex(ns, id) is Some,
        vindex(ns, id) matches Some(i) ==> 0 <= i < ns.len() && ns[i].0 == id,
        forall|i: int| 0 <= i < ns.len() && ns[i].0 == id ==> vindex(ns, id) == Some(i),
{
    lemma_vindex_upto(ns, id, ns.len() as int);
    if vhas(ns, id) {
        let w = choose|i: int| 0 <= i < ns.len() && #[trigger] ns[i].0 == id;
        assert(ns[w].0 == id);
    }
}

/// The number of lines that `[a_start, a_end]` and `[b_start, b_end]`
/// share.
pub open spec fn overlap_spec(a_start: int, a_end: int, b_start: int, b_end: int) -> int {
    let start = if a_start >= b_start {
        a_start
    } else {
        b_start
    };
    let end = if a_end <= b_end {
        a_end
    } else {
        b_end
    };
    if start > end {
        0
    } else {
        end - start + 1
    }
}

/// Counts the lines two inclusive line ranges share.
pub fn overlap_lines(a_start: usize, a_end: usize, b_start: usize, b_end: usize) -> (n: usize)
    requires
        overlap_spec(a_start as int, a_end as int, b_start as int, b_end as int) <= usize::MAX,
    ensures
        n == overlap_spec(a_start as int, a_end as int, b_start as int, b_end as int),
{
    let start = if a_start >= b_start {
        a_start
    } else {
        b_start
    };
    let end = if a_end <= b_end {
        a_end
    } else {
        b_end
    };
    if start > end {
        0
    } else {
        end - start + 1
    }
}

/// The overlap computed without an upper bound.
pub(crate) fn overlap_wide(a_start: usize, a_end: usize, b_start: usize, b_end: usize) -> (n: u128)
    ensures
        n == overlap_spec(a_start as int, a_end as int, b_start as int, b_end as int),
{
    let start = if a_start >= b_start {
        a_start
    } else {
        b_start
    };
    let end = if a_end <= b_end {
        a_end
    } else {
        b_end
    };
    if start > end {
        0
    } else {
        (end - start) as u128 + 1
    }
}

/// Compares two strings by their characters.
pub fn string_eq(a: &String, b: &String) -> (r: bool)
    ensures
        r == (a@ == b@),
{
    *a == *b
}

/// The score with which a node claims a chunk: shared lines plus a bonus
/// by kind (functions and modules 1000, classes 500), or none when the
/// node is in another file or shares no line.
pub open spec fn chunk_claim(n: GraphNode, c: Chunk) -> Option<int> {
    match n.file_path {
        Some(p) => {
            let ov = overlap_spec(n.start_line as int, n.end_line as int, c.start_line as int, c.end_line as int);
            if p@ != c.file_path@ || ov == 0 {
                None
            } else {
                Some(ov + match n.kind {
                    NodeType::Function | NodeType::Module => 1000int,
                    NodeType::Class => 500int,
                    _ => 0int,
                })
            }
        },
        None => None,
    }
}

/// The first node, among the first `n`, with the highest claim on the chunk.
pub open spec fn best_claim_upto(nodes: Seq<GraphNode>, c: Chunk, n: int) -> Option<int>
    decreases n,
{
    if n <= 0 {
        None
    } else {
        let prev = best_claim_upto(nodes, c, n - 1);
        match chunk_claim(nodes[n - 1], c) {
            Some(s) => match prev {
                Some(b) => if s > chunk_claim(nodes[b], c)->0 {
                    Some(n - 1)
                } else {
                    prev
                },
                None => Some(n - 1),
            },
            None => prev,
        }
    }
}

pub proof fn lemma_best_claim_upto(nodes: Seq<GraphNode>, c: Chunk, n: int)
    requires
        0 <= n <= nodes.len(),
    ensures
        match best_claim_upto(nodes, c, n) {
            Some(b) => 0 <= b < n && chunk_claim(nodes[b], c) is Some && forall|j: int|
                0 <= j < n && chunk_claim(#[trigger] nodes[j], c) is Some ==> chunk_claim(
                    nodes[j],
                    c,
                )->0 <= chunk_claim(nodes[b], c)->0,
            None => forall|j: int| 0 <= j < n ==> chunk_claim(#[trigger] nodes[j], c) is None,
        },
    decreases n,
{
    if n > 0 {
        lemma_best_claim_upto(nodes, c, n - 1);
    }
}

impl Default for CodeGraph {
    fn default() -> (g: Self)
        ensures
            g.wf(),
            g.nodes@.len() == 0,
            g.edges@.len() == 0,
    {
        CodeGraph { nodes: Vec::new(), edges: Vec::new() }
    }
}

impl CodeGraph {
    /// The graph's invariant: no two nodes share an identifier.
    pub open spec fn wf(&self) -> bool {
        unique_ids(self.nodes@)
    }

    /// An empty graph.
    pub fn new() -> (g: Self)
        ensures
            g.wf(),
            g.nodes@.len() == 0,
            g.edges@.len() == 0,
    {
        CodeGraph { nodes: Vec::new(), edges: Vec::new() }
    }

    /// Finds the position of the node with identifier `id`.
    pub fn position(&self, id: &NodeId) -> (r: Option<usize>)
        requires
            self.wf(),
        ensures
            match r {
                Some(i) => index_of(self.nodes@, id@) == Some(i as int),
                None => index_of(self.nodes@, id@) is None,
            },
    {
        proof {
            lemma_index_of(self.nodes@, id@);
        }
        let mut i: usize = 0;
        while i < self.nodes.len()
            invariant
                0 <= i <= self.nodes.len(),
                unique_ids(self.nodes@),
                forall|j: int| 0 <= j < i ==> #[trigger] self.nodes@[j].id@ != id@,
            decreases self.nodes.len() - i,
        {
            if self.nodes[i].id.0 == id.0 {
                proof {
                    lemma_index_of(self.nodes@, id@);
                }
                return Some(i);
            }
            i = i + 1;
        }
        proof {
            lemma_index_of(self.nodes@, id@);
        }
        None
    }

    /// Whether a node with identifier `id` exists.
    pub fn contains_node(&self, id: &NodeId) -> (b: bool)
        requires
            self.wf(),
        ensures
            b == has_id(self.nodes@, id@),
    {
        proof {
            lemma_index_of(self.nodes@, id@);
        }
        self.position(id).is_some()
    }

    /// A copy of the node with identifier `id`, if any.
    pub fn get_node(&self, id: &NodeId) -> (r: Option<GraphNode>)
        requires
            self.wf(),
        ensures
            match r {
                Some(n) => node_with(*self, id@) == Some(n@),
                None => node_with(*self, id@) is None,
            },
    {
        proof {
            lemma_index_of(self.nodes@, id@);
        }
        match self.position(id) {
            Some(i) => Some(self.nodes[i].clone()),
            None => None,
        }
    }

    /// Inserts a node, replacing any node with the same identifier in place.
    pub fn add_node(
        &mut self,
        id: NodeId,
        kind: NodeType,
        label: String,
        fqn: Option<String>,
        language: Option<Language>,
        file_path: Option<String>,
        start_line: usize,
        end_line: usize,
        chunk_ids: Vec<String>,
    )
        requires
            old(self).wf(),
        ensures
            final(self).wf(),
            final(self).edges@ == old(self).edges@,
            ({
                let node: NodeView = (
                    id@,
                    kind,
                    label@,
                    opt_str(fqn),
                    language,
                    opt_str(file_path),
                    start_line,
                    end_line,
                    strs(chunk_ids@),
                );
                node_views(final(self).nodes@) == put_node(node_views(old(self).nodes@), node)
            }),
    {
        let node = GraphNode {
            id,
            kind,
            label,
            fqn,
            language,
            file_path,
            start_line,
            end_line,
            chunk_ids,
        };
        proof {
            lemma_index_of(self.nodes@, node.id@);
            lemma_index_views(self.nodes@, node.id@, self.nodes@.len() as int);
        }
        match self.position(&node.id) {
            Some(i) => {
                self.nodes.set(i, node);
                assert(node_views(self.nodes@) =~= node_views(old(self).nodes@).update(i as int, node@));
                assert forall|a: int, b: int|
                    0 <= a < self.nodes@.len() && 0 <= b < self.nodes@.len() && a != b implies
                    #[trigger] self.nodes@[a].id@ != #[trigger] self.nodes@[b].id@ by {
                    assert(old(self).nodes@[i as int].id@ == node.id@);
                    if a != i && b != i {
                        assert(old(self).nodes@[a].id@ != old(self).nodes@[b].id@);
                    } else if a == i {
                        assert(old(self).nodes@[i as int].id@ != old(self).nodes@[b].id@);
                    } else {
                        assert(old(self).nodes@[a].id@ != old(self).nodes@[i as int].id@);
                    }
                }
            },
            None => {
                self.nodes.push(node);
                assert(node_views(self.nodes@) =~= node_views(old(self).nodes@).push(node@));
                assert forall|a: int, b: int|
                    0 <= a < self.nodes@.len() && 0 <= b < self.nodes@.len() && a != b implies
                    #[trigger] self.nodes@[a].id@ != #[trigger] self.nodes@[b].id@ by {
                    let n = old(self).nodes@.len() as int;
                    if a < n && b < n {
                        assert(old(self).nodes@[a].id@ != old(self).nodes@[b].id@);
                    } else if a == n {
                        assert(self.nodes@[b].id@ == old(self).nodes@[b].id@);
                    } else {
                        assert(self.nodes@[a].id@ == old(self).nodes@[a].id@);
                    }
                }
            },
        }
    }

    /// Appends an edge with full confidence.
    pub fn add_edge(&mut self, source: NodeId, target: NodeId, kind: EdgeType)
        ensures
            final(self).nodes@ == old(self).nodes@,
            final(self).edges@ == old(self).edges@.push(
                Edge { source, target, kind, confidence: 100 },
            ),
    {
        self.edges.push(Edge { source, target, kind, confidence: 100 });
    }

    /// Whether an edge from `source` to `target` of kind `kind` is recorded.
    pub fn has_edge(&self, source: &NodeId, target: &NodeId, kind: EdgeType) -> (b: bool)
        ensures
            b == has_edge(edge_views(self.edges@), source@, target@, kind),
    {
        let ghost es = edge_views(self.edges@);
        let mut i: usize = 0;
        while i < self.edges.len()
            invariant
                0 <= i <= self.edges.len(),
                es == edge_views(self.edges@),
                forall|j: int| 0 <= j < i ==> !(#[trigger] es[j].0 == source@ && es[j].1 == target@
                    && es[j].2 == kind),
            decreases self.edges.len() - i,
        {
            let e = &self.edges[i];
            if string_eq(&e.source.0, &source.0) && string_eq(&e.target.0, &target.0) && e.kind == kind {
                assert(es[i as int].0 == source@);
                return true;
            }
            i = i + 1;
        }
        false
    }

    /// Records an edge unless one with the same source, target and kind is
    /// already there; says whether it was added.
    pub fn link(&mut self, source: &NodeId, target: &NodeId, kind: EdgeType, confidence: u8) -> (added: bool)
        ensures
            final(self).nodes@ == old(self).nodes@,
            edge_views(final(self).edges@) == link(edge_views(old(self).edges@), source@, target@, kind, confidence),
            added == !has_edge(edge_views(old(self).edges@), source@, target@, kind),
    {
        if self.has_edge(source, target, kind) {
            false
        } else {
            let e = Edge { source: source.clone(), target: target.clone(), kind, confidence };
            self.edges.push(e);
            assert(edge_views(self.edges@) =~= edge_views(old(self).edges@).push((source@, target@, kind, confidence)));
            true
        }
    }

    /// Removes every node and edge.
    pub fn clear(&mut self)
        ensures
            final(self).wf(),
            final(self).nodes@.len() == 0,
            final(self).edges@.len() == 0,
    {
        self.nodes.clear();
        self.edges.clear();
    }

    /// The node that best covers a chunk: among the nodes of the chunk's file
    /// that share lines with it, the one with most shared lines plus its kind
    /// bonus; the first such node on ties.
    pub fn find_node_for_chunk(&self, chunk: &Chunk) -> (r: Option<NodeId>)
        ensures
            match best_claim_upto(self.nodes@, *chunk, self.nodes@.len() as int) {
                Some(b) => r == Some(self.nodes@[b].id),
                None => r is None,
            },
    {
        let mut best: Option<usize> = None;
        let mut best_score: u128 = 0;
        let mut i: usize = 0;
        while i < self.nodes.len()
            invariant
                0 <= i <= self.nodes.len(),
                best == match best_claim_upto(self.nodes@, *chunk, i as int) {
                    Some(b) => Some(b as usize),
                    None => None::<usize>,
                },
                best_claim_upto(self.nodes@, *chunk, i as int) is Some ==> best_score
                    == chunk_claim(
                    self.nodes@[best_claim_upto(self.nodes@, *chunk, i as int)->0],
                    *chunk,
                )->0,
            decreases self.nodes.len() - i,
        {
            proof {
                lemma_best_claim_upto(self.nodes@, *chunk, i as int);
            }
            let node = &self.nodes[i];
            match &node.file_path {
                Some(p) => {
                    if string_eq(p, &chunk.file_path) {
                        let ov = overlap_wide(
                            node.start_line,
                            node.end_line,
                            chunk.start_line,
                            chunk.end_line,
                        );
                        if ov != 0 {
                            let bonus: u128 = match node.kind {
                                NodeType::Function | NodeType::Module => 1000,
                                NodeType::Class => 500,
                                _ => 0,
                            };
                            let score = ov + bonus;
                            if best.is_none() || score > best_score {
                                best = Some(i);
                                best_score = score;
                            }
                        }
                    }
                },
                None => {},
            }
            i = i + 1;
        }
        proof {
            lemma_best_claim_upto(self.nodes@, *chunk, self.nodes@.len() as int);
        }
        match best {
            Some(b) => Some(self.nodes[b].id.clone()),
            None => None,
        }
    }
}

proof fn lemma_node_with_views(g: CodeGraph, id: Seq<char>)
    ensures
        node_with(g, id) == match vindex(node_views(g.nodes@), id) {
            Some(i) => Some(node_views(g.nodes@)[i]),
            None => None,
        },
{
    lemma_index_views(g.nodes@, id, g.nodes@.len() as int);
    lemma_index_upto(g.nodes@, id, g.nodes@.len() as int);
}

/// Reading a node back after `add_node` gives exactly the node that was
/// added, with every field as given; every other identifier reads as it
/// did before.
pub proof fn law_add_then_get(before: CodeGraph, after: CodeGraph, n: NodeView)
    requires
        before.wf(),
        node_views(after.nodes@) == put_node(node_views(before.nodes@), n),
    ensures
        node_with(after, n.0) == Some(n),
        forall|id: Seq<char>| id != n.0 ==> node_with(after, id) == node_with(before, id),
{
    let vs = node_views(before.nodes@);
    lemma_unique_views(before.nodes@);
    lemma_put_node(vs, n);
    lemma_node_with_views(after, n.0);
    assert forall|id: Seq<char>| id != n.0 implies node_with(after, id) == node_with(before, id) by {
        lemma_node_with_views(after, id);
        lemma_node_with_views(before, id);
        lemma_vindex_upto(vs, id, vs.len() as int);
    }
}

} // verus!
