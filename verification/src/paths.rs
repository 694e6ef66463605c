//! Paths through the code graph: their records, their scores, and the
//! searches that find them.
use vstd::prelude::*;
use crate::graph::{CodeGraph, EdgeType, GraphNode, NodeId, NodeType};
use crate::pet::{edge_kind, edge_kind_exec, edges_at, pg_edges, pg_edges_directed, pg_node_weight,
    pg_nodes, pet_edges_upto, positions};
use crate::text::{append, chars_of, decimal, decimal_exec, join, join_exec, string_of, views};

verus! {

/// A node on a path.
#[derive(Debug)]
pub struct PathNode {
    pub node_id: String,
    pub kind: NodeType,
    pub name: String,
    pub file_path: String,
    pub start_line: usize,
    pub end_line: usize,
}

pub type PathNodeView = (Seq<char>, NodeType, Seq<char>, Seq<char>, usize, usize);

pub open spec fn path_node_view(n: PathNode) -> PathNodeView {
    (n.node_id@, n.kind, n.name@, n.file_path@, n.start_line, n.end_line)
}

/// An edge on a path.
#[derive(Debug)]
pub struct PathEdge {
    pub from_node: String,
    pub to_node: String,
    pub kind: EdgeType,
}

pub type PathEdgeView = (Seq<char>, Seq<char>, EdgeType);

pub open spec fn path_edge_view(e: PathEdge) -> PathEdgeView {
    (e.from_node@, e.to_node@, e.kind)
}

/// A path: its nodes, the edges between consecutive nodes, and its score in
/// tenths.
#[derive(Debug)]
pub struct Path {
    pub id: String,
    pub nodes: Vec<PathNode>,
    pub edges: Vec<PathEdge>,
    pub score: u128,
}

pub type PathView = (Seq<char>, Seq<PathNodeView>, Seq<PathEdgeView>, u128);

pub open spec fn path_view(p: Path) -> PathView {
    (
        p.id@,
        p.nodes@.map_values(|n: PathNode| path_node_view(n)),
        p.edges@.map_values(|e: PathEdge| path_edge_view(e)),
        p.score,
    )
}

pub open spec fn path_views(v: Seq<Path>) -> Seq<PathView> {
    v.map_values(|p: Path| path_view(p))
}

/// A path's identifier: `path_`, its first node's identifier (nothing when
/// it has no node), `_` and its number of nodes.
pub open spec fn path_id(nodes: Seq<PathNodeView>) -> Seq<char> {
    "path_"@ + (if nodes.len() > 0 {
        nodes[0].0
    } else {
        Seq::empty()
    }) + "_"@ + decimal(nodes.len())
}

impl Clone for PathNode {
    fn clone(&self) -> (r: Self)
        ensures
            path_node_view(r) == path_node_view(*self),
    {
        PathNode {
            node_id: self.node_id.clone(),
            kind: self.kind,
            name: self.name.clone(),
            file_path: self.file_path.clone(),
            start_line: self.start_line,
            end_line: self.end_line,
        }
    }
}

impl Clone for PathEdge {
    fn clone(&self) -> (r: Self)
        ensures
            path_edge_view(r) == path_edge_view(*self),
    {
        PathEdge { from_node: self.from_node.clone(), to_node: self.to_node.clone(), kind: self.kind }
    }
}

impl Clone for Path {
    fn clone(&self) -> (r: Self)
        ensures
            path_view(r) == path_view(*self),
    {
        let mut nodes: Vec<PathNode> = Vec::new();
        let mut i: usize = 0;
        while i < self.nodes.len()
            invariant
                0 <= i <= self.nodes.len(),
                nodes@.len() == i,
                forall|k: int| 0 <= k < i ==> path_node_view(#[trigger] nodes@[k]) == path_node_view(self.nodes@[k]),
            decreases self.nodes.len() - i,
        {
            let c = self.nodes[i].clone();
            nodes.push(c);
            i = i + 1;
        }
        assert(nodes@.map_values(|n: PathNode| path_node_view(n)) =~= self.nodes@.map_values(
            |n: PathNode| path_node_view(n),
        ));
        let mut edges: Vec<PathEdge> = Vec::new();
        let mut j: usize = 0;
        while j < self.edges.len()
            invariant
                0 <= j <= self.edges.len(),
                edges@.len() == j,
                forall|k: int| 0 <= k < j ==> path_edge_view(#[trigger] edges@[k]) == path_edge_view(self.edges@[k]),
            decreases self.edges.len() - j,
        {
            let c = self.edges[j].clone();
            edges.push(c);
            j = j + 1;
        }
        assert(edges@.map_values(|e: PathEdge| path_edge_view(e)) =~= self.edges@.map_values(
            |e: PathEdge| path_edge_view(e),
        ));
        Path { id: self.id.clone(), nodes, edges, score: self.score }
    }
}

impl Path {
    /// A path with score 0.
    pub fn new(nodes: Vec<PathNode>, edges: Vec<PathEdge>) -> (p: Self)
        ensures
            path_view(p) == (
                path_id(nodes@.map_values(|n: PathNode| path_node_view(n))),
                nodes@.map_values(|n: PathNode| path_node_view(n)),
                edges@.map_values(|e: PathEdge| path_edge_view(e)),
                0u128,
            ),
    {
        let mut id = chars_of("path_");
        if nodes.len() > 0 {
            let first = chars_of(nodes[0].node_id.as_str());
            append(&mut id, first.as_slice());
        }
        let us = chars_of("_");
        append(&mut id, us.as_slice());
        let digits = decimal_exec(nodes.len());
        append(&mut id, digits.as_slice());
        let p = Path { id: string_of(id.as_slice()), nodes, edges, score: 0 };
        assert(p.id@ =~= path_id(nodes@.map_values(|n: PathNode| path_node_view(n))));
        p
    }
}

/// The number of different files among the first `n` nodes.
pub open spec fn distinct_files(nodes: Seq<PathNodeView>, n: int) -> nat
    decreases n,
{
    if n <= 0 {
        0
    } else if exists|j: int| 0 <= j < n - 1 && (#[trigger] nodes[j]).3 == nodes[n - 1].3 {
        distinct_files(nodes, n - 1)
    } else {
        distinct_files(nodes, n - 1) + 1
    }
}

/// The edge bonus in tenths: 2 for a definition edge, 5 for a call.
pub open spec fn edge_bonus(k: EdgeType) -> nat {
    match k {
        EdgeType::DefinedIn => 2,
        EdgeType::Calls => 5,
        _ => 0,
    }
}

pub open spec fn edge_bonuses(edges: Seq<PathEdgeView>, n: int) -> nat
    decreases n,
{
    if n <= 0 {
        0
    } else {
        edge_bonuses(edges, n - 1) + edge_bonus(edges[n - 1].2)
    }
}

/// A path's score in tenths: 10 for one to four edges, else 5; plus 5 per
/// file when it spans more than one file; plus each edge's bonus.
pub open spec fn score_spec(nodes: Seq<PathNodeView>, edges: Seq<PathEdgeView>) -> nat {
    let base: nat = if 1 <= edges.len() <= 4 {
        10
    } else {
        5
    };
    let files = distinct_files(nodes, nodes.len() as int);
    let spread: nat = if files > 1 {
        5 * files
    } else {
        0
    };
    base + spread + edge_bonuses(edges, edges.len() as int)
}

/// The weight an edge of kind `k` adds to a path under search, in
/// thousandths: the same bonus per edge as the path score.
pub open spec fn edge_weight_spec(k: EdgeType) -> int {
    match k {
        EdgeType::Calls => 500,
        EdgeType::DefinedIn => 200,
        _ => 0,
    }
}

/// Scores paths.
pub struct PathScorer;

impl PathScorer {
    /// A path's score, in tenths.
    pub fn score(path: &Path) -> (s: u128)
        ensures
            s == score_spec(path_view(*path).1, path_view(*path).2),
    {
        let ghost nv = path_view(*path).1;
        let ghost ev = path_view(*path).2;
        let len = path.edges.len();
        let mut score: u128 = if len >= 1 && len <= 4 { 10 } else { 5 };
        let mut files: u128 = 0;
        let mut i: usize = 0;
        while i < path.nodes.len()
            invariant
                0 <= i <= path.nodes.len(),
                nv == path_view(*path).1,
                files == distinct_files(nv, i as int),
                files <= i,
            decreases path.nodes.len() - i,
        {
            let mut seen = false;
            let mut j: usize = 0;
            while j < i
                invariant
                    0 <= j <= i < path.nodes.len(),
                    nv == path_view(*path).1,
                    seen == exists|t: int| 0 <= t < j && (#[trigger] nv[t]).3 == nv[i as int].3,
                decreases i - j,
            {
                if crate::graph::string_eq(&path.nodes[j].file_path, &path.nodes[i].file_path) {
                    assert(nv[j as int].3 == nv[i as int].3);
                    seen = true;
                }
                j = j + 1;
            }
            if !seen {
                files = files + 1;
            }
            i = i + 1;
        }
        if files > 1 {
            score = score + 5 * files;
        }
        let ghost base = score;
        let mut k: usize = 0;
        while k < path.edges.len()
            invariant
                0 <= k <= path.edges.len(),
                ev == path_view(*path).2,
                score == base + edge_bonuses(ev, k as int),
                base <= 10 + 5 * path.nodes@.len(),
                edge_bonuses(ev, k as int) <= 5 * k,
                path.nodes@.len() <= usize::MAX,
                path.edges@.len() <= usize::MAX,
            decreases path.edges.len() - k,
        {
            let b: u128 = match path.edges[k].kind {
                EdgeType::DefinedIn => 2,
                EdgeType::Calls => 5,
                _ => 0,
            };
            assert(ev[k as int].2 == path.edges@[k as int].kind);
            score = score + b;
            k = k + 1;
        }
        score
    }

    /// The weight an edge kind adds to a path under search, in thousandths.
    pub fn edge_weight(k: &EdgeType) -> (w: i128)
        ensures
            w == edge_weight_spec(*k),
    {
        match k {
            EdgeType::Calls => 500,
            EdgeType::DefinedIn => 200,
            _ => 0,
        }
    }
}

/// The identity of a path: its node identifiers joined by `->`.
pub open spec fn canonical_key_spec(p: PathView) -> Seq<char> {
    join(p.1.map_values(|n: PathNodeView| n.0), "->"@)
}

pub fn canonical_key(path: &Path) -> (k: Vec<char>)
    ensures
        k@ == canonical_key_spec(path_view(*path)),
{
    let mut ids: Vec<Vec<char>> = Vec::new();
    let mut i: usize = 0;
    while i < path.nodes.len()
        invariant
            0 <= i <= path.nodes.len(),
            views(ids@) == path_view(*path).1.map_values(|n: PathNodeView| n.0).take(i as int),
        decreases path.nodes.len() - i,
    {
        let ghost before = views(ids@);
        ids.push(chars_of(path.nodes[i].node_id.as_str()));
        assert(views(ids@) =~= before.push(path.nodes@[i as int].node_id@));
        i = i + 1;
        assert(views(ids@) =~= path_view(*path).1.map_values(|n: PathNodeView| n.0).take(i as int));
    }
    assert(path_view(*path).1.map_values(|n: PathNodeView| n.0).take(path.nodes@.len() as int)
        =~= path_view(*path).1.map_values(|n: PathNodeView| n.0));
    let sep = chars_of("->");
    join_exec(&ids, sep.as_slice())
}

/// Which edges a search follows from a node.
#[derive(Debug, Clone, Copy, PartialEq, Eq, Structural)]
pub enum TraversalDirection {
    Forward,
    Backward,
    Both,
}

/// How far and how wide a search goes, and which edges it may follow.
#[derive(Debug)]
pub struct PathBuilderConfig {
    pub max_length: usize,
    pub max_paths: usize,
    pub branch_factor: usize,
    pub direction: TraversalDirection,
    pub allowed_edge_types: Option<Vec<EdgeType>>,
}

impl Default for PathBuilderConfig {
    fn default() -> (c: Self)
        ensures
            c.max_length == 5,
            c.max_paths == 20,
            c.branch_factor == 5,
            c.direction == TraversalDirection::Both,
            c.allowed_edge_types is None,
    {
        PathBuilderConfig {
            max_length: 5,
            max_paths: 20,
            branch_factor: 5,
            direction: TraversalDirection::Both,
            allowed_edge_types: None,
        }
    }
}

/// Whether the configuration lets a search follow an edge of kind `k`.
pub open spec fn allowed(c: Option<Vec<EdgeType>>, k: EdgeType) -> bool {
    match c {
        None => true,
        Some(v) => v@.contains(k),
    }
}

/// The steps along the edges `es`, as kind and the edge's recorded target,
/// that the configuration allows, in order.
pub open spec fn steps_allowed(es: Seq<(u8, usize, usize)>, c: Option<Vec<EdgeType>>, n: int) -> Seq<
    (EdgeType, usize),
>
    decreases n,
{
    if n <= 0 {
        seq![]
    } else if allowed(c, edge_kind(es[n - 1].0)) {
        steps_allowed(es, c, n - 1).push((edge_kind(es[n - 1].0), es[n - 1].2))
    } else {
        steps_allowed(es, c, n - 1)
    }
}

/// The steps among the first `n` whose kind has weight `w`, in order.
pub open spec fn with_weight(v: Seq<(EdgeType, usize)>, w: int, n: int) -> Seq<(EdgeType, usize)>
    decreases n,
{
    if n <= 0 {
        seq![]
    } else if edge_weight_spec(v[n - 1].0) == w {
        with_weight(v, w, n - 1).push(v[n - 1])
    } else {
        with_weight(v, w, n - 1)
    }
}

/// The steps a search may take from node `i`: outgoing edges, incoming
/// edges or both (each most recent first), the allowed ones, ordered by
/// weight from highest (keeping their order among equal weights), at most
/// `bf` of them.
pub open spec fn neighbors_spec(
    es: Seq<(usize, usize, u8)>,
    i: usize,
    dir: TraversalDirection,
    c: Option<Vec<EdgeType>>,
    bf: usize,
) -> Seq<(EdgeType, usize)> {
    let outs = edges_at(es, i, true, es.len() as int);
    let ins = edges_at(es, i, false, es.len() as int);
    let raw = match dir {
        TraversalDirection::Forward => steps_allowed(outs, c, outs.len() as int),
        TraversalDirection::Backward => steps_allowed(ins, c, ins.len() as int),
        TraversalDirection::Both => steps_allowed(outs, c, outs.len() as int) + steps_allowed(
            ins,
            c,
            ins.len() as int,
        ),
    };
    let sorted = with_weight(raw, 500, raw.len() as int) + with_weight(raw, 200, raw.len() as int)
        + with_weight(raw, 0, raw.len() as int);
    if sorted.len() <= bf {
        sorted
    } else {
        sorted.take(bf as int)
    }
}

/// Builds node paths over a code graph.
pub struct PathBuilder<'a> {
    code_graph: &'a CodeGraph,
    pet_graph: petgraph::Graph<u64, u8>,
}

/// The node of a path for a graph node: its identifier, kind, label, file
/// (empty when it has none) and lines.
pub open spec fn path_node_of(n: GraphNode) -> PathNodeView {
    (
        n.id@,
        n.kind,
        n.label@,
        match n.file_path {
            Some(p) => p@,
            None => Seq::empty(),
        },
        n.start_line,
        n.end_line,
    )
}

/// The path through the nodes at `idxs` with edge kinds `kinds`, score 0;
/// none when an index has no node.
pub open spec fn construct_spec(g: CodeGraph, pn: Seq<u64>, idxs: Seq<usize>, kinds: Seq<EdgeType>) -> Option<
    PathView,
> {
    if forall|i: int| 0 <= i < idxs.len() ==> #[trigger] idxs[i] < pn.len() && pn[idxs[i] as int] < g.nodes@.len() {
        let nodes = idxs.map_values(|x: usize| path_node_of(g.nodes@[pn[x as int] as int]));
        let edges = Seq::new(kinds.len(), |i: int| (nodes[i].0, nodes[i + 1].0, kinds[i]));
        Some((path_id(nodes), nodes, edges, 0u128))
    } else {
        None
    }
}

impl<'a> PathBuilder<'a> {
    /// The graph searched.
    pub closed spec fn graph(&self) -> CodeGraph {
        *self.code_graph
    }

    /// The edges searched, between node positions.
    pub closed spec fn pet_edges(&self) -> Seq<(usize, usize, u8)> {
        pg_edges(self.pet_graph)
    }

    /// The node weights searched.
    pub closed spec fn pet_nodes(&self) -> Seq<u64> {
        pg_nodes(self.pet_graph)
    }

    /// The builder's invariant: it searches its graph as a petgraph graph.
    pub open spec fn wf(&self) -> bool {
        &&& self.graph().wf()
        &&& self.pet_nodes() == positions(self.graph().nodes@.len())
        &&& self.pet_edges() == pet_edges_upto(self.graph(), self.graph().edges@.len() as int)
        &&& self.graph().nodes@.len() < u32::MAX
    }

    /// A builder over `graph`.
    pub fn new(graph: &'a CodeGraph) -> (b: Self)
        requires
            graph.wf(),
            graph.nodes@.len() < u32::MAX,
            graph.edges@.len() < u32::MAX,
        ensures
            b.wf(),
            b.graph() == *graph,
    {
        let pet_graph = graph.as_petgraph();
        PathBuilder { code_graph: graph, pet_graph }
    }

    fn steps_allowed_exec(es: &Vec<(u8, usize, usize)>, c: &Option<Vec<EdgeType>>, out: &mut Vec<(EdgeType, usize)>)
        ensures
            final(out)@ == old(out)@ + steps_allowed(es@, *c, es@.len() as int),
    {
        let mut i: usize = 0;
        while i < es.len()
            invariant
                0 <= i <= es.len(),
                out@ == old(out)@ + steps_allowed(es@, *c, i as int),
            decreases es.len() - i,
        {
            let k = edge_kind_exec(es[i].0);
            let ok = match c {
                None => true,
                Some(v) => {
                    let mut found = false;
                    let mut j: usize = 0;
                    while j < v.len()
                        invariant
                            0 <= j <= v.len(),
                            found == exists|t: int| 0 <= t < j && v@[t] == k,
                        decreases v.len() - j,
                    {
                        if v[j] == k {
                            found = true;
                        }
                        j = j + 1;
                    }
                    proof {
                        if v@.contains(k) {
                            let t = choose|t: int| 0 <= t < v@.len() && v@[t] == k;
                            assert(exists|t: int| 0 <= t < j && v@[t] == k);
                        }
                    }
                    found
                },
            };
            if ok {
                out.push((k, es[i].2));
            }
            i = i + 1;
            assert(out@ =~= old(out)@ + steps_allowed(es@, *c, i as int));
        }
    }

    fn push_with_weight(v: &Vec<(EdgeType, usize)>, w: i128, out: &mut Vec<(EdgeType, usize)>)
        ensures
            final(out)@ == old(out)@ + with_weight(v@, w as int, v@.len() as int),
    {
        let mut i: usize = 0;
        while i < v.len()
            invariant
                0 <= i <= v.len(),
                out@ == old(out)@ + with_weight(v@, w as int, i as int),
            decreases v.len() - i,
        {
            if PathScorer::edge_weight(&v[i].0) == w {
                out.push(v[i]);
            }
            i = i + 1;
            assert(out@ =~= old(out)@ + with_weight(v@, w as int, i as int));
        }
    }

    /// The steps a search may take from node `idx`.
    fn neighbors(&self, idx: usize, direction: TraversalDirection, allowed_edge_types: &Option<Vec<EdgeType>>, branch_factor: usize) -> (r: Vec<(EdgeType, usize)>)
        requires
            idx < self.pet_nodes().len(),
        ensures
            r@ == neighbors_spec(self.pet_edges(), idx, direction, *allowed_edge_types, branch_factor),
    {
        let mut raw: Vec<(EdgeType, usize)> = Vec::new();
        match direction {
            TraversalDirection::Forward => {
                let outs = pg_edges_directed(&self.pet_graph, idx, true);
                Self::steps_allowed_exec(&outs, allowed_edge_types, &mut raw);
            },
            TraversalDirection::Backward => {
                let ins = pg_edges_directed(&self.pet_graph, idx, false);
                Self::steps_allowed_exec(&ins, allowed_edge_types, &mut raw);
            },
            TraversalDirection::Both => {
                let outs = pg_edges_directed(&self.pet_graph, idx, true);
                Self::steps_allowed_exec(&outs, allowed_edge_types, &mut raw);
                let ins = pg_edges_directed(&self.pet_graph, idx, false);
                Self::steps_allowed_exec(&ins, allowed_edge_types, &mut raw);
            },
        }
        let mut sorted: Vec<(EdgeType, usize)> = Vec::new();
        Self::push_with_weight(&raw, 500, &mut sorted);
        Self::push_with_weight(&raw, 200, &mut sorted);
        Self::push_with_weight(&raw, 0, &mut sorted);
        if sorted.len() > branch_factor {
            sorted.truncate(branch_factor);
        }
        sorted
    }

    /// The path through the nodes at `node_indices` with edge kinds
    /// `edge_types`; none when an index has no node.
    fn construct_path(&self, node_indices: &Vec<usize>, edge_types: &Vec<EdgeType>) -> (r: Option<Path>)
        requires
            self.wf(),
            edge_types@.len() < node_indices@.len(),
        ensures
            match r {
                Some(p) => construct_spec(self.graph(), self.pet_nodes(), node_indices@, edge_types@) == Some(path_view(p)),
                None => construct_spec(self.graph(), self.pet_nodes(), node_indices@, edge_types@) is None,
            },
    {
        let ghost g = self.graph();
        let ghost pn = self.pet_nodes();
        let mut nodes: Vec<PathNode> = Vec::new();
        let mut i: usize = 0;
        while i < node_indices.len()
            invariant
                0 <= i <= node_indices.len(),
                self.wf(),
                g == self.graph(),
                pn == self.pet_nodes(),
                nodes@.len() == i,
                forall|t: int| 0 <= t < i ==> #[trigger] node_indices@[t] < pn.len() && pn[node_indices@[t] as int] < g.nodes@.len(),
                forall|t: int| 0 <= t < i ==> path_node_view(#[trigger] nodes@[t]) == path_node_of(g.nodes@[pn[node_indices@[t] as int] as int]),
            decreases node_indices.len() - i,
        {
            if node_indices[i] >= self.code_graph.nodes.len() {
                return None;
            }
            let w = match pg_node_weight(&self.pet_graph, node_indices[i]) {
                Some(w) => w,
                None => {
                    return None;
                },
            };
            if w as usize >= self.code_graph.nodes.len() {
                return None;
            }
            let n = &self.code_graph.nodes[w as usize];
            let file_path = match &n.file_path {
                Some(p) => p.clone(),
                None => String::new(),
            };
            nodes.push(PathNode {
                node_id: n.id.0.clone(),
                kind: n.kind,
                name: n.label.clone(),
                file_path,
                start_line: n.start_line,
                end_line: n.end_line,
            });
            i = i + 1;
        }
        let ghost nv = nodes@.map_values(|n: PathNode| path_node_view(n));
        assert(nv =~= node_indices@.map_values(|x: usize| path_node_of(g.nodes@[pn[x as int] as int])));
        let mut edges: Vec<PathEdge> = Vec::new();
        let mut k: usize = 0;
        while k < edge_types.len()
            invariant
                0 <= k <= edge_types.len(),
                edge_types@.len() < nodes@.len(),
                nv == nodes@.map_values(|n: PathNode| path_node_view(n)),
                edges@.len() == k,
                forall|t: int| 0 <= t < k ==> path_edge_view(#[trigger] edges@[t]) == (nv[t].0, nv[t + 1].0, edge_types@[t]),
            decreases edge_types.len() - k,
        {
            edges.push(PathEdge {
                from_node: nodes[k].node_id.clone(),
                to_node: nodes[k + 1].node_id.clone(),
                kind: edge_types[k],
            });
            k = k + 1;
        }
        let p = Path::new(nodes, edges);
        assert(path_view(p).2 =~= Seq::new(edge_types@.len(), |i: int| (nv[i].0, nv[i + 1].0, edge_types@[i])));
        Some(p)
    }
}

// ---------------------------------------------------------------------------
// Bounds on steps
// ---------------------------------------------------------------------------

/// Every edge has both ends below `cnt`.
pub open spec fn ends_below(es: Seq<(usize, usize, u8)>, cnt: int) -> bool {
    forall|k: int| 0 <= k < es.len() ==> (#[trigger] es[k]).0 < cnt && es[k].1 < cnt
}

/// Every step leads below `cnt`.
pub open spec fn targets_below(v: Seq<(EdgeType, usize)>, cnt: int) -> bool {
    forall|k: int| 0 <= k < v.len() ==> (#[trigger] v[k]).1 < cnt
}

pub proof fn lemma_pet_edges_below(g: CodeGraph, n: int)
    requires
        0 <= n <= g.edges@.len(),
    ensures
        ends_below(pet_edges_upto(g, n), g.nodes@.len() as int),
    decreases n,
{
    if n > 0 {
        lemma_pet_edges_below(g, n - 1);
        let e = g.edges@[n - 1];
        crate::graph::lemma_index_upto(g.nodes@, e.source@, g.nodes@.len() as int);
        crate::graph::lemma_index_upto(g.nodes@, e.target@, g.nodes@.len() as int);
        let prev = pet_edges_upto(g, n - 1);
        let cur = pet_edges_upto(g, n);
        assert forall|k: int| 0 <= k < cur.len() implies (#[trigger] cur[k]).0 < g.nodes@.len() && cur[k].1
            < g.nodes@.len() by {
            if k < prev.len() {
                assert(cur[k] == prev[k]);
            }
        }
    }
}

pub proof fn lemma_edges_at_below(es: Seq<(usize, usize, u8)>, i: usize, outgoing: bool, n: int, cnt: int)
    requires
        0 <= n <= es.len(),
        ends_below(es, cnt),
    ensures
        forall|k: int| 0 <= k < edges_at(es, i, outgoing, n).len() ==> (#[trigger] edges_at(es, i, outgoing, n)[k]).2 < cnt,
    decreases n,
{
    if n > 0 {
        lemma_edges_at_below(es, i, outgoing, n - 1, cnt);
        let rest = edges_at(es, i, outgoing, n - 1);
        let cur = edges_at(es, i, outgoing, n);
        assert forall|k: int| 0 <= k < cur.len() implies (#[trigger] cur[k]).2 < cnt by {
            if cur.len() > rest.len() && k > 0 {
                assert(cur[k] == rest[k - 1]);
            }
        }
    }
}

pub proof fn lemma_steps_below(es: Seq<(u8, usize, usize)>, c: Option<Vec<EdgeType>>, n: int, cnt: int)
    requires
        0 <= n <= es.len(),
        forall|k: int| 0 <= k < es.len() ==> (#[trigger] es[k]).2 < cnt,
    ensures
        targets_below(steps_allowed(es, c, n), cnt),
    decreases n,
{
    if n > 0 {
        lemma_steps_below(es, c, n - 1, cnt);
        let prev = steps_allowed(es, c, n - 1);
        let cur = steps_allowed(es, c, n);
        assert forall|k: int| 0 <= k < cur.len() implies (#[trigger] cur[k]).1 < cnt by {
            if k < prev.len() {
                assert(cur[k] == prev[k]);
            }
        }
    }
}

pub proof fn lemma_with_weight_below(v: Seq<(EdgeType, usize)>, w: int, n: int, cnt: int)
    requires
        0 <= n <= v.len(),
        targets_below(v, cnt),
    ensures
        targets_below(with_weight(v, w, n), cnt),
    decreases n,
{
    if n > 0 {
        lemma_with_weight_below(v, w, n - 1, cnt);
        let prev = with_weight(v, w, n - 1);
        let cur = with_weight(v, w, n);
        assert forall|k: int| 0 <= k < cur.len() implies (#[trigger] cur[k]).1 < cnt by {
            if k < prev.len() {
                assert(cur[k] == prev[k]);
            }
        }
    }
}

/// The steps from a node lead to nodes, and there are at most `bf` of them.
pub proof fn lemma_neighbors_below(
    es: Seq<(usize, usize, u8)>,
    i: usize,
    dir: TraversalDirection,
    c: Option<Vec<EdgeType>>,
    bf: usize,
    cnt: int,
)
    requires
        ends_below(es, cnt),
    ensures
        targets_below(neighbors_spec(es, i, dir, c, bf), cnt),
        neighbors_spec(es, i, dir, c, bf).len() <= bf,
{
    let outs = edges_at(es, i, true, es.len() as int);
    let ins = edges_at(es, i, false, es.len() as int);
    lemma_edges_at_below(es, i, true, es.len() as int, cnt);
    lemma_edges_at_below(es, i, false, es.len() as int, cnt);
    lemma_steps_below(outs, c, outs.len() as int, cnt);
    lemma_steps_below(ins, c, ins.len() as int, cnt);
    let so = steps_allowed(outs, c, outs.len() as int);
    let si = steps_allowed(ins, c, ins.len() as int);
    let raw = match dir {
        TraversalDirection::Forward => so,
        TraversalDirection::Backward => si,
        TraversalDirection::Both => so + si,
    };
    assert(targets_below(raw, cnt)) by {
        if dir == TraversalDirection::Both {
            assert forall|k: int| 0 <= k < raw.len() implies (#[trigger] raw[k]).1 < cnt by {
                if k < so.len() {
                    assert(raw[k] == so[k]);
                } else {
                    assert(raw[k] == si[k - so.len()]);
                }
            }
        }
    }
    lemma_with_weight_below(raw, 500, raw.len() as int, cnt);
    lemma_with_weight_below(raw, 200, raw.len() as int, cnt);
    lemma_with_weight_below(raw, 0, raw.len() as int, cnt);
    let a = with_weight(raw, 500, raw.len() as int);
    let b = with_weight(raw, 200, raw.len() as int);
    let d = with_weight(raw, 0, raw.len() as int);
    let sorted = a + b + d;
    assert(targets_below(sorted, cnt)) by {
        assert forall|k: int| 0 <= k < sorted.len() implies (#[trigger] sorted[k]).1 < cnt by {
            if k < a.len() {
                assert(sorted[k] == a[k]);
            } else if k < a.len() + b.len() {
                assert(sorted[k] == b[k - a.len()]);
            } else {
                assert(sorted[k] == d[k - a.len() - b.len()]);
            }
        }
    }
}

// ---------------------------------------------------------------------------
// Best-first search
// ---------------------------------------------------------------------------

/// A search entry: accumulated weight, current node, nodes so far, edge
/// kinds so far.
pub type Entry = (int, usize, Seq<usize>, Seq<EdgeType>);

/// The code of an edge kind as an integer.
pub open spec fn kind_int(k: EdgeType) -> int {
    crate::pet::edge_code(k) as int
}

/// `a` comes after `b` in lexicographic order (a proper prefix comes
/// first).
pub open spec fn lex_gt(a: Seq<int>, b: Seq<int>) -> bool
    decreases a.len(),
{
    if a.len() == 0 {
        false
    } else if b.len() == 0 {
        true
    } else if a[0] != b[0] {
        a[0] > b[0]
    } else {
        lex_gt(a.drop_first(), b.drop_first())
    }
}

pub open spec fn ints(s: Seq<usize>) -> Seq<int> {
    s.map_values(|x: usize| x as int)
}

pub open spec fn codes(s: Seq<EdgeType>) -> Seq<int> {
    s.map_values(|k: EdgeType| kind_int(k))
}

/// `a` is popped before `b`: lower weight first, then higher node, then
/// the greater node list, then the greater kind list.
pub open spec fn entry_gt(a: Entry, b: Entry) -> bool {
    a.0 < b.0 || (a.0 == b.0 && (a.1 > b.1 || (a.1 == b.1 && (lex_gt(ints(a.2), ints(b.2)) || (
    a.2 == b.2 && lex_gt(codes(a.3), codes(b.3)))))))
}

/// The first position of an entry that comes first among the first `n`.
pub open spec fn max_index(f: Seq<Entry>, n: int) -> int
    decreases n,
{
    if n <= 1 {
        0
    } else {
        let m = max_index(f, n - 1);
        if entry_gt(f[n - 1], f[m]) {
            n - 1
        } else {
            m
        }
    }
}

pub proof fn lemma_max_index(f: Seq<Entry>, n: int)
    requires
        1 <= n <= f.len(),
    ensures
        0 <= max_index(f, n) < n,
    decreases n,
{
    if n > 1 {
        lemma_max_index(f, n - 1);
    }
}

/// The entries for the first `n` steps from entry `e`, skipping steps back
/// onto its nodes.
pub open spec fn children(e: Entry, nb: Seq<(EdgeType, usize)>, n: int) -> Seq<Entry>
    decreases n,
{
    if n <= 0 {
        seq![]
    } else {
        let prev = children(e, nb, n - 1);
        let st = nb[n - 1];
        if e.2.contains(st.1) {
            prev
        } else {
            prev.push((e.0 + edge_weight_spec(st.0), st.1, e.2.push(st.1), e.3.push(st.0)))
        }
    }
}

/// A path with its score.
pub open spec fn scored(p: PathView) -> PathView {
    (p.0, p.1, p.2, score_spec(p.1, p.2) as u128)
}

/// The state of a search: frontier, paths found, their keys, and whether it
/// stopped.
pub type FpState = (Seq<Entry>, Seq<PathView>, Seq<Seq<char>>, bool);

/// What a search over graph `g` does with the entry it pops: record the
/// entry's path unless its key was seen, stop once enough paths are found,
/// and otherwise, below the length limit, push an entry per step.
pub open spec fn fp_step(
    s: FpState,
    g: CodeGraph,
    pn: Seq<u64>,
    es: Seq<(usize, usize, u8)>,
    c: PathBuilderConfig,
) -> FpState {
    let f = s.0;
    let m = max_index(f, f.len() as int);
    let e = f[m];
    let f1 = f.remove(m);
    let rec: (Seq<PathView>, Seq<Seq<char>>, bool) = if e.3.len() > 0 {
        match construct_spec(g, pn, e.2, e.3) {
            Some(p0) => {
                let p = scored(p0);
                let key = canonical_key_spec(p);
                let ps = if s.2.contains(key) {
                    s.1
                } else {
                    s.1.push(p)
                };
                let sn = if s.2.contains(key) {
                    s.2
                } else {
                    s.2.push(key)
                };
                (ps, sn, ps.len() >= c.max_paths)
            },
            None => (s.1, s.2, false),
        }
    } else {
        (s.1, s.2, false)
    };
    if rec.2 {
        (f1, rec.0, rec.1, true)
    } else if e.3.len() >= c.max_length {
        (f1, rec.0, rec.1, false)
    } else {
        let nb = neighbors_spec(es, e.1, c.direction, c.allowed_edge_types, c.branch_factor);
        (f1 + children(e, nb, nb.len() as int), rec.0, rec.1, false)
    }
}

/// Entries are well formed: no longer than the limit, one more node than
/// edges, at a node, with a weight of at most 500 per edge.
pub open spec fn entries_ok(f: Seq<Entry>, c: PathBuilderConfig, cnt: int) -> bool {
    forall|k: int|
        0 <= k < f.len() ==> {
            let e = #[trigger] f[k];
            &&& e.3.len() <= c.max_length
            &&& e.2.len() == e.3.len() + 1
            &&& e.1 < cnt
            &&& 0 <= e.0 <= 500 * e.3.len()
        }
}

/// What a popped entry of depth `d` weighs in the termination measure.
pub open spec fn term(e: Entry, c: PathBuilderConfig) -> nat {
    vstd::arithmetic::power::pow(c.branch_factor + 1, (c.max_length - e.3.len()) as nat) as nat
}

pub open spec fn measure(f: Seq<Entry>, c: PathBuilderConfig) -> nat
    decreases f.len(),
{
    if f.len() == 0 {
        0
    } else {
        measure(f.drop_last(), c) + term(f.last(), c)
    }
}

pub proof fn lemma_measure_add(a: Seq<Entry>, b: Seq<Entry>, c: PathBuilderConfig)
    ensures
        measure(a + b, c) == measure(a, c) + measure(b, c),
    decreases b.len(),
{
    if b.len() > 0 {
        lemma_measure_add(a, b.drop_last(), c);
        assert((a + b).drop_last() =~= a + b.drop_last());
    } else {
        assert(a + b =~= a);
    }
}

pub proof fn lemma_measure_remove(f: Seq<Entry>, m: int, c: PathBuilderConfig)
    requires
        0 <= m < f.len(),
    ensures
        measure(f.remove(m), c) + term(f[m], c) == measure(f, c),
{
    let a = f.take(m);
    let b = f.skip(m + 1);
    assert(f.remove(m) =~= a + b);
    assert(f =~= a + seq![f[m]] + b);
    lemma_measure_add(a, b, c);
    lemma_measure_add(a + seq![f[m]], b, c);
    lemma_measure_add(a, seq![f[m]], c);
    assert(measure(seq![f[m]], c) == term(f[m], c)) by {
        assert(seq![f[m]].drop_last() =~= Seq::<Entry>::empty());
        assert(measure(Seq::<Entry>::empty(), c) == 0);
        assert(seq![f[m]].last() == f[m]);
    }
}

/// Children of an entry of depth `d` below the limit weigh less in the
/// measure than the entry.
pub proof fn lemma_children(e: Entry, nb: Seq<(EdgeType, usize)>, n: int, c: PathBuilderConfig, cnt: int)
    requires
        0 <= n <= nb.len(),
        e.3.len() < c.max_length,
        e.2.len() == e.3.len() + 1,
        0 <= e.0 <= 500 * e.3.len(),
        targets_below(nb, cnt),
    ensures
        children(e, nb, n).len() <= n,
        entries_ok(children(e, nb, n), c, cnt),
        measure(children(e, nb, n), c) <= children(e, nb, n).len() * vstd::arithmetic::power::pow(
            c.branch_factor + 1,
            (c.max_length - e.3.len() - 1) as nat,
        ),
    decreases n,
{
    if n > 0 {
        lemma_children(e, nb, n - 1, c, cnt);
        let prev = children(e, nb, n - 1);
        let cur = children(e, nb, n);
        let st = nb[n - 1];
        if !e.2.contains(st.1) {
            let x: Entry = (e.0 + edge_weight_spec(st.0), st.1, e.2.push(st.1), e.3.push(st.0));
            assert(cur.drop_last() =~= prev);
            assert(x.3.len() == e.3.len() + 1);
            vstd::arithmetic::power::lemma_pow_positive(c.branch_factor + 1, (c.max_length - e.3.len() - 1) as nat);
            assert(term(x, c) == vstd::arithmetic::power::pow(
                c.branch_factor + 1,
                (c.max_length - e.3.len() - 1) as nat,
            ));
            assert forall|k: int| 0 <= k < cur.len() implies {
                let y = #[trigger] cur[k];
                &&& y.3.len() <= c.max_length
                &&& y.2.len() == y.3.len() + 1
                &&& y.1 < cnt
                &&& 0 <= y.0 <= 500 * y.3.len()
            } by {
                if k < prev.len() {
                    assert(cur[k] == prev[k]);
                } else {
                    assert(cur[k] == x);
                    assert(nb[n - 1].1 < cnt);
                }
            }
            let p = vstd::arithmetic::power::pow(c.branch_factor + 1, (c.max_length - e.3.len() - 1) as nat);
            assert(prev.len() * p + p == (prev.len() + 1) * p) by (nonlinear_arith);
        }
    }
}

/// A search step keeps the entries well formed and lowers the measure.
pub proof fn lemma_fp_step(s: FpState, g: CodeGraph, pn: Seq<u64>, es: Seq<(usize, usize, u8)>, c: PathBuilderConfig)
    requires
        entries_ok(s.0, c, pn.len() as int),
        ends_below(es, pn.len() as int),
        s.0.len() > 0,
    ensures
        entries_ok(fp_step(s, g, pn, es, c).0, c, pn.len() as int),
        measure(fp_step(s, g, pn, es, c).0, c) < measure(s.0, c),
{
    let f = s.0;
    lemma_max_index(f, f.len() as int);
    let m = max_index(f, f.len() as int);
    let e = f[m];
    let f1 = f.remove(m);
    lemma_measure_remove(f, m, c);
    vstd::arithmetic::power::lemma_pow_positive(c.branch_factor + 1, (c.max_length - e.3.len()) as nat);
    assert(entries_ok(f1, c, pn.len() as int)) by {
        assert forall|k: int| 0 <= k < f1.len() implies {
            let y = #[trigger] f1[k];
            &&& y.3.len() <= c.max_length
            &&& y.2.len() == y.3.len() + 1
            &&& y.1 < pn.len()
            &&& 0 <= y.0 <= 500 * y.3.len()
        } by {
            if k < m {
                assert(f1[k] == f[k]);
            } else {
                assert(f1[k] == f[k + 1]);
            }
        }
    }
    let r = fp_step(s, g, pn, es, c);
    if r.0 != f1 {
        let nb = neighbors_spec(es, e.1, c.direction, c.allowed_edge_types, c.branch_factor);
        lemma_neighbors_below(es, e.1, c.direction, c.allowed_edge_types, c.branch_factor, pn.len() as int);
        lemma_children(e, nb, nb.len() as int, c, pn.len() as int);
        let ch = children(e, nb, nb.len() as int);
        lemma_measure_add(f1, ch, c);
        let b = c.branch_factor + 1;
        let d = (c.max_length - e.3.len() - 1) as nat;
        let p = vstd::arithmetic::power::pow(b, d);
        vstd::arithmetic::power::lemma_pow_positive(b, d);
        assert(vstd::arithmetic::power::pow(b, (c.max_length - e.3.len()) as nat) == b * p) by {
            assert((c.max_length - e.3.len()) as nat == d + 1);
            reveal(vstd::arithmetic::power::pow);
        }
        assert(ch.len() * p <= c.branch_factor * p) by (nonlinear_arith)
            requires
                ch.len() <= c.branch_factor,
                p > 0;
        assert(c.branch_factor * p < b * p) by (nonlinear_arith)
            requires
                b == c.branch_factor + 1,
                p > 0;
        assert forall|k: int| 0 <= k < r.0.len() implies {
            let y = #[trigger] r.0[k];
            &&& y.3.len() <= c.max_length
            &&& y.2.len() == y.3.len() + 1
            &&& y.1 < pn.len()
            &&& 0 <= y.0 <= 500 * y.3.len()
        } by {
            if k < f1.len() {
                assert(r.0[k] == f1[k]);
            } else {
                assert(r.0[k] == ch[k - f1.len()]);
            }
        }
    }
}

/// Whether a search state is over: stopped or out of entries.
pub open spec fn fp_done(s: FpState) -> bool {
    s.3 || s.0.len() == 0
}

/// The state a search ends in.
pub open spec fn fp_final(s: FpState, g: CodeGraph, pn: Seq<u64>, es: Seq<(usize, usize, u8)>, c: PathBuilderConfig) -> FpState
    decreases measure(s.0, c),
    when entries_ok(s.0, c, pn.len() as int) && ends_below(es, pn.len() as int)
{
    if fp_done(s) {
        s
    } else {
        proof {
            lemma_fp_step(s, g, pn, es, c);
        }
        fp_final(fp_step(s, g, pn, es, c), g, pn, es, c)
    }
}

/// A search entry as the search holds it.
pub type ExecEntry = (i128, usize, Vec<usize>, Vec<EdgeType>);

pub open spec fn entry_view(e: ExecEntry) -> Entry {
    (e.0 as int, e.1, e.2@, e.3@)
}

pub open spec fn fview(f: Seq<ExecEntry>) -> Seq<Entry> {
    f.map_values(|e: ExecEntry| entry_view(e))
}

/// The state a search starts in, at node `i`.
pub open spec fn fp_init(i: usize) -> FpState {
    (seq![(0int, i, seq![i], Seq::<EdgeType>::empty())], seq![], seq![], false)
}

fn lex_gt_exec(a: &Vec<usize>, b: &Vec<usize>) -> (r: bool)
    ensures
        r == lex_gt(ints(a@), ints(b@)),
{
    let ghost aa = ints(a@);
    let ghost bb = ints(b@);
    let mut i: usize = 0;
    assert(aa.skip(0) =~= aa);
    assert(bb.skip(0) =~= bb);
    loop
        invariant
            0 <= i <= a.len(),
            i <= b.len(),
            aa == ints(a@),
            bb == ints(b@),
            lex_gt(aa, bb) == lex_gt(aa.skip(i as int), bb.skip(i as int)),
        decreases a.len() - i,
    {
        if i == a.len() {
            return false;
        }
        if i == b.len() {
            return true;
        }
        if a[i] != b[i] {
            assert(aa.skip(i as int)[0] == a@[i as int] as int);
            assert(bb.skip(i as int)[0] == b@[i as int] as int);
            return a[i] > b[i];
        }
        assert(aa.skip(i as int).drop_first() =~= aa.skip(i + 1));
        assert(bb.skip(i as int).drop_first() =~= bb.skip(i + 1));
        i = i + 1;
    }
}

fn kind_codes(v: &Vec<EdgeType>) -> (r: Vec<usize>)
    ensures
        ints(r@) == codes(v@),
{
    let mut out: Vec<usize> = Vec::new();
    let mut i: usize = 0;
    while i < v.len()
        invariant
            0 <= i <= v.len(),
            ints(out@) == codes(v@).take(i as int),
        decreases v.len() - i,
    {
        let c = crate::pet::edge_code_exec(v[i]);
        let cu = c as usize;
        assert(cu as int == kind_int(v@[i as int]));
        let ghost before = out@;
        out.push(cu);
        assert(ints(out@) =~= ints(before).push(cu as int));
        assert(codes(v@).take(i + 1) =~= codes(v@).take(i as int).push(kind_int(v@[i as int])));
        i = i + 1;
    }
    assert(codes(v@).take(v.len() as int) =~= codes(v@));
    out
}

fn usize_seq_eq(a: &Vec<usize>, b: &Vec<usize>) -> (r: bool)
    ensures
        r == (a@ == b@),
{
    if a.len() != b.len() {
        return false;
    }
    let mut i: usize = 0;
    while i < a.len()
        invariant
            0 <= i <= a.len(),
            a@.len() == b@.len(),
            forall|j: int| 0 <= j < i ==> a@[j] == b@[j],
        decreases a.len() - i,
    {
        if a[i] != b[i] {
            return false;
        }
        i = i + 1;
    }
    assert(a@ =~= b@);
    true
}

fn entry_gt_exec(a: &ExecEntry, b: &ExecEntry) -> (r: bool)
    ensures
        r == entry_gt(entry_view(*a), entry_view(*b)),
{
    if a.0 != b.0 {
        return a.0 < b.0;
    }
    if a.1 != b.1 {
        return a.1 > b.1;
    }
    if lex_gt_exec(&a.2, &b.2) {
        return true;
    }
    if !usize_seq_eq(&a.2, &b.2) {
        return false;
    }
    let ca = kind_codes(&a.3);
    let cb = kind_codes(&b.3);
    lex_gt_exec(&ca, &cb)
}

fn max_index_exec(f: &Vec<ExecEntry>) -> (m: usize)
    requires
        f@.len() > 0,
    ensures
        m == max_index(fview(f@), f@.len() as int),
        m < f@.len(),
{
    let ghost fv = fview(f@);
    let mut m: usize = 0;
    let mut i: usize = 1;
    while i < f.len()
        invariant
            1 <= i <= f.len(),
            fv == fview(f@),
            m == max_index(fv, i as int),
            m < i,
        decreases f.len() - i,
    {
        if entry_gt_exec(&f[i], &f[m]) {
            m = i;
        }
        i = i + 1;
    }
    m
}

fn key_seen(seen: &Vec<Vec<char>>, key: &Vec<char>) -> (r: bool)
    ensures
        r == views(seen@).contains(key@),
{
    let mut i: usize = 0;
    while i < seen.len()
        invariant
            0 <= i <= seen.len(),
            forall|j: int| 0 <= j < i ==> seen@[j]@ != key@,
        decreases seen.len() - i,
    {
        if crate::text::seq_eq(seen[i].as_slice(), key.as_slice()) {
            assert(views(seen@)[i as int] == key@);
            return true;
        }
        i = i + 1;
    }
    assert(!views(seen@).contains(key@)) by {
        if views(seen@).contains(key@) {
            let j = choose|j: int| 0 <= j < views(seen@).len() && views(seen@)[j] == key@;
            assert(seen@[j]@ == key@);
        }
    }
    false
}

fn contains_usize(v: &Vec<usize>, x: usize) -> (r: bool)
    ensures
        r == v@.contains(x),
{
    let mut i: usize = 0;
    while i < v.len()
        invariant
            0 <= i <= v.len(),
            forall|j: int| 0 <= j < i ==> v@[j] != x,
        decreases v.len() - i,
    {
        if v[i] == x {
            assert(v@[i as int] == x);
            return true;
        }
        i = i + 1;
    }
    false
}

fn clone_usizes(v: &Vec<usize>) -> (r: Vec<usize>)
    ensures
        r@ == v@,
{
    let mut out: Vec<usize> = Vec::new();
    let mut i: usize = 0;
    while i < v.len()
        invariant
            0 <= i <= v.len(),
            out@ == v@.take(i as int),
        decreases v.len() - i,
    {
        out.push(v[i]);
        i = i + 1;
        assert(out@ =~= v@.take(i as int));
    }
    assert(v@.take(v.len() as int) =~= v@);
    out
}

fn clone_kinds(v: &Vec<EdgeType>) -> (r: Vec<EdgeType>)
    ensures
        r@ == v@,
{
    let mut out: Vec<EdgeType> = Vec::new();
    let mut i: usize = 0;
    while i < v.len()
        invariant
            0 <= i <= v.len(),
            out@ == v@.take(i as int),
        decreases v.len() - i,
    {
        out.push(v[i]);
        i = i + 1;
        assert(out@ =~= v@.take(i as int));
    }
    assert(v@.take(v.len() as int) =~= v@);
    out
}

impl<'a> PathBuilder<'a> {
    /// Best-first search from `start_node_id`: repeatedly takes the entry
    /// with the least accumulated weight, records its path once per node
    /// sequence, and extends it by each allowed step onto a node it has not
    /// visited, until `max_paths` paths are found or nothing is left. A
    /// start that is not a node gives no path.
    pub fn find_paths(&self, start_node_id: &NodeId, config: &PathBuilderConfig) -> (r: Vec<Path>)
        requires
            self.wf(),
        ensures
            match crate::graph::index_of(self.graph().nodes@, start_node_id@) {
                None => r@.len() == 0,
                Some(i) => path_views(r@) == fp_final(
                    fp_init(i as usize),
                    self.graph(),
                    self.pet_nodes(),
                    self.pet_edges(),
                    *config,
                ).1,
            },
    {
        proof {
            crate::graph::lemma_index_of(self.code_graph.nodes@, start_node_id@);
            lemma_pet_edges_below(self.graph(), self.graph().edges@.len() as int);
        }
        let start = match self.code_graph.position(start_node_id) {
            Some(i) => i,
            None => {
                return Vec::new();
            },
        };
        let ghost g = self.graph();
        let ghost pn = self.pet_nodes();
        let ghost es = self.pet_edges();
        let ghost cnt = pn.len() as int;
        let mut first_nodes: Vec<usize> = Vec::new();
        first_nodes.push(start);
        let mut frontier: Vec<ExecEntry> = Vec::new();
        frontier.push((0i128, start, first_nodes, Vec::new()));
        let mut paths: Vec<Path> = Vec::new();
        let mut seen: Vec<Vec<char>> = Vec::new();
        let mut done = false;
        let ghost target = fp_final(fp_init(start), g, pn, es, *config);
        assert(fview(frontier@) =~= fp_init(start).0);
        assert(path_views(paths@) =~= Seq::<PathView>::empty());
        assert(views(seen@) =~= Seq::<Seq<char>>::empty());
        while !done && frontier.len() > 0
            invariant
                self.wf(),
                g == self.graph(),
                pn == self.pet_nodes(),
                es == self.pet_edges(),
                cnt == pn.len(),
                ends_below(es, cnt),
                entries_ok(fview(frontier@), *config, cnt),
                fp_final((fview(frontier@), path_views(paths@), views(seen@), done), g, pn, es, *config)
                    == target,
            decreases measure(fview(frontier@), *config),
        {
            let ghost st: FpState = (fview(frontier@), path_views(paths@), views(seen@), done);
            proof {
                lemma_fp_step(st, g, pn, es, *config);
            }
            let ghost next = fp_step(st, g, pn, es, *config);
            let m = max_index_exec(&frontier);
            let ghost fv = fview(frontier@);
            let e = frontier.remove(m);
            assert(fview(frontier@) =~= fv.remove(m as int));
            assert(entry_view(e) == fv[m as int]);
            let ghost ps0 = path_views(paths@);
            let ghost sn0 = views(seen@);
            let mut stop = false;
            if e.3.len() > 0 {
                match self.construct_path(&e.2, &e.3) {
                    Some(p0) => {
                        let ghost pv0 = path_view(p0);
                        let mut p = p0;
                        let sc = PathScorer::score(&p);
                        p.score = sc;
                        assert(path_view(p) == scored(pv0));
                        let key = canonical_key(&p);
                        if !key_seen(&seen, &key) {
                            paths.push(p);
                            seen.push(key);
                            assert(path_views(paths@) =~= ps0.push(scored(pv0)));
                            assert(views(seen@) =~= sn0.push(key@));
                        }
                        if paths.len() >= config.max_paths {
                            stop = true;
                        }
                    },
                    None => {},
                }
            }
            if stop {
                done = true;
            } else if e.3.len() < config.max_length {
                let nb = self.neighbors(e.1, config.direction, &config.allowed_edge_types, config.branch_factor);
                let ghost f1 = fview(frontier@);
                let mut j: usize = 0;
                while j < nb.len()
                    invariant
                        0 <= j <= nb.len(),
                        entries_ok(seq![entry_view(e)], *config, cnt),
                        e.3@.len() < config.max_length,
                        fview(frontier@) == f1 + children(entry_view(e), nb@, j as int),
                    decreases nb.len() - j,
                {
                    let (k, nx) = nb[j];
                    if !contains_usize(&e.2, nx) {
                        assert(entry_view(e) == seq![entry_view(e)][0]);
                        let mut nodes = clone_usizes(&e.2);
                        nodes.push(nx);
                        let mut kinds = clone_kinds(&e.3);
                        kinds.push(k);
                        let w = PathScorer::edge_weight(&k);
                        let child: ExecEntry = (e.0 + w, nx, nodes, kinds);
                        let ghost before = fview(frontier@);
                        frontier.push(child);
                        assert(fview(frontier@) =~= before.push(entry_view(child)));
                    }
                    j = j + 1;
                }
            }
            assert((fview(frontier@), path_views(paths@), views(seen@), done) == next);
        }
        paths
    }
}

// ---------------------------------------------------------------------------
// Search from both ends
// ---------------------------------------------------------------------------

/// A queued node with the nodes and edge kinds that reached it.
pub type QItem = (usize, Seq<usize>, Seq<EdgeType>);

/// How a node was first reached, if it was.
pub type Visit = Option<(Seq<usize>, Seq<EdgeType>)>;

/// One side of the search (queue and visits) with the paths and keys found.
pub type SideState = (Seq<QItem>, Seq<Visit>, Seq<PathView>, Seq<Seq<char>>);

/// The whole search: forward queue and visits, backward queue and visits,
/// paths and keys.
pub type BState = (Seq<QItem>, Seq<Visit>, Seq<QItem>, Seq<Visit>, Seq<PathView>, Seq<Seq<char>>);

/// A node list reversed, without its first node.
pub open spec fn rev_tail(h: Seq<usize>) -> Seq<usize> {
    let r = h.reverse();
    if r.len() > 1 {
        r.skip(1)
    } else {
        seq![]
    }
}

/// The paths and keys after recording the path through `nodes` with edge
/// kinds `kinds`, unless its key was seen.
pub open spec fn record(
    ps: Seq<PathView>,
    sn: Seq<Seq<char>>,
    g: CodeGraph,
    pn: Seq<u64>,
    nodes: Seq<usize>,
    kinds: Seq<EdgeType>,
) -> (Seq<PathView>, Seq<Seq<char>>) {
    match construct_spec(g, pn, nodes, kinds) {
        Some(p0) => {
            let p = scored(p0);
            let key = canonical_key_spec(p);
            if sn.contains(key) {
                (ps, sn)
            } else {
                (ps.push(p), sn.push(key))
            }
        },
        None => (ps, sn),
    }
}

/// Queues the first `n` steps from `it` onto nodes not yet visited,
/// marking them visited.
pub open spec fn expand(q: Seq<QItem>, vis: Seq<Visit>, it: QItem, nb: Seq<(EdgeType, usize)>, n: int) -> (
    Seq<QItem>,
    Seq<Visit>,
)
    decreases n,
{
    if n <= 0 {
        (q, vis)
    } else {
        let prev = expand(q, vis, it, nb, n - 1);
        let st = nb[n - 1];
        if prev.1[st.1 as int] is None {
            let h = it.1.push(st.1);
            let e = it.2.push(st.0);
            (prev.0.push((st.1, h, e)), prev.1.update(st.1 as int, Some((h, e))))
        } else {
            prev
        }
    }
}

/// One pop from a side: when the other side has reached the node, record
/// the joined path; then, below half the length limit plus one, queue the
/// steps forward (or backward) onto nodes this side has not visited.
pub open spec fn side_pop(
    st: SideState,
    other: Seq<Visit>,
    g: CodeGraph,
    pn: Seq<u64>,
    es: Seq<(usize, usize, u8)>,
    c: PathBuilderConfig,
    forward: bool,
) -> SideState {
    if st.0.len() == 0 {
        st
    } else {
        let it = st.0[0];
        let q1 = st.0.drop_first();
        let rec = match other[it.0 as int] {
            Some(o) => if forward {
                record(st.2, st.3, g, pn, it.1 + rev_tail(o.0), it.2 + o.1.reverse())
            } else {
                record(st.2, st.3, g, pn, o.0 + rev_tail(it.1), o.1 + it.2.reverse())
            },
            None => (st.2, st.3),
        };
        if it.2.len() >= c.max_length / 2 + 1 {
            (q1, st.1, rec.0, rec.1)
        } else {
            let dir = if forward {
                TraversalDirection::Forward
            } else {
                TraversalDirection::Backward
            };
            let nb = neighbors_spec(es, it.0, dir, c.allowed_edge_types, c.branch_factor);
            let x = expand(q1, st.1, it, nb, nb.len() as int);
            (x.0, x.1, rec.0, rec.1)
        }
    }
}

pub open spec fn side_level(
    st: SideState,
    other: Seq<Visit>,
    g: CodeGraph,
    pn: Seq<u64>,
    es: Seq<(usize, usize, u8)>,
    c: PathBuilderConfig,
    forward: bool,
    k: int,
) -> SideState
    decreases k,
{
    if k <= 0 {
        st
    } else {
        side_pop(side_level(st, other, g, pn, es, c, forward, k - 1), other, g, pn, es, c, forward)
    }
}

/// One round: a forward level, then, unless enough paths are found, a
/// backward level; says whether enough paths are found.
pub open spec fn round(s: BState, g: CodeGraph, pn: Seq<u64>, es: Seq<(usize, usize, u8)>, c: PathBuilderConfig) -> (BState, bool) {
    let f = side_level((s.0, s.1, s.4, s.5), s.3, g, pn, es, c, true, s.0.len() as int);
    if f.2.len() >= c.max_paths {
        ((f.0, f.1, s.2, s.3, f.2, f.3), true)
    } else {
        let b = side_level((s.2, s.3, f.2, f.3), f.1, g, pn, es, c, false, s.2.len() as int);
        ((f.0, f.1, b.0, b.1, b.2, b.3), b.2.len() >= c.max_paths)
    }
}

/// The search after `d` rounds, and whether it stopped.
pub open spec fn bidi(s: BState, g: CodeGraph, pn: Seq<u64>, es: Seq<(usize, usize, u8)>, c: PathBuilderConfig, d: int) -> (BState, bool)
    decreases d,
{
    if d <= 0 {
        (s, false)
    } else {
        let p = bidi(s, g, pn, es, c, d - 1);
        if p.1 {
            p
        } else {
            round(p.0, g, pn, es, c)
        }
    }
}

pub proof fn lemma_bidi_stops(s: BState, g: CodeGraph, pn: Seq<u64>, es: Seq<(usize, usize, u8)>, c: PathBuilderConfig, m: int, n: int)
    requires
        0 <= m <= n,
        bidi(s, g, pn, es, c, m).1,
    ensures
        bidi(s, g, pn, es, c, n) == bidi(s, g, pn, es, c, m),
    decreases n - m,
{
    if n > m {
        lemma_bidi_stops(s, g, pn, es, c, m, n - 1);
    }
}

/// No node visited: `cnt` empty visits.
pub open spec fn no_visits(cnt: nat) -> Seq<Visit> {
    Seq::new(cnt, |i: int| None::<(Seq<usize>, Seq<EdgeType>)>)
}

/// The state a search between nodes `a` and `b` starts in.
pub open spec fn bidi_init(a: usize, b: usize, cnt: nat) -> BState {
    (
        seq![(a, seq![a], Seq::<EdgeType>::empty())],
        no_visits(cnt).update(a as int, Some((seq![a], Seq::<EdgeType>::empty()))),
        seq![(b, seq![b], Seq::<EdgeType>::empty())],
        no_visits(cnt).update(b as int, Some((seq![b], Seq::<EdgeType>::empty()))),
        seq![],
        seq![],
    )
}

/// Queue items and visits are well formed.
pub open spec fn side_ok(q: Seq<QItem>, vis: Seq<Visit>, cnt: int) -> bool {
    &&& vis.len() == cnt
    &&& forall|k: int| 0 <= k < q.len() ==> (#[trigger] q[k]).0 < cnt && q[k].1.len() == q[k].2.len() + 1
    &&& forall|k: int| 0 <= k < vis.len() && (#[trigger] vis[k]) is Some ==> (vis[k]->0).0.len() == (vis[k]->0).1.len() + 1
}

/// A queue item as the search holds it.
pub type ExecQ = (usize, Vec<usize>, Vec<EdgeType>);

pub type ExecVisit = Option<(Vec<usize>, Vec<EdgeType>)>;

pub open spec fn q_view(x: ExecQ) -> QItem {
    (x.0, x.1@, x.2@)
}

pub open spec fn qviews(v: Seq<ExecQ>) -> Seq<QItem> {
    v.map_values(|x: ExecQ| q_view(x))
}

pub open spec fn visit_view(x: ExecVisit) -> Visit {
    match x {
        Some(p) => Some((p.0@, p.1@)),
        None => None,
    }
}

pub open spec fn visit_views(v: Seq<ExecVisit>) -> Seq<Visit> {
    v.map_values(|x: ExecVisit| visit_view(x))
}

fn rev_usizes(v: &Vec<usize>) -> (r: Vec<usize>)
    ensures
        r@ == v@.reverse(),
{
    let mut out: Vec<usize> = Vec::new();
    let mut i: usize = v.len();
    while i > 0
        invariant
            0 <= i <= v.len(),
            out@ == v@.subrange(i as int, v@.len() as int).reverse(),
        decreases i,
    {
        out.push(v[i - 1]);
        i = i - 1;
        assert(out@ =~= v@.subrange(i as int, v@.len() as int).reverse());
    }
    assert(v@.subrange(0, v@.len() as int) =~= v@);
    out
}

fn rev_kinds(v: &Vec<EdgeType>) -> (r: Vec<EdgeType>)
    ensures
        r@ == v@.reverse(),
{
    let mut out: Vec<EdgeType> = Vec::new();
    let mut i: usize = v.len();
    while i > 0
        invariant
            0 <= i <= v.len(),
            out@ == v@.subrange(i as int, v@.len() as int).reverse(),
        decreases i,
    {
        out.push(v[i - 1]);
        i = i - 1;
        assert(out@ =~= v@.subrange(i as int, v@.len() as int).reverse());
    }
    assert(v@.subrange(0, v@.len() as int) =~= v@);
    out
}

/// `a` followed by `b`.
fn concat_usizes(a: &Vec<usize>, b: &Vec<usize>) -> (r: Vec<usize>)
    ensures
        r@ == a@ + b@,
{
    let mut out = clone_usizes(a);
    let mut i: usize = 0;
    while i < b.len()
        invariant
            0 <= i <= b.len(),
            out@ == a@ + b@.take(i as int),
        decreases b.len() - i,
    {
        out.push(b[i]);
        i = i + 1;
        assert(out@ =~= a@ + b@.take(i as int));
    }
    assert(b@.take(b.len() as int) =~= b@);
    out
}

fn concat_kinds(a: &Vec<EdgeType>, b: &Vec<EdgeType>) -> (r: Vec<EdgeType>)
    ensures
        r@ == a@ + b@,
{
    let mut out = clone_kinds(a);
    let mut i: usize = 0;
    while i < b.len()
        invariant
            0 <= i <= b.len(),
            out@ == a@ + b@.take(i as int),
        decreases b.len() - i,
    {
        out.push(b[i]);
        i = i + 1;
        assert(out@ =~= a@ + b@.take(i as int));
    }
    assert(b@.take(b.len() as int) =~= b@);
    out
}

fn rev_tail_exec(h: &Vec<usize>) -> (r: Vec<usize>)
    ensures
        r@ == rev_tail(h@),
{
    let rv = rev_usizes(h);
    if rv.len() > 1 {
        let mut out: Vec<usize> = Vec::new();
        let mut i: usize = 1;
        while i < rv.len()
            invariant
                1 <= i <= rv.len(),
                out@ == rv@.subrange(1, i as int),
            decreases rv.len() - i,
        {
            out.push(rv[i]);
            i = i + 1;
            assert(out@ =~= rv@.subrange(1, i as int));
        }
        assert(rv@.skip(1) =~= rv@.subrange(1, rv@.len() as int));
        out
    } else {
        Vec::new()
    }
}

impl<'a> PathBuilder<'a> {
    fn record_exec(&self, paths: &mut Vec<Path>, seen: &mut Vec<Vec<char>>, nodes: &Vec<usize>, kinds: &Vec<EdgeType>)
        requires
            self.wf(),
            kinds@.len() < nodes@.len(),
        ensures
            (path_views(final(paths)@), views(final(seen)@)) == record(
                path_views(old(paths)@),
                views(old(seen)@),
                self.graph(),
                self.pet_nodes(),
                nodes@,
                kinds@,
            ),
    {
        match self.construct_path(nodes, kinds) {
            Some(p0) => {
                let ghost pv0 = path_view(p0);
                let mut p = p0;
                let sc = PathScorer::score(&p);
                p.score = sc;
                assert(path_view(p) == scored(pv0));
                let key = canonical_key(&p);
                if !key_seen(seen, &key) {
                    let ghost ps0 = path_views(paths@);
                    let ghost sn0 = views(seen@);
                    paths.push(p);
                    seen.push(key);
                    assert(path_views(paths@) =~= ps0.push(scored(pv0)));
                    assert(views(seen@) =~= sn0.push(key@));
                }
            },
            None => {},
        }
    }

    fn side_pop_exec(
        &self,
        q: &mut Vec<ExecQ>,
        head: &mut usize,
        vis: &mut Vec<ExecVisit>,
        other: &Vec<ExecVisit>,
        paths: &mut Vec<Path>,
        seen: &mut Vec<Vec<char>>,
        config: &PathBuilderConfig,
        forward: bool,
    )
        requires
            self.wf(),
            ends_below(self.pet_edges(), self.pet_nodes().len() as int),
            *old(head) <= old(q)@.len(),
            side_ok(qviews(old(q)@).skip(*old(head) as int), visit_views(old(vis)@), self.pet_nodes().len() as int),
            side_ok(seq![], visit_views(other@), self.pet_nodes().len() as int),
        ensures
            *final(head) <= final(q)@.len(),
            side_ok(qviews(final(q)@).skip(*final(head) as int), visit_views(final(vis)@), self.pet_nodes().len() as int),
            (qviews(final(q)@).skip(*final(head) as int), visit_views(final(vis)@), path_views(final(paths)@), views(final(seen)@))
                == side_pop(
                (qviews(old(q)@).skip(*old(head) as int), visit_views(old(vis)@), path_views(old(paths)@), views(old(seen)@)),
                visit_views(other@),
                self.graph(),
                self.pet_nodes(),
                self.pet_edges(),
                *config,
                forward,
            ),
    {
        let ghost cnt = self.pet_nodes().len() as int;
        let ghost q0 = qviews(q@).skip(*head as int);
        if *head >= q.len() {
            assert(q0.len() == 0);
            return;
        }
        let ghost it = q0[0];
        assert(it == q_view(q@[*head as int]));
        let curr = q[*head].0;
        let history = clone_usizes(&q[*head].1);
        let edges = clone_kinds(&q[*head].2);
        *head = *head + 1;
        assert(qviews(q@).skip(*head as int) =~= q0.drop_first());
        assert(q0[0].0 < cnt);
        assert(visit_views(other@)[curr as int] == visit_view(other@[curr as int]));
        match &other[curr] {
            Some(o) => {
                if forward {
                    let tail = rev_tail_exec(&o.0);
                    let nodes = concat_usizes(&history, &tail);
                    let re = rev_kinds(&o.1);
                    let kinds = concat_kinds(&edges, &re);
                    self.record_exec(paths, seen, &nodes, &kinds);
                } else {
                    let tail = rev_tail_exec(&history);
                    let nodes = concat_usizes(&o.0, &tail);
                    let re = rev_kinds(&edges);
                    let kinds = concat_kinds(&o.1, &re);
                    self.record_exec(paths, seen, &nodes, &kinds);
                }
            },
            None => {},
        }
        if edges.len() >= config.max_length / 2 + 1 {
            return;
        }
        let dir = if forward { TraversalDirection::Forward } else { TraversalDirection::Backward };
        let nb = self.neighbors(curr, dir, &config.allowed_edge_types, config.branch_factor);
        proof {
            lemma_neighbors_below(self.pet_edges(), curr, dir, config.allowed_edge_types, config.branch_factor, cnt);
        }
        let ghost q1 = qviews(q@).skip(*head as int);
        let ghost v1 = visit_views(vis@);
        let mut j: usize = 0;
        while j < nb.len()
            invariant
                0 <= j <= nb.len(),
                *head <= q@.len(),
                targets_below(nb@, cnt),
                cnt == self.pet_nodes().len(),
                it == (curr, history@, edges@),
                history@.len() == edges@.len() + 1,
                (qviews(q@).skip(*head as int), visit_views(vis@)) == expand(q1, v1, it, nb@, j as int),
                side_ok(qviews(q@).skip(*head as int), visit_views(vis@), cnt),
            decreases nb.len() - j,
        {
            let (k, nx) = nb[j];
            assert(nb@[j as int].1 < cnt);
            assert(visit_views(vis@)[nx as int] == visit_view(vis@[nx as int]));
            if vis[nx].is_none() {
                let mut h = clone_usizes(&history);
                h.push(nx);
                let mut e = clone_kinds(&edges);
                e.push(k);
                let h2 = clone_usizes(&h);
                let e2 = clone_kinds(&e);
                let ghost qb = qviews(q@).skip(*head as int);
                let ghost vb = visit_views(vis@);
                vis.set(nx, Some((h, e)));
                q.push((nx, h2, e2));
                assert(qviews(q@).skip(*head as int) =~= qb.push((nx, history@.push(nx), edges@.push(k))));
                assert(visit_views(vis@) =~= vb.update(nx as int, Some((history@.push(nx), edges@.push(k)))));
            }
            j = j + 1;
        }
    }
}

impl<'a> PathBuilder<'a> {
    fn side_level_exec(
        &self,
        q: &mut Vec<ExecQ>,
        head: &mut usize,
        vis: &mut Vec<ExecVisit>,
        other: &Vec<ExecVisit>,
        paths: &mut Vec<Path>,
        seen: &mut Vec<Vec<char>>,
        config: &PathBuilderConfig,
        forward: bool,
    )
        requires
            self.wf(),
            ends_below(self.pet_edges(), self.pet_nodes().len() as int),
            *old(head) <= old(q)@.len(),
            side_ok(qviews(old(q)@).skip(*old(head) as int), visit_views(old(vis)@), self.pet_nodes().len() as int),
            side_ok(seq![], visit_views(other@), self.pet_nodes().len() as int),
        ensures
            *final(head) <= final(q)@.len(),
            side_ok(qviews(final(q)@).skip(*final(head) as int), visit_views(final(vis)@), self.pet_nodes().len() as int),
            (qviews(final(q)@).skip(*final(head) as int), visit_views(final(vis)@), path_views(final(paths)@), views(final(seen)@))
                == side_level(
                (qviews(old(q)@).skip(*old(head) as int), visit_views(old(vis)@), path_views(old(paths)@), views(old(seen)@)),
                visit_views(other@),
                self.graph(),
                self.pet_nodes(),
                self.pet_edges(),
                *config,
                forward,
                old(q)@.len() - *old(head),
            ),
    {
        let level = q.len() - *head;
        let ghost st0: SideState = (qviews(q@).skip(*head as int), visit_views(vis@), path_views(paths@), views(seen@));
        let mut t: usize = 0;
        while t < level
            invariant
                0 <= t <= level,
                self.wf(),
                ends_below(self.pet_edges(), self.pet_nodes().len() as int),
                *head <= q@.len(),
                side_ok(qviews(q@).skip(*head as int), visit_views(vis@), self.pet_nodes().len() as int),
                side_ok(seq![], visit_views(other@), self.pet_nodes().len() as int),
                (qviews(q@).skip(*head as int), visit_views(vis@), path_views(paths@), views(seen@)) == side_level(
                    st0,
                    visit_views(other@),
                    self.graph(),
                    self.pet_nodes(),
                    self.pet_edges(),
                    *config,
                    forward,
                    t as int,
                ),
            decreases level - t,
        {
            self.side_pop_exec(q, head, vis, other, paths, seen, config, forward);
            t = t + 1;
        }
    }

    /// Searches from both ends, level by level: a forward level from
    /// `start_id` along outgoing edges, then a backward level from `end_id`
    /// along incoming edges, each recording the joined path wherever it
    /// reaches a node the other side has reached, until `max_length` rounds
    /// are done or `max_paths` paths are found. Ends that are not nodes, or
    /// are the same node, give no path.
    pub fn find_paths_bidirectional(&self, start_id: &NodeId, end_id: &NodeId, config: &PathBuilderConfig) -> (r: Vec<Path>)
        requires
            self.wf(),
        ensures
            match (
                crate::graph::index_of(self.graph().nodes@, start_id@),
                crate::graph::index_of(self.graph().nodes@, end_id@),
            ) {
                (Some(a), Some(b)) => if a == b {
                    r@.len() == 0
                } else {
                    path_views(r@) == bidi(
                        bidi_init(a as usize, b as usize, self.pet_nodes().len()),
                        self.graph(),
                        self.pet_nodes(),
                        self.pet_edges(),
                        *config,
                        config.max_length as int,
                    ).0.4
                },
                _ => r@.len() == 0,
            },
    {
        proof {
            crate::graph::lemma_index_of(self.code_graph.nodes@, start_id@);
            crate::graph::lemma_index_of(self.code_graph.nodes@, end_id@);
            lemma_pet_edges_below(self.graph(), self.graph().edges@.len() as int);
        }
        let a = match self.code_graph.position(start_id) {
            Some(i) => i,
            None => {
                return Vec::new();
            },
        };
        let b = match self.code_graph.position(end_id) {
            Some(i) => i,
            None => {
                return Vec::new();
            },
        };
        if a == b {
            return Vec::new();
        }
        let ghost g = self.graph();
        let ghost pn = self.pet_nodes();
        let ghost es = self.pet_edges();
        let ghost cnt = pn.len() as int;
        let n = self.code_graph.nodes.len();
        let mut fvis: Vec<ExecVisit> = Vec::new();
        let mut bvis: Vec<ExecVisit> = Vec::new();
        let mut i: usize = 0;
        while i < n
            invariant
                0 <= i <= n,
                n == g.nodes@.len(),
                visit_views(fvis@) == no_visits(i as nat),
                visit_views(bvis@) == no_visits(i as nat),
            decreases n - i,
        {
            let ghost fv0 = fvis@;
            let ghost bv0 = bvis@;
            fvis.push(None);
            bvis.push(None);
            assert(fvis@ == fv0.push(None));
            assert(visit_views(fvis@) =~= visit_views(fv0).push(None));
            assert(visit_views(bvis@) =~= visit_views(bv0).push(None));
            i = i + 1;
            assert(visit_views(fvis@) =~= no_visits(i as nat));
            assert(visit_views(bvis@) =~= no_visits(i as nat));
        }
        let mut fa: Vec<usize> = Vec::new();
        fa.push(a);
        let mut fa2: Vec<usize> = Vec::new();
        fa2.push(a);
        fvis.set(a, Some((fa, Vec::new())));
        let mut bb: Vec<usize> = Vec::new();
        bb.push(b);
        let mut bb2: Vec<usize> = Vec::new();
        bb2.push(b);
        bvis.set(b, Some((bb, Vec::new())));
        let mut fq: Vec<ExecQ> = Vec::new();
        fq.push((a, fa2, Vec::new()));
        let mut bq: Vec<ExecQ> = Vec::new();
        bq.push((b, bb2, Vec::new()));
        let mut fhead: usize = 0;
        let mut bhead: usize = 0;
        let mut paths: Vec<Path> = Vec::new();
        let mut seen: Vec<Vec<char>> = Vec::new();
        let ghost init = bidi_init(a, b, cnt as nat);
        assert(qviews(fq@).skip(0) =~= init.0);
        assert(qviews(bq@).skip(0) =~= init.2);
        assert(visit_views(fvis@) =~= init.1);
        assert(visit_views(bvis@) =~= init.3);
        assert(path_views(paths@) =~= init.4);
        assert(views(seen@) =~= init.5);
        let mut d: usize = 0;
        while d < config.max_length
            invariant
                0 <= d <= config.max_length,
                self.wf(),
                g == self.graph(),
                pn == self.pet_nodes(),
                es == self.pet_edges(),
                cnt == pn.len(),
                ends_below(es, cnt),
                fhead <= fq@.len(),
                bhead <= bq@.len(),
                side_ok(qviews(fq@).skip(fhead as int), visit_views(fvis@), cnt),
                side_ok(qviews(bq@).skip(bhead as int), visit_views(bvis@), cnt),
                !bidi(init, g, pn, es, *config, d as int).1,
                init == bidi_init(a, b, cnt as nat),
                crate::graph::index_of(g.nodes@, start_id@) == Some(a as int),
                crate::graph::index_of(g.nodes@, end_id@) == Some(b as int),
                a != b,
                bidi(init, g, pn, es, *config, d as int).0 == (
                    qviews(fq@).skip(fhead as int),
                    visit_views(fvis@),
                    qviews(bq@).skip(bhead as int),
                    visit_views(bvis@),
                    path_views(paths@),
                    views(seen@),
                ),
            decreases config.max_length - d,
        {
            let ghost s0: BState = bidi(init, g, pn, es, *config, d as int).0;
            assert(bidi(init, g, pn, es, *config, d + 1) == round(s0, g, pn, es, *config));
            assert(s0.0.len() == fq@.len() - fhead);
            assert(s0.2.len() == bq@.len() - bhead);
            assert(side_ok(seq![], visit_views(bvis@), cnt));
            self.side_level_exec(&mut fq, &mut fhead, &mut fvis, &bvis, &mut paths, &mut seen, config, true);
            let ghost f = side_level((s0.0, s0.1, s0.4, s0.5), s0.3, g, pn, es, *config, true, s0.0.len() as int);
            assert(f == (qviews(fq@).skip(fhead as int), visit_views(fvis@), path_views(paths@), views(seen@)));
            if paths.len() >= config.max_paths {
                proof {
                    assert(round(s0, g, pn, es, *config).1);
                    lemma_bidi_stops(init, g, pn, es, *config, d + 1, config.max_length as int);
                }
                return paths;
            }
            assert(side_ok(seq![], visit_views(fvis@), cnt));
            self.side_level_exec(&mut bq, &mut bhead, &mut bvis, &fvis, &mut paths, &mut seen, config, false);
            let ghost bst = side_level((s0.2, s0.3, f.2, f.3), f.1, g, pn, es, *config, false, s0.2.len() as int);
            assert(bst == (qviews(bq@).skip(bhead as int), visit_views(bvis@), path_views(paths@), views(seen@)));
            if paths.len() >= config.max_paths {
                proof {
                    assert(round(s0, g, pn, es, *config).1);
                    lemma_bidi_stops(init, g, pn, es, *config, d + 1, config.max_length as int);
                }
                return paths;
            }
            d = d + 1;
        }
        paths
    }
}

// ---------------------------------------------------------------------------
// Laws
// ---------------------------------------------------------------------------

/// The keys record exactly the paths' keys, without repeats.
pub open spec fn keys_match(ps: Seq<PathView>, sn: Seq<Seq<char>>) -> bool {
    &&& ps.len() == sn.len()
    &&& forall|i: int| 0 <= i < ps.len() ==> #[trigger] sn[i] == canonical_key_spec(ps[i])
    &&& sn.no_duplicates()
}

pub proof fn lemma_record_keys(
    ps: Seq<PathView>,
    sn: Seq<Seq<char>>,
    g: CodeGraph,
    pn: Seq<u64>,
    nodes: Seq<usize>,
    kinds: Seq<EdgeType>,
)
    requires
        keys_match(ps, sn),
    ensures
        keys_match(record(ps, sn, g, pn, nodes, kinds).0, record(ps, sn, g, pn, nodes, kinds).1),
        record(ps, sn, g, pn, nodes, kinds).0.len() <= ps.len() + 1,
{
    match construct_spec(g, pn, nodes, kinds) {
        Some(p0) => {
            let p = scored(p0);
            let key = canonical_key_spec(p);
            if !sn.contains(key) {
                let ps2 = ps.push(p);
                let sn2 = sn.push(key);
                assert forall|i: int| 0 <= i < ps2.len() implies #[trigger] sn2[i] == canonical_key_spec(ps2[i]) by {
                    if i < ps.len() {
                        assert(sn2[i] == sn[i]);
                        assert(ps2[i] == ps[i]);
                    }
                }
                assert forall|i: int, j: int| 0 <= i < sn2.len() && 0 <= j < sn2.len() && i != j implies sn2[i] != sn2[j] by {
                    if i < sn.len() && j < sn.len() {
                    } else if i == sn.len() {
                        assert(sn2[j] == sn[j]);
                    } else {
                        assert(sn2[i] == sn[i]);
                    }
                }
            }
        },
        None => {},
    }
}

pub proof fn lemma_fp_final_keys(s: FpState, g: CodeGraph, pn: Seq<u64>, es: Seq<(usize, usize, u8)>, c: PathBuilderConfig)
    requires
        entries_ok(s.0, c, pn.len() as int),
        ends_below(es, pn.len() as int),
        keys_match(s.1, s.2),
        s.1.len() <= c.max_paths || s.1.len() <= 1,
        !s.3 ==> s.1.len() < c.max_paths || s.1.len() == 0,
    ensures
        keys_match(fp_final(s, g, pn, es, c).1, fp_final(s, g, pn, es, c).2),
        fp_final(s, g, pn, es, c).1.len() <= c.max_paths || fp_final(s, g, pn, es, c).1.len() <= 1,
    decreases measure(s.0, c),
{
    if !fp_done(s) {
        lemma_fp_step(s, g, pn, es, c);
        let f = s.0;
        let m = max_index(f, f.len() as int);
        let e = f[m];
        let t = fp_step(s, g, pn, es, c);
        if e.3.len() > 0 {
            lemma_record_keys(s.1, s.2, g, pn, e.2, e.3);
            assert(record(s.1, s.2, g, pn, e.2, e.3).0 == t.1);
        }
        lemma_fp_final_keys(t, g, pn, es, c);
    }
}

/// A best-first search never returns two paths through the same node
/// sequence, and returns at most `max_paths` paths (at most one when
/// `max_paths` is 0).
pub proof fn law_find_paths(i: usize, g: CodeGraph, pn: Seq<u64>, es: Seq<(usize, usize, u8)>, c: PathBuilderConfig)
    requires
        i < pn.len(),
        ends_below(es, pn.len() as int),
    ensures
        forall|a: int, b: int|
            0 <= a < fp_final(fp_init(i), g, pn, es, c).1.len() && 0 <= b < fp_final(fp_init(i), g, pn, es, c).1.len()
                && a != b ==> canonical_key_spec(#[trigger] fp_final(fp_init(i), g, pn, es, c).1[a])
                != canonical_key_spec(#[trigger] fp_final(fp_init(i), g, pn, es, c).1[b]),
        fp_final(fp_init(i), g, pn, es, c).1.len() <= c.max_paths || fp_final(fp_init(i), g, pn, es, c).1.len() <= 1,
{
    let s = fp_init(i);
    assert(entries_ok(s.0, c, pn.len() as int)) by {
        assert forall|k: int| 0 <= k < s.0.len() implies {
            let e = #[trigger] s.0[k];
            &&& e.3.len() <= c.max_length
            &&& e.2.len() == e.3.len() + 1
            &&& e.1 < pn.len()
            &&& 0 <= e.0 <= 500 * e.3.len()
        } by {
            assert(s.0[k] == (0int, i, seq![i], Seq::<EdgeType>::empty()));
        }
    }
    lemma_fp_final_keys(s, g, pn, es, c);
    let r = fp_final(s, g, pn, es, c);
    assert forall|a: int, b: int|
        0 <= a < r.1.len() && 0 <= b < r.1.len() && a != b implies canonical_key_spec(#[trigger] r.1[a])
        != canonical_key_spec(#[trigger] r.1[b]) by {
        assert(r.2[a] == canonical_key_spec(r.1[a]));
        assert(r.2[b] == canonical_key_spec(r.1[b]));
    }
}

pub proof fn lemma_side_level_keys(
    st: SideState,
    other: Seq<Visit>,
    g: CodeGraph,
    pn: Seq<u64>,
    es: Seq<(usize, usize, u8)>,
    c: PathBuilderConfig,
    forward: bool,
    k: int,
)
    requires
        keys_match(st.2, st.3),
    ensures
        keys_match(side_level(st, other, g, pn, es, c, forward, k).2, side_level(st, other, g, pn, es, c, forward, k).3),
    decreases k,
{
    if k > 0 {
        lemma_side_level_keys(st, other, g, pn, es, c, forward, k - 1);
        let p = side_level(st, other, g, pn, es, c, forward, k - 1);
        if p.0.len() > 0 {
            let it = p.0[0];
            match other[it.0 as int] {
                Some(o) => if forward {
                    lemma_record_keys(p.2, p.3, g, pn, it.1 + rev_tail(o.0), it.2 + o.1.reverse());
                } else {
                    lemma_record_keys(p.2, p.3, g, pn, o.0 + rev_tail(it.1), o.1 + it.2.reverse());
                },
                None => {},
            }
        }
    }
}

pub proof fn lemma_bidi_keys(s: BState, g: CodeGraph, pn: Seq<u64>, es: Seq<(usize, usize, u8)>, c: PathBuilderConfig, d: int)
    requires
        keys_match(s.4, s.5),
    ensures
        keys_match(bidi(s, g, pn, es, c, d).0.4, bidi(s, g, pn, es, c, d).0.5),
    decreases d,
{
    if d > 0 {
        lemma_bidi_keys(s, g, pn, es, c, d - 1);
        let p = bidi(s, g, pn, es, c, d - 1);
        if !p.1 {
            let t = p.0;
            lemma_side_level_keys((t.0, t.1, t.4, t.5), t.3, g, pn, es, c, true, t.0.len() as int);
            let f = side_level((t.0, t.1, t.4, t.5), t.3, g, pn, es, c, true, t.0.len() as int);
            lemma_side_level_keys((t.2, t.3, f.2, f.3), f.1, g, pn, es, c, false, t.2.len() as int);
        }
    }
}

/// A search from both ends never returns two paths through the same node
/// sequence.
pub proof fn law_find_paths_bidirectional(a: usize, b: usize, g: CodeGraph, pn: Seq<u64>, es: Seq<(usize, usize, u8)>, c: PathBuilderConfig)
    ensures
        forall|x: int, y: int|
            0 <= x < bidi(bidi_init(a, b, pn.len()), g, pn, es, c, c.max_length as int).0.4.len() && 0 <= y
                < bidi(bidi_init(a, b, pn.len()), g, pn, es, c, c.max_length as int).0.4.len() && x != y
                ==> canonical_key_spec(#[trigger] bidi(bidi_init(a, b, pn.len()), g, pn, es, c, c.max_length as int).0.4[x])
                != canonical_key_spec(#[trigger] bidi(bidi_init(a, b, pn.len()), g, pn, es, c, c.max_length as int).0.4[y]),
{
    let s = bidi_init(a, b, pn.len());
    lemma_bidi_keys(s, g, pn, es, c, c.max_length as int);
    let r = bidi(s, g, pn, es, c, c.max_length as int).0;
    assert forall|x: int, y: int|
        0 <= x < r.4.len() && 0 <= y < r.4.len() && x != y implies canonical_key_spec(#[trigger] r.4[x])
        != canonical_key_spec(#[trigger] r.4[y]) by {
        assert(r.5[x] == canonical_key_spec(r.4[x]));
        assert(r.5[y] == canonical_key_spec(r.4[y]));
    }
}


/// Each edge of a path runs from the path's node at its position to the
/// next node, and there is one more node than edges.
pub open spec fn edges_follow_nodes(p: PathView) -> bool {
    &&& p.1.len() == p.2.len() + 1
    &&& forall|i: int| 0 <= i < p.2.len() ==> (#[trigger] p.2[i]).0 == p.1[i].0 && p.2[i].1 == p.1[i + 1].0
}

pub open spec fn all_follow(ps: Seq<PathView>) -> bool {
    forall|k: int| 0 <= k < ps.len() ==> edges_follow_nodes(#[trigger] ps[k])
}

/// A path built from node positions and edge kinds has, in order, the
/// nodes at those positions; edge `i` has kind `kinds[i]` and runs from
/// node `i` to node `i + 1`.
pub proof fn law_construct_path(g: CodeGraph, pn: Seq<u64>, idxs: Seq<usize>, kinds: Seq<EdgeType>)
    requires
        idxs.len() == kinds.len() + 1,
    ensures
        construct_spec(g, pn, idxs, kinds) matches Some(p) ==> {
            &&& edges_follow_nodes(p)
            &&& forall|i: int| 0 <= i < idxs.len() ==> (#[trigger] p.1[i]).0 == g.nodes@[pn[idxs[i] as int] as int].id@
            &&& forall|i: int| 0 <= i < kinds.len() ==> (#[trigger] p.2[i]).2 == kinds[i]
        },
{
}

proof fn lemma_record_follow(ps: Seq<PathView>, sn: Seq<Seq<char>>, g: CodeGraph, pn: Seq<u64>, nodes: Seq<usize>, kinds: Seq<EdgeType>)
    requires
        all_follow(ps),
        nodes.len() == kinds.len() + 1,
    ensures
        all_follow(record(ps, sn, g, pn, nodes, kinds).0),
{
    law_construct_path(g, pn, nodes, kinds);
    let r = record(ps, sn, g, pn, nodes, kinds).0;
    assert forall|k: int| 0 <= k < r.len() implies edges_follow_nodes(#[trigger] r[k]) by {
        if k < ps.len() {
            assert(r[k] == ps[k]);
        }
    }
}

proof fn lemma_fp_final_follow(s: FpState, g: CodeGraph, pn: Seq<u64>, es: Seq<(usize, usize, u8)>, c: PathBuilderConfig)
    requires
        entries_ok(s.0, c, pn.len() as int),
        ends_below(es, pn.len() as int),
        all_follow(s.1),
    ensures
        all_follow(fp_final(s, g, pn, es, c).1),
    decreases measure(s.0, c),
{
    if !fp_done(s) {
        lemma_fp_step(s, g, pn, es, c);
        let f = s.0;
        lemma_max_index(f, f.len() as int);
        let m = max_index(f, f.len() as int);
        let e = f[m];
        let t = fp_step(s, g, pn, es, c);
        if e.3.len() > 0 {
            lemma_record_follow(s.1, s.2, g, pn, e.2, e.3);
            assert(record(s.1, s.2, g, pn, e.2, e.3).0 == t.1);
        }
        lemma_fp_final_follow(t, g, pn, es, c);
    }
}

/// Every path a best-first search returns runs forward through its nodes:
/// its edge `i` goes from its node `i` to its node `i + 1`.
pub proof fn law_find_paths_follow(i: usize, g: CodeGraph, pn: Seq<u64>, es: Seq<(usize, usize, u8)>, c: PathBuilderConfig)
    requires
        i < pn.len(),
        ends_below(es, pn.len() as int),
    ensures
        forall|k: int|
            0 <= k < fp_final(fp_init(i), g, pn, es, c).1.len() ==> edges_follow_nodes(
                #[trigger] fp_final(fp_init(i), g, pn, es, c).1[k],
            ),
{
    let s = fp_init(i);
    assert(entries_ok(s.0, c, pn.len() as int)) by {
        assert forall|k: int| 0 <= k < s.0.len() implies {
            let e = #[trigger] s.0[k];
            &&& e.3.len() <= c.max_length
            &&& e.2.len() == e.3.len() + 1
            &&& e.1 < pn.len()
            &&& 0 <= e.0 <= 500 * e.3.len()
        } by {
            assert(s.0[k] == (0int, i, seq![i], Seq::<EdgeType>::empty()));
        }
    }
    lemma_fp_final_follow(s, g, pn, es, c);
}


proof fn lemma_expand_ok(q: Seq<QItem>, vis: Seq<Visit>, it: QItem, nb: Seq<(EdgeType, usize)>, n: int, cnt: int)
    requires
        side_ok(q, vis, cnt),
        it.1.len() == it.2.len() + 1,
        targets_below(nb, cnt),
        0 <= n <= nb.len(),
    ensures
        side_ok(expand(q, vis, it, nb, n).0, expand(q, vis, it, nb, n).1, cnt),
    decreases n,
{
    if n > 0 {
        lemma_expand_ok(q, vis, it, nb, n - 1, cnt);
        let prev = expand(q, vis, it, nb, n - 1);
        let st = nb[n - 1];
        if prev.1[st.1 as int] is None {
            let h = it.1.push(st.1);
            let e = it.2.push(st.0);
            let q2 = prev.0.push((st.1, h, e));
            let v2 = prev.1.update(st.1 as int, Some((h, e)));
            assert forall|k: int| 0 <= k < q2.len() implies (#[trigger] q2[k]).0 < cnt && q2[k].1.len() == q2[k].2.len() + 1 by {
                if k < prev.0.len() {
                    assert(q2[k] == prev.0[k]);
                }
            }
            assert forall|k: int| 0 <= k < v2.len() && (#[trigger] v2[k]) is Some implies (v2[k]->0).0.len() == (v2[k]->0).1.len() + 1 by {
                if k != st.1 as int {
                    assert(v2[k] == prev.1[k]);
                }
            }
        }
    }
}

proof fn lemma_joined_lengths(it: QItem, o: (Seq<usize>, Seq<EdgeType>))
    requires
        it.1.len() == it.2.len() + 1,
        o.0.len() == o.1.len() + 1,
    ensures
        (it.1 + rev_tail(o.0)).len() == (it.2 + o.1.reverse()).len() + 1,
        (o.0 + rev_tail(it.1)).len() == (o.1 + it.2.reverse()).len() + 1,
{
}

proof fn lemma_side_pop_ok(
    st: SideState,
    other: Seq<Visit>,
    g: CodeGraph,
    pn: Seq<u64>,
    es: Seq<(usize, usize, u8)>,
    c: PathBuilderConfig,
    forward: bool,
)
    requires
        side_ok(st.0, st.1, pn.len() as int),
        side_ok(seq![], other, pn.len() as int),
        ends_below(es, pn.len() as int),
        all_follow(st.2),
    ensures
        side_ok(side_pop(st, other, g, pn, es, c, forward).0, side_pop(st, other, g, pn, es, c, forward).1, pn.len() as int),
        all_follow(side_pop(st, other, g, pn, es, c, forward).2),
{
    if st.0.len() > 0 {
        let cnt = pn.len() as int;
        let it = st.0[0];
        let q1 = st.0.drop_first();
        assert(side_ok(q1, st.1, cnt)) by {
            assert forall|k: int| 0 <= k < q1.len() implies (#[trigger] q1[k]).0 < cnt && q1[k].1.len() == q1[k].2.len() + 1 by {
                assert(q1[k] == st.0[k + 1]);
            }
        }
        match other[it.0 as int] {
            Some(o) => {
                lemma_joined_lengths(it, o);
                if forward {
                    lemma_record_follow(st.2, st.3, g, pn, it.1 + rev_tail(o.0), it.2 + o.1.reverse());
                } else {
                    lemma_record_follow(st.2, st.3, g, pn, o.0 + rev_tail(it.1), o.1 + it.2.reverse());
                }
            },
            None => {},
        }
        if it.2.len() < c.max_length / 2 + 1 {
            let dir = if forward {
                TraversalDirection::Forward
            } else {
                TraversalDirection::Backward
            };
            let nb = neighbors_spec(es, it.0, dir, c.allowed_edge_types, c.branch_factor);
            lemma_neighbors_below(es, it.0, dir, c.allowed_edge_types, c.branch_factor, cnt);
            lemma_expand_ok(q1, st.1, it, nb, nb.len() as int, cnt);
        }
    }
}

proof fn lemma_side_level_ok(
    st: SideState,
    other: Seq<Visit>,
    g: CodeGraph,
    pn: Seq<u64>,
    es: Seq<(usize, usize, u8)>,
    c: PathBuilderConfig,
    forward: bool,
    k: int,
)
    requires
        side_ok(st.0, st.1, pn.len() as int),
        side_ok(seq![], other, pn.len() as int),
        ends_below(es, pn.len() as int),
        all_follow(st.2),
    ensures
        side_ok(side_level(st, other, g, pn, es, c, forward, k).0, side_level(st, other, g, pn, es, c, forward, k).1, pn.len() as int),
        all_follow(side_level(st, other, g, pn, es, c, forward, k).2),
    decreases k,
{
    if k > 0 {
        lemma_side_level_ok(st, other, g, pn, es, c, forward, k - 1);
        let p = side_level(st, other, g, pn, es, c, forward, k - 1);
        lemma_side_pop_ok(p, other, g, pn, es, c, forward);
    }
}

proof fn lemma_bidi_follow(s: BState, g: CodeGraph, pn: Seq<u64>, es: Seq<(usize, usize, u8)>, c: PathBuilderConfig, d: int)
    requires
        side_ok(s.0, s.1, pn.len() as int),
        side_ok(s.2, s.3, pn.len() as int),
        ends_below(es, pn.len() as int),
        all_follow(s.4),
    ensures
        side_ok(bidi(s, g, pn, es, c, d).0.0, bidi(s, g, pn, es, c, d).0.1, pn.len() as int),
        side_ok(bidi(s, g, pn, es, c, d).0.2, bidi(s, g, pn, es, c, d).0.3, pn.len() as int),
        all_follow(bidi(s, g, pn, es, c, d).0.4),
    decreases d,
{
    if d > 0 {
        lemma_bidi_follow(s, g, pn, es, c, d - 1);
        let p = bidi(s, g, pn, es, c, d - 1);
        if !p.1 {
            let t = p.0;
            let cnt = pn.len() as int;
            assert(side_ok(seq![], t.3, cnt));
            lemma_side_level_ok((t.0, t.1, t.4, t.5), t.3, g, pn, es, c, true, t.0.len() as int);
            let f = side_level((t.0, t.1, t.4, t.5), t.3, g, pn, es, c, true, t.0.len() as int);
            assert(side_ok(seq![], f.1, cnt));
            lemma_side_level_ok((t.2, t.3, f.2, f.3), f.1, g, pn, es, c, false, t.2.len() as int);
        }
    }
}

/// Every path a search from both ends returns runs forward through its
/// nodes, from the start to the end: its edge `i` goes from its node `i`
/// to its node `i + 1`.
pub proof fn law_find_paths_bidirectional_follow(
    a: usize,
    b: usize,
    g: CodeGraph,
    pn: Seq<u64>,
    es: Seq<(usize, usize, u8)>,
    c: PathBuilderConfig,
)
    requires
        a < pn.len(),
        b < pn.len(),
        ends_below(es, pn.len() as int),
    ensures
        forall|k: int|
            0 <= k < bidi(bidi_init(a, b, pn.len()), g, pn, es, c, c.max_length as int).0.4.len() ==> edges_follow_nodes(
                #[trigger] bidi(bidi_init(a, b, pn.len()), g, pn, es, c, c.max_length as int).0.4[k],
            ),
{
    let s = bidi_init(a, b, pn.len());
    let cnt = pn.len() as int;
    assert(side_ok(s.0, s.1, cnt)) by {
        assert forall|k: int| 0 <= k < s.1.len() && (#[trigger] s.1[k]) is Some implies (s.1[k]->0).0.len() == (s.1[k]->0).1.len() + 1 by {
            if k != a as int {
                assert(s.1[k] == no_visits(pn.len())[k]);
            }
        }
    }
    assert(side_ok(s.2, s.3, cnt)) by {
        assert forall|k: int| 0 <= k < s.3.len() && (#[trigger] s.3[k]) is Some implies (s.3[k]->0).0.len() == (s.3[k]->0).1.len() + 1 by {
            if k != b as int {
                assert(s.3[k] == no_visits(pn.len())[k]);
            }
        }
    }
    lemma_bidi_follow(s, g, pn, es, c, c.max_length as int);
}


// ---------------------------------------------------------------------------
// Paths follow graph edges
// ---------------------------------------------------------------------------

/// Whether `nb` offers the step of kind `k` to node `t`.
pub open spec fn has_step(nb: Seq<(EdgeType, usize)>, k: EdgeType, t: usize) -> bool {
    exists|x: int| 0 <= x < nb.len() && #[trigger] nb[x] == (k, t)
}

proof fn lemma_edges_at_from(es: Seq<(usize, usize, u8)>, i: usize, n: int, y: int)
    requires
        0 <= n <= es.len(),
        0 <= y < edges_at(es, i, true, n).len(),
    ensures
        exists|x: int|
            0 <= x < n && (#[trigger] es[x]).0 == i && edges_at(es, i, true, n)[y] == (es[x].2, es[x].0, es[x].1),
    decreases n,
{
    let e = es[n - 1];
    let rest = edges_at(es, i, true, n - 1);
    let cur = edges_at(es, i, true, n);
    if e.0 == i {
        if y == 0 {
            assert(es[n - 1].0 == i && cur[y] == (es[n - 1].2, es[n - 1].0, es[n - 1].1));
        } else {
            lemma_edges_at_from(es, i, n - 1, y - 1);
            assert(cur[y] == rest[y - 1]);
        }
    } else {
        lemma_edges_at_from(es, i, n - 1, y);
    }
}

proof fn lemma_steps_from(outs: Seq<(u8, usize, usize)>, c: Option<Vec<EdgeType>>, n: int, y: int)
    requires
        0 <= n <= outs.len(),
        0 <= y < steps_allowed(outs, c, n).len(),
    ensures
        exists|z: int| 0 <= z < n && steps_allowed(outs, c, n)[y] == (edge_kind((#[trigger] outs[z]).0), outs[z].2),
    decreases n,
{
    let prev = steps_allowed(outs, c, n - 1);
    if allowed(c, edge_kind(outs[n - 1].0)) && y == prev.len() {
        assert(steps_allowed(outs, c, n)[y] == (edge_kind(outs[n - 1].0), outs[n - 1].2));
    } else {
        lemma_steps_from(outs, c, n - 1, y);
        assert(steps_allowed(outs, c, n)[y] == prev[y]);
    }
}

proof fn lemma_with_weight_from(v: Seq<(EdgeType, usize)>, w: int, n: int, y: int)
    requires
        0 <= n <= v.len(),
        0 <= y < with_weight(v, w, n).len(),
    ensures
        exists|z: int| 0 <= z < n && with_weight(v, w, n)[y] == #[trigger] v[z],
    decreases n,
{
    let prev = with_weight(v, w, n - 1);
    if edge_weight_spec(v[n - 1].0) == w && y == prev.len() {
        assert(with_weight(v, w, n)[y] == v[n - 1]);
    } else {
        lemma_with_weight_from(v, w, n - 1, y);
        assert(with_weight(v, w, n)[y] == prev[y]);
    }
}

proof fn lemma_with_weight_len(v: Seq<(EdgeType, usize)>, w: int, n: int)
    requires
        0 <= n <= v.len(),
    ensures
        with_weight(v, w, n).len() <= n,
    decreases n,
{
    if n > 0 {
        lemma_with_weight_len(v, w, n - 1);
    }
}

/// A forward step that a search may take from node `i` follows an edge
/// from `i` to the step's node, of the step's kind.
pub proof fn lemma_forward_step_edge(es: Seq<(usize, usize, u8)>, i: usize, c: Option<Vec<EdgeType>>, bf: usize, k: EdgeType, t: usize)
    requires
        has_step(neighbors_spec(es, i, TraversalDirection::Forward, c, bf), k, t),
    ensures
        exists|x: int| 0 <= x < es.len() && (#[trigger] es[x]).0 == i && es[x].1 == t && edge_kind(es[x].2) == k,
{
    let outs = edges_at(es, i, true, es.len() as int);
    let raw = steps_allowed(outs, c, outs.len() as int);
    let a = with_weight(raw, 500, raw.len() as int);
    let b = with_weight(raw, 200, raw.len() as int);
    let d = with_weight(raw, 0, raw.len() as int);
    let sorted = a + b + d;
    let nb = neighbors_spec(es, i, TraversalDirection::Forward, c, bf);
    let x = choose|x: int| 0 <= x < nb.len() && #[trigger] nb[x] == (k, t);
    assert(nb[x] == sorted[x]);
    let y: int = if x < a.len() {
        lemma_with_weight_from(raw, 500, raw.len() as int, x);
        let z = choose|z: int| 0 <= z < raw.len() && a[x] == #[trigger] raw[z];
        z
    } else if x < a.len() + b.len() {
        lemma_with_weight_from(raw, 200, raw.len() as int, x - a.len());
        let z = choose|z: int| 0 <= z < raw.len() && b[x - a.len()] == #[trigger] raw[z];
        z
    } else {
        lemma_with_weight_from(raw, 0, raw.len() as int, x - a.len() - b.len());
        let z = choose|z: int| 0 <= z < raw.len() && d[x - a.len() - b.len()] == #[trigger] raw[z];
        z
    };
    assert(raw[y] == (k, t));
    lemma_steps_from(outs, c, outs.len() as int, y);
    let z = choose|z: int| 0 <= z < outs.len() && raw[y] == (edge_kind((#[trigger] outs[z]).0), outs[z].2);
    lemma_edges_at_from(es, i, es.len() as int, z);
    let w = choose|w: int| 0 <= w < es.len() && (#[trigger] es[w]).0 == i && outs[z] == (es[w].2, es[w].0, es[w].1);
    assert(es[w].1 == t && edge_kind(es[w].2) == k);
}

/// An edge of the search graph stands for an edge of the code graph between
/// the nodes at its ends, of its kind.
pub proof fn lemma_pet_edge_from(g: CodeGraph, n: int, x: int)
    requires
        0 <= n <= g.edges@.len(),
        0 <= x < pet_edges_upto(g, n).len(),
    ensures
        ({
            let e = pet_edges_upto(g, n)[x];
            exists|y: int|
                0 <= y < n && e.0 < g.nodes@.len() && e.1 < g.nodes@.len() && g.nodes@[e.0 as int].id@ == (
                #[trigger] g.edges@[y]).source@ && g.nodes@[e.1 as int].id@ == g.edges@[y].target@ && edge_kind(e.2)
                    == g.edges@[y].kind
        }),
    decreases n,
{
    let prev = pet_edges_upto(g, n - 1);
    let e = g.edges@[n - 1];
    crate::graph::lemma_index_upto(g.nodes@, e.source@, g.nodes@.len() as int);
    crate::graph::lemma_index_upto(g.nodes@, e.target@, g.nodes@.len() as int);
    if x < prev.len() {
        lemma_pet_edge_from(g, n - 1, x);
        assert(pet_edges_upto(g, n)[x] == prev[x]);
    } else {
        assert(edge_kind(crate::pet::edge_code(e.kind)) == e.kind);
        let a = crate::graph::index_of(g.nodes@, e.source@)->0;
        let b = crate::graph::index_of(g.nodes@, e.target@)->0;
        assert(g.nodes.len() == g.nodes@.len());
        assert(pet_edges_upto(g, n)[x] == (a as usize, b as usize, crate::pet::edge_code(e.kind)));
        assert(g.nodes@[a].id@ == g.edges@[n - 1].source@);
        assert(g.nodes@[b].id@ == g.edges@[n - 1].target@);
    }
}

/// Every step of a path is an edge of the code graph from the step's node
/// to the next one, of the step's kind.
pub open spec fn steps_are_edges(g: CodeGraph, p: PathView) -> bool {
    forall|j: int|
        0 <= j < p.2.len() ==> exists|y: int|
            0 <= y < g.edges@.len() && (#[trigger] g.edges@[y]).source@ == p.1[j].0 && g.edges@[y].target@
                == p.1[j + 1].0 && g.edges@[y].kind == (#[trigger] p.2[j]).2
}

pub open spec fn entry_steps(e: Entry, es: Seq<(usize, usize, u8)>, c: PathBuilderConfig) -> bool {
    &&& e.2.len() >= 1
    &&& e.2[e.2.len() - 1] == e.1
    &&& forall|j: int|
        0 <= j < e.3.len() && j + 1 < e.2.len() ==> has_step(
            neighbors_spec(es, #[trigger] e.2[j], c.direction, c.allowed_edge_types, c.branch_factor),
            e.3[j],
            e.2[j + 1],
        )
}

pub open spec fn entries_step(f: Seq<Entry>, es: Seq<(usize, usize, u8)>, c: PathBuilderConfig) -> bool {
    forall|k: int| 0 <= k < f.len() ==> entry_steps(#[trigger] f[k], es, c)
}

proof fn lemma_children_step(e: Entry, es: Seq<(usize, usize, u8)>, c: PathBuilderConfig, n: int)
    requires
        entry_steps(e, es, c),
        e.2.len() == e.3.len() + 1,
        0 <= n <= neighbors_spec(es, e.1, c.direction, c.allowed_edge_types, c.branch_factor).len(),
    ensures
        entries_step(children(e, neighbors_spec(es, e.1, c.direction, c.allowed_edge_types, c.branch_factor), n), es, c),
    decreases n,
{
    let nb = neighbors_spec(es, e.1, c.direction, c.allowed_edge_types, c.branch_factor);
    if n > 0 {
        lemma_children_step(e, es, c, n - 1);
        let prev = children(e, nb, n - 1);
        let st = nb[n - 1];
        if !e.2.contains(st.1) {
            let ne: Entry = (e.0 + edge_weight_spec(st.0), st.1, e.2.push(st.1), e.3.push(st.0));
            assert(entry_steps(ne, es, c)) by {
                assert forall|j: int| 0 <= j < ne.3.len() && j + 1 < ne.2.len() implies has_step(
                    neighbors_spec(es, #[trigger] ne.2[j], c.direction, c.allowed_edge_types, c.branch_factor),
                    ne.3[j],
                    ne.2[j + 1],
                ) by {
                    if j < e.3.len() {
                        assert(ne.2[j] == e.2[j] && ne.3[j] == e.3[j] && ne.2[j + 1] == e.2[j + 1]);
                    } else {
                        assert(ne.2[j] == e.1);
                        assert(nb[n - 1] == (ne.3[j], ne.2[j + 1]));
                    }
                }
            }
            let cur = children(e, nb, n);
            assert forall|k: int| 0 <= k < cur.len() implies entry_steps(#[trigger] cur[k], es, c) by {
                if k < prev.len() {
                    assert(cur[k] == prev[k]);
                }
            }
        }
    }
}

pub open spec fn all_edges(g: CodeGraph, ps: Seq<PathView>) -> bool {
    forall|k: int| 0 <= k < ps.len() ==> steps_are_edges(g, #[trigger] ps[k])
}

proof fn lemma_record_edges(
    ps: Seq<PathView>,
    sn: Seq<Seq<char>>,
    g: CodeGraph,
    c: PathBuilderConfig,
    e: Entry,
)
    requires
        all_edges(g, ps),
        entry_steps(e, pet_edges_upto(g, g.edges@.len() as int), c),
        e.2.len() == e.3.len() + 1,
        c.direction == TraversalDirection::Forward,
    ensures
        all_edges(g, record(ps, sn, g, positions(g.nodes@.len()), e.2, e.3).0),
{
    let pn = positions(g.nodes@.len());
    let es = pet_edges_upto(g, g.edges@.len() as int);
    let r = record(ps, sn, g, pn, e.2, e.3).0;
    if let Some(p0) = construct_spec(g, pn, e.2, e.3) {
        let p = scored(p0);
        assert(steps_are_edges(g, p)) by {
            assert forall|j: int| 0 <= j < p.2.len() implies exists|y: int|
                0 <= y < g.edges@.len() && (#[trigger] g.edges@[y]).source@ == p.1[j].0 && g.edges@[y].target@
                    == p.1[j + 1].0 && g.edges@[y].kind == (#[trigger] p.2[j]).2 by {
                let a = e.2[j];
                let b = e.2[j + 1];
                assert(has_step(
                    neighbors_spec(es, e.2[j], c.direction, c.allowed_edge_types, c.branch_factor),
                    e.3[j],
                    b,
                ));
                lemma_forward_step_edge(es, a, c.allowed_edge_types, c.branch_factor, e.3[j], b);
                let x = choose|x: int| 0 <= x < es.len() && (#[trigger] es[x]).0 == a && es[x].1 == b && edge_kind(es[x].2) == e.3[j];
                lemma_pet_edge_from(g, g.edges@.len() as int, x);
                assert(pn[a as int] as int == a);
                assert(pn[b as int] as int == b);
                assert(p.1[j].0 == g.nodes@[a as int].id@);
                assert(p.1[j + 1].0 == g.nodes@[b as int].id@);
            }
        }
        assert forall|k: int| 0 <= k < r.len() implies steps_are_edges(g, #[trigger] r[k]) by {
            if k < ps.len() {
                assert(r[k] == ps[k]);
            }
        }
    }
}

proof fn lemma_fp_final_edges(s: FpState, g: CodeGraph, c: PathBuilderConfig)
    requires
        entries_ok(s.0, c, g.nodes@.len() as int),
        entries_step(s.0, pet_edges_upto(g, g.edges@.len() as int), c),
        all_edges(g, s.1),
        c.direction == TraversalDirection::Forward,
    ensures
        all_edges(g, fp_final(s, g, positions(g.nodes@.len()), pet_edges_upto(g, g.edges@.len() as int), c).1),
    decreases measure(s.0, c),
{
    let pn = positions(g.nodes@.len());
    let es = pet_edges_upto(g, g.edges@.len() as int);
    lemma_pet_edges_below(g, g.edges@.len() as int);
    assert(pn.len() == g.nodes@.len());
    if !fp_done(s) {
        lemma_fp_step(s, g, pn, es, c);
        let f = s.0;
        lemma_max_index(f, f.len() as int);
        let m = max_index(f, f.len() as int);
        let e = f[m];
        let f1 = f.remove(m);
        let t = fp_step(s, g, pn, es, c);
        assert(entry_steps(e, es, c));
        if e.3.len() > 0 {
            lemma_record_edges(s.1, s.2, g, c, e);
            assert(record(s.1, s.2, g, pn, e.2, e.3).0 == t.1);
        }
        assert(entries_step(f1, es, c)) by {
            assert forall|k: int| 0 <= k < f1.len() implies entry_steps(#[trigger] f1[k], es, c) by {
                if k < m {
                    assert(f1[k] == f[k]);
                } else {
                    assert(f1[k] == f[k + 1]);
                }
            }
        }
        if !(e.3.len() >= c.max_length) {
            let nb = neighbors_spec(es, e.1, c.direction, c.allowed_edge_types, c.branch_factor);
            lemma_children_step(e, es, c, nb.len() as int);
            let ch = children(e, nb, nb.len() as int);
            assert forall|k: int| 0 <= k < (f1 + ch).len() implies entry_steps(#[trigger] (f1 + ch)[k], es, c) by {
                if k < f1.len() {
                    assert((f1 + ch)[k] == f1[k]);
                } else {
                    assert((f1 + ch)[k] == ch[k - f1.len()]);
                }
            }
        }
        lemma_fp_final_edges(t, g, c);
    }
}

/// Every path a forward best-first search returns walks along edges of the
/// code graph: its step `j` is an edge from its node `j` to its node
/// `j + 1`, of the step's kind.
pub proof fn law_find_paths_edges(i: usize, g: CodeGraph, c: PathBuilderConfig)
    requires
        i < g.nodes@.len(),
        c.direction == TraversalDirection::Forward,
    ensures
        forall|k: int|
            0 <= k < fp_final(fp_init(i), g, positions(g.nodes@.len()), pet_edges_upto(g, g.edges@.len() as int), c).1.len()
                ==> steps_are_edges(
                g,
                #[trigger] fp_final(fp_init(i), g, positions(g.nodes@.len()), pet_edges_upto(g, g.edges@.len() as int), c).1[k],
            ),
{
    let s = fp_init(i);
    let es = pet_edges_upto(g, g.edges@.len() as int);
    assert(entries_ok(s.0, c, g.nodes@.len() as int)) by {
        assert forall|k: int| 0 <= k < s.0.len() implies {
            let e = #[trigger] s.0[k];
            &&& e.3.len() <= c.max_length
            &&& e.2.len() == e.3.len() + 1
            &&& e.1 < g.nodes@.len()
            &&& 0 <= e.0 <= 500 * e.3.len()
        } by {
            assert(s.0[k] == (0int, i, seq![i], Seq::<EdgeType>::empty()));
        }
    }
    assert(entries_step(s.0, es, c)) by {
        assert forall|k: int| 0 <= k < s.0.len() implies entry_steps(#[trigger] s.0[k], es, c) by {
            assert(s.0[k] == (0int, i, seq![i], Seq::<EdgeType>::empty()));
        }
    }
    lemma_fp_final_edges(s, g, c);
}

} // verus!
