//! The code graph as a petgraph graph: node `i` carries the position `i` of
//! a code-graph node, and each edge carries the code of its kind.
use vstd::prelude::*;
use petgraph::visit::EdgeRef;
use crate::graph::{CodeGraph, EdgeType, index_of, lemma_index_of};

verus! {

#[verifier::external_type_specification]
#[verifier::external_body]
#[verifier::reject_recursive_types(N)]
#[verifier::reject_recursive_types(E)]
#[verifier::reject_recursive_types(Ty)]
#[verifier::reject_recursive_types(Ix)]
pub struct ExGraph<N, E, Ty, Ix>(petgraph::Graph<N, E, Ty, Ix>);

#[verifier::external_type_specification]
#[verifier::external_body]
pub struct ExDirected(petgraph::Directed);

/// The node weights of a petgraph graph, by node index.
pub uninterp spec fn pg_nodes(g: petgraph::Graph<u64, u8>) -> Seq<u64>;

/// The edges of a petgraph graph, in the order they were added: source
/// index, target index and weight.
pub uninterp spec fn pg_edges(g: petgraph::Graph<u64, u8>) -> Seq<(usize, usize, u8)>;

/// Calls `Graph::new`: a graph without nodes or edges.
#[verifier::external_body]
fn pg_new() -> (g: petgraph::Graph<u64, u8>)
    ensures
        pg_nodes(g) == Seq::<u64>::empty(),
        pg_edges(g) == Seq::<(usize, usize, u8)>::empty(),
{
    petgraph::Graph::new()
}

/// Calls `Graph::add_node`, which appends a node and returns its index; it
/// panics when the index would be `u32::MAX`, the end marker.
#[verifier::external_body]
fn pg_add_node(g: &mut petgraph::Graph<u64, u8>, w: u64) -> (i: usize)
    requires
        pg_nodes(*old(g)).len() < u32::MAX,
    ensures
        i == pg_nodes(*old(g)).len(),
        pg_nodes(*final(g)) == pg_nodes(*old(g)).push(w),
        pg_edges(*final(g)) == pg_edges(*old(g)),
{
    g.add_node(w).index()
}

/// Calls `Graph::add_edge`, which appends an edge; it panics when an end is
/// not a node or when the edge index would be `u32::MAX`.
#[verifier::external_body]
fn pg_add_edge(g: &mut petgraph::Graph<u64, u8>, a: usize, b: usize, w: u8)
    requires
        a < pg_nodes(*old(g)).len(),
        b < pg_nodes(*old(g)).len(),
        pg_edges(*old(g)).len() < u32::MAX,
    ensures
        pg_nodes(*final(g)) == pg_nodes(*old(g)),
        pg_edges(*final(g)) == pg_edges(*old(g)).push((a, b, w)),
{
    g.add_edge(petgraph::graph::NodeIndex::new(a), petgraph::graph::NodeIndex::new(b), w);
}

/// Calls `Graph::node_count`: the number of nodes.
#[verifier::external_body]
pub(crate) fn pg_node_count(g: &petgraph::Graph<u64, u8>) -> (n: usize)
    ensures
        n == pg_nodes(*g).len(),
{
    g.node_count()
}

/// Calls `Graph::node_weight`: the weight of node `i`, if it exists. The
/// index must fit petgraph's 32-bit node indices.
#[verifier::external_body]
pub(crate) fn pg_node_weight(g: &petgraph::Graph<u64, u8>, i: usize) -> (r: Option<u64>)
    requires
        i < u32::MAX,
    ensures
        r == if i < pg_nodes(*g).len() {
            Some(pg_nodes(*g)[i as int])
        } else {
            None::<u64>
        },
{
    g.node_weight(petgraph::graph::NodeIndex::new(i)).copied()
}

/// The edges among the first `n` whose source (`outgoing`) or target is
/// `i`, most recently added first, as weight, source and target.
pub open spec fn edges_at(es: Seq<(usize, usize, u8)>, i: usize, outgoing: bool, n: int) -> Seq<
    (u8, usize, usize),
>
    decreases n,
{
    if n <= 0 {
        seq![]
    } else {
        let e = es[n - 1];
        let rest = edges_at(es, i, outgoing, n - 1);
        if (outgoing && e.0 == i) || (!outgoing && e.1 == i) {
            seq![(e.2, e.0, e.1)] + rest
        } else {
            rest
        }
    }
}

/// Calls `Graph::edges_directed` on a directed graph: the edges from node
/// `i` (`outgoing`) or to it, in reverse order of addition, each as its
/// weight and its source and target as the edge records them.
#[verifier::external_body]
pub(crate) fn pg_edges_directed(g: &petgraph::Graph<u64, u8>, i: usize, outgoing: bool) -> (r: Vec<(u8, usize, usize)>)
    requires
        i < pg_nodes(*g).len(),
    ensures
        r@ == edges_at(pg_edges(*g), i, outgoing, pg_edges(*g).len() as int),
{
    let dir = if outgoing {
        petgraph::Direction::Outgoing
    } else {
        petgraph::Direction::Incoming
    };
    g.edges_directed(petgraph::graph::NodeIndex::new(i), dir).map(
        |e| (*e.weight(), e.source().index(), e.target().index()),
    ).collect()
}

/// The code of an edge kind, in declaration order.
pub open spec fn edge_code(k: EdgeType) -> u8 {
    match k {
        EdgeType::Calls => 0,
        EdgeType::DefinedIn => 1,
        EdgeType::Imports => 2,
        EdgeType::MemberOf => 3,
        EdgeType::DataFlow => 4,
    }
}

pub fn edge_code_exec(k: EdgeType) -> (c: u8)
    ensures
        c == edge_code(k),
{
    match k {
        EdgeType::Calls => 0,
        EdgeType::DefinedIn => 1,
        EdgeType::Imports => 2,
        EdgeType::MemberOf => 3,
        EdgeType::DataFlow => 4,
    }
}

/// The edge kind of a code; codes past the last kind read as data flow.
pub open spec fn edge_kind(c: u8) -> EdgeType {
    if c == 0 {
        EdgeType::Calls
    } else if c == 1 {
        EdgeType::DefinedIn
    } else if c == 2 {
        EdgeType::Imports
    } else if c == 3 {
        EdgeType::MemberOf
    } else {
        EdgeType::DataFlow
    }
}

pub fn edge_kind_exec(c: u8) -> (k: EdgeType)
    ensures
        k == edge_kind(c),
{
    if c == 0 {
        EdgeType::Calls
    } else if c == 1 {
        EdgeType::DefinedIn
    } else if c == 2 {
        EdgeType::Imports
    } else if c == 3 {
        EdgeType::MemberOf
    } else {
        EdgeType::DataFlow
    }
}

/// The petgraph edges of the first `n` code-graph edges whose ends are
/// both nodes, in order, between node positions.
pub open spec fn pet_edges_upto(g: CodeGraph, n: int) -> Seq<(usize, usize, u8)>
    decreases n,
{
    if n <= 0 {
        seq![]
    } else {
        let e = g.edges@[n - 1];
        let prev = pet_edges_upto(g, n - 1);
        match (index_of(g.nodes@, e.source@), index_of(g.nodes@, e.target@)) {
            (Some(a), Some(b)) => prev.push((a as usize, b as usize, edge_code(e.kind))),
            _ => prev,
        }
    }
}

/// Node `i` carries `i`.
pub open spec fn positions(n: nat) -> Seq<u64> {
    Seq::new(n, |i: int| i as u64)
}

impl CodeGraph {
    /// The graph as a petgraph graph: one node per code-graph node, carrying
    /// its position, and one edge per code-graph edge whose ends are both
    /// nodes, carrying the code of its kind.
    pub fn as_petgraph(&self) -> (r: petgraph::Graph<u64, u8>)
        requires
            self.wf(),
            self.nodes@.len() < u32::MAX,
            self.edges@.len() < u32::MAX,
        ensures
            pg_nodes(r) == positions(self.nodes@.len()),
            pg_edges(r) == pet_edges_upto(*self, self.edges@.len() as int),
    {
        let mut g = pg_new();
        let mut i: usize = 0;
        while i < self.nodes.len()
            invariant
                0 <= i <= self.nodes.len(),
                self.nodes@.len() < u32::MAX,
                pg_nodes(g) == positions(i as nat),
                pg_edges(g) == Seq::<(usize, usize, u8)>::empty(),
            decreases self.nodes.len() - i,
        {
            pg_add_node(&mut g, i as u64);
            i = i + 1;
            assert(pg_nodes(g) =~= positions(i as nat));
        }
        let mut j: usize = 0;
        while j < self.edges.len()
            invariant
                0 <= j <= self.edges.len(),
                self.wf(),
                self.edges@.len() < u32::MAX,
                pg_nodes(g) == positions(self.nodes@.len()),
                pg_edges(g) == pet_edges_upto(*self, j as int),
                pet_edges_upto(*self, j as int).len() <= j,
            decreases self.edges.len() - j,
        {
            let e = &self.edges[j];
            proof {
                lemma_index_of(self.nodes@, e.source@);
                lemma_index_of(self.nodes@, e.target@);
            }
            match (self.position(&e.source), self.position(&e.target)) {
                (Some(a), Some(b)) => {
                    pg_add_edge(&mut g, a, b, edge_code_exec(e.kind));
                },
                _ => {},
            }
            j = j + 1;
        }
        g
    }
}

} // verus!
