//! Choosing the graph nodes that path searches start from.
use vstd::prelude::*;
use crate::graph::{overlap_spec, overlap_wide, string_eq, CodeGraph, GraphNode, NodeId, NodeType};
use crate::models::Chunk;

verus! {

/// The score with which a node claims a chunk as a starting point: shared
/// lines plus a bonus (functions 1000, classes 500), or none when the node
/// is in another file or shares no line.
pub open spec fn seed_claim(n: GraphNode, c: Chunk) -> Option<int> {
    match n.file_path {
        Some(p) => {
            let ov = overlap_spec(n.start_line as int, n.end_line as int, c.start_line as int, c.end_line as int);
            if p@ != c.file_path@ || ov == 0 {
                None
            } else {
                Some(ov + match n.kind {
                    NodeType::Function => 1000int,
                    NodeType::Class => 500int,
                    _ => 0int,
                })
            }
        },
        None => None,
    }
}

/// The first node, among the first `n`, with the highest claim on the chunk.
pub open spec fn best_seed_upto(nodes: Seq<GraphNode>, c: Chunk, n: int) -> Option<int>
    decreases n,
{
    if n <= 0 {
        None
    } else {
        let prev = best_seed_upto(nodes, c, n - 1);
        match seed_claim(nodes[n - 1], c) {
            Some(s) => match prev {
                Some(b) => if s > seed_claim(nodes[b], c)->0 {
                    Some(n - 1)
                } else {
                    prev
                },
                None => Some(n - 1),
            },
            None => prev,
        }
    }
}

pub proof fn lemma_best_seed_upto(nodes: Seq<GraphNode>, c: Chunk, n: int)
    requires
        0 <= n <= nodes.len(),
    ensures
        match best_seed_upto(nodes, c, n) {
            Some(b) => 0 <= b < n && seed_claim(nodes[b], c) is Some,
            None => true,
        },
    decreases n,
{
    if n > 0 {
        lemma_best_seed_upto(nodes, c, n - 1);
    }
}

/// The seeds chosen for the first `n` chunks: each chunk's best node, unless
/// already chosen, until `limit` seeds are chosen.
pub open spec fn seeds_upto(nodes: Seq<GraphNode>, chunks: Seq<Chunk>, limit: usize, n: int) -> Seq<Seq<char>>
    decreases n,
{
    if n <= 0 {
        seq![]
    } else {
        let prev = seeds_upto(nodes, chunks, limit, n - 1);
        if prev.len() >= limit {
            prev
        } else {
            match best_seed_upto(nodes, chunks[n - 1], nodes.len() as int) {
                Some(b) => if prev.contains(nodes[b].id@) {
                    prev
                } else {
                    prev.push(nodes[b].id@)
                },
                None => prev,
            }
        }
    }
}

pub open spec fn ids(v: Seq<NodeId>) -> Seq<Seq<char>> {
    v.map_values(|x: NodeId| x@)
}

/// Chooses path-search seeds.
pub struct SeedSelector;

impl SeedSelector {
    fn best_seed(graph: &CodeGraph, chunk: &Chunk) -> (r: Option<usize>)
        ensures
            match r {
                Some(x) => best_seed_upto(graph.nodes@, *chunk, graph.nodes@.len() as int) == Some(x as int)
                    && x < graph.nodes@.len(),
                None => best_seed_upto(graph.nodes@, *chunk, graph.nodes@.len() as int) is None,
            },
    {
        let mut best: Option<usize> = None;
        let mut best_score: u128 = 0;
        let mut i: usize = 0;
        while i < graph.nodes.len()
            invariant
                0 <= i <= graph.nodes.len(),
                best == match best_seed_upto(graph.nodes@, *chunk, i as int) {
                    Some(b) => Some(b as usize),
                    None => None::<usize>,
                },
                best_seed_upto(graph.nodes@, *chunk, i as int) is Some ==> best_score == seed_claim(
                    graph.nodes@[best_seed_upto(graph.nodes@, *chunk, i as int)->0],
                    *chunk,
                )->0,
                best_seed_upto(graph.nodes@, *chunk, i as int) is None ==> best_score == 0,
            decreases graph.nodes.len() - i,
        {
            proof {
                lemma_best_seed_upto(graph.nodes@, *chunk, i as int);
            }
            let node = &graph.nodes[i];
            match &node.file_path {
                Some(p) => {
                    if string_eq(p, &chunk.file_path) {
                        let ov = overlap_wide(node.start_line, node.end_line, chunk.start_line, chunk.end_line);
                        if ov != 0 {
                            let bonus: u128 = match node.kind {
                                NodeType::Function => 1000,
                                NodeType::Class => 500,
                                _ => 0,
                            };
                            let score = ov + bonus;
                            if score > best_score {
                                best = Some(i);
                                best_score = score;
                            }
                        }
                    }
                },
                None => {},
            }
            i = i + 1;
        }
        proof {
            lemma_best_seed_upto(graph.nodes@, *chunk, graph.nodes@.len() as int);
        }
        best
    }

    /// For each chunk in turn, until `limit` seeds are chosen, the node of
    /// the chunk's file that best covers it (shared lines plus a bonus for
    /// functions and classes; the first on ties), each chosen once.
    pub fn select_seeds(graph: &CodeGraph, chunks: &[Chunk], limit: usize) -> (r: Vec<NodeId>)
        ensures
            ids(r@) == seeds_upto(graph.nodes@, chunks@, limit, chunks@.len() as int),
    {
        let mut result: Vec<NodeId> = Vec::new();
        let mut i: usize = 0;
        while i < chunks.len()
            invariant
                0 <= i <= chunks.len(),
                ids(result@) == seeds_upto(graph.nodes@, chunks@, limit, i as int),
            decreases chunks.len() - i,
        {
            if result.len() < limit {
                proof {
                    lemma_best_seed_upto(graph.nodes@, chunks@[i as int], graph.nodes@.len() as int);
                }
                match Self::best_seed(graph, &chunks[i]) {
                    Some(b) => {
                        let id = &graph.nodes[b].id;
                        let mut found = false;
                        let mut j: usize = 0;
                        while j < result.len()
                            invariant
                                0 <= j <= result.len(),
                                found == exists|t: int| 0 <= t < j && #[trigger] ids(result@)[t] == id@,
                            decreases result.len() - j,
                        {
                            if string_eq(&result[j].0, &id.0) {
                                assert(ids(result@)[j as int] == id@);
                                found = true;
                            }
                            j = j + 1;
                        }
                        assert(found == ids(result@).contains(id@)) by {
                            if ids(result@).contains(id@) {
                                let t = choose|t: int| 0 <= t < ids(result@).len() && ids(result@)[t] == id@;
                                assert(exists|t: int| 0 <= t < result@.len() && #[trigger] ids(result@)[t] == id@);
                            }
                        }
                        let ghost prev = ids(result@);
                        assert(prev == seeds_upto(graph.nodes@, chunks@, limit, i as int));
                        assert(best_seed_upto(graph.nodes@, chunks@[i as int], graph.nodes@.len() as int) == Some(b as int));
                        assert(id@ == graph.nodes@[b as int].id@);
                        if !found {
                            result.push(id.clone());
                            assert(ids(result@) =~= prev.push(id@));
                        }
                        assert(ids(result@) == seeds_upto(graph.nodes@, chunks@, limit, i + 1));
                    },
                    None => {
                        assert(ids(result@) == seeds_upto(graph.nodes@, chunks@, limit, i + 1));
                    },
                }
            }
            i = i + 1;
        }
        result
    }
}

/// Seeds are never chosen twice, and no more than `limit` are chosen.
pub proof fn law_select_seeds(nodes: Seq<GraphNode>, chunks: Seq<Chunk>, limit: usize, n: int)
    requires
        0 <= n <= chunks.len(),
    ensures
        seeds_upto(nodes, chunks, limit, n).no_duplicates(),
        seeds_upto(nodes, chunks, limit, n).len() <= limit,
    decreases n,
{
    if n > 0 {
        law_select_seeds(nodes, chunks, limit, n - 1);
        let prev = seeds_upto(nodes, chunks, limit, n - 1);
        let cur = seeds_upto(nodes, chunks, limit, n);
        if cur.len() > prev.len() {
            assert forall|a: int, b: int| 0 <= a < cur.len() && 0 <= b < cur.len() && a != b implies cur[a] != cur[b] by {
                let m = prev.len() as int;
                if a < m && b < m {
                    assert(cur[a] == prev[a] && cur[b] == prev[b]);
                } else if a == m {
                    assert(cur[b] == prev[b]);
                    assert(prev.contains(prev[b]));
                } else {
                    assert(cur[a] == prev[a]);
                    assert(prev.contains(prev[a]));
                }
            }
        }
    }
}

} // verus!
