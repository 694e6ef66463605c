//! What the code graph adds to a search's results: the paths through the
//! nodes the results point at, and how close each result lies to the best
//! ones.
use vstd::prelude::*;
use crate::distance::{bfs_final, bfs_init, shortest_distance_to_seeds};
use crate::graph::{best_claim_upto, has_id, index_of, CodeGraph, GraphNode, NodeId};
use crate::models::Chunk;
use crate::order::{index_views, is_ranking, lemma_ranking_unique, rank_scores, ranking, score_views};
use crate::paths::{fp_final, fp_init, path_view, path_views, Path, PathBuilder, PathBuilderConfig, PathView, TraversalDirection};
use crate::paths::lemma_pet_edges_below;
use crate::pet::{pet_edges_upto, pg_edges, pg_nodes, positions};
use crate::seeds::{ids, seeds_upto, SeedSelector};
use crate::symbol_index::SymbolIndex;
use crate::symbols::Symbol;

verus! {

/// The configuration a path search starts from.
pub open spec fn default_config() -> PathBuilderConfig {
    PathBuilderConfig {
        max_length: 5,
        max_paths: 20,
        branch_factor: 5,
        direction: TraversalDirection::Both,
        allowed_edge_types: None,
    }
}

/// The paths a best-first search from node `id` finds.
pub open spec fn paths_from(g: CodeGraph, id: Seq<char>, c: PathBuilderConfig) -> Seq<PathView> {
    match index_of(g.nodes@, id) {
        None => seq![],
        Some(i) => fp_final(
            fp_init(i as usize),
            g,
            positions(g.nodes@.len()),
            pet_edges_upto(g, g.edges@.len() as int),
            c,
        ).1,
    }
}

/// The paths from each node in turn.
pub open spec fn paths_of_ids(g: CodeGraph, ns: Seq<Seq<char>>, c: PathBuilderConfig) -> Seq<PathView>
    decreases ns.len(),
{
    if ns.len() == 0 {
        seq![]
    } else {
        paths_of_ids(g, ns.drop_last(), c) + paths_from(g, ns.last(), c)
    }
}

/// The identifiers of the first `n` symbols that are nodes of the graph.
pub open spec fn node_hits(g: CodeGraph, hits: Seq<Symbol>, n: int) -> Seq<Seq<char>>
    decreases n,
{
    if n <= 0 {
        seq![]
    } else {
        let prev = node_hits(g, hits, n - 1);
        if has_id(g.nodes@, hits[n - 1].id@) {
            prev.push(hits[n - 1].id@)
        } else {
            prev
        }
    }
}

/// The scores of paths, for ranking.
pub open spec fn path_scores(ps: Seq<PathView>) -> Seq<Option<int>> {
    Seq::new(ps.len(), |i: int| Some(ps[i].3 as int))
}

/// The paths with each run of paths of one identifier cut to its first.
pub open spec fn dedup_ids(ps: Seq<PathView>) -> Seq<PathView>
    decreases ps.len(),
{
    if ps.len() == 0 {
        seq![]
    } else if ps.len() > 1 && ps[ps.len() - 2].0 == ps.last().0 {
        dedup_ids(ps.drop_last())
    } else {
        dedup_ids(ps.drop_last()).push(ps.last())
    }
}

/// The paths related to a search: those from the seeds of the results and
/// from the first five symbols named like the query that are nodes, best
/// score first (ties in the order found), repeated identifiers dropped,
/// at most ten.
pub open spec fn related_paths_spec(g: CodeGraph, chunks: Seq<Chunk>, hits: Seq<Symbol>) -> Seq<PathView> {
    let c = default_config();
    let seeds = seeds_upto(g.nodes@, chunks, 10, chunks.len() as int);
    let n = if hits.len() < 5 {
        hits.len() as int
    } else {
        5
    };
    let all = paths_of_ids(g, seeds, c) + paths_of_ids(g, node_hits(g, hits, n), c);
    let o = ranking(path_scores(all));
    let d = dedup_ids(o.map_values(|i: int| all[i]));
    if d.len() <= 10 {
        d
    } else {
        d.take(10)
    }
}

fn append_paths(all: &mut Vec<Path>, more: Vec<Path>)
    ensures
        path_views(final(all)@) == path_views(old(all)@) + path_views(more@),
{
    let mut more = more;
    let ghost a = path_views(all@);
    let ghost m = path_views(more@);
    all.append(&mut more);
    assert(path_views(all@) =~= a + m);
}

proof fn lemma_dedup_ids(ps: Seq<PathView>)
    ensures
        forall|k: int| 0 < k < dedup_ids(ps).len() ==> (#[trigger] dedup_ids(ps)[k]).0 != dedup_ids(ps)[k - 1].0,
        ps.len() > 0 ==> dedup_ids(ps).len() > 0 && dedup_ids(ps).last().0 == ps.last().0,
        dedup_ids(ps).len() <= ps.len(),
    decreases ps.len(),
{
    if ps.len() > 0 {
        lemma_dedup_ids(ps.drop_last());
        if ps.len() > 1 {
            assert(ps.drop_last().last() == ps[ps.len() - 2]);
        }
    }
}

/// The related paths are at most ten, and no two in a row share an
/// identifier.
pub proof fn law_related_paths(g: CodeGraph, chunks: Seq<Chunk>, hits: Seq<Symbol>)
    ensures
        related_paths_spec(g, chunks, hits).len() <= 10,
        forall|k: int|
            0 < k < related_paths_spec(g, chunks, hits).len() ==> (#[trigger] related_paths_spec(g, chunks, hits)[k]).0
                != related_paths_spec(g, chunks, hits)[k - 1].0,
{
    let c = default_config();
    let seeds = seeds_upto(g.nodes@, chunks, 10, chunks.len() as int);
    let n = if hits.len() < 5 {
        hits.len() as int
    } else {
        5
    };
    let all = paths_of_ids(g, seeds, c) + paths_of_ids(g, node_hits(g, hits, n), c);
    let o = ranking(path_scores(all));
    let sorted = o.map_values(|i: int| all[i]);
    lemma_dedup_ids(sorted);
}

/// Finds the paths related to a search's results: from the seeds the
/// results point at and from the symbols named like the query.
pub fn related_paths(graph: &CodeGraph, chunks: &[Chunk], index: &SymbolIndex, query: &str) -> (r: Vec<Path>)
    requires
        graph.wf(),
        graph.nodes@.len() < u32::MAX,
        graph.edges@.len() < u32::MAX,
        index.wf(),
    ensures
        path_views(r@) == related_paths_spec(*graph, chunks@, index.get(query@)),
{
    let builder = PathBuilder::new(graph);
    let config = PathBuilderConfig::default();
    assert(config == default_config());
    let ghost c = default_config();
    let seeds = SeedSelector::select_seeds(graph, chunks, 10);
    let ghost sv = ids(seeds@);
    let mut all: Vec<Path> = Vec::new();
    let mut i: usize = 0;
    while i < seeds.len()
        invariant
            0 <= i <= seeds.len(),
            builder.wf(),
            builder.graph() == *graph,
            config == c,
            c == default_config(),
            sv == ids(seeds@),
            path_views(all@) == paths_of_ids(*graph, sv.take(i as int), c),
        decreases seeds.len() - i,
    {
        let found = builder.find_paths(&seeds[i], &config);
        assert(sv[i as int] == seeds[i as int]@);
        assert(path_views(found@) == paths_from(*graph, sv[i as int], c));
        append_paths(&mut all, found);
        assert(sv.take(i + 1).drop_last() =~= sv.take(i as int));
        i = i + 1;
    }
    assert(sv.take(seeds.len() as int) =~= sv);
    let ghost from_seeds = path_views(all@);
    let hits = index.search(query);
    let ghost hv = index.get(query@);
    assert(hits@.map_values(|s: &Symbol| *s) =~= hv);
    let n = if hits.len() < 5 { hits.len() } else { 5 };
    let mut k: usize = 0;
    while k < n
        invariant
            0 <= k <= n <= hits.len(),
            hits@.len() == hv.len(),
            forall|t: int| 0 <= t < hits@.len() ==> *hits@[t] == hv[t],
            builder.wf(),
            builder.graph() == *graph,
            graph.wf(),
            config == c,
            path_views(all@) == from_seeds + paths_of_ids(*graph, node_hits(*graph, hv, k as int), c),
        decreases n - k,
    {
        let id = NodeId(hits[k].id.clone());
        assert(id@ == hv[k as int].id@);
        if graph.contains_node(&id) {
            let found = builder.find_paths(&id, &config);
            let ghost before = path_views(all@);
            append_paths(&mut all, found);
            assert(node_hits(*graph, hv, k + 1).drop_last() == node_hits(*graph, hv, k as int));
            assert(path_views(all@) =~= from_seeds + paths_of_ids(*graph, node_hits(*graph, hv, k + 1), c));
        }
        k = k + 1;
    }
    let ghost allv = path_views(all@);
    let mut scores: Vec<Option<u128>> = Vec::new();
    let mut j: usize = 0;
    while j < all.len()
        invariant
            0 <= j <= all.len(),
            allv == path_views(all@),
            scores@.len() == j,
            forall|t: int| 0 <= t < j ==> #[trigger] scores@[t] == Some(all@[t].score),
        decreases all.len() - j,
    {
        scores.push(Some(all[j].score));
        j = j + 1;
    }
    assert(score_views(scores@) =~= path_scores(allv));
    let o = rank_scores(&scores);
    proof {
        lemma_ranking_unique(path_scores(allv), ranking(path_scores(allv)), index_views(o@));
    }
    let ghost sorted = index_views(o@).map_values(|t: int| allv[t]);
    let mut out: Vec<Path> = Vec::new();
    let mut m: usize = 0;
    while m < o.len()
        invariant
            0 <= m <= o.len(),
            allv == path_views(all@),
            is_ranking(path_scores(allv), index_views(o@)),
            path_scores(allv).len() == all.len(),
            sorted == index_views(o@).map_values(|t: int| allv[t]),
            path_views(out@) == dedup_ids(sorted.take(m as int)),
        decreases o.len() - m,
    {
        let idx = o[m];
        assert(index_views(o@)[m as int] == idx as int);
        assert(sorted[m as int] == allv[idx as int]);
        let keep = if m == 0 {
            true
        } else {
            let prev = o[m - 1];
            assert(index_views(o@)[m - 1] == prev as int);
            assert(sorted[m - 1] == allv[prev as int]);
            !crate::graph::string_eq(&all[prev].id, &all[idx].id)
        };
        let ghost before = path_views(out@);
        assert(sorted.take(m + 1).drop_last() =~= sorted.take(m as int));
        if keep {
            let p = all[idx].clone();
            out.push(p);
            assert(path_views(out@) =~= before.push(allv[idx as int]));
        }
        m = m + 1;
    }
    assert(sorted.take(o.len() as int) =~= sorted);
    out.truncate(10);
    proof {
        let d = dedup_ids(sorted);
        if d.len() > 10 {
            assert(path_views(out@) =~= d.take(10));
        }
    }
    out
}

/// The positions of the nodes that the first `n` results claim, in order;
/// results that claim no node give none.
pub open spec fn seed_positions(nodes: Seq<GraphNode>, chunks: Seq<Chunk>, n: int) -> Seq<usize>
    decreases n,
{
    if n <= 0 {
        seq![]
    } else {
        let prev = seed_positions(nodes, chunks, n - 1);
        match best_claim_upto(nodes, chunks[n - 1], nodes.len() as int) {
            Some(b) => prev.push(b as usize),
            None => prev,
        }
    }
}

/// The search that maps the neighbourhood of the best results.
pub open spec fn boost_config() -> PathBuilderConfig {
    PathBuilderConfig {
        max_length: 4,
        max_paths: 30,
        branch_factor: 5,
        direction: TraversalDirection::Both,
        allowed_edge_types: None,
    }
}

/// The distance from node `start` to the nearest seed, along outgoing
/// edges, within `depth` steps.
pub open spec fn distance_of(g: CodeGraph, start: usize, seeds: Seq<usize>, depth: usize) -> Option<usize> {
    let cnt = g.nodes@.len();
    if start >= cnt {
        if seeds.contains(start) {
            Some(0usize)
        } else {
            None
        }
    } else {
        match bfs_final(bfs_init(start, cnt), pet_edges_upto(g, g.edges@.len() as int), seeds, depth, cnt as int).2 {
            Some(x) => x,
            None => None,
        }
    }
}

/// Whether some path passes through the node `id`.
pub open spec fn on_paths(ps: Seq<PathView>, id: Seq<char>) -> bool {
    exists|i: int, j: int| 0 <= i < ps.len() && 0 <= j < ps[i].1.len() && (#[trigger] ps[i].1[j]).0 == id
}

/// The identifiers of the nodes at some positions.
pub open spec fn ids_at(nodes: Seq<GraphNode>, ps: Seq<usize>) -> Seq<Seq<char>> {
    ps.map_values(|b: usize| nodes[b as int].id@)
}

/// For each result, when the graph has a node for it within four steps of
/// the nodes of the first five results: that distance, and whether a path
/// from one of the first three of those nodes passes through it.
pub open spec fn proximity_spec(g: CodeGraph, chunks: Seq<Chunk>) -> Seq<Option<(usize, bool)>> {
    let n = if chunks.len() < 5 {
        chunks.len() as int
    } else {
        5
    };
    let seeds = seed_positions(g.nodes@, chunks, n);
    let m = if seeds.len() < 3 {
        seeds.len() as int
    } else {
        3
    };
    let ps = paths_of_ids(g, ids_at(g.nodes@, seeds.take(m)), boost_config());
    Seq::new(
        chunks.len(),
        |i: int|
            if seeds.len() == 0 {
                None
            } else {
                match best_claim_upto(g.nodes@, chunks[i], g.nodes@.len() as int) {
                    None => None,
                    Some(b) => match distance_of(g, b as usize, seeds, 4) {
                        None => None,
                        Some(d) => Some((d, on_paths(ps, g.nodes@[b].id@))),
                    },
                }
            },
    )
}

fn on_paths_exec(ps: &Vec<Path>, id: &String) -> (b: bool)
    ensures
        b == on_paths(path_views(ps@), id@),
{
    let ghost pv = path_views(ps@);
    let mut i: usize = 0;
    while i < ps.len()
        invariant
            0 <= i <= ps.len(),
            pv == path_views(ps@),
            forall|a: int, j: int| 0 <= a < i && 0 <= j < pv[a].1.len() ==> (#[trigger] pv[a].1[j]).0 != id@,
        decreases ps.len() - i,
    {
        let nodes = &ps[i].nodes;
        assert(pv[i as int] == path_view(ps@[i as int]));
        let mut j: usize = 0;
        while j < nodes.len()
            invariant
                0 <= j <= nodes.len(),
                i < ps.len(),
                pv == path_views(ps@),
                nodes == ps@[i as int].nodes,
                pv[i as int] == path_view(ps@[i as int]),
                forall|a: int, t: int| 0 <= a < i && 0 <= t < pv[a].1.len() ==> (#[trigger] pv[a].1[t]).0 != id@,
                forall|t: int| 0 <= t < j ==> (#[trigger] pv[i as int].1[t]).0 != id@,
            decreases nodes.len() - j,
        {
            assert(pv[i as int].1[j as int].0 == nodes@[j as int].node_id@);
            if crate::graph::string_eq(&nodes[j].node_id, id) {
                assert(on_paths(pv, id@)) by {
                    assert((pv[i as int].1[j as int]).0 == id@);
                }
                return true;
            }
            j = j + 1;
        }
        i = i + 1;
    }
    false
}

/// How close each result lies to the best results in the code graph: the
/// distance and whether a path from the best results passes through it.
pub fn graph_proximity(graph: &CodeGraph, chunks: &[Chunk]) -> (r: Vec<Option<(usize, bool)>>)
    requires
        graph.wf(),
        graph.nodes@.len() < u32::MAX,
        graph.edges@.len() < u32::MAX,
    ensures
        r@ == proximity_spec(*graph, chunks@),
{
    let ghost want = proximity_spec(*graph, chunks@);
    let n = if chunks.len() < 5 { chunks.len() } else { 5 };
    let mut seeds: Vec<usize> = Vec::new();
    let mut i: usize = 0;
    while i < n
        invariant
            0 <= i <= n <= chunks.len(),
            graph.wf(),
            seeds@ == seed_positions(graph.nodes@, chunks@, i as int),
            forall|t: int| 0 <= t < seeds@.len() ==> #[trigger] seeds@[t] < graph.nodes@.len(),
        decreases n - i,
    {
        match graph.find_node_for_chunk(&chunks[i]) {
            Some(id) => {
                proof {
                    crate::graph::lemma_best_claim_upto(graph.nodes@, chunks@[i as int], graph.nodes@.len() as int);
                }
                match graph.position(&id) {
                    Some(b) => {
                        proof {
                            let c = best_claim_upto(graph.nodes@, chunks@[i as int], graph.nodes@.len() as int)->0;
                            crate::graph::lemma_index_of(graph.nodes@, graph.nodes@[c].id@);
                        }
                        seeds.push(b);
                    },
                    None => {
                        proof {
                            let c = best_claim_upto(graph.nodes@, chunks@[i as int], graph.nodes@.len() as int)->0;
                            crate::graph::lemma_index_of(graph.nodes@, graph.nodes@[c].id@);
                        }
                    },
                }
            },
            None => {},
        }
        i = i + 1;
    }
    if seeds.len() == 0 {
        let mut out: Vec<Option<(usize, bool)>> = Vec::new();
        let mut k: usize = 0;
        while k < chunks.len()
            invariant
                0 <= k <= chunks.len(),
                seeds@.len() == 0,
                seeds@ == seed_positions(graph.nodes@, chunks@, n as int),
                n == if chunks.len() < 5 { chunks.len() } else { 5 },
                want == proximity_spec(*graph, chunks@),
                out@ =~= want.take(k as int),
            decreases chunks.len() - k,
        {
            out.push(None);
            k = k + 1;
        }
        assert(want.take(chunks.len() as int) =~= want);
        return out;
    }
    let builder = PathBuilder::new(graph);
    let mut config = PathBuilderConfig::default();
    config.max_length = 4;
    config.max_paths = 30;
    config.branch_factor = 5;
    assert(config == boost_config());
    let m = if seeds.len() < 3 { seeds.len() } else { 3 };
    let ghost sid = ids_at(graph.nodes@, seeds@.take(m as int));
    let mut ps: Vec<Path> = Vec::new();
    let mut j: usize = 0;
    while j < m
        invariant
            0 <= j <= m <= seeds.len(),
            builder.wf(),
            builder.graph() == *graph,
            config == boost_config(),
            forall|t: int| 0 <= t < seeds@.len() ==> #[trigger] seeds@[t] < graph.nodes@.len(),
            sid == ids_at(graph.nodes@, seeds@.take(m as int)),
            path_views(ps@) == paths_of_ids(*graph, sid.take(j as int), boost_config()),
        decreases m - j,
    {
        let b = seeds[j];
        let id = graph.nodes[b].id.clone();
        assert(sid[j as int] == id@);
        let found = builder.find_paths(&id, &config);
        append_paths(&mut ps, found);
        assert(sid.take(j + 1).drop_last() =~= sid.take(j as int));
        j = j + 1;
    }
    assert(sid.take(m as int) =~= sid);
    let pet = graph.as_petgraph();
    proof {
        lemma_pet_edges_below(*graph, graph.edges@.len() as int);
    }
    let mut out: Vec<Option<(usize, bool)>> = Vec::new();
    let mut k: usize = 0;
    while k < chunks.len()
        invariant
            0 <= k <= chunks.len(),
            graph.wf(),
            seeds@.len() > 0,
            seeds@ == seed_positions(graph.nodes@, chunks@, n as int),
            n == if chunks.len() < 5 { chunks.len() } else { 5 },
            m == if seeds@.len() < 3 { seeds@.len() } else { 3 },
            path_views(ps@) == paths_of_ids(*graph, ids_at(graph.nodes@, seeds@.take(m as int)), boost_config()),
            pg_nodes(pet) == positions(graph.nodes@.len()),
            pg_edges(pet) == pet_edges_upto(*graph, graph.edges@.len() as int),
            crate::paths::ends_below(pg_edges(pet), pg_nodes(pet).len() as int),
            want == proximity_spec(*graph, chunks@),
            out@ =~= want.take(k as int),
        decreases chunks.len() - k,
    {
        let v = match graph.find_node_for_chunk(&chunks[k]) {
            None => None,
            Some(id) => {
                proof {
                    crate::graph::lemma_best_claim_upto(graph.nodes@, chunks@[k as int], graph.nodes@.len() as int);
                    let c = best_claim_upto(graph.nodes@, chunks@[k as int], graph.nodes@.len() as int)->0;
                    crate::graph::lemma_index_of(graph.nodes@, graph.nodes@[c].id@);
                }
                match graph.position(&id) {
                    None => None,
                    Some(b) => match shortest_distance_to_seeds(&pet, b, &seeds, 4) {
                        None => None,
                        Some(d) => Some((d, on_paths_exec(&ps, &id.0))),
                    },
                }
            },
        };
        out.push(v);
        k = k + 1;
    }
    assert(want.take(chunks.len() as int) =~= want);
    out
}

} // verus!
