//! Distances in the code graph from a node to a set of seed nodes.
use vstd::prelude::*;
use crate::paths::ends_below;
use crate::pet::{edges_at, pg_edges, pg_edges_directed, pg_node_count, pg_nodes};

verus! {

/// A breadth-first search: queue of nodes with their distances, visited
/// nodes, and the answer once there is one.
pub type BfsState = (Seq<(usize, usize)>, Seq<bool>, Option<Option<usize>>);

/// Queues, after the first `n` edges, each target not yet visited, at
/// distance `d`, marking it visited.
pub open spec fn enqueue(q: Seq<(usize, usize)>, vis: Seq<bool>, out: Seq<(u8, usize, usize)>, d: usize, n: int) -> (
    Seq<(usize, usize)>,
    Seq<bool>,
)
    decreases n,
{
    if n <= 0 {
        (q, vis)
    } else {
        let p = enqueue(q, vis, out, d, n - 1);
        let t = out[n - 1].2;
        if !p.1[t as int] {
            (p.0.push((t, d)), p.1.update(t as int, true))
        } else {
            p
        }
    }
}

/// One step: take the first queued node; a seed answers with its distance;
/// otherwise, below the depth limit, queue its unvisited successors one
/// step further.
pub open spec fn bfs_step(s: BfsState, es: Seq<(usize, usize, u8)>, seeds: Seq<usize>, max_depth: usize) -> BfsState {
    let (idx, dist) = s.0[0];
    let q1 = s.0.drop_first();
    if seeds.contains(idx) {
        (q1, s.1, Some(Some(dist)))
    } else if dist >= max_depth {
        (q1, s.1, None)
    } else {
        let out = edges_at(es, idx, true, es.len() as int);
        let x = enqueue(q1, s.1, out, (dist + 1) as usize, out.len() as int);
        (x.0, x.1, None)
    }
}

/// The number of unvisited nodes.
pub open spec fn unvisited(vis: Seq<bool>) -> nat
    decreases vis.len(),
{
    if vis.len() == 0 {
        0
    } else {
        unvisited(vis.drop_last()) + if vis.last() {
            0nat
        } else {
            1nat
        }
    }
}

/// The state is well formed: queued nodes are nodes, at distances at most
/// the limit.
pub open spec fn bfs_ok(s: BfsState, cnt: int, max_depth: usize) -> bool {
    &&& s.1.len() == cnt
    &&& forall|k: int| 0 <= k < s.0.len() ==> (#[trigger] s.0[k]).0 < cnt && s.0[k].1 <= max_depth
}

pub open spec fn bfs_measure(s: BfsState) -> nat {
    2 * unvisited(s.1) + s.0.len()
}

pub proof fn lemma_unvisited_mark(vis: Seq<bool>, t: int)
    requires
        0 <= t < vis.len(),
        !vis[t],
    ensures
        unvisited(vis.update(t, true)) + 1 == unvisited(vis),
    decreases vis.len(),
{
    let u = vis.update(t, true);
    if t == vis.len() - 1 {
        assert(u.drop_last() =~= vis.drop_last());
    } else {
        lemma_unvisited_mark(vis.drop_last(), t);
        assert(u.drop_last() =~= vis.drop_last().update(t, true));
    }
}

pub proof fn lemma_enqueue(q: Seq<(usize, usize)>, vis: Seq<bool>, out: Seq<(u8, usize, usize)>, d: usize, n: int, cnt: int, max_depth: usize)
    requires
        0 <= n <= out.len(),
        vis.len() == cnt,
        forall|k: int| 0 <= k < out.len() ==> (#[trigger] out[k]).2 < cnt,
        forall|k: int| 0 <= k < q.len() ==> (#[trigger] q[k]).0 < cnt && q[k].1 <= max_depth,
        d <= max_depth,
    ensures
        enqueue(q, vis, out, d, n).1.len() == cnt,
        forall|k: int| 0 <= k < enqueue(q, vis, out, d, n).0.len() ==> (#[trigger] enqueue(q, vis, out, d, n).0[k]).0 < cnt
            && enqueue(q, vis, out, d, n).0[k].1 <= max_depth,
        2 * unvisited(enqueue(q, vis, out, d, n).1) + enqueue(q, vis, out, d, n).0.len() <= 2 * unvisited(vis) + q.len(),
    decreases n,
{
    if n > 0 {
        lemma_enqueue(q, vis, out, d, n - 1, cnt, max_depth);
        let p = enqueue(q, vis, out, d, n - 1);
        let t = out[n - 1].2;
        if !p.1[t as int] {
            lemma_unvisited_mark(p.1, t as int);
            let r = enqueue(q, vis, out, d, n);
            assert forall|k: int| 0 <= k < r.0.len() implies (#[trigger] r.0[k]).0 < cnt && r.0[k].1 <= max_depth by {
                if k < p.0.len() {
                    assert(r.0[k] == p.0[k]);
                }
            }
        }
    }
}

pub proof fn lemma_bfs_step(s: BfsState, es: Seq<(usize, usize, u8)>, seeds: Seq<usize>, max_depth: usize, cnt: int)
    requires
        bfs_ok(s, cnt, max_depth),
        ends_below(es, cnt),
        s.0.len() > 0,
    ensures
        bfs_ok(bfs_step(s, es, seeds, max_depth), cnt, max_depth),
        bfs_measure(bfs_step(s, es, seeds, max_depth)) < bfs_measure(s),
{
    let (idx, dist) = s.0[0];
    let q1 = s.0.drop_first();
    assert forall|k: int| 0 <= k < q1.len() implies (#[trigger] q1[k]).0 < cnt && q1[k].1 <= max_depth by {
        assert(q1[k] == s.0[k + 1]);
    }
    if !seeds.contains(idx) && dist < max_depth {
        let out = edges_at(es, idx, true, es.len() as int);
        crate::paths::lemma_edges_at_below(es, idx, true, es.len() as int, cnt);
        lemma_enqueue(q1, s.1, out, (dist + 1) as usize, out.len() as int, cnt, max_depth);
    }
}

/// Whether the search is over: answered or out of nodes.
pub open spec fn bfs_done(s: BfsState) -> bool {
    s.2 is Some || s.0.len() == 0
}

/// The state the search ends in.
pub open spec fn bfs_final(s: BfsState, es: Seq<(usize, usize, u8)>, seeds: Seq<usize>, max_depth: usize, cnt: int) -> BfsState
    decreases bfs_measure(s),
    when bfs_ok(s, cnt, max_depth) && ends_below(es, cnt)
{
    if bfs_done(s) {
        s
    } else {
        proof {
            lemma_bfs_step(s, es, seeds, max_depth, cnt);
        }
        bfs_final(bfs_step(s, es, seeds, max_depth), es, seeds, max_depth, cnt)
    }
}

/// The search from node `start`.
pub open spec fn bfs_init(start: usize, cnt: nat) -> BfsState {
    (seq![(start, 0usize)], Seq::new(cnt, |i: int| i == start), None)
}

/// The distance, along outgoing edges, from `start` to the nearest seed,
/// by breadth-first search up to `max_depth` steps; none when no seed is
/// that close. A start that is not a node is at distance 0 when it is a
/// seed.
pub fn shortest_distance_to_seeds(
    graph: &petgraph::Graph<u64, u8>,
    start: usize,
    seeds: &Vec<usize>,
    max_depth: usize,
) -> (r: Option<usize>)
    requires
        ends_below(pg_edges(*graph), pg_nodes(*graph).len() as int),
    ensures
        start >= pg_nodes(*graph).len() ==> r == if seeds@.contains(start) {
            Some(0usize)
        } else {
            None::<usize>
        },
        start < pg_nodes(*graph).len() ==> Some(r) == bfs_final(
            bfs_init(start, pg_nodes(*graph).len()),
            pg_edges(*graph),
            seeds@,
            max_depth,
            pg_nodes(*graph).len() as int,
        ).2 || (r is None && bfs_final(
            bfs_init(start, pg_nodes(*graph).len()),
            pg_edges(*graph),
            seeds@,
            max_depth,
            pg_nodes(*graph).len() as int,
        ).2 is None),
{
    let ghost cnt = pg_nodes(*graph).len() as int;
    let ghost es = pg_edges(*graph);
    let n = pg_node_count(graph);
    if start >= n {
        return if contains_index(seeds, start) { Some(0) } else { None };
    }
    let mut visited: Vec<bool> = Vec::new();
    let mut i: usize = 0;
    while i < n
        invariant
            0 <= i <= n,
            n == cnt,
            visited@ == Seq::new(i as nat, |k: int| k == start),
        decreases n - i,
    {
        visited.push(i == start);
        i = i + 1;
        assert(visited@ =~= Seq::new(i as nat, |k: int| k == start));
    }
    let mut queue: Vec<(usize, usize)> = Vec::new();
    queue.push((start, 0));
    let mut head: usize = 0;
    let ghost init = bfs_init(start, cnt as nat);
    let ghost target = bfs_final(init, es, seeds@, max_depth, cnt);
    assert(queue@.skip(0) =~= init.0);
    assert(visited@ =~= init.1);
    assert((queue@.skip(head as int), visited@, None::<Option<usize>>) == init);
    loop
        invariant
            head <= queue@.len(),
            start < cnt,
            init == bfs_init(start, cnt as nat),
            target == bfs_final(init, es, seeds@, max_depth, cnt),
            cnt == pg_nodes(*graph).len(),
            es == pg_edges(*graph),
            ends_below(es, cnt),
            bfs_ok((queue@.skip(head as int), visited@, None), cnt, max_depth),
            bfs_final((queue@.skip(head as int), visited@, None), es, seeds@, max_depth, cnt) == target,
        decreases bfs_measure((queue@.skip(head as int), visited@, None)),
    {
        let ghost st: BfsState = (queue@.skip(head as int), visited@, None);
        if head >= queue.len() {
            assert(bfs_done(st));
            return None;
        }
        proof {
            lemma_bfs_step(st, es, seeds@, max_depth, cnt);
        }
        let (idx, dist) = queue[head];
        head = head + 1;
        assert(st.0[0] == (idx, dist));
        assert(queue@.skip(head as int) =~= st.0.drop_first());
        if contains_index(seeds, idx) {
            assert(bfs_done(bfs_step(st, es, seeds@, max_depth)));
            assert(bfs_final(bfs_step(st, es, seeds@, max_depth), es, seeds@, max_depth, cnt) == bfs_step(st, es, seeds@, max_depth));
            assert(bfs_final(st, es, seeds@, max_depth, cnt) == bfs_step(st, es, seeds@, max_depth));
            return Some(dist);
        }
        if dist < max_depth {
            let out = pg_edges_directed(graph, idx, true);
            proof {
                crate::paths::lemma_edges_at_below(es, idx, true, es.len() as int, cnt);
            }
            let ghost q1 = queue@.skip(head as int);
            let ghost v1 = visited@;
            let mut k: usize = 0;
            while k < out.len()
                invariant
                    0 <= k <= out.len(),
                    head <= queue@.len(),
                    dist < max_depth,
                    visited@.len() == cnt,
                    forall|t: int| 0 <= t < out@.len() ==> (#[trigger] out@[t]).2 < cnt,
                    (queue@.skip(head as int), visited@) == enqueue(q1, v1, out@, (dist + 1) as usize, k as int),
                decreases out.len() - k,
            {
                let t = out[k].2;
                assert(out@[k as int].2 < cnt);
                if !visited[t] {
                    let ghost qb = queue@.skip(head as int);
                    visited.set(t, true);
                    queue.push((t, dist + 1));
                    assert(queue@.skip(head as int) =~= qb.push((t, (dist + 1) as usize)));
                }
                k = k + 1;
            }
        }
    }
}

fn contains_index(v: &Vec<usize>, x: usize) -> (r: bool)
    ensures
        r == v@.contains(x),
{
    let mut i: usize = 0;
    while i < v.len()
        invariant
            0 <= i <= v.len(),
            forall|j: int| 0 <= j < i ==> v@[j] != x,
        decreases v.len() - i,
    {
        if v[i] == x {
            assert(v@[i as int] == x);
            return true;
        }
        i = i + 1;
    }
    false
}

/// A search never answers with a distance beyond its depth limit.
pub proof fn law_distance_bound(s: BfsState, es: Seq<(usize, usize, u8)>, seeds: Seq<usize>, max_depth: usize, cnt: int)
    requires
        bfs_ok(s, cnt, max_depth),
        ends_below(es, cnt),
        s.2 matches Some(Some(d)) ==> d <= max_depth,
    ensures
        bfs_final(s, es, seeds, max_depth, cnt).2 matches Some(Some(d)) ==> d <= max_depth,
    decreases bfs_measure(s),
{
    if !bfs_done(s) {
        lemma_bfs_step(s, es, seeds, max_depth, cnt);
        assert(s.0[0].1 <= max_depth);
        law_distance_bound(bfs_step(s, es, seeds, max_depth), es, seeds, max_depth, cnt);
    }
}

} // verus!
