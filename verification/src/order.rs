//! Sequences of places kept in a strict order, why such a sequence is
//! fixed by the places it holds, and ranking by score.
use vstd::prelude::*;

verus! {

/// Every earlier place of `o` comes before every later one.
pub open spec fn sorted_by(before: spec_fn(int, int) -> bool, o: Seq<int>) -> bool {
    forall|a: int, b: int| 0 <= a < b < o.len() ==> before(#[trigger] o[a], #[trigger] o[b])
}

/// `before` never holds both ways.
pub open spec fn asymmetric(before: spec_fn(int, int) -> bool) -> bool {
    forall|x: int, y: int| #[trigger] before(x, y) ==> !before(y, x)
}

/// Two sequences sorted by the same asymmetric relation that hold the same
/// places are the same sequence.
pub proof fn lemma_sorted_unique(before: spec_fn(int, int) -> bool, o1: Seq<int>, o2: Seq<int>)
    requires
        asymmetric(before),
        sorted_by(before, o1),
        sorted_by(before, o2),
        forall|x: int| o1.contains(x) <==> o2.contains(x),
    ensures
        o1 == o2,
    decreases o1.len(),
{
    if o1.len() == 0 {
        if o2.len() > 0 {
            assert(o2.contains(o2[0]));
        }
        assert(o1 =~= o2);
    } else {
        assert(o1.contains(o1[0]));
        let j = choose|j: int| 0 <= j < o2.len() && o2[j] == o1[0];
        assert(o2.contains(o2[0]));
        let k = choose|k: int| 0 <= k < o1.len() && o1[k] == o2[0];
        if j > 0 && k > 0 {
            assert(before(o2[0], o2[j]));
            assert(before(o1[0], o1[k]));
            assert(false);
        }
        assert(o1[0] == o2[0]);
        let r1 = o1.drop_first();
        let r2 = o2.drop_first();
        assert forall|x: int| r1.contains(x) <==> r2.contains(x) by {
            if r1.contains(x) {
                let a = choose|a: int| 0 <= a < r1.len() && r1[a] == x;
                assert(o1[a + 1] == x);
                assert(before(o1[0], o1[a + 1]));
                assert(o1.contains(x));
                let b = choose|b: int| 0 <= b < o2.len() && o2[b] == x;
                assert(b != 0);
                assert(r2[b - 1] == x);
            }
            if r2.contains(x) {
                let a = choose|a: int| 0 <= a < r2.len() && r2[a] == x;
                assert(o2[a + 1] == x);
                assert(before(o2[0], o2[a + 1]));
                assert(o2.contains(x));
                let b = choose|b: int| 0 <= b < o1.len() && o1[b] == x;
                assert(b != 0);
                assert(r1[b - 1] == x);
            }
        }
        assert forall|a: int, b: int| 0 <= a < b < r1.len() implies before(#[trigger] r1[a], #[trigger] r1[b]) by {
            assert(r1[a] == o1[a + 1] && r1[b] == o1[b + 1]);
        }
        assert forall|a: int, b: int| 0 <= a < b < r2.len() implies before(#[trigger] r2[a], #[trigger] r2[b]) by {
            assert(r2[a] == o2[a + 1] && r2[b] == o2[b + 1]);
        }
        lemma_sorted_unique(before, r1, r2);
        assert(o1 =~= seq![o1[0]] + r1);
        assert(o2 =~= seq![o2[0]] + r2);
    }
}

/// Whether item `i` ranks before item `j`: a higher score, or the same
/// score and an earlier place.
pub open spec fn ranks_before(scores: Seq<Option<int>>, i: int, j: int) -> bool {
    let a = scores[i]->0;
    let b = scores[j]->0;
    a > b || (a == b && i < j)
}

/// `o` lists every scored item once, best first, ties in their order.
pub open spec fn is_ranking(scores: Seq<Option<int>>, o: Seq<int>) -> bool {
    &&& forall|k: int| 0 <= k < o.len() ==> 0 <= #[trigger] o[k] < scores.len() && scores[o[k]] is Some
    &&& forall|i: int| 0 <= i < scores.len() && #[trigger] scores[i] is Some ==> o.contains(i)
    &&& forall|a: int, b: int| 0 <= a < b < o.len() ==> ranks_before(scores, #[trigger] o[a], #[trigger] o[b])
}

/// The ranking of the scored items.
pub open spec fn ranking(scores: Seq<Option<int>>) -> Seq<int> {
    choose|o: Seq<int>| is_ranking(scores, o)
}

/// Two rankings of the same scores are the same sequence.
pub proof fn lemma_ranking_unique(scores: Seq<Option<int>>, o1: Seq<int>, o2: Seq<int>)
    requires
        is_ranking(scores, o1),
        is_ranking(scores, o2),
    ensures
        o1 == o2,
{
    let before = |i: int, j: int| ranks_before(scores, i, j);
    assert(sorted_by(before, o1));
    assert(sorted_by(before, o2));
    assert forall|x: int| o1.contains(x) <==> o2.contains(x) by {
        if o1.contains(x) {
            let k = choose|k: int| 0 <= k < o1.len() && o1[k] == x;
            assert(0 <= o1[k] < scores.len() && scores[o1[k]] is Some);
        }
        if o2.contains(x) {
            let k = choose|k: int| 0 <= k < o2.len() && o2[k] == x;
            assert(0 <= o2[k] < scores.len() && scores[o2[k]] is Some);
        }
    }
    lemma_sorted_unique(before, o1, o2);
}

pub open spec fn score_views(v: Seq<Option<u128>>) -> Seq<Option<int>> {
    v.map_values(|o: Option<u128>| match o {
        Some(x) => Some(x as int),
        None => None,
    })
}

pub open spec fn index_views(v: Seq<usize>) -> Seq<int> {
    v.map_values(|x: usize| x as int)
}

fn scores_at_least(v: Option<u128>, s: u128) -> (b: bool)
    ensures
        b == match v {
            Some(t) => t >= s,
            None => true,
        },
{
    match v {
        Some(t) => t >= s,
        None => true,
    }
}

/// Ranks scored items, best score first and ties in their order, by
/// inserting each after the items that score at least as much.
pub fn rank_scores(scores: &Vec<Option<u128>>) -> (o: Vec<usize>)
    ensures
        is_ranking(score_views(scores@), index_views(o@)),
{
    let ghost sv = score_views(scores@);
    let mut o: Vec<usize> = Vec::new();
    let mut i: usize = 0;
    while i < scores.len()
        invariant
            0 <= i <= scores.len(),
            sv == score_views(scores@),
            sv.len() == scores.len(),
            forall|k: int| 0 <= k < o.len() ==> 0 <= #[trigger] o[k] < i && sv[o[k] as int] is Some,
            forall|j: int| 0 <= j < i && #[trigger] sv[j] is Some ==> index_views(o@).contains(j),
            forall|a: int, b: int| 0 <= a < b < o.len() ==> ranks_before(sv, #[trigger] o[a] as int, #[trigger] o[b] as int),
        decreases scores.len() - i,
    {
        match scores[i] {
            None => {
                assert(sv[i as int] is None);
                assert forall|j: int| 0 <= j < i + 1 && #[trigger] sv[j] is Some implies index_views(o@).contains(j) by {
                    assert(j != i);
                }
            },
            Some(s) => {
                assert(sv[i as int] == Some(s as int));
                let mut p: usize = 0;
                while p < o.len() && scores_at_least(scores[o[p]], s)
                    invariant
                        0 <= p <= o.len(),
                        sv == score_views(scores@),
                        sv.len() == scores.len(),
                        i < scores.len(),
                        forall|k: int| 0 <= k < o.len() ==> 0 <= #[trigger] o[k] < i && sv[o[k] as int] is Some,
                        forall|k: int| 0 <= k < p ==> sv[#[trigger] o[k] as int]->0 >= s,
                    decreases o.len() - p,
                {
                    assert(sv[o[p as int] as int] is Some);
                    p = p + 1;
                }
                if p < o.len() {
                    assert(sv[o[p as int] as int]->0 < s);
                }
                let ghost old_o = o@;
                o.insert(p, i);
                assert(o@ =~= old_o.take(p as int).push(i).add(old_o.skip(p as int)));
                assert forall|k: int| 0 <= k < o.len() implies 0 <= #[trigger] o[k] < i + 1 && sv[o[k] as int] is Some by {
                    if k < p {
                        assert(o[k] == old_o[k]);
                    } else if k > p {
                        assert(o[k] == old_o[k - 1]);
                    }
                }
                assert forall|a: int, b: int| 0 <= a < b < o.len() implies ranks_before(sv, #[trigger] o[a] as int, #[trigger] o[b] as int) by {
                    if b < p {
                        assert(o[a] == old_o[a] && o[b] == old_o[b]);
                    } else if b == p {
                        assert(o[a] == old_o[a]);
                    } else if a == p {
                        assert(o[b] == old_o[b - 1]);
                        if b - 1 > p {
                            assert(ranks_before(sv, old_o[p as int] as int, old_o[b - 1] as int));
                        }
                    } else if a < p {
                        assert(o[a] == old_o[a] && o[b] == old_o[b - 1]);
                    } else {
                        assert(o[a] == old_o[a - 1] && o[b] == old_o[b - 1]);
                    }
                }
                assert forall|j: int| 0 <= j < i + 1 && #[trigger] sv[j] is Some implies index_views(o@).contains(j) by {
                    if j == i {
                        assert(index_views(o@)[p as int] == j);
                    } else {
                        assert(index_views(old_o).contains(j));
                        let t = choose|t: int| 0 <= t < old_o.len() && index_views(old_o)[t] == j;
                        if t < p {
                            assert(index_views(o@)[t] == j);
                        } else {
                            assert(index_views(o@)[t + 1] == j);
                        }
                    }
                }
            },
        }
        i = i + 1;
    }
    proof {
        let ov = index_views(o@);
        assert forall|k: int| 0 <= k < ov.len() implies 0 <= #[trigger] ov[k] < sv.len() && sv[ov[k]] is Some by {
            assert(ov[k] == o[k] as int);
        }
        assert forall|a: int, b: int| 0 <= a < b < ov.len() implies ranks_before(sv, #[trigger] ov[a], #[trigger] ov[b]) by {
            assert(ov[a] == o[a] as int && ov[b] == o[b] as int);
        }
    }
    o
}

} // verus!
