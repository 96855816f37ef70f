//! The `prefer_local` ordering: local results first, then by score, highest
//! first; results that tie keep the order in which SearXNG gave them.

use vstd::prelude::*;
use crate::hits::{HitModel, SearchHit, hit_models};

verus! {

/// The rank of a result: local results above all others, then the score.
pub open spec fn preference(h: HitModel) -> int {
    (if h.is_local { 0x1_0000_0000_0000_0000int } else { 0int }) + h.score_rank as int
}

/// `h` placed after the last result of `sorted` that ranks at least as high.
pub open spec fn insert_ranked(sorted: Seq<HitModel>, h: HitModel) -> Seq<HitModel>
    decreases sorted.len(),
{
    if sorted.len() == 0 {
        seq![h]
    } else if preference(sorted.last()) >= preference(h) {
        sorted.push(h)
    } else {
        insert_ranked(sorted.drop_last(), h).push(sorted.last())
    }
}

/// The results in the `prefer_local` order (a stable sort by rank, highest first).
pub open spec fn ranked(s: Seq<HitModel>) -> Seq<HitModel>
    decreases s.len(),
{
    if s.len() == 0 {
        s
    } else {
        insert_ranked(ranked(s.drop_last()), s.last())
    }
}

/// Whether `a` ranks at least as high as `b`.
fn ranks_at_least(a: &SearchHit, b: &SearchHit) -> (r: bool)
    ensures
        r == (preference(a@) >= preference(b@)),
{
    if a.is_local != b.is_local {
        a.is_local
    } else {
        a.score_rank >= b.score_rank
    }
}

proof fn lemma_insert_ranked_at(sorted: Seq<HitModel>, h: HitModel, j: int)
    requires
        0 <= j <= sorted.len(),
        forall|k: int| j <= k < sorted.len() ==> preference(#[trigger] sorted[k]) < preference(h),
        j == 0 || preference(sorted[j - 1]) >= preference(h),
    ensures
        insert_ranked(sorted, h) == sorted.insert(j, h),
    decreases sorted.len(),
{
    if sorted.len() == 0 {
        assert(sorted.insert(j, h) =~= seq![h]);
    } else if preference(sorted.last()) >= preference(h) {
        assert(j == sorted.len());
        assert(sorted.insert(j, h) =~= sorted.push(h));
    } else {
        let rest = sorted.drop_last();
        lemma_insert_ranked_at(rest, h, j);
        assert(rest.insert(j, h).push(sorted.last()) =~= sorted.insert(j, h));
    }
}

/// Orders the results as `prefer_local` asks: a stable sort, local results
/// first, then by score from highest to lowest.
pub fn rank_results(hits: Vec<SearchHit>) -> (r: Vec<SearchHit>)
    ensures
        hit_models(r@) == ranked(hit_models(hits@)),
{
    let ghost all = hit_models(hits@);
    let mut rest = hits;
    let mut sorted: Vec<SearchHit> = Vec::new();
    let n: usize = rest.len();
    let mut i: usize = 0;
    proof {
        assert(all.take(0) =~= Seq::<HitModel>::empty());
        assert(hit_models(sorted@) =~= Seq::<HitModel>::empty());
        assert(hit_models(rest@.skip(0)) =~= all.skip(0));
    }
    while i < n
        invariant
            n == all.len(),
            i <= n,
            rest@.len() == n - i,
            hit_models(rest@) == all.skip(i as int),
            hit_models(sorted@) == ranked(all.take(i as int)),
        decreases n - i,
    {
        let ghost before = rest@;
        let h = rest.remove(0);
        proof {
            assert(hit_models(rest@) =~= all.skip(i + 1)) by {
                assert(rest@ =~= before.skip(1));
                assert forall|k: int| 0 <= k < rest@.len() implies #[trigger] hit_models(rest@)[k] == all.skip(i + 1)[k] by {
                    assert(hit_models(before)[k + 1] == all.skip(i as int)[k + 1]);
                }
            }
            assert(h@ == hit_models(before)[0]);
            assert(h@ == all[i as int]);
        }
        let ghost models_before = hit_models(sorted@);
        let mut j: usize = sorted.len();
        while j > 0 && !ranks_at_least(&sorted[j - 1], &h)
            invariant
                j <= sorted@.len(),
                models_before == hit_models(sorted@),
                forall|k: int| j <= k < sorted@.len() ==> preference(#[trigger] sorted@[k]@) < preference(h@),
            decreases j,
        {
            j = j - 1;
        }
        proof {
            assert forall|k: int| j <= k < models_before.len() implies preference(#[trigger] models_before[k]) < preference(h@) by {
                assert(models_before[k] == sorted@[k]@);
            }
            if j > 0 {
                assert(models_before[j - 1] == sorted@[j - 1]@);
            }
            lemma_insert_ranked_at(models_before, h@, j as int);
            assert(all.take(i + 1).drop_last() =~= all.take(i as int));
            assert(all.take(i + 1).last() == h@);
        }
        let ghost hv = h@;
        sorted.insert(j, h);
        proof {
            assert(hit_models(sorted@) =~= models_before.insert(j as int, hv));
        }
        i = i + 1;
    }
    proof {
        assert(all.take(n as int) =~= all);
    }
    sorted
}

} // verus!

verus! {

/// No result ranks above one that comes before it.
pub open spec fn in_rank_order(s: Seq<HitModel>) -> bool {
    forall|i: int, j: int| 0 <= i < j < s.len() ==> preference(#[trigger] s[i]) >= preference(#[trigger] s[j])
}

/// The results of one rank.
pub open spec fn of_rank(p: int) -> spec_fn(HitModel) -> bool {
    |h: HitModel| preference(h) == p
}

proof fn lemma_insert_ranked_bounds(sorted: Seq<HitModel>, h: HitModel, m: int)
    requires
        forall|k: int| 0 <= k < sorted.len() ==> preference(#[trigger] sorted[k]) >= m,
        preference(h) >= m,
    ensures
        insert_ranked(sorted, h).len() == sorted.len() + 1,
        forall|k: int| 0 <= k < sorted.len() + 1 ==> preference(#[trigger] insert_ranked(sorted, h)[k]) >= m,
    decreases sorted.len(),
{
    if sorted.len() > 0 && preference(sorted.last()) < preference(h) {
        let rest = sorted.drop_last();
        lemma_insert_ranked_bounds(rest, h, m);
    }
}

proof fn lemma_insert_ranked_order(sorted: Seq<HitModel>, h: HitModel)
    requires
        in_rank_order(sorted),
    ensures
        in_rank_order(insert_ranked(sorted, h)),
        insert_ranked(sorted, h).to_multiset() == sorted.to_multiset().insert(h),
        forall|p: int| #[trigger] insert_ranked(sorted, h).filter(of_rank(p)) == if preference(h) == p {
            sorted.filter(of_rank(p)).push(h)
        } else {
            sorted.filter(of_rank(p))
        },
    decreases sorted.len(),
{
    broadcast use vstd::seq_lib::to_multiset_build;
    if sorted.len() == 0 {
        assert(insert_ranked(sorted, h) =~= sorted.push(h));
        assert forall|p: int| #[trigger] insert_ranked(sorted, h).filter(of_rank(p)) == if preference(h) == p {
            sorted.filter(of_rank(p)).push(h)
        } else {
            sorted.filter(of_rank(p))
        } by {
            sorted.lemma_filter_push(h, of_rank(p));
        }
    } else if preference(sorted.last()) >= preference(h) {
        let r = sorted.push(h);
        assert forall|i: int, j: int| 0 <= i < j < r.len() implies preference(#[trigger] r[i]) >= preference(#[trigger] r[j]) by {
            if j == sorted.len() {
                if i < sorted.len() - 1 {
                    assert(preference(sorted[i]) >= preference(sorted[sorted.len() - 1]));
                }
            }
        }
        assert forall|p: int| #[trigger] insert_ranked(sorted, h).filter(of_rank(p)) == if preference(h) == p {
            sorted.filter(of_rank(p)).push(h)
        } else {
            sorted.filter(of_rank(p))
        } by {
            sorted.lemma_filter_push(h, of_rank(p));
        }
    } else {
        let rest = sorted.drop_last();
        let last = sorted.last();
        assert(in_rank_order(rest));
        lemma_insert_ranked_order(rest, h);
        let inner = insert_ranked(rest, h);
        assert forall|k: int| 0 <= k < rest.len() implies preference(#[trigger] rest[k]) >= preference(last) by {
            assert(preference(sorted[k]) >= preference(sorted[sorted.len() - 1]));
        }
        lemma_insert_ranked_bounds(rest, h, preference(last));
        let r = inner.push(last);
        assert forall|i: int, j: int| 0 <= i < j < r.len() implies preference(#[trigger] r[i]) >= preference(#[trigger] r[j]) by {
            if j == inner.len() {
                assert(preference(inner[i]) >= preference(last));
            }
        }
        assert(sorted =~= rest.push(last));
        assert forall|p: int| #[trigger] insert_ranked(sorted, h).filter(of_rank(p)) == if preference(h) == p {
            sorted.filter(of_rank(p)).push(h)
        } else {
            sorted.filter(of_rank(p))
        } by {
            inner.lemma_filter_push(last, of_rank(p));
            rest.lemma_filter_push(last, of_rank(p));
            if preference(h) == p {
                assert(!(of_rank(p))(last));
                rest.filter(of_rank(p)).lemma_filter_push(h, of_rank(p));
            }
        }
    }
}

proof fn lemma_ranked(s: Seq<HitModel>)
    ensures
        in_rank_order(ranked(s)),
        ranked(s).to_multiset() == s.to_multiset(),
        forall|p: int| #[trigger] ranked(s).filter(of_rank(p)) == s.filter(of_rank(p)),
    decreases s.len(),
{
    broadcast use vstd::seq_lib::to_multiset_build;
    if s.len() == 0 {
        assert forall|p: int| #[trigger] ranked(s).filter(of_rank(p)) == s.filter(of_rank(p)) by {
            reveal(Seq::filter);
        }
    } else {
        let rest = s.drop_last();
        lemma_ranked(rest);
        lemma_insert_ranked_order(ranked(rest), s.last());
        assert(s =~= rest.push(s.last()));
        assert forall|p: int| #[trigger] ranked(s).filter(of_rank(p)) == s.filter(of_rank(p)) by {
            rest.lemma_filter_push(s.last(), of_rank(p));
        }
    }
}

/// Ranking only reorders: it keeps every result, as often as it occurs.
pub proof fn law_ranking_keeps_results(s: Seq<HitModel>)
    ensures
        ranked(s).to_multiset() == s.to_multiset(),
        ranked(s).len() == s.len(),
{
    lemma_ranked(s);
    vstd::seq_lib::to_multiset_len(s);
    vstd::seq_lib::to_multiset_len(ranked(s));
}

/// After ranking, local results come before all others, and within each
/// group no result scores higher than one before it.
pub proof fn law_ranking_puts_local_first(s: Seq<HitModel>)
    ensures
        forall|i: int, j: int| 0 <= i < j < ranked(s).len() && (#[trigger] ranked(s)[j]).is_local
            ==> (#[trigger] ranked(s)[i]).is_local,
        forall|i: int, j: int| 0 <= i < j < ranked(s).len()
            && (#[trigger] ranked(s)[i]).is_local == (#[trigger] ranked(s)[j]).is_local
            ==> ranked(s)[i].score_rank >= ranked(s)[j].score_rank,
{
    lemma_ranked(s);
    let r = ranked(s);
    assert forall|i: int, j: int| 0 <= i < j < r.len() && (#[trigger] r[j]).is_local implies (#[trigger] r[i]).is_local by {
        assert(preference(r[i]) >= preference(r[j]));
    }
    assert forall|i: int, j: int| 0 <= i < j < r.len() && (#[trigger] r[i]).is_local == (#[trigger] r[j]).is_local
        implies r[i].score_rank >= r[j].score_rank by {
        assert(preference(r[i]) >= preference(r[j]));
    }
}

/// Ranking is stable: results of equal rank keep their original order.
pub proof fn law_ranking_is_stable(s: Seq<HitModel>, p: int)
    ensures
        ranked(s).filter(of_rank(p)) == s.filter(of_rank(p)),
{
    lemma_ranked(s);
}

} // verus!
