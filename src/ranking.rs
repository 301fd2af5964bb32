//! Ordering of search results: a stable sort by descending score, and the
//! cut to the result limit that keeps a slot free for the web search.
use vstd::prelude::*;
use crate::models::{ResultView, SearchResult};

verus! {

pub open spec fn result_views(v: Seq<SearchResult>) -> Seq<ResultView> {
    v.map_values(|r: SearchResult| r@)
}

/// Index of the first element of `s` scoring below `v` (`len` if none).
pub open spec fn first_lower(s: Seq<ResultView>, v: i64) -> nat
    decreases s.len(),
{
    if s.len() == 0 {
        0
    } else if s[0].score < v {
        0
    } else {
        1 + first_lower(s.drop_first(), v)
    }
}

/// `x` put into `s` after every element that scores at least as high.
pub open spec fn insert_ranked(s: Seq<ResultView>, x: ResultView) -> Seq<ResultView> {
    let p = first_lower(s, x.score) as int;
    s.take(p) + seq![x] + s.skip(p)
}

/// `s` sorted by descending score, equal scores in their order in `s`.
pub open spec fn rank(s: Seq<ResultView>) -> Seq<ResultView>
    decreases s.len(),
{
    if s.len() == 0 {
        Seq::empty()
    } else {
        insert_ranked(rank(s.drop_last()), s.last())
    }
}

pub open spec fn descending(s: Seq<ResultView>) -> bool {
    forall|i: int, j: int| 0 <= i < j < s.len() ==> (#[trigger] s[i]).score >= (#[trigger] s[j]).score
}

/// How many ranked results are shown under `limit`: all that fit, but one
/// fewer once the limit is reached, so the web search keeps its slot.
pub open spec fn shown_count(len: nat, limit: nat) -> nat {
    if limit > 1 && len >= limit {
        (limit - 1) as nat
    } else if len <= limit {
        len
    } else {
        limit
    }
}

proof fn lemma_first_lower_at(s: Seq<ResultView>, v: i64, p: int)
    requires
        0 <= p <= s.len(),
        forall|k: int| 0 <= k < p ==> (#[trigger] s[k]).score >= v,
        p < s.len() ==> s[p].score < v,
    ensures
        first_lower(s, v) == p,
    decreases p,
{
    if p > 0 {
        assert forall|k: int| 0 <= k < p - 1 implies (#[trigger] s.drop_first()[k]).score >= v by {
            assert(s.drop_first()[k] == s[k + 1]);
        }
        if p < s.len() {
            assert(s.drop_first()[p - 1] == s[p]);
        }
        lemma_first_lower_at(s.drop_first(), v, p - 1);
    }
}

proof fn lemma_first_lower_bound(s: Seq<ResultView>, v: i64)
    ensures
        first_lower(s, v) <= s.len(),
        forall|k: int| 0 <= k < first_lower(s, v) ==> (#[trigger] s[k]).score >= v,
        first_lower(s, v) < s.len() ==> s[first_lower(s, v) as int].score < v,
    decreases s.len(),
{
    if s.len() > 0 && s[0].score >= v {
        lemma_first_lower_bound(s.drop_first(), v);
        assert forall|k: int| 0 <= k < first_lower(s, v) implies (#[trigger] s[k]).score >= v by {
            if k > 0 {
                assert(s[k] == s.drop_first()[k - 1]);
            }
        }
    }
}

/// Ranking yields descending scores.
pub proof fn lemma_rank_descending(s: Seq<ResultView>)
    ensures
        descending(rank(s)),
        rank(s).len() == s.len(),
    decreases s.len(),
{
    if s.len() > 0 {
        let r0 = rank(s.drop_last());
        lemma_rank_descending(s.drop_last());
        let x = s.last();
        let p = first_lower(r0, x.score) as int;
        lemma_first_lower_bound(r0, x.score);
        let r = insert_ranked(r0, x);
        assert forall|i: int, j: int| 0 <= i < j < r.len() implies (#[trigger] r[i]).score >= (
        #[trigger] r[j]).score by {
            let i0 = if i < p { i } else { i - 1 };
            let j0 = if j < p { j } else { j - 1 };
            if i == p {
                assert(r[j] == r0[j0]);
                assert(r0[p].score < x.score);
                if j0 > p {
                    assert(r0[p].score >= r0[j0].score);
                }
            } else if j == p {
                assert(r[i] == r0[i0]);
            } else {
                assert(r[i] == r0[i0]);
                assert(r[j] == r0[j0]);
            }
        }
    }
}

/// Ranking keeps exactly the rows it is given, as many of them.
pub proof fn lemma_rank_members(s: Seq<ResultView>)
    ensures
        rank(s).len() == s.len(),
        forall|x: ResultView| rank(s).contains(x) <==> s.contains(x),
    decreases s.len(),
{
    if s.len() > 0 {
        let d = rank(s.drop_last());
        lemma_rank_members(s.drop_last());
        lemma_rank_descending(s.drop_last());
        lemma_first_lower_bound(d, s.last().score);
        let p = first_lower(d, s.last().score) as int;
        let r = d.take(p) + seq![s.last()] + d.skip(p);
        assert forall|x: ResultView| r.contains(x) <==> s.contains(x) by {
            if r.contains(x) {
                let i = choose|i: int| 0 <= i < r.len() && r[i] == x;
                if i == p {
                    assert(s[s.len() - 1] == x);
                } else {
                    let i0 = if i < p { i } else { i - 1 };
                    assert(d[i0] == x);
                    assert(d.contains(x));
                    assert(s.drop_last().contains(x));
                    let m = choose|m: int| 0 <= m < s.drop_last().len() && s.drop_last()[m] == x;
                    assert(s[m] == x);
                }
            }
            if s.contains(x) {
                let i = choose|i: int| 0 <= i < s.len() && s[i] == x;
                if i == s.len() - 1 {
                    assert(r[p] == x);
                } else {
                    assert(s.drop_last()[i] == x);
                    assert(s.drop_last().contains(x));
                    assert(d.contains(x));
                    let m = choose|m: int| 0 <= m < d.len() && d[m] == x;
                    if m < p {
                        assert(r[m] == x);
                    } else {
                        assert(r[m + 1] == x);
                    }
                }
            }
        }
    }
}

/// Sorts `items` by descending score; equal scores keep their order.
pub fn rank_results(items: Vec<SearchResult>) -> (r: Vec<SearchResult>)
    ensures
        result_views(r@) == rank(result_views(items@)),
{
    let mut out: Vec<SearchResult> = Vec::new();
    let mut items = items;
    let ghost all = result_views(items@);
    let mut k: usize = 0;
    let n = items.len();
    while items.len() > 0
        invariant
            items@.len() + k == n,
            n == all.len(),
            forall|i: int| 0 <= i < items@.len() ==> (#[trigger] items@[i])@ == all[k + i],
            result_views(out@) == rank(all.take(k as int)),
        decreases items@.len(),
    {
        let x = items.remove(0);
        proof {
            assert(x@ == all[k as int]);
        }
        let mut p: usize = 0;
        while p < out.len() && out[p].score >= x.score
            invariant
                p <= out@.len(),
                forall|m: int| 0 <= m < p ==> (#[trigger] out@[m]).score >= x.score,
            decreases out@.len() - p,
        {
            p = p + 1;
        }
        let ghost before = result_views(out@);
        proof {
            assert forall|m: int| 0 <= m < p implies (#[trigger] before[m]).score >= x.score by {
                assert(before[m] == out@[m]@);
            }
            if p < out@.len() {
                assert(before[p as int] == out@[p as int]@);
            }
            lemma_first_lower_at(before, x@.score, p as int);
        }
        out.insert(p, x);
        proof {
            assert(all.take(k + 1).drop_last() =~= all.take(k as int));
            assert(all.take(k + 1).last() == x@);
            assert(result_views(out@) =~= insert_ranked(before, x@));
        }
        k = k + 1;
    }
    assert(all.take(n as int) =~= all);
    out
}

/// Keeps the first `shown_count(len, limit)` results.
pub fn cut_to_limit(items: &mut Vec<SearchResult>, limit: usize)
    ensures
        final(items)@ == old(items)@.take(shown_count(old(items)@.len(), limit as nat) as int),
{
    if limit > 1 && items.len() >= limit {
        items.truncate(limit - 1);
    } else {
        items.truncate(limit);
    }
}

} // verus!

verus! {

/// How many rows of `s` score above `v`.
pub open spec fn count_above(s: Seq<ResultView>, v: i64) -> nat
    decreases s.len(),
{
    if s.len() == 0 {
        0
    } else {
        count_above(s.drop_last(), v) + if s.last().score > v {
            1nat
        } else {
            0nat
        }
    }
}

/// After ranking, the first row stands right after the rows that score
/// above it.
pub proof fn lemma_rank_first_position(s: Seq<ResultView>)
    requires
        s.len() > 0,
    ensures
        count_above(s, s[0].score) < s.len(),
        rank(s)[count_above(s, s[0].score) as int] == s[0],
    decreases s.len(),
{
    let v = s[0].score;
    if s.len() == 1 {
        assert(s.drop_last() =~= Seq::<ResultView>::empty());
        assert(rank(s.drop_last()) =~= Seq::<ResultView>::empty());
        assert(first_lower(Seq::<ResultView>::empty(), s.last().score) == 0);
        assert(count_above(s.drop_last(), v) == 0);
        assert(count_above(s, v) == 0);
        assert(rank(s) =~= seq![s.last()]);
    } else {
        let d = s.drop_last();
        assert(d[0] == s[0]);
        lemma_rank_first_position(d);
        lemma_rank_descending(d);
        let r0 = rank(d);
        let idx = count_above(d, v) as int;
        let x = s.last();
        lemma_first_lower_bound(r0, x.score);
        let p = first_lower(r0, x.score) as int;
        let r = insert_ranked(r0, x);
        assert(r == rank(s));
        assert(count_above(s, v) == count_above(d, v) + if x.score > v {
            1nat
        } else {
            0nat
        });
        assert(r.len() == r0.len() + 1);
        if x.score > v {
            if p > idx {
                assert(r0[idx].score >= x.score);
            }
            assert(r[idx + 1] == r0[idx]);
        } else {
            if p <= idx {
                if p < idx {
                    assert(r0[p].score >= r0[idx].score);
                }
                assert(r0[p].score < x.score);
            }
            assert(r[idx] == r0[idx]);
        }
    }
}

} // verus!

verus! {

/// The rows of `s` that score exactly `v`, in order.
pub open spec fn with_score(s: Seq<ResultView>, v: i64) -> Seq<ResultView> {
    s.filter(|x: ResultView| x.score == v)
}

pub proof fn lemma_with_score_concat(a: Seq<ResultView>, b: Seq<ResultView>, v: i64)
    ensures
        with_score(a + b, v) == with_score(a, v) + with_score(b, v),
{
    Seq::filter_distributes_over_add(a, b, |x: ResultView| x.score == v);
}

proof fn lemma_with_score_none(s: Seq<ResultView>, v: i64)
    requires
        forall|i: int| 0 <= i < s.len() ==> (#[trigger] s[i]).score < v,
    ensures
        with_score(s, v) == Seq::<ResultView>::empty(),
    decreases s.len(),
{
    reveal_with_fuel(Seq::filter, 1);
    if s.len() > 0 {
        assert forall|i: int| 0 <= i < s.drop_last().len() implies (#[trigger] s.drop_last()[i]).score < v by {
            assert(s.drop_last()[i] == s[i]);
        }
        lemma_with_score_none(s.drop_last(), v);
        assert(s[s.len() - 1].score < v);
    }
}

/// Ranking is stable: the rows of any one score come out in the order they
/// went in.
pub proof fn lemma_rank_stable(s: Seq<ResultView>, v: i64)
    ensures
        with_score(rank(s), v) == with_score(s, v),
    decreases s.len(),
{
    reveal_with_fuel(Seq::filter, 1);
    if s.len() > 0 {
        let d = s.drop_last();
        let x = s.last();
        lemma_rank_stable(d, v);
        lemma_rank_descending(d);
        let r0 = rank(d);
        lemma_first_lower_bound(r0, x.score);
        let p = first_lower(r0, x.score) as int;
        let a = r0.take(p);
        let b = r0.skip(p);
        assert(r0 =~= a + b);
        lemma_with_score_concat(a, b, v);
        lemma_with_score_concat(a + seq![x], b, v);
        lemma_with_score_concat(a, seq![x], v);
        assert(seq![x].drop_last() =~= Seq::<ResultView>::empty());
        assert(rank(s) =~= a + seq![x] + b);
        if x.score == v {
            assert forall|i: int| 0 <= i < b.len() implies (#[trigger] b[i]).score < v by {
                assert(b[i] == r0[p + i]);
                assert(r0[p].score < x.score);
                if i > 0 {
                    assert(r0[p].score >= r0[p + i].score);
                }
            }
            lemma_with_score_none(b, v);
            assert(with_score(seq![x], v) =~= seq![x]);
            assert(with_score(s, v) == with_score(d, v).push(x));
            assert(with_score(rank(s), v) =~= with_score(s, v));
        } else {
            assert(with_score(seq![x], v) =~= Seq::<ResultView>::empty()) by {
                reveal_with_fuel(Seq::filter, 2);
            }
            assert(with_score(s, v) == with_score(d, v));
            assert(with_score(rank(s), v) =~= with_score(s, v));
        }
    }
}

} // verus!
