//! A stable sort of candles by opening timestamp, and the "newest `n`"
//! window that history queries apply after it.
use vstd::prelude::*;

use crate::market_data::{Candle, CandleModel};
use crate::series::models;

verus! {

/// The candles opening at `t`.
pub open spec fn at_time(t: i64) -> spec_fn(CandleModel) -> bool {
    |c: CandleModel| c.timestamp == t
}

/// Opening timestamps never decrease along the sequence.
pub open spec fn time_ordered(s: Seq<CandleModel>) -> bool {
    forall|i: int, j: int| 0 <= i < j < s.len() ==> s[i].timestamp <= s[j].timestamp
}

/// `sorted` is the stable sort of `input` by opening timestamp: it is ordered
/// by time, and the candles of every timestamp keep their relative order.
pub open spec fn is_time_sort_of(sorted: Seq<CandleModel>, input: Seq<CandleModel>) -> bool {
    &&& time_ordered(sorted)
    &&& forall|t: i64| #[trigger] sorted.filter(at_time(t)) == input.filter(at_time(t))
}

/// The stable sort of `input` by opening timestamp.
pub open spec fn time_sorted(input: Seq<CandleModel>) -> Seq<CandleModel> {
    choose|sorted: Seq<CandleModel>| is_time_sort_of(sorted, input)
}

/// The newest `limit` entries of a time-ordered sequence, or all of it.
pub open spec fn keep_latest(s: Seq<CandleModel>, limit: Option<u32>) -> Seq<CandleModel> {
    match limit {
        Some(n) => if s.len() > n {
            s.subrange(s.len() - n, s.len() as int)
        } else {
            s
        },
        None => s,
    }
}

proof fn lemma_filter_none<A>(s: Seq<A>, pred: spec_fn(A) -> bool)
    requires
        forall|i: int| 0 <= i < s.len() ==> !pred(s[i]),
    ensures
        s.filter(pred) == Seq::<A>::empty(),
{
    broadcast use vstd::seq_lib::group_filter_ensures;

    if s.filter(pred).len() > 0 {
        let x = s.filter(pred)[0];
        assert(pred(x));
        assert(s.filter(pred).contains(x));
        s.lemma_filter_contains_rev(pred, x);
    }
    assert(s.filter(pred) =~= Seq::<A>::empty());
}

proof fn lemma_insert_keeps_sort(out: Seq<CandleModel>, input: Seq<CandleModel>, p: int, c: CandleModel)
    requires
        is_time_sort_of(out, input),
        0 <= p <= out.len(),
        forall|j: int| 0 <= j < p ==> out[j].timestamp <= c.timestamp,
        forall|j: int| p <= j < out.len() ==> out[j].timestamp > c.timestamp,
    ensures
        is_time_sort_of(out.insert(p, c), input.push(c)),
{
    let n = out.insert(p, c);
    assert(time_ordered(n)) by {
        assert forall|i: int, j: int| 0 <= i < j < n.len() implies n[i].timestamp
            <= n[j].timestamp by {
            if j < p {
            } else if j == p {
            } else if i < p {
            } else if i == p {
            } else {
                assert(n[i] == out[i - 1]);
                assert(n[j] == out[j - 1]);
            }
        }
    }
    assert forall|t: i64| #[trigger] n.filter(at_time(t)) == input.push(c).filter(at_time(t)) by {
        let pre = out.subrange(0, p);
        let post = out.subrange(p, out.len() as int);
        assert(out =~= pre + post);
        assert(n =~= pre + (seq![c] + post));
        Seq::filter_distributes_over_add(pre, post, at_time(t));
        Seq::filter_distributes_over_add(seq![c], post, at_time(t));
        Seq::filter_distributes_over_add(pre, seq![c] + post, at_time(t));
        input.lemma_filter_push(c, at_time(t));
        assert(seq![c] =~= Seq::<CandleModel>::empty().push(c));
        Seq::<CandleModel>::empty().lemma_filter_push(c, at_time(t));
        lemma_filter_none(Seq::<CandleModel>::empty(), at_time(t));
        if t == c.timestamp {
            lemma_filter_none(post, at_time(t));
            assert(pre.filter(at_time(t)) + post.filter(at_time(t)) =~= pre.filter(at_time(t)));
            assert(pre.filter(at_time(t)) + (seq![c].filter(at_time(t)) + post.filter(at_time(t)))
                =~= pre.filter(at_time(t)).push(c));
        } else {
            assert(seq![c].filter(at_time(t)) =~= Seq::<CandleModel>::empty());
            assert(seq![c].filter(at_time(t)) + post.filter(at_time(t)) =~= post.filter(
                at_time(t),
            ));
        }
    }
}

/// Sorts candles by opening timestamp, keeping the order of equal timestamps.
pub fn sort_by_time(candles: &Vec<Candle>) -> (r: Vec<Candle>)
    ensures
        is_time_sort_of(models(r@), models(candles@)),
{
    let ghost input = models(candles@);
    let mut out: Vec<Candle> = Vec::new();
    let mut i: usize = 0;
    proof {
        assert(input.take(0) =~= Seq::<CandleModel>::empty());
        assert(models(out@) =~= Seq::<CandleModel>::empty());
    }
    while i < candles.len()
        invariant
            i <= candles@.len(),
            input == models(candles@),
            is_time_sort_of(models(out@), input.take(i as int)),
        decreases candles@.len() - i,
    {
        let c = candles[i].clone();
        let t = c.timestamp;
        let mut p: usize = 0;
        while p < out.len() && out[p].timestamp <= t
            invariant
                p <= out@.len(),
                time_ordered(models(out@)),
                forall|j: int| 0 <= j < p ==> out@[j].timestamp <= t,
            decreases out@.len() - p,
        {
            proof {
                assert(models(out@)[p as int] == out@[p as int]@);
            }
            p = p + 1;
        }
        proof {
            assert forall|j: int| p <= j < out@.len() implies out@[j].timestamp > t by {
                assert(models(out@)[p as int] == out@[p as int]@);
                assert(models(out@)[j] == out@[j]@);
            }
            lemma_insert_keeps_sort(models(out@), input.take(i as int), p as int, c@);
            assert(input.take(i + 1) =~= input.take(i as int).push(c@));
        }
        let ghost before = out@;
        out.insert(p, c);
        proof {
            assert(models(out@) =~= models(before).insert(p as int, c@));
        }
        i = i + 1;
    }
    proof {
        assert(input.take(candles@.len() as int) =~= input);
    }
    out
}

/// Keeps the newest `limit` candles of a time-ordered vector.
pub fn retain_latest(candles: &mut Vec<Candle>, limit: Option<u32>)
    ensures
        models(final(candles)@) == keep_latest(models(old(candles)@), limit),
{
    if let Some(limit) = limit {
        let keep = limit as usize;
        if candles.len() > keep {
            let drop = candles.len() - keep;
            let ghost before = candles@;
            let kept = candles.split_off(drop);
            proof {
                assert(models(kept@) =~= models(before).subrange(drop as int, before.len() as int));
            }
            *candles = kept;
        }
    }
}


/// Two time-ordered sequences that hold the same candles at every timestamp,
/// in the same relative order, are equal.
proof fn lemma_same_times_equal(a: Seq<CandleModel>, b: Seq<CandleModel>)
    requires
        time_ordered(a),
        time_ordered(b),
        forall|t: i64| #[trigger] a.filter(at_time(t)) == b.filter(at_time(t)),
    ensures
        a == b,
    decreases a.len(),
{
    reveal(Seq::filter);
    if a.len() == 0 || b.len() == 0 {
        if b.len() > 0 {
            b.lemma_filter_contains(at_time(b[0].timestamp), 0);
            assert(a.filter(at_time(b[0].timestamp)) == b.filter(at_time(b[0].timestamp)));
            assert(a.filter(at_time(b[0].timestamp)).len() == 0);
        }
        if a.len() > 0 {
            a.lemma_filter_contains(at_time(a[0].timestamp), 0);
            assert(a.filter(at_time(a[0].timestamp)) == b.filter(at_time(a[0].timestamp)));
            assert(b.filter(at_time(a[0].timestamp)).len() == 0);
        }
        assert(a =~= b);
    } else {
        let la = a.last();
        let lb = b.last();
        b.lemma_filter_contains(at_time(lb.timestamp), b.len() - 1);
        assert(a.filter(at_time(lb.timestamp)) == b.filter(at_time(lb.timestamp)));
        a.lemma_filter_contains_rev(at_time(lb.timestamp), lb);
        let i = choose|i: int| 0 <= i < a.len() && a[i] == lb;
        assert(a[i].timestamp <= a[a.len() - 1].timestamp);
        a.lemma_filter_contains(at_time(la.timestamp), a.len() - 1);
        assert(a.filter(at_time(la.timestamp)) == b.filter(at_time(la.timestamp)));
        b.lemma_filter_contains_rev(at_time(la.timestamp), la);
        let j = choose|j: int| 0 <= j < b.len() && b[j] == la;
        assert(b[j].timestamp <= b[b.len() - 1].timestamp);
        let t0 = la.timestamp;
        let a1 = a.drop_last();
        let b1 = b.drop_last();
        assert(a =~= a1.push(la));
        assert(b =~= b1.push(lb));
        assert forall|t: i64| #[trigger] a1.filter(at_time(t)) == b1.filter(at_time(t)) by {
            a1.lemma_filter_push(la, at_time(t));
            b1.lemma_filter_push(lb, at_time(t));
            assert(a.filter(at_time(t)) == b.filter(at_time(t)));
            if t == t0 {
                assert(a1.filter(at_time(t)) =~= a.filter(at_time(t)).drop_last());
                assert(b1.filter(at_time(t)) =~= b.filter(at_time(t)).drop_last());
            }
        }
        a1.lemma_filter_push(la, at_time(t0));
        b1.lemma_filter_push(lb, at_time(t0));
        assert(a.filter(at_time(t0)) == b.filter(at_time(t0)));
        assert(la == a.filter(at_time(t0)).last());
        assert(lb == b.filter(at_time(t0)).last());
        lemma_same_times_equal(a1, b1);
    }
}

/// The stable sort of a sequence by opening time is unique, so sorting the
/// same candles always gives the same result.
pub proof fn law_time_sort_is_unique(a: Seq<CandleModel>, b: Seq<CandleModel>, input: Seq<
    CandleModel,
>)
    requires
        is_time_sort_of(a, input),
        is_time_sort_of(b, input),
    ensures
        a == b,
{
    assert forall|t: i64| #[trigger] a.filter(at_time(t)) == b.filter(at_time(t)) by {
        assert(a.filter(at_time(t)) == input.filter(at_time(t)));
        assert(b.filter(at_time(t)) == input.filter(at_time(t)));
    }
    lemma_same_times_equal(a, b);
}

/// A sequence that is a stable sort of `input` is its stable sort.
pub proof fn lemma_time_sorted(sorted: Seq<CandleModel>, input: Seq<CandleModel>)
    requires
        is_time_sort_of(sorted, input),
    ensures
        time_sorted(input) == sorted,
{
    law_time_sort_is_unique(time_sorted(input), sorted, input);
}

/// Where a candle opening at `t` goes in a time-ordered sequence: after every
/// candle opening no later than `t`.
proof fn insertion_point(s: Seq<CandleModel>, t: i64) -> (p: int)
    requires
        time_ordered(s),
    ensures
        0 <= p <= s.len(),
        forall|j: int| 0 <= j < p ==> s[j].timestamp <= t,
        forall|j: int| p <= j < s.len() ==> s[j].timestamp > t,
    decreases s.len(),
{
    if s.len() == 0 {
        0
    } else if s.last().timestamp <= t {
        assert forall|j: int| 0 <= j < s.len() implies s[j].timestamp <= t by {
            assert(s[j].timestamp <= s[s.len() - 1].timestamp);
        }
        s.len() as int
    } else {
        let d = s.drop_last();
        assert(time_ordered(d)) by {
            assert forall|i: int, j: int| 0 <= i < j < d.len() implies d[i].timestamp
                <= d[j].timestamp by {
                assert(s[i].timestamp <= s[j].timestamp);
            }
        }
        let p = insertion_point(d, t);
        assert forall|j: int| 0 <= j < p implies s[j].timestamp <= t by {
            assert(s[j] == d[j]);
        }
        assert forall|j: int| p <= j < s.len() implies s[j].timestamp > t by {
            if j < s.len() - 1 {
                assert(s[j] == d[j]);
            }
        }
        p
    }
}

proof fn time_sort_witness(input: Seq<CandleModel>) -> (sorted: Seq<CandleModel>)
    ensures
        is_time_sort_of(sorted, input),
    decreases input.len(),
{
    if input.len() == 0 {
        input
    } else {
        let rest = time_sort_witness(input.drop_last());
        let c = input.last();
        let p = insertion_point(rest, c.timestamp);
        lemma_insert_keeps_sort(rest, input.drop_last(), p, c);
        assert(input.drop_last().push(c) =~= input);
        rest.insert(p, c)
    }
}

/// Every sequence has a stable sort by opening time.
pub proof fn lemma_time_sorted_exists(input: Seq<CandleModel>)
    ensures
        is_time_sort_of(time_sorted(input), input),
{
    let w = time_sort_witness(input);
    assert(is_time_sort_of(w, input));
}

} // verus!
