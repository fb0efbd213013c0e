//! One candle series as a time-ordered sequence, and the map from opening
//! timestamps to candles that such a sequence stands for.
use vstd::prelude::*;

use crate::market_data::{Candle, CandleModel};

verus! {

/// The models of a vector of candles.
pub open spec fn models(v: Seq<Candle>) -> Seq<CandleModel> {
    v.map_values(|c: Candle| c@)
}

/// Opening timestamps strictly increase along the sequence.
pub open spec fn strictly_ordered(s: Seq<CandleModel>) -> bool {
    forall|i: int, j: int| 0 <= i < j < s.len() ==> s[i].timestamp < s[j].timestamp
}

pub open spec fn has_timestamp(s: Seq<CandleModel>, t: i64) -> bool {
    exists|i: int| 0 <= i < s.len() && s[i].timestamp == t
}

/// The candle of `s` at each opening timestamp.
pub open spec fn series_map(s: Seq<CandleModel>) -> Map<i64, CandleModel> {
    Map::new(
        |t: i64| has_timestamp(s, t),
        |t: i64| s[choose|i: int| 0 <= i < s.len() && s[i].timestamp == t],
    )
}

/// The opening timestamps of a sequence, in order.
pub open spec fn timestamps(s: Seq<CandleModel>) -> Seq<i64> {
    s.map_values(|c: CandleModel| c.timestamp)
}

/// The time-ordered sequence of the candles of a series map.
pub open spec fn ordered_series(m: Map<i64, CandleModel>) -> Seq<CandleModel> {
    choose|s: Seq<CandleModel>| strictly_ordered(s) && series_map(s) == m
}

pub proof fn lemma_series_map_at(s: Seq<CandleModel>, i: int)
    requires
        strictly_ordered(s),
        0 <= i < s.len(),
    ensures
        series_map(s).contains_key(s[i].timestamp),
        series_map(s)[s[i].timestamp] == s[i],
{
    let t = s[i].timestamp;
    assert(has_timestamp(s, t));
    let j = choose|j: int| 0 <= j < s.len() && s[j].timestamp == t;
    if j < i {
        assert(s[j].timestamp < s[i].timestamp);
    } else if j > i {
        assert(s[i].timestamp < s[j].timestamp);
    }
}

/// Writing a candle at a position that keeps the order updates the map at its
/// timestamp and nowhere else.
pub proof fn lemma_series_insert(s: Seq<CandleModel>, p: int, c: CandleModel)
    requires
        strictly_ordered(s),
        0 <= p <= s.len(),
        forall|j: int| 0 <= j < p ==> s[j].timestamp < c.timestamp,
        forall|j: int| p <= j < s.len() ==> s[j].timestamp > c.timestamp,
    ensures
        strictly_ordered(s.insert(p, c)),
        series_map(s.insert(p, c)) == series_map(s).insert(c.timestamp, c),
{
    let n = s.insert(p, c);
    assert(strictly_ordered(n)) by {
        assert forall|i: int, j: int| 0 <= i < j < n.len() implies n[i].timestamp
            < n[j].timestamp by {
            if j < p {
            } else if j == p {
            } else if i < p {
            } else if i == p {
            } else {
                assert(n[i] == s[i - 1]);
                assert(n[j] == s[j - 1]);
            }
        }
    }
    let a = series_map(n);
    let b = series_map(s).insert(c.timestamp, c);
    assert forall|t: i64| a.contains_key(t) <==> b.contains_key(t) by {
        if a.contains_key(t) {
            let i = choose|i: int| 0 <= i < n.len() && n[i].timestamp == t;
            if i < p {
                assert(s[i].timestamp == t);
            } else if i > p {
                assert(s[i - 1].timestamp == t);
            }
        }
        if b.contains_key(t) && t != c.timestamp {
            let i = choose|i: int| 0 <= i < s.len() && s[i].timestamp == t;
            if i < p {
                assert(n[i].timestamp == t);
            } else {
                assert(n[i + 1].timestamp == t);
            }
        }
        if t == c.timestamp {
            assert(n[p].timestamp == t);
        }
    }
    assert forall|t: i64| a.contains_key(t) implies a[t] == b[t] by {
        let i = choose|i: int| 0 <= i < n.len() && n[i].timestamp == t;
        lemma_series_map_at(n, i);
        if i < p {
            lemma_series_map_at(s, i);
        } else if i > p {
            lemma_series_map_at(s, i - 1);
        }
    }
    assert(a =~= b);
}

/// Replacing the candle at a position by one with the same timestamp.
pub proof fn lemma_series_update(s: Seq<CandleModel>, p: int, c: CandleModel)
    requires
        strictly_ordered(s),
        0 <= p < s.len(),
        s[p].timestamp == c.timestamp,
    ensures
        strictly_ordered(s.update(p, c)),
        series_map(s.update(p, c)) == series_map(s).insert(c.timestamp, c),
{
    let n = s.update(p, c);
    assert(strictly_ordered(n)) by {
        assert forall|i: int, j: int| 0 <= i < j < n.len() implies n[i].timestamp
            < n[j].timestamp by {
            assert(s[i].timestamp < s[j].timestamp);
        }
    }
    let a = series_map(n);
    let b = series_map(s).insert(c.timestamp, c);
    assert forall|t: i64| a.contains_key(t) <==> b.contains_key(t) by {
        if a.contains_key(t) {
            let i = choose|i: int| 0 <= i < n.len() && n[i].timestamp == t;
            assert(s[i].timestamp == t);
        }
        if b.contains_key(t) && t != c.timestamp {
            let i = choose|i: int| 0 <= i < s.len() && s[i].timestamp == t;
            assert(n[i].timestamp == t);
        }
        if t == c.timestamp {
            assert(n[p].timestamp == t);
        }
    }
    assert forall|t: i64| a.contains_key(t) implies a[t] == b[t] by {
        let i = choose|i: int| 0 <= i < n.len() && n[i].timestamp == t;
        lemma_series_map_at(n, i);
        if i != p {
            lemma_series_map_at(s, i);
        }
    }
    assert(a =~= b);
}

pub proof fn lemma_series_drop_last(s: Seq<CandleModel>)
    requires
        strictly_ordered(s),
        s.len() > 0,
    ensures
        strictly_ordered(s.drop_last()),
        series_map(s.drop_last()) == series_map(s).remove(s.last().timestamp),
        series_map(s) == series_map(s.drop_last()).insert(s.last().timestamp, s.last()),
        !series_map(s.drop_last()).contains_key(s.last().timestamp),
{
    let d = s.drop_last();
    let last = s.len() - 1;
    assert(strictly_ordered(d));
    let a = series_map(d);
    let b = series_map(s).remove(s.last().timestamp);
    assert forall|t: i64| a.contains_key(t) <==> b.contains_key(t) by {
        if a.contains_key(t) {
            let i = choose|i: int| 0 <= i < d.len() && d[i].timestamp == t;
            assert(s[i].timestamp == t);
            assert(s[i].timestamp < s[last].timestamp);
        }
        if b.contains_key(t) {
            let i = choose|i: int| 0 <= i < s.len() && s[i].timestamp == t;
            assert(i != last);
            assert(d[i].timestamp == t);
        }
    }
    assert forall|t: i64| a.contains_key(t) implies a[t] == b[t] by {
        let i = choose|i: int| 0 <= i < d.len() && d[i].timestamp == t;
        lemma_series_map_at(d, i);
        lemma_series_map_at(s, i);
    }
    assert(a =~= b);
    lemma_series_map_at(s, last);
    assert(series_map(s) =~= a.insert(s.last().timestamp, s.last()));
}

/// A strictly ordered series is determined by the candles it holds.
pub proof fn lemma_series_unique(s1: Seq<CandleModel>, s2: Seq<CandleModel>)
    requires
        strictly_ordered(s1),
        strictly_ordered(s2),
        series_map(s1) == series_map(s2),
    ensures
        s1 == s2,
    decreases s1.len() + s2.len(),
{
    if s1.len() == 0 {
        if s2.len() > 0 {
            lemma_series_map_at(s2, 0);
            assert(!has_timestamp(s1, s2[0].timestamp));
        }
        assert(s1 =~= s2);
    } else if s2.len() == 0 {
        lemma_series_map_at(s1, 0);
        assert(!has_timestamp(s2, s1[0].timestamp));
    } else {
        let l1 = s1.len() - 1;
        let l2 = s2.len() - 1;
        lemma_series_map_at(s1, l1);
        lemma_series_map_at(s2, l2);
        // the last elements carry the largest timestamp of the common map
        let i2 = choose|i: int| 0 <= i < s2.len() && s2[i].timestamp == s1[l1].timestamp;
        let i1 = choose|i: int| 0 <= i < s1.len() && s1[i].timestamp == s2[l2].timestamp;
        if i2 < l2 {
            assert(s2[i2].timestamp < s2[l2].timestamp);
        }
        if i1 < l1 {
            assert(s1[i1].timestamp < s1[l1].timestamp);
        }
        assert(s1.last() == s2.last());
        lemma_series_drop_last(s1);
        lemma_series_drop_last(s2);
        lemma_series_unique(s1.drop_last(), s2.drop_last());
        assert(s1 =~= s1.drop_last().push(s1.last()));
        assert(s2 =~= s2.drop_last().push(s2.last()));
    }
}

/// The ordered series of the map of an ordered sequence is that sequence.
pub proof fn lemma_ordered_series_of(s: Seq<CandleModel>)
    requires
        strictly_ordered(s),
    ensures
        ordered_series(series_map(s)) == s,
{
    let o = ordered_series(series_map(s));
    assert(strictly_ordered(s) && series_map(s) == series_map(s));
    lemma_series_unique(o, s);
}

pub proof fn lemma_series_map_empty()
    ensures
        series_map(Seq::<CandleModel>::empty()) == Map::<i64, CandleModel>::empty(),
        ordered_series(Map::<i64, CandleModel>::empty()) == Seq::<CandleModel>::empty(),
{
    assert(series_map(Seq::<CandleModel>::empty()) =~= Map::<i64, CandleModel>::empty());
    lemma_ordered_series_of(Seq::<CandleModel>::empty());
}

} // verus!
