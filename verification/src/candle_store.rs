//! Provider-neutral, in-memory cache of canonical candle series.
//!
//! A candle is identified by provider, symbol, interval and opening timestamp.
//! The most recently received value wins when that identity is revised, exact
//! repeats are ignored, and every series is kept ordered by opening time so
//! that snapshots do not depend on delivery order.
use vstd::prelude::*;

use crate::calendar::{months_after, utc_months_after};
use crate::market_data::{
    candle_check, first_failure, interval_check, same_candle, stream_check, Candle, CandleEvent,
    CandleModel, CandleStream, IntervalDefinition, IntervalModel, IntervalUnit,
    MarketDataValidationError, StreamKey, UtcTimestamp, validation_message,
};
use crate::price::is_zero_value;
use crate::text::{decimal_text, i64_text, joined};
use crate::series::{
    lemma_ordered_series_of, lemma_series_insert, lemma_series_map_at, lemma_series_map_empty,
    lemma_series_update, has_timestamp, models, ordered_series, series_map, strictly_ordered,
    timestamps,
};

verus! {

/// A missing section between two observed candle opening times.
#[derive(Clone, Copy, Debug, PartialEq, Eq, Structural)]
pub struct CandleGap {
    pub previous_timestamp: UtcTimestamp,
    pub expected_timestamp: UtcTimestamp,
    pub next_timestamp: UtcTimestamp,
    pub missing_candles: u64,
}

#[derive(Clone, Copy, Debug, PartialEq, Eq, Structural)]
pub enum UpsertOutcome {
    Inserted,
    Revised,
    Duplicate,
}

#[derive(Clone, Copy, Debug, PartialEq, Eq, Structural)]
pub struct UpsertSummary {
    pub inserted: usize,
    pub revised: usize,
    pub duplicates: usize,
}

impl Default for UpsertSummary {
    fn default() -> (r: Self)
        ensures
            r == (UpsertSummary { inserted: 0, revised: 0, duplicates: 0 }),
    {
        UpsertSummary { inserted: 0, revised: 0, duplicates: 0 }
    }
}

#[derive(Clone, Debug, PartialEq, Eq)]
pub enum CandleStoreError {
    InvalidData(MarketDataValidationError),
    IntervalMismatch { stream_interval: String, definition_interval: String },
    InvalidIntervalDuration,
    InvalidMonthCalculation,
    TimestampOutOfRange(UtcTimestamp),
    TimestampOverflow(UtcTimestamp),
}

/// The human-readable text of a candle-store error.
pub open spec fn store_error_message(e: CandleStoreError) -> Seq<char> {
    match e {
        CandleStoreError::InvalidData(v) => "invalid candle-store data: "@ + validation_message(v),
        CandleStoreError::IntervalMismatch { stream_interval, definition_interval } =>
            "stream interval "@ + stream_interval@ + " does not match definition "@
            + definition_interval@,
        CandleStoreError::InvalidIntervalDuration => "interval duration is too large"@,
        CandleStoreError::InvalidMonthCalculation => "month intervals require calendar arithmetic"@,
        CandleStoreError::TimestampOutOfRange(t) => "timestamp is outside the supported UTC range: "@
            + decimal_text(t as int),
        CandleStoreError::TimestampOverflow(t) => "interval after timestamp would overflow: "@
            + decimal_text(t as int),
    }
}

impl CandleStoreError {
    /// The human-readable text of this error.
    pub fn describe(&self) -> (r: String)
        ensures
            r@ == store_error_message(*self),
    {
        match self {
            CandleStoreError::InvalidData(v) => {
                let detail = v.describe();
                joined("invalid candle-store data: ", detail.as_str())
            },
            CandleStoreError::IntervalMismatch { stream_interval, definition_interval } => {
                let mut out = joined("stream interval ", stream_interval.as_str());
                out.append(" does not match definition ");
                out.append(definition_interval.as_str());
                out
            },
            CandleStoreError::InvalidIntervalDuration => String::from_str(
                "interval duration is too large",
            ),
            CandleStoreError::InvalidMonthCalculation => String::from_str(
                "month intervals require calendar arithmetic",
            ),
            CandleStoreError::TimestampOutOfRange(t) => {
                let digits = i64_text(*t);
                joined("timestamp is outside the supported UTC range: ", digits.as_str())
            },
            CandleStoreError::TimestampOverflow(t) => {
                let digits = i64_text(*t);
                joined("interval after timestamp would overflow: ", digits.as_str())
            },
        }
    }
}

/// The stored candles of every series, by stream and opening timestamp.
pub type StoreModel = Map<StreamKey, Map<i64, CandleModel>>;

#[derive(Debug)]
struct Series {
    stream: CandleStream,
    candles: Vec<Candle>,
}

#[derive(Debug)]
pub struct CandleStore {
    series: Vec<Series>,
}

spec fn holds_stream(v: Seq<Series>, k: StreamKey) -> bool {
    exists|i: int| 0 <= i < v.len() && v[i].stream@ == k
}

spec fn store_map(v: Seq<Series>) -> StoreModel {
    Map::new(
        |k: StreamKey| holds_stream(v, k),
        |k: StreamKey| series_map(models(v[choose|i: int| 0 <= i < v.len() && v[i].stream@ == k].candles@)),
    )
}

spec fn distinct_streams(v: Seq<Series>) -> bool {
    forall|i: int, j: int| 0 <= i < j < v.len() ==> v[i].stream@ != v[j].stream@
}

spec fn series_ok(s: Series) -> bool {
    &&& strictly_ordered(models(s.candles@))
    &&& s.candles@.len() > 0
    &&& forall|j: int|
        0 <= j < s.candles@.len() ==> (#[trigger] s.candles@[j])@.key() == s.stream@
            && candle_check(s.candles@[j]@) is Ok
}

/// The series of one stream; empty when nothing was stored for it.
pub open spec fn series_of(m: StoreModel, k: StreamKey) -> Map<i64, CandleModel> {
    if m.contains_key(k) {
        m[k]
    } else {
        Map::empty()
    }
}

/// The time-ordered candles of one stream.
pub open spec fn snapshot(m: StoreModel, k: StreamKey) -> Seq<CandleModel> {
    ordered_series(series_of(m, k))
}

/// What storing a valid candle amounts to.
pub open spec fn upsert_outcome(m: StoreModel, c: CandleModel) -> UpsertOutcome {
    let s = series_of(m, c.key());
    if !s.contains_key(c.timestamp) {
        UpsertOutcome::Inserted
    } else if same_candle(s[c.timestamp], c) {
        UpsertOutcome::Duplicate
    } else {
        UpsertOutcome::Revised
    }
}

/// The store after a valid candle: the candle is stored at its identity,
/// unless an equal candle is already there.
pub open spec fn upserted(m: StoreModel, c: CandleModel) -> StoreModel {
    if upsert_outcome(m, c) == UpsertOutcome::Duplicate {
        m
    } else {
        m.insert(c.key(), series_of(m, c.key()).insert(c.timestamp, c))
    }
}

/// The first invalid candle of a batch decides the batch's validation.
pub open spec fn batch_check(s: Seq<CandleModel>) -> Result<(), MarketDataValidationError>
    decreases s.len(),
{
    if s.len() == 0 {
        Ok(())
    } else {
        first_failure(batch_check(s.drop_last()), candle_check(s.last()))
    }
}

/// The store after valid candles, applied in order.
pub open spec fn upserted_all(m: StoreModel, s: Seq<CandleModel>) -> StoreModel
    decreases s.len(),
{
    if s.len() == 0 {
        m
    } else {
        upserted(upserted_all(m, s.drop_last()), s.last())
    }
}

/// How many candles of a batch were inserted, revised and ignored.
pub open spec fn batch_counts(m: StoreModel, s: Seq<CandleModel>) -> (nat, nat, nat)
    decreases s.len(),
{
    if s.len() == 0 {
        (0, 0, 0)
    } else {
        let before = batch_counts(m, s.drop_last());
        let outcome = upsert_outcome(upserted_all(m, s.drop_last()), s.last());
        if outcome == UpsertOutcome::Inserted {
            (before.0 + 1, before.1, before.2)
        } else if outcome == UpsertOutcome::Revised {
            (before.0, before.1 + 1, before.2)
        } else {
            (before.0, before.1, before.2 + 1)
        }
    }
}

pub open spec fn unit_millis(unit: IntervalUnit) -> int {
    match unit {
        IntervalUnit::Second => 1_000,
        IntervalUnit::Minute => 60_000,
        IntervalUnit::Hour => 3_600_000,
        IntervalUnit::Day => 86_400_000,
        IntervalUnit::Week => 604_800_000,
        IntervalUnit::Month => 0,
    }
}

/// The length of a fixed-size interval in milliseconds.
pub open spec fn fixed_duration(d: IntervalModel) -> Result<i64, CandleStoreError> {
    if d.unit == IntervalUnit::Month {
        Err(CandleStoreError::InvalidMonthCalculation)
    } else if unit_millis(d.unit) * d.amount > i64::MAX {
        Err(CandleStoreError::InvalidIntervalDuration)
    } else {
        Ok((unit_millis(d.unit) * d.amount) as i64)
    }
}

/// The opening time one interval after `t`; month intervals follow the UTC
/// calendar.
pub open spec fn advance(t: i64, d: IntervalModel) -> Result<i64, CandleStoreError> {
    if d.unit == IntervalUnit::Month {
        match utc_months_after(t, d.amount) {
            None => Err(CandleStoreError::TimestampOutOfRange(t)),
            Some(None) => Err(CandleStoreError::TimestampOverflow(t)),
            Some(Some(next)) => Ok(next),
        }
    } else {
        match fixed_duration(d) {
            Err(e) => Err(e),
            Ok(len) => if t + len > i64::MAX || t + len < i64::MIN {
                Err(CandleStoreError::TimestampOverflow(t))
            } else {
                Ok((t + len) as i64)
            },
        }
    }
}

pub open spec fn distance_left(cursor: i64, next: i64) -> int {
    if cursor < next {
        next - cursor
    } else {
        0
    }
}

/// Counts calendar-month openings from `cursor` up to, not including, `next`.
pub open spec fn months_counted(cursor: i64, next: i64, d: IntervalModel, missing: u64) -> Result<
    u64,
    CandleStoreError,
>
    decreases distance_left(cursor, next),
{
    if cursor >= next {
        Ok(missing)
    } else if missing == u64::MAX {
        Err(CandleStoreError::TimestampOverflow(cursor))
    } else {
        match advance(cursor, d) {
            Err(e) => Err(e),
            Ok(after) => if after > cursor {
                months_counted(after, next, d, (missing + 1) as u64)
            } else {
                Err(CandleStoreError::TimestampOverflow(cursor))
            },
        }
    }
}

/// The number of interval openings in `[expected, next)`.
pub open spec fn missing_count(expected: i64, next: i64, d: IntervalModel) -> Result<
    u64,
    CandleStoreError,
> {
    if d.unit != IntervalUnit::Month {
        match fixed_duration(d) {
            Err(e) => Err(e),
            Ok(len) => Ok((1 + (next - expected - 1) / (len as int)) as u64),
        }
    } else {
        months_counted(expected, next, d, 0)
    }
}

/// The gap between two adjacent opening times, if there is one.
pub open spec fn gap_between(previous: i64, next: i64, d: IntervalModel) -> Result<
    Option<CandleGap>,
    CandleStoreError,
> {
    match advance(previous, d) {
        Err(e) => Err(e),
        Ok(expected) => if next <= expected {
            Ok(None)
        } else {
            match missing_count(expected, next, d) {
                Err(e) => Err(e),
                Ok(n) => Ok(
                    Some(
                        CandleGap {
                            previous_timestamp: previous,
                            expected_timestamp: expected,
                            next_timestamp: next,
                            missing_candles: n,
                        },
                    ),
                ),
            }
        },
    }
}

/// The gaps between the first `n + 1` opening times, in order.
pub open spec fn gaps_upto(ts: Seq<i64>, n: int, d: IntervalModel) -> Result<
    Seq<CandleGap>,
    CandleStoreError,
>
    decreases n,
{
    if n <= 0 {
        Ok(Seq::empty())
    } else {
        match gaps_upto(ts, n - 1, d) {
            Err(e) => Err(e),
            Ok(found) => match gap_between(ts[n - 1], ts[n], d) {
                Err(e) => Err(e),
                Ok(None) => Ok(found),
                Ok(Some(gap)) => Ok(found.push(gap)),
            },
        }
    }
}

/// The gaps between adjacent opening times of an ordered series.
pub open spec fn gap_scan(ts: Seq<i64>, d: IntervalModel) -> Result<
    Seq<CandleGap>,
    CandleStoreError,
> {
    if ts.len() < 2 {
        Ok(Seq::empty())
    } else {
        gaps_upto(ts, ts.len() - 1, d)
    }
}

pub open spec fn gaps_match(
    r: Result<Vec<CandleGap>, CandleStoreError>,
    expected: Result<Seq<CandleGap>, CandleStoreError>,
) -> bool {
    match (r, expected) {
        (Ok(v), Ok(s)) => v@ == s,
        (Err(a), Err(b)) => a == b,
        _ => false,
    }
}

proof fn lemma_store_map_at(v: Seq<Series>, i: int)
    requires
        distinct_streams(v),
        0 <= i < v.len(),
    ensures
        store_map(v).contains_key(v[i].stream@),
        store_map(v)[v[i].stream@] == series_map(models(v[i].candles@)),
{
    let k = v[i].stream@;
    assert(holds_stream(v, k));
    let j = choose|j: int| 0 <= j < v.len() && v[j].stream@ == k;
    if j != i {
        if j < i {
            assert(v[j].stream@ != v[i].stream@);
        } else {
            assert(v[i].stream@ != v[j].stream@);
        }
    }
}

proof fn lemma_store_update(v: Seq<Series>, i: int, s: Series)
    requires
        distinct_streams(v),
        0 <= i < v.len(),
        s.stream@ == v[i].stream@,
    ensures
        distinct_streams(v.update(i, s)),
        store_map(v.update(i, s)) == store_map(v).insert(s.stream@, series_map(models(s.candles@))),
{
    let n = v.update(i, s);
    assert(distinct_streams(n)) by {
        assert forall|a: int, b: int| 0 <= a < b < n.len() implies n[a].stream@
            != n[b].stream@ by {
            assert(v[a].stream@ != v[b].stream@);
        }
    }
    let x = store_map(n);
    let y = store_map(v).insert(s.stream@, series_map(models(s.candles@)));
    assert forall|k: StreamKey| x.contains_key(k) <==> y.contains_key(k) by {
        if x.contains_key(k) {
            let j = choose|j: int| 0 <= j < n.len() && n[j].stream@ == k;
            assert(v[j].stream@ == k);
        }
        if y.contains_key(k) && k != s.stream@ {
            let j = choose|j: int| 0 <= j < v.len() && v[j].stream@ == k;
            assert(n[j].stream@ == k);
        }
        if k == s.stream@ {
            assert(n[i].stream@ == k);
        }
    }
    assert forall|k: StreamKey| x.contains_key(k) implies x[k] == y[k] by {
        let j = choose|j: int| 0 <= j < n.len() && n[j].stream@ == k;
        lemma_store_map_at(n, j);
        if j != i {
            lemma_store_map_at(v, j);
        }
    }
    assert(x =~= y);
}

proof fn lemma_store_push(v: Seq<Series>, s: Series)
    requires
        distinct_streams(v),
        !holds_stream(v, s.stream@),
    ensures
        distinct_streams(v.push(s)),
        store_map(v.push(s)) == store_map(v).insert(s.stream@, series_map(models(s.candles@))),
{
    let n = v.push(s);
    assert(distinct_streams(n)) by {
        assert forall|a: int, b: int| 0 <= a < b < n.len() implies n[a].stream@
            != n[b].stream@ by {
            if b == v.len() {
                assert(v[a].stream@ == n[a].stream@);
            }
        }
    }
    let x = store_map(n);
    let y = store_map(v).insert(s.stream@, series_map(models(s.candles@)));
    assert forall|k: StreamKey| x.contains_key(k) <==> y.contains_key(k) by {
        if x.contains_key(k) && k != s.stream@ {
            let j = choose|j: int| 0 <= j < n.len() && n[j].stream@ == k;
            assert(v[j].stream@ == k);
        }
        if y.contains_key(k) && k != s.stream@ {
            let j = choose|j: int| 0 <= j < v.len() && v[j].stream@ == k;
            assert(n[j].stream@ == k);
        }
        if k == s.stream@ {
            assert(n[v.len() as int].stream@ == k);
        }
    }
    assert forall|k: StreamKey| x.contains_key(k) implies x[k] == y[k] by {
        let j = choose|j: int| 0 <= j < n.len() && n[j].stream@ == k;
        lemma_store_map_at(n, j);
        if j < v.len() {
            lemma_store_map_at(v, j);
        }
    }
    assert(x =~= y);
}

impl View for CandleStore {
    type V = StoreModel;

    closed spec fn view(&self) -> StoreModel {
        store_map(self.series@)
    }
}

impl Default for CandleStore {
    fn default() -> (r: Self)
        ensures
            r.well_formed(),
            r@ == StoreModel::empty(),
    {
        CandleStore::new()
    }
}

impl CandleStore {
    /// The store's internal invariant: one series per stream, each non-empty,
    /// strictly ordered by opening time and holding only valid candles of its
    /// stream.
    pub closed spec fn well_formed(&self) -> bool {
        &&& distinct_streams(self.series@)
        &&& forall|i: int| 0 <= i < self.series@.len() ==> series_ok(#[trigger] self.series@[i])
    }

    pub fn new() -> (r: Self)
        ensures
            r.well_formed(),
            r@ == StoreModel::empty(),
    {
        let r = CandleStore { series: Vec::new() };
        assert(r@ =~= StoreModel::empty());
        r
    }

    fn find_series(&self, stream: &CandleStream) -> (r: Option<usize>)
        requires
            self.well_formed(),
        ensures
            match r {
                Some(i) => i < self.series@.len() && self.series@[i as int].stream@ == stream@,
                None => !holds_stream(self.series@, stream@),
            },
    {
        let mut i: usize = 0;
        while i < self.series.len()
            invariant
                i <= self.series@.len(),
                forall|j: int| 0 <= j < i ==> self.series@[j].stream@ != stream@,
            decreases self.series@.len() - i,
        {
            if self.series[i].stream == *stream {
                return Some(i);
            }
            i = i + 1;
        }
        None
    }

    /// Stores a candle after validating it.
    pub fn upsert(&mut self, candle: Candle) -> (r: Result<UpsertOutcome, CandleStoreError>)
        requires
            old(self).well_formed(),
        ensures
            final(self).well_formed(),
            match candle_check(candle@) {
                Err(e) => r == Err::<UpsertOutcome, CandleStoreError>(
                    CandleStoreError::InvalidData(e),
                ) && final(self)@ == old(self)@,
                Ok(_) => r == Ok::<UpsertOutcome, CandleStoreError>(
                    upsert_outcome(old(self)@, candle@),
                ) && final(self)@ == upserted(old(self)@, candle@),
            },
    {
        match candle.validate() {
            Err(e) => {
                return Err(CandleStoreError::InvalidData(e));
            },
            Ok(()) => {},
        }
        Ok(self.upsert_validated(candle))
    }

    pub fn apply(&mut self, event: CandleEvent) -> (r: Result<UpsertOutcome, CandleStoreError>)
        requires
            old(self).well_formed(),
        ensures
            final(self).well_formed(),
            match event {
                CandleEvent::Upsert { candle } => match candle_check(candle@) {
                    Err(e) => r == Err::<UpsertOutcome, CandleStoreError>(
                        CandleStoreError::InvalidData(e),
                    ) && final(self)@ == old(self)@,
                    Ok(_) => r == Ok::<UpsertOutcome, CandleStoreError>(
                        upsert_outcome(old(self)@, candle@),
                    ) && final(self)@ == upserted(old(self)@, candle@),
                },
            },
    {
        match event {
            CandleEvent::Upsert { candle } => self.upsert(candle),
        }
    }

    /// Atomically validates and applies a group of candles: if any candle is
    /// invalid, none of the group is stored.
    pub fn upsert_all(&mut self, candles: Vec<Candle>) -> (r: Result<
        UpsertSummary,
        CandleStoreError,
    >)
        requires
            old(self).well_formed(),
        ensures
            final(self).well_formed(),
            match batch_check(models(candles@)) {
                Err(e) => r == Err::<UpsertSummary, CandleStoreError>(
                    CandleStoreError::InvalidData(e),
                ) && final(self)@ == old(self)@,
                Ok(_) => {
                    let counts = batch_counts(old(self)@, models(candles@));
                    &&& r matches Ok(summary)
                    &&& summary.inserted == counts.0
                    &&& summary.revised == counts.1
                    &&& summary.duplicates == counts.2
                    &&& summary.inserted + summary.revised + summary.duplicates == candles@.len()
                    &&& final(self)@ == upserted_all(old(self)@, models(candles@))
                },
            },
    {
        let ghost batch = models(candles@);
        let mut i: usize = 0;
        while i < candles.len()
            invariant
                self.well_formed(),
                self@ == old(self)@,
                i <= candles@.len(),
                batch == models(candles@),
                batch_check(batch.take(i as int)) is Ok,
            decreases candles@.len() - i,
        {
            proof {
                assert(batch.take(i + 1).drop_last() =~= batch.take(i as int));
            }
            match candles[i].validate() {
                Err(e) => {
                    proof {
                        lemma_batch_check_prefix(batch, (i + 1) as int);
                    }
                    return Err(CandleStoreError::InvalidData(e));
                },
                Ok(()) => {},
            }
            i = i + 1;
        }
        proof {
            assert(batch.take(candles@.len() as int) =~= batch);
        }
        let ghost start = self@;
        let mut summary = UpsertSummary::default();
        let mut done: usize = 0;
        while done < candles.len()
            invariant
                self.well_formed(),
                batch == models(candles@),
                batch_check(batch) is Ok,
                self@ == upserted_all(start, batch.take(done as int)),
                summary.inserted == batch_counts(start, batch.take(done as int)).0,
                summary.revised == batch_counts(start, batch.take(done as int)).1,
                summary.duplicates == batch_counts(start, batch.take(done as int)).2,
                summary.inserted + summary.revised + summary.duplicates == done,
                done <= batch.len(),
            decreases batch.len() - done,
        {
            let candle = candles[done].clone();
            proof {
                lemma_batch_check_each(batch, done as int);
                assert(batch.take(done + 1).drop_last() =~= batch.take(done as int));
                assert(batch.take(done + 1).last() == batch[done as int]);
                assert(candle@ == batch[done as int]);
            }
            match self.upsert_validated(candle) {
                UpsertOutcome::Inserted => summary.inserted = summary.inserted + 1,
                UpsertOutcome::Revised => summary.revised = summary.revised + 1,
                UpsertOutcome::Duplicate => summary.duplicates = summary.duplicates + 1,
            }
            done = done + 1;
        }
        proof {
            assert(batch.take(batch.len() as int) =~= batch);
        }
        Ok(summary)
    }

    /// Returns a timestamp-ordered snapshot of one candle series.
    pub fn candles(&self, stream: &CandleStream) -> (r: Result<Vec<Candle>, CandleStoreError>)
        requires
            self.well_formed(),
        ensures
            match stream_check(stream@.0, stream@.1, stream@.2) {
                Err(e) => r == Err::<Vec<Candle>, CandleStoreError>(
                    CandleStoreError::InvalidData(e),
                ),
                Ok(_) => r matches Ok(v) && models(v@) == snapshot(self@, stream@),
            },
    {
        match stream.validate() {
            Err(e) => {
                return Err(CandleStoreError::InvalidData(e));
            },
            Ok(()) => {},
        }
        match self.find_series(stream) {
            None => {
                proof {
                    lemma_series_map_empty();
                    assert(!self@.contains_key(stream@));
                }
                Ok(Vec::new())
            },
            Some(i) => {
                let source = &self.series[i].candles;
                let mut out: Vec<Candle> = Vec::new();
                let mut j: usize = 0;
                while j < source.len()
                    invariant
                        j <= source@.len(),
                        out@.len() == j,
                        models(out@) == models(source@).take(j as int),
                    decreases source@.len() - j,
                {
                    let ghost before = out@;
                    let copy = source[j].clone();
                    out.push(copy);
                    proof {
                        assert(out@ == before.push(copy));
                        assert(models(source@)[j as int] == source@[j as int]@);
                        assert(copy@ == source@[j as int]@);
                        assert forall|k: int| 0 <= k < out@.len() implies #[trigger] models(out@)[k]
                            == models(source@).take(j + 1)[k] by {
                            assert(models(out@)[k] == out@[k]@);
                            if k < j {
                                assert(out@[k] == before[k]);
                                assert(models(before)[k] == before[k]@);
                                assert(models(before)[k] == models(source@).take(j as int)[k]);
                            } else {
                                assert(out@[k] == copy);
                            }
                        }
                        assert(models(out@) =~= models(source@).take(j + 1));
                    }
                    j = j + 1;
                }
                proof {
                    assert(models(source@).take(source@.len() as int) =~= models(source@));
                    assert(series_ok(self.series@[i as int]));
                    lemma_store_map_at(self.series@, i as int);
                    lemma_ordered_series_of(models(source@));
                }
                Ok(out)
            },
        }
    }

    /// The number of candles stored for a stream.
    pub fn len(&self, stream: &CandleStream) -> (r: Result<usize, CandleStoreError>)
        requires
            self.well_formed(),
        ensures
            match stream_check(stream@.0, stream@.1, stream@.2) {
                Err(e) => r == Err::<usize, CandleStoreError>(CandleStoreError::InvalidData(e)),
                Ok(_) => r matches Ok(n) && n == snapshot(self@, stream@).len(),
            },
    {
        match stream.validate() {
            Err(e) => {
                return Err(CandleStoreError::InvalidData(e));
            },
            Ok(()) => {},
        }
        match self.find_series(stream) {
            None => {
                proof {
                    lemma_series_map_empty();
                    assert(!self@.contains_key(stream@));
                }
                Ok(0)
            },
            Some(i) => {
                proof {
                    assert(series_ok(self.series@[i as int]));
                    lemma_store_map_at(self.series@, i as int);
                    lemma_ordered_series_of(models(self.series@[i as int].candles@));
                }
                Ok(self.series[i].candles.len())
            },
        }
    }

    /// Whether no candle is stored at all.
    pub fn is_empty(&self) -> (r: bool)
        requires
            self.well_formed(),
        ensures
            r == (forall|k: StreamKey| #[trigger] self@.contains_key(k) ==> self@[k].is_empty()),
    {
        let mut i: usize = 0;
        while i < self.series.len()
            invariant
                self.well_formed(),
                i <= self.series@.len(),
                forall|j: int| 0 <= j < i ==> self.series@[j].candles@.len() == 0,
            decreases self.series@.len() - i,
        {
            if !self.series[i].candles.is_empty() {
                proof {
                    let s = self.series@[i as int];
                    assert(series_ok(s));
                    lemma_store_map_at(self.series@, i as int);
                    lemma_series_map_at(models(s.candles@), 0);
                    assert(!self@[s.stream@].is_empty()) by {
                        assert(self@[s.stream@].dom().contains(s.candles@[0].timestamp));
                    }
                }
                return false;
            }
            i = i + 1;
        }
        proof {
            if self.series@.len() > 0 {
                assert(series_ok(self.series@[0]));
            }
            assert forall|k: StreamKey| #[trigger] self@.contains_key(k) implies self@[k].is_empty() by {
                let j = choose|j: int| 0 <= j < self.series@.len() && self.series@[j].stream@ == k;
                assert(series_ok(self.series@[j]));
            }
        }
        true
    }

    /// Finds missing interval openings between adjacent stored candles.
    ///
    /// Fixed-size intervals use checked millisecond arithmetic; month intervals
    /// advance by UTC calendar months.
    pub fn gaps(&self, stream: &CandleStream, interval: &IntervalDefinition) -> (r: Result<
        Vec<CandleGap>,
        CandleStoreError,
    >)
        requires
            self.well_formed(),
        ensures
            match stream_check(stream@.0, stream@.1, stream@.2) {
                Err(e) => r == Err::<Vec<CandleGap>, CandleStoreError>(
                    CandleStoreError::InvalidData(e),
                ),
                Ok(_) => match interval_check(interval@) {
                    Err(e) => r == Err::<Vec<CandleGap>, CandleStoreError>(
                        CandleStoreError::InvalidData(e),
                    ),
                    Ok(_) => if stream@.2 != interval@.id {
                        r matches Err(CandleStoreError::IntervalMismatch {
                            stream_interval,
                            definition_interval,
                        }) && stream_interval@ == stream@.2 && definition_interval@
                            == interval@.id
                    } else {
                        gaps_match(
                            r,
                            gap_scan(timestamps(snapshot(self@, stream@)), interval@),
                        )
                    },
                },
            },
    {
        match stream.validate() {
            Err(e) => {
                return Err(CandleStoreError::InvalidData(e));
            },
            Ok(()) => {},
        }
        match interval.validate() {
            Err(e) => {
                return Err(CandleStoreError::InvalidData(e));
            },
            Ok(()) => {},
        }
        if stream.interval != interval.id {
            return Err(
                CandleStoreError::IntervalMismatch {
                    stream_interval: stream.interval.clone(),
                    definition_interval: interval.id.clone(),
                },
            );
        }
        let i = match self.find_series(stream) {
            None => {
                proof {
                    lemma_series_map_empty();
                    assert(!self@.contains_key(stream@));
                    assert(timestamps(Seq::<CandleModel>::empty()).len() == 0);
                }
                return Ok(Vec::new());
            },
            Some(i) => i,
        };
        let candles = &self.series[i].candles;
        let ghost ts = timestamps(models(candles@));
        proof {
            assert(series_ok(self.series@[i as int]));
            lemma_store_map_at(self.series@, i as int);
            lemma_ordered_series_of(models(candles@));
        }
        proof {
            assert forall|k: int| 0 <= k < candles@.len() implies candles@[k].timestamp >= 0 by {
                assert(candle_check(candles@[k]@) is Ok);
            }
        }
        let mut gaps: Vec<CandleGap> = Vec::new();
        if candles.len() < 2 {
            return Ok(gaps);
        }
        let mut j: usize = 1;
        while j < candles.len()
            invariant
                1 <= j <= candles@.len(),
                ts == timestamps(models(candles@)),
                ts == timestamps(snapshot(self@, stream@)),
                stream@.2 == interval@.id,
                stream_check(stream@.0, stream@.1, stream@.2) is Ok,
                forall|k: int| 0 <= k < candles@.len() ==> candles@[k].timestamp >= 0,
                interval_check(interval@) is Ok,
                gaps_upto(ts, j - 1, interval@) == Ok::<Seq<CandleGap>, CandleStoreError>(gaps@),
            decreases candles@.len() - j,
        {
            let previous_timestamp = candles[j - 1].timestamp;
            let next_timestamp = candles[j].timestamp;
            proof {
                assert(ts[j - 1] == previous_timestamp);
                assert(ts[j as int] == next_timestamp);
            }
            let expected_timestamp = match advance_timestamp(previous_timestamp, interval) {
                Ok(t) => t,
                Err(e) => {
                    proof {
                        lemma_gaps_error_sticks(ts, j as int, (ts.len() - 1) as int, interval@);
                    }
                    return Err(e);
                },
            };
            if next_timestamp > expected_timestamp {
                let missing_candles = match count_missing(
                    expected_timestamp,
                    next_timestamp,
                    interval,
                ) {
                    Ok(n) => n,
                    Err(e) => {
                        proof {
                            lemma_gaps_error_sticks(ts, j as int, (ts.len() - 1) as int, interval@);
                        }
                        return Err(e);
                    },
                };
                gaps.push(
                    CandleGap {
                        previous_timestamp,
                        expected_timestamp,
                        next_timestamp,
                        missing_candles,
                    },
                );
            }
            j = j + 1;
        }
        Ok(gaps)
    }

    fn upsert_validated(&mut self, candle: Candle) -> (r: UpsertOutcome)
        requires
            old(self).well_formed(),
            candle_check(candle@) is Ok,
        ensures
            final(self).well_formed(),
            r == upsert_outcome(old(self)@, candle@),
            final(self)@ == upserted(old(self)@, candle@),
    {
        let stream = candle.stream();
        let ghost c = candle@;
        let ghost old_series = self.series@;
        match self.find_series(&stream) {
            None => {
                let mut candles: Vec<Candle> = Vec::new();
                candles.push(candle);
                let fresh = Series { stream, candles };
                proof {
                    assert(models(fresh.candles@) =~= seq![c]);
                    assert(series_map(seq![c]) =~= Map::<i64, CandleModel>::empty().insert(
                        c.timestamp,
                        c,
                    )) by {
                        assert(seq![c][0].timestamp == c.timestamp);
                    }
                    assert(!self@.contains_key(c.key()));
                    lemma_store_push(old_series, fresh);
                }
                self.series.push(fresh);
                proof {
                    assert forall|i: int| 0 <= i < self.series@.len() implies series_ok(
                        #[trigger] self.series@[i],
                    ) by {
                        if i < old_series.len() {
                            assert(self.series@[i] == old_series[i]);
                        }
                    }
                }
                UpsertOutcome::Inserted
            },
            Some(i) => {
                proof {
                    assert(series_ok(old_series[i as int]));
                    lemma_store_map_at(old_series, i as int);
                }
                let mut entry = self.series.remove(i);
                let ghost before = models(entry.candles@);
                let p = position(&entry.candles, candle.timestamp);
                let outcome;
                if p < entry.candles.len() && entry.candles[p].timestamp == candle.timestamp {
                    proof {
                        lemma_series_map_at(before, p as int);
                    }
                    if entry.candles[p] == candle {
                        outcome = UpsertOutcome::Duplicate;
                    } else {
                        entry.candles.set(p, candle);
                        proof {
                            lemma_series_update(before, p as int, c);
                            assert(models(entry.candles@) =~= before.update(p as int, c));
                        }
                        outcome = UpsertOutcome::Revised;
                    }
                } else {
                    proof {
                        assert forall|t: i64| #[trigger] series_map(before).contains_key(t) implies t
                            != c.timestamp by {
                            let k = choose|k: int| 0 <= k < before.len() && before[k].timestamp == t;
                            if k < p {
                            } else if k == p {
                            } else {
                                assert(before[p as int].timestamp < before[k].timestamp);
                            }
                        }
                    }
                    entry.candles.insert(p, candle);
                    proof {
                        lemma_series_insert(before, p as int, c);
                        assert(models(entry.candles@) =~= before.insert(p as int, c));
                    }
                    outcome = UpsertOutcome::Inserted;
                }
                proof {
                    assert(series_ok(entry)) by {
                        assert forall|j: int| 0 <= j < entry.candles@.len() implies (
                        #[trigger] entry.candles@[j])@.key() == entry.stream@ && candle_check(
                            entry.candles@[j]@,
                        ) is Ok by {
                            assert(models(entry.candles@)[j] == entry.candles@[j]@);
                            if outcome == UpsertOutcome::Inserted {
                                if j < p {
                                    assert(entry.candles@[j] == old_series[i as int].candles@[j]);
                                } else if j > p {
                                    assert(entry.candles@[j] == old_series[i as int].candles@[j
                                        - 1]);
                                }
                            } else if j != p {
                                assert(entry.candles@[j] == old_series[i as int].candles@[j]);
                            }
                        }
                    }
                    assert(old_series.remove(i as int).insert(i as int, entry) =~= old_series.update(
                        i as int,
                        entry,
                    ));
                    lemma_store_update(old_series, i as int, entry);
                    if outcome == UpsertOutcome::Duplicate {
                        assert(entry == old_series[i as int]);
                        assert(old_series.update(i as int, entry) =~= old_series);
                    }
                }
                self.series.insert(i, entry);
                proof {
                    assert forall|k: int| 0 <= k < self.series@.len() implies series_ok(
                        #[trigger] self.series@[k],
                    ) by {
                        if k != i {
                            assert(self.series@[k] == old_series[k]);
                        }
                    }
                }
                outcome
            },
        }
    }
}

/// The first position whose candle does not open before `t`.
fn position(candles: &Vec<Candle>, t: i64) -> (p: usize)
    requires
        strictly_ordered(models(candles@)),
    ensures
        p <= candles@.len(),
        forall|j: int| 0 <= j < p ==> candles@[j].timestamp < t,
        forall|j: int| p <= j < candles@.len() ==> candles@[j].timestamp >= t,
{
    let mut p: usize = 0;
    while p < candles.len() && candles[p].timestamp < t
        invariant
            p <= candles@.len(),
            strictly_ordered(models(candles@)),
            forall|j: int| 0 <= j < p ==> candles@[j].timestamp < t,
        decreases candles@.len() - p,
    {
        p = p + 1;
    }
    proof {
        assert forall|j: int| p <= j < candles@.len() implies candles@[j].timestamp >= t by {
            if j > p {
                assert(models(candles@)[p as int].timestamp < models(candles@)[j].timestamp);
            }
        }
    }
    p
}

proof fn lemma_batch_check_prefix(s: Seq<CandleModel>, n: int)
    requires
        0 < n <= s.len(),
        batch_check(s.take(n - 1)) is Ok,
        candle_check(s[n - 1]) is Err,
    ensures
        batch_check(s) == Err::<(), MarketDataValidationError>(candle_check(s[n - 1])->Err_0),
    decreases s.len(),
{
    if s.len() == n {
        assert(s.drop_last() =~= s.take(n - 1));
    } else {
        assert(s.drop_last().take(n - 1) =~= s.take(n - 1));
        lemma_batch_check_prefix(s.drop_last(), n);
    }
}

proof fn lemma_batch_check_each(s: Seq<CandleModel>, i: int)
    requires
        batch_check(s) is Ok,
        0 <= i < s.len(),
    ensures
        candle_check(s[i]) is Ok,
    decreases s.len(),
{
    if i < s.len() - 1 {
        lemma_batch_check_each(s.drop_last(), i);
    }
}

proof fn lemma_gaps_error_sticks(ts: Seq<i64>, j: int, n: int, d: IntervalModel)
    requires
        1 <= j <= n,
        gaps_upto(ts, j - 1, d) is Ok,
        gap_between(ts[j - 1], ts[j], d) is Err,
    ensures
        gaps_upto(ts, n, d) == Err::<Seq<CandleGap>, CandleStoreError>(
            gap_between(ts[j - 1], ts[j], d)->Err_0,
        ),
    decreases n - j,
{
    if n > j {
        lemma_gaps_error_sticks(ts, j, n - 1, d);
    }
}

/// The opening time one interval after `timestamp`.
fn advance_timestamp(timestamp: UtcTimestamp, interval: &IntervalDefinition) -> (r: Result<
    UtcTimestamp,
    CandleStoreError,
>)
    ensures
        r == advance(timestamp, interval@),
        interval@.amount >= 1 ==> (r matches Ok(next) ==> next > timestamp),
{
    if interval.unit == IntervalUnit::Month {
        return match months_after(timestamp, interval.amount) {
            None => Err(CandleStoreError::TimestampOutOfRange(timestamp)),
            Some(None) => Err(CandleStoreError::TimestampOverflow(timestamp)),
            Some(Some(next)) => Ok(next),
        };
    }
    let duration = fixed_interval_millis(interval)?;
    timestamp.checked_add(duration).ok_or(CandleStoreError::TimestampOverflow(timestamp))
}

/// The length of a fixed-size interval in milliseconds.
fn fixed_interval_millis(interval: &IntervalDefinition) -> (r: Result<
    UtcTimestamp,
    CandleStoreError,
>)
    ensures
        r == fixed_duration(interval@),
{
    let unit_millis: i64 = match interval.unit {
        IntervalUnit::Second => 1_000,
        IntervalUnit::Minute => 60_000,
        IntervalUnit::Hour => 3_600_000,
        IntervalUnit::Day => 86_400_000,
        IntervalUnit::Week => 604_800_000,
        IntervalUnit::Month => {
            return Err(CandleStoreError::InvalidMonthCalculation);
        },
    };
    unit_millis.checked_mul(interval.amount as i64).ok_or(
        CandleStoreError::InvalidIntervalDuration,
    )
}

/// Counts the interval openings in `[expected_timestamp, next_timestamp)`.
fn count_missing(
    expected_timestamp: UtcTimestamp,
    next_timestamp: UtcTimestamp,
    interval: &IntervalDefinition,
) -> (r: Result<u64, CandleStoreError>)
    requires
        0 <= expected_timestamp < next_timestamp,
        interval@.amount >= 1,
    ensures
        r == missing_count(expected_timestamp, next_timestamp, interval@),
{
    if interval.unit != IntervalUnit::Month {
        let duration = fixed_interval_millis(interval)?;
        let distance = next_timestamp - expected_timestamp;
        return Ok(1 + (distance - 1) as u64 / duration as u64);
    }
    let mut missing: u64 = 0;
    let mut cursor = expected_timestamp;
    while cursor < next_timestamp
        invariant
            interval@.unit == IntervalUnit::Month,
            interval@.amount >= 1,
            months_counted(expected_timestamp, next_timestamp, interval@, 0) == months_counted(
                cursor,
                next_timestamp,
                interval@,
                missing,
            ),
        decreases distance_left(cursor, next_timestamp),
    {
        missing = missing.checked_add(1).ok_or(CandleStoreError::TimestampOverflow(cursor))?;
        cursor = advance_timestamp(cursor, interval)?;
    }
    Ok(missing)
}


/// A valid candle has no NaN price, so it is the same candle as itself.
proof fn lemma_valid_candle_is_itself(c: CandleModel)
    requires
        candle_check(c) is Ok,
    ensures
        same_candle(c, c),
{
}

/// After a valid candle is stored, its identity holds that candle (or the
/// equal candle that was already there).
pub proof fn law_upsert_then_read(m: StoreModel, c: CandleModel)
    requires
        candle_check(c) is Ok,
    ensures
        series_of(upserted(m, c), c.key()).contains_key(c.timestamp),
        same_candle(series_of(upserted(m, c), c.key())[c.timestamp], c),
{
    lemma_valid_candle_is_itself(c);
}

/// Storing a candle changes no other identity, in its own series or in any
/// other.
pub proof fn law_upsert_keeps_other_identities(m: StoreModel, c: CandleModel, k: StreamKey, t: i64)
    requires
        k != c.key() || t != c.timestamp,
    ensures
        series_of(upserted(m, c), k).contains_key(t) == series_of(m, k).contains_key(t),
        series_of(m, k).contains_key(t) ==> series_of(upserted(m, c), k)[t] == series_of(m, k)[t],
{
}

/// Storing the same valid candle a second time is reported as a duplicate
/// and changes nothing.
pub proof fn law_upsert_is_idempotent(m: StoreModel, c: CandleModel)
    requires
        candle_check(c) is Ok,
    ensures
        upsert_outcome(upserted(m, c), c) == UpsertOutcome::Duplicate,
        upserted(upserted(m, c), c) == upserted(m, c),
{
    lemma_valid_candle_is_itself(c);
}

/// Two valid candles of different identities give the same store in either
/// order of arrival.
pub proof fn law_upserts_commute(m: StoreModel, a: CandleModel, b: CandleModel)
    requires
        candle_check(a) is Ok,
        candle_check(b) is Ok,
        a.key() != b.key() || a.timestamp != b.timestamp,
    ensures
        upserted(upserted(m, a), b) == upserted(upserted(m, b), a),
{
    let ma = upserted(m, a);
    let mb = upserted(m, b);
    law_upsert_keeps_other_identities(m, a, b.key(), b.timestamp);
    law_upsert_keeps_other_identities(m, b, a.key(), a.timestamp);
    assert(upsert_outcome(ma, b) == upsert_outcome(m, b));
    assert(upsert_outcome(mb, a) == upsert_outcome(m, a));
    let oa = upsert_outcome(m, a);
    let ob = upsert_outcome(m, b);
    if oa != UpsertOutcome::Duplicate && ob != UpsertOutcome::Duplicate {
        let left = upserted(ma, b);
        let right = upserted(mb, a);
        if a.key() == b.key() {
            assert(series_of(ma, b.key()) == series_of(m, a.key()).insert(a.timestamp, a));
            assert(series_of(mb, a.key()) == series_of(m, b.key()).insert(b.timestamp, b));
            assert(series_of(m, a.key()).insert(a.timestamp, a).insert(b.timestamp, b)
                =~= series_of(m, b.key()).insert(b.timestamp, b).insert(a.timestamp, a));
            assert(left =~= right);
        } else {
            assert(series_of(ma, b.key()) == series_of(m, b.key()));
            assert(series_of(mb, a.key()) == series_of(m, a.key()));
            assert(left =~= right);
        }
    }
}

/// Every snapshot of a well-formed store is strictly ordered by opening time
/// and holds exactly the stored candles of its stream.
pub proof fn law_snapshot_is_ordered(store: &CandleStore, k: StreamKey)
    requires
        store.well_formed(),
    ensures
        strictly_ordered(snapshot(store@, k)),
        series_map(snapshot(store@, k)) == series_of(store@, k),
{
    let v = store.series@;
    if holds_stream(v, k) {
        let j = choose|j: int| 0 <= j < v.len() && v[j].stream@ == k;
        assert(series_ok(v[j]));
        lemma_store_map_at(v, j);
        lemma_ordered_series_of(models(v[j].candles@));
    } else {
        assert(!store@.contains_key(k));
        lemma_series_map_empty();
    }
}

/// Every candle of a well-formed store is valid and stored under its own
/// identity.
pub proof fn law_stored_candles_are_valid(store: &CandleStore, k: StreamKey, t: i64)
    requires
        store.well_formed(),
        store@.contains_key(k),
        store@[k].contains_key(t),
    ensures
        store@[k][t].key() == k,
        store@[k][t].timestamp == t,
        candle_check(store@[k][t]) is Ok,
{
    let v = store.series@;
    let j = choose|j: int| 0 <= j < v.len() && v[j].stream@ == k;
    assert(series_ok(v[j]));
    lemma_store_map_at(v, j);
    let s = models(v[j].candles@);
    assert(has_timestamp(s, t));
    let i = choose|i: int| 0 <= i < s.len() && s[i].timestamp == t;
    lemma_series_map_at(s, i);
    assert(s[i] == v[j].candles@[i]@);
}

/// The inserted, revised and duplicate counts of a batch add up to its
/// length.
pub proof fn law_batch_counts_total(m: StoreModel, s: Seq<CandleModel>)
    ensures
        batch_counts(m, s).0 + batch_counts(m, s).1 + batch_counts(m, s).2 == s.len(),
    decreases s.len(),
{
    if s.len() > 0 {
        law_batch_counts_total(m, s.drop_last());
    }
}

/// A gap of a fixed-size interval opens one interval after the earlier
/// candle and counts every interval opening before the later one.
pub proof fn law_fixed_gap_counts_each_opening(previous: i64, next: i64, d: IntervalModel)
    requires
        d.unit != IntervalUnit::Month,
        interval_check(d) is Ok,
    ensures
        match gap_between(previous, next, d) {
            Ok(Some(g)) => {
                let len = fixed_duration(d)->Ok_0;
                &&& g.previous_timestamp == previous
                &&& g.next_timestamp == next
                &&& g.expected_timestamp == previous + len
                &&& g.missing_candles >= 1
                &&& (g.missing_candles - 1) * len < next - g.expected_timestamp
                &&& next - g.expected_timestamp <= g.missing_candles * len
            },
            Ok(None) => fixed_duration(d) matches Ok(len) && next <= previous + len,
            Err(_) => true,
        },
{
    if let Ok(len) = fixed_duration(d) {
        assert(len > 0) by (nonlinear_arith)
            requires
                len == unit_millis(d.unit) * d.amount,
                unit_millis(d.unit) >= 1000,
                d.amount >= 1,
        ;
        if let Ok(expected) = advance(previous, d) {
            if next > expected {
                let dist = next - expected;
                let q = (dist - 1) / (len as int);
                assert(0 <= q <= dist - 1 && q * len <= dist - 1 && dist - 1 < (q + 1) * len)
                    by (nonlinear_arith)
                    requires
                        dist >= 1,
                        len >= 1,
                        q == (dist - 1) / (len as int),
                ;
                assert(dist <= u64::MAX);
                assert(((1 + q) as u64) == 1 + q);
            }
        }
    }
}

/// How many seconds one unit of a fixed-size interval lasts: a minute is 60
/// seconds, an hour 60 minutes, a day 24 hours and a week 7 days.
pub open spec fn seconds_in(unit: IntervalUnit) -> int {
    match unit {
        IntervalUnit::Second => 1,
        IntervalUnit::Minute => 60,
        IntervalUnit::Hour => 60int * 60,
        IntervalUnit::Day => 24int * 60 * 60,
        IntervalUnit::Week => 7int * 24 * 60 * 60,
        IntervalUnit::Month => 0,
    }
}

/// A fixed-size interval lasts its amount of its unit, in milliseconds, and
/// every such length fits the timestamp range.
pub proof fn law_fixed_interval_length(d: IntervalModel)
    requires
        d.unit != IntervalUnit::Month,
    ensures
        fixed_duration(d) == Ok::<i64, CandleStoreError>(
            (1000 * seconds_in(d.unit) * d.amount) as i64,
        ),
        0 <= 1000 * seconds_in(d.unit) * d.amount <= i64::MAX,
{
    let a = d.amount as int;
    assert(0 <= 604_800_000 * a <= 604_800_000 * 0xFFFF_FFFF) by (nonlinear_arith)
        requires
            0 <= a <= 0xFFFF_FFFF,
    ;
    assert(0 <= unit_millis(d.unit) * a <= 604_800_000 * a) by (nonlinear_arith)
        requires
            0 <= a,
            0 < unit_millis(d.unit) <= 604_800_000,
    ;
    assert(unit_millis(d.unit) == 1000 * seconds_in(d.unit));
    assert(1000 * seconds_in(d.unit) * d.amount == unit_millis(d.unit) * a) by (nonlinear_arith)
        requires
            unit_millis(d.unit) == 1000 * seconds_in(d.unit),
            a == d.amount,
    ;
}

/// Two candles exactly one fixed-size interval apart are contiguous: no gap
/// lies between them.
pub proof fn law_adjacent_openings_form_no_gap(previous: i64, d: IntervalModel)
    requires
        d.unit != IntervalUnit::Month,
        previous + 1000 * seconds_in(d.unit) * d.amount <= i64::MAX,
    ensures
        gap_between(previous, (previous + 1000 * seconds_in(d.unit) * d.amount) as i64, d)
            == Ok::<Option<CandleGap>, CandleStoreError>(None),
{
    law_fixed_interval_length(d);
}

/// After a valid candle is stored, the candle at its identity agrees with it
/// in every field: identity, closed flag, the prices bit for bit and the
/// volume as a number.
pub proof fn law_upsert_stores_every_field(m: StoreModel, c: CandleModel)
    requires
        candle_check(c) is Ok,
    ensures
        ({
            let s = series_of(upserted(m, c), c.key())[c.timestamp];
            &&& s.provider == c.provider
            &&& s.symbol == c.symbol
            &&& s.interval == c.interval
            &&& s.timestamp == c.timestamp
            &&& s.closed == c.closed
            &&& s.open == c.open
            &&& s.high == c.high
            &&& s.low == c.low
            &&& s.close == c.close
            &&& (s.volume == c.volume || (is_zero_value(s.volume) && is_zero_value(c.volume)))
        }),
{
    law_upsert_then_read(m, c);
}

/// A candle that differs from the stored one at its identity in the closed
/// flag or in any price is a revision, never a duplicate.
pub proof fn law_changed_candle_is_a_revision(m: StoreModel, c: CandleModel)
    requires
        candle_check(c) is Ok,
        series_of(m, c.key()).contains_key(c.timestamp),
        ({
            let s = series_of(m, c.key())[c.timestamp];
            ||| s.closed != c.closed
            ||| s.open != c.open
            ||| s.high != c.high
            ||| s.low != c.low
            ||| s.close != c.close
        }),
    ensures
        upsert_outcome(m, c) == UpsertOutcome::Revised,
{
}

} // verus!
