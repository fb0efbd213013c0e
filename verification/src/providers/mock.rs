//! An offline provider backed by an immutable, repeatable sequence of candles.
//!
//! Historical queries are timestamp ordered. Subscriptions keep the
//! fixture order so that revisions, duplicates and out-of-order data can be
//! reproduced.
use vstd::prelude::*;

use core::time::Duration;

use crate::market_data::{
    candle_check, instrument_check, interval_check, request_check, stream_check,
    validation_message, Candle, CandleHistoryRequest, CandleHistoryResponse, CandleModel,
    CandleStream, Instrument, InstrumentModel, IntervalDefinition, IntervalModel, IntervalUnit,
    RequestModel, StreamKey,
};
use crate::provider::ProviderError;
use crate::providers::{instrument_models, usdt_catalog, usdt_instruments};
use crate::series::models;
use crate::text::{joined, same_text};
use crate::time_sort::{
    at_time, is_time_sort_of, keep_latest, lemma_time_sorted, lemma_time_sorted_exists,
    retain_latest, sort_by_time,
    time_ordered, time_sorted,
};

verus! {

pub const MOCK_PROVIDER_ID: &'static str = "mock";

pub open spec fn interval_models(v: Seq<IntervalDefinition>) -> Seq<IntervalModel> {
    v.map_values(|d: IntervalDefinition| d@)
}

pub struct MockReplayProvider {
    instruments: Vec<Instrument>,
    intervals: Vec<IntervalDefinition>,
    replay: Vec<Candle>,
    replay_cadence: Duration,
}

/// The data a mock provider serves.
pub struct MockModel {
    pub instruments: Seq<InstrumentModel>,
    pub intervals: Seq<IntervalModel>,
    pub replay: Seq<CandleModel>,
    pub replay_cadence: Duration,
}

impl View for MockReplayProvider {
    type V = MockModel;

    closed spec fn view(&self) -> MockModel {
        MockModel {
            instruments: instrument_models(self.instruments@),
            intervals: interval_models(self.intervals@),
            replay: models(self.replay@),
            replay_cadence: self.replay_cadence,
        }
    }
}

pub open spec fn knows_symbol(instruments: Seq<InstrumentModel>, symbol: Seq<char>) -> bool {
    exists|j: int| 0 <= j < instruments.len() && instruments[j].symbol == symbol
}

pub open spec fn knows_interval(intervals: Seq<IntervalModel>, id: Seq<char>) -> bool {
    exists|j: int| 0 <= j < intervals.len() && intervals[j].id == id
}

/// The problem of the instrument at `i`, given the ones before it.
pub open spec fn instrument_problem(instruments: Seq<InstrumentModel>, i: int) -> Option<Seq<char>> {
    let instrument = instruments[i];
    match instrument_check(instrument) {
        Err(e) => Some(validation_message(e)),
        Ok(_) => if instrument.provider != MOCK_PROVIDER_ID@ {
            Some(
                "instrument "@ + instrument.symbol + " belongs to provider "@
                    + instrument.provider,
            )
        } else if knows_symbol(instruments.take(i), instrument.symbol) {
            Some("duplicate instrument "@ + instrument.symbol)
        } else {
            None
        },
    }
}

pub open spec fn interval_problem(intervals: Seq<IntervalModel>, i: int) -> Option<Seq<char>> {
    let interval = intervals[i];
    match interval_check(interval) {
        Err(e) => Some(validation_message(e)),
        Ok(_) => if knows_interval(intervals.take(i), interval.id) {
            Some("duplicate interval "@ + interval.id)
        } else {
            None
        },
    }
}

pub open spec fn candle_problem(
    instruments: Seq<InstrumentModel>,
    intervals: Seq<IntervalModel>,
    candle: CandleModel,
) -> Option<Seq<char>> {
    match candle_check(candle) {
        Err(e) => Some(validation_message(e)),
        Ok(_) => if candle.provider != MOCK_PROVIDER_ID@ {
            Some("candle belongs to provider "@ + candle.provider)
        } else if !knows_symbol(instruments, candle.symbol) {
            Some("candle uses unknown symbol "@ + candle.symbol)
        } else if !knows_interval(intervals, candle.interval) {
            Some("candle uses unknown interval "@ + candle.interval)
        } else {
            None
        },
    }
}

/// The first problem among the first `n` instruments.
pub open spec fn first_instrument_problem(instruments: Seq<InstrumentModel>, n: int) -> Option<
    Seq<char>,
>
    decreases n,
{
    if n <= 0 {
        None
    } else {
        match first_instrument_problem(instruments, n - 1) {
            Some(m) => Some(m),
            None => instrument_problem(instruments, n - 1),
        }
    }
}

pub open spec fn first_interval_problem(intervals: Seq<IntervalModel>, n: int) -> Option<Seq<char>>
    decreases n,
{
    if n <= 0 {
        None
    } else {
        match first_interval_problem(intervals, n - 1) {
            Some(m) => Some(m),
            None => interval_problem(intervals, n - 1),
        }
    }
}

pub open spec fn first_candle_problem(
    instruments: Seq<InstrumentModel>,
    intervals: Seq<IntervalModel>,
    replay: Seq<CandleModel>,
    n: int,
) -> Option<Seq<char>>
    decreases n,
{
    if n <= 0 {
        None
    } else {
        match first_candle_problem(instruments, intervals, replay, n - 1) {
            Some(m) => Some(m),
            None => candle_problem(instruments, intervals, replay[n - 1]),
        }
    }
}

/// Why a fixture cannot back a mock provider, if it cannot.
pub open spec fn fixture_problem(
    instruments: Seq<InstrumentModel>,
    intervals: Seq<IntervalModel>,
    replay: Seq<CandleModel>,
) -> Option<Seq<char>> {
    if instruments.len() == 0 {
        Some("at least one instrument is required"@)
    } else if intervals.len() == 0 {
        Some("at least one interval is required"@)
    } else {
        match first_instrument_problem(instruments, instruments.len() as int) {
            Some(m) => Some(m),
            None => match first_interval_problem(intervals, intervals.len() as int) {
                Some(m) => Some(m),
                None => first_candle_problem(instruments, intervals, replay, replay.len() as int),
            },
        }
    }
}

/// The fixture candles a history request selects: its symbol and interval,
/// within the inclusive time bounds.
pub open spec fn in_request(r: RequestModel) -> spec_fn(CandleModel) -> bool {
    |c: CandleModel|
        c.symbol == r.symbol && c.interval == r.interval && (match r.start_timestamp {
            Some(start) => c.timestamp >= start,
            None => true,
        }) && (match r.end_timestamp {
            Some(end) => c.timestamp <= end,
            None => true,
        })
}

/// The answer to a history request: the selected fixture candles in stable
/// time order, cut to the newest `limit` of them.
pub open spec fn history_of(replay: Seq<CandleModel>, q: RequestModel) -> Seq<CandleModel> {
    keep_latest(time_sorted(replay.filter(in_request(q))), q.limit)
}

/// The fixture candles of one stream's symbol and interval.
pub open spec fn in_stream(k: StreamKey) -> spec_fn(CandleModel) -> bool {
    |c: CandleModel| c.symbol == k.1 && c.interval == k.2
}

/// Whether a result succeeded, and its error otherwise.
pub open spec fn outcome_of<T>(r: Result<T, ProviderError>) -> Result<(), ProviderError> {
    match r {
        Ok(_) => Ok(()),
        Err(e) => Err(e),
    }
}

/// The verdict on a stream before any data is read.
pub open spec fn stream_verdict(m: MockModel, k: StreamKey, r: Result<(), ProviderError>) -> bool {
    match stream_check(k.0, k.1, k.2) {
        Err(e) => r == Err::<(), ProviderError>(ProviderError::InvalidRequest(e)),
        Ok(_) => if k.0 != MOCK_PROVIDER_ID@ {
            r matches Err(ProviderError::UnknownProvider(p)) && p@ == k.0
        } else if !knows_symbol(m.instruments, k.1) {
            r matches Err(ProviderError::UnknownSymbol(s)) && s@ == k.1
        } else if !knows_interval(m.intervals, k.2) {
            r matches Err(ProviderError::UnknownInterval(i)) && i@ == k.2
        } else {
            r is Ok
        },
    }
}

fn invalid_fixture(message: String) -> (r: ProviderError)
    ensures
        r == ProviderError::InvalidFixture(message),
{
    ProviderError::InvalidFixture(message)
}

pub(crate) fn symbol_known(instruments: &Vec<Instrument>, n: usize, symbol: &str) -> (r: bool)
    requires
        n <= instruments@.len(),
    ensures
        r == knows_symbol(instrument_models(instruments@).take(n as int), symbol@),
{
    let ghost ms = instrument_models(instruments@).take(n as int);
    let mut j: usize = 0;
    while j < n
        invariant
            j <= n <= instruments@.len(),
            ms == instrument_models(instruments@).take(n as int),
            forall|k: int| 0 <= k < j ==> ms[k].symbol != symbol@,
        decreases n - j,
    {
        proof {
            assert(ms[j as int] == instruments@[j as int]@);
        }
        if same_text(instruments[j].symbol.as_str(), symbol) {
            return true;
        }
        j = j + 1;
    }
    false
}

pub(crate) fn interval_known(intervals: &Vec<IntervalDefinition>, n: usize, id: &str) -> (r: bool)
    requires
        n <= intervals@.len(),
    ensures
        r == knows_interval(interval_models(intervals@).take(n as int), id@),
{
    let ghost ms = interval_models(intervals@).take(n as int);
    let mut j: usize = 0;
    while j < n
        invariant
            j <= n <= intervals@.len(),
            ms == interval_models(intervals@).take(n as int),
            forall|k: int| 0 <= k < j ==> ms[k].id != id@,
        decreases n - j,
    {
        proof {
            assert(ms[j as int] == intervals@[j as int]@);
        }
        if same_text(intervals[j].id.as_str(), id) {
            return true;
        }
        j = j + 1;
    }
    false
}

fn validate_fixture(
    instruments: &Vec<Instrument>,
    intervals: &Vec<IntervalDefinition>,
    replay: &Vec<Candle>,
) -> (r: Result<(), ProviderError>)
    ensures
        match fixture_problem(
            instrument_models(instruments@),
            interval_models(intervals@),
            models(replay@),
        ) {
            Some(m) => r matches Err(ProviderError::InvalidFixture(text)) && text@ == m,
            None => r is Ok,
        },
{
    let ghost ins = instrument_models(instruments@);
    let ghost ivs = interval_models(intervals@);
    let ghost cs = models(replay@);
    if instruments.len() == 0 {
        return Err(invalid_fixture(String::from_str("at least one instrument is required")));
    }
    if intervals.len() == 0 {
        return Err(invalid_fixture(String::from_str("at least one interval is required")));
    }
    let mut i: usize = 0;
    while i < instruments.len()
        invariant
            i <= instruments@.len(),
            ins == instrument_models(instruments@),
            ivs == interval_models(intervals@),
            cs == models(replay@),
            ins.len() > 0,
            ivs.len() > 0,
            first_instrument_problem(ins, i as int) is None,
        decreases instruments@.len() - i,
    {
        let instrument = &instruments[i];
        proof {
            assert(ins[i as int] == instrument@);
            assert(ins.take(i as int) == instrument_models(instruments@).take(i as int));
        }
        match instrument.validate() {
            Err(e) => {
                proof {
                    lemma_instrument_problem_sticks(ins, i as int + 1, ins.len() as int);
                }
                return Err(invalid_fixture(e.describe()));
            },
            Ok(()) => {},
        }
        if !same_text(instrument.provider.as_str(), MOCK_PROVIDER_ID) {
            let mut message = joined("instrument ", instrument.symbol.as_str());
            message.append(" belongs to provider ");
            message.append(instrument.provider.as_str());
            proof {
                lemma_instrument_problem_sticks(ins, i as int + 1, ins.len() as int);
            }
            return Err(invalid_fixture(message));
        }
        if symbol_known(instruments, i, instrument.symbol.as_str()) {
            proof {
                lemma_instrument_problem_sticks(ins, i as int + 1, ins.len() as int);
            }
            return Err(
                invalid_fixture(joined("duplicate instrument ", instrument.symbol.as_str())),
            );
        }
        i = i + 1;
    }
    let mut i: usize = 0;
    while i < intervals.len()
        invariant
            i <= intervals@.len(),
            ins == instrument_models(instruments@),
            ivs == interval_models(intervals@),
            cs == models(replay@),
            first_instrument_problem(ins, ins.len() as int) is None,
            first_interval_problem(ivs, i as int) is None,
            ins.len() > 0,
            ivs.len() > 0,
        decreases intervals@.len() - i,
    {
        let interval = &intervals[i];
        proof {
            assert(ivs[i as int] == interval@);
        }
        match interval.validate() {
            Err(e) => {
                proof {
                    lemma_interval_problem_sticks(ivs, i as int + 1, ivs.len() as int);
                }
                return Err(invalid_fixture(e.describe()));
            },
            Ok(()) => {},
        }
        if interval_known(intervals, i, interval.id.as_str()) {
            proof {
                lemma_interval_problem_sticks(ivs, i as int + 1, ivs.len() as int);
            }
            return Err(invalid_fixture(joined("duplicate interval ", interval.id.as_str())));
        }
        i = i + 1;
    }
    let mut i: usize = 0;
    while i < replay.len()
        invariant
            i <= replay@.len(),
            ins == instrument_models(instruments@),
            ivs == interval_models(intervals@),
            cs == models(replay@),
            first_instrument_problem(ins, ins.len() as int) is None,
            first_interval_problem(ivs, ivs.len() as int) is None,
            first_candle_problem(ins, ivs, cs, i as int) is None,
            ins.len() > 0,
            ivs.len() > 0,
        decreases replay@.len() - i,
    {
        let candle = &replay[i];
        proof {
            assert(cs[i as int] == candle@);
            assert(ins.take(ins.len() as int) =~= ins);
            assert(ivs.take(ivs.len() as int) =~= ivs);
        }
        match candle.validate() {
            Err(e) => {
                proof {
                    lemma_candle_problem_sticks(ins, ivs, cs, i as int + 1, cs.len() as int);
                }
                return Err(invalid_fixture(e.describe()));
            },
            Ok(()) => {},
        }
        if !same_text(candle.provider.as_str(), MOCK_PROVIDER_ID) {
            proof {
                lemma_candle_problem_sticks(ins, ivs, cs, i as int + 1, cs.len() as int);
            }
            return Err(
                invalid_fixture(joined("candle belongs to provider ", candle.provider.as_str())),
            );
        }
        if !symbol_known(instruments, instruments.len(), candle.symbol.as_str()) {
            proof {
                lemma_candle_problem_sticks(ins, ivs, cs, i as int + 1, cs.len() as int);
            }
            return Err(
                invalid_fixture(joined("candle uses unknown symbol ", candle.symbol.as_str())),
            );
        }
        if !interval_known(intervals, intervals.len(), candle.interval.as_str()) {
            proof {
                lemma_candle_problem_sticks(ins, ivs, cs, i as int + 1, cs.len() as int);
            }
            return Err(
                invalid_fixture(
                    joined("candle uses unknown interval ", candle.interval.as_str()),
                ),
            );
        }
        i = i + 1;
    }
    Ok(())
}

proof fn lemma_instrument_problem_sticks(s: Seq<InstrumentModel>, k: int, n: int)
    requires
        1 <= k <= n,
        first_instrument_problem(s, k - 1) is None,
        instrument_problem(s, k - 1) is Some,
    ensures
        first_instrument_problem(s, n) == instrument_problem(s, k - 1),
    decreases n - k,
{
    if n > k {
        lemma_instrument_problem_sticks(s, k, n - 1);
    }
}

proof fn lemma_interval_problem_sticks(s: Seq<IntervalModel>, k: int, n: int)
    requires
        1 <= k <= n,
        first_interval_problem(s, k - 1) is None,
        interval_problem(s, k - 1) is Some,
    ensures
        first_interval_problem(s, n) == interval_problem(s, k - 1),
    decreases n - k,
{
    if n > k {
        lemma_interval_problem_sticks(s, k, n - 1);
    }
}

proof fn lemma_candle_problem_sticks(
    ins: Seq<InstrumentModel>,
    ivs: Seq<IntervalModel>,
    s: Seq<CandleModel>,
    k: int,
    n: int,
)
    requires
        1 <= k <= n,
        first_candle_problem(ins, ivs, s, k - 1) is None,
        candle_problem(ins, ivs, s[k - 1]) is Some,
    ensures
        first_candle_problem(ins, ivs, s, n) == candle_problem(ins, ivs, s[k - 1]),
    decreases n - k,
{
    if n > k {
        lemma_candle_problem_sticks(ins, ivs, s, k, n - 1);
    }
}

/// Clones the candles of `replay` that `keep` selects, in order.
fn select(replay: &Vec<Candle>, stream: &CandleStream, request: Option<&CandleHistoryRequest>) -> (r: Vec<Candle>)
    ensures
        match request {
            Some(q) => models(r@) == models(replay@).filter(in_request(q@)),
            None => models(r@) == models(replay@).filter(in_stream(stream@)),
        },
{
    let ghost pred = match request {
        Some(q) => in_request(q@),
        None => in_stream(stream@),
    };
    let mut out: Vec<Candle> = Vec::new();
    let mut i: usize = 0;
    proof {
        assert(models(replay@).take(0) =~= Seq::<CandleModel>::empty());
        reveal(Seq::filter);
        assert(models(out@) =~= Seq::<CandleModel>::empty().filter(pred));
    }
    while i < replay.len()
        invariant
            i <= replay@.len(),
            pred == (match request {
                Some(q) => in_request(q@),
                None => in_stream(stream@),
            }),
            models(out@) == models(replay@).take(i as int).filter(pred),
        decreases replay@.len() - i,
    {
        let candle = &replay[i];
        let selected = match request {
            Some(q) => {
                same_text(candle.symbol.as_str(), q.symbol.as_str()) && same_text(
                    candle.interval.as_str(),
                    q.interval.as_str(),
                ) && match q.start_timestamp {
                    Some(start) => candle.timestamp >= start,
                    None => true,
                } && match q.end_timestamp {
                    Some(end) => candle.timestamp <= end,
                    None => true,
                }
            },
            None => same_text(candle.symbol.as_str(), stream.symbol.as_str()) && same_text(
                candle.interval.as_str(),
                stream.interval.as_str(),
            ),
        };
        proof {
            assert(models(replay@)[i as int] == candle@);
            assert(selected == pred(candle@));
            assert(models(replay@).take(i + 1) =~= models(replay@).take(i as int).push(candle@));
            models(replay@).take(i as int).lemma_filter_push(candle@, pred);
        }
        if selected {
            let ghost before = out@;
            let copy = candle.clone();
            out.push(copy);
            proof {
                assert(models(out@) =~= models(before).push(copy@));
            }
        }
        i = i + 1;
    }
    proof {
        assert(models(replay@).take(replay@.len() as int) =~= models(replay@));
    }
    out
}

impl MockReplayProvider {
    pub fn new(
        instruments: Vec<Instrument>,
        intervals: Vec<IntervalDefinition>,
        replay: Vec<Candle>,
        replay_cadence: Duration,
    ) -> (r: Result<Self, ProviderError>)
        ensures
            match fixture_problem(
                instrument_models(instruments@),
                interval_models(intervals@),
                models(replay@),
            ) {
                Some(m) => r matches Err(ProviderError::InvalidFixture(text)) && text@ == m,
                None => r matches Ok(p) && p@ == (MockModel {
                    instruments: instrument_models(instruments@),
                    intervals: interval_models(intervals@),
                    replay: models(replay@),
                    replay_cadence,
                }),
            },
    {
        validate_fixture(&instruments, &intervals, &replay)?;
        Ok(MockReplayProvider { instruments, intervals, replay, replay_cadence })
    }

    /// The pause between two replayed candles.
    pub fn replay_cadence(&self) -> (r: Duration)
        ensures
            r == self@.replay_cadence,
    {
        self.replay_cadence
    }

    pub fn id(&self) -> (r: &'static str)
        ensures
            r@ == MOCK_PROVIDER_ID@,
    {
        MOCK_PROVIDER_ID
    }

    pub fn list_symbols(&self) -> (r: Result<Vec<Instrument>, ProviderError>)
        ensures
            r matches Ok(v) && instrument_models(v@) == self@.instruments,
    {
        let mut out: Vec<Instrument> = Vec::new();
        let mut i: usize = 0;
        while i < self.instruments.len()
            invariant
                i <= self.instruments@.len(),
                out@.len() == i,
                instrument_models(out@) == instrument_models(self.instruments@).take(i as int),
            decreases self.instruments@.len() - i,
        {
            let ghost before = out@;
            let copy = self.instruments[i].clone();
            out.push(copy);
            proof {
                assert(instrument_models(out@) =~= instrument_models(self.instruments@).take(
                    i + 1,
                )) by {
                    assert(instrument_models(self.instruments@)[i as int]
                        == self.instruments@[i as int]@);
                    assert forall|k: int| 0 <= k < i implies instrument_models(out@)[k]
                        == instrument_models(before)[k] by {
                        assert(out@[k] == before[k]);
                    }
                }
            }
            i = i + 1;
        }
        proof {
            assert(instrument_models(self.instruments@).take(self.instruments@.len() as int)
                =~= instrument_models(self.instruments@));
        }
        Ok(out)
    }

    pub fn list_intervals(&self) -> (r: Result<Vec<IntervalDefinition>, ProviderError>)
        ensures
            r matches Ok(v) && interval_models(v@) == self@.intervals,
    {
        let mut out: Vec<IntervalDefinition> = Vec::new();
        let mut i: usize = 0;
        while i < self.intervals.len()
            invariant
                i <= self.intervals@.len(),
                out@.len() == i,
                interval_models(out@) == interval_models(self.intervals@).take(i as int),
            decreases self.intervals@.len() - i,
        {
            let ghost before = out@;
            let copy = self.intervals[i].clone();
            out.push(copy);
            proof {
                assert(interval_models(out@) =~= interval_models(self.intervals@).take(i + 1))
                    by {
                    assert(interval_models(self.intervals@)[i as int] == self.intervals@[i as int]@);
                    assert forall|k: int| 0 <= k < i implies interval_models(out@)[k]
                        == interval_models(before)[k] by {
                        assert(out@[k] == before[k]);
                    }
                }
            }
            i = i + 1;
        }
        proof {
            assert(interval_models(self.intervals@).take(self.intervals@.len() as int)
                =~= interval_models(self.intervals@));
        }
        Ok(out)
    }

    fn validate_stream(&self, stream: &CandleStream) -> (r: Result<(), ProviderError>)
        ensures
            stream_verdict(self@, stream@, r),
    {
        match stream.validate() {
            Err(e) => {
                return Err(ProviderError::InvalidRequest(e));
            },
            Ok(()) => {},
        }
        if !same_text(stream.provider.as_str(), MOCK_PROVIDER_ID) {
            return Err(ProviderError::UnknownProvider(stream.provider.clone()));
        }
        if !symbol_known(&self.instruments, self.instruments.len(), stream.symbol.as_str()) {
            proof {
                assert(instrument_models(self.instruments@).take(self.instruments@.len() as int)
                    =~= self@.instruments);
            }
            return Err(ProviderError::UnknownSymbol(stream.symbol.clone()));
        }
        if !interval_known(&self.intervals, self.intervals.len(), stream.interval.as_str()) {
            proof {
                assert(interval_models(self.intervals@).take(self.intervals@.len() as int)
                    =~= self@.intervals);
            }
            return Err(ProviderError::UnknownInterval(stream.interval.clone()));
        }
        proof {
            assert(instrument_models(self.instruments@).take(self.instruments@.len() as int)
                =~= self@.instruments);
            assert(interval_models(self.intervals@).take(self.intervals@.len() as int)
                =~= self@.intervals);
        }
        Ok(())
    }

    /// Historical candles of one series: ordered by opening time, within the
    /// inclusive bounds, and only the newest `limit` of them when a limit is
    /// given.
    pub fn get_candles(&self, request: &CandleHistoryRequest) -> (r: Result<
        CandleHistoryResponse,
        ProviderError,
    >)
        ensures
            match request_check(request@) {
                Err(e) => r == Err::<CandleHistoryResponse, ProviderError>(
                    ProviderError::InvalidRequest(e),
                ),
                Ok(_) => {
                    let k = (request@.provider, request@.symbol, request@.interval);
                    &&& stream_verdict(self@, k, outcome_of(r))
                    &&& r matches Ok(response) ==> models(response.candles@) == history_of(
                        self@.replay,
                        request@,
                    )
                },
            },
    {
        match request.validate() {
            Err(e) => {
                return Err(ProviderError::InvalidRequest(e));
            },
            Ok(()) => {},
        }
        let stream = request.stream();
        match self.validate_stream(&stream) {
            Err(e) => {
                return Err(e);
            },
            Ok(()) => {},
        }
        let selected = select(&self.replay, &stream, Some(request));
        let mut candles = sort_by_time(&selected);
        proof {
            lemma_time_sorted(models(candles@), self@.replay.filter(in_request(request@)));
        }
        retain_latest(&mut candles, request.limit);
        Ok(CandleHistoryResponse { candles })
    }

    /// The fixture candles of one stream in fixture order, which a
    /// subscription emits one by one.
    pub fn subscription_replay(&self, stream: &CandleStream) -> (r: Result<
        Vec<Candle>,
        ProviderError,
    >)
        ensures
            stream_verdict(self@, stream@, outcome_of(r)),
            r matches Ok(v) ==> models(v@) == self@.replay.filter(in_stream(stream@)),
    {
        match self.validate_stream(stream) {
            Err(e) => {
                return Err(e);
            },
            Ok(()) => {},
        }
        Ok(select(&self.replay, stream, None))
    }
}

/// The instruments of the offline catalog.
pub fn sample_instruments() -> (r: Vec<Instrument>)
    ensures
        instrument_models(r@) == usdt_catalog(MOCK_PROVIDER_ID@),
{
    usdt_instruments(MOCK_PROVIDER_ID)
}

/// The intervals of the offline catalog.
pub open spec fn sample_interval_models() -> Seq<IntervalModel> {
    seq![
        IntervalModel { id: "1m"@, label: "1 minute"@, amount: 1, unit: IntervalUnit::Minute },
        IntervalModel { id: "5m"@, label: "5 minutes"@, amount: 5, unit: IntervalUnit::Minute },
        IntervalModel { id: "1h"@, label: "1 hour"@, amount: 1, unit: IntervalUnit::Hour },
        IntervalModel { id: "1d"@, label: "1 day"@, amount: 1, unit: IntervalUnit::Day },
    ]
}

fn interval_definition(id: &str, label: &str, amount: u32, unit: IntervalUnit) -> (r:
    IntervalDefinition)
    ensures
        r@ == (IntervalModel { id: id@, label: label@, amount, unit }),
{
    IntervalDefinition { id: String::from_str(id), label: String::from_str(label), amount, unit }
}

pub fn sample_intervals() -> (r: Vec<IntervalDefinition>)
    ensures
        interval_models(r@) == sample_interval_models(),
{
    let mut out: Vec<IntervalDefinition> = Vec::new();
    out.push(interval_definition("1m", "1 minute", 1, IntervalUnit::Minute));
    out.push(interval_definition("5m", "5 minutes", 5, IntervalUnit::Minute));
    out.push(interval_definition("1h", "1 hour", 1, IntervalUnit::Hour));
    out.push(interval_definition("1d", "1 day", 1, IntervalUnit::Day));
    assert(interval_models(out@) =~= sample_interval_models());
    out
}

/// A history answer is ordered by opening time, holds only fixture candles of
/// the requested symbol and interval within the inclusive bounds, keeps the
/// newest of them, and has at most `limit` candles.
pub proof fn law_history_window(replay: Seq<CandleModel>, q: RequestModel)
    ensures
        time_ordered(history_of(replay, q)),
        forall|i: int|
            0 <= i < history_of(replay, q).len() ==> #[trigger] in_request(q)(
                history_of(replay, q)[i],
            ) && replay.contains(history_of(replay, q)[i]),
        forall|i: int|
            0 <= i < history_of(replay, q).len() ==> {
                let c = #[trigger] history_of(replay, q)[i];
                &&& c.symbol == q.symbol
                &&& c.interval == q.interval
                &&& q.start_timestamp matches Some(start) ==> c.timestamp >= start
                &&& q.end_timestamp matches Some(end) ==> c.timestamp <= end
            },
        q.limit matches Some(n) ==> history_of(replay, q).len() <= n,
        history_of(replay, q) == time_sorted(replay.filter(in_request(q))).subrange(
            time_sorted(replay.filter(in_request(q))).len() - history_of(replay, q).len(),
            time_sorted(replay.filter(in_request(q))).len() as int,
        ),
{
    let selected = replay.filter(in_request(q));
    lemma_time_sorted_exists(selected);
    let sorted = time_sorted(selected);
    let h = history_of(replay, q);
    assert forall|i: int| 0 <= i < h.len() implies #[trigger] in_request(q)(h[i]) && replay.contains(
        h[i],
    ) by {
        let k = sorted.len() - h.len() + i;
        assert(h[i] == sorted[k]);
        let x = sorted[k];
        sorted.lemma_filter_contains(at_time(x.timestamp), k);
        assert(sorted.filter(at_time(x.timestamp)) == selected.filter(at_time(x.timestamp)));
        selected.lemma_filter_contains_rev(at_time(x.timestamp), x);
        let j = choose|j: int| 0 <= j < selected.len() && selected[j] == x;
        replay.lemma_filter_pred(in_request(q), j);
        replay.lemma_filter_contains_rev(in_request(q), x);
    }
    assert forall|i: int| 0 <= i < h.len() implies {
        let c = #[trigger] h[i];
        &&& c.symbol == q.symbol
        &&& c.interval == q.interval
        &&& q.start_timestamp matches Some(start) ==> c.timestamp >= start
        &&& q.end_timestamp matches Some(end) ==> c.timestamp <= end
    } by {
        assert(in_request(q)(h[i]));
    }
    assert(sorted.subrange(0, sorted.len() as int) =~= sorted);
}

/// A replay emits only fixture candles of the stream's symbol and interval,
/// and every such fixture candle, in fixture order.
pub proof fn law_replay_is_the_stream(replay: Seq<CandleModel>, k: StreamKey)
    ensures
        forall|i: int|
            0 <= i < replay.filter(in_stream(k)).len() ==> {
                let c = #[trigger] replay.filter(in_stream(k))[i];
                &&& c.symbol == k.1
                &&& c.interval == k.2
                &&& replay.contains(c)
            },
        forall|i: int|
            0 <= i < replay.len() && replay[i].symbol == k.1 && replay[i].interval == k.2
                ==> replay.filter(in_stream(k)).contains(#[trigger] replay[i]),
{
    assert forall|i: int| 0 <= i < replay.filter(in_stream(k)).len() implies {
        let c = #[trigger] replay.filter(in_stream(k))[i];
        &&& c.symbol == k.1
        &&& c.interval == k.2
        &&& replay.contains(c)
    } by {
        let c = replay.filter(in_stream(k))[i];
        replay.lemma_filter_pred(in_stream(k), i);
        assert(replay.filter(in_stream(k)).contains(c));
        replay.lemma_filter_contains_rev(in_stream(k), c);
    }
    assert forall|i: int|
        0 <= i < replay.len() && replay[i].symbol == k.1 && replay[i].interval == k.2 implies replay.filter(
        in_stream(k),
    ).contains(#[trigger] replay[i]) by {
        replay.lemma_filter_contains(in_stream(k), i);
    }
}

proof fn lemma_no_candle_problem(
    instruments: Seq<InstrumentModel>,
    intervals: Seq<IntervalModel>,
    replay: Seq<CandleModel>,
    n: int,
    i: int,
)
    requires
        first_candle_problem(instruments, intervals, replay, n) is None,
        0 <= i < n,
    ensures
        candle_problem(instruments, intervals, replay[i]) is None,
    decreases n,
{
    if i < n - 1 {
        lemma_no_candle_problem(instruments, intervals, replay, n - 1, i);
    }
}

/// Every candle of an accepted fixture is valid, belongs to the mock
/// provider and uses one of the fixture's instruments and intervals.
pub proof fn law_accepted_fixture_is_consistent(
    instruments: Seq<InstrumentModel>,
    intervals: Seq<IntervalModel>,
    replay: Seq<CandleModel>,
    i: int,
)
    requires
        fixture_problem(instruments, intervals, replay) is None,
        0 <= i < replay.len(),
    ensures
        candle_check(replay[i]) is Ok,
        replay[i].provider == MOCK_PROVIDER_ID@,
        knows_symbol(instruments, replay[i].symbol),
        knows_interval(intervals, replay[i].interval),
{
    lemma_no_candle_problem(instruments, intervals, replay, replay.len() as int, i);
}

} // verus!
