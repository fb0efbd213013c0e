//! The Binance Spot adapter: public market-data-only klines, normalized at
//! the provider boundary so that no Binance payload type leaves it.
use vstd::prelude::*;

use core::time::Duration;
use std::time::{SystemTime, UNIX_EPOCH};

use crate::market_data::{
    candle_check, request_check, validation_message, Candle, CandleHistoryRequest, CandleModel,
    Instrument, IntervalDefinition, IntervalModel, IntervalUnit, RequestModel,
};
use crate::provider::ProviderError;
use crate::providers::mock::{
    interval_known, interval_models, knows_interval, knows_symbol, symbol_known,
};
use crate::providers::{instrument_models, usdt_catalog, usdt_instruments};
use crate::series::models;
use crate::text::{decimal_digits, decimal_text, i64_text, joined, same_text, u64_text};
use crate::time_sort::{at_time, is_time_sort_of, sort_by_time};

verus! {

pub const BINANCE_PROVIDER_ID: &'static str = "binance";

pub const BINANCE_MARKET_DATA_BASE_URL: &'static str = "https://data-api.binance.vision";

/// The largest number of klines Binance returns for one request.
pub const BINANCE_KLINE_LIMIT: u32 = 1000;

/// Seconds the HTTP client waits for a connection.
pub const CONNECT_TIMEOUT_SECONDS: u64 = 5;

/// Seconds the HTTP client waits for a whole request.
pub const REQUEST_TIMEOUT_SECONDS: u64 = 12;

/// The `User-Agent` the adapter sends.
pub const USER_AGENT: &'static str = "stocksman/0.1.0";

/// Error texts quoted from Binance are cut to this many characters.
pub const RESPONSE_MESSAGE_LIMIT: usize = 240;

#[verifier::external_type_specification]
#[verifier::external_body]
pub struct ExHttpClient(reqwest::Client);

#[verifier::external_type_specification]
#[verifier::external_body]
pub struct ExHttpError(reqwest::Error);

/// Builds a `reqwest::Client` with `reqwest::ClientBuilder::build`, using
/// the given connect timeout, overall timeout and user agent. Whether it
/// succeeds depends on the machine (TLS set-up), so nothing is stated of
/// the result.
#[verifier::external_body]
fn build_http_client(connect_timeout_seconds: u64, timeout_seconds: u64, user_agent: &str) -> (r:
    Result<reqwest::Client, reqwest::Error>) {
    reqwest::Client::builder().connect_timeout(Duration::from_secs(connect_timeout_seconds)).timeout(
        Duration::from_secs(timeout_seconds),
    ).user_agent(user_agent).build()
}

/// The `Display` text of a `reqwest::Error`; nothing is stated of it.
#[verifier::external_body]
fn http_error_text(error: &reqwest::Error) -> (r: String) {
    error.to_string()
}

/// Milliseconds since the Unix epoch by the system clock
/// (`SystemTime::now().duration_since(UNIX_EPOCH)` and `Duration::as_millis`);
/// `None` when the clock is before the epoch. It depends on the time, so
/// nothing is stated of it.
#[verifier::external_body]
fn system_clock_millis() -> (r: Option<u128>) {
    SystemTime::now().duration_since(UNIX_EPOCH).ok().map(|elapsed| elapsed.as_millis())
}

/// The current UTC time in milliseconds, saturated to the `i64` range and 0
/// before the epoch.
pub fn current_utc_millis() -> (r: i64)
    ensures
        r >= 0,
{
    utc_millis_from_clock(system_clock_millis())
}

/// Milliseconds since the epoch as an `i64`: 0 when the clock reads before
/// the epoch, saturated at `i64::MAX`.
pub open spec fn clock_reading(elapsed: Option<u128>) -> i64 {
    match elapsed {
        None => 0,
        Some(millis) => if millis <= i64::MAX {
            millis as i64
        } else {
            i64::MAX
        },
    }
}

/// Turns a system-clock reading into UTC milliseconds.
pub fn utc_millis_from_clock(elapsed: Option<u128>) -> (r: i64)
    ensures
        r == clock_reading(elapsed),
        r >= 0,
{
    match elapsed {
        None => 0,
        Some(millis) => if millis <= 0x7FFF_FFFF_FFFF_FFFFu128 {
            millis as i64
        } else {
            i64::MAX
        },
    }
}

pub struct BinanceSpotProvider {
    client: reqwest::Client,
    base_url: String,
    fixed_clock: Option<i64>,
    connect_timeout_seconds: u64,
    timeout_seconds: u64,
    user_agent: &'static str,
}

/// Where a Binance adapter sends requests and which clock decides whether a
/// kline is closed (`None`: the system clock).
pub struct BinanceModel {
    pub base_url: Seq<char>,
    pub fixed_clock: Option<i64>,
    /// The settings the HTTP client was built with.
    pub connect_timeout_seconds: u64,
    pub timeout_seconds: u64,
    pub user_agent: Seq<char>,
}

impl View for BinanceSpotProvider {
    type V = BinanceModel;

    closed spec fn view(&self) -> BinanceModel {
        BinanceModel {
            base_url: self.base_url@,
            fixed_clock: self.fixed_clock,
            connect_timeout_seconds: self.connect_timeout_seconds,
            timeout_seconds: self.timeout_seconds,
            user_agent: self.user_agent@,
        }
    }
}

/// The klines that the adapter serves.
pub open spec fn binance_interval_models() -> Seq<IntervalModel> {
    seq![
        IntervalModel { id: "1s"@, label: "1 second"@, amount: 1, unit: IntervalUnit::Second },
        IntervalModel { id: "1m"@, label: "1 minute"@, amount: 1, unit: IntervalUnit::Minute },
        IntervalModel { id: "3m"@, label: "3 minutes"@, amount: 3, unit: IntervalUnit::Minute },
        IntervalModel { id: "5m"@, label: "5 minutes"@, amount: 5, unit: IntervalUnit::Minute },
        IntervalModel { id: "15m"@, label: "15 minutes"@, amount: 15, unit: IntervalUnit::Minute },
        IntervalModel { id: "30m"@, label: "30 minutes"@, amount: 30, unit: IntervalUnit::Minute },
        IntervalModel { id: "1h"@, label: "1 hour"@, amount: 1, unit: IntervalUnit::Hour },
        IntervalModel { id: "2h"@, label: "2 hours"@, amount: 2, unit: IntervalUnit::Hour },
        IntervalModel { id: "4h"@, label: "4 hours"@, amount: 4, unit: IntervalUnit::Hour },
        IntervalModel { id: "6h"@, label: "6 hours"@, amount: 6, unit: IntervalUnit::Hour },
        IntervalModel { id: "8h"@, label: "8 hours"@, amount: 8, unit: IntervalUnit::Hour },
        IntervalModel { id: "12h"@, label: "12 hours"@, amount: 12, unit: IntervalUnit::Hour },
        IntervalModel { id: "1d"@, label: "1 day"@, amount: 1, unit: IntervalUnit::Day },
        IntervalModel { id: "3d"@, label: "3 days"@, amount: 3, unit: IntervalUnit::Day },
        IntervalModel { id: "1w"@, label: "1 week"@, amount: 1, unit: IntervalUnit::Week },
        IntervalModel { id: "1M"@, label: "1 month"@, amount: 1, unit: IntervalUnit::Month },
    ]
}

fn interval_definition(id: &str, label: &str, amount: u32, unit: IntervalUnit) -> (r:
    IntervalDefinition)
    ensures
        r@ == (IntervalModel { id: id@, label: label@, amount, unit }),
{
    IntervalDefinition { id: String::from_str(id), label: String::from_str(label), amount, unit }
}

/// Every Binance Spot kline interval.
pub fn supported_intervals() -> (r: Vec<IntervalDefinition>)
    ensures
        interval_models(r@) == binance_interval_models(),
{
    let mut out: Vec<IntervalDefinition> = Vec::new();
    out.push(interval_definition("1s", "1 second", 1, IntervalUnit::Second));
    out.push(interval_definition("1m", "1 minute", 1, IntervalUnit::Minute));
    out.push(interval_definition("3m", "3 minutes", 3, IntervalUnit::Minute));
    out.push(interval_definition("5m", "5 minutes", 5, IntervalUnit::Minute));
    out.push(interval_definition("15m", "15 minutes", 15, IntervalUnit::Minute));
    out.push(interval_definition("30m", "30 minutes", 30, IntervalUnit::Minute));
    out.push(interval_definition("1h", "1 hour", 1, IntervalUnit::Hour));
    out.push(interval_definition("2h", "2 hours", 2, IntervalUnit::Hour));
    out.push(interval_definition("4h", "4 hours", 4, IntervalUnit::Hour));
    out.push(interval_definition("6h", "6 hours", 6, IntervalUnit::Hour));
    out.push(interval_definition("8h", "8 hours", 8, IntervalUnit::Hour));
    out.push(interval_definition("12h", "12 hours", 12, IntervalUnit::Hour));
    out.push(interval_definition("1d", "1 day", 1, IntervalUnit::Day));
    out.push(interval_definition("3d", "3 days", 3, IntervalUnit::Day));
    out.push(interval_definition("1w", "1 week", 1, IntervalUnit::Week));
    out.push(interval_definition("1M", "1 month", 1, IntervalUnit::Month));
    assert(interval_models(out@) =~= binance_interval_models());
    out
}

/// The configured USDT pairs.
pub fn default_instruments() -> (r: Vec<Instrument>)
    ensures
        instrument_models(r@) == usdt_catalog(BINANCE_PROVIDER_ID@),
{
    usdt_instruments(BINANCE_PROVIDER_ID)
}

/// The verdict on a history request before any network access.
pub open spec fn binance_request_verdict(q: RequestModel, r: Result<(), ProviderError>) -> bool {
    match request_check(q) {
        Err(e) => r == Err::<(), ProviderError>(ProviderError::InvalidRequest(e)),
        Ok(_) => if q.provider != BINANCE_PROVIDER_ID@ {
            r matches Err(ProviderError::UnknownProvider(p)) && p@ == q.provider
        } else if !knows_symbol(usdt_catalog(BINANCE_PROVIDER_ID@), q.symbol) {
            r matches Err(ProviderError::UnknownSymbol(s)) && s@ == q.symbol
        } else if !knows_interval(binance_interval_models(), q.interval) {
            r matches Err(ProviderError::UnknownInterval(i)) && i@ == q.interval
        } else if q.limit is Some && q.limit->0 > BINANCE_KLINE_LIMIT {
            r == Err::<(), ProviderError>(
                ProviderError::RequestLimitExceeded {
                    requested: q.limit->0,
                    maximum: BINANCE_KLINE_LIMIT,
                },
            )
        } else {
            r is Ok
        },
    }
}

/// The text of `s` without its trailing `/` characters.
pub open spec fn without_trailing_slashes(s: Seq<char>) -> Seq<char>
    decreases s.len(),
{
    if s.len() > 0 && s.last() == '/' {
        without_trailing_slashes(s.drop_last())
    } else {
        s
    }
}

/// One kline row after its decimal strings were read as binary64 values
/// (`None` where a field is not a decimal number).
#[derive(Clone, Copy, Debug, PartialEq, Eq, Structural)]
pub struct KlineRow {
    pub open_time: i64,
    pub open: Option<u64>,
    pub high: Option<u64>,
    pub low: Option<u64>,
    pub close: Option<u64>,
    pub volume: Option<u64>,
    pub close_time: i64,
}

/// The candle a kline row stands for.
pub open spec fn kline_candle(row: KlineRow, q: RequestModel, now: i64) -> CandleModel {
    CandleModel {
        provider: BINANCE_PROVIDER_ID@,
        symbol: q.symbol,
        interval: q.interval,
        timestamp: row.open_time,
        open: row.open->0,
        high: row.high->0,
        low: row.low->0,
        close: row.close->0,
        volume: row.volume->0,
        closed: row.close_time < now,
    }
}

/// Why a kline row cannot be normalized, if it cannot.
pub open spec fn kline_problem(row: KlineRow, q: RequestModel, now: i64) -> Option<Seq<char>> {
    if row.open is None {
        Some("open is not a finite decimal number"@)
    } else if row.high is None {
        Some("high is not a finite decimal number"@)
    } else if row.low is None {
        Some("low is not a finite decimal number"@)
    } else if row.close is None {
        Some("close is not a finite decimal number"@)
    } else if row.volume is None {
        Some("volume is not a finite decimal number"@)
    } else {
        match candle_check(kline_candle(row, q, now)) {
            Err(e) => Some(validation_message(e)),
            Ok(_) => None,
        }
    }
}

pub open spec fn first_kline_problem(rows: Seq<KlineRow>, q: RequestModel, now: i64, n: int) -> Option<
    Seq<char>,
>
    decreases n,
{
    if n <= 0 {
        None
    } else {
        match first_kline_problem(rows, q, now, n - 1) {
            Some(m) => Some(m),
            None => kline_problem(rows[n - 1], q, now),
        }
    }
}

/// The first `limit` characters of a message.
pub fn truncate_message(message: &str) -> (r: String)
    ensures
        r@ == if message@.len() <= RESPONSE_MESSAGE_LIMIT {
            message@
        } else {
            message@.take(RESPONSE_MESSAGE_LIMIT as int)
        },
{
    let chars = crate::text::chars_of(message);
    let mut out = String::new();
    let mut i: usize = 0;
    while i < chars.len() && i < RESPONSE_MESSAGE_LIMIT
        invariant
            chars@ == message@,
            i <= chars@.len(),
            i <= RESPONSE_MESSAGE_LIMIT,
            out@ == message@.take(i as int),
        decreases chars@.len() - i,
    {
        crate::text::push_char(&mut out, chars[i]);
        proof {
            assert(message@.take(i + 1) =~= message@.take(i as int).push(chars@[i as int]));
        }
        i = i + 1;
    }
    proof {
        if message@.len() <= RESPONSE_MESSAGE_LIMIT {
            assert(message@.take(i as int) =~= message@);
        }
    }
    out
}

/// The error for a non-success HTTP response.
pub fn response_error(status: &str, body: &str, api_error: Option<(i64, String)>) -> (r:
    ProviderError)
    ensures
        match api_error {
            Some((code, message)) => if code == -1120 {
                r == ProviderError::UnknownInterval(message)
            } else if code == -1121 {
                r == ProviderError::UnknownSymbol(message)
            } else {
                r matches ProviderError::InvalidResponse(text) && text@ == "Binance returned HTTP "@
                    + status@ + " ("@ + decimal_text(code as int) + "): "@ + (if message@.len()
                    <= RESPONSE_MESSAGE_LIMIT {
                    message@
                } else {
                    message@.take(RESPONSE_MESSAGE_LIMIT as int)
                })
            },
            None => r matches ProviderError::InvalidResponse(text) && text@
                == "Binance returned HTTP "@ + status@ + ": "@ + (if body@.len()
                <= RESPONSE_MESSAGE_LIMIT {
                body@
            } else {
                body@.take(RESPONSE_MESSAGE_LIMIT as int)
            }),
        },
{
    match api_error {
        Some((code, message)) => {
            if code == -1120 {
                ProviderError::UnknownInterval(message)
            } else if code == -1121 {
                ProviderError::UnknownSymbol(message)
            } else {
                let mut text = joined("Binance returned HTTP ", status);
                text.append(" (");
                let digits = i64_text(code);
                text.append(digits.as_str());
                text.append("): ");
                let quoted = truncate_message(message.as_str());
                text.append(quoted.as_str());
                ProviderError::InvalidResponse(text)
            }
        },
        None => {
            let mut text = joined("Binance returned HTTP ", status);
            text.append(": ");
            let quoted = truncate_message(body);
            text.append(quoted.as_str());
            ProviderError::InvalidResponse(text)
        },
    }
}

/// The rate-limit error for HTTP 429 and 418, with the `Retry-After` seconds
/// when the header holds a number.
pub fn rate_limit_error(status: u16, retry_after: Option<&str>) -> (r: Option<ProviderError>)
    ensures
        if status == 429 || status == 418 {
            r == Some(
                ProviderError::RateLimited {
                    retry_after_seconds: match retry_after {
                        Some(text) => crate::text::parsed_u64(text@),
                        None => None,
                    },
                },
            )
        } else {
            r is None
        },
{
    if status == 429 || status == 418 {
        let retry_after_seconds = match retry_after {
            Some(text) => crate::text::parse_u64(text),
            None => None,
        };
        Some(ProviderError::RateLimited { retry_after_seconds })
    } else {
        None
    }
}

fn normalize_kline(row: KlineRow, request: &CandleHistoryRequest, now_millis: i64) -> (r: Result<
    Candle,
    ProviderError,
>)
    ensures
        match kline_problem(row, request@, now_millis) {
            Some(m) => r matches Err(ProviderError::InvalidResponse(text)) && text@ == m,
            None => r matches Ok(c) && c@ == kline_candle(row, request@, now_millis),
        },
{
    let open = match row.open {
        Some(v) => v,
        None => {
            return Err(
                ProviderError::InvalidResponse(
                    String::from_str("open is not a finite decimal number"),
                ),
            )
        },
    };
    let high = match row.high {
        Some(v) => v,
        None => {
            return Err(
                ProviderError::InvalidResponse(
                    String::from_str("high is not a finite decimal number"),
                ),
            )
        },
    };
    let low = match row.low {
        Some(v) => v,
        None => {
            return Err(
                ProviderError::InvalidResponse(
                    String::from_str("low is not a finite decimal number"),
                ),
            )
        },
    };
    let close = match row.close {
        Some(v) => v,
        None => {
            return Err(
                ProviderError::InvalidResponse(
                    String::from_str("close is not a finite decimal number"),
                ),
            )
        },
    };
    let volume = match row.volume {
        Some(v) => v,
        None => {
            return Err(
                ProviderError::InvalidResponse(
                    String::from_str("volume is not a finite decimal number"),
                ),
            )
        },
    };
    let candle = Candle {
        provider: String::from_str(BINANCE_PROVIDER_ID),
        symbol: request.symbol.clone(),
        interval: request.interval.clone(),
        timestamp: row.open_time,
        open,
        high,
        low,
        close,
        volume,
        closed: row.close_time < now_millis,
    };
    match candle.validate() {
        Err(e) => Err(ProviderError::InvalidResponse(e.describe())),
        Ok(()) => Ok(candle),
    }
}

/// Turns the rows of a successful klines response into canonical candles,
/// ordered by opening time; the first row that cannot be normalized decides
/// the error.
pub fn normalize_klines(rows: &Vec<KlineRow>, request: &CandleHistoryRequest, now_millis: i64) -> (r:
    Result<Vec<Candle>, ProviderError>)
    ensures
        match first_kline_problem(rows@, request@, now_millis, rows@.len() as int) {
            Some(m) => r matches Err(ProviderError::InvalidResponse(text)) && text@ == m,
            None => r matches Ok(v) && is_time_sort_of(
                models(v@),
                rows@.map_values(|row: KlineRow| kline_candle(row, request@, now_millis)),
            ),
        },
{
    let ghost expected = rows@.map_values(|row: KlineRow| kline_candle(row, request@, now_millis));
    let mut candles: Vec<Candle> = Vec::new();
    let mut i: usize = 0;
    while i < rows.len()
        invariant
            i <= rows@.len(),
            expected == rows@.map_values(|row: KlineRow| kline_candle(row, request@, now_millis)),
            first_kline_problem(rows@, request@, now_millis, i as int) is None,
            candles@.len() == i,
            models(candles@) == expected.take(i as int),
        decreases rows@.len() - i,
    {
        match normalize_kline(rows[i], request, now_millis) {
            Err(e) => {
                proof {
                    lemma_kline_problem_sticks(rows@, request@, now_millis, i + 1, rows@.len() as int);
                }
                return Err(e);
            },
            Ok(candle) => {
                let ghost before = candles@;
                candles.push(candle);
                proof {
                    assert(models(candles@) =~= expected.take(i + 1)) by {
                        assert(models(candles@).len() == i + 1);
                        assert forall|k: int| 0 <= k <= i implies #[trigger] models(candles@)[k]
                            == expected.take(i + 1)[k] by {
                            if k < i {
                                assert(candles@[k] == before[k]);
                                assert(models(before)[k] == expected.take(i as int)[k]);
                            }
                        }
                    }
                }
            },
        }
        i = i + 1;
    }
    proof {
        assert(expected.take(rows@.len() as int) =~= expected);
    }
    Ok(sort_by_time(&candles))
}

proof fn lemma_kline_problem_sticks(rows: Seq<KlineRow>, q: RequestModel, now: i64, k: int, n: int)
    requires
        1 <= k <= n,
        first_kline_problem(rows, q, now, k - 1) is None,
        kline_problem(rows[k - 1], q, now) is Some,
    ensures
        first_kline_problem(rows, q, now, n) == kline_problem(rows[k - 1], q, now),
    decreases n - k,
{
    if n > k {
        lemma_kline_problem_sticks(rows, q, now, k, n - 1);
    }
}

impl BinanceSpotProvider {
    pub fn new() -> (r: Result<Self, ProviderError>)
        ensures
            r matches Ok(p) ==> p@ == (BinanceModel {
                base_url: BINANCE_MARKET_DATA_BASE_URL@,
                fixed_clock: None,
                connect_timeout_seconds: CONNECT_TIMEOUT_SECONDS,
                timeout_seconds: REQUEST_TIMEOUT_SECONDS,
                user_agent: USER_AGENT@,
            }),
            r matches Err(e) ==> e is Transport,
    {
        match build_http_client(CONNECT_TIMEOUT_SECONDS, REQUEST_TIMEOUT_SECONDS, USER_AGENT) {
            Ok(client) => Ok(
                BinanceSpotProvider {
                    client,
                    base_url: String::from_str(BINANCE_MARKET_DATA_BASE_URL),
                    fixed_clock: None,
                    connect_timeout_seconds: CONNECT_TIMEOUT_SECONDS,
                    timeout_seconds: REQUEST_TIMEOUT_SECONDS,
                    user_agent: USER_AGENT,
                },
            ),
            Err(error) => Err(ProviderError::Transport(http_error_text(&error))),
        }
    }

    /// An adapter for another host, whose clock is fixed at `now_millis`.
    pub fn with_base_url_and_clock(base_url: String, now_millis: i64) -> (r: Result<
        Self,
        ProviderError,
    >)
        ensures
            r matches Ok(p) ==> p@ == (BinanceModel {
                base_url: base_url@,
                fixed_clock: Some(now_millis),
                connect_timeout_seconds: CONNECT_TIMEOUT_SECONDS,
                timeout_seconds: REQUEST_TIMEOUT_SECONDS,
                user_agent: USER_AGENT@,
            }),
            r matches Err(e) ==> e is Transport,
    {
        let mut provider = BinanceSpotProvider::new()?;
        provider.base_url = base_url;
        provider.fixed_clock = Some(now_millis);
        Ok(provider)
    }

    /// The HTTP client this adapter was built with.
    pub closed spec fn http_client(&self) -> reqwest::Client {
        self.client
    }

    /// The HTTP client requests go through.
    pub fn client(&self) -> (r: &reqwest::Client)
        ensures
            *r == self.http_client(),
    {
        &self.client
    }

    /// The current time by the adapter's clock.
    pub fn now_millis(&self) -> (r: i64)
        ensures
            self@.fixed_clock matches Some(t) ==> r == t,
            self@.fixed_clock is None ==> r >= 0,
    {
        match self.fixed_clock {
            Some(t) => t,
            None => current_utc_millis(),
        }
    }

    pub fn id(&self) -> (r: &'static str)
        ensures
            r@ == BINANCE_PROVIDER_ID@,
    {
        BINANCE_PROVIDER_ID
    }

    pub fn list_symbols(&self) -> (r: Result<Vec<Instrument>, ProviderError>)
        ensures
            r matches Ok(v) && instrument_models(v@) == usdt_catalog(BINANCE_PROVIDER_ID@),
    {
        Ok(default_instruments())
    }

    pub fn list_intervals(&self) -> (r: Result<Vec<IntervalDefinition>, ProviderError>)
        ensures
            r matches Ok(v) && interval_models(v@) == binance_interval_models(),
    {
        Ok(supported_intervals())
    }

    /// Checks a history request before any network access.
    pub fn validate_request(&self, request: &CandleHistoryRequest) -> (r: Result<(), ProviderError>)
        ensures
            binance_request_verdict(request@, r),
    {
        match request.validate() {
            Err(e) => {
                return Err(ProviderError::InvalidRequest(e));
            },
            Ok(()) => {},
        }
        if !same_text(request.provider.as_str(), BINANCE_PROVIDER_ID) {
            return Err(ProviderError::UnknownProvider(request.provider.clone()));
        }
        let instruments = default_instruments();
        if !symbol_known(&instruments, instruments.len(), request.symbol.as_str()) {
            proof {
                assert(instrument_models(instruments@).take(instruments@.len() as int)
                    =~= instrument_models(instruments@));
            }
            return Err(ProviderError::UnknownSymbol(request.symbol.clone()));
        }
        let intervals = supported_intervals();
        if !interval_known(&intervals, intervals.len(), request.interval.as_str()) {
            proof {
                assert(interval_models(intervals@).take(intervals@.len() as int)
                    =~= interval_models(intervals@));
            }
            return Err(ProviderError::UnknownInterval(request.interval.clone()));
        }
        proof {
            assert(instrument_models(instruments@).take(instruments@.len() as int)
                =~= instrument_models(instruments@));
            assert(interval_models(intervals@).take(intervals@.len() as int)
                =~= interval_models(intervals@));
        }
        if let Some(limit) = request.limit {
            if limit > BINANCE_KLINE_LIMIT {
                return Err(
                    ProviderError::RequestLimitExceeded {
                        requested: limit,
                        maximum: BINANCE_KLINE_LIMIT,
                    },
                );
            }
        }
        Ok(())
    }

    /// The klines endpoint under the adapter's base URL.
    pub fn klines_url(&self) -> (r: String)
        ensures
            r@ == without_trailing_slashes(self@.base_url) + "/api/v3/klines"@,
    {
        let chars = crate::text::chars_of(self.base_url.as_str());
        let mut end = chars.len();
        proof {
            assert(chars@.take(end as int) =~= chars@);
        }
        while end > 0 && chars[end - 1] == '/'
            invariant
                end <= chars@.len(),
                chars@ == self@.base_url,
                without_trailing_slashes(chars@.take(end as int)) == without_trailing_slashes(
                    self@.base_url,
                ),
            decreases end,
        {
            proof {
                assert(chars@.take(end as int).drop_last() =~= chars@.take(end - 1));
            }
            end = end - 1;
        }
        let mut out = String::new();
        let mut i: usize = 0;
        while i < end
            invariant
                i <= end <= chars@.len(),
                out@ == chars@.take(i as int),
            decreases end - i,
        {
            crate::text::push_char(&mut out, chars[i]);
            proof {
                assert(chars@.take(i + 1) =~= chars@.take(i as int).push(chars@[i as int]));
            }
            i = i + 1;
        }
        out.append("/api/v3/klines");
        out
    }
}

/// The query parameters of a klines request, in order.
pub open spec fn klines_query_text(q: RequestModel) -> Seq<(Seq<char>, Seq<char>)> {
    let base = seq![("symbol"@, q.symbol), ("interval"@, q.interval)];
    let with_start = match q.start_timestamp {
        Some(t) => base.push(("startTime"@, decimal_text(t as int))),
        None => base,
    };
    let with_end = match q.end_timestamp {
        Some(t) => with_start.push(("endTime"@, decimal_text(t as int))),
        None => with_start,
    };
    match q.limit {
        Some(n) => with_end.push(("limit"@, decimal_digits(n as nat))),
        None => with_end,
    }
}

pub open spec fn query_text(v: Seq<(&'static str, String)>) -> Seq<(Seq<char>, Seq<char>)> {
    v.map_values(|p: (&'static str, String)| (p.0@, p.1@))
}

/// The query parameters of a klines request.
pub fn klines_query(request: &CandleHistoryRequest) -> (r: Vec<(&'static str, String)>)
    ensures
        query_text(r@) == klines_query_text(request@),
{
    let mut query: Vec<(&'static str, String)> = Vec::new();
    query.push(("symbol", request.symbol.clone()));
    query.push(("interval", request.interval.clone()));
    let ghost base = query_text(query@);
    proof {
        assert(base =~= seq![("symbol"@, request@.symbol), ("interval"@, request@.interval)]);
    }
    if let Some(start_timestamp) = request.start_timestamp {
        let ghost before = query@;
        query.push(("startTime", i64_text(start_timestamp)));
        proof {
            assert(query_text(query@) =~= query_text(before).push(
                ("startTime"@, decimal_text(start_timestamp as int)),
            ));
        }
    }
    let ghost after_start = query_text(query@);
    if let Some(end_timestamp) = request.end_timestamp {
        let ghost before = query@;
        query.push(("endTime", i64_text(end_timestamp)));
        proof {
            assert(query_text(query@) =~= query_text(before).push(
                ("endTime"@, decimal_text(end_timestamp as int)),
            ));
        }
    }
    if let Some(limit) = request.limit {
        let ghost before = query@;
        query.push(("limit", u64_text(limit as u64)));
        proof {
            assert(query_text(query@) =~= query_text(before).push(
                ("limit"@, decimal_digits(limit as nat)),
            ));
        }
    }
    query
}

/// Binance Spot's kline interval codes.
pub open spec fn binance_kline_codes() -> Seq<Seq<char>> {
    seq![
        "1s"@, "1m"@, "3m"@, "5m"@, "15m"@, "30m"@, "1h"@, "2h"@, "4h"@, "6h"@, "8h"@, "12h"@,
        "1d"@, "3d"@, "1w"@, "1M"@,
    ]
}

/// The adapter serves exactly Binance's kline interval codes.
pub proof fn law_intervals_are_binance_codes(id: Seq<char>)
    ensures
        knows_interval(binance_interval_models(), id) <==> binance_kline_codes().contains(id),
{
    let m = binance_interval_models();
    let codes = binance_kline_codes();
    assert(m.len() == codes.len());
    assert forall|j: int| 0 <= j < m.len() implies #[trigger] m[j].id == codes[j] by {}
    if knows_interval(m, id) {
        let j = choose|j: int| 0 <= j < m.len() && m[j].id == id;
        assert(codes[j] == id);
    }
    if codes.contains(id) {
        let j = choose|j: int| 0 <= j < codes.len() && codes[j] == id;
        assert(m[j].id == id);
    }
}

/// A well-formed history request for a configured symbol, one of Binance's
/// kline codes and at most the provider's row limit is accepted before any
/// network access.
pub proof fn law_valid_requests_are_accepted(q: RequestModel)
    requires
        request_check(q) is Ok,
        q.provider == BINANCE_PROVIDER_ID@,
        knows_symbol(usdt_catalog(BINANCE_PROVIDER_ID@), q.symbol),
        binance_kline_codes().contains(q.interval),
        q.limit matches Some(n) ==> n <= 1000,
    ensures
        binance_request_verdict(q, Ok(())),
{
    law_intervals_are_binance_codes(q.interval);
}

/// Every normalized candle is one of the rows, carried over unchanged: its
/// opening time, its open, high, low, close and volume values, the closed
/// flag from its closing time, and the request's stream.
pub proof fn law_normalized_candles_carry_their_rows(
    rows: Seq<KlineRow>,
    q: RequestModel,
    now: i64,
    out: Seq<CandleModel>,
    k: int,
)
    requires
        first_kline_problem(rows, q, now, rows.len() as int) is None,
        is_time_sort_of(out, rows.map_values(|row: KlineRow| kline_candle(row, q, now))),
        0 <= k < out.len(),
    ensures
        exists|i: int|
            0 <= i < rows.len() && {
                let row = #[trigger] rows[i];
                let c = out[k];
                &&& c.provider == BINANCE_PROVIDER_ID@
                &&& c.symbol == q.symbol
                &&& c.interval == q.interval
                &&& c.timestamp == row.open_time
                &&& Some(c.open) == row.open
                &&& Some(c.high) == row.high
                &&& Some(c.low) == row.low
                &&& Some(c.close) == row.close
                &&& Some(c.volume) == row.volume
                &&& c.closed == (row.close_time < now)
            },
{
    let mapped = rows.map_values(|row: KlineRow| kline_candle(row, q, now));
    let x = out[k];
    out.lemma_filter_contains(at_time(x.timestamp), k);
    assert(out.filter(at_time(x.timestamp)) == mapped.filter(at_time(x.timestamp)));
    mapped.lemma_filter_contains_rev(at_time(x.timestamp), x);
    let i = choose|i: int| 0 <= i < mapped.len() && mapped[i] == x;
    assert(mapped[i] == kline_candle(rows[i], q, now));
    lemma_no_kline_problem(rows, q, now, rows.len() as int, i);
    assert(rows[i].open is Some && rows[i].high is Some && rows[i].low is Some);
}

proof fn lemma_no_kline_problem(rows: Seq<KlineRow>, q: RequestModel, now: i64, n: int, i: int)
    requires
        first_kline_problem(rows, q, now, n) is None,
        0 <= i < n,
    ensures
        kline_problem(rows[i], q, now) is None,
    decreases n,
{
    if i < n - 1 {
        lemma_no_kline_problem(rows, q, now, n - 1, i);
    }
}

} // verus!
