//! Provider-neutral market-data contracts: instruments, intervals, candles,
//! streams and history requests, with the rules that make them canonical.
use vstd::prelude::*;

use crate::price::{
    above_zero, below_zero, equal_values, finite_value, is_above_zero, is_below_zero,
    is_finite_value, same_value,
};
use crate::text::{contains_control, has_control_char, is_trimmed, joined, trimmed};

verus! {

/// Milliseconds since the Unix epoch in UTC.
pub type UtcTimestamp = i64;

/// A provider, a symbol and an interval identify one candle series.
pub type StreamKey = (Seq<char>, Seq<char>, Seq<char>);

#[derive(Debug)]
pub struct Instrument {
    pub provider: String,
    pub symbol: String,
    pub base_asset: String,
    pub quote_asset: String,
}

pub struct InstrumentModel {
    pub provider: Seq<char>,
    pub symbol: Seq<char>,
    pub base_asset: Seq<char>,
    pub quote_asset: Seq<char>,
}

impl View for Instrument {
    type V = InstrumentModel;

    open spec fn view(&self) -> InstrumentModel {
        InstrumentModel {
            provider: self.provider@,
            symbol: self.symbol@,
            base_asset: self.base_asset@,
            quote_asset: self.quote_asset@,
        }
    }
}

impl Clone for Instrument {
    fn clone(&self) -> (r: Self)
        ensures
            r@ == self@,
    {
        Instrument {
            provider: self.provider.clone(),
            symbol: self.symbol.clone(),
            base_asset: self.base_asset.clone(),
            quote_asset: self.quote_asset.clone(),
        }
    }
}

impl PartialEq for Instrument {
    fn eq(&self, other: &Self) -> (r: bool) {
        self.provider == other.provider && self.symbol == other.symbol && self.base_asset
            == other.base_asset && self.quote_asset == other.quote_asset
    }
}

impl vstd::std_specs::cmp::PartialEqSpecImpl for Instrument {
    open spec fn obeys_eq_spec() -> bool {
        true
    }

    open spec fn eq_spec(&self, other: &Self) -> bool {
        self@ == other@
    }
}

#[derive(Clone, Copy, Debug, PartialEq, Eq, Structural)]
pub enum IntervalUnit {
    Second,
    Minute,
    Hour,
    Day,
    Week,
    Month,
}

#[derive(Debug)]
pub struct IntervalDefinition {
    /// Provider-neutral identifier used by requests and candles.
    pub id: String,
    /// Human-readable text for interval selectors.
    pub label: String,
    pub amount: u32,
    pub unit: IntervalUnit,
}

pub struct IntervalModel {
    pub id: Seq<char>,
    pub label: Seq<char>,
    pub amount: u32,
    pub unit: IntervalUnit,
}

impl View for IntervalDefinition {
    type V = IntervalModel;

    open spec fn view(&self) -> IntervalModel {
        IntervalModel { id: self.id@, label: self.label@, amount: self.amount, unit: self.unit }
    }
}

impl Clone for IntervalDefinition {
    fn clone(&self) -> (r: Self)
        ensures
            r@ == self@,
    {
        IntervalDefinition {
            id: self.id.clone(),
            label: self.label.clone(),
            amount: self.amount,
            unit: self.unit,
        }
    }
}

impl PartialEq for IntervalDefinition {
    fn eq(&self, other: &Self) -> (r: bool) {
        self.id == other.id && self.label == other.label && self.amount == other.amount
            && self.unit == other.unit
    }
}

impl vstd::std_specs::cmp::PartialEqSpecImpl for IntervalDefinition {
    open spec fn obeys_eq_spec() -> bool {
        true
    }

    open spec fn eq_spec(&self, other: &Self) -> bool {
        self@ == other@
    }
}

/// One OHLCV candle. Prices and volume are binary64 bit patterns.
#[derive(Debug)]
pub struct Candle {
    pub provider: String,
    pub symbol: String,
    pub interval: String,
    pub timestamp: UtcTimestamp,
    pub open: u64,
    pub high: u64,
    pub low: u64,
    pub close: u64,
    pub volume: u64,
    pub closed: bool,
}

pub struct CandleModel {
    pub provider: Seq<char>,
    pub symbol: Seq<char>,
    pub interval: Seq<char>,
    pub timestamp: UtcTimestamp,
    pub open: u64,
    pub high: u64,
    pub low: u64,
    pub close: u64,
    pub volume: u64,
    pub closed: bool,
}

impl View for Candle {
    type V = CandleModel;

    open spec fn view(&self) -> CandleModel {
        CandleModel {
            provider: self.provider@,
            symbol: self.symbol@,
            interval: self.interval@,
            timestamp: self.timestamp,
            open: self.open,
            high: self.high,
            low: self.low,
            close: self.close,
            volume: self.volume,
            closed: self.closed,
        }
    }
}

impl CandleModel {
    /// The series this candle belongs to.
    pub open spec fn key(self) -> StreamKey {
        (self.provider, self.symbol, self.interval)
    }
}

/// Candle equality with binary64 semantics for the numeric fields.
pub open spec fn same_candle(a: CandleModel, b: CandleModel) -> bool {
    &&& a.provider == b.provider
    &&& a.symbol == b.symbol
    &&& a.interval == b.interval
    &&& a.timestamp == b.timestamp
    &&& same_value(a.open, b.open)
    &&& same_value(a.high, b.high)
    &&& same_value(a.low, b.low)
    &&& same_value(a.close, b.close)
    &&& same_value(a.volume, b.volume)
    &&& a.closed == b.closed
}

impl Clone for Candle {
    fn clone(&self) -> (r: Self)
        ensures
            r@ == self@,
    {
        Candle {
            provider: self.provider.clone(),
            symbol: self.symbol.clone(),
            interval: self.interval.clone(),
            timestamp: self.timestamp,
            open: self.open,
            high: self.high,
            low: self.low,
            close: self.close,
            volume: self.volume,
            closed: self.closed,
        }
    }
}

impl PartialEq for Candle {
    fn eq(&self, other: &Self) -> (r: bool) {
        self.provider == other.provider && self.symbol == other.symbol && self.interval
            == other.interval && self.timestamp == other.timestamp && equal_values(
            self.open,
            other.open,
        ) && equal_values(self.high, other.high) && equal_values(self.low, other.low)
            && equal_values(self.close, other.close) && equal_values(self.volume, other.volume)
            && self.closed == other.closed
    }
}

impl vstd::std_specs::cmp::PartialEqSpecImpl for Candle {
    open spec fn obeys_eq_spec() -> bool {
        true
    }

    open spec fn eq_spec(&self, other: &Self) -> bool {
        same_candle(self@, other@)
    }
}

#[derive(Debug)]
pub struct CandleStream {
    pub provider: String,
    pub symbol: String,
    pub interval: String,
}

impl View for CandleStream {
    type V = StreamKey;

    open spec fn view(&self) -> StreamKey {
        (self.provider@, self.symbol@, self.interval@)
    }
}

impl Clone for CandleStream {
    fn clone(&self) -> (r: Self)
        ensures
            r@ == self@,
    {
        CandleStream {
            provider: self.provider.clone(),
            symbol: self.symbol.clone(),
            interval: self.interval.clone(),
        }
    }
}

impl PartialEq for CandleStream {
    fn eq(&self, other: &Self) -> (r: bool) {
        self.provider == other.provider && self.symbol == other.symbol && self.interval
            == other.interval
    }
}

impl vstd::std_specs::cmp::PartialEqSpecImpl for CandleStream {
    open spec fn obeys_eq_spec() -> bool {
        true
    }

    open spec fn eq_spec(&self, other: &Self) -> bool {
        self@ == other@
    }
}

#[derive(Debug)]
pub struct CandleHistoryRequest {
    pub provider: String,
    pub symbol: String,
    pub interval: String,
    /// Inclusive opening-time boundary.
    pub start_timestamp: Option<UtcTimestamp>,
    /// Inclusive opening-time boundary.
    pub end_timestamp: Option<UtcTimestamp>,
    pub limit: Option<u32>,
}

pub struct RequestModel {
    pub provider: Seq<char>,
    pub symbol: Seq<char>,
    pub interval: Seq<char>,
    pub start_timestamp: Option<UtcTimestamp>,
    pub end_timestamp: Option<UtcTimestamp>,
    pub limit: Option<u32>,
}

impl View for CandleHistoryRequest {
    type V = RequestModel;

    open spec fn view(&self) -> RequestModel {
        RequestModel {
            provider: self.provider@,
            symbol: self.symbol@,
            interval: self.interval@,
            start_timestamp: self.start_timestamp,
            end_timestamp: self.end_timestamp,
            limit: self.limit,
        }
    }
}

impl Clone for CandleHistoryRequest {
    fn clone(&self) -> (r: Self)
        ensures
            r@ == self@,
    {
        CandleHistoryRequest {
            provider: self.provider.clone(),
            symbol: self.symbol.clone(),
            interval: self.interval.clone(),
            start_timestamp: self.start_timestamp,
            end_timestamp: self.end_timestamp,
            limit: self.limit,
        }
    }
}

impl PartialEq for CandleHistoryRequest {
    fn eq(&self, other: &Self) -> (r: bool) {
        self.provider == other.provider && self.symbol == other.symbol && self.interval
            == other.interval && self.start_timestamp == other.start_timestamp
            && self.end_timestamp == other.end_timestamp && self.limit == other.limit
    }
}

impl vstd::std_specs::cmp::PartialEqSpecImpl for CandleHistoryRequest {
    open spec fn obeys_eq_spec() -> bool {
        true
    }

    open spec fn eq_spec(&self, other: &Self) -> bool {
        self@ == other@
    }
}

#[derive(Debug)]
pub struct CandleHistoryResponse {
    pub candles: Vec<Candle>,
}

#[derive(Debug)]
pub struct MarketDataCatalog {
    pub instruments: Vec<Instrument>,
    pub intervals: Vec<IntervalDefinition>,
}

#[derive(Debug)]
pub enum CandleEvent {
    Upsert { candle: Candle },
}

#[derive(Clone, Copy, Debug, PartialEq, Eq)]
pub enum MarketDataValidationError {
    InvalidIdentifier(&'static str),
    InvalidPriceRange,
    InvalidTimeRange,
    NegativeValue(&'static str),
    NonFiniteNumber(&'static str),
    NonPositiveNumber(&'static str),
    ZeroValue(&'static str),
}

/// The human-readable text of a validation error.
pub open spec fn validation_message(e: MarketDataValidationError) -> Seq<char> {
    match e {
        MarketDataValidationError::InvalidIdentifier(field) => "invalid identifier: "@ + field@,
        MarketDataValidationError::InvalidPriceRange => "candle prices are outside its range"@,
        MarketDataValidationError::InvalidTimeRange => "start timestamp is after end timestamp"@,
        MarketDataValidationError::NegativeValue(field) => "negative value: "@ + field@,
        MarketDataValidationError::NonFiniteNumber(field) => "non-finite number: "@ + field@,
        MarketDataValidationError::NonPositiveNumber(field) => "non-positive number: "@ + field@,
        MarketDataValidationError::ZeroValue(field) => "zero value: "@ + field@,
    }
}

impl MarketDataValidationError {
    /// The human-readable text of this error.
    pub fn describe(&self) -> (r: String)
        ensures
            r@ == validation_message(*self),
    {
        match self {
            MarketDataValidationError::InvalidIdentifier(field) => joined(
                "invalid identifier: ",
                field,
            ),
            MarketDataValidationError::InvalidPriceRange => String::from_str(
                "candle prices are outside its range",
            ),
            MarketDataValidationError::InvalidTimeRange => String::from_str(
                "start timestamp is after end timestamp",
            ),
            MarketDataValidationError::NegativeValue(field) => joined("negative value: ", field),
            MarketDataValidationError::NonFiniteNumber(field) => joined(
                "non-finite number: ",
                field,
            ),
            MarketDataValidationError::NonPositiveNumber(field) => joined(
                "non-positive number: ",
                field,
            ),
            MarketDataValidationError::ZeroValue(field) => joined("zero value: ", field),
        }
    }
}

/// The first failure of two checks made in order.
pub open spec fn first_failure(
    first: Result<(), MarketDataValidationError>,
    second: Result<(), MarketDataValidationError>,
) -> Result<(), MarketDataValidationError> {
    if first is Err {
        first
    } else {
        second
    }
}

/// An identifier is non-empty, has no surrounding whitespace and no control
/// characters.
pub open spec fn identifier_check(field: &'static str, value: Seq<char>) -> Result<
    (),
    MarketDataValidationError,
> {
    if value.len() == 0 || !is_trimmed(value) || has_control_char(value) {
        Err(MarketDataValidationError::InvalidIdentifier(field))
    } else {
        Ok(())
    }
}

pub open spec fn timestamp_check(field: &'static str, value: UtcTimestamp) -> Result<
    (),
    MarketDataValidationError,
> {
    if value < 0 {
        Err(MarketDataValidationError::NegativeValue(field))
    } else {
        Ok(())
    }
}

pub open spec fn positive_check(field: &'static str, bits: u64) -> Result<
    (),
    MarketDataValidationError,
> {
    if !is_finite_value(bits) {
        Err(MarketDataValidationError::NonFiniteNumber(field))
    } else if !is_above_zero(bits) {
        Err(MarketDataValidationError::NonPositiveNumber(field))
    } else {
        Ok(())
    }
}

pub open spec fn non_negative_check(field: &'static str, bits: u64) -> Result<
    (),
    MarketDataValidationError,
> {
    if !is_finite_value(bits) {
        Err(MarketDataValidationError::NonFiniteNumber(field))
    } else if is_below_zero(bits) {
        Err(MarketDataValidationError::NegativeValue(field))
    } else {
        Ok(())
    }
}

pub open spec fn stream_check(provider: Seq<char>, symbol: Seq<char>, interval: Seq<char>) -> Result<
    (),
    MarketDataValidationError,
> {
    first_failure(
        identifier_check("provider", provider),
        first_failure(identifier_check("symbol", symbol), identifier_check("interval", interval)),
    )
}

pub open spec fn max_bits(a: u64, b: u64) -> u64 {
    if a < b {
        b
    } else {
        a
    }
}

pub open spec fn min_bits(a: u64, b: u64) -> u64 {
    if a < b {
        a
    } else {
        b
    }
}

/// The high is at least the larger of open and close, and the low at most the
/// smaller; on positive finite prices this compares bit patterns.
pub open spec fn price_range_check(c: CandleModel) -> Result<(), MarketDataValidationError> {
    if c.high < max_bits(c.open, c.close) || c.low > min_bits(c.open, c.close) {
        Err(MarketDataValidationError::InvalidPriceRange)
    } else {
        Ok(())
    }
}

pub open spec fn candle_check(c: CandleModel) -> Result<(), MarketDataValidationError> {
    first_failure(
        stream_check(c.provider, c.symbol, c.interval),
        first_failure(
            timestamp_check("timestamp", c.timestamp),
            first_failure(
                positive_check("open", c.open),
                first_failure(
                    positive_check("high", c.high),
                    first_failure(
                        positive_check("low", c.low),
                        first_failure(
                            positive_check("close", c.close),
                            first_failure(
                                non_negative_check("volume", c.volume),
                                price_range_check(c),
                            ),
                        ),
                    ),
                ),
            ),
        ),
    )
}

pub open spec fn instrument_check(i: InstrumentModel) -> Result<(), MarketDataValidationError> {
    first_failure(
        identifier_check("provider", i.provider),
        first_failure(
            identifier_check("symbol", i.symbol),
            first_failure(
                identifier_check("base_asset", i.base_asset),
                identifier_check("quote_asset", i.quote_asset),
            ),
        ),
    )
}

pub open spec fn interval_check(d: IntervalModel) -> Result<(), MarketDataValidationError> {
    first_failure(
        identifier_check("id", d.id),
        first_failure(
            identifier_check("label", d.label),
            if d.amount == 0 {
                Err(MarketDataValidationError::ZeroValue("amount"))
            } else {
                Ok(())
            },
        ),
    )
}

pub open spec fn optional_timestamp_check(field: &'static str, value: Option<UtcTimestamp>) -> Result<
    (),
    MarketDataValidationError,
> {
    match value {
        Some(t) => timestamp_check(field, t),
        None => Ok(()),
    }
}

pub open spec fn request_check(r: RequestModel) -> Result<(), MarketDataValidationError> {
    first_failure(
        stream_check(r.provider, r.symbol, r.interval),
        first_failure(
            optional_timestamp_check("start_timestamp", r.start_timestamp),
            first_failure(
                optional_timestamp_check("end_timestamp", r.end_timestamp),
                if r.start_timestamp is Some && r.end_timestamp is Some
                    && r.start_timestamp->0 > r.end_timestamp->0 {
                    Err(MarketDataValidationError::InvalidTimeRange)
                } else if r.limit == Some(0u32) {
                    Err(MarketDataValidationError::ZeroValue("limit"))
                } else {
                    Ok(())
                },
            ),
        ),
    )
}

impl Instrument {
    pub fn validate(&self) -> (r: Result<(), MarketDataValidationError>)
        ensures
            r == instrument_check(self@),
    {
        validate_identifier("provider", self.provider.as_str())?;
        validate_identifier("symbol", self.symbol.as_str())?;
        validate_identifier("base_asset", self.base_asset.as_str())?;
        validate_identifier("quote_asset", self.quote_asset.as_str())
    }
}

impl IntervalDefinition {
    pub fn validate(&self) -> (r: Result<(), MarketDataValidationError>)
        ensures
            r == interval_check(self@),
    {
        validate_identifier("id", self.id.as_str())?;
        validate_identifier("label", self.label.as_str())?;
        if self.amount == 0 {
            return Err(MarketDataValidationError::ZeroValue("amount"));
        }
        Ok(())
    }
}

impl Candle {
    pub fn validate(&self) -> (r: Result<(), MarketDataValidationError>)
        ensures
            r == candle_check(self@),
    {
        validate_stream(self.provider.as_str(), self.symbol.as_str(), self.interval.as_str())?;
        validate_timestamp("timestamp", self.timestamp)?;
        validate_positive_number("open", self.open)?;
        validate_positive_number("high", self.high)?;
        validate_positive_number("low", self.low)?;
        validate_positive_number("close", self.close)?;
        validate_non_negative_number("volume", self.volume)?;

        let highest = if self.open < self.close {
            self.close
        } else {
            self.open
        };
        let lowest = if self.open < self.close {
            self.open
        } else {
            self.close
        };
        if self.high < highest || self.low > lowest {
            return Err(MarketDataValidationError::InvalidPriceRange);
        }
        Ok(())
    }

    /// The series this candle belongs to.
    pub fn stream(&self) -> (r: CandleStream)
        ensures
            r@ == self@.key(),
    {
        CandleStream {
            provider: self.provider.clone(),
            symbol: self.symbol.clone(),
            interval: self.interval.clone(),
        }
    }
}

impl CandleStream {
    pub fn validate(&self) -> (r: Result<(), MarketDataValidationError>)
        ensures
            r == stream_check(self@.0, self@.1, self@.2),
    {
        validate_stream(self.provider.as_str(), self.symbol.as_str(), self.interval.as_str())
    }
}

impl CandleHistoryRequest {
    pub fn validate(&self) -> (r: Result<(), MarketDataValidationError>)
        ensures
            r == request_check(self@),
    {
        validate_stream(self.provider.as_str(), self.symbol.as_str(), self.interval.as_str())?;
        if let Some(timestamp) = self.start_timestamp {
            validate_timestamp("start_timestamp", timestamp)?;
        }
        if let Some(timestamp) = self.end_timestamp {
            validate_timestamp("end_timestamp", timestamp)?;
        }
        match (self.start_timestamp, self.end_timestamp) {
            (Some(start), Some(end)) => {
                if start > end {
                    return Err(MarketDataValidationError::InvalidTimeRange);
                }
            },
            _ => {},
        }
        if self.limit == Some(0u32) {
            return Err(MarketDataValidationError::ZeroValue("limit"));
        }
        Ok(())
    }

    /// The series this request reads.
    pub fn stream(&self) -> (r: CandleStream)
        ensures
            r@ == (self@.provider, self@.symbol, self@.interval),
    {
        CandleStream {
            provider: self.provider.clone(),
            symbol: self.symbol.clone(),
            interval: self.interval.clone(),
        }
    }
}

fn validate_stream(provider: &str, symbol: &str, interval: &str) -> (r: Result<
    (),
    MarketDataValidationError,
>)
    ensures
        r == stream_check(provider@, symbol@, interval@),
{
    validate_identifier("provider", provider)?;
    validate_identifier("symbol", symbol)?;
    validate_identifier("interval", interval)
}

pub fn validate_identifier(field: &'static str, value: &str) -> (r: Result<
    (),
    MarketDataValidationError,
>)
    ensures
        r == identifier_check(field, value@),
{
    if value.is_empty() || !trimmed(value) || contains_control(value) {
        return Err(MarketDataValidationError::InvalidIdentifier(field));
    }
    Ok(())
}

fn validate_timestamp(field: &'static str, value: UtcTimestamp) -> (r: Result<
    (),
    MarketDataValidationError,
>)
    ensures
        r == timestamp_check(field, value),
{
    if value < 0 {
        return Err(MarketDataValidationError::NegativeValue(field));
    }
    Ok(())
}

fn validate_positive_number(field: &'static str, value: u64) -> (r: Result<
    (),
    MarketDataValidationError,
>)
    ensures
        r == positive_check(field, value),
{
    if !finite_value(value) {
        return Err(MarketDataValidationError::NonFiniteNumber(field));
    }
    if !above_zero(value) {
        return Err(MarketDataValidationError::NonPositiveNumber(field));
    }
    Ok(())
}

fn validate_non_negative_number(field: &'static str, value: u64) -> (r: Result<
    (),
    MarketDataValidationError,
>)
    ensures
        r == non_negative_check(field, value),
{
    if !finite_value(value) {
        return Err(MarketDataValidationError::NonFiniteNumber(field));
    }
    if below_zero(value) {
        return Err(MarketDataValidationError::NegativeValue(field));
    }
    Ok(())
}

} // verus!
