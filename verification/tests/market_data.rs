use stocksman::market_data::{
    validate_identifier, Candle, CandleHistoryRequest, CandleStream, Instrument,
    IntervalDefinition, IntervalUnit, MarketDataValidationError,
};

fn candle() -> Candle {
    Candle {
        provider: "mock".to_owned(),
        symbol: "BTCUSDT".to_owned(),
        interval: "1m".to_owned(),
        timestamp: 1_725_000_000_000,
        open: 60_000.0f64.to_bits(),
        high: 60_200.0f64.to_bits(),
        low: 59_900.0f64.to_bits(),
        close: 60_100.0f64.to_bits(),
        volume: 12.5f64.to_bits(),
        closed: true,
    }
}

fn request() -> CandleHistoryRequest {
    CandleHistoryRequest {
        provider: "mock".to_owned(),
        symbol: "BTCUSDT".to_owned(),
        interval: "1m".to_owned(),
        start_timestamp: Some(1_000),
        end_timestamp: Some(1_000),
        limit: Some(1),
    }
}

#[test]
fn valid_candles_and_zero_volume_are_accepted() {
    let mut value = candle();
    value.volume = 0.0f64.to_bits();

    assert_eq!(value.validate(), Ok(()));
}

#[test]
fn impossible_price_ranges_are_rejected() {
    let mut value = candle();
    value.high = (f64::from_bits(value.open) - 1.0).to_bits();

    assert_eq!(
        value.validate(),
        Err(MarketDataValidationError::InvalidPriceRange)
    );
}

#[test]
fn non_finite_numbers_are_rejected_before_the_api_boundary() {
    let mut value = candle();
    value.close = f64::NAN.to_bits();

    assert_eq!(
        value.validate(),
        Err(MarketDataValidationError::NonFiniteNumber("close"))
    );
}

#[test]
fn history_request_boundaries_are_inclusive_and_ordered() {
    let request = request();
    assert_eq!(request.validate(), Ok(()));

    let invalid = CandleHistoryRequest {
        start_timestamp: Some(1_001),
        ..request
    };
    assert_eq!(
        invalid.validate(),
        Err(MarketDataValidationError::InvalidTimeRange)
    );
}

#[test]
fn infinite_and_negative_zero_values_follow_binary64_rules() {
    let mut infinite = candle();
    infinite.high = f64::INFINITY.to_bits();
    assert_eq!(
        infinite.validate(),
        Err(MarketDataValidationError::NonFiniteNumber("high"))
    );

    let mut negative_zero_volume = candle();
    negative_zero_volume.volume = (-0.0f64).to_bits();
    assert_eq!(negative_zero_volume.validate(), Ok(()));

    let mut zero_open = candle();
    zero_open.open = 0.0f64.to_bits();
    assert_eq!(
        zero_open.validate(),
        Err(MarketDataValidationError::NonPositiveNumber("open"))
    );

    let mut negative_volume = candle();
    negative_volume.volume = (-1.0f64).to_bits();
    assert_eq!(
        negative_volume.validate(),
        Err(MarketDataValidationError::NegativeValue("volume"))
    );
}

#[test]
fn low_above_the_body_is_an_impossible_range() {
    let mut value = candle();
    value.low = 60_050.0f64.to_bits();
    assert_eq!(
        value.validate(),
        Err(MarketDataValidationError::InvalidPriceRange)
    );
}

#[test]
fn candle_identifiers_and_timestamps_are_checked_first() {
    let mut padded = candle();
    padded.symbol = " BTCUSDT".to_owned();
    padded.close = f64::NAN.to_bits();
    assert_eq!(
        padded.validate(),
        Err(MarketDataValidationError::InvalidIdentifier("symbol"))
    );

    let mut early = candle();
    early.timestamp = -1;
    assert_eq!(
        early.validate(),
        Err(MarketDataValidationError::NegativeValue("timestamp"))
    );
}

#[test]
fn identifiers_reject_empty_padded_and_control_text() {
    assert_eq!(validate_identifier("symbol", "BTCUSDT"), Ok(()));
    assert_eq!(
        validate_identifier("symbol", ""),
        Err(MarketDataValidationError::InvalidIdentifier("symbol"))
    );
    assert_eq!(
        validate_identifier("provider", "mock\t"),
        Err(MarketDataValidationError::InvalidIdentifier("provider"))
    );
    assert_eq!(
        validate_identifier("interval", "1\u{7}m"),
        Err(MarketDataValidationError::InvalidIdentifier("interval"))
    );
}

#[test]
fn history_requests_reject_zero_limits_and_negative_bounds() {
    let zero_limit = CandleHistoryRequest {
        limit: Some(0),
        ..request()
    };
    assert_eq!(
        zero_limit.validate(),
        Err(MarketDataValidationError::ZeroValue("limit"))
    );

    let negative_end = CandleHistoryRequest {
        start_timestamp: None,
        end_timestamp: Some(-5),
        ..request()
    };
    assert_eq!(
        negative_end.validate(),
        Err(MarketDataValidationError::NegativeValue("end_timestamp"))
    );
}

#[test]
fn intervals_instruments_and_streams_are_validated() {
    let zero = IntervalDefinition {
        id: "0m".to_owned(),
        label: "never".to_owned(),
        amount: 0,
        unit: IntervalUnit::Minute,
    };
    assert_eq!(
        zero.validate(),
        Err(MarketDataValidationError::ZeroValue("amount"))
    );

    let instrument = Instrument {
        provider: "mock".to_owned(),
        symbol: "BTCUSDT".to_owned(),
        base_asset: "".to_owned(),
        quote_asset: "USDT".to_owned(),
    };
    assert_eq!(
        instrument.validate(),
        Err(MarketDataValidationError::InvalidIdentifier("base_asset"))
    );

    let stream = CandleStream {
        provider: "mock".to_owned(),
        symbol: "BTCUSDT".to_owned(),
        interval: " 1m".to_owned(),
    };
    assert_eq!(
        stream.validate(),
        Err(MarketDataValidationError::InvalidIdentifier("interval"))
    );
}

#[test]
fn a_candle_and_a_request_name_their_stream() {
    let stream = candle().stream();
    assert_eq!(stream.provider, "mock");
    assert_eq!(stream.symbol, "BTCUSDT");
    assert_eq!(stream.interval, "1m");
    assert_eq!(request().stream(), stream);
}

#[test]
fn validation_errors_describe_their_field() {
    assert_eq!(
        MarketDataValidationError::NonFiniteNumber("close").describe(),
        "non-finite number: close"
    );
    assert_eq!(
        MarketDataValidationError::InvalidTimeRange.describe(),
        "start timestamp is after end timestamp"
    );
}
