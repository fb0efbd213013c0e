use stocksman::market_data::{CandleHistoryRequest, MarketDataValidationError};
use stocksman::provider::ProviderError;
use stocksman::providers::binance::{
    current_utc_millis, klines_query, normalize_klines, rate_limit_error, response_error,
    truncate_message, utc_millis_from_clock, BinanceSpotProvider, KlineRow, BINANCE_KLINE_LIMIT, BINANCE_PROVIDER_ID,
};

fn history_request() -> CandleHistoryRequest {
    CandleHistoryRequest {
        provider: BINANCE_PROVIDER_ID.to_owned(),
        symbol: "BTCUSDT".to_owned(),
        interval: "1m".to_owned(),
        start_timestamp: Some(1_704_067_200_000),
        end_timestamp: Some(1_704_067_320_000),
        limit: Some(3),
    }
}

fn row(open_time: i64, prices: [f64; 5], close_time: i64) -> KlineRow {
    KlineRow {
        open_time,
        open: Some(prices[0].to_bits()),
        high: Some(prices[1].to_bits()),
        low: Some(prices[2].to_bits()),
        close: Some(prices[3].to_bits()),
        volume: Some(prices[4].to_bits()),
        close_time,
    }
}

#[test]
fn adapter_exposes_configured_symbols_and_all_spot_kline_intervals() {
    let provider = BinanceSpotProvider::new().expect("provider");

    assert_eq!(provider.list_symbols().expect("symbols").len(), 5);
    assert_eq!(provider.list_intervals().expect("intervals").len(), 16);
    assert_eq!(
        provider
            .list_intervals()
            .expect("intervals")
            .last()
            .expect("monthly interval")
            .id,
        "1M"
    );
    assert_eq!(provider.id(), BINANCE_PROVIDER_ID);
    assert_eq!(
        provider.klines_url(),
        "https://data-api.binance.vision/api/v3/klines"
    );
}

#[test]
fn provider_limit_is_checked_before_network_access() {
    let provider =
        BinanceSpotProvider::with_base_url_and_clock("http://127.0.0.1:1".to_owned(), i64::MAX)
            .expect("provider");
    let mut request = history_request();
    request.limit = Some(BINANCE_KLINE_LIMIT + 1);

    assert_eq!(
        provider.validate_request(&request),
        Err(ProviderError::RequestLimitExceeded {
            requested: 1_001,
            maximum: 1_000,
        })
    );
    request.limit = Some(BINANCE_KLINE_LIMIT);
    assert_eq!(provider.validate_request(&request), Ok(()));
}

#[test]
fn requests_for_other_streams_are_refused_before_network_access() {
    let provider =
        BinanceSpotProvider::with_base_url_and_clock("http://127.0.0.1:1".to_owned(), 0)
            .expect("provider");

    let mut symbol = history_request();
    symbol.symbol = "DOGEUSDT".to_owned();
    assert_eq!(
        provider.validate_request(&symbol),
        Err(ProviderError::UnknownSymbol("DOGEUSDT".to_owned()))
    );
    let mut interval = history_request();
    interval.interval = "2m".to_owned();
    assert_eq!(
        provider.validate_request(&interval),
        Err(ProviderError::UnknownInterval("2m".to_owned()))
    );
    let mut other = history_request();
    other.provider = "mock".to_owned();
    assert_eq!(
        provider.validate_request(&other),
        Err(ProviderError::UnknownProvider("mock".to_owned()))
    );
    let mut zero = history_request();
    zero.limit = Some(0);
    assert_eq!(
        provider.validate_request(&zero),
        Err(ProviderError::InvalidRequest(
            MarketDataValidationError::ZeroValue("limit")
        ))
    );
}

#[test]
fn klines_requests_carry_the_query_and_path() {
    let provider = BinanceSpotProvider::with_base_url_and_clock(
        "http://127.0.0.1:9//".to_owned(),
        1_704_067_350_000,
    )
    .expect("provider");
    assert_eq!(provider.klines_url(), "http://127.0.0.1:9/api/v3/klines");
    assert_eq!(provider.now_millis(), 1_704_067_350_000);

    let query = klines_query(&history_request())
        .into_iter()
        .map(|(name, value)| format!("{name}={value}"))
        .collect::<Vec<_>>();
    assert_eq!(
        query,
        vec![
            "symbol=BTCUSDT",
            "interval=1m",
            "startTime=1704067200000",
            "endTime=1704067320000",
            "limit=3"
        ]
    );
}

#[test]
fn public_history_rows_are_normalized_to_canonical_candles() {
    let rows = vec![
        row(1_704_067_260_000, [101.5, 104.0, 100.0, 103.0, 12.25], 1_704_067_319_999),
        row(1_704_067_200_000, [100.0, 102.0, 99.0, 101.5, 10.5], 1_704_067_259_999),
        row(1_704_067_320_000, [103.0, 105.0, 102.5, 104.5, 7.0], 1_704_067_379_999),
    ];

    let candles = normalize_klines(&rows, &history_request(), 1_704_067_350_000).expect("history");

    assert_eq!(candles.len(), 3);
    assert_eq!(candles[0].timestamp, 1_704_067_200_000);
    assert_eq!(f64::from_bits(candles[0].open), 100.0);
    assert!(candles[0].closed);
    assert_eq!(f64::from_bits(candles[2].close), 104.5);
    assert!(!candles[2].closed);
    assert!(candles.iter().all(|candle| {
        candle.provider == BINANCE_PROVIDER_ID
            && candle.symbol == "BTCUSDT"
            && candle.interval == "1m"
    }));
}

#[test]
fn malformed_rows_are_invalid_responses() {
    let mut missing = row(0, [1.0, 1.0, 1.0, 1.0, 1.0], 59_999);
    missing.high = None;
    assert_eq!(
        normalize_klines(&vec![missing], &history_request(), 0).err(),
        Some(ProviderError::InvalidResponse(
            "high is not a finite decimal number".to_owned()
        ))
    );

    let inverted = row(0, [2.0, 1.0, 1.0, 2.0, 1.0], 59_999);
    assert_eq!(
        normalize_klines(&vec![inverted], &history_request(), 0).err(),
        Some(ProviderError::InvalidResponse(
            "candle prices are outside its range".to_owned()
        ))
    );
}

#[test]
fn error_responses_become_distinct_provider_errors() {
    assert_eq!(
        response_error("400 Bad Request", "", Some((-1121, "Invalid symbol.".to_owned()))),
        ProviderError::UnknownSymbol("Invalid symbol.".to_owned())
    );
    assert_eq!(
        response_error("400 Bad Request", "", Some((-1120, "Invalid interval.".to_owned()))),
        ProviderError::UnknownInterval("Invalid interval.".to_owned())
    );
    assert_eq!(
        response_error("400 Bad Request", "", Some((-1100, "Illegal characters.".to_owned()))),
        ProviderError::InvalidResponse(
            "Binance returned HTTP 400 Bad Request (-1100): Illegal characters.".to_owned()
        )
    );
    assert_eq!(
        response_error("503 Service Unavailable", "down", None),
        ProviderError::InvalidResponse("Binance returned HTTP 503 Service Unavailable: down".to_owned())
    );
}

#[test]
fn rate_limits_carry_the_retry_delay() {
    assert_eq!(
        rate_limit_error(429, Some("30")),
        Some(ProviderError::RateLimited {
            retry_after_seconds: Some(30)
        })
    );
    assert_eq!(
        rate_limit_error(418, Some("soon")),
        Some(ProviderError::RateLimited {
            retry_after_seconds: None
        })
    );
    assert_eq!(rate_limit_error(500, Some("30")), None);
}

#[test]
fn quoted_messages_are_cut_to_the_limit() {
    let long = "x".repeat(300);
    assert_eq!(truncate_message(&long).chars().count(), 240);
    assert_eq!(truncate_message("short"), "short");
}

#[test]
fn the_system_clock_is_after_the_epoch() {
    assert!(current_utc_millis() > 1_704_067_200_000);
}

#[test]
fn clock_readings_are_saturated_to_the_timestamp_range() {
    assert_eq!(utc_millis_from_clock(None), 0);
    assert_eq!(utc_millis_from_clock(Some(1_704_067_200_000)), 1_704_067_200_000);
    assert_eq!(utc_millis_from_clock(Some(u128::MAX)), i64::MAX);
    assert_eq!(utc_millis_from_clock(Some(i64::MAX as u128 + 1)), i64::MAX);
}
