use std::time::Duration;

use stocksman::market_data::{
    Candle, CandleHistoryRequest, CandleStream, Instrument, IntervalDefinition, IntervalUnit,
    MarketDataValidationError,
};
use stocksman::provider::ProviderError;
use stocksman::providers::mock::{
    sample_instruments, sample_intervals, MockReplayProvider, MOCK_PROVIDER_ID,
};

fn request(symbol: &str, interval: &str) -> CandleHistoryRequest {
    CandleHistoryRequest {
        provider: MOCK_PROVIDER_ID.to_owned(),
        symbol: symbol.to_owned(),
        interval: interval.to_owned(),
        start_timestamp: None,
        end_timestamp: None,
        limit: None,
    }
}

fn instrument() -> Instrument {
    Instrument {
        provider: MOCK_PROVIDER_ID.to_owned(),
        symbol: "BTCUSDT".to_owned(),
        base_asset: "BTC".to_owned(),
        quote_asset: "USDT".to_owned(),
    }
}

fn interval() -> IntervalDefinition {
    IntervalDefinition {
        id: "1m".to_owned(),
        label: "1 minute".to_owned(),
        amount: 1,
        unit: IntervalUnit::Minute,
    }
}

fn candle(timestamp: i64, close: f64) -> Candle {
    Candle {
        provider: MOCK_PROVIDER_ID.to_owned(),
        symbol: "BTCUSDT".to_owned(),
        interval: "1m".to_owned(),
        timestamp,
        open: close.to_bits(),
        high: (close + 1.0).to_bits(),
        low: (close - 0.5).max(0.1).to_bits(),
        close: close.to_bits(),
        volume: 10.0f64.to_bits(),
        closed: true,
    }
}

fn stream() -> CandleStream {
    CandleStream {
        provider: MOCK_PROVIDER_ID.to_owned(),
        symbol: "BTCUSDT".to_owned(),
        interval: "1m".to_owned(),
    }
}

fn provider(replay: Vec<Candle>) -> MockReplayProvider {
    MockReplayProvider::new(vec![instrument()], vec![interval()], replay, Duration::ZERO)
        .expect("provider")
}

#[test]
fn history_is_ordered_and_uses_inclusive_boundaries() {
    let provider = provider(vec![
        candle(180_000, 3.0),
        candle(60_000, 1.0),
        candle(120_000, 2.0),
    ]);
    let mut history_request = request("BTCUSDT", "1m");
    history_request.start_timestamp = Some(60_000);
    history_request.end_timestamp = Some(120_000);

    let timestamps = provider
        .get_candles(&history_request)
        .expect("history")
        .candles
        .into_iter()
        .map(|candle| candle.timestamp)
        .collect::<Vec<_>>();

    assert_eq!(timestamps, vec![60_000, 120_000]);
}

#[test]
fn fixtures_reject_unknown_stream_metadata() {
    let error = match MockReplayProvider::new(
        vec![instrument()],
        vec![interval()],
        vec![Candle {
            symbol: "ETHUSDT".to_owned(),
            ..candle(60_000, 1.0)
        }],
        Duration::ZERO,
    ) {
        Ok(_) => panic!("unknown fixture symbol must fail"),
        Err(error) => error,
    };

    assert_eq!(
        error,
        ProviderError::InvalidFixture("candle uses unknown symbol ETHUSDT".to_owned())
    );
}

#[test]
fn limited_history_keeps_the_newest_candles_and_is_repeatable() {
    let provider = provider(vec![
        candle(240_000, 4.0),
        candle(60_000, 1.0),
        candle(180_000, 3.0),
        candle(120_000, 2.0),
    ]);
    let mut latest = request("BTCUSDT", "1m");
    latest.limit = Some(3);

    let first = provider.get_candles(&latest).expect("first history");
    let second = provider.get_candles(&latest).expect("second history");
    assert_eq!(first.candles, second.candles);
    assert_eq!(
        first
            .candles
            .iter()
            .map(|candle| candle.timestamp)
            .collect::<Vec<_>>(),
        vec![120_000, 180_000, 240_000]
    );
}

#[test]
fn equal_timestamps_keep_their_fixture_order_in_history() {
    let provider = provider(vec![
        candle(120_000, 2.0),
        candle(60_000, 1.0),
        candle(120_000, 2.5),
    ]);

    let observed = provider
        .get_candles(&request("BTCUSDT", "1m"))
        .expect("history")
        .candles
        .into_iter()
        .map(|candle| (candle.timestamp, f64::from_bits(candle.close)))
        .collect::<Vec<_>>();
    assert_eq!(observed, vec![(60_000, 1.0), (120_000, 2.0), (120_000, 2.5)]);
}

#[test]
fn replay_preserves_fixture_order_and_duplicate_revisions() {
    let provider = provider(vec![
        candle(120_000, 2.0),
        candle(60_000, 1.0),
        candle(120_000, 2.5),
    ]);

    let observed = provider
        .subscription_replay(&stream())
        .expect("subscription")
        .into_iter()
        .map(|candle| (candle.timestamp, f64::from_bits(candle.close)))
        .collect::<Vec<_>>();

    assert_eq!(
        observed,
        vec![(120_000, 2.0), (60_000, 1.0), (120_000, 2.5)]
    );
}

#[test]
fn unknown_streams_and_invalid_requests_are_refused() {
    let provider = provider(vec![candle(60_000, 1.0)]);

    assert_eq!(
        provider.get_candles(&request("ETHUSDT", "1m")).err(),
        Some(ProviderError::UnknownSymbol("ETHUSDT".to_owned()))
    );
    assert_eq!(
        provider.get_candles(&request("BTCUSDT", "1h")).err(),
        Some(ProviderError::UnknownInterval("1h".to_owned()))
    );
    let mut other_provider = request("BTCUSDT", "1m");
    other_provider.provider = "binance".to_owned();
    assert_eq!(
        provider.get_candles(&other_provider).err(),
        Some(ProviderError::UnknownProvider("binance".to_owned()))
    );
    let mut reversed = request("BTCUSDT", "1m");
    reversed.start_timestamp = Some(2);
    reversed.end_timestamp = Some(1);
    assert_eq!(
        provider.get_candles(&reversed).err(),
        Some(ProviderError::InvalidRequest(
            MarketDataValidationError::InvalidTimeRange
        ))
    );
}

#[test]
fn fixtures_need_instruments_intervals_and_valid_candles() {
    let no_instruments = MockReplayProvider::new(Vec::new(), vec![interval()], Vec::new(), Duration::ZERO);
    assert_eq!(
        no_instruments.err(),
        Some(ProviderError::InvalidFixture(
            "at least one instrument is required".to_owned()
        ))
    );

    let duplicate = MockReplayProvider::new(
        vec![instrument(), instrument()],
        vec![interval()],
        Vec::new(),
        Duration::ZERO,
    );
    assert_eq!(
        duplicate.err(),
        Some(ProviderError::InvalidFixture(
            "duplicate instrument BTCUSDT".to_owned()
        ))
    );

    let mut broken = candle(60_000, 1.0);
    broken.volume = f64::INFINITY.to_bits();
    let invalid = MockReplayProvider::new(
        vec![instrument()],
        vec![interval()],
        vec![broken],
        Duration::ZERO,
    );
    assert_eq!(
        invalid.err(),
        Some(ProviderError::InvalidFixture(
            "non-finite number: volume".to_owned()
        ))
    );
}

#[test]
fn the_offline_catalog_has_five_symbols_and_four_intervals() {
    let provider = MockReplayProvider::new(
        sample_instruments(),
        sample_intervals(),
        Vec::new(),
        Duration::from_millis(250),
    )
    .expect("provider");

    assert_eq!(provider.id(), MOCK_PROVIDER_ID);
    assert_eq!(provider.replay_cadence(), Duration::from_millis(250));
    let symbols = provider
        .list_symbols()
        .expect("symbols")
        .into_iter()
        .map(|instrument| instrument.symbol)
        .collect::<Vec<_>>();
    assert_eq!(
        symbols,
        vec!["BTCUSDT", "ETHUSDT", "BNBUSDT", "SOLUSDT", "XRPUSDT"]
    );
    let intervals = provider
        .list_intervals()
        .expect("intervals")
        .into_iter()
        .map(|interval| interval.id)
        .collect::<Vec<_>>();
    assert_eq!(intervals, vec!["1m", "5m", "1h", "1d"]);
}
