use stocksman::candle_store::{
    CandleGap, CandleStore, CandleStoreError, UpsertOutcome, UpsertSummary,
};
use stocksman::market_data::{
    Candle, CandleEvent, CandleStream, IntervalDefinition, IntervalUnit,
    MarketDataValidationError,
};

fn stream(interval: &str) -> CandleStream {
    CandleStream {
        provider: "mock".to_owned(),
        symbol: "BTCUSDT".to_owned(),
        interval: interval.to_owned(),
    }
}

fn interval(id: &str, amount: u32, unit: IntervalUnit) -> IntervalDefinition {
    IntervalDefinition {
        id: id.to_owned(),
        label: id.to_owned(),
        amount,
        unit,
    }
}

fn candle(timestamp: i64, close: f64, interval: &str) -> Candle {
    Candle {
        provider: "mock".to_owned(),
        symbol: "BTCUSDT".to_owned(),
        interval: interval.to_owned(),
        timestamp,
        open: close.to_bits(),
        high: (close + 1.0).to_bits(),
        low: (close - 1.0).max(0.1).to_bits(),
        close: close.to_bits(),
        volume: 10.0f64.to_bits(),
        closed: true,
    }
}

fn closes(store: &CandleStore, interval: &str) -> Vec<(i64, f64)> {
    store
        .candles(&stream(interval))
        .expect("ordered snapshot")
        .into_iter()
        .map(|candle| (candle.timestamp, f64::from_bits(candle.close)))
        .collect::<Vec<_>>()
}

#[test]
fn out_of_order_duplicates_and_revisions_produce_one_ordered_series() {
    let mut store = CandleStore::new();

    assert_eq!(
        store.upsert(candle(180_000, 3.0, "1m")),
        Ok(UpsertOutcome::Inserted)
    );
    assert_eq!(
        store.upsert(candle(60_000, 1.0, "1m")),
        Ok(UpsertOutcome::Inserted)
    );
    assert_eq!(
        store.upsert(candle(180_000, 3.0, "1m")),
        Ok(UpsertOutcome::Duplicate)
    );
    assert_eq!(
        store.upsert(candle(180_000, 3.5, "1m")),
        Ok(UpsertOutcome::Revised)
    );
    assert_eq!(
        store.upsert(candle(120_000, 2.0, "1m")),
        Ok(UpsertOutcome::Inserted)
    );

    assert_eq!(
        closes(&store, "1m"),
        vec![(60_000, 1.0), (120_000, 2.0), (180_000, 3.5)]
    );
}

#[test]
fn batch_upserts_are_validated_before_the_store_changes() {
    let mut store = CandleStore::new();
    let mut invalid = candle(120_000, 2.0, "1m");
    invalid.volume = (-1.0f64).to_bits();

    let result = store.upsert_all(vec![candle(60_000, 1.0, "1m"), invalid]);

    assert_eq!(
        result,
        Err(CandleStoreError::InvalidData(
            MarketDataValidationError::NegativeValue("volume")
        ))
    );
    assert!(store.is_empty());
}

#[test]
fn gap_detection_reports_each_missing_fixed_interval_opening() {
    let mut store = CandleStore::new();
    store
        .upsert_all(vec![
            candle(60_000, 1.0, "1m"),
            candle(120_000, 2.0, "1m"),
            candle(300_000, 5.0, "1m"),
        ])
        .expect("valid candles");

    assert_eq!(
        store.gaps(&stream("1m"), &interval("1m", 1, IntervalUnit::Minute)),
        Ok(vec![CandleGap {
            previous_timestamp: 120_000,
            expected_timestamp: 180_000,
            next_timestamp: 300_000,
            missing_candles: 2,
        }])
    );
}

#[test]
fn calendar_months_use_real_month_boundaries() {
    let january = 1_704_067_200_000;
    let february = 1_706_745_600_000;
    let march = 1_709_251_200_000;
    let april = 1_711_929_600_000;
    let monthly = interval("1M", 1, IntervalUnit::Month);
    let mut contiguous = CandleStore::new();
    contiguous
        .upsert_all(vec![
            candle(january, 1.0, "1M"),
            candle(february, 2.0, "1M"),
            candle(march, 3.0, "1M"),
        ])
        .expect("valid monthly candles");

    assert_eq!(contiguous.gaps(&stream("1M"), &monthly), Ok(Vec::new()));

    let mut with_gap = CandleStore::new();
    with_gap
        .upsert_all(vec![candle(january, 1.0, "1M"), candle(april, 4.0, "1M")])
        .expect("valid monthly candles");
    assert_eq!(
        with_gap.gaps(&stream("1M"), &monthly),
        Ok(vec![CandleGap {
            previous_timestamp: january,
            expected_timestamp: february,
            next_timestamp: april,
            missing_candles: 2,
        }])
    );
}

#[test]
fn series_and_interval_definitions_cannot_be_mixed() {
    let store = CandleStore::new();

    assert_eq!(
        store.gaps(&stream("1m"), &interval("5m", 5, IntervalUnit::Minute)),
        Err(CandleStoreError::IntervalMismatch {
            stream_interval: "1m".to_owned(),
            definition_interval: "5m".to_owned(),
        })
    );
}

#[test]
fn upserted_candle_is_read_back() {
    let mut store = CandleStore::new();
    let value = candle(60_000, 1.0, "1m");

    assert_eq!(store.upsert(value), Ok(UpsertOutcome::Inserted));
    let snapshot = store.candles(&stream("1m")).expect("snapshot");
    assert_eq!(snapshot, vec![candle(60_000, 1.0, "1m")]);
    assert_eq!(store.len(&stream("1m")), Ok(1));
    assert!(!store.is_empty());
}

#[test]
fn repeating_an_upsert_is_a_duplicate_that_changes_nothing() {
    let mut store = CandleStore::new();
    store.upsert(candle(60_000, 1.0, "1m")).expect("valid candle");
    let before = store.candles(&stream("1m")).expect("snapshot");

    assert_eq!(
        store.upsert(candle(60_000, 1.0, "1m")),
        Ok(UpsertOutcome::Duplicate)
    );
    assert_eq!(store.candles(&stream("1m")).expect("snapshot"), before);
}

#[test]
fn arrival_order_does_not_change_the_stored_series() {
    let mut forward = CandleStore::new();
    let mut backward = CandleStore::new();
    for timestamp in [60_000, 120_000, 180_000, 240_000] {
        forward
            .upsert(candle(timestamp, timestamp as f64 / 1_000.0, "1m"))
            .expect("valid candle");
    }
    for timestamp in [240_000, 60_000, 180_000, 120_000] {
        backward
            .upsert(candle(timestamp, timestamp as f64 / 1_000.0, "1m"))
            .expect("valid candle");
    }

    assert_eq!(closes(&forward, "1m"), closes(&backward, "1m"));
    assert_eq!(
        closes(&forward, "1m"),
        vec![(60_000, 60.0), (120_000, 120.0), (180_000, 180.0), (240_000, 240.0)]
    );
}

#[test]
fn upserts_leave_other_intervals_untouched() {
    let mut store = CandleStore::new();
    store.upsert(candle(60_000, 1.0, "1m")).expect("valid candle");
    store.upsert(candle(60_000, 9.0, "5m")).expect("valid candle");

    assert_eq!(closes(&store, "1m"), vec![(60_000, 1.0)]);
    assert_eq!(closes(&store, "5m"), vec![(60_000, 9.0)]);
    assert_eq!(store.len(&stream("1h")), Ok(0));
}

#[test]
fn invalid_candles_are_refused_and_not_stored() {
    let mut store = CandleStore::new();
    let mut invalid = candle(60_000, 1.0, "1m");
    invalid.provider = String::new();

    assert_eq!(
        store.upsert(invalid),
        Err(CandleStoreError::InvalidData(
            MarketDataValidationError::InvalidIdentifier("provider")
        ))
    );
    assert!(store.is_empty());
}

#[test]
fn events_are_applied_as_upserts() {
    let mut store = CandleStore::new();
    assert_eq!(
        store.apply(CandleEvent::Upsert {
            candle: candle(60_000, 1.0, "1m")
        }),
        Ok(UpsertOutcome::Inserted)
    );
    assert_eq!(
        store.apply(CandleEvent::Upsert {
            candle: candle(60_000, 1.5, "1m")
        }),
        Ok(UpsertOutcome::Revised)
    );
    assert_eq!(closes(&store, "1m"), vec![(60_000, 1.5)]);
}

#[test]
fn batch_summary_counts_every_candle() {
    let mut store = CandleStore::new();
    store.upsert(candle(60_000, 1.0, "1m")).expect("valid candle");

    let summary = store
        .upsert_all(vec![
            candle(60_000, 1.0, "1m"),
            candle(120_000, 2.0, "1m"),
            candle(120_000, 2.5, "1m"),
            candle(180_000, 3.0, "1m"),
        ])
        .expect("valid batch");

    assert_eq!(
        summary,
        UpsertSummary {
            inserted: 2,
            revised: 1,
            duplicates: 1,
        }
    );
    assert_eq!(
        closes(&store, "1m"),
        vec![(60_000, 1.0), (120_000, 2.5), (180_000, 3.0)]
    );
}

#[test]
fn invalid_streams_are_refused_by_reads() {
    let store = CandleStore::new();
    let padded = CandleStream {
        provider: "mock ".to_owned(),
        symbol: "BTCUSDT".to_owned(),
        interval: "1m".to_owned(),
    };

    assert_eq!(
        store.candles(&padded),
        Err(CandleStoreError::InvalidData(
            MarketDataValidationError::InvalidIdentifier("provider")
        ))
    );
    assert_eq!(
        store.len(&padded),
        Err(CandleStoreError::InvalidData(
            MarketDataValidationError::InvalidIdentifier("provider")
        ))
    );
}

#[test]
fn multi_minute_gaps_count_each_missing_opening() {
    let mut store = CandleStore::new();
    store
        .upsert_all(vec![
            candle(0, 1.0, "5m"),
            candle(300_000, 2.0, "5m"),
            candle(1_800_000, 3.0, "5m"),
            candle(1_900_000, 4.0, "5m"),
        ])
        .expect("valid candles");

    assert_eq!(
        store.gaps(&stream("5m"), &interval("5m", 5, IntervalUnit::Minute)),
        Ok(vec![CandleGap {
            previous_timestamp: 300_000,
            expected_timestamp: 600_000,
            next_timestamp: 1_800_000,
            missing_candles: 4,
        }])
    );
}

#[test]
fn long_intervals_fit_and_overflowing_openings_are_errors() {
    let mut store = CandleStore::new();
    store
        .upsert_all(vec![candle(0, 1.0, "huge"), candle(60_000, 1.0, "huge")])
        .expect("valid candles");
    assert_eq!(
        store.gaps(
            &stream("huge"),
            &interval("huge", u32::MAX, IntervalUnit::Week)
        ),
        Ok(Vec::new())
    );

    let mut late = CandleStore::new();
    late.upsert_all(vec![
        candle(i64::MAX - 10, 1.0, "1m"),
        candle(i64::MAX - 5, 1.0, "1m"),
    ])
    .expect("valid candles");
    assert_eq!(
        late.gaps(&stream("1m"), &interval("1m", 1, IntervalUnit::Minute)),
        Err(CandleStoreError::TimestampOverflow(i64::MAX - 10))
    );

    let mut distant = CandleStore::new();
    distant
        .upsert_all(vec![
            candle(i64::MAX - 10, 1.0, "1M"),
            candle(i64::MAX - 5, 1.0, "1M"),
        ])
        .expect("valid candles");
    assert_eq!(
        distant.gaps(&stream("1M"), &interval("1M", 1, IntervalUnit::Month)),
        Err(CandleStoreError::TimestampOutOfRange(i64::MAX - 10))
    );
}

#[test]
fn invalid_interval_definitions_are_refused_by_gap_detection() {
    let store = CandleStore::new();
    assert_eq!(
        store.gaps(&stream("1m"), &interval("1m", 0, IntervalUnit::Minute)),
        Err(CandleStoreError::InvalidData(
            MarketDataValidationError::ZeroValue("amount")
        ))
    );
}

#[test]
fn store_errors_describe_themselves() {
    assert_eq!(
        CandleStoreError::IntervalMismatch {
            stream_interval: "1m".to_owned(),
            definition_interval: "5m".to_owned(),
        }
        .describe(),
        "stream interval 1m does not match definition 5m"
    );
    assert_eq!(
        CandleStoreError::TimestampOverflow(-12).describe(),
        "interval after timestamp would overflow: -12"
    );
    assert_eq!(
        CandleStoreError::InvalidData(MarketDataValidationError::ZeroValue("amount")).describe(),
        "invalid candle-store data: zero value: amount"
    );
    assert_eq!(
        CandleStoreError::InvalidIntervalDuration.describe(),
        "interval duration is too large"
    );
}
