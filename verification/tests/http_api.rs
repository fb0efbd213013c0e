use stocksman::http_api::{
    bad_configuration, candle_history_request, catalog_provider, choose_provider, health,
    history_failure, http_response, is_allowed_origin, not_found, parse_query, preflight,
    response_origin, route_of, ProviderChoice, Route,
};
use stocksman::http_request::{ReadProgress, RequestReader};
use stocksman::market_data::MarketDataValidationError;
use stocksman::provider::ProviderError;

fn status_of_candles(target: &str) -> &'static str {
    let (route, query) = route_of("GET", target);
    assert_eq!(route, Route::Candles);
    match candle_history_request(query.as_deref()) {
        Ok(_) => "200 OK",
        Err((status, _)) => status,
    }
}

fn status_of_catalog(target: &str) -> &'static str {
    let (route, query) = route_of("GET", target);
    assert_eq!(route, Route::Catalog);
    match catalog_provider(query.as_deref()) {
        Ok(_) => "200 OK",
        Err((status, _)) => status,
    }
}

fn read_all(bytes: &[u8]) -> ReadProgress {
    let mut reader = RequestReader::new();
    reader.feed(bytes)
}

#[test]
fn malformed_market_data_queries_are_rejected() {
    let missing_status = status_of_candles("/market-data/candles?provider=mock&symbol=BTCUSDT");
    let duplicate_status = status_of_candles(
        "/market-data/candles?provider=mock&provider=mock&symbol=BTCUSDT&interval=1h",
    );
    let extra_catalog_status =
        status_of_catalog("/market-data/catalog?provider=mock&symbol=BTCUSDT");

    assert_eq!(missing_status, "400 Bad Request");
    assert_eq!(duplicate_status, "400 Bad Request");
    assert_eq!(extra_catalog_status, "400 Bad Request");
}

#[test]
fn well_formed_history_queries_become_requests() {
    let request = candle_history_request(Some(
        "provider=mock&symbol=BTCUSDT&interval=1h&start_timestamp=10&end_timestamp=20&limit=80",
    ))
    .expect("request");
    assert_eq!(request.provider, "mock");
    assert_eq!(request.symbol, "BTCUSDT");
    assert_eq!(request.interval, "1h");
    assert_eq!(request.start_timestamp, Some(10));
    assert_eq!(request.end_timestamp, Some(20));
    assert_eq!(request.limit, Some(80));

    let empty_pieces =
        candle_history_request(Some("&provider=mock&&symbol=BTCUSDT&interval=1m&")).expect("request");
    assert_eq!(empty_pieces.limit, None);
}

#[test]
fn unknown_names_empty_values_and_bad_numbers_are_refused() {
    for query in [
        "provider=mock&symbol=BTCUSDT&interval=1h&colour=red",
        "provider=mock&symbol=&interval=1h",
        "provider=mock&symbol=BTCUSDT&interval=1h&limit=-1",
        "provider=mock&symbol=BTCUSDT&interval=1h&start_timestamp=soon",
        "provider",
    ] {
        let (status, body) = candle_history_request(Some(query)).err().expect("refused");
        assert_eq!(status, "400 Bad Request");
        assert_eq!(body, "{\"error\":\"invalid_market_data_request\"}");
    }
    assert!(parse_query("provider=mock&provider=mock").is_none());
    let parameters = parse_query("provider=mock&limit=5").expect("parameters");
    assert_eq!(parameters.len(), 2);
    assert_eq!(parameters.get("limit").map(String::as_str), Some("5"));
    assert_eq!(parameters.get("symbol"), None);
}

#[test]
fn catalogs_are_chosen_by_their_only_parameter() {
    assert_eq!(catalog_provider(Some("provider=mock")), Ok(ProviderChoice::Mock));
    assert_eq!(catalog_provider(Some("provider=binance")), Ok(ProviderChoice::Binance));
    let (status, body) = catalog_provider(Some("provider=kraken")).err().expect("refused");
    assert_eq!(status, "404 Not Found");
    assert_eq!(body, "{\"error\":\"market_data_not_found\"}");
    assert_eq!(
        choose_provider("kraken"),
        Err(ProviderError::UnknownProvider("kraken".to_owned()))
    );
}

#[test]
fn unknown_routes_are_not_exposed() {
    let (route, query) = route_of("GET", "/unknown");
    assert_eq!(route, Route::NotFound);
    assert_eq!(query, None);
    let (status, body) = not_found();
    let response = http_response(status, &body, None);
    assert!(response.starts_with("HTTP/1.1 404 Not Found"));
    assert_eq!(route_of("DELETE", "/configuration").0, Route::NotFound);
}

#[test]
fn routes_follow_method_and_path() {
    assert_eq!(route_of("GET", "/health").0, Route::Health);
    assert_eq!(route_of("OPTIONS", "/configuration").0, Route::Preflight);
    assert_eq!(route_of("GET", "/configuration").0, Route::LoadConfiguration);
    assert_eq!(route_of("PUT", "/configuration").0, Route::SaveConfiguration);
    let (route, query) = route_of("GET", "/market-data/candles?provider=mock");
    assert_eq!(route, Route::Candles);
    assert_eq!(query.as_deref(), Some("provider=mock"));
}

#[test]
fn health_is_answered_with_a_ready_state() {
    let (status, body) = health();
    let response = http_response(status, &body, None);
    assert_eq!(
        response,
        "HTTP/1.1 200 OK\r\nContent-Type: application/json\r\nContent-Length: 17\r\nConnection: close\r\n\r\n{\"state\":\"ready\"}"
    );
}

#[test]
fn configuration_writes_allow_the_desktop_origin_preflight() {
    let origin = response_origin(Some("http://tauri.localhost"));
    assert_eq!(origin.as_deref(), Some("http://tauri.localhost"));
    let (status, body) = preflight();
    let response = http_response(status, &body, origin.as_deref());
    assert!(response.starts_with("HTTP/1.1 204 No Content"));
    assert!(response.contains("Access-Control-Allow-Origin: http://tauri.localhost\r\n"));
    assert!(response.contains("Access-Control-Allow-Methods: GET, PUT, OPTIONS\r\n"));
    assert!(response.contains("Access-Control-Allow-Headers: Content-Type\r\n"));
}

#[test]
fn only_desktop_origins_are_echoed() {
    assert!(is_allowed_origin("tauri://localhost"));
    assert!(is_allowed_origin("http://localhost:1420"));
    assert!(!is_allowed_origin("http://example.com"));
    assert_eq!(response_origin(Some("http://example.com")), None);
    assert_eq!(response_origin(None), None);
}

#[test]
fn invalid_configuration_is_answered_with_its_error() {
    let (status, body) = bad_configuration();
    assert_eq!(status, "400 Bad Request");
    assert_eq!(body, "{\"error\":\"invalid_configuration\"}");
}

#[test]
fn provider_failures_map_to_statuses() {
    assert_eq!(
        history_failure(&ProviderError::UnknownSymbol("X".to_owned())).0,
        "404 Not Found"
    );
    assert_eq!(
        history_failure(&ProviderError::InvalidRequest(
            MarketDataValidationError::InvalidTimeRange
        ))
        .0,
        "400 Bad Request"
    );
    assert_eq!(
        history_failure(&ProviderError::RequestLimitExceeded {
            requested: 2,
            maximum: 1
        })
        .0,
        "400 Bad Request"
    );
    assert_eq!(
        history_failure(&ProviderError::RateLimited {
            retry_after_seconds: None
        })
        .0,
        "429 Too Many Requests"
    );
    assert_eq!(
        history_failure(&ProviderError::Transport("reset".to_owned())).0,
        "500 Internal Server Error"
    );
}

#[test]
fn requests_are_read_once_head_and_body_are_complete() {
    let mut reader = RequestReader::new();
    assert!(matches!(reader.feed(b"PUT /configuration HTTP/1.1\r\n"), ReadProgress::NeedMore));
    assert!(matches!(
        reader.feed(b"Content-Length: 4\r\nOrigin:  http://tauri.localhost \r\n\r\nab"),
        ReadProgress::NeedMore
    ));
    match reader.feed(b"cd") {
        ReadProgress::Complete(request) => {
            assert_eq!(request.method, "PUT");
            assert_eq!(request.path, "/configuration");
            assert_eq!(request.origin.as_deref(), Some("http://tauri.localhost"));
            assert_eq!(request.body, b"abcd".to_vec());
        }
        other => panic!("unexpected progress: {other:?}"),
    }
}

#[test]
fn malformed_requests_are_invalid() {
    assert!(matches!(read_all(b"GET /health\r\n\r\n"), ReadProgress::Invalid));
    assert!(matches!(
        read_all(b"GET /health SPDY/3\r\n\r\n"),
        ReadProgress::Invalid
    ));
    assert!(matches!(
        read_all(b"GET /health HTTP/1.1\r\ncontent-length: many\r\n\r\n"),
        ReadProgress::Invalid
    ));
    assert!(matches!(
        read_all(b"GET /\xff HTTP/1.1\r\n\r\n"),
        ReadProgress::Invalid
    ));
    assert!(matches!(
        read_all(b"GET /health HTTP/1.1\r\nContent-Length: 70000\r\n\r\n"),
        ReadProgress::Invalid
    ));
    match read_all(b"GET /health HTTP/1.1\r\nHost: localhost\r\n\r\n") {
        ReadProgress::Complete(request) => {
            assert_eq!(request.method, "GET");
            assert_eq!(request.path, "/health");
            assert_eq!(request.origin, None);
            assert!(request.body.is_empty());
        }
        other => panic!("unexpected progress: {other:?}"),
    }
}
