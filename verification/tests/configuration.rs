use stocksman::configuration::{
    check_schema_version, ChartTabConfiguration, ChartViewportConfiguration, PersistenceError,
    ThemePreference, UserConfiguration, WorkspaceConfiguration,
};

fn field_of(result: Result<(), PersistenceError>) -> Option<&'static str> {
    match result {
        Ok(()) => None,
        Err(PersistenceError::InvalidPreference(field)) => Some(field),
        Err(other) => panic!("unexpected error: {other:?}"),
    }
}

fn saved_example() -> UserConfiguration {
    UserConfiguration {
        theme: ThemePreference::Dark,
        locale: Some("en-GB".to_owned()),
        time_zone: Some("Europe/Kaliningrad".to_owned()),
        workspace: WorkspaceConfiguration {
            tabs: vec![
                ChartTabConfiguration {
                    symbol: "ETHUSDT".to_owned(),
                    interval: "5m".to_owned(),
                    signals_visible: false,
                    viewport: ChartViewportConfiguration {
                        visible_candle_count: Some(40),
                        start_timestamp: Some(1_704_067_200_000),
                        follow_latest: false,
                    },
                    ..ChartTabConfiguration::default()
                },
                ChartTabConfiguration {
                    id: 2,
                    symbol: "SOLUSDT".to_owned(),
                    ..ChartTabConfiguration::default()
                },
            ],
            active_tab_id: 2,
        },
    }
}

#[test]
fn default_configuration_is_valid() {
    let configuration = UserConfiguration::default();
    assert_eq!(field_of(configuration.validate()), None);
    assert_eq!(configuration.theme, ThemePreference::System);
    assert_eq!(configuration.locale, None);
    assert_eq!(configuration.workspace.active_tab_id, 1);
    assert_eq!(configuration.workspace.tabs.len(), 1);
    assert_eq!(configuration.workspace.tabs[0].provider, "binance");
    assert_eq!(configuration.workspace.tabs[0].symbol, "BTCUSDT");
    assert_eq!(configuration.workspace.tabs[0].interval, "1h");
}

#[test]
fn a_full_workspace_is_valid_and_compares_equal_to_its_clone() {
    let configuration = saved_example();
    assert_eq!(field_of(configuration.validate()), None);
    assert_eq!(configuration.clone(), configuration);
    assert_ne!(configuration, UserConfiguration::default());
}

#[test]
fn invalid_preferences_are_refused_by_validation() {
    let invalid = UserConfiguration {
        locale: Some(String::new()),
        ..UserConfiguration::default()
    };
    assert!(matches!(
        invalid.validate(),
        Err(PersistenceError::InvalidPreference("locale"))
    ));

    let padded = UserConfiguration {
        time_zone: Some(" UTC".to_owned()),
        ..UserConfiguration::default()
    };
    assert_eq!(field_of(padded.validate()), Some("time_zone"));

    let long = UserConfiguration {
        locale: Some("é".repeat(65)),
        ..UserConfiguration::default()
    };
    assert_eq!(field_of(long.validate()), Some("locale"));

    let control = UserConfiguration {
        locale: Some("en\u{0}GB".to_owned()),
        ..UserConfiguration::default()
    };
    assert_eq!(field_of(control.validate()), Some("locale"));
}

#[test]
fn invalid_workspaces_are_refused_by_validation() {
    let mut duplicate = UserConfiguration::default();
    duplicate
        .workspace
        .tabs
        .push(ChartTabConfiguration::default());
    assert!(matches!(
        duplicate.validate(),
        Err(PersistenceError::InvalidPreference("workspace.tabs.id"))
    ));

    let mut missing_active = UserConfiguration::default();
    missing_active.workspace.active_tab_id = 7;
    assert_eq!(
        field_of(missing_active.validate()),
        Some("workspace.active_tab_id")
    );

    let mut empty = UserConfiguration::default();
    empty.workspace.tabs.clear();
    assert_eq!(field_of(empty.validate()), Some("workspace.tabs"));

    let mut many = UserConfiguration::default();
    for id in 2..=13 {
        many.workspace.tabs.push(ChartTabConfiguration {
            id,
            ..ChartTabConfiguration::default()
        });
    }
    assert_eq!(field_of(many.validate()), Some("workspace.tabs"));

    let mut symbol = UserConfiguration::default();
    symbol.workspace.tabs[0].symbol = "BTC/USDT".to_owned();
    assert_eq!(field_of(symbol.validate()), Some("workspace.tabs.symbol"));
}

#[test]
fn viewports_follow_their_rules() {
    let mut zero = UserConfiguration::default();
    zero.workspace.tabs[0].viewport.visible_candle_count = Some(0);
    assert_eq!(
        field_of(zero.validate()),
        Some("workspace.tabs.viewport.visible_candle_count")
    );

    let mut following = UserConfiguration::default();
    following.workspace.tabs[0].viewport.start_timestamp = Some(1);
    assert_eq!(
        field_of(following.validate()),
        Some("workspace.tabs.viewport.start_timestamp")
    );

    let mut pinned = UserConfiguration::default();
    pinned.workspace.tabs[0].viewport = ChartViewportConfiguration {
        visible_candle_count: Some(10_000),
        start_timestamp: Some(1),
        follow_latest: false,
    };
    assert_eq!(field_of(pinned.validate()), None);
}

#[test]
fn newer_databases_are_refused() {
    assert!(check_schema_version(2, 2).is_ok());
    assert!(check_schema_version(0, 2).is_ok());
    match check_schema_version(3, 2) {
        Err(error @ PersistenceError::DatabaseTooNew { .. }) => {
            assert_eq!(
                error.describe(),
                "database schema version 3 is newer than supported version 2"
            );
            assert!(!error.is_invalid_configuration());
        }
        other => panic!("unexpected result: {other:?}"),
    }
}

#[test]
fn persistence_errors_describe_their_cause() {
    assert_eq!(
        PersistenceError::InvalidPreference("locale").describe(),
        "invalid user configuration field: locale"
    );
    assert!(PersistenceError::InvalidPreference("locale").is_invalid_configuration());
    assert_eq!(
        PersistenceError::MissingConfiguration.describe(),
        "user configuration is missing"
    );

    let database = PersistenceError::from(rusqlite::Error::QueryReturnedNoRows);
    let text = database.describe();
    assert!(text.starts_with("database error: "));
    assert!(text.len() > "database error: ".len());

    let io = PersistenceError::from(std::io::Error::new(
        std::io::ErrorKind::Other,
        "disk unplugged",
    ));
    assert_eq!(io.describe(), "database directory error: disk unplugged");

    let json = PersistenceError::from(serde_json::from_str::<u8>("x").unwrap_err());
    let text = json.describe();
    assert!(text.starts_with("configuration encoding error: "));
    assert!(text.len() > "configuration encoding error: ".len());
}
