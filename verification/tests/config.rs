use chargebot::config::{
    validate_duration, BotConfig, Chat, DurationMinMax, Location, MetricsServer, Park, Polling,
    Station, Telegram, ValidationCode, Webhook, FLO,
};

fn valid_config() -> BotConfig {
    BotConfig {
        locations: vec![Location {
            id: "l1".to_string(),
            name: "L1".to_string(),
            parks: vec![Park { id: "p".to_string(), stations: vec![] }],
        }],
        chats: vec![Chat { id: -5, locations: vec!["l1".to_string()] }],
        telegram: Telegram {
            api_token: "0123456789012345678901234567890123456".to_string(),
            http_timeout: Telegram::default_http_timeout(),
            output_buffer_size: Telegram::default_output_buffer_size(),
            webhook: None,
            polling: Some(Polling {
                duration_seconds: Polling::default_duration(),
                http_timeout: Polling::default_http_timeout(),
            }),
            updates_buffer_size: Telegram::default_updates_buffer_size(),
        },
        flo: FLO::default(),
        metrics_server: None,
    }
}

fn codes(c: &BotConfig) -> Vec<(String, ValidationCode)> {
    match c.validate() {
        Ok(()) => vec![],
        Err(v) => v.into_iter().map(|e| (e.field, e.code)).collect(),
    }
}

#[test]
fn config_defaults() {
    let f = FLO::default();
    assert_eq!(f.http_timeout, 5);
    assert_eq!((f.poll_interval.min, f.poll_interval.max), (40, 100));
    assert_eq!((f.input_buffer_size, f.output_buffer_size), (100, 100));
    assert_eq!(Webhook::default_bind_addr(), "0.0.0.0:8000");
    assert_eq!(Webhook::default_accept_timeout(), 5);
    assert_eq!(MetricsServer::default_bind_addr(), "0.0.0.0:9090");
    assert_eq!(MetricsServer::default_path(), "/metrics/");
    assert_eq!(Polling::default_http_timeout(), 65);
}

#[test]
fn config_valid() {
    assert!(valid_config().validate().is_ok());
}

#[test]
fn config_reports_every_problem() {
    let mut c = valid_config();
    c.locations[0].name = String::new();
    c.chats.push(Chat { id: 0, locations: vec![] });
    c.telegram.api_token = "short".to_string();
    c.flo.poll_interval = DurationMinMax { min: 10, max: 0 };
    c.metrics_server = Some(MetricsServer { bind_addr: String::new(), path: String::new() });
    assert_eq!(
        codes(&c),
        vec![
            ("locations[0].name".to_string(), ValidationCode::Length),
            ("chats[1].id".to_string(), ValidationCode::ChatIdZero),
            ("chats[1].locations".to_string(), ValidationCode::Length),
            ("telegram.api_token".to_string(), ValidationCode::Length),
            ("flo.poll_interval.max".to_string(), ValidationCode::DurationZero),
            ("flo.poll_interval".to_string(), ValidationCode::InvalidRange),
            ("metrics_server.path".to_string(), ValidationCode::Length),
        ]
    );
}

#[test]
fn config_nested_settings() {
    let mut c = valid_config();
    c.telegram.webhook = Some(Webhook {
        bind_addr: Webhook::default_bind_addr(),
        path: String::new(),
        secret_token: "s".to_string(),
        accept_timeout: 0,
        metrics_path: Some(String::new()),
    });
    c.telegram.polling = Some(Polling { duration_seconds: 0, http_timeout: 1 });
    c.flo.user_agent = Some(String::new());
    c.flo.input_buffer_size = 0;
    assert_eq!(
        codes(&c),
        vec![
            ("telegram.webhook.path".to_string(), ValidationCode::Length),
            ("telegram.webhook.accept_timeout".to_string(), ValidationCode::DurationZero),
            ("telegram.webhook.metrics_path".to_string(), ValidationCode::Length),
            ("telegram.polling.duration_seconds".to_string(), ValidationCode::Range),
            ("flo.user_agent".to_string(), ValidationCode::Length),
            ("flo.input_buffer_size".to_string(), ValidationCode::Range),
        ]
    );
}

#[test]
fn config_api_origin() {
    assert_eq!(FLO::validate_api_origin("https://example.com"), Ok(()));
    assert_eq!(FLO::validate_api_origin("http://localhost:8080/"), Ok(()));
    assert_eq!(FLO::validate_api_origin("ftp://example.com"), Err(ValidationCode::UrlInvalidProtocol));
    assert_eq!(FLO::validate_api_origin("https://example.com/api"), Err(ValidationCode::UrlTooSpecific));
    assert_eq!(FLO::validate_api_origin("https://example.com/?q=1"), Err(ValidationCode::UrlTooSpecific));
    assert_eq!(FLO::validate_api_origin("https://example.com/#x"), Err(ValidationCode::UrlTooSpecific));
    assert_eq!(FLO::validate_api_origin("not a url"), Err(ValidationCode::UrlInvalid));
    let mut c = valid_config();
    c.flo.api_origin = Some("mailto:x@y.z".to_string());
    assert_eq!(codes(&c), vec![("flo.api_origin".to_string(), ValidationCode::UrlInvalidProtocol)]);
}

#[test]
fn config_single_items() {
    assert_eq!(Chat::validate_id(0), Err(ValidationCode::ChatIdZero));
    assert_eq!(Chat::validate_id(-1), Ok(()));
    assert_eq!(validate_duration(0), Err(ValidationCode::DurationZero));
    assert!(Station { id: "x".repeat(36), alias: "a".to_string() }.validate().is_ok());
    let errs = Station { id: "x".to_string(), alias: String::new() }.validate().unwrap_err();
    assert_eq!(errs.len(), 2);
    assert_eq!(errs[0].field, "id");
    assert!(Park { id: "ü".repeat(36), stations: vec![] }.validate().is_err());
    assert!(FLO::validate_poll_interval(&DurationMinMax { min: 3, max: 3 }).is_ok());
    let l = Location { id: "l".to_string(), name: "n".to_string(), parks: vec![] };
    assert_eq!(l.validate().unwrap_err()[0].field, "parks");
    assert_eq!(l.all_stations().len(), 0);
}
