use chargebot::utils::error::{Error, TransportError};
use chargebot::utils::metrics::{api_call_labels, APICallOutcome};
use chargebot::utils::retry::{retry_after, MaybeRetriable};
use chargebot::whatever::{SnafuExt, WhateverReport, WhateverSync, WrapDebug};

fn transport() -> TransportError {
    TransportError {
        message: "boom".to_string(),
        connect: false,
        timeout: false,
        request: false,
        body: false,
        decode: false,
        status: None,
    }
}

#[test]
fn error_retriable() {
    assert!(Error::UnexpectedStatus { code: 503 }.is_retriable());
    assert!(Error::UnexpectedStatus { code: 500 }.is_retriable());
    assert!(!Error::UnexpectedStatus { code: 600 }.is_retriable());
    assert!(!Error::UnexpectedStatus { code: 400 }.is_retriable());
    assert!(!Error::InvalidContents { msg: "x".to_string() }.is_retriable());
    assert!(!Error::ReqwestError { source: transport() }.is_retriable());
    assert!(Error::ReqwestError { source: TransportError { timeout: true, ..transport() } }.is_retriable());
    assert!(Error::ReqwestError { source: TransportError { body: true, ..transport() } }.is_retriable());
    assert!(!Error::ReqwestError { source: TransportError { body: true, decode: true, ..transport() } }.is_retriable());
    assert!(Error::ReqwestError { source: TransportError { status: Some(502), ..transport() } }.is_retriable());
}

#[test]
fn error_status_and_text() {
    assert!(Error::expect_status_code(200, 200).is_ok());
    let e = Error::expect_status_code(200, 404).unwrap_err();
    assert!(matches!(e, Error::UnexpectedStatus { code: 404 }));
    assert_eq!(e.to_string(), "unexpected response status: 404");
    assert_eq!(Error::InvalidContents { msg: "ok=false in API response".to_string() }.to_string(), "ok=false in API response");
    assert_eq!(Error::ReqwestError { source: transport() }.to_string(), "boom");
}

#[test]
fn retry_decisions() {
    assert_eq!(retry_after(&Error::UnexpectedStatus { code: 503 }, Some(7u64)), Some(7));
    assert_eq!(retry_after(&Error::UnexpectedStatus { code: 503 }, None::<u64>), None);
    assert_eq!(retry_after(&Error::UnexpectedStatus { code: 400 }, Some(7u64)), None);
}

#[test]
fn metrics_labels() {
    let ok: Result<(), Error> = Ok(());
    let l = api_call_labels("get_park".to_string(), &ok);
    assert_eq!((l.endpoint.as_str(), l.status_code, l.outcome), ("get_park", 200, APICallOutcome::Success));
    let l = api_call_labels("x".to_string(), &Err::<(), Error>(Error::UnexpectedStatus { code: 404 }));
    assert_eq!((l.status_code, l.outcome), (404, APICallOutcome::Failure));
    let l = api_call_labels("x".to_string(), &Err::<(), Error>(Error::InvalidContents { msg: String::new() }));
    assert_eq!(l.status_code, 200);
    let l = api_call_labels("x".to_string(), &Err::<(), Error>(Error::ReqwestError { source: transport() }));
    assert_eq!(l.status_code, 0);
}

#[test]
fn whatever_text() {
    assert_eq!(WhateverSync::without_source("m".to_string()).to_string(), "m");
    assert_eq!(WhateverSync::with_source("inner".to_string(), "outer".to_string()).to_string(), "outer");
    assert_eq!(WhateverSync::Transparent { source: "inner".to_string() }.to_string(), "inner");
}

#[test]
fn whatever_conversions() {
    let ok: Result<u8, String> = Ok(3);
    assert!(matches!(ok.whatever(), Ok(3)));
    let err: Result<u8, String> = Err("disk full".to_string());
    match err.whatever() {
        Err(e) => assert_eq!(e.to_string(), "disk full"),
        Ok(_) => panic!("expected an error"),
    }
    let err: Result<u8, String> = Err("disk full".to_string());
    match err.whatever_msg("unable to load config file".to_string()) {
        Err(WhateverSync::Context { source, message }) => {
            assert_eq!(source, "disk full");
            assert_eq!(message, "unable to load config file");
        }
        _ => panic!("expected a context error"),
    }
    assert_eq!(WrapDebug { source: "Inner { code: 7 }".to_string() }.to_string(), "Inner { code: 7 }");
}

#[test]
fn whatever_report_render() {
    let report = WhateverReport {
        error: "boom".to_string(),
        causes: vec!["c1".to_string(), "c2".to_string()],
        backtrace: "   0: app::f\n             at ./crates/app/src/x.rs:1:2\n   1: std::g\n             at /rustc/lib.rs:3\n"
            .to_string(),
    };
    assert_eq!(
        report.render(),
        "boom\n\nCaused by: c1\n\nCaused by: c2\n\nBacktrace:\napp::f\n    at ./crates/app/src/x.rs:1:2\n"
    );
    let bare = WhateverReport { error: "e".to_string(), causes: vec![], backtrace: String::new() };
    assert_eq!(bare.render(), "e\n\nBacktrace:\n");
}
