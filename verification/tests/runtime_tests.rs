use std::cell::RefCell;

use px_core::proto::{ConnectResponse, StatusCode};
use px_core::runtime::{
    check_upstream_response, format_error_chain, ingress_status_for, join_messages, server_response,
    should_surface_client_error, should_surface_messages, socks_reply_code_for, FirstReadObserver,
    OpenStreamError, RelayReadSide, RuntimeLogger, TargetOutcome,
};

fn chained(outer: &str, inner: &str) -> anyhow::Error {
    anyhow::Error::msg(inner.to_string()).context(outer.to_string())
}

#[test]
fn only_a_success_response_opens_the_stream() {
    let ok = ConnectResponse { status: StatusCode::Success, reason: 0 };
    assert!(check_upstream_response(&ok).is_ok());
    let refused = ConnectResponse { status: StatusCode::TargetConnectFailed, reason: 7 };
    match check_upstream_response(&refused) {
        Err(OpenStreamError::Refused(s)) => assert_eq!(s, StatusCode::TargetConnectFailed),
        _ => panic!("a refusal was expected"),
    }
}

#[test]
fn open_failures_map_to_reply_codes_and_statuses() {
    let connect = OpenStreamError::Connect(anyhow::Error::msg("tls"));
    let timeout = OpenStreamError::Timeout(anyhow::Error::msg("elapsed"));
    let read = OpenStreamError::ResponseRead(anyhow::Error::msg("eof"));
    assert_eq!(socks_reply_code_for(&connect), 0x01);
    assert_eq!(socks_reply_code_for(&timeout), 0x04);
    assert_eq!(socks_reply_code_for(&read), 0x01);
    assert_eq!(socks_reply_code_for(&OpenStreamError::Refused(StatusCode::TargetConnectFailed)), 0x05);
    assert_eq!(socks_reply_code_for(&OpenStreamError::Refused(StatusCode::TlsAuthFailed)), 0x01);
    assert_eq!(ingress_status_for(&connect), StatusCode::InternalError);
    assert_eq!(ingress_status_for(&timeout), StatusCode::Timeout);
    assert_eq!(ingress_status_for(&read), StatusCode::InternalError);
    assert_eq!(ingress_status_for(&OpenStreamError::Refused(StatusCode::BadRequest)), StatusCode::BadRequest);
}

#[test]
fn server_answers_each_outcome() {
    assert_eq!(server_response(TargetOutcome::Connected), ConnectResponse { status: StatusCode::Success, reason: 0 });
    assert_eq!(server_response(TargetOutcome::BadRequest), ConnectResponse { status: StatusCode::BadRequest, reason: 0 });
    assert_eq!(
        server_response(TargetOutcome::ConnectFailed),
        ConnectResponse { status: StatusCode::TargetConnectFailed, reason: 0 }
    );
    assert_eq!(server_response(TargetOutcome::TimedOut), ConnectResponse { status: StatusCode::Timeout, reason: 0 });
}

#[test]
fn error_chains_are_joined() {
    assert_eq!(format_error_chain(&chained("connect upstream", "connection refused")), "connect upstream: connection refused");
    assert_eq!(format_error_chain(&anyhow::Error::msg("alone")), "alone");
    let messages = vec!["a".to_string(), "b".to_string(), "c".to_string()];
    assert_eq!(join_messages(&messages), "a: b: c");
    assert_eq!(join_messages(&Vec::new()), "");
}

#[test]
fn connect_only_errors_are_not_surfaced() {
    assert!(!should_surface_client_error(&anyhow::Error::msg("only CONNECT is supported")));
    assert!(!should_surface_client_error(&chained("socks5 session", "only CONNECT is supported")));
    assert!(should_surface_client_error(&chained("socks5 session", "broken pipe")));
    assert!(!should_surface_messages(&vec!["x".to_string(), "only CONNECT is supported, got 2".to_string()]));
    assert!(should_surface_messages(&vec!["only connect".to_string()]));
}

#[test]
fn logger_forwards_to_its_sink() {
    let seen = RefCell::new(Vec::new());
    let logger = RuntimeLogger::new(Some(|m: String| seen.borrow_mut().push(m)));
    logger.log("first");
    logger.log(String::from("second"));
    assert_eq!(*seen.borrow(), vec!["first".to_string(), "second".to_string()]);
    let three = chained("c", "d").context("b".to_string()).context("a".to_string());
    assert_eq!(format_error_chain(&three), "a: b: c: d");
    let silent: RuntimeLogger<fn(String)> = RuntimeLogger::new(None);
    silent.log("dropped");
}

#[test]
fn relay_sides_name_themselves() {
    assert_eq!(RelayReadSide::Inbound.message(), "ingress relay 首次收到来自本地 helper 的字节");
    assert_eq!(RelayReadSide::Upstream.message(), "ingress relay 首次收到来自上游的字节");
    assert_eq!(RelayReadSide::Inbound.tracing_side(), "from_helper");
    assert_eq!(RelayReadSide::Upstream.tracing_side(), "from_upstream");
}

#[test]
fn first_read_is_reported_once() {
    let mut observer = FirstReadObserver::new();
    assert_eq!(observer.observe(0, 0), None);
    assert_eq!(observer.observe(4, 10), Some(6));
    assert_eq!(observer.observe(0, 3), None);
    assert!(observer.logged);
}

#[test]
fn the_client_opens_the_stream_only_when_the_server_connected() {
    for outcome in [TargetOutcome::Connected, TargetOutcome::BadRequest, TargetOutcome::ConnectFailed, TargetOutcome::TimedOut] {
        let mut bytes = Vec::new();
        server_response(outcome).write_to(&mut bytes);
        let (n, read_back) = ConnectResponse::read_from(&bytes).unwrap();
        assert_eq!(n, 4);
        assert_eq!(read_back, server_response(outcome));
        assert_eq!(check_upstream_response(&read_back).is_ok(), outcome == TargetOutcome::Connected);
    }
}
