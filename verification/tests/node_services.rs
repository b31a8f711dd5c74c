use orage::logger::{FilesystemLogger, LogLevel, LogRecord, LOG_DIR, LOG_FILE, MAX_LOG_SECS, MIN_LOG_SECS};
use orage::node::{
    client_endpoint, control_listen_addr, BaseLayerStateProvider, ConfirmationTarget, ControlRequest, OrageManager,
    CONTROL_PORT, DEFAULT_CLIENT_PORT,
};

#[test]
fn state_provider_is_created_and_estimates_a_flat_rate() {
    let p = BaseLayerStateProvider::new("127.0.0.1".to_string(), 18443, None, "u".to_string(), "p".to_string());
    let p = p.expect("setting up a provider does not fail");
    assert_eq!(p.get_est_sat_per_1000_weight(ConfirmationTarget::Background), 100);
    assert_eq!(p.get_est_sat_per_1000_weight(ConfirmationTarget::Normal), 100);
    assert_eq!(p.get_est_sat_per_1000_weight(ConfirmationTarget::HighPriority), 100);
}

#[test]
fn control_requests_are_announced() {
    let m = OrageManager::new();
    assert_eq!(m.request_notice(ControlRequest::OrageStatus), "[ORAGED] orage status request");
    assert_eq!(m.request_notice(ControlRequest::AddGossip), "[ORAGED] add gossip request");
    assert_eq!(m.request_notice(ControlRequest::AutocleanInvoice), "[ORAGED] autoclean invoice request");
    assert_eq!(m.request_notice(ControlRequest::Check), "[ORAGED] check");
    assert_eq!(m.request_notice(ControlRequest::CheckMessage), "[ORAGED] check message");
    assert_eq!(m.request_notice(ControlRequest::Close), "[ORAGED] check message");
    assert_eq!(m.request_notice(ControlRequest::ConnectOrage), "[ORAGED] connect");
    assert_eq!(m.request_notice(ControlRequest::CreateInvoice), "[ORAGED] create invoice");
}

#[test]
fn client_reaches_the_daemon() {
    assert_eq!(control_listen_addr(CONTROL_PORT), "[::1]:20001");
    assert_eq!(client_endpoint(DEFAULT_CLIENT_PORT), "http://[::1]:20001");
    assert_eq!(client_endpoint("7"), format!("http://{}", control_listen_addr(7)));
    assert_eq!(control_listen_addr(0), "[::1]:0");
}

#[test]
fn level_names() {
    assert_eq!(LogLevel::Gossip.name(), "GOSSIP");
    assert_eq!(LogLevel::Trace.name(), "TRACE");
    assert_eq!(LogLevel::Debug.name(), "DEBUG");
    assert_eq!(LogLevel::Info.name(), "INFO");
    assert_eq!(LogLevel::Warn.name(), "WARN");
    assert_eq!(LogLevel::Error.name(), "ERROR");
}

#[test]
fn log_line_layout() {
    let logger = FilesystemLogger {};
    let rec = LogRecord {
        level: LogLevel::Info,
        module: "lightning::ln::peer_handler".to_string(),
        line: 1234,
        message: "Connected".to_string(),
    };
    assert_eq!(
        logger.log_line(0, &rec),
        "1970-01-01 0:00:00 INFO  [lightning::ln::peer_handler:1234] Connected"
    );
    let rec = LogRecord { level: LogLevel::Gossip, module: "m".to_string(), line: 0, message: String::new() };
    assert_eq!(logger.log_line(1_700_000_000, &rec), "2023-11-14 22:13:20 GOSSIP [m:0] ");
    let rec = LogRecord { level: LogLevel::Error, module: "m".to_string(), line: 7, message: "x".to_string() };
    assert_eq!(logger.log_line(-1, &rec), "1969-12-31 23:59:59 ERROR [m:7] x");
    assert_eq!(LOG_DIR, "logs");
    assert_eq!(LOG_FILE, "./logs/logs.txt");
}

#[test]
fn log_clock_range_ends_render() {
    let logger = FilesystemLogger {};
    let rec = LogRecord { level: LogLevel::Warn, module: "m".to_string(), line: 1, message: "x".to_string() };
    let first = logger.log_line(MIN_LOG_SECS, &rec);
    assert!(first.starts_with("-100000-01-01 0:00:00 WARN  [m:1] x"), "{}", first);
    let last = logger.log_line(MAX_LOG_SECS, &rec);
    assert!(last.starts_with("+100000-12-31 23:59:59 WARN  [m:1] x"), "{}", last);
}
