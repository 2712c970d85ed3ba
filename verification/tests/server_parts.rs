use tlm_server::clock::{epoch_millis, now_millis};
use tlm_server::config::define_config;
use tlm_server::errors::ServerError;
use tlm_server::handlers::health::{health_response, PKG_VERSION};
use tlm_server::handlers::packet::packet_received_response;

#[test]
fn default_config() {
    let c = define_config();
    assert_eq!(c.ip, "127.0.0.1");
    assert_eq!(c.port, 8000);
    assert_eq!(c.app_name, "TLM Server");
    assert_eq!(c.db, "./tlm.db");
    assert_eq!(c.test_db, "./test.db");
}

#[test]
fn server_error_text() {
    assert_eq!(ServerError::Io("boom".to_string()).to_string(), "I/O error: boom");
    assert_eq!(ServerError::Actix("bad".to_string()).to_string(), "Actix error: bad");
    assert_eq!(ServerError::Rusqlite("locked".to_string()).to_string(), "Rusqlite error: locked");
    assert_eq!(ServerError::Other("x".to_string()).to_string(), "Other error: x");
}

#[test]
fn server_error_source() {
    assert_eq!(ServerError::Io("boom".to_string()).source(), Some("boom".to_string()));
    assert_eq!(ServerError::Rusqlite("locked".to_string()).source(), Some("locked".to_string()));
    assert_eq!(ServerError::Other("x".to_string()).source(), None);
}

#[test]
fn health_answer() {
    let r = health_response();
    assert_eq!(r.status, "ok");
    assert_eq!(r.version, PKG_VERSION);
}

#[test]
fn packet_answer() {
    let r = packet_received_response();
    assert_eq!(r.status, "ok");
    assert_eq!(r.message, "Packet received");
}

#[test]
fn clock_reads_after_the_epoch() {
    let a = now_millis();

    assert!(a > 1_500_000_000_000);
}

#[test]
fn epoch_millis_saturates() {
    assert_eq!(epoch_millis(None), 0);
    assert_eq!(epoch_millis(Some(1234)), 1234);
    assert_eq!(epoch_millis(Some(u64::MAX as u128)), u64::MAX);
    assert_eq!(epoch_millis(Some(u128::MAX)), u64::MAX);
}
