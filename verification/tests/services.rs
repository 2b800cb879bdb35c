use std::path::Path;
use taurigo::db::create_pool;
use taurigo::services::{
    health_response, health_url, ping, ping_response, SidecarHealth, SidecarHealthError,
};

#[test]
fn ping_answers_pong_and_reaches_the_database() {
    let pool = create_pool(Path::new(":memory:")).ok().expect("pool should build");
    let (response, _) = ping(&pool);
    assert_eq!(response.message, "pong");
    assert!(response.db_ok);
}

#[test]
fn ping_response_carries_the_database_status() {
    let response = ping_response(false);
    assert_eq!(response.message, "pong");
    assert!(!response.db_ok);
}

#[test]
fn health_url_needs_a_recorded_base_url() {
    assert!(matches!(health_url(None), Err(SidecarHealthError::NotRunning)));
    match health_url(Some("http://127.0.0.1:54213".to_string())) {
        Ok(url) => assert_eq!(url, "http://127.0.0.1:54213/health"),
        Err(_) => panic!("a recorded base URL gives a health URL"),
    }
}

#[test]
fn health_response_carries_the_status() {
    let response = health_response(SidecarHealth { status: "ok".to_string() });
    assert_eq!(response.status, "ok");
}

#[test]
fn health_error_messages() {
    assert_eq!(
        SidecarHealthError::NotRunning.message(),
        "sidecar is not running yet (no port handshake observed)"
    );
}
