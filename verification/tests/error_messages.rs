use oauth_callback::address::{decimal, listen_address};
use oauth_callback::error::ServerError;

#[test]
fn decimal_writes_every_width() {
    assert_eq!(decimal(0), "0");
    assert_eq!(decimal(7), "7");
    assert_eq!(decimal(10), "10");
    assert_eq!(decimal(80), "80");
    assert_eq!(decimal(443), "443");
    assert_eq!(decimal(8080), "8080");
    assert_eq!(decimal(65535), "65535");
}

#[test]
fn decimal_agrees_with_the_standard_library() {
    for n in 0..=u16::MAX {
        assert_eq!(decimal(n), n.to_string());
    }
}

#[test]
fn listen_address_is_loopback() {
    assert_eq!(listen_address(8080), "127.0.0.1:8080");
    assert_eq!(listen_address(0), "127.0.0.1:0");
    assert_eq!(listen_address(65535), "127.0.0.1:65535");
}

#[test]
fn bind_failure_names_port_and_reason() {
    let error = ServerError::Bind { port: 8080, reason: "Address already in use".to_string() };
    assert_eq!(error.message(), "failed to bind 127.0.0.1:8080: Address already in use");
}

#[test]
fn registry_failure_gives_its_reason() {
    let error = ServerError::Registry { reason: "poisoned lock".to_string() };
    assert_eq!(error.message(), "poisoned lock");
}
