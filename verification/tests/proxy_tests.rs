use tachyon_proxy::config::ProxyConfig;
use tachyon_proxy::handler::ErrorKind;
use tachyon_proxy::proxy::{ConnectionLimiter, Proxy};

#[test]
fn test_parse_target_url() {
    // Test HTTP URLs
    let (host, port) = Proxy::parse_target_url(b"http://example.com").unwrap();
    assert_eq!(host, b"example.com".to_vec());
    assert_eq!(port, 80);

    let (host, port) = Proxy::parse_target_url(b"http://example.com:8080").unwrap();
    assert_eq!(host, b"example.com".to_vec());
    assert_eq!(port, 8080);

    // Test HTTPS URLs
    let (host, port) = Proxy::parse_target_url(b"https://example.com").unwrap();
    assert_eq!(host, b"example.com".to_vec());
    assert_eq!(port, 443);

    let (host, port) = Proxy::parse_target_url(b"https://example.com:9443").unwrap();
    assert_eq!(host, b"example.com".to_vec());
    assert_eq!(port, 9443);

    // Test host:port format
    let (host, port) = Proxy::parse_target_url(b"example.com:3000").unwrap();
    assert_eq!(host, b"example.com".to_vec());
    assert_eq!(port, 3000);

    // Test just hostname
    let (host, port) = Proxy::parse_target_url(b"example.com").unwrap();
    assert_eq!(host, b"example.com".to_vec());
    assert_eq!(port, 80);
}

#[test]
fn target_with_non_numeric_port_is_rejected() {
    assert_eq!(Proxy::parse_target_url(b"example.com:abc"), None);
    assert_eq!(Proxy::parse_target_url(b"example.com:80x"), None);
}

#[test]
fn target_with_empty_port_is_rejected() {
    assert_eq!(Proxy::parse_target_url(b"example.com:"), None);
}

#[test]
fn target_with_out_of_range_port_is_rejected() {
    assert_eq!(Proxy::parse_target_url(b"example.com:65536"), None);
    assert_eq!(Proxy::parse_target_url(b"example.com:999999999999999999"), None);
}

#[test]
fn target_port_allows_leading_zeros() {
    let (host, port) = Proxy::parse_target_url(b"example.com:000080").unwrap();
    assert_eq!(host, b"example.com".to_vec());
    assert_eq!(port, 80);
}

#[test]
fn limiter_admits_up_to_capacity_and_rejects_the_next() {
    let mut limiter = ConnectionLimiter::new(2);
    assert_eq!(limiter.capacity_limit(), 2);
    assert_eq!(limiter.active_count(), 0);

    assert!(limiter.try_acquire().is_ok());
    assert!(limiter.try_acquire().is_ok());
    assert_eq!(limiter.active_count(), 2);

    // the pool is full: the third simultaneous connection is rejected
    assert_eq!(limiter.try_acquire(), Err(ErrorKind::Capacity));
    assert_eq!(limiter.active_count(), 2);

    // once one connection finishes, the next is admitted
    limiter.release();
    assert_eq!(limiter.active_count(), 1);
    assert!(limiter.try_acquire().is_ok());
    assert_eq!(limiter.try_acquire(), Err(ErrorKind::Capacity));
}

#[test]
fn limiter_with_zero_capacity_rejects_everything() {
    let mut limiter = ConnectionLimiter::new(0);
    assert_eq!(limiter.try_acquire(), Err(ErrorKind::Capacity));
    assert_eq!(limiter.active_count(), 0);
}

#[test]
fn proxy_new_uses_default_bound_and_timeout() {
    let proxy = Proxy::new(b"127.0.0.1".to_vec(), 8080, None);
    assert_eq!(proxy.host, b"127.0.0.1".to_vec());
    assert_eq!(proxy.port, 8080);
    assert_eq!(proxy.target, None);
    assert_eq!(proxy.max_connections, 100);
    assert_eq!(proxy.timeout_secs, 30);
}

#[test]
fn proxy_with_config_keeps_the_given_bound() {
    let proxy = Proxy::with_config(
        b"0.0.0.0".to_vec(),
        3128,
        Some(b"http://127.0.0.1:9000".to_vec()),
        7,
    );
    assert_eq!(proxy.host, b"0.0.0.0".to_vec());
    assert_eq!(proxy.port, 3128);
    assert_eq!(proxy.target, Some(b"http://127.0.0.1:9000".to_vec()));
    assert_eq!(proxy.max_connections, 7);
    assert_eq!(proxy.timeout_secs, 30);
}

#[test]
fn config_default_matches_documented_values() {
    let config = ProxyConfig::default();
    assert_eq!(config.server.host, b"127.0.0.1".to_vec());
    assert_eq!(config.server.port, 8080);
    assert_eq!(config.server.max_connections, 100);
    assert_eq!(config.server.timeout_seconds, 30);
    assert!(config.upstream.is_none());
}
