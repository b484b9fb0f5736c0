use braid_node::transport::{
    client_policy, server_policy, IdleTimeout, SkipServerVerification, TrustMode,
};
use braid_node::upstream::{decimal_digits, rpc_endpoint, should_poll_upstream};

#[test]
fn client_accepts_any_identity_and_never_times_out() {
    let p = client_policy();
    assert_eq!(p.trust, TrustMode::AcceptAny);
    assert_eq!(p.idle, IdleTimeout::Infinite);
    let v = SkipServerVerification::new();
    assert_eq!(*v, SkipServerVerification);
}

#[test]
fn server_verifies_and_never_times_out() {
    let p = server_policy();
    assert_eq!(p.trust, TrustMode::VerifyRemote);
    assert_eq!(p.idle, IdleTimeout::Infinite);
}

#[test]
fn ports_format_in_decimal() {
    assert_eq!(decimal_digits(0), b"0".to_vec());
    assert_eq!(decimal_digits(7), b"7".to_vec());
    assert_eq!(decimal_digits(10), b"10".to_vec());
    assert_eq!(decimal_digits(8332), b"8332".to_vec());
    assert_eq!(decimal_digits(65535), b"65535".to_vec());
}

#[test]
fn endpoint_joins_url_and_port() {
    let url = b"http://127.0.0.1".to_vec();
    assert_eq!(rpc_endpoint(&url, 8332), b"http://127.0.0.1:8332".to_vec());
    let empty = Vec::new();
    assert_eq!(rpc_endpoint(&empty, 1), b":1".to_vec());
}

#[test]
fn refresher_runs_only_for_http_urls() {
    assert!(should_poll_upstream(&b"http://127.0.0.1".to_vec()));
    assert!(should_poll_upstream(&b"https://node.example".to_vec()));
    assert!(should_poll_upstream(&b"http".to_vec()));
    assert!(should_poll_upstream(&b"xxhttpxx".to_vec()));
    assert!(!should_poll_upstream(&b"htt".to_vec()));
    assert!(!should_poll_upstream(&b"127.0.0.1".to_vec()));
    assert!(!should_poll_upstream(&b"".to_vec()));
    assert!(!should_poll_upstream(&b"htxtp".to_vec()));
}
