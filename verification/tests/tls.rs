use opensovd::tls::{
    listener_step, HandshakeSlots, ListenerAction, ListenerEvent, ServerTlsConfig,
    ACCEPT_RETRY_MS, MAX_PENDING_HANDSHAKES, TLS_HANDSHAKE_TIMEOUT_MS,
};

#[test]
fn client_cas_extends() {
    let config = ServerTlsConfig::new("a".into(), "b".into())
        .client_cas(vec!["c".to_string(), "d".to_string()])
        .client_ca("e".into());
    assert_eq!(config.client_ca_paths().len(), 3);
    assert_eq!(config.client_ca_paths(), &vec!["c".to_string(), "d".to_string(), "e".to_string()]);
    assert_eq!(config.cert(), "a");
    assert_eq!(config.key(), "b");
}

#[test]
fn no_client_ca_means_no_client_auth() {
    let config = ServerTlsConfig::new("server.crt".into(), "server.key".into());
    assert!(!config.is_mtls());
    assert!(!config.clone().client_cas(Vec::new()).is_mtls());
}

#[test]
fn a_client_ca_enables_mtls() {
    let config = ServerTlsConfig::new("server.crt".into(), "server.key".into()).client_ca("ca.crt".into());
    assert!(config.is_mtls());
    let config = ServerTlsConfig::new("server.crt".into(), "server.key".into())
        .client_cas(vec!["ca.crt".to_string()]);
    assert!(config.is_mtls());
}

#[test]
fn accepted_connections_get_a_handshake_while_slots_are_free() {
    let s = HandshakeSlots::new();
    let (s, a) = listener_step(s, ListenerEvent::Accepted);
    assert_eq!(s.pending, 1);
    assert_eq!(a, ListenerAction::StartHandshake { timeout_ms: TLS_HANDSHAKE_TIMEOUT_MS });
    assert_eq!(TLS_HANDSHAKE_TIMEOUT_MS, 10_000);
    let (s, a) = listener_step(s, ListenerEvent::HandshakeEnded);
    assert_eq!(s.pending, 0);
    assert_eq!(a, ListenerAction::Wait);
}

#[test]
fn a_full_handshake_queue_drops_the_connection() {
    let mut s = HandshakeSlots::new();
    for _ in 0..MAX_PENDING_HANDSHAKES {
        let (next, a) = listener_step(s, ListenerEvent::Accepted);
        assert!(matches!(a, ListenerAction::StartHandshake { .. }));
        s = next;
    }
    assert_eq!(s.pending, 256);
    let (s, a) = listener_step(s, ListenerEvent::Accepted);
    assert_eq!(a, ListenerAction::DropConnection);
    assert_eq!(s.pending, 256);
    let (s, _) = listener_step(s, ListenerEvent::HandshakeEnded);
    let (s, a) = listener_step(s, ListenerEvent::Accepted);
    assert!(matches!(a, ListenerAction::StartHandshake { .. }));
    assert_eq!(s.pending, 256);
}

#[test]
fn accept_errors_pause_and_completed_handshakes_are_delivered() {
    let s = HandshakeSlots::new();
    assert_eq!(listener_step(s, ListenerEvent::AcceptFailed).1, ListenerAction::Pause { ms: ACCEPT_RETRY_MS });
    assert_eq!(ACCEPT_RETRY_MS, 10);
    let (s2, a) = listener_step(s, ListenerEvent::Completed);
    assert_eq!(a, ListenerAction::Deliver);
    assert_eq!(s2, s);
}
