use flextunnel::auth::AUTH_CONTEXT;
use flextunnel::endpoint::{
    client_plan, server_plan, AfterHandshakeOutcome, AllowlistHook, ClientEndpoint,
    EndpointAllowlists, EndpointId, RebuildStep, Side, CLOSE_NOT_ALLOWLISTED,
};
use flextunnel::transport::{
    liveness_window, ALPN, BRIDGE_ALPN, HEARTBEAT_INTERVAL, HEARTBEAT_INTERVAL_IDLE,
    LIVENESS_WINDOW, QUICK_ALPN, QUIC_IDLE_TIMEOUT, QUIC_INITIAL_MTU,
};

fn id(n: u8) -> EndpointId {
    EndpointId { bytes: [n; 32] }
}

fn rejected(reason: &str) -> AfterHandshakeOutcome {
    AfterHandshakeOutcome::Reject { error_code: 3, reason: reason.to_string() }
}

#[test]
fn the_allowlist_gates_bridges_and_quick_clients() {
    assert_eq!(CLOSE_NOT_ALLOWLISTED, 3);
    let hook = AllowlistHook::new(EndpointAllowlists {
        bridge_servers: vec![id(1)],
        quick_clients: vec![id(2), id(3)],
    });
    let server = |alpn: &str, who: u8| hook.after_handshake(Side::Server, alpn.as_bytes(), &id(who));
    assert_eq!(server(BRIDGE_ALPN, 1), AfterHandshakeOutcome::Accept);
    assert_eq!(
        server(BRIDGE_ALPN, 2),
        rejected("server id is not on this server's bridge allowlist")
    );
    assert_eq!(server(QUICK_ALPN, 2), AfterHandshakeOutcome::Accept);
    assert_eq!(server(QUICK_ALPN, 3), AfterHandshakeOutcome::Accept);
    assert_eq!(
        server(QUICK_ALPN, 1),
        rejected("client id is not on this server's quick-client allowlist")
    );
    // Regular clients authenticate later, and own dials pass.
    assert_eq!(server(ALPN, 9), AfterHandshakeOutcome::Accept);
    assert_eq!(
        hook.after_handshake(Side::Client, BRIDGE_ALPN.as_bytes(), &id(9)),
        AfterHandshakeOutcome::Accept
    );
}

#[test]
fn an_empty_allowlist_turns_its_label_off() {
    let hook = AllowlistHook::new(EndpointAllowlists::default());
    assert_eq!(
        hook.after_handshake(Side::Server, BRIDGE_ALPN.as_bytes(), &id(1)),
        rejected("bridging is not enabled on this server")
    );
    assert_eq!(
        hook.after_handshake(Side::Server, QUICK_ALPN.as_bytes(), &id(1)),
        rejected("quick mode is not enabled on this server")
    );
}

#[test]
fn endpoints_are_bound_by_role() {
    let server = server_plan([5; 32]);
    assert!(server.publish_address);
    assert_eq!(
        server.alpns,
        vec!["flextunnel/1", "flextunnel-bridge/1", "flextunnel-quick/1"]
    );
    assert_eq!(server.secret, Some([5; 32]));
    for secret in [None, Some([6; 32])] {
        let client = client_plan(secret);
        assert!(!client.publish_address);
        assert!(client.alpns.is_empty());
        assert_eq!(client.secret, secret);
    }
    assert_eq!(AUTH_CONTEXT, "flextunnel-client-auth-v1");
}

#[test]
fn a_rebuild_swaps_the_endpoint() {
    let mut handle = ClientEndpoint::from_parts("first");
    assert_eq!(*handle.endpoint(), "first");
    let seen = handle.generation();
    assert_eq!(handle.rebuild(seen), RebuildStep::Build);
    assert_eq!(handle.install(Ok("second")), Ok("first"));
    assert_eq!(*handle.endpoint(), "second");
    // A failed build leaves the endpoint in use.
    let seen = handle.generation();
    assert_eq!(handle.install(Err("no network".to_string())), Err("no network".to_string()));
    assert_eq!(*handle.endpoint(), "second");
    assert_eq!(handle.rebuild(seen), RebuildStep::Build);
}

#[test]
fn concurrent_rebuilds_coalesce_into_one() {
    let mut handle = ClientEndpoint::from_parts(1);
    let (a, b) = (handle.generation(), handle.generation());
    assert_eq!(handle.rebuild(a), RebuildStep::Build);
    handle.install(Ok(2)).unwrap();
    assert_eq!(handle.rebuild(b), RebuildStep::Joined);
    assert_eq!(*handle.endpoint(), 2);
    // A later outage builds again.
    assert_eq!(handle.rebuild(handle.generation()), RebuildStep::Build);
}

#[test]
fn after_a_failed_build_the_next_caller_builds() {
    let mut handle = ClientEndpoint::from_parts(1);
    let seen = handle.generation();
    assert_eq!(handle.rebuild(seen), RebuildStep::Build);
    assert!(handle.install(Err("no network".to_string())).is_err());
    assert_eq!(handle.rebuild(seen), RebuildStep::Build);
    assert_eq!(handle.install(Ok(2)), Ok(1));
    for _ in 0..2 {
        assert_eq!(handle.rebuild(seen), RebuildStep::Joined);
    }
    assert_eq!(*handle.endpoint(), 2);
}

#[test]
fn liveness_windows() {
    assert_eq!(liveness_window(HEARTBEAT_INTERVAL), 33_000);
    assert_eq!(liveness_window(HEARTBEAT_INTERVAL_IDLE), 183_000);
    assert_eq!(LIVENESS_WINDOW, 183_000);
    assert_eq!(liveness_window(1_500), 7_500);
    assert_eq!(liveness_window(0), 3_000);
    assert_eq!(QUIC_IDLE_TIMEOUT, 180_000);
    assert_eq!(QUIC_INITIAL_MTU, 1452);
}
