use flextunnel::signaling::{
    decode_bridge_hello, decode_hello, decode_hello_response, AcceptedRoutes, BridgeHello,
    BridgeSummary, ClientAuthPayload, ControlMsg, Hello, HelloResponse, MAX_CONTROL_MSG_SIZE,
    MAX_HANDSHAKE_SIZE, PROTOCOL_VERSION,
};

#[test]
fn hello_is_of_this_version() {
    let auth = ClientAuthPayload {
        public_key: "flextunnelpubv1:abc".to_string(),
        endpoint_id: "endpointid".to_string(),
        signature: "sig".to_string(),
    };
    let hello = Hello::new(Some(auth.clone()), 0x1234_5678_9abc_def0_1122_3344_5566_7788);
    assert_eq!(hello.version, PROTOCOL_VERSION);
    assert_eq!(hello.version, 12);
    assert_eq!(hello.auth, Some(auth));
    assert_eq!(hello.client_instance_nonce, 0x1234_5678_9abc_def0_1122_3344_5566_7788);
    assert!(!hello.duplicate_server_observed);
    assert_eq!(decode_hello(Ok(hello.clone())), Ok(hello));

    let quick = Hello::new(None, 7);
    assert!(quick.auth.is_none());
}

#[test]
fn other_versions_are_refused() {
    let mut hello = Hello::new(None, 1);
    hello.version = 11;
    assert_eq!(
        decode_hello(Ok(hello)),
        Err("Unsupported protocol version: 11 (expected 12)".to_string())
    );
    assert_eq!(decode_hello(Err("not JSON".to_string())), Err("not JSON".to_string()));

    assert_eq!(decode_bridge_hello(Ok(BridgeHello::new())).unwrap().version, PROTOCOL_VERSION);
    assert_eq!(BridgeHello::default().version, PROTOCOL_VERSION);
    assert_eq!(
        decode_bridge_hello(Ok(BridgeHello { version: 1 })).unwrap_err(),
        "Unsupported protocol version: 1 (expected 12)"
    );
    assert_eq!(decode_bridge_hello(Err("e".to_string())).unwrap_err(), "e");

    let mut resp = HelloResponse::rejected(7, "nope");
    resp.version = 65535;
    assert_eq!(
        decode_hello_response(Ok(resp)).unwrap_err(),
        "Unsupported protocol version: 65535 (expected 12)"
    );
    assert_eq!(decode_hello_response(Err("e".to_string())).unwrap_err(), "e");
}

#[test]
fn acceptance_carries_the_routes() {
    let bridges = vec![BridgeSummary {
        name: "lab".to_string(),
        endpoint_id: "endpointid".to_string(),
        domains: vec!["*.svc".to_string()],
        cidrs: vec!["fd34::/64".to_string()],
    }];
    let resp = HelloResponse::accepted(
        42,
        AcceptedRoutes {
            routed_domains: vec!["*.example.com".to_string(), "httpbin.org".to_string()],
            routed_cidrs: vec!["10.0.0.0/8".to_string()],
            host_aliases: vec![("nas.internal".to_string(), "192.168.1.9".to_string())],
            dns_forwards: vec![(
                "corp.example.com".to_string(),
                vec!["10.1.0.10:5353".to_string()],
            )],
            bridges: bridges.clone(),
        },
    );
    let decoded = decode_hello_response(Ok(resp)).unwrap();
    assert!(decoded.accepted);
    assert_eq!(decoded.version, PROTOCOL_VERSION);
    assert_eq!(decoded.reject_reason, None);
    assert_eq!(decoded.server_instance_nonce, 42);
    assert_eq!(decoded.routed_domains, vec!["*.example.com", "httpbin.org"]);
    assert_eq!(decoded.routed_cidrs, vec!["10.0.0.0/8"]);
    assert_eq!(
        decoded.host_aliases,
        vec![("nas.internal".to_string(), "192.168.1.9".to_string())]
    );
    assert_eq!(
        decoded.dns_forwards,
        vec![("corp.example.com".to_string(), vec!["10.1.0.10:5353".to_string()])]
    );
    assert_eq!(decoded.bridges, bridges);
}

#[test]
fn rejection_carries_no_routes() {
    let rej = HelloResponse::rejected(7, "nope");
    assert!(!rej.accepted);
    assert_eq!(rej.reject_reason.as_deref(), Some("nope"));
    assert_eq!(rej.server_instance_nonce, 7);
    assert!(rej.routed_domains.is_empty());
    assert!(rej.routed_cidrs.is_empty());
    assert!(rej.host_aliases.is_empty());
    assert!(rej.dns_forwards.is_empty());
    assert!(rej.bridges.is_empty());
}

#[test]
fn a_bridge_gets_no_routes() {
    let routes = AcceptedRoutes::default();
    assert!(routes.routed_domains.is_empty() && routes.routed_cidrs.is_empty());
    assert!(routes.host_aliases.is_empty() && routes.dns_forwards.is_empty());
    assert!(routes.bridges.is_empty());
}

#[test]
fn sizes_and_frames() {
    assert_eq!(MAX_HANDSHAKE_SIZE, 65536);
    assert_eq!(MAX_CONTROL_MSG_SIZE, 16384);
    assert_ne!(ControlMsg::Heartbeat { seq: 1 }, ControlMsg::HeartbeatAck { seq: 1 });
}
