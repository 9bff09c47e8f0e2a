use ignyx_core::params::ParamMap;
use ignyx_core::websocket::{
    is_ws_upgrade, ws_accept_value, ws_route_lookup, WsSession, WsState,
};

#[test]
fn accept_value_matches_known_handshake() {
    // The sample key/accept pair of the WebSocket protocol specification.
    let accept = ws_accept_value("dGhlIHNhbXBsZSBub25jZQ==");
    assert_eq!(accept.as_str(), "s3pPLMBiTxaQ9kYGzzhZRbK+xOo=");
}

#[test]
fn upgrade_detection() {
    let mut h = ParamMap::new();
    h.insert("Upgrade".to_string(), "WebSocket".to_string());
    assert!(is_ws_upgrade(&h));

    let mut h = ParamMap::new();
    h.insert("upgrade".to_string(), "h2c".to_string());
    assert!(!is_ws_upgrade(&h));

    assert!(!is_ws_upgrade(&ParamMap::new()));
}

#[test]
fn route_lookup_is_exact_first_match() {
    let paths = vec!["/ws".to_string(), "/chat".to_string(), "/ws".to_string()];
    assert_eq!(ws_route_lookup(&paths, "/ws"), Some(0));
    assert_eq!(ws_route_lookup(&paths, "/chat"), Some(1));
    assert_eq!(ws_route_lookup(&paths, "/none"), None);
}

#[test]
fn echo_session() {
    // A handler that calls recv() then send(x): sending "ping" yields
    // exactly one outbound frame "ping"; closing the client makes recv()
    // fail with the connection-closed condition without hanging.
    let mut s = WsSession::new();
    assert!(s.state == WsState::Upgrading);
    s.opened();
    assert!(s.state == WsState::Open);
    s.accept();

    s.frame_received("ping".to_string());
    let got = s.recv().unwrap();
    assert_eq!(got.as_str(), "ping");

    s.send(got).unwrap();
    let frame = s.next_outbound().unwrap();
    assert_eq!(frame.as_str(), "ping");
    assert!(s.next_outbound().is_none());

    s.connection_closed();
    assert!(s.state == WsState::Closed);
    assert!(s.recv().is_err());
    assert!(s.send("late".to_string()).is_err());
}

#[test]
fn close_enqueues_signal() {
    let mut s = WsSession::new();
    s.opened();
    s.close(1000);
    assert!(s.state == WsState::Closing);
    assert_eq!(s.close_code, Some(1000));
    // A second close is a no-op.
    s.close(1001);
    assert_eq!(s.close_code, Some(1000));
}
