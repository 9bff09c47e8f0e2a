//! The WebSocket bridge's logic: upgrade detection, the handshake accept
//! value, route lookup, and the per-connection session model — two message
//! queues and a close signal whose operations the socket tasks and the
//! handler drive from either side.

use vstd::prelude::*;
use vstd::string::StringSliceAdditionalSpecFns;
use crate::params::ParamMap;
use crate::request::assoc_get_ci;
use crate::text::{seq_eq_ci, str_eq, eq_ignore_ascii_case};

verus! {

/// The RFC 6455 accept value derived from a request key: a function of the
/// key alone (SHA-1 over the key and the protocol GUID, Base64-encoded).
pub uninterp spec fn accept_key_of(key: Seq<u8>) -> Seq<char>;

/// Relies on tungstenite's handshake::derive_accept_key: the accept value
/// is computed from the request key alone.
#[verifier::external_body]
fn derive_accept_key(request_key: &[u8]) -> (r: String)
    ensures
        r@ == accept_key_of(request_key@),
{
    tokio_tungstenite::tungstenite::handshake::derive_accept_key(request_key)
}

/// The request asks for a WebSocket upgrade: its `upgrade` header equals
/// `websocket`, both compared without regard to ASCII case.
pub open spec fn spec_is_ws_upgrade(headers: Seq<(Seq<char>, Seq<char>)>) -> bool {
    match assoc_get_ci(headers, "upgrade"@) {
        Some(v) => seq_eq_ci(v, "websocket"@),
        None => false,
    }
}

pub fn is_ws_upgrade(headers: &ParamMap) -> (r: bool)
    ensures
        r == spec_is_ws_upgrade(headers@),
{
    match crate::request::header_get_ci(headers, "upgrade") {
        Some(v) => eq_ignore_ascii_case(v.as_str(), "websocket"),
        None => false,
    }
}

/// The first registered WebSocket route whose path equals the request
/// path, if any.
pub fn ws_route_lookup(paths: &Vec<String>, path: &str) -> (r: Option<usize>)
    ensures
        match r {
            Some(i) => 0 <= i < paths@.len() && paths@[i as int]@ == path@ && forall|j: int|
                0 <= j < i ==> paths@[j]@ != path@,
            None => forall|j: int| 0 <= j < paths@.len() ==> paths@[j]@ != path@,
        },
{
    let n = paths.len();
    let mut i: usize = 0;
    while i < n
        invariant
            n == paths@.len(),
            i <= n,
            forall|j: int| 0 <= j < i ==> paths@[j]@ != path@,
        decreases n - i,
    {
        if str_eq(paths[i].as_str(), path) {
            return Some(i);
        }
        i += 1;
    }
    None
}

/// The accept value of the handshake, from the request's key header.
pub fn ws_accept_value(ws_key: &str) -> (r: String)
    ensures
        r@ == accept_key_of(ws_key.spec_bytes()),
{
    derive_accept_key(ws_key.as_bytes())
}

/// The headers of the switching-protocols response that answers a matched
/// upgrade request.
pub fn switching_protocols_headers(ws_key: &str) -> (r: ParamMap)
    ensures
        r.wf(),
        r@ =~= seq![
            ("upgrade"@, "websocket"@),
            ("connection"@, "Upgrade"@),
            ("sec-websocket-accept"@, accept_key_of(ws_key.spec_bytes())),
        ],
{
    let mut h = ParamMap::new();
    h.insert(String::from_str("upgrade"), String::from_str("websocket"));
    h.insert(String::from_str("connection"), String::from_str("Upgrade"));
    h.insert(String::from_str("sec-websocket-accept"), ws_accept_value(ws_key));
    proof {
        reveal_strlit("upgrade");
        reveal_strlit("websocket");
        reveal_strlit("connection");
        reveal_strlit("Upgrade");
        reveal_strlit("sec-websocket-accept");
        reveal_with_fuel(crate::params::assoc_get, 4);
        assert("upgrade"@.len() == 7 && "connection"@.len() == 10
            && "sec-websocket-accept"@.len() == 20);
        assert("upgrade"@ != "connection"@ && "upgrade"@ != "sec-websocket-accept"@
            && "connection"@ != "sec-websocket-accept"@);
    }
    h
}

/// Where a WebSocket connection stands.
#[derive(Clone, Copy, PartialEq, Eq, Structural, Debug)]
pub enum WsState {
    /// The switching-protocols response is on its way.
    Upgrading,
    /// Both sides may exchange messages.
    Open,
    /// A close was requested; the close frame is being sent.
    Closing,
    /// The transport is gone; nothing further arrives.
    Closed,
}

/// One WebSocket connection's session: the outbound queue the writer task
/// drains, the inbound queue the reader task fills, and the close signal.
/// The handler's `send`/`recv`/`close` and the socket tasks' operations
/// all act on this one value.
pub struct WsSession {
    pub state: WsState,
    pub outbound: Vec<String>,
    pub inbound: Vec<String>,
    pub close_code: Option<u16>,
}

impl WsSession {
    /// A session for a connection whose upgrade was just accepted.
    pub fn new() -> (r: WsSession)
        ensures
            r.state == WsState::Upgrading,
            r.outbound@ =~= Seq::<String>::empty(),
            r.inbound@ =~= Seq::<String>::empty(),
            r.close_code is None,
    {
        WsSession { state: WsState::Upgrading, outbound: Vec::new(), inbound: Vec::new(), close_code: None }
    }

    /// The transport finished upgrading: the session opens.
    pub fn opened(&mut self)
        requires
            old(self).state == WsState::Upgrading,
        ensures
            final(self).state == WsState::Open,
            final(self).outbound == old(self).outbound,
            final(self).inbound == old(self).inbound,
            final(self).close_code == old(self).close_code,
    {
        self.state = WsState::Open;
    }

    /// The handler's `accept()`: a no-op kept for symmetry with the
    /// handshake.
    pub fn accept(&self)
        ensures
            true,
    {
    }

    /// The handler's `send(text)`: a non-blocking enqueue onto the
    /// outbound channel; fails once the session is no longer open.
    pub fn send(&mut self, text: String) -> (r: Result<(), ()>)
        ensures
            final(self).state == old(self).state,
            final(self).inbound == old(self).inbound,
            final(self).close_code == old(self).close_code,
            match r {
                Ok(_) => old(self).state == WsState::Open && final(self).outbound@
                    =~= old(self).outbound@.push(text),
                Err(_) => old(self).state != WsState::Open && final(self).outbound
                    == old(self).outbound,
            },
    {
        if matches!(self.state, WsState::Open) {
            self.outbound.push(text);
            Ok(())
        } else {
            Err(())
        }
    }

    /// The handler's `recv()`: the next inbound message in arrival order.
    /// The host calls it once a message is queued or the connection is
    /// closed (until then the real call blocks); on a closed, drained
    /// session it fails with the connection-closed condition.
    pub fn recv(&mut self) -> (r: Result<String, ()>)
        requires
            old(self).inbound@.len() > 0 || old(self).state == WsState::Closed,
        ensures
            final(self).state == old(self).state,
            final(self).outbound == old(self).outbound,
            final(self).close_code == old(self).close_code,
            match r {
                Ok(m) => old(self).inbound@.len() > 0 && m == old(self).inbound@[0]
                    && final(self).inbound@ =~= old(self).inbound@.drop_first(),
                Err(_) => old(self).inbound@.len() == 0 && old(self).state == WsState::Closed
                    && final(self).inbound == old(self).inbound,
            },
    {
        if self.inbound.len() > 0 {
            Ok(self.inbound.remove(0))
        } else {
            Err(())
        }
    }

    /// The handler's `close(code)`: enqueues the close signal; the writer
    /// task will send the close frame.
    pub fn close(&mut self, code: u16)
        ensures
            final(self).state == (if old(self).state == WsState::Open {
                WsState::Closing
            } else {
                old(self).state
            }),
            final(self).outbound == old(self).outbound,
            final(self).inbound == old(self).inbound,
            final(self).close_code == (if old(self).state == WsState::Open {
                Some(code)
            } else {
                old(self).close_code
            }),
    {
        if matches!(self.state, WsState::Open) {
            self.state = WsState::Closing;
            self.close_code = Some(code);
        }
    }

    /// The reader task saw a text frame: it joins the inbound queue.
    pub fn frame_received(&mut self, text: String)
        requires
            old(self).state == WsState::Open,
        ensures
            final(self).state == old(self).state,
            final(self).outbound == old(self).outbound,
            final(self).close_code == old(self).close_code,
            final(self).inbound@ =~= old(self).inbound@.push(text),
    {
        self.inbound.push(text);
    }

    /// The writer task takes the next outbound message, if any.
    pub fn next_outbound(&mut self) -> (r: Option<String>)
        ensures
            final(self).state == old(self).state,
            final(self).inbound == old(self).inbound,
            final(self).close_code == old(self).close_code,
            match r {
                Some(m) => old(self).outbound@.len() > 0 && m == old(self).outbound@[0]
                    && final(self).outbound@ =~= old(self).outbound@.drop_first(),
                None => old(self).outbound@.len() == 0 && final(self).outbound
                    == old(self).outbound,
            },
    {
        if self.outbound.len() > 0 {
            Some(self.outbound.remove(0))
        } else {
            None
        }
    }

    /// Teardown: the reader saw a close frame or an error, the writer sent
    /// the close frame, or the handler's task ended — whoever is first, the
    /// session is closed and nothing further arrives.
    pub fn connection_closed(&mut self)
        ensures
            final(self).state == WsState::Closed,
            final(self).outbound == old(self).outbound,
            final(self).inbound == old(self).inbound,
            final(self).close_code == old(self).close_code,
    {
        self.state = WsState::Closed;
    }
}

} // verus!
