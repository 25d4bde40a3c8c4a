use ws_upgrade::connection::{Interest, UpgradeError};
use ws_upgrade::handshake::build_response;
use ws_upgrade::server::{Dispatch, Server};

fn request(key: &[u8]) -> Vec<u8> {
    let mut req = b"GET /chat HTTP/1.1\r\n\
Upgrade: websocket\r\n\
Connection: Upgrade\r\n\
Sec-WebSocket-Key: "
        .to_vec();
    req.extend_from_slice(key);
    req.extend_from_slice(b"\r\n\r\n");
    req
}

#[test]
fn accept_and_handshake_through_the_server() {
    let mut s = Server::new();
    let t = s.accept_client();
    assert_eq!(s.client_interest(t), Some(Interest::Read));

    let req = request(b"dGhlIHNhbXBsZSBub25jZQ==");
    assert_eq!(s.client_data(t, &req), Dispatch::Continue(Interest::Write));

    let pending = s.pending_of(t).unwrap();
    assert_eq!(pending, build_response(b"dGhlIHNhbXBsZSBub25jZQ=="));

    assert_eq!(
        s.client_wrote(t, pending.len()),
        Dispatch::Continue(Interest::Read)
    );
    assert_eq!(s.pending_of(t), None);
    assert_eq!(s.client_interest(t), Some(Interest::Read));
}

#[test]
fn connected_client_events_leave_it_alone() {
    let mut s = Server::new();
    let t = s.accept_client();
    let req = request(b"dGhlIHNhbXBsZSBub25jZQ==");
    s.client_data(t, &req);
    let pending = s.pending_of(t).unwrap();
    s.client_wrote(t, pending.len());

    // Readable or writable events after the handshake change nothing here:
    // the frame layer, not this core, owns the connection now.
    assert_eq!(s.client_data(t, b"frame bytes"), Dispatch::Continue(Interest::Read));
    assert_eq!(s.client_wrote(t, 0), Dispatch::Continue(Interest::Read));
    assert_eq!(s.client_interest(t), Some(Interest::Read));
    assert_eq!(s.pending_of(t), None);
}

#[test]
fn identifiers_are_distinct_and_never_reused() {
    let mut s = Server::new();
    let a = s.accept_client();
    let b = s.accept_client();
    assert_ne!(a, b);

    s.drop_client(a);
    let c = s.accept_client();
    assert_ne!(c, a);
    assert_ne!(c, b);
}

#[test]
fn events_for_dropped_identifiers_are_ignored() {
    let mut s = Server::new();
    let t = s.accept_client();
    s.drop_client(t);

    let req = request(b"dGhlIHNhbXBsZSBub25jZQ==");
    assert_eq!(s.client_data(t, &req), Dispatch::Ignored);
    assert_eq!(s.client_wrote(t, 3), Dispatch::Ignored);
    assert_eq!(s.pending_of(t), None);
    assert_eq!(s.client_interest(t), None);

    // A later connection bears a different identifier and is untouched by
    // events for the dropped one.
    let u = s.accept_client();
    assert_ne!(u, t);
    assert_eq!(s.client_data(t, &req), Dispatch::Ignored);
    assert_eq!(s.client_interest(u), Some(Interest::Read));
}

#[test]
fn malformed_request_drops_the_connection() {
    let mut s = Server::new();
    let t = s.accept_client();
    assert_eq!(
        s.client_data(t, b"GET / HTTP/1.1\r\n: bad\r\n\r\n"),
        Dispatch::Dropped(UpgradeError::ParseError)
    );
    assert_eq!(s.client_interest(t), None);
    assert_eq!(s.client_data(t, b"more"), Dispatch::Ignored);
}

#[test]
fn missing_key_drops_the_connection() {
    let mut s = Server::new();
    let t = s.accept_client();
    assert_eq!(
        s.client_data(t, b"GET / HTTP/1.1\r\nUpgrade: websocket\r\n\r\n"),
        Dispatch::Dropped(UpgradeError::ProtocolViolation)
    );
    assert_eq!(s.pending_of(t), None);
}

#[test]
fn interleaved_clients_get_their_own_accept_values() {
    let mut s = Server::new();
    let a = s.accept_client();
    let b = s.accept_client();

    let req_a = request(b"dGhlIHNhbXBsZSBub25jZQ==");
    let req_b = request(b"x3JJHMbDL1EzLkh9GBhXDw==");

    // Feed the two requests interleaved one byte at a time.
    let mut ia = 0;
    let mut ib = 0;
    while ia < req_a.len() || ib < req_b.len() {
        if ia < req_a.len() {
            s.client_data(a, &req_a[ia..ia + 1]);
            ia += 1;
        }
        if ib < req_b.len() {
            s.client_data(b, &req_b[ib..ib + 1]);
            ib += 1;
        }
    }

    let resp_a = s.pending_of(a).unwrap();
    let resp_b = s.pending_of(b).unwrap();
    assert_eq!(resp_a, build_response(b"dGhlIHNhbXBsZSBub25jZQ=="));
    assert_eq!(resp_b, build_response(b"x3JJHMbDL1EzLkh9GBhXDw=="));

    // And the interleaved short writes stay separate too.
    assert_eq!(s.client_wrote(a, 5), Dispatch::Continue(Interest::Write));
    assert_eq!(s.client_wrote(b, resp_b.len()), Dispatch::Continue(Interest::Read));
    assert_eq!(s.pending_of(a).unwrap(), resp_a[5..].to_vec());
    assert_eq!(s.pending_of(b), None);
}
