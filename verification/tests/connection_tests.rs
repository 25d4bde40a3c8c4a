use ws_upgrade::connection::{ConnState, Connection, Interest, UpgradeError};

const REQUEST: &[u8] = b"GET /chat HTTP/1.1\r\n\
Host: example.com\r\n\
Upgrade: websocket\r\n\
Connection: Upgrade\r\n\
Sec-WebSocket-Key: dGhlIHNhbXBsZSBub25jZQ==\r\n\r\n";

const RESPONSE: &[u8] = b"HTTP/1.1 101 Switching Protocols\r\n\
Connection: Upgrade\r\n\
Sec-WebSocket-Accept: s3pPLMBiTxaQ9kYGzzhZRbK+xOo=\r\n\
Upgrade: websocket\r\n\r\n";

#[test]
fn lifecycle_awaiting_to_pending_to_connected() {
    let mut c = Connection::new();
    assert_eq!(c.state(), ConnState::AwaitingHandshake);
    assert_eq!(c.interest(), Interest::Read);

    assert_eq!(c.on_data(REQUEST), Ok(()));
    assert_eq!(c.state(), ConnState::HandshakeResponsePending);
    assert_eq!(c.interest(), Interest::Write);
    assert_eq!(c.pending_output().clone(), RESPONSE.to_vec());

    let n = c.pending_output().len();
    c.on_wrote(n);
    assert_eq!(c.state(), ConnState::Connected);
    assert_eq!(c.interest(), Interest::Read);
    assert_eq!(c.pending_output().len(), 0);
}

#[test]
fn partial_request_keeps_awaiting() {
    let mut c = Connection::new();
    assert_eq!(c.on_data(&REQUEST[..10]), Ok(()));
    assert_eq!(c.state(), ConnState::AwaitingHandshake);
    assert_eq!(c.interest(), Interest::Read);
    assert_eq!(c.on_data(&REQUEST[10..]), Ok(()));
    assert_eq!(c.state(), ConnState::HandshakeResponsePending);
}

#[test]
fn missing_key_is_dropped_without_writing() {
    let mut c = Connection::new();
    let req: &[u8] = b"GET /chat HTTP/1.1\r\n\
Host: example.com\r\n\
Upgrade: websocket\r\n\
Connection: Upgrade\r\n\r\n";
    assert_eq!(c.on_data(req), Err(UpgradeError::ProtocolViolation));
    assert_eq!(c.state(), ConnState::AwaitingHandshake);
    assert_eq!(c.pending_output().len(), 0);
}

#[test]
fn missing_upgrade_signal_is_dropped() {
    let mut c = Connection::new();
    let req: &[u8] = b"GET / HTTP/1.1\r\n\
Host: example.com\r\n\
Sec-WebSocket-Key: dGhlIHNhbXBsZSBub25jZQ==\r\n\r\n";
    assert_eq!(c.on_data(req), Err(UpgradeError::ProtocolViolation));
    assert_eq!(c.pending_output().len(), 0);
}

#[test]
fn malformed_bytes_are_a_parse_error() {
    let mut c = Connection::new();
    assert_eq!(
        c.on_data(b"GET / HTTP/1.1\r\n: bad\r\n\r\n"),
        Err(UpgradeError::ParseError)
    );
    assert_eq!(c.pending_output().len(), 0);
}

#[test]
fn short_writes_send_the_identical_response() {
    // One connection writes in one go.
    let mut whole = Connection::new();
    whole.on_data(REQUEST).unwrap();
    let full = whole.pending_output().clone();
    whole.on_wrote(full.len());
    assert_eq!(whole.state(), ConnState::Connected);

    // The other is only ever allowed a few bytes per writable event.
    let mut short = Connection::new();
    short.on_data(REQUEST).unwrap();
    let mut written: Vec<u8> = Vec::new();
    let mut rounds = 0;
    while short.state() == ConnState::HandshakeResponsePending {
        let pending = short.pending_output().clone();
        let k = pending.len().min(7);
        written.extend_from_slice(&pending[..k]);
        short.on_wrote(k);
        rounds += 1;
        assert!(rounds < 100);
        if short.state() == ConnState::HandshakeResponsePending {
            assert_eq!(short.interest(), Interest::Write);
        }
    }
    assert_eq!(short.state(), ConnState::Connected);
    assert_eq!(short.interest(), Interest::Read);
    assert_eq!(written, full);
    assert_eq!(full, RESPONSE.to_vec());
}
