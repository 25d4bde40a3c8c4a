use ws_upgrade::parser::Parser;

const REQUEST: &[u8] = b"GET /chat HTTP/1.1\r\n\
Host: example.com\r\n\
Upgrade: websocket\r\n\
Connection: Upgrade\r\n\
Sec-WebSocket-Key: dGhlIHNhbXBsZSBub25jZQ==\r\n\
Sec-WebSocket-Version: 13\r\n\r\n";

fn header(p: &Parser, name: &[u8]) -> Option<Vec<u8>> {
    p.header_value(name).map(|v| v.clone())
}

#[test]
fn whole_request_parses() {
    let mut p = Parser::new();
    p.feed(REQUEST);
    assert!(p.is_complete());
    assert!(!p.is_failed());
    assert!(p.is_upgrade());
    assert_eq!(header(&p, b"Host"), Some(b"example.com".to_vec()));
    assert_eq!(header(&p, b"Upgrade"), Some(b"websocket".to_vec()));
    assert_eq!(
        header(&p, b"Sec-WebSocket-Key"),
        Some(b"dGhlIHNhbXBsZSBub25jZQ==".to_vec())
    );
    assert_eq!(header(&p, b"Sec-WebSocket-Version"), Some(b"13".to_vec()));
    assert_eq!(header(&p, b"Absent"), None);
}

#[test]
fn byte_at_a_time_equals_whole() {
    let mut whole = Parser::new();
    whole.feed(REQUEST);

    let mut split = Parser::new();
    for b in REQUEST {
        split.feed(&[*b]);
    }

    assert_eq!(split.is_complete(), whole.is_complete());
    assert_eq!(split.is_upgrade(), whole.is_upgrade());
    for name in [
        b"Host".as_slice(),
        b"Upgrade".as_slice(),
        b"Connection".as_slice(),
        b"Sec-WebSocket-Key".as_slice(),
        b"Sec-WebSocket-Version".as_slice(),
    ] {
        assert_eq!(header(&split, name), header(&whole, name));
    }
}

#[test]
fn ragged_chunks_equal_whole() {
    let mut whole = Parser::new();
    whole.feed(REQUEST);

    // Chunk sizes chosen to cut inside names, values and the CRLF pairs.
    let mut split = Parser::new();
    let mut at = 0;
    let mut size = 1;
    while at < REQUEST.len() {
        let end = (at + size).min(REQUEST.len());
        split.feed(&REQUEST[at..end]);
        at = end;
        size = size % 7 + 1;
    }

    assert!(split.is_complete());
    assert_eq!(
        header(&split, b"Sec-WebSocket-Key"),
        header(&whole, b"Sec-WebSocket-Key")
    );
    assert_eq!(header(&split, b"Host"), header(&whole, b"Host"));
}

#[test]
fn later_header_overwrites_earlier() {
    let mut p = Parser::new();
    p.feed(b"GET / HTTP/1.1\r\nA: one\r\nA: two\r\n\r\n");
    assert!(p.is_complete());
    assert_eq!(header(&p, b"A"), Some(b"two".to_vec()));
}

#[test]
fn value_leading_spaces_are_skipped() {
    let mut p = Parser::new();
    p.feed(b"GET / HTTP/1.1\r\nA:   spaced value\r\n\r\n");
    assert!(p.is_complete());
    assert_eq!(header(&p, b"A"), Some(b"spaced value".to_vec()));
}

#[test]
fn empty_value_is_kept() {
    let mut p = Parser::new();
    p.feed(b"GET / HTTP/1.1\r\nA:\r\n\r\n");
    assert!(p.is_complete());
    assert_eq!(header(&p, b"A"), Some(b"".to_vec()));
}

#[test]
fn colon_at_line_start_fails() {
    let mut p = Parser::new();
    p.feed(b"GET / HTTP/1.1\r\n: nameless\r\n\r\n");
    assert!(p.is_failed());
    assert!(!p.is_complete());
}

#[test]
fn bare_line_feed_in_header_fails() {
    let mut p = Parser::new();
    p.feed(b"GET / HTTP/1.1\r\nA: one\nB: two\r\n\r\n");
    assert!(p.is_failed());
}

#[test]
fn complete_without_upgrade_header_is_not_upgrade() {
    let mut p = Parser::new();
    p.feed(b"GET / HTTP/1.1\r\nHost: example.com\r\n\r\n");
    assert!(p.is_complete());
    assert!(!p.is_upgrade());
}

#[test]
fn bytes_after_end_of_headers_are_ignored() {
    let mut p = Parser::new();
    p.feed(REQUEST);
    p.feed(b"\x00\x01 arbitrary frame bytes \xff");
    assert!(p.is_complete());
    assert!(!p.is_failed());
    assert_eq!(header(&p, b"Host"), Some(b"example.com".to_vec()));
}
