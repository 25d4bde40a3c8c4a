use ws_upgrade::handshake::{build_response, gen_key};

#[test]
fn accept_value_of_rfc_sample_key() {
    let key = b"dGhlIHNhbXBsZSBub25jZQ==";
    let accept = gen_key(key);
    assert_eq!(accept, b"s3pPLMBiTxaQ9kYGzzhZRbK+xOo=".to_vec());
}

#[test]
fn accept_value_is_deterministic() {
    let key = b"x3JJHMbDL1EzLkh9GBhXDw==";
    assert_eq!(gen_key(key), gen_key(key));
}

#[test]
fn accept_values_differ_per_key() {
    assert_ne!(
        gen_key(b"dGhlIHNhbXBsZSBub25jZQ=="),
        gen_key(b"x3JJHMbDL1EzLkh9GBhXDw==")
    );
}

#[test]
fn accept_value_of_second_known_key() {
    // SHA-1 + base64 over the key followed by the protocol GUID.
    let accept = gen_key(b"x3JJHMbDL1EzLkh9GBhXDw==");
    assert_eq!(accept, b"HSmrc0sMlYUkAGmm5OPpG2HaGWk=".to_vec());
}

#[test]
fn response_is_byte_exact() {
    let resp = build_response(b"dGhlIHNhbXBsZSBub25jZQ==");
    let expected: &[u8] = b"HTTP/1.1 101 Switching Protocols\r\n\
Connection: Upgrade\r\n\
Sec-WebSocket-Accept: s3pPLMBiTxaQ9kYGzzhZRbK+xOo=\r\n\
Upgrade: websocket\r\n\r\n";
    assert_eq!(resp, expected.to_vec());
}
