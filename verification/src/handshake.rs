//! The RFC6455 opening-handshake computation: the accept value derived from
//! the client's handshake key, and the bytes of the `101 Switching Protocols`
//! response built around it.

use vstd::prelude::*;
use vstd::string::StringSliceAdditionalSpecFns;

use crate::bytes::push_all;

verus! {

/// The 20-byte SHA-1 digest of a byte sequence, named but not written out:
/// the trusted wrapper below ties it to the outside implementation.
pub uninterp spec fn sha1_of(data: Seq<u8>) -> Seq<u8>;

/// The standard base64 encoding (with padding, no line breaks) of a byte
/// sequence, named but not written out: the trusted wrapper below ties it to
/// the outside implementation.
pub uninterp spec fn base64_of(data: Seq<u8>) -> Seq<u8>;

/// The fixed GUID the protocol appends to the client's key.
pub open spec fn guid_bytes() -> Seq<u8> {
    "258EAFA5-E914-47DA-95CA-C5AB0DC85B11".spec_bytes()
}

/// The accept value owed for a client key: base64 of the SHA-1 digest of the
/// key followed by the protocol GUID.
pub open spec fn accept_of(key: Seq<u8>) -> Seq<u8> {
    base64_of(sha1_of(key + guid_bytes()))
}

/// The full `101 Switching Protocols` response for a given accept value.
pub open spec fn response_bytes(accept: Seq<u8>) -> Seq<u8> {
    "HTTP/1.1 101 Switching Protocols\r\nConnection: Upgrade\r\nSec-WebSocket-Accept: ".spec_bytes()
        + accept + "\r\nUpgrade: websocket\r\n\r\n".spec_bytes()
}

/// Relies on `sha1::Sha1` through the `Digest` interface: the digest is 160
/// bits — 20 bytes — and depends on the input bytes alone.
#[verifier::external_body]
fn sha1_digest(data: &[u8]) -> (r: Vec<u8>)
    ensures
        r@ == sha1_of(data@),
        r@.len() == 20,
{
    let mut h = <sha1::Sha1 as sha1::Digest>::new();
    sha1::Digest::update(&mut h, data);
    <sha1::Sha1 as sha1::Digest>::finalize(h).to_vec()
}

/// Relies on rustc_serialize's `ToBase64` for `[u8]` with the `STANDARD`
/// configuration (standard alphabet, padding, no line wrapping): the encoding
/// depends on the input bytes alone.
#[verifier::external_body]
fn base64_encode(data: &[u8]) -> (r: Vec<u8>)
    ensures
        r@ == base64_of(data@),
{
    rustc_serialize::base64::ToBase64::to_base64(data, rustc_serialize::base64::STANDARD)
        .into_bytes()
}

/// Derives the accept value for a client handshake key: SHA-1 of the key
/// followed by the protocol GUID, base64-encoded.  Deterministic, and the
/// crux of interoperability: every conformant client checks this value.
pub fn gen_key(key: &[u8]) -> (r: Vec<u8>)
    ensures
        r@ == accept_of(key@),
{
    let mut buf: Vec<u8> = Vec::new();
    push_all(&mut buf, key);
    push_all(&mut buf, "258EAFA5-E914-47DA-95CA-C5AB0DC85B11".as_bytes());
    proof {
        assert(buf@ =~= key@ + guid_bytes());
    }
    let digest = sha1_digest(buf.as_slice());
    base64_encode(digest.as_slice())
}

/// Builds the byte-exact `101 Switching Protocols` response for a client
/// handshake key.
pub fn build_response(key: &[u8]) -> (r: Vec<u8>)
    ensures
        r@ == response_bytes(accept_of(key@)),
{
    let accept = gen_key(key);
    let mut out: Vec<u8> = Vec::new();
    push_all(
        &mut out,
        "HTTP/1.1 101 Switching Protocols\r\nConnection: Upgrade\r\nSec-WebSocket-Accept: "
            .as_bytes(),
    );
    push_all(&mut out, accept.as_slice());
    push_all(&mut out, "\r\nUpgrade: websocket\r\n\r\n".as_bytes());
    proof {
        assert(out@ =~= response_bytes(accept_of(key@)));
    }
    out
}

} // verus!
