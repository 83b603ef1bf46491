//! The HTTP upgrade that opens a WebSocket connection: the request is
//! parsed, the `Sec-WebSocket-Key` header is looked up, and the fixed
//! `101 Switching Protocols` answer with the derived accept token is staged
//! in the write buffer.

use crate::cursor::{Cursor, CursorView};
use sha1::Digest;
use vstd::prelude::*;
use vstd::string::StringSliceAdditionalSpecFns;

verus! {

/// Name of the request header that carries the client's key.
pub const SEC_WEBSOCKET_KEY: &'static str = "Sec-WebSocket-Key";

/// The fixed GUID that is appended to the client's key before hashing.
pub const WS_GUID: &'static str = "258EAFA5-E914-47DA-95CA-C5AB0DC85B11";

/// What precedes the accept token in the answer.
pub const RESPONSE_PREFIX: &'static str =
    "HTTP/1.1 101 Switching Protocols\nUpgrade: websocket\nConnection: Upgrade\nSec-WebSocket-Accept: ";

/// What follows the accept token in the answer.
pub const RESPONSE_SUFFIX: &'static str = "\r\n   \r\n \r\n\r\n";

/// Number of header slots offered to the request parser.
pub const MAX_HEADERS: usize = 16;

/// One header slot of a parsed request: name and value as bytes. A slot
/// that the request did not fill has an empty name and an empty value.
pub struct Header {
    pub name: Vec<u8>,
    pub value: Vec<u8>,
}

/// Headers as pairs of byte sequences.
pub open spec fn header_pairs(headers: Seq<Header>) -> Seq<(Seq<u8>, Seq<u8>)> {
    headers.map_values(|h: Header| (h.name@, h.value@))
}

/// The header slots that the HTTP request parser leaves for `buf` when it is
/// offered `max_headers` slots, or `None` when it rejects `buf`.
pub uninterp spec fn request_headers(buf: Seq<u8>, max_headers: nat) -> Option<
    Seq<(Seq<u8>, Seq<u8>)>,
>;

/// The SHA-1 digest of `data`.
pub uninterp spec fn sha1_digest(data: Seq<u8>) -> Seq<u8>;

/// The padded standard base64 text of `data`, as ASCII bytes.
pub uninterp spec fn base64_text(data: Seq<u8>) -> Seq<u8>;

/// Calls `httparse::Request::parse` on `buf` with `max_headers` empty header
/// slots. Trusted: the slots afterwards (all of them, in order, each as name
/// and value bytes) are a function of `buf` and `max_headers`, and `None`
/// stands for a parse error. A request that is merely incomplete is no
/// error; its slots hold the headers that were complete.
#[verifier::external_body]
fn parse_request_headers(buf: &[u8], max_headers: usize) -> (r: Option<Vec<Header>>)
    ensures
        match request_headers(buf@, max_headers as nat) {
            Some(pairs) => r.is_some() && header_pairs(r.unwrap()@) == pairs,
            None => r.is_none(),
        },
{
    let mut slots = vec![httparse::EMPTY_HEADER; max_headers];
    match httparse::Request::new(&mut slots).parse(buf) {
        Ok(_) => Some(
            slots.iter().map(
                |h| Header { name: h.name.as_bytes().to_vec(), value: h.value.to_vec() },
            ).collect(),
        ),
        Err(_) => None,
    }
}

/// Calls `sha1::Sha1::digest`. Trusted: the result is the SHA-1 digest of
/// `data`, a function of `data` alone, and it is twenty bytes long.
#[verifier::external_body]
fn sha1(data: &[u8]) -> (r: Vec<u8>)
    ensures
        r@ == sha1_digest(data@),
        r@.len() == 20,
{
    sha1::Sha1::digest(data).to_vec()
}

/// Calls `data_encoding::BASE64.encode`, which is owed an input of at most
/// `usize::MAX / 512` bytes. Trusted: the result is the base64 text of
/// `data`, a function of `data` alone, four characters for every three
/// bytes begun.
#[verifier::external_body]
fn base64(data: &[u8]) -> (r: Vec<u8>)
    requires
        data@.len() <= usize::MAX / 512,
    ensures
        r@ == base64_text(data@),
        r@.len() == (data@.len() + 2) / 3 * 4,
{
    data_encoding::BASE64.encode(data).into_bytes()
}

/// The value of the first header named `name`.
pub open spec fn header_value(headers: Seq<(Seq<u8>, Seq<u8>)>, name: Seq<u8>) -> Option<Seq<u8>>
    decreases headers.len(),
{
    if headers.len() == 0 {
        None
    } else if headers[0].0 == name {
        Some(headers[0].1)
    } else {
        header_value(headers.drop_first(), name)
    }
}

/// The accept token for a client key: base64 of the SHA-1 digest of the key
/// followed by the GUID.
pub open spec fn accept_token_of(key: Seq<u8>) -> Seq<u8> {
    base64_text(sha1_digest(key + WS_GUID.spec_bytes()))
}

/// The answer that carries the accept token `accept`.
pub open spec fn response_with(accept: Seq<u8>) -> Seq<u8> {
    RESPONSE_PREFIX.spec_bytes() + accept + RESPONSE_SUFFIX.spec_bytes()
}

/// The answer owed to the request bytes `request`, or `None` when the
/// request is rejected: when it does not parse or has no key header.
pub open spec fn upgrade_response(request: Seq<u8>) -> Option<Seq<u8>> {
    match request_headers(request, MAX_HEADERS as nat) {
        None => None,
        Some(pairs) => match header_value(pairs, SEC_WEBSOCKET_KEY.spec_bytes()) {
            None => None,
            Some(key) => Some(response_with(accept_token_of(key))),
        },
    }
}

/// Whether two byte strings are equal.
pub fn bytes_eq(a: &[u8], b: &[u8]) -> (r: bool)
    ensures
        r == (a@ == b@),
{
    if a.len() != b.len() {
        return false;
    }
    let mut i: usize = 0;
    while i < a.len()
        invariant
            i <= a@.len(),
            a@.len() == b@.len(),
            a@.take(i as int) == b@.take(i as int),
        decreases a@.len() - i,
    {
        if a[i] != b[i] {
            return false;
        }
        assert(a@.take(i + 1) =~= a@.take(i as int).push(a@[i as int]));
        assert(b@.take(i + 1) =~= b@.take(i as int).push(b@[i as int]));
        i = i + 1;
    }
    assert(a@.take(a@.len() as int) =~= a@);
    assert(b@.take(b@.len() as int) =~= b@);
    true
}

/// Index of the first header named `name`.
pub fn find_header(headers: &Vec<Header>, name: &[u8]) -> (r: Option<usize>)
    ensures
        match r {
            Some(i) => i < headers@.len() && headers@[i as int].name@ == name@ && header_value(
                header_pairs(headers@),
                name@,
            ) == Some(headers@[i as int].value@),
            None => header_value(header_pairs(headers@), name@).is_none(),
        },
{
    let ghost pairs = header_pairs(headers@);
    assert(pairs.skip(0) =~= pairs);
    let mut i: usize = 0;
    while i < headers.len()
        invariant
            i <= headers@.len(),
            pairs == header_pairs(headers@),
            header_value(pairs, name@) == header_value(pairs.skip(i as int), name@),
        decreases headers@.len() - i,
    {
        let ghost rest = pairs.skip(i as int);
        assert(rest.len() > 0 && rest[0] == pairs[i as int]);
        assert(rest.drop_first() =~= pairs.skip(i + 1));
        if bytes_eq(headers[i].name.as_slice(), name) {
            return Some(i);
        }
        i = i + 1;
    }
    assert(pairs.skip(i as int).len() == 0);
    None
}

/// The accept token for the client key `key`: twenty-eight characters.
pub fn accept_token(key: &[u8]) -> (token: Vec<u8>)
    ensures
        token@ == accept_token_of(key@),
        token@.len() == 28,
{
    let guid = WS_GUID.as_bytes();
    let mut salted: Vec<u8> = Vec::with_capacity(key.len());
    append(&mut salted, key);
    append(&mut salted, guid);
    assert(salted@ =~= key@ + WS_GUID.spec_bytes());
    let digest = sha1(salted.as_slice());
    assert(20 <= usize::MAX / 512) by {
        assert(usize::MAX >= 0xffff_ffff);
    }
    base64(digest.as_slice())
}

/// Appends `bytes` to `out`.
fn append(out: &mut Vec<u8>, bytes: &[u8])
    ensures
        final(out)@ == old(out)@ + bytes@,
{
    let mut i: usize = 0;
    while i < bytes.len()
        invariant
            i <= bytes@.len(),
            out@ == old(out)@ + bytes@.take(i as int),
        decreases bytes@.len() - i,
    {
        out.push(bytes[i]);
        assert(out@ =~= old(out)@ + bytes@.take(i + 1));
        i = i + 1;
    }
    assert(bytes@.take(bytes@.len() as int) =~= bytes@);
}

/// The answer that carries the accept token `accept`.
pub fn handshake_response(accept: &[u8]) -> (response: Vec<u8>)
    ensures
        response@ == response_with(accept@),
{
    let mut response: Vec<u8> = Vec::new();
    append(&mut response, RESPONSE_PREFIX.as_bytes());
    append(&mut response, accept);
    append(&mut response, RESPONSE_SUFFIX.as_bytes());
    response
}

/// Why an upgrade request got no answer.
#[derive(Debug, Clone, Copy, PartialEq, Eq, Structural)]
pub enum HandshakeError {
    /// The request did not parse, or it has no key header.
    Rejected,
    /// The answer does not fit into the write buffer.
    Overflow,
}

/// Stages `response` behind what `write_buf` already holds and empties
/// `read_buf`. When the answer does not fit, both buffers stay as they were.
pub fn stage_response<const R: usize, const W: usize>(
    response: &[u8],
    read_buf: &mut Cursor<R>,
    write_buf: &mut Cursor<W>,
) -> (r: Result<(), HandshakeError>)
    requires
        old(read_buf).wf(),
        old(write_buf).wf(),
    ensures
        final(read_buf).wf(),
        final(write_buf).wf(),
        old(write_buf)@.filled.len() + response@.len() <= W ==> r is Ok && final(write_buf)@ == (
        CursorView {
            filled: old(write_buf)@.filled + response@,
            pos: old(write_buf)@.pos,
        }) && final(read_buf)@ == CursorView::empty(),
        old(write_buf)@.filled.len() + response@.len() > W ==> r == Err::<(), HandshakeError>(
            HandshakeError::Overflow,
        ) && final(write_buf)@ == old(write_buf)@ && final(read_buf)@ == old(read_buf)@,
{
    match write_buf.push_transmute(response) {
        Ok(()) => {
            read_buf.clear();
            Ok(())
        },
        Err(_) => Err(HandshakeError::Overflow),
    }
}

/// Answers the upgrade request that fills `read_buf`.
///
/// The whole filled part of `read_buf` is taken as the request. When it
/// parses and names a key, the answer is staged in `write_buf` and
/// `read_buf` is emptied; otherwise both buffers stay as they were.
pub fn handshake<const R: usize, const W: usize>(
    read_buf: &mut Cursor<R>,
    write_buf: &mut Cursor<W>,
) -> (r: Result<(), HandshakeError>)
    requires
        old(read_buf).wf(),
        old(write_buf).wf(),
    ensures
        final(read_buf).wf(),
        final(write_buf).wf(),
        match upgrade_response(old(read_buf)@.filled) {
            None => r == Err::<(), HandshakeError>(HandshakeError::Rejected) && final(
                write_buf)@ == old(write_buf)@ && final(read_buf)@ == old(read_buf)@,
            Some(response) => if old(write_buf)@.filled.len() + response.len() <= W {
                r is Ok && final(write_buf)@ == (CursorView {
                    filled: old(write_buf)@.filled + response,
                    pos: old(write_buf)@.pos,
                }) && final(read_buf)@ == CursorView::empty()
            } else {
                r == Err::<(), HandshakeError>(HandshakeError::Overflow) && final(write_buf)@
                    == old(write_buf)@ && final(read_buf)@ == old(read_buf)@
            },
        },
{
    let request = read_buf.filled();
    let headers = match parse_request_headers(request.as_slice(), MAX_HEADERS) {
        Some(headers) => headers,
        None => {
            return Err(HandshakeError::Rejected);
        },
    };
    let index = match find_header(&headers, SEC_WEBSOCKET_KEY.as_bytes()) {
        Some(index) => index,
        None => {
            return Err(HandshakeError::Rejected);
        },
    };
    let accept = accept_token(headers[index].value.as_slice());
    let response = handshake_response(accept.as_slice());
    stage_response(response.as_slice(), read_buf, write_buf)
}

} // verus!
