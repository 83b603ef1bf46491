use socket_server::cursor::Cursor;
use socket_server::handshake::{
    accept_token, bytes_eq, find_header, handshake, handshake_response, stage_response, Header,
    HandshakeError, RESPONSE_PREFIX, RESPONSE_SUFFIX, SEC_WEBSOCKET_KEY,
};

const REQUEST: &[u8] = b"GET /chat HTTP/1.1\r\nHost: example.com\r\nUpgrade: websocket\r\nConnection: Upgrade\r\nSec-WebSocket-Key: dGhlIHNhbXBsZSBub25jZQ==\r\nSec-WebSocket-Version: 13\r\n\r\n";

const ANSWER: &[u8] = b"HTTP/1.1 101 Switching Protocols\nUpgrade: websocket\nConnection: Upgrade\nSec-WebSocket-Accept: s3pPLMBiTxaQ9kYGzzhZRbK+xOo=\r\n   \r\n \r\n\r\n";

fn filled_with<const N: usize>(bytes: &[u8]) -> Cursor<N> {
    let mut cursor: Cursor<N> = Cursor::new();
    cursor.push_transmute(bytes).unwrap();
    cursor
}

fn header(name: &str, value: &str) -> Header {
    Header { name: name.as_bytes().to_vec(), value: value.as_bytes().to_vec() }
}

#[test]
fn accept_token_of_the_sample_key() {
    assert_eq!(accept_token(b"dGhlIHNhbXBsZSBub25jZQ=="), b"s3pPLMBiTxaQ9kYGzzhZRbK+xOo=".to_vec());
}

#[test]
fn accept_token_depends_on_the_key() {
    assert_ne!(accept_token(b"dGhlIHNhbXBsZSBub25jZQ=="), accept_token(b"AAAAAAAAAAAAAAAAAAAAAA=="));
    assert_eq!(accept_token(b"x3JJHMbDL1EzLkh9GBhXDw=="), b"HSmrc0sMlYUkAGmm5OPpG2HaGWk=".to_vec());
    assert_eq!(accept_token(b"").len(), 28);
}

#[test]
fn response_is_prefix_token_suffix() {
    let response = handshake_response(b"TOKEN");
    let mut expected = RESPONSE_PREFIX.as_bytes().to_vec();
    expected.extend_from_slice(b"TOKEN");
    expected.extend_from_slice(RESPONSE_SUFFIX.as_bytes());
    assert_eq!(response, expected);
    assert_eq!(RESPONSE_PREFIX.len(), 94);
    assert_eq!(RESPONSE_SUFFIX.len(), 12);
}

#[test]
fn bytes_eq_compares_content() {
    assert!(bytes_eq(b"", b""));
    assert!(bytes_eq(b"abc", b"abc"));
    assert!(!bytes_eq(b"abc", b"abd"));
    assert!(!bytes_eq(b"abc", b"ab"));
    assert!(!bytes_eq(b"Abc", b"abc"));
}

#[test]
fn find_header_takes_the_first_match() {
    let headers = vec![
        header("Host", "a"),
        header("Sec-WebSocket-Key", "first"),
        header("Sec-WebSocket-Key", "second"),
        header("", ""),
    ];
    assert_eq!(find_header(&headers, SEC_WEBSOCKET_KEY.as_bytes()), Some(1));
    assert_eq!(find_header(&headers, b"Host"), Some(0));
    assert_eq!(find_header(&headers, b"host"), None);
    assert_eq!(find_header(&headers, b"Missing"), None);
    assert_eq!(find_header(&Vec::new(), b"Host"), None);
}

#[test]
fn handshake_answers_a_valid_upgrade() {
    let mut read_buf: Cursor<256> = filled_with(REQUEST);
    let mut write_buf: Cursor<256> = Cursor::new();
    assert_eq!(handshake(&mut read_buf, &mut write_buf), Ok(()));
    assert_eq!(write_buf.filled(), ANSWER.to_vec());
    assert_eq!(write_buf.pos(), 0);
    assert_eq!(read_buf.filled_len(), 0);
    assert_eq!(read_buf.pos(), 0);
}

#[test]
fn handshake_appends_behind_staged_bytes() {
    let mut read_buf: Cursor<256> = filled_with(REQUEST);
    let mut write_buf: Cursor<256> = filled_with(&[1, 2, 3]);
    assert_eq!(handshake(&mut read_buf, &mut write_buf), Ok(()));
    let mut expected = vec![1, 2, 3];
    expected.extend_from_slice(ANSWER);
    assert_eq!(write_buf.filled(), expected);
}

#[test]
fn handshake_rejects_a_request_without_key() {
    let request = b"GET / HTTP/1.1\r\nHost: example.com\r\n\r\n";
    let mut read_buf: Cursor<256> = filled_with(request);
    let mut write_buf: Cursor<256> = Cursor::new();
    assert_eq!(handshake(&mut read_buf, &mut write_buf), Err(HandshakeError::Rejected));
    assert_eq!(write_buf.filled_len(), 0);
    assert_eq!(read_buf.filled(), request.to_vec());
}

#[test]
fn handshake_key_name_is_case_sensitive() {
    let request = b"GET / HTTP/1.1\r\nsec-websocket-key: dGhlIHNhbXBsZSBub25jZQ==\r\n\r\n";
    let mut read_buf: Cursor<256> = filled_with(request);
    let mut write_buf: Cursor<256> = Cursor::new();
    assert_eq!(handshake(&mut read_buf, &mut write_buf), Err(HandshakeError::Rejected));
}

#[test]
fn handshake_rejects_what_is_no_request() {
    let mut read_buf: Cursor<256> = filled_with(b"\x00\x01\x02 not http\r\n\r\n");
    let mut write_buf: Cursor<256> = Cursor::new();
    assert_eq!(handshake(&mut read_buf, &mut write_buf), Err(HandshakeError::Rejected));
    assert_eq!(write_buf.filled_len(), 0);
}

#[test]
fn handshake_rejects_too_many_headers() {
    let mut request = b"GET / HTTP/1.1\r\n".to_vec();
    for i in 0..17 {
        request.extend_from_slice(format!("X-Filler-{}: v\r\n", i).as_bytes());
    }
    request.extend_from_slice(b"Sec-WebSocket-Key: dGhlIHNhbXBsZSBub25jZQ==\r\n\r\n");
    let mut read_buf: Cursor<1024> = filled_with(&request);
    let mut write_buf: Cursor<256> = Cursor::new();
    assert_eq!(handshake(&mut read_buf, &mut write_buf), Err(HandshakeError::Rejected));
}

#[test]
fn handshake_takes_sixteen_headers() {
    let mut request = b"GET / HTTP/1.1\r\n".to_vec();
    for i in 0..15 {
        request.extend_from_slice(format!("X-Filler-{}: v\r\n", i).as_bytes());
    }
    request.extend_from_slice(b"Sec-WebSocket-Key: dGhlIHNhbXBsZSBub25jZQ==\r\n\r\n");
    let mut read_buf: Cursor<1024> = filled_with(&request);
    let mut write_buf: Cursor<256> = Cursor::new();
    assert_eq!(handshake(&mut read_buf, &mut write_buf), Ok(()));
    assert_eq!(write_buf.filled(), ANSWER.to_vec());
}

#[test]
fn handshake_reports_overflow_of_the_write_buffer() {
    let mut read_buf: Cursor<256> = filled_with(REQUEST);
    let mut write_buf: Cursor<133> = Cursor::new();
    assert_eq!(handshake(&mut read_buf, &mut write_buf), Err(HandshakeError::Overflow));
    assert_eq!(write_buf.filled_len(), 0);
    assert_eq!(read_buf.filled(), REQUEST.to_vec());
    let mut write_buf: Cursor<134> = Cursor::new();
    assert_eq!(handshake(&mut read_buf, &mut write_buf), Ok(()));
    assert_eq!(write_buf.filled_len(), 134);
}

#[test]
fn stage_response_is_all_or_nothing() {
    let mut read_buf: Cursor<8> = filled_with(&[1, 2]);
    let mut write_buf: Cursor<4> = filled_with(&[9]);
    assert_eq!(stage_response(&[1, 2, 3, 4], &mut read_buf, &mut write_buf), Err(HandshakeError::Overflow));
    assert_eq!(write_buf.filled(), vec![9]);
    assert_eq!(read_buf.filled(), vec![1, 2]);
    assert_eq!(stage_response(&[1, 2, 3], &mut read_buf, &mut write_buf), Ok(()));
    assert_eq!(write_buf.filled(), vec![9, 1, 2, 3]);
    assert_eq!(read_buf.filled_len(), 0);
}
