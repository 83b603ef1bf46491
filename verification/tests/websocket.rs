use socket_server::cursor::Cursor;
use socket_server::websocket::{websocket_flush, websocket_read, ReadError, WebSocketState};

const REQUEST: &[u8] = b"GET /chat HTTP/1.1\r\nHost: example.com\r\nUpgrade: websocket\r\nConnection: Upgrade\r\nSec-WebSocket-Key: dGhlIHNhbXBsZSBub25jZQ==\r\nSec-WebSocket-Version: 13\r\n\r\n";

fn rank(state: WebSocketState) -> u8 {
    match state {
        WebSocketState::Idle => 0,
        WebSocketState::HandShaked => 1,
        WebSocketState::Accepted => 2,
    }
}

#[test]
fn default_state_is_idle() {
    assert_eq!(WebSocketState::default(), WebSocketState::Idle);
}

#[test]
fn upgrade_then_one_frame() {
    let mut state = WebSocketState::Idle;
    let mut read_buf: Cursor<256> = Cursor::new();
    let mut write_buf: Cursor<256> = Cursor::new();

    read_buf.push_transmute(REQUEST).unwrap();
    assert_eq!(websocket_read(&mut state, &mut read_buf, &mut write_buf), Err(ReadError::FlushRequest));
    assert_eq!(state, WebSocketState::HandShaked);
    assert_eq!(read_buf.filled_len(), 0);
    let answer = String::from_utf8(write_buf.filled()).unwrap();
    assert!(answer.contains("Sec-WebSocket-Accept: s3pPLMBiTxaQ9kYGzzhZRbK+xOo=\r\n   \r\n \r\n\r\n"));
    assert!(answer.starts_with("HTTP/1.1 101 Switching Protocols\n"));

    let staged = write_buf.filled();
    assert_eq!(websocket_flush(&mut state, &mut write_buf), Ok(()));
    assert_eq!(state, WebSocketState::Accepted);
    assert_eq!(write_buf.filled(), staged);
    write_buf.consume(staged.len());

    read_buf.push_transmute(&[0x82, 0x83, 0x0a, 0x0b, 0x0c, 0x0d, 0x01 ^ 0x0a, 0x02 ^ 0x0b, 0x03 ^ 0x0c]).unwrap();
    assert_eq!(websocket_read(&mut state, &mut read_buf, &mut write_buf), Ok(()));
    assert_eq!(state, WebSocketState::Accepted);
    assert_eq!(read_buf.unread(), vec![0x01, 0x02, 0x03]);

    write_buf.push_transmute(&[0x01, 0x02, 0x03]).unwrap();
    assert_eq!(websocket_flush(&mut state, &mut write_buf), Ok(()));
    assert_eq!(write_buf.filled(), vec![0x02, 3, 1, 2, 3]);
    assert_eq!(state, WebSocketState::Accepted);
}

#[test]
fn data_before_the_answer_went_out_closes() {
    let mut state = WebSocketState::HandShaked;
    let mut read_buf: Cursor<64> = Cursor::new();
    let mut write_buf: Cursor<64> = Cursor::new();
    read_buf.push_transmute(&[0x82, 0x00]).unwrap();
    assert_eq!(websocket_read(&mut state, &mut read_buf, &mut write_buf), Err(ReadError::CloseRequest));
    assert_eq!(state, WebSocketState::HandShaked);
    assert_eq!(read_buf.filled(), vec![0x82, 0x00]);
}

#[test]
fn bad_upgrade_closes_and_keeps_idle() {
    let mut state = WebSocketState::Idle;
    let mut read_buf: Cursor<64> = Cursor::new();
    let mut write_buf: Cursor<256> = Cursor::new();
    read_buf.push_transmute(b"GET / HTTP/1.1\r\n\r\n").unwrap();
    assert_eq!(websocket_read(&mut state, &mut read_buf, &mut write_buf), Err(ReadError::CloseRequest));
    assert_eq!(state, WebSocketState::Idle);
    assert_eq!(write_buf.filled_len(), 0);
}

#[test]
fn upgrade_that_does_not_fit_closes() {
    let mut state = WebSocketState::Idle;
    let mut read_buf: Cursor<256> = Cursor::new();
    let mut write_buf: Cursor<100> = Cursor::new();
    read_buf.push_transmute(REQUEST).unwrap();
    assert_eq!(websocket_read(&mut state, &mut read_buf, &mut write_buf), Err(ReadError::CloseRequest));
    assert_eq!(state, WebSocketState::Idle);
}

#[test]
fn accepted_read_reports_each_outcome() {
    let mut write_buf: Cursor<64> = Cursor::new();

    let mut state = WebSocketState::Accepted;
    let mut read_buf: Cursor<64> = Cursor::new();
    read_buf.push_transmute(&[0x82]).unwrap();
    assert_eq!(websocket_read(&mut state, &mut read_buf, &mut write_buf), Err(ReadError::NotFullRead));
    assert_eq!(read_buf.pos(), 0);

    let mut read_buf: Cursor<64> = Cursor::new();
    read_buf.push_transmute(&[0x81, 0x01, 0x41]).unwrap();
    assert_eq!(websocket_read(&mut state, &mut read_buf, &mut write_buf), Err(ReadError::CloseRequest));

    let mut read_buf: Cursor<64> = Cursor::new();
    read_buf.push_transmute(&[0x82, 0xfe, 0x00, 0xc8]).unwrap();
    assert_eq!(websocket_read(&mut state, &mut read_buf, &mut write_buf), Err(ReadError::CloseRequest));
    assert_eq!(state, WebSocketState::Accepted);
    assert_eq!(write_buf.filled_len(), 0);
}

#[test]
fn state_never_goes_back() {
    let inputs: [&[u8]; 4] = [REQUEST, b"garbage", &[0x82, 0x01, 0x05], &[0x88, 0x00]];
    for start in [WebSocketState::Idle, WebSocketState::HandShaked, WebSocketState::Accepted] {
        for input in inputs {
            let mut state = start;
            let mut read_buf: Cursor<256> = Cursor::new();
            let mut write_buf: Cursor<256> = Cursor::new();
            read_buf.push_transmute(input).unwrap();
            let _ = websocket_read(&mut state, &mut read_buf, &mut write_buf);
            assert!(rank(start) <= rank(state));
            let after_read = state;
            let _ = websocket_flush(&mut state, &mut write_buf);
            assert!(rank(after_read) <= rank(state));
        }
    }
}

#[test]
fn flush_while_idle_frames_too() {
    let mut state = WebSocketState::Idle;
    let mut write_buf: Cursor<16> = Cursor::new();
    write_buf.push_transmute(&[7, 8]).unwrap();
    assert_eq!(websocket_flush(&mut state, &mut write_buf), Ok(()));
    assert_eq!(state, WebSocketState::Idle);
    assert_eq!(write_buf.filled(), vec![0x02, 2, 7, 8]);
}

#[test]
fn flush_that_overflows_leaves_the_buffer() {
    let mut state = WebSocketState::Accepted;
    let mut write_buf: Cursor<4> = Cursor::new();
    write_buf.push_transmute(&[1, 2, 3, 4]).unwrap();
    assert!(websocket_flush(&mut state, &mut write_buf).is_err());
    assert_eq!(write_buf.filled(), vec![1, 2, 3, 4]);
    assert_eq!(state, WebSocketState::Accepted);
}
