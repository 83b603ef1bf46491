use socket_server::cursor::{CapacityExceeded, Cursor};
use socket_server::frame::{encode_frame_header, read_frame, unmask_in_place, write_frame, FrameError};

fn filled_with<const N: usize>(bytes: &[u8]) -> Cursor<N> {
    let mut cursor: Cursor<N> = Cursor::new();
    cursor.push_transmute(bytes).unwrap();
    cursor
}

#[test]
fn masked_frame_is_unmasked_in_place() {
    let key = [0x11u8, 0x22, 0x33, 0x44];
    let mut buf: Cursor<32> = filled_with(&[
        0x82, 0x83, 0x11, 0x22, 0x33, 0x44, 0x01 ^ 0x11, 0x02 ^ 0x22, 0x03 ^ 0x33, 0xaa,
    ]);
    assert_eq!(read_frame(&mut buf), Ok(3));
    assert_eq!(buf.pos(), 6);
    assert_eq!(buf.unread(), vec![0x01, 0x02, 0x03, 0xaa]);
    assert_eq!(&buf.filled()[..6], &[0x82, 0x83, key[0], key[1], key[2], key[3]]);
}

#[test]
fn mask_key_repeats_every_four_bytes() {
    let key = [1u8, 2, 4, 8];
    let payload = [0u8, 0, 0, 0, 0, 0];
    let mut bytes = vec![0x02, 0x86];
    bytes.extend_from_slice(&key);
    bytes.extend_from_slice(&payload);
    let mut buf: Cursor<32> = filled_with(&bytes);
    assert_eq!(read_frame(&mut buf), Ok(6));
    assert_eq!(buf.unread(), vec![1, 2, 4, 8, 1, 2]);
}

#[test]
fn unmasked_frame_is_left_as_it_is() {
    let mut buf: Cursor<32> = filled_with(&[0x82, 0x02, 0x41, 0x42]);
    assert_eq!(read_frame(&mut buf), Ok(2));
    assert_eq!(buf.pos(), 2);
    assert_eq!(buf.unread(), vec![0x41, 0x42]);
}

#[test]
fn empty_payload_is_a_frame() {
    let mut buf: Cursor<32> = filled_with(&[0x82, 0x00]);
    assert_eq!(read_frame(&mut buf), Ok(0));
    assert_eq!(buf.pos(), 2);
    assert_eq!(buf.filled_len(), 2);
}

#[test]
fn incomplete_frames_consume_nothing() {
    let cases: [&[u8]; 4] = [
        &[],
        &[0x82],
        &[0x82, 0x83, 0x11, 0x22],
        &[0x82, 0x83, 0x11, 0x22, 0x33, 0x44, 0x01, 0x02],
    ];
    for bytes in cases {
        let mut buf: Cursor<32> = filled_with(bytes);
        assert_eq!(read_frame(&mut buf), Err(FrameError::NotReady));
        assert_eq!(buf.pos(), 0);
        assert_eq!(buf.filled(), bytes.to_vec());
    }
}

#[test]
fn other_opcodes_are_violations() {
    for opcode in [0x0u8, 0x1, 0x8, 0x9, 0xa] {
        let mut buf: Cursor<32> = filled_with(&[0x80 | opcode, 0x01, 0x00]);
        assert_eq!(read_frame(&mut buf), Err(FrameError::Violation));
        assert_eq!(buf.pos(), 0);
    }
}

#[test]
fn extended_lengths_are_violations() {
    let mut buf: Cursor<32> = filled_with(&[0x82, 0xfe, 0x00, 0xc8, 1, 2, 3, 4]);
    assert_eq!(read_frame(&mut buf), Err(FrameError::Violation));
    let mut buf: Cursor<32> = filled_with(&[0x82, 0x7e, 0x00, 0xc8]);
    assert_eq!(read_frame(&mut buf), Err(FrameError::Violation));
    let mut buf: Cursor<32> = filled_with(&[0x82, 0x7f]);
    assert_eq!(read_frame(&mut buf), Err(FrameError::Violation));
}

#[test]
fn longest_short_frame_is_accepted() {
    let mut bytes = vec![0x82, 125];
    bytes.extend(std::iter::repeat(7u8).take(125));
    let mut buf: Cursor<200> = filled_with(&bytes);
    assert_eq!(read_frame(&mut buf), Ok(125));
    assert_eq!(buf.remaining(), 125);
}

#[test]
fn unmasking_twice_gives_the_payload_back() {
    let payload = [0u8, 1, 2, 3, 250, 251, 252, 253, 254, 255, 17];
    let key = [0xde, 0xad, 0xbe, 0xef];
    let mut buf: Cursor<16> = filled_with(&payload);
    unmask_in_place(&mut buf, 0, payload.len(), &key);
    let once = buf.filled();
    assert_ne!(once, payload.to_vec());
    assert_eq!(once[0], 0xde);
    assert_eq!(once[5], 251 ^ 0xad);
    unmask_in_place(&mut buf, 0, payload.len(), &key);
    assert_eq!(buf.filled(), payload.to_vec());
}

#[test]
fn unmask_leaves_what_lies_outside() {
    let mut buf: Cursor<16> = filled_with(&[1, 2, 3, 4, 5]);
    unmask_in_place(&mut buf, 1, 3, &[0xff, 0x0f, 0xf0, 0x00]);
    assert_eq!(buf.filled(), vec![1, 2 ^ 0xff, 3 ^ 0x0f, 4 ^ 0xf0, 5]);
}

#[test]
fn header_lengths_follow_the_thresholds() {
    assert_eq!(encode_frame_header(0), vec![0x02, 0]);
    assert_eq!(encode_frame_header(3), vec![0x02, 3]);
    assert_eq!(encode_frame_header(125), vec![0x02, 125]);
    assert_eq!(encode_frame_header(126), vec![0x02, 126, 0]);
    assert_eq!(encode_frame_header(300), vec![0x02, 0x2c, 0x01]);
    assert_eq!(encode_frame_header(511), vec![0x02, 0xff, 0x01]);
    assert_eq!(encode_frame_header(512), vec![0x02, 0x00, 0x02, 0, 0, 0, 0, 0, 0]);
    assert_eq!(encode_frame_header(0x0102_0304), vec![0x02, 4, 3, 2, 1, 0, 0, 0, 0]);
}

#[test]
fn write_frame_puts_the_header_in_front() {
    let mut buf: Cursor<16> = filled_with(&[9, 1, 2, 3]);
    buf.advance(1);
    assert_eq!(write_frame(&mut buf), Ok(()));
    assert_eq!(buf.pos(), 0);
    assert_eq!(buf.filled(), vec![0x02, 3, 1, 2, 3]);
}

#[test]
fn write_frame_around_the_short_length_limit() {
    let mut payload = vec![5u8; 125];
    let mut buf: Cursor<600> = filled_with(&payload);
    write_frame(&mut buf).unwrap();
    assert_eq!(buf.filled_len(), 127);
    assert_eq!(&buf.filled()[..2], &[0x02, 125]);

    payload.push(5);
    let mut buf: Cursor<600> = filled_with(&payload);
    write_frame(&mut buf).unwrap();
    assert_eq!(buf.filled_len(), 129);
    assert_eq!(&buf.filled()[..3], &[0x02, 126, 0]);
    assert_eq!(&buf.filled()[3..], &payload[..]);

    let payload = vec![6u8; 512];
    let mut buf: Cursor<600> = filled_with(&payload);
    write_frame(&mut buf).unwrap();
    assert_eq!(buf.filled_len(), 521);
    assert_eq!(&buf.filled()[..9], &[0x02, 0, 2, 0, 0, 0, 0, 0, 0]);
}

#[test]
fn write_frame_fails_when_header_does_not_fit() {
    let mut buf: Cursor<4> = filled_with(&[1, 2, 3]);
    assert_eq!(write_frame(&mut buf), Err(CapacityExceeded));
    assert_eq!(buf.filled(), vec![1, 2, 3]);
    assert_eq!(buf.pos(), 0);
    let mut buf: Cursor<5> = filled_with(&[1, 2, 3]);
    assert_eq!(write_frame(&mut buf), Ok(()));
    assert_eq!(buf.filled(), vec![0x02, 3, 1, 2, 3]);
}

#[test]
fn write_frame_of_nothing_is_a_bare_header() {
    let mut buf: Cursor<4> = Cursor::new();
    assert_eq!(write_frame(&mut buf), Ok(()));
    assert_eq!(buf.filled(), vec![0x02, 0]);
}
