use socket_server::cursor::{CapacityExceeded, Cursor, ReadAnswer, WriteAnswer};
use socket_server::websocket::ReadError;

fn filled_with<const N: usize>(bytes: &[u8]) -> Cursor<N> {
    let mut cursor: Cursor<N> = Cursor::new();
    cursor.push_transmute(bytes).unwrap();
    cursor
}

#[test]
fn push_fills_until_capacity() {
    let mut cursor: Cursor<3> = Cursor::new();
    assert_eq!(cursor.push(1), Ok(()));
    assert_eq!(cursor.push(2), Ok(()));
    assert_eq!(cursor.push(3), Ok(()));
    assert_eq!(cursor.push(4), Err(4));
    assert_eq!(cursor.filled(), vec![1, 2, 3]);
    assert_eq!(cursor.filled_len(), 3);
    assert_eq!(cursor.unfilled_len(), 0);
}

#[test]
fn read_consumes_in_order() {
    let mut cursor: Cursor<4> = filled_with(&[7, 8]);
    assert_eq!(cursor.read(), Some(7));
    assert_eq!(cursor.pos(), 1);
    assert_eq!(cursor.read(), Some(8));
    assert_eq!(cursor.read(), None);
    assert_eq!(cursor.pos(), 2);
    assert_eq!(cursor.remaining(), 0);
    assert_eq!(cursor.filled_len(), 2);
}

#[test]
fn bounds_hold_after_every_operation() {
    let mut cursor: Cursor<5> = Cursor::new();
    let check = |c: &Cursor<5>| assert!(c.pos() <= c.filled_len() && c.filled_len() <= c.capacity());
    check(&cursor);
    let _ = cursor.push_transmute(&[1, 2, 3]);
    check(&cursor);
    let _ = cursor.read();
    check(&cursor);
    let _ = cursor.push_transmute(&[4, 5, 6]);
    check(&cursor);
    cursor.advance(1);
    check(&cursor);
    cursor.consume(1);
    check(&cursor);
    cursor.clear();
    check(&cursor);
}

#[test]
fn push_transmute_is_all_or_nothing() {
    let mut cursor: Cursor<4> = filled_with(&[1, 2]);
    assert_eq!(cursor.push_transmute(&[3, 4, 5]), Err(CapacityExceeded));
    assert_eq!(cursor.filled(), vec![1, 2]);
    assert_eq!(cursor.push_transmute(&[3, 4]), Ok(()));
    assert_eq!(cursor.filled(), vec![1, 2, 3, 4]);
    assert_eq!(cursor.push_transmute(&[]), Ok(()));
}

#[test]
fn read_transmute_takes_exactly_count_or_nothing() {
    let mut cursor: Cursor<8> = filled_with(&[1, 2, 3, 4, 5]);
    assert_eq!(cursor.read_transmute(2), Some(vec![1, 2]));
    assert_eq!(cursor.pos(), 2);
    assert_eq!(cursor.read_transmute(4), None);
    assert_eq!(cursor.pos(), 2);
    assert_eq!(cursor.read_transmute(3), Some(vec![3, 4, 5]));
    assert_eq!(cursor.read_transmute(0), Some(vec![]));
}

#[test]
fn get_and_set_address_the_filled_part() {
    let mut cursor: Cursor<8> = filled_with(&[10, 20, 30]);
    assert_eq!(cursor.get(1), 20);
    cursor.set(1, 21);
    assert_eq!(cursor.filled(), vec![10, 21, 30]);
    assert_eq!(cursor.pos(), 0);
}

#[test]
fn consume_resets_when_drained() {
    let mut cursor: Cursor<8> = filled_with(&[1, 2, 3]);
    cursor.consume(1);
    assert_eq!(cursor.pos(), 1);
    assert_eq!(cursor.filled_len(), 3);
    assert_eq!(cursor.unread(), vec![2, 3]);
    cursor.consume(2);
    assert_eq!(cursor.pos(), 0);
    assert_eq!(cursor.filled_len(), 0);
}

#[test]
fn advance_keeps_the_filled_bytes() {
    let mut cursor: Cursor<8> = filled_with(&[1, 2, 3]);
    cursor.advance(3);
    assert_eq!(cursor.pos(), 3);
    assert_eq!(cursor.filled(), vec![1, 2, 3]);
    assert_eq!(cursor.unread(), Vec::<u8>::new());
}

#[test]
fn push_from_cursor_moves_the_unread_bytes() {
    let mut dst: Cursor<8> = filled_with(&[1, 2]);
    let mut src: Cursor<4> = filled_with(&[9, 3, 4]);
    assert_eq!(src.read(), Some(9));
    assert_eq!(dst.push_from_cursor(&mut src), Ok(()));
    assert_eq!(dst.filled(), vec![1, 2, 3, 4]);
    assert_eq!(dst.pos(), 0);
    assert_eq!(src.filled_len(), 0);
    assert_eq!(src.pos(), 0);
}

#[test]
fn push_from_cursor_keeps_every_byte() {
    let mut dst: Cursor<6> = filled_with(&[5, 6, 7]);
    let mut src: Cursor<6> = filled_with(&[1, 2, 3]);
    dst.advance(1);
    src.advance(1);
    let mut before = dst.unread();
    before.extend(src.unread());
    dst.push_from_cursor(&mut src).unwrap();
    let mut after = dst.unread();
    after.extend(src.unread());
    assert_eq!(before, after);
    assert_eq!(after, vec![6, 7, 2, 3]);
}

#[test]
fn push_from_cursor_fails_without_room() {
    let mut dst: Cursor<4> = filled_with(&[1, 2, 3]);
    let mut src: Cursor<4> = filled_with(&[4, 5]);
    assert_eq!(dst.push_from_cursor(&mut src), Err(CapacityExceeded));
    assert_eq!(dst.filled(), vec![1, 2, 3]);
    assert_eq!(src.filled(), vec![4, 5]);
    assert_eq!(src.pos(), 0);
}

#[test]
fn push_from_cursor_fills_to_the_last_byte() {
    let mut dst: Cursor<4> = filled_with(&[1, 2]);
    let mut src: Cursor<4> = filled_with(&[3, 4]);
    assert_eq!(dst.push_from_cursor(&mut src), Ok(()));
    assert_eq!(dst.filled(), vec![1, 2, 3, 4]);
}

#[test]
fn clear_empties() {
    let mut cursor: Cursor<4> = filled_with(&[1, 2, 3]);
    cursor.advance(2);
    cursor.clear();
    assert_eq!(cursor.pos(), 0);
    assert_eq!(cursor.filled_len(), 0);
    assert_eq!(cursor.unfilled_len(), 4);
}

#[test]
fn push_read_follows_the_answer() {
    let mut cursor: Cursor<4> = filled_with(&[1]);
    assert_eq!(cursor.push_read(&[7, 8, 9], ReadAnswer::Read(2)), Ok(()));
    assert_eq!(cursor.filled(), vec![1, 7, 8]);
    assert_eq!(cursor.push_read(&[7, 8, 9], ReadAnswer::Read(0)), Err(ReadError::CloseRequest));
    assert_eq!(cursor.push_read(&[7, 8, 9], ReadAnswer::WouldBlock), Err(ReadError::NotFullRead));
    assert_eq!(cursor.push_read(&[7, 8, 9], ReadAnswer::Failed), Err(ReadError::CloseRequest));
    assert_eq!(cursor.push_read(&[7, 8, 9], ReadAnswer::Read(2)), Err(ReadError::CloseRequest));
    assert_eq!(cursor.push_read(&[7], ReadAnswer::Read(2)), Err(ReadError::CloseRequest));
    assert_eq!(cursor.filled(), vec![1, 7, 8]);
    assert_eq!(cursor.push_read(&[5], ReadAnswer::Read(1)), Ok(()));
    assert_eq!(cursor.filled(), vec![1, 7, 8, 5]);
}

#[test]
fn take_written_advances_by_what_was_taken() {
    let mut cursor: Cursor<4> = filled_with(&[1, 2, 3]);
    assert_eq!(cursor.take_written(WriteAnswer::Wrote(2)), Ok(()));
    assert_eq!(cursor.unread(), vec![3]);
    assert_eq!(cursor.pos(), 2);
    assert_eq!(cursor.take_written(WriteAnswer::Wrote(0)), Err(()));
    assert_eq!(cursor.take_written(WriteAnswer::Wrote(2)), Err(()));
    assert_eq!(cursor.take_written(WriteAnswer::Failed), Err(()));
    assert_eq!(cursor.unread(), vec![3]);
    assert_eq!(cursor.take_written(WriteAnswer::Wrote(1)), Ok(()));
    assert_eq!(cursor.pos(), 0);
    assert_eq!(cursor.filled_len(), 0);
}
