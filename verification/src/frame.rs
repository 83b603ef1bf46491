//! WebSocket data frames: decoding of client frames with in-place
//! unmasking, and the header that is put in front of server payloads.

use crate::cursor::{CapacityExceeded, Cursor, CursorView};
use vstd::prelude::*;

verus! {

/// The only opcode that is accepted and emitted: a binary frame.
pub const OPCODE_BINARY: u8 = 2;

/// Number of bytes of a masking key.
pub const MASK_KEY_LEN: usize = 4;

/// Smallest value of the 7-bit length field that announces an extended length.
pub const EXTENDED_LEN_MARKER: u8 = 126;

/// Payload length from which the emitted length takes eight bytes.
pub const WIDE_LEN_THRESHOLD: usize = 512;

/// The opcode nibble of the first header byte.
pub open spec fn opcode_of(first: u8) -> u8 {
    first & 0x0f
}

/// The mask bit of the second header byte.
pub open spec fn mask_bit_of(second: u8) -> bool {
    second & 0x80 != 0
}

/// The 7-bit length field of the second header byte.
pub open spec fn len7_of(second: u8) -> u8 {
    second & 0x7f
}

/// `payload` with every byte exclusive-ored with the key byte of its
/// position, the key repeating every four bytes.
pub open spec fn unmask(payload: Seq<u8>, key: Seq<u8>) -> Seq<u8> {
    Seq::new(payload.len(), |i: int| payload[i] ^ key[i % (MASK_KEY_LEN as int)])
}

/// What the unread bytes of a read buffer hold.
pub enum Decoded {
    /// The frame is not complete yet.
    NotReady,
    /// The bytes are no acceptable frame.
    Violation,
    /// A complete binary frame: the length of its header (masking key
    /// included) and its payload, unmasked.
    Frame { header_len: nat, payload: Seq<u8> },
}

/// Reads one frame off the front of `unread`.
pub open spec fn decode(unread: Seq<u8>) -> Decoded {
    if unread.len() < 2 {
        Decoded::NotReady
    } else if opcode_of(unread[0]) != OPCODE_BINARY {
        Decoded::Violation
    } else if len7_of(unread[1]) >= EXTENDED_LEN_MARKER {
        Decoded::Violation
    } else {
        let n = len7_of(unread[1]) as int;
        if mask_bit_of(unread[1]) {
            if unread.len() < 6 + n {
                Decoded::NotReady
            } else {
                Decoded::Frame {
                    header_len: 6,
                    payload: unmask(unread.subrange(6, 6 + n), unread.subrange(2, 6)),
                }
            }
        } else {
            if unread.len() < 2 + n {
                Decoded::NotReady
            } else {
                Decoded::Frame { header_len: 2, payload: unread.subrange(2, 2 + n) }
            }
        }
    }
}

/// Why no frame came out of a read buffer.
#[derive(Debug, Clone, Copy, PartialEq, Eq, Structural)]
pub enum FrameError {
    /// More bytes are needed; nothing was consumed.
    NotReady,
    /// Wrong opcode or an extended length; the connection is to be closed.
    Violation,
}

/// `filled` with the `payload.len()` bytes from `at` on replaced by `payload`.
pub open spec fn splice(filled: Seq<u8>, at: int, payload: Seq<u8>) -> Seq<u8> {
    filled.subrange(0, at) + payload + filled.subrange(at + payload.len(), filled.len() as int)
}

/// Exclusive-or with a key byte undoes itself.
pub proof fn lemma_xor_twice(b: u8, k: u8)
    ensures
        (b ^ k) ^ k == b,
{
    assert((b ^ k) ^ k == b) by (bit_vector);
}

/// Unmasking is an involution: applying the same key twice gives the
/// payload back.
pub proof fn lemma_unmask_involution(payload: Seq<u8>, key: Seq<u8>)
    ensures
        unmask(unmask(payload, key), key) == payload,
{
    let once = unmask(payload, key);
    let twice = unmask(once, key);
    assert forall|i: int| 0 <= i < payload.len() implies twice[i] == payload[i] by {
        lemma_xor_twice(payload[i], key[i % (MASK_KEY_LEN as int)]);
    }
    assert(twice =~= payload);
}

/// Exclusive-ors the `len` bytes of the filled part from `start` on with
/// `key`, in place.
pub fn unmask_in_place<const N: usize>(read_buf: &mut Cursor<N>, start: usize, len: usize, key: &[u8])
    requires
        old(read_buf).wf(),
        key@.len() == MASK_KEY_LEN,
        start + len <= old(read_buf)@.filled.len(),
    ensures
        final(read_buf).wf(),
        final(read_buf)@.pos == old(read_buf)@.pos,
        final(read_buf)@.filled == splice(
            old(read_buf)@.filled,
            start as int,
            unmask(old(read_buf)@.filled.subrange(start as int, start + len), key@),
        ),
{
    let ghost before = read_buf@.filled;
    let ghost region = before.subrange(start as int, start + len);
    let mut i: usize = 0;
    let mut mask_i: usize = 0;
    while i < len
        invariant
            i <= len,
            mask_i == i % MASK_KEY_LEN,
            key@.len() == MASK_KEY_LEN,
            start + len <= before.len(),
            before.len() <= N,
            region == before.subrange(start as int, start + len),
            read_buf@.pos == old(read_buf)@.pos,
            old(read_buf)@.pos <= before.len(),
            read_buf@.filled.len() == before.len(),
            forall|j: int|
                0 <= j < before.len() ==> #[trigger] read_buf@.filled[j] == if start <= j < start
                    + i {
                    region[j - start] ^ key@[(j - start) % 4]
                } else {
                    before[j]
                },
        decreases len - i,
    {
        let b = read_buf.get(start + i);
        read_buf.set(start + i, b ^ key[mask_i]);
        i = i + 1;
        mask_i = mask_i + 1;
        mask_i = mask_i % MASK_KEY_LEN;
    }
    assert(read_buf@.filled =~= splice(before, start as int, unmask(region, key@)));
}

/// Takes one frame off the unread bytes of `read_buf`.
///
/// On success the header and the masking key are consumed, the payload is
/// unmasked where it lies, and the cursor stands at its first byte; the
/// payload's length is returned. Otherwise the buffer is left as it was.
pub fn read_frame<const N: usize>(read_buf: &mut Cursor<N>) -> (r: Result<usize, FrameError>)
    requires
        old(read_buf).wf(),
    ensures
        final(read_buf).wf(),
        match decode(old(read_buf)@.unread()) {
            Decoded::NotReady => r == Err::<usize, FrameError>(FrameError::NotReady)
                && final(read_buf)@ == old(read_buf)@,
            Decoded::Violation => r == Err::<usize, FrameError>(FrameError::Violation)
                && final(read_buf)@ == old(read_buf)@,
            Decoded::Frame { header_len, payload } => {
                &&& r == Ok::<usize, FrameError>(payload.len() as usize)
                &&& final(read_buf)@.pos == old(read_buf)@.pos + header_len
                &&& final(read_buf)@.filled == splice(
                    old(read_buf)@.filled,
                    (old(read_buf)@.pos + header_len) as int,
                    payload,
                )
            },
        },
{
    let pos = read_buf.pos();
    let ghost unread = read_buf@.unread();
    if read_buf.remaining() < 2 {
        return Err(FrameError::NotReady);
    }
    let first = read_buf.get(pos);
    let second = read_buf.get(pos + 1);
    assert(first == unread[0] && second == unread[1]);
    if first & 0x0f != OPCODE_BINARY {
        return Err(FrameError::Violation);
    }
    let len7 = second & 0x7f;
    if len7 >= EXTENDED_LEN_MARKER {
        return Err(FrameError::Violation);
    }
    let len = len7 as usize;
    if second & 0x80 != 0 {
        if read_buf.remaining() < 2 + MASK_KEY_LEN + len {
            return Err(FrameError::NotReady);
        }
        let key: [u8; 4] = [
            read_buf.get(pos + 2),
            read_buf.get(pos + 3),
            read_buf.get(pos + 4),
            read_buf.get(pos + 5),
        ];
        assert(key@ =~= unread.subrange(2, 6));
        assert(read_buf@.filled.subrange(pos + 6, pos + 6 + len) =~= unread.subrange(
            6,
            6 + len,
        ));
        read_buf.advance(2 + MASK_KEY_LEN);
        unmask_in_place(read_buf, pos + 6, len, key.as_slice());
        Ok(len)
    } else {
        if read_buf.remaining() < 2 + len {
            return Err(FrameError::NotReady);
        }
        assert(read_buf@.filled.subrange(pos + 2, pos + 2 + len) =~= unread.subrange(
            2,
            2 + len,
        ));
        assert(read_buf@.filled =~= splice(
            read_buf@.filled,
            pos + 2,
            unread.subrange(2, 2 + len),
        ));
        read_buf.advance(2);
        Ok(len)
    }
}

/// The `count` low-order bytes of `value`, least significant first.
pub open spec fn le_bytes(value: nat, count: nat) -> Seq<u8>
    decreases count,
{
    if count == 0 {
        Seq::empty()
    } else {
        seq![(value % 256) as u8] + le_bytes(value / 256, (count - 1) as nat)
    }
}

/// The length field in front of a server payload of `len` bytes: one byte
/// below 126, two bytes below 512, eight bytes from there on.
pub open spec fn length_bytes(len: nat) -> Seq<u8> {
    if len < EXTENDED_LEN_MARKER {
        seq![len as u8]
    } else if len < WIDE_LEN_THRESHOLD {
        le_bytes(len, 2)
    } else {
        le_bytes(len, 8)
    }
}

/// The header in front of a server payload of `len` bytes.
pub open spec fn frame_header(len: nat) -> Seq<u8> {
    seq![OPCODE_BINARY] + length_bytes(len)
}

/// A payload with its header in front.
pub open spec fn framed(payload: Seq<u8>) -> Seq<u8> {
    frame_header(payload.len()) + payload
}

/// A header is two, three or nine bytes long.
pub proof fn lemma_frame_header_len(len: nat)
    ensures
        frame_header(len).len() == if len < 126 {
            2nat
        } else if len < 512 {
            3nat
        } else {
            9nat
        },
{
    lemma_le_bytes_len(len, 2);
    lemma_le_bytes_len(len, 8);
}

/// `le_bytes` gives as many bytes as it is asked for.
pub proof fn lemma_le_bytes_len(value: nat, count: nat)
    ensures
        le_bytes(value, count).len() == count,
    decreases count,
{
    if count > 0 {
        lemma_le_bytes_len(value / 256, (count - 1) as nat);
    }
}

/// Appends the `count` low-order bytes of `value` to `out`, least
/// significant first.
fn push_le_bytes(out: &mut Vec<u8>, value: usize, count: usize)
    ensures
        final(out)@ == old(out)@ + le_bytes(value as nat, count as nat),
{
    let mut v: usize = value;
    let mut i: usize = 0;
    while i < count
        invariant
            i <= count,
            out@ + le_bytes(v as nat, (count - i) as nat) == old(out)@ + le_bytes(
                value as nat,
                count as nat,
            ),
        decreases count - i,
    {
        let ghost before = out@;
        let b: u8 = (v % 256) as u8;
        out.push(b);
        assert(out@ + le_bytes((v / 256) as nat, (count - i - 1) as nat) =~= before + le_bytes(
            v as nat,
            (count - i) as nat,
        ));
        v = v / 256;
        i = i + 1;
    }
    assert(out@ + le_bytes(v as nat, 0) =~= out@);
}

/// The header for a server payload of `len` bytes.
pub fn encode_frame_header(len: usize) -> (header: Vec<u8>)
    ensures
        header@ == frame_header(len as nat),
{
    let mut header: Vec<u8> = Vec::with_capacity(9);
    header.push(OPCODE_BINARY);
    if len >= WIDE_LEN_THRESHOLD {
        push_le_bytes(&mut header, len, 8);
    } else if len >= EXTENDED_LEN_MARKER as usize {
        push_le_bytes(&mut header, len, 2);
    } else {
        header.push(len as u8);
    }
    assert(header@ =~= frame_header(len as nat));
    header
}

/// Rewrites `write_buf` so that it holds the header for its unread bytes
/// followed by those bytes, ready to be drained from position zero. When
/// header and payload do not fit together, the buffer is left as it was.
pub fn write_frame<const N: usize>(write_buf: &mut Cursor<N>) -> (r: Result<(), CapacityExceeded>)
    requires
        old(write_buf).wf(),
    ensures
        final(write_buf).wf(),
        framed(old(write_buf)@.unread()).len() <= N ==> r is Ok && final(write_buf)@ == (
        CursorView { filled: framed(old(write_buf)@.unread()), pos: 0 }),
        framed(old(write_buf)@.unread()).len() > N ==> r is Err && final(write_buf)@ == old(
            write_buf,
        )@,
{
    let payload_len = write_buf.remaining();
    let header = encode_frame_header(payload_len);
    proof {
        lemma_frame_header_len(payload_len as nat);
    }
    let mut buffer: Cursor<N> = Cursor::new();
    match buffer.push_transmute(header.as_slice()) {
        Ok(()) => {},
        Err(e) => {
            return Err(e);
        },
    }
    match buffer.push_from_cursor(write_buf) {
        Ok(()) => {},
        Err(e) => {
            return Err(e);
        },
    }
    let moved = write_buf.push_from_cursor(&mut buffer);
    assert(write_buf@.filled =~= framed(old(write_buf)@.unread()));
    moved
}

} // verus!
