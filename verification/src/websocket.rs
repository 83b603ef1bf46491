//! The server side of a WebSocket connection as a three-state machine over
//! the connection's read and write buffers.

use crate::cursor::{CapacityExceeded, Cursor, CursorView};
use crate::frame::{decode, framed, read_frame, splice, write_frame, Decoded, FrameError};
use crate::handshake::{handshake, upgrade_response};
use vstd::prelude::*;

verus! {

/// What a read asks of the caller when it hands out no payload.
#[derive(Debug, Clone, Copy, PartialEq, Eq, Structural)]
pub enum ReadError {
    /// The frame is incomplete; wait for more bytes.
    NotFullRead,
    /// The write buffer holds bytes that are to be flushed.
    FlushRequest,
    /// The connection is to be closed.
    CloseRequest,
}

/// Progress of a connection through the opening handshake.
#[derive(Debug, Clone, Copy, PartialEq, Eq, Structural)]
pub enum WebSocketState {
    /// No upgrade request was answered yet.
    Idle,
    /// The answer to the upgrade request is staged, not yet flushed.
    HandShaked,
    /// The answer was flushed; data frames flow.
    Accepted,
}

impl WebSocketState {
    /// Position in the order `Idle < HandShaked < Accepted`.
    pub open spec fn rank(self) -> nat {
        match self {
            WebSocketState::Idle => 0,
            WebSocketState::HandShaked => 1,
            WebSocketState::Accepted => 2,
        }
    }
}

impl Default for WebSocketState {
    fn default() -> (s: Self)
        ensures
            s == WebSocketState::Idle,
    {
        WebSocketState::Idle
    }
}

/// What a read or a flush answers and leaves behind.
pub struct Outcome {
    pub result: Result<(), ReadError>,
    pub state: WebSocketState,
    pub read_buf: CursorView,
    pub write_buf: CursorView,
}

/// What a read does in `state` with the connection's buffers, the write
/// buffer having `write_capacity` bytes in all.
///
/// * `Idle`: the filled bytes of the read buffer are an upgrade request.
///   When it is accepted and its answer fits, the answer is staged in the
///   write buffer, the read buffer is emptied, the state becomes
///   `HandShaked` and a flush is asked for. Otherwise the connection is to
///   be closed and nothing changes.
/// * `HandShaked`: the peer must not send before the answer went out; the
///   connection is to be closed.
/// * `Accepted`: one binary frame is taken off the unread bytes and
///   unmasked where it lies; the cursor then stands at the payload. An
///   incomplete frame changes nothing and waits; any other frame closes.
pub open spec fn read_outcome(
    state: WebSocketState,
    read_buf: CursorView,
    write_buf: CursorView,
    write_capacity: nat,
) -> Outcome {
    let refused = Outcome { result: Err(ReadError::CloseRequest), state, read_buf, write_buf };
    match state {
        WebSocketState::Idle => match upgrade_response(read_buf.filled) {
            Some(response) if write_buf.filled.len() + response.len() <= write_capacity => Outcome {
                result: Err(ReadError::FlushRequest),
                state: WebSocketState::HandShaked,
                read_buf: CursorView::empty(),
                write_buf: CursorView { filled: write_buf.filled + response, pos: write_buf.pos },
            },
            _ => refused,
        },
        WebSocketState::HandShaked => refused,
        WebSocketState::Accepted => match decode(read_buf.unread()) {
            Decoded::NotReady => Outcome {
                result: Err(ReadError::NotFullRead),
                state,
                read_buf,
                write_buf,
            },
            Decoded::Violation => refused,
            Decoded::Frame { header_len, payload } => Outcome {
                result: Ok(()),
                state,
                read_buf: CursorView {
                    filled: splice(read_buf.filled, (read_buf.pos + header_len) as int, payload),
                    pos: read_buf.pos + header_len,
                },
                write_buf,
            },
        },
    }
}

/// What a flush does in `state` with the write buffer of `write_capacity`
/// bytes.
///
/// * `HandShaked`: the staged answer goes out as it is; the state becomes
///   `Accepted`.
/// * otherwise: the unread bytes of the write buffer are one payload; the
///   buffer is rewritten to header and payload. When they do not fit
///   together the buffer is left as it was, and the flush fails.
pub open spec fn flush_outcome(state: WebSocketState, write_buf: CursorView, write_capacity: nat)
    -> (bool, WebSocketState, CursorView) {
    if state == WebSocketState::HandShaked {
        (true, WebSocketState::Accepted, write_buf)
    } else if framed(write_buf.unread()).len() <= write_capacity {
        (true, state, CursorView { filled: framed(write_buf.unread()), pos: 0 })
    } else {
        (false, state, write_buf)
    }
}

/// A read never moves the state backwards: it moves it from `Idle` to
/// `HandShaked`, together with the request for a flush, or not at all.
pub proof fn lemma_read_is_monotone(
    state: WebSocketState,
    read_buf: CursorView,
    write_buf: CursorView,
    write_capacity: nat,
)
    ensures
        state.rank() <= read_outcome(state, read_buf, write_buf, write_capacity).state.rank(),
        read_outcome(state, read_buf, write_buf, write_capacity).state != state <==> state
            == WebSocketState::Idle && read_outcome(
            state,
            read_buf,
            write_buf,
            write_capacity,
        ).state == WebSocketState::HandShaked,
        read_outcome(state, read_buf, write_buf, write_capacity).state != state <==> read_outcome(
            state,
            read_buf,
            write_buf,
            write_capacity,
        ).result == Err::<(), ReadError>(ReadError::FlushRequest),
{
}

/// A flush never moves the state backwards: it moves it from `HandShaked`
/// to `Accepted`, or not at all.
pub proof fn lemma_flush_is_monotone(
    state: WebSocketState,
    write_buf: CursorView,
    write_capacity: nat,
)
    ensures
        state.rank() <= flush_outcome(state, write_buf, write_capacity).1.rank(),
        flush_outcome(state, write_buf, write_capacity).1 != state <==> state
            == WebSocketState::HandShaked,
        state == WebSocketState::HandShaked ==> flush_outcome(state, write_buf, write_capacity).1
            == WebSocketState::Accepted,
{
}

/// Whatever reads and flushes follow one another, the state only moves
/// forwards through `Idle`, `HandShaked`, `Accepted`.
pub proof fn lemma_state_only_advances(
    state: WebSocketState,
    read_buf: CursorView,
    write_buf: CursorView,
    write_capacity: nat,
)
    ensures
        state.rank() <= flush_outcome(
            read_outcome(state, read_buf, write_buf, write_capacity).state,
            read_outcome(state, read_buf, write_buf, write_capacity).write_buf,
            write_capacity,
        ).1.rank(),
        state.rank() <= read_outcome(
            flush_outcome(state, write_buf, write_capacity).1,
            read_buf,
            flush_outcome(state, write_buf, write_capacity).2,
            write_capacity,
        ).state.rank(),
{
    lemma_read_is_monotone(state, read_buf, write_buf, write_capacity);
    lemma_flush_is_monotone(state, write_buf, write_capacity);
    lemma_flush_is_monotone(
        read_outcome(state, read_buf, write_buf, write_capacity).state,
        read_outcome(state, read_buf, write_buf, write_capacity).write_buf,
        write_capacity,
    );
    lemma_read_is_monotone(
        flush_outcome(state, write_buf, write_capacity).1,
        read_buf,
        flush_outcome(state, write_buf, write_capacity).2,
        write_capacity,
    );
}

/// Handles the bytes that arrived in `read_buf`, as `read_outcome` says.
pub fn websocket_read<const R: usize, const W: usize>(
    websocket: &mut WebSocketState,
    read_buf: &mut Cursor<R>,
    write_buf: &mut Cursor<W>,
) -> (r: Result<(), ReadError>)
    requires
        old(read_buf).wf(),
        old(write_buf).wf(),
    ensures
        final(read_buf).wf(),
        final(write_buf).wf(),
        (Outcome {
            result: r,
            state: *final(websocket),
            read_buf: final(read_buf)@,
            write_buf: final(write_buf)@,
        }) == read_outcome(*old(websocket), old(read_buf)@, old(write_buf)@, W as nat),
{
    match *websocket {
        WebSocketState::Idle => {
            match handshake(read_buf, write_buf) {
                Ok(()) => {
                    *websocket = WebSocketState::HandShaked;
                    Err(ReadError::FlushRequest)
                },
                Err(_) => Err(ReadError::CloseRequest),
            }
        },
        WebSocketState::HandShaked => Err(ReadError::CloseRequest),
        WebSocketState::Accepted => {
            match read_frame(read_buf) {
                Ok(_) => Ok(()),
                Err(FrameError::NotReady) => Err(ReadError::NotFullRead),
                Err(FrameError::Violation) => Err(ReadError::CloseRequest),
            }
        },
    }
}

/// Prepares `write_buf` for being drained, as `flush_outcome` says.
pub fn websocket_flush<const W: usize>(websocket: &mut WebSocketState, write_buf: &mut Cursor<W>)
    -> (r: Result<(), CapacityExceeded>)
    requires
        old(write_buf).wf(),
    ensures
        final(write_buf).wf(),
        (r is Ok, *final(websocket), final(write_buf)@) == flush_outcome(
            *old(websocket),
            old(write_buf)@,
            W as nat,
        ),
{
    match *websocket {
        WebSocketState::HandShaked => {
            *websocket = WebSocketState::Accepted;
            Ok(())
        },
        _ => write_frame(write_buf),
    }
}

} // verus!
