//! The WebSocket layer: it sits on a writable byte channel, answers the
//! opening handshake and frames what passes through.

use crate::cursor::{Cursor, CursorView};
use crate::stream::writable_byte_channel::WritableByteChannel;
use crate::stream::{Accept, Close, Flush, Layer, Read, Write};
use crate::websocket::{
    flush_outcome, lemma_flush_is_monotone, lemma_read_is_monotone, read_outcome, websocket_flush,
    websocket_read, Outcome, ReadError, WebSocketState,
};
use vstd::prelude::*;

verus! {

/// A stream that speaks the server side of WebSocket over `stream`.
pub struct WebSocketServer<T> {
    pub stream: T,
    pub state: WebSocketState,
}

impl<T: Layer> Layer for WebSocketServer<T> {
    open spec fn inv(&self) -> bool {
        self.stream.inv()
    }
}

impl<T: Layer> WebSocketServer<T> {
    /// Puts the layer, not yet shaken hands, on top of `value`.
    pub fn from(value: T) -> (s: Self)
        requires
            value.inv(),
        ensures
            s.inv(),
            s.stream == value,
            s.state == WebSocketState::Idle,
    {
        WebSocketServer { stream: value, state: WebSocketState::Idle }
    }
}

impl<T: Accept<A>, A> Accept<A> for WebSocketServer<T> {
    open spec fn acceptable(accept: A) -> bool {
        T::acceptable(accept)
    }

    open spec fn stacked_on(&self, accept: A) -> bool {
        self.stream.stacked_on(accept) && self.state == WebSocketState::Idle
    }

    fn accept(accept: A) -> (s: Self) {
        WebSocketServer { stream: T::accept(accept), state: WebSocketState::Idle }
    }
}

impl<T: Read, const LEN: usize> Read for WebSocketServer<WritableByteChannel<T, LEN>> {
    /// The channel below first brings bytes into the read buffer. If it
    /// hands out nothing, the connection is to be closed and the state
    /// stays. Otherwise what the read buffer holds then is handled as
    /// `read_outcome` says, with the channel's write buffer taking the
    /// answer to the handshake.
    open spec fn reads(
        &self,
        after: &Self,
        buf: CursorView,
        buf_after: CursorView,
        capacity: usize,
        r: Result<(), ReadError>,
    ) -> bool {
        exists|
            brought: CursorView,
            below: WritableByteChannel<T, LEN>,
            first: Result<(), ReadError>,
        | #[trigger]
            self.stream.reads(&below, buf, brought, capacity, first) && if first is Ok {
                after.stream.stream == below.stream && (Outcome {
                    result: r,
                    state: after.state,
                    read_buf: buf_after,
                    write_buf: after.stream.write_buf@,
                }) == read_outcome(self.state, brought, below.write_buf@, LEN as nat)
            } else {
                r == Err::<(), ReadError>(ReadError::CloseRequest) && after.state == self.state
                    && after.stream == below && buf_after == brought
            }
    }

    fn read<const N: usize>(&mut self, read_buf: &mut Cursor<N>) -> (r: Result<(), ReadError>)
        ensures
            old(self).state.rank() <= final(self).state.rank(),
    {
        let first = self.stream.read(read_buf);
        let ghost brought = read_buf@;
        let ghost below = self.stream;
        assert(old(self).stream.reads(&below, old(read_buf)@, brought, N, first));
        match first {
            Ok(()) => {},
            Err(_) => {
                return Err(ReadError::CloseRequest);
            },
        }
        let r = websocket_read(&mut self.state, read_buf, &mut self.stream.write_buf);
        proof {
            lemma_read_is_monotone(old(self).state, brought, below.write_buf@, LEN as nat);
        }
        r
    }
}

impl<T: Layer, const LEN: usize> Write for WebSocketServer<WritableByteChannel<T, LEN>> {
    /// The caller's bytes are staged in the channel below; the state
    /// stays.
    open spec fn writes(
        &self,
        after: &Self,
        buf: CursorView,
        buf_after: CursorView,
        capacity: usize,
        r: Result<(), ()>,
    ) -> bool {
        self.stream.writes(&after.stream, buf, buf_after, capacity, r) && after.state
            == self.state
    }

    fn write<const N: usize>(&mut self, write_buf: &mut Cursor<N>) -> (r: Result<(), ()>) {
        self.stream.write(write_buf)
    }
}

impl<T: Flush + Write, const LEN: usize> Flush for WebSocketServer<WritableByteChannel<T, LEN>> {
    /// The staged bytes are prepared as `flush_outcome` says: the answer
    /// to the handshake goes out as it is, anything later as one binary
    /// frame. If that succeeds, the channel below is flushed; if header
    /// and payload do not fit, the flush fails and nothing is sent.
    open spec fn flushes(&self, after: &Self, r: Result<(), ()>) -> bool {
        let prepared = flush_outcome(self.state, self.stream.write_buf@, LEN as nat);
        &&& after.state == prepared.1
        &&& if prepared.0 {
            exists|framed: WritableByteChannel<T, LEN>| #[trigger]
                framed.flushes(&after.stream, r) && framed.stream == self.stream.stream
                    && framed.write_buf@ == prepared.2
        } else {
            r is Err && after.stream.stream == self.stream.stream && after.stream.write_buf@
                == self.stream.write_buf@
        }
    }

    fn flush(&mut self) -> (r: Result<(), ()>)
        ensures
            old(self).state.rank() <= final(self).state.rank(),
    {
        proof {
            lemma_flush_is_monotone(old(self).state, old(self).stream.write_buf@, LEN as nat);
        }
        match websocket_flush(&mut self.state, &mut self.stream.write_buf) {
            Ok(()) => {
                let ghost framed = self.stream;
                let r = self.stream.flush();
                assert(framed.flushes(&self.stream, r));
                r
            },
            Err(_) => Err(()),
        }
    }
}

impl<T: Close> Close for WebSocketServer<T> {
    open spec fn closed(&self) -> bool {
        self.stream.closed()
    }

    /// Closing is the business of the stream below; the state stays.
    open spec fn closes(&self, after: &Self, r: Result<(), ()>) -> bool {
        self.stream.closes(&after.stream, r) && after.state == self.state
    }

    fn is_closed(&self) -> (b: bool) {
        self.stream.is_closed()
    }

    fn close(&mut self) -> (r: Result<(), ()>) {
        self.stream.close()
    }
}

} // verus!
