//! The layer that keeps the application's own data beside a stream.

use crate::cursor::{Cursor, CursorView};
use crate::stream::{
    Accept, Close, Flush, Layer, PollRead, Read, ReceivePacket, Write, WritePacket,
};
use crate::websocket::ReadError;
use vstd::prelude::*;

verus! {

/// A stream together with what the application keeps per connection. Every
/// capability of the stream is handed on; the application's data stays as
/// it is.
pub struct ConnectionPipe<T, S> {
    pub stream: T,
    pub connection: S,
}

impl<T: Layer, S> Layer for ConnectionPipe<T, S> {
    open spec fn inv(&self) -> bool {
        self.stream.inv()
    }
}

impl<T: Layer, S: Default> ConnectionPipe<T, S> {
    /// The pipe on `value` with the application's data in its first state.
    pub fn from(value: T) -> (p: Self)
        requires
            value.inv(),
        ensures
            p.inv(),
            p.stream == value,
    {
        ConnectionPipe { stream: value, connection: S::default() }
    }
}

impl<T: Accept<A>, S: Default, A> Accept<A> for ConnectionPipe<T, S> {
    open spec fn acceptable(accept: A) -> bool {
        T::acceptable(accept)
    }

    open spec fn stacked_on(&self, accept: A) -> bool {
        self.stream.stacked_on(accept)
    }

    fn accept(accept: A) -> (s: Self) {
        ConnectionPipe { stream: T::accept(accept), connection: S::default() }
    }
}

impl<T: Close, S> Close for ConnectionPipe<T, S> {
    open spec fn closed(&self) -> bool {
        self.stream.closed()
    }

    open spec fn closes(&self, after: &Self, r: Result<(), ()>) -> bool {
        self.stream.closes(&after.stream, r) && after.connection == self.connection
    }

    fn is_closed(&self) -> (b: bool) {
        self.stream.is_closed()
    }

    fn close(&mut self) -> (r: Result<(), ()>) {
        self.stream.close()
    }
}

impl<T: Write, S> Write for ConnectionPipe<T, S> {
    open spec fn writes(
        &self,
        after: &Self,
        buf: CursorView,
        buf_after: CursorView,
        capacity: usize,
        r: Result<(), ()>,
    ) -> bool {
        self.stream.writes(&after.stream, buf, buf_after, capacity, r) && after.connection
            == self.connection
    }

    fn write<const N: usize>(&mut self, write_buf: &mut Cursor<N>) -> (r: Result<(), ()>) {
        self.stream.write(write_buf)
    }
}

impl<T: Flush, S> Flush for ConnectionPipe<T, S> {
    open spec fn flushes(&self, after: &Self, r: Result<(), ()>) -> bool {
        self.stream.flushes(&after.stream, r) && after.connection == self.connection
    }

    fn flush(&mut self) -> (r: Result<(), ()>) {
        self.stream.flush()
    }
}

impl<T: Read, S> Read for ConnectionPipe<T, S> {
    open spec fn reads(
        &self,
        after: &Self,
        buf: CursorView,
        buf_after: CursorView,
        capacity: usize,
        r: Result<(), ReadError>,
    ) -> bool {
        self.stream.reads(&after.stream, buf, buf_after, capacity, r) && after.connection
            == self.connection
    }

    fn read<const N: usize>(&mut self, read_buf: &mut Cursor<N>) -> (r: Result<(), ReadError>) {
        self.stream.read(read_buf)
    }
}

impl<P, T: WritePacket<P>, S> WritePacket<P> for ConnectionPipe<T, S> {
    open spec fn sends(&self, after: &Self, packet: P, r: Result<(), ReadError>) -> bool {
        self.stream.sends(&after.stream, packet, r) && after.connection == self.connection
    }

    fn send(&mut self, packet: P) -> (r: Result<(), ReadError>) {
        self.stream.send(packet)
    }
}

impl<T: PollRead, S> PollRead for ConnectionPipe<T, S> {
    open spec fn polls(&self, after: &Self, r: Result<(), ReadError>) -> bool {
        self.stream.polls(&after.stream, r) && after.connection == self.connection
    }

    fn poll_read(&mut self) -> (r: Result<(), ReadError>) {
        self.stream.poll_read()
    }
}

impl<T: ReceivePacket<P>, S, P> ReceivePacket<P> for ConnectionPipe<T, S> {
    open spec fn receives(&self, after: &Self, r: Result<P, ReadError>) -> bool {
        self.stream.receives(&after.stream, r) && after.connection == self.connection
    }

    fn recv(&mut self) -> (r: Result<P, ReadError>) {
        self.stream.recv()
    }
}

} // verus!
