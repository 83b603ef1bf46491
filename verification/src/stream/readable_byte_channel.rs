//! The layer that owns the read buffer.

use crate::cursor::{Cursor, CursorView};
use crate::stream::{
    Accept, Close, Flush, Layer, PollRead, Read, ReadPacket, ReceivePacket, Write, WritePacket,
};
use crate::websocket::ReadError;
use vstd::prelude::*;

verus! {

/// A stream with a read buffer of capacity `LEN` on top of it.
pub struct ReadableByteChannel<T, const LEN: usize> {
    pub stream: T,
    pub read_buf: Cursor<LEN>,
}

impl<T: Layer, const LEN: usize> Layer for ReadableByteChannel<T, LEN> {
    open spec fn inv(&self) -> bool {
        self.stream.inv() && self.read_buf.wf()
    }
}

impl<T: Layer, const LEN: usize> ReadableByteChannel<T, LEN> {
    /// Puts an empty read buffer on top of `value`.
    pub fn from(value: T) -> (c: Self)
        requires
            value.inv(),
        ensures
            c.inv(),
            c.stream == value,
            c.read_buf@ == CursorView::empty(),
    {
        ReadableByteChannel { stream: value, read_buf: Cursor::new() }
    }
}

impl<T: Accept<A>, A, const LEN: usize> Accept<A> for ReadableByteChannel<T, LEN> {
    open spec fn acceptable(accept: A) -> bool {
        T::acceptable(accept)
    }

    open spec fn stacked_on(&self, accept: A) -> bool {
        self.stream.stacked_on(accept) && self.read_buf@ == CursorView::empty()
    }

    fn accept(accept: A) -> (s: Self) {
        ReadableByteChannel { stream: T::accept(accept), read_buf: Cursor::new() }
    }
}

impl<T: Read, const LEN: usize> PollRead for ReadableByteChannel<T, LEN> {
    /// The stream below reads into the channel's own read buffer.
    open spec fn polls(&self, after: &Self, r: Result<(), ReadError>) -> bool {
        self.stream.reads(&after.stream, self.read_buf@, after.read_buf@, LEN, r)
    }

    fn poll_read(&mut self) -> (r: Result<(), ReadError>) {
        self.stream.read(&mut self.read_buf)
    }
}

impl<T: Read, const LEN: usize> Read for ReadableByteChannel<T, LEN> {
    /// Reading into a buffer of the caller is the business of the stream
    /// below.
    open spec fn reads(
        &self,
        after: &Self,
        buf: CursorView,
        buf_after: CursorView,
        capacity: usize,
        r: Result<(), ReadError>,
    ) -> bool {
        self.stream.reads(&after.stream, buf, buf_after, capacity, r) && after.read_buf@
            == self.read_buf@
    }

    fn read<const N: usize>(&mut self, read_buf: &mut Cursor<N>) -> (r: Result<(), ReadError>) {
        self.stream.read(read_buf)
    }
}

impl<T: Write, const LEN: usize> Write for ReadableByteChannel<T, LEN> {
    /// Writing is the business of the stream below.
    open spec fn writes(
        &self,
        after: &Self,
        buf: CursorView,
        buf_after: CursorView,
        capacity: usize,
        r: Result<(), ()>,
    ) -> bool {
        self.stream.writes(&after.stream, buf, buf_after, capacity, r) && after.read_buf@
            == self.read_buf@
    }

    fn write<const N: usize>(&mut self, write_buf: &mut Cursor<N>) -> (r: Result<(), ()>) {
        self.stream.write(write_buf)
    }
}

impl<T: Flush, const LEN: usize> Flush for ReadableByteChannel<T, LEN> {
    /// Flushing is the business of the stream below.
    open spec fn flushes(&self, after: &Self, r: Result<(), ()>) -> bool {
        self.stream.flushes(&after.stream, r) && after.read_buf@ == self.read_buf@
    }

    fn flush(&mut self) -> (r: Result<(), ()>) {
        self.stream.flush()
    }
}

impl<T: Close, const LEN: usize> Close for ReadableByteChannel<T, LEN> {
    open spec fn closed(&self) -> bool {
        self.stream.closed()
    }

    /// Closing is the business of the stream below.
    open spec fn closes(&self, after: &Self, r: Result<(), ()>) -> bool {
        self.stream.closes(&after.stream, r) && after.read_buf@ == self.read_buf@
    }

    fn is_closed(&self) -> (b: bool) {
        self.stream.is_closed()
    }

    fn close(&mut self) -> (r: Result<(), ()>) {
        self.stream.close()
    }
}

impl<P, T: WritePacket<P>, const LEN: usize> WritePacket<P> for ReadableByteChannel<T, LEN> {
    /// Sending is the business of the stream below.
    open spec fn sends(&self, after: &Self, packet: P, r: Result<(), ReadError>) -> bool {
        self.stream.sends(&after.stream, packet, r) && after.read_buf@ == self.read_buf@
    }

    fn send(&mut self, packet: P) -> (r: Result<(), ReadError>) {
        self.stream.send(packet)
    }
}

impl<T: ReadPacket<P>, P, const LEN: usize> ReceivePacket<P> for ReadableByteChannel<T, LEN> {
    /// The stream below takes one packet out of the channel's read
    /// buffer.
    open spec fn receives(&self, after: &Self, r: Result<P, ReadError>) -> bool {
        self.stream.takes(&after.stream, self.read_buf@, after.read_buf@, LEN, r)
    }

    fn recv(&mut self) -> (r: Result<P, ReadError>) {
        self.stream.recv(&mut self.read_buf)
    }
}

} // verus!
