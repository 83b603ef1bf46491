//! The layer that owns the write buffer.

use crate::cursor::{Cursor, CursorView};
use crate::stream::mock::{appended, fits};
use crate::stream::{Accept, Close, Flush, Layer, Read, Write};
use crate::websocket::ReadError;
use vstd::prelude::*;

verus! {

/// A stream with a write buffer of capacity `LEN` in front of it. Bytes are
/// staged in `write_buf` and go to the stream when the channel is flushed.
pub struct WritableByteChannel<T, const LEN: usize> {
    pub stream: T,
    pub write_buf: Cursor<LEN>,
}

impl<T: Layer, const LEN: usize> Layer for WritableByteChannel<T, LEN> {
    open spec fn inv(&self) -> bool {
        self.stream.inv() && self.write_buf.wf()
    }
}

impl<T: Layer, const LEN: usize> WritableByteChannel<T, LEN> {
    /// Puts an empty write buffer in front of `value`.
    pub fn from(value: T) -> (c: Self)
        requires
            value.inv(),
        ensures
            c.inv(),
            c.stream == value,
            c.write_buf@ == CursorView::empty(),
    {
        WritableByteChannel { stream: value, write_buf: Cursor::new() }
    }
}

impl<T: Accept<A>, A, const LEN: usize> Accept<A> for WritableByteChannel<T, LEN> {
    open spec fn acceptable(accept: A) -> bool {
        T::acceptable(accept)
    }

    open spec fn stacked_on(&self, accept: A) -> bool {
        self.stream.stacked_on(accept) && self.write_buf@ == CursorView::empty()
    }

    fn accept(accept: A) -> (s: Self) {
        WritableByteChannel { stream: T::accept(accept), write_buf: Cursor::new() }
    }
}

impl<T: Read, const LEN: usize> Read for WritableByteChannel<T, LEN> {
    /// Reading is the business of the stream below.
    open spec fn reads(
        &self,
        after: &Self,
        buf: CursorView,
        buf_after: CursorView,
        capacity: usize,
        r: Result<(), ReadError>,
    ) -> bool {
        self.stream.reads(&after.stream, buf, buf_after, capacity, r) && after.write_buf@
            == self.write_buf@
    }

    fn read<const N: usize>(&mut self, read_buf: &mut Cursor<N>) -> (r: Result<(), ReadError>) {
        self.stream.read(read_buf)
    }
}

impl<T: Layer, const LEN: usize> Write for WritableByteChannel<T, LEN> {
    /// The caller's bytes are staged behind what the channel holds, all of
    /// them or, when they do not fit, none. The stream below is not
    /// touched.
    open spec fn writes(
        &self,
        after: &Self,
        buf: CursorView,
        buf_after: CursorView,
        capacity: usize,
        r: Result<(), ()>,
    ) -> bool {
        &&& after.stream == self.stream
        &&& if fits(self.write_buf@, buf, LEN as int) {
            r is Ok && buf_after == CursorView::empty() && after.write_buf@ == appended(
                self.write_buf@,
                buf,
            )
        } else {
            r is Err && buf_after == buf && after.write_buf@ == self.write_buf@
        }
    }

    fn write<const N: usize>(&mut self, write_buf: &mut Cursor<N>) -> (r: Result<(), ()>) {
        match self.write_buf.push_from_cursor(write_buf) {
            Ok(()) => Ok(()),
            Err(_) => Err(()),
        }
    }
}

impl<T: Flush + Write, const LEN: usize> Flush for WritableByteChannel<T, LEN> {
    /// The staged bytes are handed to the stream below, and if it takes
    /// them, that stream is flushed. If it does not take them, the flush
    /// fails and the stream below is not flushed.
    open spec fn flushes(&self, after: &Self, r: Result<(), ()>) -> bool {
        exists|taken: T, took: Result<(), ()>| #[trigger]
            self.stream.writes(&taken, self.write_buf@, after.write_buf@, LEN, took) && if took
                is Ok {
                taken.flushes(&after.stream, r)
            } else {
                r is Err && after.stream == taken
            }
    }

    fn flush(&mut self) -> (r: Result<(), ()>) {
        let took = self.stream.write(&mut self.write_buf);
        let ghost taken = self.stream;
        assert(old(self).stream.writes(&taken, old(self).write_buf@, self.write_buf@, LEN, took));
        match took {
            Ok(()) => self.stream.flush(),
            Err(()) => Err(()),
        }
    }
}

impl<T: Close, const LEN: usize> Close for WritableByteChannel<T, LEN> {
    open spec fn closed(&self) -> bool {
        self.stream.closed()
    }

    /// Closing is the business of the stream below.
    open spec fn closes(&self, after: &Self, r: Result<(), ()>) -> bool {
        self.stream.closes(&after.stream, r) && after.write_buf@ == self.write_buf@
    }

    fn is_closed(&self) -> (b: bool) {
        self.stream.is_closed()
    }

    fn close(&mut self) -> (r: Result<(), ()>) {
        self.stream.close()
    }
}

} // verus!
