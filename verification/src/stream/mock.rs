//! An in-memory transport. Two mock streams stand back to back: what one
//! side writes is staged on that side until `flex` carries it over to the
//! other side, which then reads it.

use crate::cursor::{Cursor, CursorView};
use crate::stream::{Accept, Close, Flush, Layer, Read, Write};
use crate::websocket::ReadError;
use vstd::prelude::*;

verus! {

/// One end of an in-memory connection.
pub struct MockStream<const READ_BUF_LEN: usize, const WRITE_BUF_LEN: usize> {
    /// What this end wrote and the other end has yet to receive.
    pub stream_read_buf: Cursor<READ_BUF_LEN>,
    /// What the other end sent and this end has yet to read.
    pub stream_write_buf: Cursor<WRITE_BUF_LEN>,
    pub is_closed: bool,
}

/// The content of one end of an in-memory connection.
pub struct MockView {
    /// What this end wrote and the other end has yet to receive.
    pub outgoing: CursorView,
    /// What the other end sent and this end has yet to read.
    pub incoming: CursorView,
    pub is_closed: bool,
}

impl<const READ_BUF_LEN: usize, const WRITE_BUF_LEN: usize> View for MockStream<
    READ_BUF_LEN,
    WRITE_BUF_LEN,
> {
    type V = MockView;

    open spec fn view(&self) -> MockView {
        MockView {
            outgoing: self.stream_read_buf@,
            incoming: self.stream_write_buf@,
            is_closed: self.is_closed,
        }
    }
}

impl MockView {
    /// An open end with nothing staged.
    pub open spec fn fresh() -> MockView {
        MockView { outgoing: CursorView::empty(), incoming: CursorView::empty(), is_closed: false }
    }
}

/// `into` after all unread bytes of `from` were moved behind its filled
/// part.
pub open spec fn appended(into: CursorView, from: CursorView) -> CursorView {
    CursorView { filled: into.filled + from.unread(), pos: into.pos }
}

/// Whether the unread bytes of `from` fit behind the filled part of `into`,
/// a cursor of `capacity` bytes.
pub open spec fn fits(into: CursorView, from: CursorView, capacity: int) -> bool {
    from.remaining() <= capacity - into.filled.len()
}

/// What a carry makes of the two ends `here` and `there`, whose incoming
/// buffers hold `here_capacity` and `there_capacity` bytes, and whether it
/// succeeds: first what `here` wrote goes to `there`, then what `there`
/// wrote goes to `here`; the first part that does not fit ends the carry
/// and stays where it was.
pub open spec fn flexed(here: MockView, there: MockView, here_capacity: int, there_capacity: int)
    -> (bool, MockView, MockView) {
    if !fits(there.incoming, here.outgoing, there_capacity) {
        (false, here, there)
    } else {
        let sent = MockView { outgoing: CursorView::empty(), ..here };
        let got = MockView { incoming: appended(there.incoming, here.outgoing), ..there };
        if !fits(here.incoming, there.outgoing, here_capacity) {
            (false, sent, got)
        } else {
            (
                true,
                MockView { incoming: appended(here.incoming, there.outgoing), ..sent },
                MockView { outgoing: CursorView::empty(), ..got },
            )
        }
    }
}

impl<const READ_BUF_LEN: usize, const WRITE_BUF_LEN: usize> Layer for MockStream<
    READ_BUF_LEN,
    WRITE_BUF_LEN,
> {
    open spec fn inv(&self) -> bool {
        self.stream_read_buf.wf() && self.stream_write_buf.wf()
    }
}

impl<const READ_BUF_LEN: usize, const WRITE_BUF_LEN: usize> Default for MockStream<
    READ_BUF_LEN,
    WRITE_BUF_LEN,
> {
    fn default() -> (s: Self)
        ensures
            s.inv(),
            s@ == MockView::fresh(),
    {
        MockStream {
            stream_read_buf: Cursor::new(),
            stream_write_buf: Cursor::new(),
            is_closed: false,
        }
    }
}

impl<const READ_BUF_LEN: usize, const WRITE_BUF_LEN: usize> MockStream<
    READ_BUF_LEN,
    WRITE_BUF_LEN,
> {
    /// An open end with nothing staged.
    pub fn new() -> (s: Self)
        ensures
            s.inv(),
            s@ == MockView::fresh(),
    {
        MockStream {
            stream_read_buf: Cursor::new(),
            stream_write_buf: Cursor::new(),
            is_closed: false,
        }
    }

    /// Carries over what each end has written to where the other end reads
    /// it, as `flexed` says.
    pub fn flex<const R2: usize, const W2: usize>(&mut self, stream: &mut MockStream<R2, W2>) -> (r:
        Result<(), ()>)
        requires
            old(self).inv(),
            old(stream).inv(),
        ensures
            final(self).inv(),
            final(stream).inv(),
            (r is Ok, final(self)@, final(stream)@) == flexed(
                old(self)@,
                old(stream)@,
                WRITE_BUF_LEN as int,
                W2 as int,
            ),
    {
        match stream.stream_write_buf.push_from_cursor(&mut self.stream_read_buf) {
            Ok(()) => {},
            Err(_) => {
                return Err(());
            },
        }
        match self.stream_write_buf.push_from_cursor(&mut stream.stream_read_buf) {
            Ok(()) => Ok(()),
            Err(_) => Err(()),
        }
    }
}

impl<const READ_BUF_LEN: usize, const WRITE_BUF_LEN: usize> Read for MockStream<
    READ_BUF_LEN,
    WRITE_BUF_LEN,
> {
    /// Everything that the other end sent moves into the read buffer. When
    /// it does not fit, nothing moves and the connection is to be closed.
    open spec fn reads(
        &self,
        after: &Self,
        buf: CursorView,
        buf_after: CursorView,
        capacity: usize,
        r: Result<(), ReadError>,
    ) -> bool {
        if fits(buf, self@.incoming, capacity as int) {
            &&& r is Ok
            &&& buf_after == appended(buf, self@.incoming)
            &&& after@ == (MockView { incoming: CursorView::empty(), ..self@ })
        } else {
            &&& r == Err::<(), ReadError>(ReadError::CloseRequest)
            &&& buf_after == buf
            &&& after@ == self@
        }
    }

    fn read<const N: usize>(&mut self, read_buf: &mut Cursor<N>) -> (r: Result<(), ReadError>) {
        match read_buf.push_from_cursor(&mut self.stream_write_buf) {
            Ok(()) => Ok(()),
            Err(_) => Err(ReadError::CloseRequest),
        }
    }
}

impl<const READ_BUF_LEN: usize, const WRITE_BUF_LEN: usize> Write for MockStream<
    READ_BUF_LEN,
    WRITE_BUF_LEN,
> {
    /// The unread bytes of the write buffer are staged for the other end
    /// and the write buffer is reset. When they do not fit, nothing moves.
    open spec fn writes(
        &self,
        after: &Self,
        buf: CursorView,
        buf_after: CursorView,
        capacity: usize,
        r: Result<(), ()>,
    ) -> bool {
        if fits(self@.outgoing, buf, READ_BUF_LEN as int) {
            &&& r is Ok
            &&& buf_after == CursorView::empty()
            &&& after@ == (MockView { outgoing: appended(self@.outgoing, buf), ..self@ })
        } else {
            &&& r is Err
            &&& buf_after == buf
            &&& after@ == self@
        }
    }

    fn write<const N: usize>(&mut self, write_buf: &mut Cursor<N>) -> (r: Result<(), ()>) {
        match self.stream_read_buf.push_from_cursor(write_buf) {
            Ok(()) => Ok(()),
            Err(_) => Err(()),
        }
    }
}

impl<const READ_BUF_LEN: usize, const WRITE_BUF_LEN: usize> Flush for MockStream<
    READ_BUF_LEN,
    WRITE_BUF_LEN,
> {
    /// Nothing is held back by the mock itself.
    open spec fn flushes(&self, after: &Self, r: Result<(), ()>) -> bool {
        r is Ok && after@ == self@
    }

    fn flush(&mut self) -> (r: Result<(), ()>) {
        Ok(())
    }
}

impl<const READ_BUF_LEN: usize, const WRITE_BUF_LEN: usize> Close for MockStream<
    READ_BUF_LEN,
    WRITE_BUF_LEN,
> {
    open spec fn closed(&self) -> bool {
        self.is_closed
    }

    /// The end is marked closed; what is staged stays.
    open spec fn closes(&self, after: &Self, r: Result<(), ()>) -> bool {
        r is Ok && after@ == (MockView { is_closed: true, ..self@ })
    }

    fn is_closed(&self) -> (b: bool) {
        self.is_closed
    }

    fn close(&mut self) -> (r: Result<(), ()>) {
        self.is_closed = true;
        Ok(())
    }
}

impl<const READ_BUF_LEN: usize, const WRITE_BUF_LEN: usize> Accept<
    MockStream<READ_BUF_LEN, WRITE_BUF_LEN>,
> for MockStream<READ_BUF_LEN, WRITE_BUF_LEN> {
    open spec fn acceptable(accept: MockStream<READ_BUF_LEN, WRITE_BUF_LEN>) -> bool {
        accept.inv()
    }

    open spec fn stacked_on(&self, accept: MockStream<READ_BUF_LEN, WRITE_BUF_LEN>) -> bool {
        *self == accept
    }

    fn accept(accept: MockStream<READ_BUF_LEN, WRITE_BUF_LEN>) -> (s: Self) {
        accept
    }
}

} // verus!
