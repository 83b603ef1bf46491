//! A fixed-capacity byte buffer with a read position and a fill level.

use crate::stream::{Read, Write};
use crate::websocket::ReadError;
use vstd::prelude::*;

verus! {

/// The mathematical content of a cursor: the bytes written so far and how
/// many of them have already been consumed.
pub struct CursorView {
    pub filled: Seq<u8>,
    pub pos: nat,
}

impl CursorView {
    /// The bytes that were written and not yet consumed.
    pub open spec fn unread(self) -> Seq<u8> {
        self.filled.subrange(self.pos as int, self.filled.len() as int)
    }

    /// The bytes that were already consumed.
    pub open spec fn consumed(self) -> Seq<u8> {
        self.filled.subrange(0, self.pos as int)
    }

    /// Number of unread bytes.
    pub open spec fn remaining(self) -> nat {
        (self.filled.len() - self.pos) as nat
    }

    /// `pos <= filled_len <= capacity`.
    pub open spec fn bounded_by(self, capacity: nat) -> bool {
        self.pos <= self.filled.len() <= capacity
    }

    /// Nothing written, nothing consumed.
    pub open spec fn empty() -> CursorView {
        CursorView { filled: Seq::empty(), pos: 0 }
    }
}

/// Raised when bytes do not fit into the unfilled part of a cursor.
#[derive(Debug, Clone, Copy, PartialEq, Eq, Structural)]
pub struct CapacityExceeded;

/// A byte buffer of capacity `N`. Bytes in `[pos, filled_len)` are unread,
/// `[filled_len, N)` is free.
pub struct Cursor<const N: usize> {
    buffer: Vec<u8>,
    pos: usize,
}

impl<const N: usize> View for Cursor<N> {
    type V = CursorView;

    closed spec fn view(&self) -> CursorView {
        CursorView { filled: self.buffer@, pos: self.pos as nat }
    }
}

impl<const N: usize> Default for Cursor<N> {
    fn default() -> (c: Self)
        ensures
            c.wf(),
            c@ == CursorView::empty(),
    {
        Cursor { buffer: Vec::with_capacity(N), pos: 0 }
    }
}

impl<const N: usize> Cursor<N> {
    /// The invariant of every cursor: `0 <= pos <= filled_len <= N`.
    pub open spec fn wf(&self) -> bool {
        self@.bounded_by(N as nat)
    }

    /// An empty cursor.
    pub fn new() -> (c: Self)
        ensures
            c.wf(),
            c@ == CursorView::empty(),
    {
        Cursor { buffer: Vec::with_capacity(N), pos: 0 }
    }

    /// Forgets every byte and frees the whole capacity.
    pub fn clear(&mut self)
        ensures
            final(self).wf(),
            final(self)@ == CursorView::empty(),
    {
        self.buffer.clear();
        self.pos = 0;
    }

    /// Number of bytes that the cursor can hold.
    pub fn capacity(&self) -> (n: usize)
        ensures
            n == N,
    {
        N
    }

    /// Number of bytes that were consumed.
    pub fn pos(&self) -> (p: usize)
        ensures
            p == self@.pos,
    {
        self.pos
    }

    /// Number of bytes that were written.
    pub fn filled_len(&self) -> (n: usize)
        ensures
            n == self@.filled.len(),
    {
        self.buffer.len()
    }

    /// Number of unread bytes.
    pub fn remaining(&self) -> (n: usize)
        requires
            self.wf(),
        ensures
            n == self@.remaining(),
    {
        self.buffer.len() - self.pos
    }

    /// Appends one byte. A full cursor hands the byte back.
    pub fn push(&mut self, item: u8) -> (r: Result<(), u8>)
        requires
            old(self).wf(),
        ensures
            final(self).wf(),
            old(self)@.filled.len() < N ==> r is Ok && final(self)@ == (CursorView {
                filled: old(self)@.filled.push(item),
                pos: old(self)@.pos,
            }),
            old(self)@.filled.len() >= N ==> r == Err::<(), u8>(item) && final(self)@ == old(self)@,
    {
        if self.buffer.len() < N {
            self.buffer.push(item);
            Ok(())
        } else {
            Err(item)
        }
    }

    /// A copy of the filled bytes, consumed ones included.
    pub fn filled(&self) -> (bytes: Vec<u8>)
        ensures
            bytes@ == self@.filled,
    {
        self.buffer.clone()
    }

    /// A copy of the unread bytes.
    pub fn unread(&self) -> (bytes: Vec<u8>)
        requires
            self.wf(),
        ensures
            bytes@ == self@.unread(),
    {
        let mut bytes: Vec<u8> = Vec::with_capacity(self.buffer.len() - self.pos);
        let mut i: usize = self.pos;
        while i < self.buffer.len()
            invariant
                self.wf(),
                self.pos <= i <= self.buffer@.len(),
                bytes@ == self.buffer@.subrange(self.pos as int, i as int),
            decreases self.buffer@.len() - i,
        {
            bytes.push(self.buffer[i]);
            assert(bytes@ =~= self.buffer@.subrange(self.pos as int, i + 1));
            i = i + 1;
        }
        bytes
    }

    /// Free room behind the filled bytes.
    pub fn unfilled_len(&self) -> (n: usize)
        requires
            self.wf(),
        ensures
            n == N - self@.filled.len(),
    {
        N - self.buffer.len()
    }

    /// The byte at `index` of the filled part.
    pub fn get(&self, index: usize) -> (b: u8)
        requires
            index < self@.filled.len(),
        ensures
            b == self@.filled[index as int],
    {
        self.buffer[index]
    }

    /// Overwrites the byte at `index` of the filled part.
    pub fn set(&mut self, index: usize, value: u8)
        requires
            old(self).wf(),
            index < old(self)@.filled.len(),
        ensures
            final(self).wf(),
            final(self)@ == (CursorView {
                filled: old(self)@.filled.update(index as int, value),
                pos: old(self)@.pos,
            }),
    {
        self.buffer.set(index, value);
    }

    /// Consumes the next unread byte, if there is one.
    pub fn read(&mut self) -> (r: Option<u8>)
        requires
            old(self).wf(),
        ensures
            final(self).wf(),
            final(self)@.filled == old(self)@.filled,
            old(self)@.remaining() > 0 ==> r == Some(old(self)@.filled[old(self)@.pos as int])
                && final(self)@.pos == old(self)@.pos + 1,
            old(self)@.remaining() == 0 ==> r.is_none() && final(self)@.pos == old(self)@.pos,
    {
        if self.pos < self.buffer.len() {
            let b = self.buffer[self.pos];
            self.pos = self.pos + 1;
            Some(b)
        } else {
            None
        }
    }

    /// Consumes `count` unread bytes at once and hands them out in order, or
    /// consumes nothing when fewer are unread.
    pub fn read_transmute(&mut self, count: usize) -> (r: Option<Vec<u8>>)
        requires
            old(self).wf(),
        ensures
            final(self).wf(),
            final(self)@.filled == old(self)@.filled,
            count <= old(self)@.remaining() ==> r.is_some()
                && r.unwrap()@ == old(self)@.unread().take(count as int)
                && final(self)@.pos == old(self)@.pos + count,
            count > old(self)@.remaining() ==> r.is_none() && final(self)@.pos == old(self)@.pos,
    {
        if count > self.buffer.len() - self.pos {
            return None;
        }
        let mut out: Vec<u8> = Vec::with_capacity(count);
        let mut i: usize = 0;
        while i < count
            invariant
                self.wf(),
                i <= count <= self@.remaining(),
                out@ == self@.unread().take(i as int),
            decreases count - i,
        {
            out.push(self.buffer[self.pos + i]);
            i = i + 1;
        }
        self.pos = self.pos + count;
        Some(out)
    }

    /// Moves the read position `count` bytes forward; the filled bytes stay.
    pub fn advance(&mut self, count: usize)
        requires
            old(self).wf(),
            count <= old(self)@.remaining(),
        ensures
            final(self).wf(),
            final(self)@ == (CursorView {
                filled: old(self)@.filled,
                pos: (old(self)@.pos + count) as nat,
            }),
    {
        self.pos = self.pos + count;
    }

    /// Marks `count` unread bytes as consumed. When that drains the cursor
    /// completely, it is reset so that its whole capacity is free again.
    pub fn consume(&mut self, count: usize)
        requires
            old(self).wf(),
            count <= old(self)@.remaining(),
        ensures
            final(self).wf(),
            final(self)@.unread() == old(self)@.unread().skip(count as int),
            count == old(self)@.remaining() ==> final(self)@ == CursorView::empty(),
            count < old(self)@.remaining() ==> final(self)@ == (CursorView {
                filled: old(self)@.filled,
                pos: (old(self)@.pos + count) as nat,
            }),
    {
        if count == self.buffer.len() - self.pos {
            self.buffer.clear();
            self.pos = 0;
        } else {
            self.pos = self.pos + count;
        }
    }

    /// Appends `bytes` behind the filled part, all of them or none.
    pub fn push_transmute(&mut self, bytes: &[u8]) -> (r: Result<(), CapacityExceeded>)
        requires
            old(self).wf(),
        ensures
            final(self).wf(),
            old(self)@.filled.len() + bytes@.len() <= N ==> r is Ok && final(self)@ == (
            CursorView { filled: old(self)@.filled + bytes@, pos: old(self)@.pos }),
            old(self)@.filled.len() + bytes@.len() > N ==> r is Err && final(self)@ == old(self)@,
    {
        if bytes.len() > N - self.buffer.len() {
            return Err(CapacityExceeded);
        }
        let mut i: usize = 0;
        while i < bytes.len()
            invariant
                i <= bytes@.len(),
                self.pos == old(self).pos,
                old(self).wf(),
                old(self)@.filled.len() + bytes@.len() <= N,
                self.buffer@ == old(self)@.filled + bytes@.take(i as int),
            decreases bytes@.len() - i,
        {
            self.buffer.push(bytes[i]);
            i = i + 1;
        }
        assert(bytes@.take(bytes@.len() as int) =~= bytes@);
        Ok(())
    }

    /// Moves every unread byte of `src` behind the filled part of `self` and
    /// resets `src`. When they do not all fit, nothing moves.
    pub fn push_from_cursor<const M: usize>(&mut self, src: &mut Cursor<M>) -> (r: Result<
        (),
        CapacityExceeded,
    >)
        requires
            old(self).wf(),
            old(src).wf(),
        ensures
            final(self).wf(),
            final(src).wf(),
            old(src)@.remaining() <= N - old(self)@.filled.len() ==> r is Ok && final(self)@ == (
            CursorView {
                filled: old(self)@.filled + old(src)@.unread(),
                pos: old(self)@.pos,
            }) && final(src)@ == CursorView::empty(),
            old(src)@.remaining() > N - old(self)@.filled.len() ==> r is Err && final(self)@
                == old(self)@ && final(src)@ == old(src)@,
            final(self)@.unread() + final(src)@.unread() == old(self)@.unread() + old(
                src,
            )@.unread(),
            final(self)@.consumed() == old(self)@.consumed(),
    {
        let count = src.buffer.len() - src.pos;
        if count > N - self.buffer.len() {
            return Err(CapacityExceeded);
        }
        let mut i: usize = 0;
        while i < count
            invariant
                i <= count,
                count == src@.remaining(),
                src.wf(),
                *src == *old(src),
                self.pos == old(self).pos,
                old(self)@.filled.len() + count <= N,
                self.buffer@ == old(self)@.filled + src@.unread().take(i as int),
            decreases count - i,
        {
            self.buffer.push(src.buffer[src.pos + i]);
            i = i + 1;
        }
        assert(src@.unread().take(count as int) =~= src@.unread());
        src.buffer.clear();
        src.pos = 0;
        assert(self@.unread() + src@.unread() =~= old(self)@.unread() + old(src)@.unread());
        assert(self@.consumed() =~= old(self)@.consumed());
        Ok(())
    }

    /// Lets `read` bring the bytes it has ready into the free part of the
    /// cursor.
    pub fn push_from_read<S: Read>(&mut self, read: &mut S) -> (r: Result<(), ReadError>)
        requires
            old(self).wf(),
            old(read).inv(),
        ensures
            final(self).wf(),
            final(read).inv(),
            old(read).reads(final(read), old(self)@, final(self)@, N, r),
    {
        read.read(self)
    }

    /// Hands the unread bytes to `write`.
    pub fn push_to_write<S: Write>(&mut self, write: &mut S) -> (r: Result<(), ()>)
        requires
            old(self).wf(),
            old(write).inv(),
        ensures
            final(self).wf(),
            final(write).inv(),
            old(write).writes(final(write), old(self)@, final(self)@, N, r),
    {
        write.write(self)
    }

    /// Takes what a byte source answered to a read into the free part of
    /// the cursor, as `after_read` says. `chunk` is what the source filled;
    /// the answer says how much of it.
    pub fn push_read(&mut self, chunk: &[u8], answer: ReadAnswer) -> (r: Result<(), ReadError>)
        requires
            old(self).wf(),
        ensures
            final(self).wf(),
            (r, final(self)@) == after_read(old(self)@, N as nat, chunk@, answer),
    {
        match answer {
            ReadAnswer::Read(count) => {
                if count == 0 || count > chunk.len() || count > N - self.buffer.len() {
                    return Err(ReadError::CloseRequest);
                }
                let mut i: usize = 0;
                while i < count
                    invariant
                        i <= count <= chunk@.len(),
                        self.pos == old(self).pos,
                        old(self).wf(),
                        old(self)@.filled.len() + count <= N,
                        self.buffer@ == old(self)@.filled + chunk@.take(i as int),
                    decreases count - i,
                {
                    self.buffer.push(chunk[i]);
                    assert(self.buffer@ =~= old(self)@.filled + chunk@.take(i + 1));
                    i = i + 1;
                }
                Ok(())
            },
            ReadAnswer::WouldBlock => Err(ReadError::NotFullRead),
            ReadAnswer::Failed => Err(ReadError::CloseRequest),
        }
    }

    /// Takes what a byte sink answered to a write of the unread bytes, as
    /// `after_write` says.
    pub fn take_written(&mut self, answer: WriteAnswer) -> (r: Result<(), ()>)
        requires
            old(self).wf(),
        ensures
            final(self).wf(),
            (r is Ok, final(self)@) == after_write(old(self)@, answer),
    {
        match answer {
            WriteAnswer::Wrote(count) => {
                if count == 0 || count > self.buffer.len() - self.pos {
                    return Err(());
                }
                self.consume(count);
                Ok(())
            },
            WriteAnswer::Failed => Err(()),
        }
    }
}

/// What a byte source answered to a read.
#[derive(Debug, Clone, Copy, PartialEq, Eq)]
pub enum ReadAnswer {
    /// It filled this many bytes; none means the end of the stream.
    Read(usize),
    /// Nothing is ready; the read would have to wait.
    WouldBlock,
    /// The read failed.
    Failed,
}

/// What a byte sink answered to a write.
#[derive(Debug, Clone, Copy, PartialEq, Eq)]
pub enum WriteAnswer {
    /// It took this many bytes.
    Wrote(usize),
    /// The write failed.
    Failed,
}

/// What a read makes of a cursor of `capacity` bytes, and what it reports:
/// the bytes that the source filled are appended; the end of the stream,
/// a failure, and an answer that names more bytes than the source was
/// given or the cursor has room for, end the connection; a source that
/// has nothing ready is waited for.
pub open spec fn after_read(
    cursor: CursorView,
    capacity: nat,
    chunk: Seq<u8>,
    answer: ReadAnswer,
) -> (Result<(), ReadError>, CursorView) {
    match answer {
        ReadAnswer::Read(count) => if 0 < count <= chunk.len() && cursor.filled.len() + count
            <= capacity {
            (
                Ok(()),
                CursorView { filled: cursor.filled + chunk.take(count as int), pos: cursor.pos },
            )
        } else {
            (Err(ReadError::CloseRequest), cursor)
        },
        ReadAnswer::WouldBlock => (Err(ReadError::NotFullRead), cursor),
        ReadAnswer::Failed => (Err(ReadError::CloseRequest), cursor),
    }
}

/// What a write makes of a cursor, and whether it succeeds: the bytes that
/// the sink took are consumed, and a cursor that is drained by them is
/// reset; a sink that takes nothing, fails, or names more bytes than were
/// unread ends the connection.
pub open spec fn after_write(cursor: CursorView, answer: WriteAnswer) -> (bool, CursorView) {
    match answer {
        WriteAnswer::Wrote(count) => if 0 < count <= cursor.remaining() {
            (
                true,
                if count == cursor.remaining() {
                    CursorView::empty()
                } else {
                    CursorView { filled: cursor.filled, pos: cursor.pos + count as nat }
                },
            )
        } else {
            (false, cursor)
        },
        WriteAnswer::Failed => (false, cursor),
    }
}

} // verus!
