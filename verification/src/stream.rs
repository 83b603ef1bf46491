//! Streams as stacks of layers. Each layer adds one capability and hands
//! the others on to the layer below it. Every capability comes with a
//! relation that says what a call of it may do; a layer states its own
//! relation over the relations of the layer below.

pub mod mock;
pub mod packet;
pub mod readable_byte_channel;
pub mod selectable;
pub mod websocket;
pub mod writable_byte_channel;

use crate::cursor::{Cursor, CursorView};
use crate::websocket::ReadError;
use vstd::prelude::*;

verus! {

/// What every layer has: an invariant that its operations keep.
pub trait Layer: Sized {
    spec fn inv(&self) -> bool;
}

/// A layer that moves bytes which are ready towards the reader.
pub trait Read: Layer {
    /// Whether a read can take the layer from `self` to `after` and a read
    /// buffer of `capacity` bytes from `buf` to `buf_after`, answering `r`.
    spec fn reads(
        &self,
        after: &Self,
        buf: CursorView,
        buf_after: CursorView,
        capacity: usize,
        r: Result<(), ReadError>,
    ) -> bool;

    /// Brings what is ready into `read_buf`, or says why nothing is handed
    /// out.
    fn read<const N: usize>(&mut self, read_buf: &mut Cursor<N>) -> (r: Result<(), ReadError>)
        requires
            old(self).inv(),
            old(read_buf).wf(),
        ensures
            final(self).inv(),
            final(read_buf).wf(),
            old(self).reads(final(self), old(read_buf)@, final(read_buf)@, N, r),
    ;
}

/// A layer that takes bytes towards the peer.
pub trait Write: Layer {
    /// Whether a write can take the layer from `self` to `after` and a
    /// write buffer of `capacity` bytes from `buf` to `buf_after`,
    /// answering `r`.
    spec fn writes(
        &self,
        after: &Self,
        buf: CursorView,
        buf_after: CursorView,
        capacity: usize,
        r: Result<(), ()>,
    ) -> bool;

    /// Takes the unread bytes of `write_buf`, all of them or none.
    fn write<const N: usize>(&mut self, write_buf: &mut Cursor<N>) -> (r: Result<(), ()>)
        requires
            old(self).inv(),
            old(write_buf).wf(),
        ensures
            final(self).inv(),
            final(write_buf).wf(),
            old(self).writes(final(self), old(write_buf)@, final(write_buf)@, N, r),
    ;
}

/// A layer that can push what it has staged on to the layer below.
pub trait Flush: Layer {
    /// Whether a flush can take the layer from `self` to `after`,
    /// answering `r`.
    spec fn flushes(&self, after: &Self, r: Result<(), ()>) -> bool;

    fn flush(&mut self) -> (r: Result<(), ()>)
        requires
            old(self).inv(),
        ensures
            final(self).inv(),
            old(self).flushes(final(self), r),
    ;
}

/// A layer that can be shut down.
pub trait Close: Layer {
    /// Whether the layer was shut down.
    spec fn closed(&self) -> bool;

    /// Whether a close can take the layer from `self` to `after`,
    /// answering `r`.
    spec fn closes(&self, after: &Self, r: Result<(), ()>) -> bool;

    fn is_closed(&self) -> (b: bool)
        ensures
            b == self.closed(),
    ;

    fn close(&mut self) -> (r: Result<(), ()>)
        requires
            old(self).inv(),
        ensures
            final(self).inv(),
            old(self).closes(final(self), r),
    ;
}

/// A layer that is built on top of a transport of type `A`.
pub trait Accept<A>: Layer {
    /// Whether the transport is in order, so that layers can be stacked on
    /// it.
    spec fn acceptable(accept: A) -> bool;

    /// Whether `self` is the stack that is put on the transport `accept`:
    /// every layer is in its first state.
    spec fn stacked_on(&self, accept: A) -> bool;

    /// Stacks the layer and all below it on the transport.
    fn accept(accept: A) -> (s: Self)
        requires
            Self::acceptable(accept),
        ensures
            s.inv(),
            s.stacked_on(accept),
    ;
}

/// A layer that owns a read buffer and fills it from below.
pub trait PollRead: Layer {
    /// Whether a poll can take the layer from `self` to `after`, answering
    /// `r`.
    spec fn polls(&self, after: &Self, r: Result<(), ReadError>) -> bool;

    fn poll_read(&mut self) -> (r: Result<(), ReadError>)
        requires
            old(self).inv(),
        ensures
            final(self).inv(),
            old(self).polls(final(self), r),
    ;
}

/// A layer that hands out packets of type `T` taken from a read buffer
/// that the caller holds.
pub trait ReadPacket<T>: Layer {
    /// Whether taking a packet can take the layer from `self` to `after`
    /// and a read buffer of `capacity` bytes from `buf` to `buf_after`,
    /// answering `r`.
    spec fn takes(
        &self,
        after: &Self,
        buf: CursorView,
        buf_after: CursorView,
        capacity: usize,
        r: Result<T, ReadError>,
    ) -> bool;

    fn recv<const N: usize>(&mut self, read_buf: &mut Cursor<N>) -> (r: Result<T, ReadError>)
        requires
            old(self).inv(),
            old(read_buf).wf(),
        ensures
            final(self).inv(),
            final(read_buf).wf(),
            old(self).takes(final(self), old(read_buf)@, final(read_buf)@, N, r),
    ;
}

/// A layer that hands out packets of type `T` taken from its own read
/// buffer.
pub trait ReceivePacket<T>: Layer {
    /// Whether receiving can take the layer from `self` to `after`,
    /// answering `r`.
    spec fn receives(&self, after: &Self, r: Result<T, ReadError>) -> bool;

    fn recv(&mut self) -> (r: Result<T, ReadError>)
        requires
            old(self).inv(),
        ensures
            final(self).inv(),
            old(self).receives(final(self), r),
    ;
}

/// A layer that takes packets of type `T` and stages their bytes.
pub trait WritePacket<T>: Layer {
    /// Whether sending `packet` can take the layer from `self` to `after`,
    /// answering `r`.
    spec fn sends(&self, after: &Self, packet: T, r: Result<(), ReadError>) -> bool;

    fn send(&mut self, packet: T) -> (r: Result<(), ReadError>)
        requires
            old(self).inv(),
        ensures
            final(self).inv(),
            old(self).sends(final(self), packet, r),
    ;
}

/// Periodic work.
pub trait Tick: Sized {
    /// Whether the periodic work can take the server from `self` to
    /// `after`, answering `r`.
    spec fn ticks(&self, after: &Self, r: Result<(), ()>) -> bool;

    fn tick(&mut self) -> (r: Result<(), ()>)
        ensures
            old(self).ticks(final(self), r),
    ;
}

} // verus!
