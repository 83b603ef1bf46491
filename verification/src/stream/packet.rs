//! The packet layers: they hold the state of a packet codec and pass
//! packets to it, one direction each.

use crate::cursor::{Cursor, CursorView};
use crate::stream::writable_byte_channel::WritableByteChannel;
use crate::stream::{Accept, Close, Flush, Layer, Read, ReadPacket, Write, WritePacket};
use crate::websocket::ReadError;
use vstd::prelude::*;

verus! {

/// The codec of a packet format: it decodes and encodes the packets of
/// both directions. An application supplies it, and says with the four
/// relations what its operations do to its own state and to the buffer; a
/// decoder that finds no complete packet fails.
pub trait PacketStream: Sized {
    /// Packets that travel to the server.
    type ServerBound;

    /// Packets that travel to the client.
    type ClientBound;

    /// Whether decoding can take the codec from `self` to `after` and a
    /// read buffer of `capacity` bytes from `buf` to `buf_after`, answering
    /// `r`.
    spec fn decodes_server_bound(
        &self,
        after: &Self,
        buf: CursorView,
        buf_after: CursorView,
        capacity: usize,
        r: Result<Self::ServerBound, ()>,
    ) -> bool;

    /// Whether decoding can take the codec from `self` to `after` and a
    /// read buffer of `capacity` bytes from `buf` to `buf_after`, answering
    /// `r`.
    spec fn decodes_client_bound(
        &self,
        after: &Self,
        buf: CursorView,
        buf_after: CursorView,
        capacity: usize,
        r: Result<Self::ClientBound, ()>,
    ) -> bool;

    /// Whether encoding `packet` can take the codec from `self` to `after`
    /// and a write buffer of `capacity` bytes from `buf` to `buf_after`,
    /// answering `r`.
    spec fn encodes_server_bound(
        &self,
        after: &Self,
        packet: Self::ServerBound,
        buf: CursorView,
        buf_after: CursorView,
        capacity: usize,
        r: Result<(), ()>,
    ) -> bool;

    /// Whether encoding `packet` can take the codec from `self` to `after`
    /// and a write buffer of `capacity` bytes from `buf` to `buf_after`,
    /// answering `r`.
    spec fn encodes_client_bound(
        &self,
        after: &Self,
        packet: Self::ClientBound,
        buf: CursorView,
        buf_after: CursorView,
        capacity: usize,
        r: Result<(), ()>,
    ) -> bool;

    /// Takes one server-bound packet off `read_buf`, or fails when none is
    /// complete.
    fn decode_server_bound_packet<const N: usize>(&mut self, read_buf: &mut Cursor<N>) -> (r:
        Result<Self::ServerBound, ()>)
        requires
            old(read_buf).wf(),
        ensures
            final(read_buf).wf(),
            old(self).decodes_server_bound(final(self), old(read_buf)@, final(read_buf)@, N, r),
    ;

    /// Takes one client-bound packet off `read_buf`, or fails when none is
    /// complete.
    fn decode_client_bound_packet<const N: usize>(&mut self, read_buf: &mut Cursor<N>) -> (r:
        Result<Self::ClientBound, ()>)
        requires
            old(read_buf).wf(),
        ensures
            final(read_buf).wf(),
            old(self).decodes_client_bound(final(self), old(read_buf)@, final(read_buf)@, N, r),
    ;

    /// Appends the bytes of `packet` to `write_buf`, or fails when they do
    /// not fit.
    fn encode_server_bound_packet<const N: usize>(
        &mut self,
        packet: &Self::ServerBound,
        write_buf: &mut Cursor<N>,
    ) -> (r: Result<(), ()>)
        requires
            old(write_buf).wf(),
        ensures
            final(write_buf).wf(),
            old(self).encodes_server_bound(
                final(self),
                *packet,
                old(write_buf)@,
                final(write_buf)@,
                N,
                r,
            ),
    ;

    /// Appends the bytes of `packet` to `write_buf`, or fails when they do
    /// not fit.
    fn encode_client_bound_packet<const N: usize>(
        &mut self,
        packet: &Self::ClientBound,
        write_buf: &mut Cursor<N>,
    ) -> (r: Result<(), ()>)
        requires
            old(write_buf).wf(),
        ensures
            final(write_buf).wf(),
            old(self).encodes_client_bound(
                final(self),
                *packet,
                old(write_buf)@,
                final(write_buf)@,
                N,
                r,
            ),
    ;
}

/// What a decode means to the reader: a packet, or that none is complete
/// yet.
pub open spec fn decoded_as<P>(outcome: Result<P, ()>) -> Result<P, ReadError> {
    match outcome {
        Ok(packet) => Ok(packet),
        Err(()) => Err(ReadError::NotFullRead),
    }
}

/// What an encode means to the writer: done, or the write buffer
/// overflowed and the connection is to be closed.
pub open spec fn encoded_as(outcome: Result<(), ()>) -> Result<(), ReadError> {
    match outcome {
        Ok(()) => Ok(()),
        Err(()) => Err(ReadError::CloseRequest),
    }
}

/// What a decode means to the reader.
pub fn decoded<P>(outcome: Result<P, ()>) -> (r: Result<P, ReadError>)
    ensures
        r == decoded_as(outcome),
{
    match outcome {
        Ok(packet) => Ok(packet),
        Err(()) => Err(ReadError::NotFullRead),
    }
}

/// What an encode means to the writer.
pub fn encoded(outcome: Result<(), ()>) -> (r: Result<(), ReadError>)
    ensures
        r == encoded_as(outcome),
{
    match outcome {
        Ok(()) => Ok(()),
        Err(()) => Err(ReadError::CloseRequest),
    }
}

/// The server's end of a packet stream: it receives server-bound packets
/// and sends client-bound ones.
pub struct ServerBoundPacketStreamPipe<T, S> {
    pub stream: T,
    pub state: S,
}

/// The client's end of a packet stream: it receives client-bound packets
/// and sends server-bound ones.
pub struct ClientBoundPacketStreamPipe<T, S> {
    pub stream: T,
    pub state: S,
}

impl<T: Layer, S> Layer for ServerBoundPacketStreamPipe<T, S> {
    open spec fn inv(&self) -> bool {
        self.stream.inv()
    }
}

impl<T: Layer, S> Layer for ClientBoundPacketStreamPipe<T, S> {
    open spec fn inv(&self) -> bool {
        self.stream.inv()
    }
}

impl<T, S> ServerBoundPacketStreamPipe<T, S> {
    /// The pipe on top of `value` with the codec in `state`.
    pub fn new(value: T, state: S) -> (p: Self)
        ensures
            p.stream == value,
            p.state == state,
    {
        ServerBoundPacketStreamPipe { stream: value, state }
    }
}

impl<T, S> ClientBoundPacketStreamPipe<T, S> {
    /// The pipe on top of `value` with the codec in `state`.
    pub fn new(value: T, state: S) -> (p: Self)
        ensures
            p.stream == value,
            p.state == state,
    {
        ClientBoundPacketStreamPipe { stream: value, state }
    }
}

impl<T: Layer, S: Default> ServerBoundPacketStreamPipe<T, S> {
    /// The pipe on top of `value` with the codec in its first state.
    pub fn from(value: T) -> (p: Self)
        requires
            value.inv(),
        ensures
            p.inv(),
            p.stream == value,
    {
        ServerBoundPacketStreamPipe { stream: value, state: S::default() }
    }
}

impl<T: Layer, S: PacketStream, const LEN: usize> ServerBoundPacketStreamPipe<
    WritableByteChannel<T, LEN>,
    S,
> {
    /// Whether `after` is the pipe once `packet` was sent with the answer
    /// `r`: the codec encodes the packet behind what the channel's write
    /// buffer holds, the stream below the channel is untouched, and a
    /// packet that the codec cannot put there ends the connection.
    pub open spec fn staged_client_bound(
        &self,
        after: &Self,
        packet: S::ClientBound,
        r: Result<(), ReadError>,
    ) -> bool {
        &&& after.stream.stream == self.stream.stream
        &&& exists|outcome: Result<(), ()>| #[trigger]
            self.state.encodes_client_bound(
                &after.state,
                packet,
                self.stream.write_buf@,
                after.stream.write_buf@,
                LEN,
                outcome,
            ) && r == encoded_as(outcome)
    }

    /// Lets the codec stage the bytes of `packet` in the channel's write
    /// buffer, as `staged_client_bound` says.
    pub fn write(&mut self, packet: S::ClientBound) -> (r: Result<(), ReadError>)
        requires
            old(self).inv(),
        ensures
            final(self).inv(),
            old(self).staged_client_bound(final(self), packet, r),
    {
        let outcome = self.state.encode_client_bound_packet(&packet, &mut self.stream.write_buf);
        let r = encoded(outcome);
        assert(old(self).state.encodes_client_bound(
            &self.state,
            packet,
            old(self).stream.write_buf@,
            self.stream.write_buf@,
            LEN,
            outcome,
        ) && r == encoded_as(outcome));
        r
    }
}

impl<T: Layer, S: PacketStream, const LEN: usize> WritePacket<
    S::ClientBound,
> for ServerBoundPacketStreamPipe<WritableByteChannel<T, LEN>, S> {
    /// The codec stages the bytes of the packet in the channel's write
    /// buffer, or the connection is to be closed.
    open spec fn sends(&self, after: &Self, packet: S::ClientBound, r: Result<(), ReadError>)
        -> bool {
        self.staged_client_bound(after, packet, r)
    }

    fn send(&mut self, packet: S::ClientBound) -> (r: Result<(), ReadError>) {
        let outcome = self.state.encode_client_bound_packet(&packet, &mut self.stream.write_buf);
        let r = encoded(outcome);
        assert(old(self).state.encodes_client_bound(
            &self.state,
            packet,
            old(self).stream.write_buf@,
            self.stream.write_buf@,
            LEN,
            outcome,
        ) && r == encoded_as(outcome));
        r
    }
}

impl<T: Layer, S: PacketStream, const LEN: usize> WritePacket<
    S::ServerBound,
> for ClientBoundPacketStreamPipe<WritableByteChannel<T, LEN>, S> {
    /// The codec encodes the packet behind what the channel's write buffer
    /// holds, or the connection is to be closed; the stream below the
    /// channel is untouched.
    open spec fn sends(&self, after: &Self, packet: S::ServerBound, r: Result<(), ReadError>)
        -> bool {
        &&& after.stream.stream == self.stream.stream
        &&& exists|outcome: Result<(), ()>| #[trigger]
            self.state.encodes_server_bound(
                &after.state,
                packet,
                self.stream.write_buf@,
                after.stream.write_buf@,
                LEN,
                outcome,
            ) && r == encoded_as(outcome)
    }

    fn send(&mut self, packet: S::ServerBound) -> (r: Result<(), ReadError>) {
        let outcome = self.state.encode_server_bound_packet(&packet, &mut self.stream.write_buf);
        let r = encoded(outcome);
        assert(old(self).state.encodes_server_bound(
            &self.state,
            packet,
            old(self).stream.write_buf@,
            self.stream.write_buf@,
            LEN,
            outcome,
        ) && r == encoded_as(outcome));
        r
    }
}

impl<T: Layer, S: PacketStream> ReadPacket<S::ServerBound> for ServerBoundPacketStreamPipe<T, S> {
    /// The codec takes a packet off the read buffer, or none is complete
    /// yet; the stream below is untouched.
    open spec fn takes(
        &self,
        after: &Self,
        buf: CursorView,
        buf_after: CursorView,
        capacity: usize,
        r: Result<S::ServerBound, ReadError>,
    ) -> bool {
        &&& after.stream == self.stream
        &&& exists|outcome: Result<S::ServerBound, ()>| #[trigger]
            self.state.decodes_server_bound(&after.state, buf, buf_after, capacity, outcome) && r
                == decoded_as(outcome)
    }

    fn recv<const N: usize>(&mut self, read_buf: &mut Cursor<N>) -> (r: Result<
        S::ServerBound,
        ReadError,
    >) {
        let outcome = self.state.decode_server_bound_packet(read_buf);
        let r = decoded(outcome);
        assert(old(self).state.decodes_server_bound(
            &self.state,
            old(read_buf)@,
            read_buf@,
            N,
            outcome,
        ) && r == decoded_as(outcome));
        r
    }
}

impl<T: Layer, S: PacketStream> ReadPacket<S::ClientBound> for ClientBoundPacketStreamPipe<T, S> {
    /// The codec takes a packet off the read buffer, or none is complete
    /// yet; the stream below is untouched.
    open spec fn takes(
        &self,
        after: &Self,
        buf: CursorView,
        buf_after: CursorView,
        capacity: usize,
        r: Result<S::ClientBound, ReadError>,
    ) -> bool {
        &&& after.stream == self.stream
        &&& exists|outcome: Result<S::ClientBound, ()>| #[trigger]
            self.state.decodes_client_bound(&after.state, buf, buf_after, capacity, outcome) && r
                == decoded_as(outcome)
    }

    fn recv<const N: usize>(&mut self, read_buf: &mut Cursor<N>) -> (r: Result<
        S::ClientBound,
        ReadError,
    >) {
        let outcome = self.state.decode_client_bound_packet(read_buf);
        let r = decoded(outcome);
        assert(old(self).state.decodes_client_bound(
            &self.state,
            old(read_buf)@,
            read_buf@,
            N,
            outcome,
        ) && r == decoded_as(outcome));
        r
    }
}

impl<T: Accept<A>, S: Default, A> Accept<A> for ServerBoundPacketStreamPipe<T, S> {
    open spec fn acceptable(accept: A) -> bool {
        T::acceptable(accept)
    }

    open spec fn stacked_on(&self, accept: A) -> bool {
        self.stream.stacked_on(accept)
    }

    fn accept(accept: A) -> (s: Self) {
        ServerBoundPacketStreamPipe { stream: T::accept(accept), state: S::default() }
    }
}

impl<T: Accept<A>, S: Default, A> Accept<A> for ClientBoundPacketStreamPipe<T, S> {
    open spec fn acceptable(accept: A) -> bool {
        T::acceptable(accept)
    }

    open spec fn stacked_on(&self, accept: A) -> bool {
        self.stream.stacked_on(accept)
    }

    fn accept(accept: A) -> (s: Self) {
        ClientBoundPacketStreamPipe { stream: T::accept(accept), state: S::default() }
    }
}

impl<T: Read, S> Read for ServerBoundPacketStreamPipe<T, S> {
    /// Reading is the business of the stream below; the codec stays.
    open spec fn reads(
        &self,
        after: &Self,
        buf: CursorView,
        buf_after: CursorView,
        capacity: usize,
        r: Result<(), ReadError>,
    ) -> bool {
        self.stream.reads(&after.stream, buf, buf_after, capacity, r) && after.state
            == self.state
    }

    fn read<const N: usize>(&mut self, read_buf: &mut Cursor<N>) -> (r: Result<(), ReadError>) {
        self.stream.read(read_buf)
    }
}

impl<T: Read, S> Read for ClientBoundPacketStreamPipe<T, S> {
    /// Reading is the business of the stream below; the codec stays.
    open spec fn reads(
        &self,
        after: &Self,
        buf: CursorView,
        buf_after: CursorView,
        capacity: usize,
        r: Result<(), ReadError>,
    ) -> bool {
        self.stream.reads(&after.stream, buf, buf_after, capacity, r) && after.state
            == self.state
    }

    fn read<const N: usize>(&mut self, read_buf: &mut Cursor<N>) -> (r: Result<(), ReadError>) {
        self.stream.read(read_buf)
    }
}

impl<T: Write, S> Write for ServerBoundPacketStreamPipe<T, S> {
    /// Writing is the business of the stream below; the codec stays.
    open spec fn writes(
        &self,
        after: &Self,
        buf: CursorView,
        buf_after: CursorView,
        capacity: usize,
        r: Result<(), ()>,
    ) -> bool {
        self.stream.writes(&after.stream, buf, buf_after, capacity, r) && after.state
            == self.state
    }

    fn write<const N: usize>(&mut self, write_buf: &mut Cursor<N>) -> (r: Result<(), ()>) {
        self.stream.write(write_buf)
    }
}

impl<T: Write, S> Write for ClientBoundPacketStreamPipe<T, S> {
    /// Writing is the business of the stream below; the codec stays.
    open spec fn writes(
        &self,
        after: &Self,
        buf: CursorView,
        buf_after: CursorView,
        capacity: usize,
        r: Result<(), ()>,
    ) -> bool {
        self.stream.writes(&after.stream, buf, buf_after, capacity, r) && after.state
            == self.state
    }

    fn write<const N: usize>(&mut self, write_buf: &mut Cursor<N>) -> (r: Result<(), ()>) {
        self.stream.write(write_buf)
    }
}

impl<T: Flush, S> Flush for ServerBoundPacketStreamPipe<T, S> {
    /// Flushing is the business of the stream below; the codec stays.
    open spec fn flushes(&self, after: &Self, r: Result<(), ()>) -> bool {
        self.stream.flushes(&after.stream, r) && after.state == self.state
    }

    fn flush(&mut self) -> (r: Result<(), ()>) {
        self.stream.flush()
    }
}

impl<T: Flush, S> Flush for ClientBoundPacketStreamPipe<T, S> {
    /// Flushing is the business of the stream below; the codec stays.
    open spec fn flushes(&self, after: &Self, r: Result<(), ()>) -> bool {
        self.stream.flushes(&after.stream, r) && after.state == self.state
    }

    fn flush(&mut self) -> (r: Result<(), ()>) {
        self.stream.flush()
    }
}

impl<T: Close, S> Close for ServerBoundPacketStreamPipe<T, S> {
    open spec fn closed(&self) -> bool {
        self.stream.closed()
    }

    /// Closing is the business of the stream below; the codec stays.
    open spec fn closes(&self, after: &Self, r: Result<(), ()>) -> bool {
        self.stream.closes(&after.stream, r) && after.state == self.state
    }

    fn is_closed(&self) -> (b: bool) {
        self.stream.is_closed()
    }

    fn close(&mut self) -> (r: Result<(), ()>) {
        self.stream.close()
    }
}

impl<T: Close, S> Close for ClientBoundPacketStreamPipe<T, S> {
    open spec fn closed(&self) -> bool {
        self.stream.closed()
    }

    /// Closing is the business of the stream below; the codec stays.
    open spec fn closes(&self, after: &Self, r: Result<(), ()>) -> bool {
        self.stream.closes(&after.stream, r) && after.state == self.state
    }

    fn is_closed(&self) -> (b: bool) {
        self.stream.is_closed()
    }

    fn close(&mut self) -> (r: Result<(), ()>) {
        self.stream.close()
    }
}

} // verus!
