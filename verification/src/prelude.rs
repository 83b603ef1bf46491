//! The names that an application needs, and the stacks of layers that are
//! put on the mock transport.

pub use crate::selector::{Poll, Selector, ServerSocketListener};
pub use crate::stream::mock::MockStream;
pub use crate::stream::packet::{ClientBoundPacketStreamPipe, ServerBoundPacketStreamPipe};
pub use crate::stream::readable_byte_channel::ReadableByteChannel;
pub use crate::stream::websocket::WebSocketServer;
pub use crate::stream::writable_byte_channel::WritableByteChannel;
pub use crate::stream::{
    Accept, Close, Flush, PollRead, Read, ReceivePacket, Write, WritePacket,
};
pub use crate::websocket::ReadError;
use vstd::prelude::*;

verus! {

/// Bytes over the mock transport.
pub type MockTcpStream<const READ_BUF_LEN: usize, const WRITE_BUF_LEN: usize> = ReadableByteChannel<
    WritableByteChannel<MockStream<WRITE_BUF_LEN, READ_BUF_LEN>, WRITE_BUF_LEN>,
    READ_BUF_LEN,
>;

/// Packets over the mock transport, seen from the client.
pub type MockTcpClientBoundPacketStream<
    PacketStream,
    const READ_BUF_LEN: usize,
    const WRITE_BUF_LEN: usize,
> = ReadableByteChannel<
    ClientBoundPacketStreamPipe<
        WritableByteChannel<MockStream<WRITE_BUF_LEN, READ_BUF_LEN>, WRITE_BUF_LEN>,
        PacketStream,
    >,
    READ_BUF_LEN,
>;

/// Packets over the mock transport, seen from the server.
pub type MockTcpServerBoundPacketStream<
    PacketStream,
    const READ_BUF_LEN: usize,
    const WRITE_BUF_LEN: usize,
> = ReadableByteChannel<
    ServerBoundPacketStreamPipe<
        WritableByteChannel<MockStream<WRITE_BUF_LEN, READ_BUF_LEN>, WRITE_BUF_LEN>,
        PacketStream,
    >,
    READ_BUF_LEN,
>;

/// WebSocket over the mock transport.
pub type MockTcpWebSocketStream<const READ_BUF_LEN: usize, const WRITE_BUF_LEN: usize> =
    ReadableByteChannel<
    WebSocketServer<WritableByteChannel<MockStream<WRITE_BUF_LEN, READ_BUF_LEN>, WRITE_BUF_LEN>>,
    READ_BUF_LEN,
>;

} // verus!
