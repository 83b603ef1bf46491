use socket_server::cursor::{Cursor, CursorView};
use socket_server::mock::MockPoll;
use socket_server::selector::{Poll, Selector, ServerSocketListener};
use socket_server::socket::{Registry, Socket, SocketState, SocketView};
use socket_server::stream::{Layer, Read, Write};
use socket_server::websocket::ReadError;

/// A transport on which every operation fails.
struct Broken;

impl Layer for Broken {
    fn inv(&self) -> bool {
        true
    }
}

impl Read for Broken {
    fn reads(
        &self,
        _after: &Self,
        _buf: CursorView,
        _buf_after: CursorView,
        _capacity: usize,
        _r: Result<(), ReadError>,
    ) -> bool {
        true
    }

    fn read<const N: usize>(&mut self, _read_buf: &mut Cursor<N>) -> Result<(), ReadError> {
        Err(ReadError::CloseRequest)
    }
}

impl Write for Broken {
    fn writes(
        &self,
        _after: &Self,
        _buf: CursorView,
        _buf_after: CursorView,
        _capacity: usize,
        _r: Result<(), ()>,
    ) -> bool {
        true
    }

    fn write<const N: usize>(&mut self, _write_buf: &mut Cursor<N>) -> Result<(), ()> {
        Err(())
    }
}

impl Poll<Broken> for MockPoll {
    fn opens(
        &self,
        _after: &Self,
        _stream: Broken,
        _stream_after: Broken,
        _token: usize,
        r: Result<(), ()>,
    ) -> bool {
        r.is_ok()
    }

    fn closes(&self, _after: &Self, _stream: Broken, _stream_after: Broken) -> bool {
        true
    }

    fn open(&mut self, _stream: &mut Broken, _token: usize) -> Result<(), ()> {
        Ok(())
    }

    fn close(&mut self, _stream: &mut Broken) {}
}

#[derive(Default)]
struct Quiet {
    closed: Vec<usize>,
    flushed: Vec<usize>,
    read: usize,
}

impl ServerSocketListener<8, 8> for Quiet {
    type Connection = ();

    fn ticks(&self, _after: &Self) -> bool {
        true
    }

    fn accepts(&self, _after: &Self, _connection: SocketView<Self::Connection>, _connection_after: SocketView<Self::Connection>) -> bool {
        true
    }

    fn reads(&self, _after: &Self, _connection: SocketView<Self::Connection>, _connection_after: SocketView<Self::Connection>) -> bool {
        true
    }

    fn flushes(&self, _after: &Self, _connection: SocketView<Self::Connection>, _connection_after: SocketView<Self::Connection>) -> bool {
        true
    }

    fn closes(&self, _after: &Self, _connection: SocketView<Self::Connection>, _connection_after: SocketView<Self::Connection>) -> bool {
        true
    }

    fn tick(&mut self) {}

    fn accept(&mut self, connection: &mut Socket<(), 8, 8>, registry: &mut Registry) {
        connection.write_buf.push(1).unwrap();
        connection.register_flush_event(registry);
    }

    fn read(&mut self, _connection: &mut Socket<(), 8, 8>, _registry: &mut Registry) {
        self.read += 1;
    }

    fn flush(&mut self, connection: &mut Socket<(), 8, 8>) {
        self.flushed.push(connection.token());
    }

    fn close(&mut self, connection: &mut Socket<(), 8, 8>) {
        assert_eq!(connection.state(), SocketState::CloseRequest);
        self.closed.push(connection.token());
    }
}

#[test]
fn broken_stream_refuses_everything() {
    let mut stream = Broken;
    let mut buf: Cursor<4> = Cursor::new();
    assert!(stream.read(&mut buf).is_err());
    assert!(stream.write(&mut buf).is_err());
    assert!(buf.push_from_read(&mut stream).is_err());
    assert!(buf.push_to_write(&mut stream).is_err());
}

#[test]
fn write_failure_during_flush_closes() {
    let mut selector: Selector<Quiet, MockPoll, Broken, 2, 8, 8> = Selector::new(Quiet::default(), MockPoll);
    let mut registry = Registry::new(2);
    selector.accept(Broken, &mut registry).unwrap();
    assert_eq!(selector.state_of(0), Some(SocketState::WriteRequest));
    selector.flush_registry(&mut registry);
    assert_eq!(selector.server().flushed, vec![0]);
    assert_eq!(selector.server().closed, vec![0]);
    assert_eq!(selector.len(), 0);
    assert_eq!(registry.len(), 0);
}

#[test]
fn read_failure_asks_for_close_without_dispatch() {
    let mut selector: Selector<Quiet, MockPoll, Broken, 2, 8, 8> = Selector::new(Quiet::default(), MockPoll);
    let mut registry = Registry::new(2);
    selector.accept(Broken, &mut registry).unwrap();
    selector.read(0, &mut registry);
    assert_eq!(selector.server().read, 0);
    assert_eq!(selector.state_of(0), Some(SocketState::CloseRequest));
    assert_eq!(registry.len(), 1);
    selector.flush_registry(&mut registry);
    assert!(selector.server().flushed.is_empty());
    assert_eq!(selector.server().closed, vec![0]);
}
