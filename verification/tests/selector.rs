use socket_server::cursor::Cursor;
use socket_server::mock::MockPoll;
use socket_server::selector::{Poll, Readiness, Selector, ServerSocketListener};
use socket_server::socket::{Registry, Socket, SocketState, SocketView};
use socket_server::stream::mock::MockStream;

#[derive(Default)]
struct Recorder {
    log: Vec<String>,
    close_on_accept: bool,
    close_on_read: bool,
    flush_on_read: bool,
    echo: bool,
    overfill: bool,
    overflowed: bool,
    seen: Vec<u8>,
}

impl<const R: usize, const W: usize> ServerSocketListener<R, W> for Recorder {
    type Connection = u32;

    fn ticks(&self, _after: &Self) -> bool {
        true
    }

    fn accepts(&self, _after: &Self, _connection: SocketView<Self::Connection>, _connection_after: SocketView<Self::Connection>) -> bool {
        true
    }

    fn reads(&self, _after: &Self, _connection: SocketView<Self::Connection>, _connection_after: SocketView<Self::Connection>) -> bool {
        true
    }

    fn flushes(&self, _after: &Self, _connection: SocketView<Self::Connection>, _connection_after: SocketView<Self::Connection>) -> bool {
        true
    }

    fn closes(&self, _after: &Self, _connection: SocketView<Self::Connection>, _connection_after: SocketView<Self::Connection>) -> bool {
        true
    }

    fn tick(&mut self) {
        self.log.push("tick".to_string());
    }

    fn accept(&mut self, connection: &mut Socket<u32, R, W>, registry: &mut Registry) {
        self.log.push(format!("accept {}", connection.token()));
        if self.close_on_accept {
            connection.register_close_event(registry);
        }
    }

    fn read(&mut self, connection: &mut Socket<u32, R, W>, registry: &mut Registry) {
        self.log.push(format!("read {}", connection.token()));
        self.seen = connection.read_buf.unread();
        connection.connection += 1;
        if self.echo {
            let bytes = connection.read_buf.unread();
            connection.read_buf.clear();
            connection.write_buf.push_transmute(&bytes).unwrap();
            connection.register_flush_event(registry);
        }
        if self.overfill {
            for i in 0..=W {
                if connection.write_buf.push(i as u8).is_err() {
                    self.overflowed = true;
                    assert_eq!(i, W);
                    connection.register_close_event(registry);
                }
            }
        }
        if self.flush_on_read {
            connection.register_flush_event(registry);
        }
        if self.close_on_read {
            connection.register_close_event(registry);
        }
    }

    fn flush(&mut self, connection: &mut Socket<u32, R, W>) {
        self.log.push(format!("flush {}", connection.token()));
    }

    fn close(&mut self, connection: &mut Socket<u32, R, W>) {
        self.log.push(format!("close {}", connection.token()));
    }
}

struct RefusingPoll;

impl<const R: usize, const W: usize> Poll<MockStream<R, W>> for RefusingPoll {
    fn opens(
        &self,
        _after: &Self,
        _stream: MockStream<R, W>,
        _stream_after: MockStream<R, W>,
        _token: usize,
        r: Result<(), ()>,
    ) -> bool {
        r.is_err()
    }

    fn closes(&self, _after: &Self, _stream: MockStream<R, W>, _stream_after: MockStream<R, W>) -> bool {
        true
    }

    fn open(&mut self, _stream: &mut MockStream<R, W>, _token: usize) -> Result<(), ()> {
        Err(())
    }

    fn close(&mut self, _stream: &mut MockStream<R, W>) {}
}

type Sel<const MAX: usize> = Selector<Recorder, MockPoll, MockStream<16, 16>, MAX, 16, 16>;

fn incoming(bytes: &[u8]) -> MockStream<16, 16> {
    let mut stream: MockStream<16, 16> = MockStream::new();
    stream.stream_write_buf.push_transmute(bytes).unwrap();
    stream
}

fn log<const MAX: usize>(selector: &Sel<MAX>) -> Vec<&str> {
    selector.server().log.iter().map(|s| s.as_str()).collect()
}

fn queue(registry: &Registry) -> Vec<usize> {
    (0..registry.len()).map(|i| registry.get(i)).collect()
}

#[test]
fn accept_then_immediate_close() {
    let handler = Recorder { close_on_accept: true, ..Recorder::default() };
    let mut selector: Sel<4> = Selector::new(handler, MockPoll);
    let mut registry = Registry::new(4);
    assert_eq!(selector.accept(MockStream::new(), &mut registry), Ok(()));
    assert_eq!(selector.len(), 1);
    assert_eq!(selector.state_of(0), Some(SocketState::CloseRequest));
    assert_eq!(queue(&registry), vec![0]);
    selector.flush_registry(&mut registry);
    assert_eq!(log(&selector), vec!["accept 0", "close 0"]);
    assert_eq!(selector.len(), 0);
    assert!(!selector.contains(0));
    assert_eq!(registry.len(), 0);
}

#[test]
fn slab_full_drops_the_third_connection() {
    let mut selector: Sel<2> = Selector::new(Recorder::default(), MockPoll);
    let mut registry = Registry::new(2);
    let events = vec![
        Readiness::Accepted(MockStream::new()),
        Readiness::Accepted(MockStream::new()),
        Readiness::Accepted(MockStream::new()),
    ];
    selector.iterate(false, events, &mut registry);
    assert_eq!(log(&selector), vec!["accept 0", "accept 1"]);
    assert_eq!(selector.len(), 2);
    assert_eq!(selector.accept(MockStream::new(), &mut registry), Err(()));
    assert_eq!(selector.len(), 2);
    assert_eq!(selector.peek_token(), None);
    assert_eq!(registry.len(), 0);
}

#[test]
fn read_delivers_the_bytes_to_the_handler() {
    let mut selector: Sel<4> = Selector::new(Recorder::default(), MockPoll);
    let mut registry = Registry::new(4);
    selector.accept(incoming(&[1, 2, 3]), &mut registry).unwrap();
    selector.read(0, &mut registry);
    assert_eq!(log(&selector), vec!["accept 0", "read 0"]);
    assert_eq!(selector.server().seen, vec![1, 2, 3]);
    assert_eq!(selector.socket_ref(0).read_buf.unread(), vec![1, 2, 3]);
    assert_eq!(selector.socket_ref(0).connection, 1);
    assert_eq!(selector.state_of(0), Some(SocketState::Idle));
    assert_eq!(registry.len(), 0);
}

#[test]
fn read_of_a_free_token_is_ignored() {
    let mut selector: Sel<4> = Selector::new(Recorder::default(), MockPoll);
    let mut registry = Registry::new(4);
    selector.read(0, &mut registry);
    selector.read(99, &mut registry);
    assert!(log(&selector).is_empty());
    assert_eq!(registry.len(), 0);
}

#[test]
fn read_that_overflows_the_buffer_asks_for_close() {
    let mut selector: Selector<Recorder, MockPoll, MockStream<16, 16>, 4, 2, 16> =
        Selector::new(Recorder::default(), MockPoll);
    let mut registry = Registry::new(4);
    selector.accept(incoming(&[1, 2, 3]), &mut registry).unwrap();
    selector.read(0, &mut registry);
    assert_eq!(selector.server().log, vec!["accept 0".to_string()]);
    assert_eq!(selector.state_of(0), Some(SocketState::CloseRequest));
    assert_eq!(queue(&registry), vec![0]);
    selector.flush_registry(&mut registry);
    assert_eq!(selector.server().log, vec!["accept 0".to_string(), "close 0".to_string()]);
    assert!(!selector.contains(0));
}

#[test]
fn echo_is_flushed_at_the_end_of_the_iteration() {
    let handler = Recorder { echo: true, ..Recorder::default() };
    let mut selector: Sel<4> = Selector::new(handler, MockPoll);
    let mut registry = Registry::new(4);
    selector.accept(incoming(&[5, 6]), &mut registry).unwrap();
    selector.iterate(true, vec![Readiness::Readable(0)], &mut registry);
    assert_eq!(log(&selector), vec!["accept 0", "tick", "read 0", "flush 0"]);
    assert_eq!(selector.state_of(0), Some(SocketState::Idle));
    assert_eq!(selector.stream_ref(0).stream_read_buf.unread(), vec![5, 6]);
    assert_eq!(selector.socket_ref(0).write_buf.filled_len(), 0);
    assert_eq!(registry.len(), 0);
}

#[test]
fn all_reads_come_before_all_flushes() {
    let handler = Recorder { echo: true, ..Recorder::default() };
    let mut selector: Sel<4> = Selector::new(handler, MockPoll);
    let mut registry = Registry::new(4);
    selector.accept(incoming(&[1]), &mut registry).unwrap();
    selector.accept(incoming(&[2]), &mut registry).unwrap();
    selector.iterate(false, vec![Readiness::Readable(1), Readiness::Readable(0)], &mut registry);
    assert_eq!(
        log(&selector),
        vec!["accept 0", "accept 1", "read 1", "read 0", "flush 1", "flush 0"]
    );
}

#[test]
fn a_token_is_enqueued_once() {
    let handler = Recorder { flush_on_read: true, ..Recorder::default() };
    let mut selector: Sel<4> = Selector::new(handler, MockPoll);
    let mut registry = Registry::new(4);
    selector.accept(incoming(&[1]), &mut registry).unwrap();
    selector.read(0, &mut registry);
    selector.stream_mut(0).stream_write_buf.push_transmute(&[2]).unwrap();
    selector.read(0, &mut registry);
    selector.read(0, &mut registry);
    assert_eq!(queue(&registry), vec![0]);
    assert_eq!(selector.state_of(0), Some(SocketState::WriteRequest));
}

#[test]
fn close_wins_over_flush_in_either_order() {
    let handler = Recorder { flush_on_read: true, close_on_read: true, ..Recorder::default() };
    let mut selector: Sel<4> = Selector::new(handler, MockPoll);
    let mut registry = Registry::new(4);
    selector.accept(incoming(&[1]), &mut registry).unwrap();
    selector.read(0, &mut registry);
    assert_eq!(selector.state_of(0), Some(SocketState::CloseRequest));
    assert_eq!(queue(&registry), vec![0]);
    selector.flush_registry(&mut registry);
    assert_eq!(log(&selector), vec!["accept 0", "read 0", "close 0"]);

    let mut socket: Socket<(), 4, 4> = Socket::new(3, ());
    let mut registry = Registry::new(4);
    socket.register_close_event(&mut registry);
    socket.register_flush_event(&mut registry);
    assert_eq!(socket.state(), SocketState::CloseRequest);
    assert_eq!(queue(&registry), vec![3]);
}

#[test]
fn register_events_on_a_socket() {
    let mut socket: Socket<(), 4, 4> = Socket::new(7, ());
    let mut registry = Registry::new(4);
    assert_eq!(socket.state(), SocketState::Idle);
    assert_eq!(socket.token(), 7);
    socket.register_flush_event(&mut registry);
    assert_eq!(socket.state(), SocketState::WriteRequest);
    assert_eq!(queue(&registry), vec![7]);
    socket.register_flush_event(&mut registry);
    assert_eq!(queue(&registry), vec![7]);
    socket.register_close_event(&mut registry);
    assert_eq!(socket.state(), SocketState::CloseRequest);
    assert_eq!(queue(&registry), vec![7]);
    assert_eq!(SocketState::default(), SocketState::Idle);
}

#[test]
fn registry_withdraw_takes_the_first_occurrence() {
    let mut registry = Registry::new(4);
    for token in [4usize, 5, 6] {
        let mut socket: Socket<(), 4, 4> = Socket::new(token, ());
        socket.register_close_event(&mut registry);
    }
    registry.withdraw(9);
    assert_eq!(queue(&registry), vec![4, 5, 6]);
    registry.withdraw(5);
    assert_eq!(queue(&registry), vec![4, 6]);
    registry.clear();
    assert_eq!(registry.len(), 0);
}

#[test]
fn write_overflow_closes_at_the_end_of_the_iteration() {
    let handler = Recorder { overfill: true, ..Recorder::default() };
    let mut selector: Sel<4> = Selector::new(handler, MockPoll);
    let mut registry = Registry::new(4);
    selector.accept(incoming(&[1]), &mut registry).unwrap();
    selector.read(0, &mut registry);
    assert!(selector.server().overflowed);
    assert_eq!(selector.socket_ref(0).write_buf.filled_len(), 16);
    assert_eq!(selector.state_of(0), Some(SocketState::CloseRequest));
    assert!(selector.contains(0));
    selector.flush_registry(&mut registry);
    assert_eq!(log(&selector), vec!["accept 0", "read 0", "close 0"]);
    assert_eq!(selector.len(), 0);
}

#[test]
fn failed_write_closes_the_connection() {
    let handler = Recorder { echo: true, ..Recorder::default() };
    let mut selector: Selector<Recorder, MockPoll, MockStream<2, 16>, 4, 16, 16> =
        Selector::new(handler, MockPoll);
    let mut registry = Registry::new(4);
    let mut stream: MockStream<2, 16> = MockStream::new();
    stream.stream_write_buf.push_transmute(&[1, 2, 3]).unwrap();
    selector.accept(stream, &mut registry).unwrap();
    selector.read(0, &mut registry);
    assert_eq!(selector.state_of(0), Some(SocketState::WriteRequest));
    selector.flush_registry(&mut registry);
    assert_eq!(
        selector.server().log,
        vec!["accept 0".to_string(), "read 0".to_string(), "flush 0".to_string(), "close 0".to_string()]
    );
    assert_eq!(selector.len(), 0);
    assert_eq!(registry.len(), 0);
}

#[test]
fn flush_of_nothing_closes_the_connection() {
    let handler = Recorder { flush_on_read: true, ..Recorder::default() };
    let mut selector: Sel<4> = Selector::new(handler, MockPoll);
    let mut registry = Registry::new(4);
    selector.accept(incoming(&[1]), &mut registry).unwrap();
    selector.iterate(false, vec![Readiness::Readable(0)], &mut registry);
    assert_eq!(log(&selector), vec!["accept 0", "read 0", "flush 0", "close 0"]);
    assert!(!selector.contains(0));
}

#[test]
fn refused_by_the_poller_is_closed_without_accept() {
    let mut selector: Selector<Recorder, RefusingPoll, MockStream<16, 16>, 4, 16, 16> =
        Selector::new(Recorder::default(), RefusingPoll);
    let mut registry = Registry::new(4);
    assert_eq!(selector.accept(MockStream::new(), &mut registry), Ok(()));
    assert_eq!(selector.state_of(0), Some(SocketState::CloseRequest));
    assert_eq!(queue(&registry), vec![0]);
    selector.flush_registry(&mut registry);
    assert_eq!(selector.server().log, vec!["close 0".to_string()]);
    assert_eq!(selector.len(), 0);
}

#[test]
fn close_is_called_once_and_the_token_is_reused() {
    let handler = Recorder { close_on_read: true, ..Recorder::default() };
    let mut selector: Sel<2> = Selector::new(handler, MockPoll);
    let mut registry = Registry::new(2);
    selector.accept(incoming(&[1]), &mut registry).unwrap();
    selector.accept(incoming(&[2]), &mut registry).unwrap();
    selector.iterate(false, vec![Readiness::Readable(0)], &mut registry);
    selector.iterate(false, vec![Readiness::Readable(0)], &mut registry);
    selector.flush_registry(&mut registry);
    assert_eq!(log(&selector), vec!["accept 0", "accept 1", "read 0", "close 0"]);
    assert_eq!(selector.peek_token(), Some(0));
    selector.accept(incoming(&[3]), &mut registry).unwrap();
    selector.iterate(false, vec![Readiness::Readable(0), Readiness::Readable(1)], &mut registry);
    assert_eq!(
        log(&selector),
        vec![
            "accept 0", "accept 1", "read 0", "close 0", "accept 0", "read 0", "read 1",
            "close 0", "close 1"
        ]
    );
    assert_eq!(selector.len(), 0);
}

#[test]
fn close_now_withdraws_the_request() {
    let handler = Recorder { flush_on_read: true, ..Recorder::default() };
    let mut selector: Sel<4> = Selector::new(handler, MockPoll);
    let mut registry = Registry::new(4);
    selector.accept(incoming(&[1]), &mut registry).unwrap();
    selector.accept(incoming(&[2]), &mut registry).unwrap();
    selector.read(0, &mut registry);
    selector.read(1, &mut registry);
    assert_eq!(queue(&registry), vec![0, 1]);
    selector.close(0, &mut registry);
    assert_eq!(queue(&registry), vec![1]);
    assert!(!selector.contains(0));
    selector.close(0, &mut registry);
    selector.close(3, &mut registry);
    assert_eq!(log(&selector), vec!["accept 0", "accept 1", "read 0", "read 1", "close 0"]);
    assert_eq!(selector.len(), 1);
}

#[test]
fn tick_reaches_the_handler() {
    let mut selector: Sel<1> = Selector::new(Recorder::default(), MockPoll);
    selector.tick();
    let mut registry = Registry::new(1);
    selector.iterate(true, Vec::new(), &mut registry);
    selector.iterate(false, Vec::new(), &mut registry);
    assert_eq!(log(&selector), vec!["tick", "tick"]);
}

#[test]
fn queue_never_exceeds_the_number_of_slots() {
    let handler = Recorder { flush_on_read: true, close_on_accept: false, ..Recorder::default() };
    let mut selector: Sel<3> = Selector::new(handler, MockPoll);
    let mut registry = Registry::new(3);
    for _ in 0..5 {
        let _ = selector.accept(incoming(&[1]), &mut registry);
    }
    for round in 0..4 {
        for token in 0..5 {
            selector.read(token, &mut registry);
            assert!(registry.len() <= 3);
        }
        let mut seen = queue(&registry);
        seen.sort();
        seen.dedup();
        assert_eq!(seen.len(), registry.len());
        if round == 2 {
            selector.flush_registry(&mut registry);
            assert_eq!(registry.len(), 0);
        }
    }
}

#[test]
fn socket_parts_give_the_buffers() {
    let mut socket: Socket<u8, 4, 4> = Socket::new(0, 5);
    {
        let (read_buf, write_buf, connection) = socket.parts();
        read_buf.push(1).unwrap();
        write_buf.push(2).unwrap();
        *connection = 6;
    }
    assert_eq!(socket.read_buf.filled(), vec![1]);
    assert_eq!(socket.write_buf.filled(), vec![2]);
    assert_eq!(socket.connection, 6);
    let _unused: Cursor<1> = Cursor::new();
}

struct Refuser {
    log: Vec<String>,
}

impl ServerSocketListener<16, 16> for Refuser {
    type Connection = ();

    fn ticks(&self, _after: &Self) -> bool {
        true
    }

    fn accepts(&self, _after: &Self, _connection: SocketView<()>, _connection_after: SocketView<()>) -> bool {
        true
    }

    fn reads(&self, _after: &Self, _connection: SocketView<()>, _connection_after: SocketView<()>) -> bool {
        true
    }

    fn flushes(&self, _after: &Self, _connection: SocketView<()>, _connection_after: SocketView<()>) -> bool {
        true
    }

    fn closes(&self, _after: &Self, _connection: SocketView<()>, _connection_after: SocketView<()>) -> bool {
        true
    }

    fn tick(&mut self) {}

    fn accept(&mut self, connection: &mut Socket<(), 16, 16>, registry: &mut Registry) {
        connection.write_buf.push_transmute(&[1, 2, 3]).unwrap();
        connection.register_flush_event(registry);
    }

    fn read(&mut self, _connection: &mut Socket<(), 16, 16>, _registry: &mut Registry) {}

    fn flush(&mut self, connection: &mut Socket<(), 16, 16>) {
        self.log.push(format!("flush {}", connection.token()));
        connection.close_now();
    }

    fn close(&mut self, connection: &mut Socket<(), 16, 16>) {
        self.log.push(format!("close {}", connection.token()));
    }
}

#[test]
fn close_asked_for_in_flush_is_served_in_the_same_drain() {
    let mut selector: Selector<Refuser, MockPoll, MockStream<16, 16>, 2, 16, 16> =
        Selector::new(Refuser { log: Vec::new() }, MockPoll);
    let mut registry = Registry::new(2);
    selector.accept(MockStream::new(), &mut registry).unwrap();
    selector.flush_registry(&mut registry);
    assert_eq!(selector.server().log, vec!["flush 0".to_string(), "close 0".to_string()]);
    assert_eq!(selector.len(), 0);
    assert_eq!(registry.len(), 0);
}

#[test]
fn counts_follow_accepts_and_closes() {
    let mut selector: Sel<3> = Selector::new(Recorder::default(), MockPoll);
    let mut registry = Registry::new(3);
    assert_eq!(selector.peek_token(), Some(0));
    assert_eq!(selector.len(), 0);
    selector.accept(incoming(&[1]), &mut registry).unwrap();
    assert_eq!(selector.len(), 1);
    selector.accept(incoming(&[1]), &mut registry).unwrap();
    assert_eq!(selector.len(), 2);
    selector.close(0, &mut registry);
    assert_eq!(selector.len(), 1);
    selector.close(0, &mut registry);
    assert_eq!(selector.len(), 1);
}
