use socket_server::cursor::Cursor;

#[test]
fn test_server() {}

#[test]
fn cursor_starts_empty() {
    let cursor: Cursor<8> = Cursor::new();
    assert_eq!(cursor.pos(), 0);
    assert_eq!(cursor.filled_len(), 0);
    assert_eq!(cursor.remaining(), 0);
    assert_eq!(cursor.capacity(), 8);
}

use socket_server::mock::{run_mock, MockEnd, MockPoll, MockSelector};
use socket_server::selector::{Selector, ServerSocketListener};
use socket_server::socket::{Registry, Socket, SocketState, SocketView};
use socket_server::stream::mock::MockStream;

pub struct ApplicationServer {}

#[derive(Default)]
pub struct Player {}

impl ServerSocketListener<100, 100> for ApplicationServer {
    type Connection = Player;

    fn ticks(&self, _after: &Self) -> bool {
        true
    }

    fn accepts(&self, _after: &Self, _connection: SocketView<Self::Connection>, _connection_after: SocketView<Self::Connection>) -> bool {
        true
    }

    fn reads(&self, _after: &Self, _connection: SocketView<Self::Connection>, _connection_after: SocketView<Self::Connection>) -> bool {
        true
    }

    fn flushes(&self, _after: &Self, _connection: SocketView<Self::Connection>, _connection_after: SocketView<Self::Connection>) -> bool {
        true
    }

    fn closes(&self, _after: &Self, _connection: SocketView<Self::Connection>, _connection_after: SocketView<Self::Connection>) -> bool {
        true
    }

    fn tick(&mut self) {}

    fn accept(&mut self, connection: &mut Socket<Player, 100, 100>, registry: &mut Registry) {
        connection.register_close_event(registry)
    }

    fn read(&mut self, _connection: &mut Socket<Player, 100, 100>, _registry: &mut Registry) {}

    fn flush(&mut self, _connection: &mut Socket<Player, 100, 100>) {}

    fn close(&mut self, _connection: &mut Socket<Player, 100, 100>) {}
}

pub struct MockServer {}

#[derive(Default)]
pub struct MockPlayer {}

impl ServerSocketListener<100, 100> for MockServer {
    type Connection = MockPlayer;

    fn ticks(&self, _after: &Self) -> bool {
        true
    }

    fn accepts(&self, _after: &Self, _connection: SocketView<Self::Connection>, _connection_after: SocketView<Self::Connection>) -> bool {
        true
    }

    fn reads(&self, _after: &Self, _connection: SocketView<Self::Connection>, _connection_after: SocketView<Self::Connection>) -> bool {
        true
    }

    fn flushes(&self, _after: &Self, _connection: SocketView<Self::Connection>, _connection_after: SocketView<Self::Connection>) -> bool {
        true
    }

    fn closes(&self, _after: &Self, _connection: SocketView<Self::Connection>, _connection_after: SocketView<Self::Connection>) -> bool {
        true
    }

    fn tick(&mut self) {}

    fn accept(&mut self, _connection: &mut Socket<MockPlayer, 100, 100>, _registry: &mut Registry) {}

    fn read(&mut self, _connection: &mut Socket<MockPlayer, 100, 100>, _registry: &mut Registry) {}

    fn flush(&mut self, _connection: &mut Socket<MockPlayer, 100, 100>) {}

    fn close(&mut self, _connection: &mut Socket<MockPlayer, 100, 100>) {
        panic!("the mock side is never closed")
    }
}

#[test]
fn test_mocking_system() {
    let (end, rounds, first, second) = run_mock::<ApplicationServer, MockServer, 10, 100, 100, 10, 100, 100>(
        ApplicationServer {},
        MockServer {},
        50_000_000,
        1_000,
    );
    assert_eq!((end, rounds), (MockEnd::Closed, 0));
    assert_eq!(first.selector.len(), 1);
    assert_eq!(second.selector.len(), 1);
    assert_eq!(first.selector.state_of(0), Some(SocketState::CloseRequest));
    assert_eq!(second.selector.state_of(0), Some(SocketState::Idle));
    assert_eq!(first.registry.len(), 1);
    assert_eq!(first.registry.get(0), 0);
    assert_eq!(second.registry.len(), 0);
}

struct Talker {
    to_send: Vec<u8>,
    received: Vec<u8>,
    ticks: usize,
    close_after: usize,
}

impl ServerSocketListener<32, 32> for Talker {
    type Connection = ();

    fn ticks(&self, _after: &Self) -> bool {
        true
    }

    fn accepts(&self, _after: &Self, _connection: SocketView<Self::Connection>, _connection_after: SocketView<Self::Connection>) -> bool {
        true
    }

    fn reads(&self, _after: &Self, _connection: SocketView<Self::Connection>, _connection_after: SocketView<Self::Connection>) -> bool {
        true
    }

    fn flushes(&self, _after: &Self, _connection: SocketView<Self::Connection>, _connection_after: SocketView<Self::Connection>) -> bool {
        true
    }

    fn closes(&self, _after: &Self, _connection: SocketView<Self::Connection>, _connection_after: SocketView<Self::Connection>) -> bool {
        true
    }

    fn tick(&mut self) {
        self.ticks += 1;
    }

    fn accept(&mut self, connection: &mut Socket<(), 32, 32>, registry: &mut Registry) {
        if !self.to_send.is_empty() {
            connection.write_buf.push_transmute(&self.to_send).unwrap();
            connection.register_flush_event(registry);
        }
    }

    fn read(&mut self, connection: &mut Socket<(), 32, 32>, registry: &mut Registry) {
        let bytes = connection.read_buf.unread();
        connection.read_buf.clear();
        self.received.extend_from_slice(&bytes);
        if self.received.len() >= self.close_after {
            connection.register_close_event(registry);
        } else {
            connection.write_buf.push_transmute(&bytes).unwrap();
            connection.register_flush_event(registry);
        }
    }

    fn flush(&mut self, _connection: &mut Socket<(), 32, 32>) {}

    fn close(&mut self, _connection: &mut Socket<(), 32, 32>) {}
}

type TalkerSelector = Selector<Talker, MockPoll, MockStream<32, 32>, 2, 32, 32>;

#[test]
fn mock_pair_exchanges_bytes_until_one_side_closes() {
    let one = Talker { to_send: vec![1, 2, 3], received: Vec::new(), ticks: 0, close_after: 6 };
    let two = Talker { to_send: Vec::new(), received: Vec::new(), ticks: 0, close_after: 100 };
    let mut first: MockSelector<TalkerSelector, 32, 32> = MockSelector::new(Selector::new(one, MockPoll));
    let mut second: MockSelector<TalkerSelector, 32, 32> = MockSelector::new(Selector::new(two, MockPoll));
    let (end, rounds) = first.entry_point(&mut second, 50);
    assert_eq!(end, MockEnd::Closed);
    assert!(rounds < 50);
    assert_eq!(second.selector.server().received, vec![1, 2, 3, 1, 2, 3]);
    assert_eq!(first.selector.server().received, vec![1, 2, 3, 1, 2, 3]);
    assert_eq!(first.selector.server().ticks, rounds);
    assert_eq!(second.selector.server().ticks, rounds);
}

#[test]
fn mock_run_spends_its_rounds_when_nobody_closes() {
    let one = Talker { to_send: Vec::new(), received: Vec::new(), ticks: 0, close_after: 100 };
    let two = Talker { to_send: Vec::new(), received: Vec::new(), ticks: 0, close_after: 100 };
    let run = run_mock::<Talker, Talker, 2, 32, 32, 2, 32, 32>(one, two, 1_000_000_000_000, 7);
    assert_eq!((run.0, run.1), (MockEnd::RoundsSpent, 7));
    assert_eq!(run.2.selector.len(), 1);
    assert_eq!(run.3.selector.len(), 1);
}

struct Small;

impl ServerSocketListener<8, 8> for Small {
    type Connection = ();

    fn ticks(&self, _after: &Self) -> bool {
        true
    }

    fn accepts(&self, _after: &Self, _connection: SocketView<Self::Connection>, _connection_after: SocketView<Self::Connection>) -> bool {
        true
    }

    fn reads(&self, _after: &Self, _connection: SocketView<Self::Connection>, _connection_after: SocketView<Self::Connection>) -> bool {
        true
    }

    fn flushes(&self, _after: &Self, _connection: SocketView<Self::Connection>, _connection_after: SocketView<Self::Connection>) -> bool {
        true
    }

    fn closes(&self, _after: &Self, _connection: SocketView<Self::Connection>, _connection_after: SocketView<Self::Connection>) -> bool {
        true
    }

    fn tick(&mut self) {}

    fn accept(&mut self, _connection: &mut Socket<(), 8, 8>, _registry: &mut Registry) {}

    fn read(&mut self, _connection: &mut Socket<(), 8, 8>, _registry: &mut Registry) {}

    fn flush(&mut self, _connection: &mut Socket<(), 8, 8>) {}

    fn close(&mut self, _connection: &mut Socket<(), 8, 8>) {}
}

#[test]
fn mock_run_ends_when_a_side_cannot_take_what_was_sent() {
    let big = Talker { to_send: vec![7; 20], received: Vec::new(), ticks: 0, close_after: 100 };
    let run = run_mock::<Talker, Small, 2, 32, 32, 2, 8, 8>(big, Small, 1_000, 10);
    assert_eq!((run.0, run.1), (MockEnd::Overflow, 1));
    assert_eq!(run.2.selector.stream_ref(0).stream_read_buf.unread(), vec![7; 20]);
}
