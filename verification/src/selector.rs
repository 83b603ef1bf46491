//! The selector: it owns every connection and its stream, turns readiness
//! into calls of the application's handler, and serves at the end of each
//! iteration the flushes and closes that were asked for.

use crate::cursor::CursorView;
use crate::history::{
    drain_record, drain_steps, lemma_drain_record_congruent, live, orderly, Event,
};
use crate::slab::Slab;
use crate::socket::{enqueued, requests_registered, Registry, Socket, SocketState, SocketView};
use crate::stream::{Layer, Read, Write};
use crate::websocket::ReadError;
use vstd::prelude::*;

verus! {

/// The poller as the selector sees it: streams are registered under their
/// token when they are accepted and deregistered when they are closed.
pub trait Poll<S: Layer> {
    /// Whether registering can take the poller from `self` to `after` and
    /// the stream from `stream` to `stream_after`, answering `r`.
    spec fn opens(
        &self,
        after: &Self,
        stream: S,
        stream_after: S,
        token: usize,
        r: Result<(), ()>,
    ) -> bool;

    /// Registers `stream` for readability under `token`.
    fn open(&mut self, stream: &mut S, token: usize) -> (r: Result<(), ()>)
        requires
            old(stream).inv(),
        ensures
            final(stream).inv(),
            old(self).opens(final(self), *old(stream), *final(stream), token, r),
    ;

    /// Whether deregistering can take the poller from `self` to `after`
    /// and the stream from `stream` to `stream_after`.
    spec fn closes(&self, after: &Self, stream: S, stream_after: S) -> bool;

    /// Deregisters `stream`.
    fn close(&mut self, stream: &mut S)
        requires
            old(stream).inv(),
        ensures
            final(stream).inv(),
            old(self).closes(final(self), *old(stream), *final(stream)),
    ;
}

/// What an application implements to be told of the life of its
/// connections. `accept` and `read` may ask for a flush or a close through
/// the queue; `flush`, which runs while the queue is drained, may ask for
/// a close at once. Each callback comes with a relation that says what it
/// may make of the handler and of the connection it is handed.
pub trait ServerSocketListener<const R: usize, const W: usize>: Sized {
    /// The application's own data per connection.
    type Connection;

    /// Whether the periodic work can take the handler from `self` to
    /// `after`.
    spec fn ticks(&self, after: &Self) -> bool;

    /// Called once per period.
    fn tick(&mut self)
        ensures
            old(self).ticks(final(self)),
    ;

    /// Whether `accept` can take the handler from `self` to `after` and
    /// the connection it is handed from `connection` to `connection_after`.
    spec fn accepts(
        &self,
        after: &Self,
        connection: SocketView<Self::Connection>,
        connection_after: SocketView<Self::Connection>,
    ) -> bool;

    /// Whether `read` can take the handler from `self` to `after` and the
    /// connection it is handed from `connection` to `connection_after`.
    spec fn reads(
        &self,
        after: &Self,
        connection: SocketView<Self::Connection>,
        connection_after: SocketView<Self::Connection>,
    ) -> bool;

    /// Whether `flush` can take the handler from `self` to `after` and the
    /// connection it is handed from `connection` to `connection_after`.
    spec fn flushes(
        &self,
        after: &Self,
        connection: SocketView<Self::Connection>,
        connection_after: SocketView<Self::Connection>,
    ) -> bool;

    /// Whether `close` can take the handler from `self` to `after` and the
    /// connection it is handed from `connection` to `connection_after`.
    spec fn closes(
        &self,
        after: &Self,
        connection: SocketView<Self::Connection>,
        connection_after: SocketView<Self::Connection>,
    ) -> bool;

    /// Called when a connection was registered.
    fn accept(
        &mut self,
        connection: &mut Socket<Self::Connection, R, W>,
        registry: &mut Registry,
    )
        requires
            old(connection).wf(),
        ensures
            final(connection).wf(),
            requests_registered(old(connection)@, old(registry)@, final(connection)@, final(registry)@),
            old(self).accepts(final(self), old(connection)@, final(connection)@),
    ;

    /// Called when new bytes arrived in the connection's read buffer.
    fn read(&mut self, connection: &mut Socket<Self::Connection, R, W>, registry: &mut Registry)
        requires
            old(connection).wf(),
        ensures
            final(connection).wf(),
            requests_registered(old(connection)@, old(registry)@, final(connection)@, final(registry)@),
            old(self).reads(final(self), old(connection)@, final(connection)@),
    ;

    /// Called before the connection's write buffer is drained. The
    /// connection is handed over idle and comes back idle, or with a close
    /// asked for at once.
    fn flush(&mut self, connection: &mut Socket<Self::Connection, R, W>)
        requires
            old(connection).wf(),
        ensures
            final(connection).wf(),
            final(connection)@.token == old(connection)@.token,
            final(connection)@.state == old(connection)@.state || final(connection)@.state
                == SocketState::CloseRequest,
            old(self).flushes(final(self), old(connection)@, final(connection)@),
    ;

    /// Called once before the connection's slot is given up.
    fn close(&mut self, connection: &mut Socket<Self::Connection, R, W>)
        requires
            old(connection).wf(),
        ensures
            final(connection).wf(),
            old(self).closes(final(self), old(connection)@, final(connection)@),
    ;
}

/// A connection together with the stream that carries it.
pub struct Entry<C, S, const R: usize, const W: usize> {
    socket: Socket<C, R, W>,
    stream: S,
}

/// Owner of at most `MAX` connections with read buffers of `R` and write
/// buffers of `W` bytes.
pub struct Selector<
    T: ServerSocketListener<R, W>,
    P,
    S,
    const MAX: usize,
    const R: usize,
    const W: usize,
> {
    poll: P,
    server: T,
    sockets: Slab<Entry<T::Connection, S, R, W>, MAX>,
    history: Ghost<Seq<Event>>,
}

impl<
    T: ServerSocketListener<R, W>,
    P: Poll<S>,
    S: Read + Write,
    const MAX: usize,
    const R: usize,
    const W: usize,
> Selector<T, P, S, MAX, R, W> {
    /// Whether `token` is held by a connection.
    pub closed spec fn occupied(&self, token: usize) -> bool {
        self.sockets.occupied(token as int)
    }

    /// The connection that holds `token`.
    pub closed spec fn socket(&self, token: usize) -> SocketView<T::Connection> {
        self.sockets.element(token as int).socket@
    }

    /// The stream of the connection that holds `token`.
    pub closed spec fn stream(&self, token: usize) -> S {
        self.sockets.element(token as int).stream
    }

    /// The poller.
    pub closed spec fn poller(&self) -> P {
        self.poll
    }

    /// The application's handler.
    pub closed spec fn handler(&self) -> T {
        self.server
    }

    /// The token that the next accepted connection gets, if there is room.
    pub closed spec fn next_token(&self) -> Option<usize> {
        self.sockets.next_index()
    }

    /// Number of connections held.
    pub closed spec fn count(&self) -> int {
        self.sockets.count()
    }

    /// What the selector did with its handler so far.
    pub closed spec fn history(&self) -> Seq<Event> {
        self.history@
    }

    /// The slots and the free tokens are consistent.
    pub closed spec fn slab_wf(&self) -> bool {
        self.sockets.wf()
    }

    /// Every connection is held under its own token below `MAX`, with its
    /// buffers in bounds and its stream in order.
    pub open spec fn slots_wf(&self) -> bool {
        &&& self.slab_wf()
        &&& forall|t: usize| #[trigger]
            self.occupied(t) ==> {
                &&& t < MAX
                &&& self.socket(t).token == t
                &&& self.socket(t).read_buf.bounded_by(R as nat)
                &&& self.socket(t).write_buf.bounded_by(W as nat)
                &&& self.stream(t).inv()
            }
    }

    /// The queue names exactly the connections that are not idle, each
    /// once.
    pub open spec fn queue_wf(&self, queue: Seq<usize>) -> bool {
        &&& queue.no_duplicates()
        &&& forall|i: int|
            0 <= i < queue.len() ==> self.occupied(#[trigger] queue[i]) && self.socket(
                queue[i],
            ).state != SocketState::Idle
        &&& forall|t: usize| #[trigger]
            self.occupied(t) && self.socket(t).state != SocketState::Idle ==> queue.contains(t)
    }

    /// The record is orderly, and the tokens it leaves held are the tokens
    /// that connections hold.
    pub open spec fn history_wf(&self) -> bool {
        &&& orderly(self.history())
        &&& forall|t: usize| live(self.history()).contains(t) <==> #[trigger] self.occupied(t)
    }

    /// The invariant that ties a selector to its queue.
    pub open spec fn wf(&self, queue: Seq<usize>) -> bool {
        &&& self.slots_wf()
        &&& self.queue_wf(queue)
        &&& self.history_wf()
    }

    /// Whether every connection but the one at `token` is in `other` what
    /// it is in `self`.
    pub open spec fn same_but(&self, other: &Self, token: usize) -> bool {
        forall|u: usize|
            u != token ==> (#[trigger] self.occupied(u) <==> other.occupied(u)) && (self.occupied(
                u,
            ) ==> self.socket(u) == other.socket(u) && self.stream(u) == other.stream(u))
    }

    /// Whether every connection is in `other` what it is in `self`.
    pub open spec fn same_slots(&self, other: &Self) -> bool {
        forall|u: usize|
            (#[trigger] self.occupied(u) <==> other.occupied(u)) && (self.occupied(u)
                ==> self.socket(u) == other.socket(u) && self.stream(u) == other.stream(u))
    }

    /// The record stays in step with the slots: where a step leaves the
    /// occupancy of every token but `token` as it was, and either adds
    /// nothing to the record and leaves `token` as it was, or adds one
    /// step for `token` that fits what became of it, the record is still
    /// orderly and names the tokens that are held.
    proof fn lemma_record_in_step(&self, before: &Self, token: usize, step: Option<Event>)
        requires
            before.history_wf(),
            forall|t: usize| t != token ==> (before.occupied(t) <==> #[trigger] self.occupied(t)),
            match step {
                None => self.history() == before.history() && (self.occupied(token)
                    <==> before.occupied(token)),
                Some(event) => {
                    &&& self.history() == before.history().push(event)
                    &&& event.token() == token
                    &&& if event.opens() {
                        !before.occupied(token) && self.occupied(token)
                    } else if event is Close {
                        before.occupied(token) && !self.occupied(token)
                    } else {
                        before.occupied(token) && self.occupied(token)
                    }
                },
            },
        ensures
            self.history_wf(),
    {
        if step is Some {
            assert(self.history().drop_last() =~= before.history());
        }
        assert(before.occupied(token) <==> live(before.history()).contains(token));
        assert forall|t: usize| live(self.history()).contains(t) <==> #[trigger] self.occupied(
            t,
        ) by {
            if t != token {
                assert(before.occupied(t) <==> self.occupied(t));
            }
        }
    }

    /// A selector without connections. The first token that it gives is
    /// zero.
    pub fn new(server: T, poll: P) -> (s: Self)
        ensures
            s.wf(Seq::empty()),
            s.history() == Seq::<Event>::empty(),
            s.count() == 0,
            s.handler() == server,
            s.poller() == poll,
            s.next_token() == if MAX > 0 {
                Some(0usize)
            } else {
                None
            },
            forall|t: usize| !s.occupied(t),
    {
        Selector { poll, server, sockets: Slab::new(), history: Ghost(Seq::empty()) }
    }

    /// Number of connections held.
    pub fn len(&self) -> (n: usize)
        requires
            self.slots_wf(),
        ensures
            n == self.count(),
            n <= MAX,
    {
        self.sockets.len()
    }

    /// Whether `token` is held by a connection.
    pub fn contains(&self, token: usize) -> (b: bool)
        ensures
            b == self.occupied(token),
    {
        self.sockets.contains(token)
    }

    /// The state of the connection that holds `token`.
    pub fn state_of(&self, token: usize) -> (s: Option<SocketState>)
        ensures
            s == if self.occupied(token) {
                Some(self.socket(token).state)
            } else {
                None
            },
    {
        if self.sockets.contains(token) {
            Some(self.sockets.get(token).socket.state())
        } else {
            None
        }
    }

    /// The token that the next accepted connection gets, if there is room.
    pub fn peek_token(&self) -> (r: Option<usize>)
        requires
            self.slots_wf(),
        ensures
            r == self.next_token(),
            r.is_some() <==> self.count() < MAX,
            r matches Some(t) ==> t < MAX && !self.occupied(t),
    {
        self.sockets.peek_index()
    }

    /// The application's handler.
    pub fn server(&self) -> (server: &T)
        ensures
            *server == self.handler(),
    {
        &self.server
    }

    /// The poller.
    pub fn poll(&self) -> (poll: &P)
        ensures
            *poll == self.poller(),
    {
        &self.poll
    }

    /// The connection that holds `token`.
    pub fn socket_ref(&self, token: usize) -> (socket: &Socket<T::Connection, R, W>)
        requires
            self.occupied(token),
        ensures
            socket@ == self.socket(token),
    {
        &self.sockets.get(token).socket
    }

    /// The stream of the connection that holds `token`.
    pub fn stream_ref(&self, token: usize) -> (stream: &S)
        requires
            self.occupied(token),
        ensures
            *stream == self.stream(token),
    {
        &self.sockets.get(token).stream
    }

    /// The stream of the connection that holds `token`, for changing it
    /// where it lies. Nothing else of the selector changes.
    pub fn stream_mut(&mut self, token: usize) -> (stream: &mut S)
        requires
            old(self).occupied(token),
        ensures
            *stream == old(self).stream(token),
            final(self).stream(token) == *final(stream),
            forall|t: usize| #[trigger] final(self).occupied(t) <==> old(self).occupied(t),
            forall|t: usize|
                old(self).occupied(t) ==> #[trigger] final(self).socket(t) == old(self).socket(t),
            forall|t: usize|
                old(self).occupied(t) && t != token ==> #[trigger] final(self).stream(t) == old(
                    self,
                ).stream(t),
            final(self).history() == old(self).history(),
            final(self).handler() == old(self).handler(),
            final(self).poller() == old(self).poller(),
            final(self).next_token() == old(self).next_token(),
            final(self).count() == old(self).count(),
            old(self).slab_wf() ==> final(self).slab_wf(),
    {
        &mut self.sockets.get_mut(token).stream
    }

    /// Whether `after` has in all but the handler what `self` has: the
    /// poller, the connections and their streams, the free tokens and the
    /// record.
    pub open spec fn kept_but_handler(&self, after: &Self) -> bool {
        &&& after.poller() == self.poller()
        &&& after.same_slots(self)
        &&& after.history() == self.history()
        &&& after.next_token() == self.next_token()
        &&& after.count() == self.count()
        &&& after.slab_wf() == self.slab_wf()
    }

    /// Whether `after` is `self` once the handler has done its periodic
    /// work.
    pub open spec fn tick_post(&self, after: &Self) -> bool {
        self.handler().ticks(&after.handler()) && self.kept_but_handler(after)
    }

    /// Lets the handler do its periodic work. The poller, the connections
    /// and the record stay as they are.
    pub fn tick(&mut self)
        ensures
            old(self).tick_post(final(self)),
    {
        self.server.tick();
    }

    /// Whether `after` with the queue at `queue_after` is what taking in a
    /// connection over `stream` under `token` makes of `self` with the
    /// queue at `queue`: the stream is registered with the poller, and if
    /// the poller takes it, the handler's `accept` runs on a fresh idle
    /// connection with empty buffers; if the poller refuses, the handler
    /// is not told, and the fresh connection is marked for closing and
    /// enqueued.
    pub open spec fn accept_step(
        &self,
        after: &Self,
        stream: S,
        token: usize,
        queue: Seq<usize>,
        queue_after: Seq<usize>,
    ) -> bool {
        exists|opened: Result<(), ()>| #[trigger]
            self.poller().opens(&after.poller(), stream, after.stream(token), token, opened)
                && if opened is Ok {
                &&& after.history() == self.history().push(Event::Accept(token))
                &&& exists|payload: T::Connection| #[trigger]
                    self.handler().accepts(
                        &after.handler(),
                        SocketView::fresh(token, payload),
                        after.socket(token),
                    ) && requests_registered(
                        SocketView::fresh(token, payload),
                        queue,
                        after.socket(token),
                        queue_after,
                    )
            } else {
                &&& after.history() == self.history().push(Event::OpenFailed(token))
                &&& after.handler() == self.handler()
                &&& after.socket(token) == (SocketView {
                    state: SocketState::CloseRequest,
                    ..SocketView::fresh(token, after.socket(token).connection)
                })
                &&& queue_after == queue.push(token)
            }
    }

    /// Whether `after` with the queue at `queue_after` is `self` with the
    /// queue at `queue` once `accept` was called with `stream` and answered
    /// `Ok` (`accepted`) or `Err`: with no free token nothing changes and
    /// the answer is `Err`; otherwise the next free token is taken, one
    /// more connection is held, all others are as they were, and the new
    /// one is as `accept_step` says.
    pub open spec fn accept_post(
        &self,
        after: &Self,
        stream: S,
        queue: Seq<usize>,
        queue_after: Seq<usize>,
        accepted: bool,
    ) -> bool {
        match self.next_token() {
            None => !accepted && *after == *self && queue_after == queue,
            Some(t) => {
                &&& accepted
                &&& !self.occupied(t)
                &&& after.occupied(t)
                &&& after.same_but(self, t)
                &&& after.count() == self.count() + 1
                &&& self.accept_step(after, stream, t, queue, queue_after)
            },
        }
    }

    /// Takes a connection in, as `accept_post` says. When no token is free,
    /// the stream is dropped and nothing else happens.
    pub fn accept(&mut self, accepted_stream: S, registry: &mut Registry) -> (r: Result<(), ()>)
        where T::Connection: Default
        requires
            old(self).wf(old(registry)@),
            accepted_stream.inv(),
        ensures
            final(self).wf(final(registry)@),
            old(self).accept_post(
                final(self),
                accepted_stream,
                old(registry)@,
                final(registry)@,
                r is Ok,
            ),
            old(self).next_token().is_some() <==> old(self).count() < MAX,
    {
        let id = match self.sockets.peek_index() {
            Some(id) => id,
            None => {
                return Err(());
            },
        };
        let socket = Socket::new(id, T::Connection::default());
        let ghost payload = socket@.connection;
        match self.sockets.add(Entry { socket, stream: accepted_stream }) {
            Ok(_) => {},
            Err(_) => {
                return Err(());
            },
        }
        let ghost queue = registry@;
        assert(!queue.contains(id)) by {
            if queue.contains(id) {
                let i = choose|i: int| 0 <= i < queue.len() && queue[i] == id;
                assert(old(self).occupied(queue[i]));
            }
        }
        let entry = self.sockets.get_mut(id);
        let opened = self.poll.open(&mut entry.stream, id);
        let ghost stream_after = entry.stream;
        match opened {
            Ok(()) => {
                self.server.accept(&mut entry.socket, registry);
                proof {
                    self.history@ = self.history@.push(Event::Accept(id));
                }
            },
            Err(()) => {
                entry.socket.register_close_event(registry);
                proof {
                    self.history@ = self.history@.push(Event::OpenFailed(id));
                }
            },
        }
        proof {
            let h = old(self).history();
            assert(self.history().drop_last() =~= h);
            assert(self.stream(id) == stream_after);
            assert(old(self).poller().opens(
                &self.poller(),
                accepted_stream,
                self.stream(id),
                id,
                opened,
            ));
            if opened is Ok {
                assert(old(self).handler().accepts(
                    &self.handler(),
                    SocketView::fresh(id, payload),
                    self.socket(id),
                ) && requests_registered(SocketView::fresh(id, payload), queue, self.socket(id), registry@));
            }
            assert forall|t: usize| #[trigger] self.occupied(t) && t != id implies old(
                self,
            ).occupied(t) && self.socket(t) == old(self).socket(t) && self.stream(t) == old(
                self,
            ).stream(t) by {}
            assert(!old(self).occupied(id));
            self.lemma_record_in_step(
                old(self),
                id,
                Some(
                    if opened is Ok {
                        Event::Accept(id)
                    } else {
                        Event::OpenFailed(id)
                    },
                ),
            );
            assert(self.queue_wf(registry@)) by {
                assert forall|i: int| 0 <= i < registry@.len() implies self.occupied(
                    #[trigger] registry@[i],
                ) && self.socket(registry@[i]).state != SocketState::Idle by {
                    if i < queue.len() {
                        assert(old(self).occupied(queue[i]));
                        assert(queue[i] != id);
                    }
                }
                assert forall|t: usize| #[trigger]
                    self.occupied(t) && self.socket(t).state
                        != SocketState::Idle implies registry@.contains(t) by {
                    if t != id {
                        assert(old(self).occupied(t));
                        let i = choose|i: int| 0 <= i < queue.len() && queue[i] == t;
                        assert(registry@[i] == t);
                    } else {
                        assert(registry@[queue.len() as int] == id);
                    }
                }
            }
        }
        Ok(())
    }

    /// Whether `after` with the queue at `queue_after` is what serving the
    /// readiness of the connection at `token` makes of `self` with the
    /// queue at `queue`: the stream reads into the connection's read
    /// buffer, and then
    /// * if it hands bytes out, the handler's `read` runs on the connection
    ///   with what the stream brought in its read buffer;
    /// * if it waits for more bytes, nothing else happens;
    /// * if it asks for a flush or a close, that is registered for the
    ///   connection, and the handler is not called.
    pub open spec fn read_step(
        &self,
        after: &Self,
        token: usize,
        queue: Seq<usize>,
        queue_after: Seq<usize>,
    ) -> bool {
        exists|brought: CursorView, r: Result<(), ReadError>| #[trigger]
            self.stream(token).reads(
                &after.stream(token),
                self.socket(token).read_buf,
                brought,
                R,
                r,
            ) && {
                let arrived = SocketView { read_buf: brought, ..self.socket(token) };
                match r {
                    Ok(_) => after.history() == self.history().push(Event::Read(token))
                        && self.handler().reads(&after.handler(), arrived, after.socket(token))
                        && requests_registered(arrived, queue, after.socket(token), queue_after),
                    Err(ReadError::NotFullRead) => after.history() == self.history()
                        && after.handler() == self.handler() && after.socket(token) == arrived
                        && queue_after == queue,
                    Err(ReadError::FlushRequest) => after.history() == self.history()
                        && after.handler() == self.handler() && after.socket(token) == (
                    SocketView { state: arrived.state.after_flush_request(), ..arrived })
                        && queue_after == enqueued(queue, arrived.state, token),
                    Err(ReadError::CloseRequest) => after.history() == self.history()
                        && after.handler() == self.handler() && after.socket(token) == (
                    SocketView { state: SocketState::CloseRequest, ..arrived }) && queue_after
                        == enqueued(queue, arrived.state, token),
                }
            }
    }

    /// Whether `after` with the queue at `queue_after` is `self` with the
    /// queue at `queue` once `read` was called for `token`: a token that
    /// no connection holds changes nothing; otherwise the connection is
    /// served as `read_step` says, and the poller, the other connections
    /// and the free tokens are as they were.
    pub open spec fn read_post(
        &self,
        after: &Self,
        token: usize,
        queue: Seq<usize>,
        queue_after: Seq<usize>,
    ) -> bool {
        if self.occupied(token) {
            &&& after.occupied(token)
            &&& after.same_but(self, token)
            &&& after.next_token() == self.next_token()
            &&& after.count() == self.count()
            &&& after.poller() == self.poller()
            &&& self.read_step(after, token, queue, queue_after)
        } else {
            *after == *self && queue_after == queue
        }
    }

    /// Serves the readiness of `token` as `read_post` says.
    pub fn read(&mut self, token: usize, registry: &mut Registry)
        requires
            old(self).wf(old(registry)@),
        ensures
            final(self).wf(final(registry)@),
            old(self).read_post(final(self), token, old(registry)@, final(registry)@),
    {
        if !self.sockets.contains(token) {
            return ;
        }
        let ghost queue = registry@;
        assert(self.occupied(token));
        let entry = self.sockets.get_mut(token);
        let (read_buf, _write_buf, _connection) = entry.socket.parts();
        let r = entry.stream.read(read_buf);
        let ghost brought = read_buf@;
        let ghost stream_after = entry.stream;
        let ghost arrived = entry.socket@;
        match r {
            Ok(()) => {
                self.server.read(&mut entry.socket, registry);
                proof {
                    self.history@ = self.history@.push(Event::Read(token));
                }
            },
            Err(ReadError::NotFullRead) => {},
            Err(ReadError::FlushRequest) => {
                entry.socket.register_flush_event(registry);
            },
            Err(ReadError::CloseRequest) => {
                entry.socket.register_close_event(registry);
            },
        }
        proof {
            assert(old(self).occupied(token));
            assert(self.stream(token) == stream_after);
            assert(old(self).stream(token).reads(
                &self.stream(token),
                old(self).socket(token).read_buf,
                brought,
                R,
                r,
            ));
            assert(arrived == (SocketView { read_buf: brought, ..old(self).socket(token) }));
            assert forall|t: usize| #[trigger] self.occupied(t) && t != token implies old(
                self,
            ).occupied(t) && self.socket(t) == old(self).socket(t) && self.stream(t) == old(
                self,
            ).stream(t) by {}
            assert(self.slots_wf());
            self.lemma_record_in_step(
                old(self),
                token,
                if r is Ok {
                    Some(Event::Read(token))
                } else {
                    None
                },
            );
            assert(self.queue_wf(registry@)) by {
                assert forall|i: int| 0 <= i < registry@.len() implies self.occupied(
                    #[trigger] registry@[i],
                ) && self.socket(registry@[i]).state != SocketState::Idle by {
                    if i < queue.len() {
                        assert(old(self).occupied(queue[i]));
                        assert(old(self).socket(queue[i]).state != SocketState::Idle);
                    }
                }
                assert forall|t: usize| #[trigger]
                    self.occupied(t) && self.socket(t).state
                        != SocketState::Idle implies registry@.contains(t) by {
                    if t != token || old(self).socket(token).state != SocketState::Idle {
                        assert(old(self).occupied(t));
                        let i = choose|i: int| 0 <= i < queue.len() && queue[i] == t;
                        assert(registry@[i] == t);
                    } else {
                        assert(registry@[queue.len() as int] == token);
                    }
                }
                if registry@ != queue {
                    assert(!queue.contains(token)) by {
                        if queue.contains(token) {
                            let i = choose|i: int| 0 <= i < queue.len() && queue[i] == token;
                            assert(old(self).socket(queue[i]).state != SocketState::Idle);
                        }
                    }
                }
                assert(registry@.no_duplicates());
            }
        }
    }

    /// Whether `after` has the handler and the poller that closing the
    /// connection at `token` makes of those of `self`: the handler's
    /// `close` runs on the connection, and the poller deregisters its
    /// stream.
    pub open spec fn closing(&self, after: &Self, token: usize) -> bool {
        &&& exists|gone: SocketView<T::Connection>| #[trigger]
            self.handler().closes(&after.handler(), self.socket(token), gone)
        &&& exists|shut: S| #[trigger]
            self.poller().closes(&after.poller(), self.stream(token), shut)
    }

    /// Gives up the slot of `id`: the handler's `close` runs, the stream is
    /// deregistered and dropped, and the token becomes free.
    fn close_slot(&mut self, id: usize)
        requires
            old(self).slots_wf(),
            old(self).history_wf(),
            old(self).occupied(id),
        ensures
            final(self).slots_wf(),
            final(self).history_wf(),
            !final(self).occupied(id),
            final(self).same_but(old(self), id),
            final(self).history() == old(self).history().push(Event::Close(id)),
            final(self).count() == old(self).count() - 1,
            final(self).next_token() == Some(id),
            old(self).closing(final(self), id),
    {
        assert(self.occupied(id));
        let entry = self.sockets.get_mut(id);
        let ghost handed = entry.socket@;
        let ghost stream_before = entry.stream;
        self.server.close(&mut entry.socket);
        let ghost gone = entry.socket@;
        self.poll.close(&mut entry.stream);
        let ghost shut = entry.stream;
        let _ = self.sockets.remove(id);
        proof {
            assert(old(self).handler().closes(&self.handler(), old(self).socket(id), gone));
            assert(old(self).poller().closes(&self.poller(), old(self).stream(id), shut));
            self.history@ = self.history@.push(Event::Close(id));
            assert forall|t: usize| #[trigger] self.occupied(t) implies old(self).occupied(t)
                && self.socket(t) == old(self).socket(t) && self.stream(t) == old(self).stream(
                t,
            ) by {}
            self.lemma_record_in_step(old(self), id, Some(Event::Close(id)));
            assert(old(self).handler().closes(&self.handler(), old(self).socket(id), gone));
            assert(old(self).poller().closes(&self.poller(), old(self).stream(id), shut));
            assert(old(self).closing(self, id));
        }
    }

    /// The tokens whose connections have asked for a flush.
    pub open spec fn flush_requests(&self) -> Set<usize> {
        Set::new(|t: usize| self.occupied(t) && self.socket(t).state == SocketState::WriteRequest)
    }

    /// The tokens that were held in `before` and are free in `self`.
    pub open spec fn closed_since(&self, before: &Self) -> Set<usize> {
        Set::new(|t: usize| before.occupied(t) && !self.occupied(t))
    }

    /// Whether the drain makes `socket_after` and `stream_after` of a
    /// connection that was `socket` over `stream` and had asked for a
    /// flush, and whether the connection `survived`: the handler's `flush`
    /// runs on the connection put back to `Idle`; if it asks for a close,
    /// or leaves the write buffer empty, the connection is closed;
    /// otherwise the write buffer is handed to the stream, and the
    /// connection survives, idle, exactly if the stream takes it.
    pub open spec fn flush_served(
        socket: SocketView<T::Connection>,
        stream: S,
        survived: bool,
        socket_after: SocketView<T::Connection>,
        stream_after: S,
    ) -> bool {
        exists|handler: T, flushed_by: T, flushed: SocketView<T::Connection>| #[trigger]
            handler.flushes(
                &flushed_by,
                (SocketView { state: SocketState::Idle, ..socket }),
                flushed,
            ) && if flushed.state == SocketState::CloseRequest || flushed.write_buf.remaining()
                == 0 {
                !survived
            } else {
                exists|took: Result<(), ()>, left: CursorView, taken: S| #[trigger]
                    stream.writes(&taken, flushed.write_buf, left, W, took) && survived == (took
                        is Ok) && (survived ==> socket_after == (SocketView {
                        write_buf: left,
                        ..flushed
                    }) && stream_after == taken)
            }
    }

    /// Whether the connection at `token` was closed as it is owed: the
    /// handler's `close` ran on it, marked for closing, and the poller
    /// deregistered a stream.
    pub open spec fn close_served(token: usize) -> bool {
        &&& exists|
            handler: T,
            after: T,
            handed: SocketView<T::Connection>,
            gone: SocketView<T::Connection>,
        | #[trigger]
            handler.closes(&after, handed, gone) && handed.token == token && handed.state
                == SocketState::CloseRequest
        &&& exists|poller: P, after: P, stream: S, shut: S| #[trigger]
            poller.closes(&after, stream, shut)
    }

    /// A connection that did not survive its flush is served whatever is
    /// said of what it left.
    proof fn lemma_flush_served_gone(
        socket: SocketView<T::Connection>,
        stream: S,
        socket_after: SocketView<T::Connection>,
        stream_after: S,
        other_socket: SocketView<T::Connection>,
        other_stream: S,
    )
        requires
            Self::flush_served(socket, stream, false, socket_after, stream_after),
        ensures
            Self::flush_served(socket, stream, false, other_socket, other_stream),
    {
        let (handler, flushed_by, flushed) = choose|
            handler: T,
            flushed_by: T,
            flushed: SocketView<T::Connection>,
        | #[trigger]
            handler.flushes(
                &flushed_by,
                (SocketView { state: SocketState::Idle, ..socket }),
                flushed,
            ) && if flushed.state == SocketState::CloseRequest || flushed.write_buf.remaining()
                == 0 {
                true
            } else {
                exists|took: Result<(), ()>, left: CursorView, taken: S| #[trigger]
                    stream.writes(&taken, flushed.write_buf, left, W, took) && false == (took
                        is Ok) && (false ==> socket_after == (SocketView {
                        write_buf: left,
                        ..flushed
                    }) && stream_after == taken)
            };
        if !(flushed.state == SocketState::CloseRequest || flushed.write_buf.remaining() == 0) {
            let (took, left, taken) = choose|
                took: Result<(), ()>,
                left: CursorView,
                taken: S,
            | #[trigger]
                stream.writes(&taken, flushed.write_buf, left, W, took) && false == (took is Ok);
            assert(stream.writes(&taken, flushed.write_buf, left, W, took) && false == (took
                is Ok) && (false ==> other_socket == (SocketView { write_buf: left, ..flushed })
                && other_stream == taken));
        }
        assert(handler.flushes(
            &flushed_by,
            (SocketView { state: SocketState::Idle, ..socket }),
            flushed,
        ));
    }

    /// Whether `after` is what a drain of the queue `queue` makes of
    /// `self`:
    /// * only connections that were held are held, and they are idle;
    /// * a connection that was idle is as it was;
    /// * a connection that had asked for a close is closed;
    /// * a connection that had asked for a flush is served as
    ///   `flush_served` says;
    /// * every connection that is gone was closed as `close_served` says,
    ///   and the number of connections held has gone down by their number;
    /// * the record is extended by what `drain_record` gives for the queue.
    pub open spec fn drain_post(&self, after: &Self, queue: Seq<usize>) -> bool {
        &&& forall|t: usize| #[trigger]
            after.occupied(t) ==> self.occupied(t) && after.socket(t).state == SocketState::Idle
        &&& forall|t: usize| #[trigger]
            self.occupied(t) && self.socket(t).state == SocketState::Idle ==> after.occupied(t)
                && after.socket(t) == self.socket(t) && after.stream(t) == self.stream(t)
        &&& forall|t: usize| #[trigger]
            self.occupied(t) && self.socket(t).state == SocketState::CloseRequest
                ==> !after.occupied(t)
        &&& forall|t: usize| #[trigger]
            self.occupied(t) && self.socket(t).state == SocketState::WriteRequest
                ==> Self::flush_served(
                self.socket(t),
                self.stream(t),
                after.occupied(t),
                after.socket(t),
                after.stream(t),
            )
        &&& forall|t: usize| #[trigger]
            self.occupied(t) && !after.occupied(t) ==> Self::close_served(t)
        &&& after.closed_since(self).finite()
        &&& after.count() == self.count() - after.closed_since(self).len()
        &&& after.history() == self.history() + drain_record(
            queue,
            self.flush_requests(),
            after.closed_since(self),
        )
    }

    /// Serves the queue at the end of an iteration, in its order, as
    /// `drain_post` says, and empties it.
    pub fn flush_registry(&mut self, registry: &mut Registry)
        requires
            old(self).wf(old(registry)@),
        ensures
            final(self).wf(Seq::empty()),
            final(registry)@ == Seq::<usize>::empty(),
            old(self).drain_post(final(self), old(registry)@),
    {
        let len = registry.len();
        let ghost queue = registry@;
        let ghost flushes = self.flush_requests();
        let ghost mut closed: Set<usize> = Set::empty();
        let mut ind: usize = 0;
        assert(queue.take(0) =~= Seq::<usize>::empty());
        assert(self.history() =~= old(self).history() + Seq::<Event>::empty());
        while ind < len
            invariant
                ind <= len == queue.len(),
                registry@ == queue,
                old(self).wf(queue),
                flushes == old(self).flush_requests(),
                self.slots_wf(),
                self.history_wf(),
                closed.finite(),
                self.count() == old(self).count() - closed.len(),
                forall|t: usize| #[trigger] self.occupied(t) ==> old(self).occupied(t),
                forall|t: usize|
                    closed.contains(t) <==> (#[trigger] old(self).occupied(t) && !self.occupied(t)),
                forall|t: usize| closed.contains(t) ==> #[trigger] Self::close_served(t),
                forall|i: int|
                    ind <= i < len ==> self.occupied(#[trigger] queue[i]) && self.socket(queue[i])
                        == old(self).socket(queue[i]) && self.stream(queue[i]) == old(
                        self,
                    ).stream(queue[i]),
                forall|i: int|
                    0 <= i < ind ==> (self.occupied(#[trigger] queue[i]) ==> self.socket(
                        queue[i],
                    ).state == SocketState::Idle) && (old(self).socket(queue[i]).state
                        == SocketState::CloseRequest ==> !self.occupied(queue[i])),
                forall|t: usize| #[trigger]
                    old(self).occupied(t) && old(self).socket(t).state == SocketState::Idle
                        ==> self.occupied(t) && self.socket(t) == old(self).socket(t)
                        && self.stream(t) == old(self).stream(t),
                forall|i: int|
                    0 <= i < ind && old(self).socket(#[trigger] queue[i]).state
                        == SocketState::WriteRequest ==> Self::flush_served(
                        old(self).socket(queue[i]),
                        old(self).stream(queue[i]),
                        self.occupied(queue[i]),
                        self.socket(queue[i]),
                        self.stream(queue[i]),
                    ),
                self.history() == old(self).history() + drain_record(
                    queue.take(ind as int),
                    flushes,
                    closed,
                ),
            decreases len - ind,
        {
            let id = registry.get(ind);
            let ghost before = *self;
            let ghost closed_before = closed;
            assert(self.occupied(queue[ind as int]));
            assert(old(self).occupied(id) && old(self).socket(id).state != SocketState::Idle);
            let state = self.sockets.get(id).socket.state();
            match state {
                SocketState::Idle => {},
                SocketState::WriteRequest => {
                    let survived = self.flush_one(id);
                    proof {
                        if !survived {
                            closed = closed.insert(id);
                        }
                    }
                },
                SocketState::CloseRequest => {
                    self.close_slot(id);
                    proof {
                        closed = closed.insert(id);
                        let (gone, shut) = before.lemma_closing_witness(self, id);
                        assert(before.handler().closes(
                            &self.handler(),
                            before.socket(id),
                            gone,
                        ) && before.socket(id).token == id && before.socket(id).state
                            == SocketState::CloseRequest);
                        assert(before.poller().closes(&self.poller(), before.stream(id), shut));
                        assert(Self::close_served(id));
                    }
                },
            }
            proof {
                assert(!closed_before.contains(id));
                let next = queue.take(ind + 1);
                assert(next.drop_last() =~= queue.take(ind as int));
                assert(next.last() == id);
                assert forall|i: int| 0 <= i < queue.take(ind as int).len() implies (
                closed_before.contains(queue.take(ind as int)[i]) <==> closed.contains(
                    queue.take(ind as int)[i],
                )) by {
                    assert(queue[i] != queue[ind as int]);
                }
                lemma_drain_record_congruent(queue.take(ind as int), flushes, closed_before, closed);
                assert(flushes.contains(id) <==> old(self).socket(id).state
                    == SocketState::WriteRequest);
                assert(self.history() =~= old(self).history() + drain_record(next, flushes, closed));
                assert forall|t: usize| #[trigger]
                    self.occupied(t) && t != id implies before.occupied(t) && self.socket(t)
                    == before.socket(t) && self.stream(t) == before.stream(t) by {}
                assert forall|t: usize| t != id implies (before.occupied(t)
                    <==> #[trigger] self.occupied(t)) by {}
                assert forall|i: int| ind + 1 <= i < len implies self.occupied(
                    #[trigger] queue[i],
                ) && self.socket(queue[i]) == old(self).socket(queue[i]) && self.stream(queue[i])
                    == old(self).stream(queue[i]) by {
                    assert(queue[i] != queue[ind as int]);
                    assert(before.occupied(queue[i]));
                    assert(before.occupied(queue[i]) <==> self.occupied(queue[i]));
                }
                assert forall|i: int|
                    0 <= i < ind + 1 && old(self).socket(#[trigger] queue[i]).state
                        == SocketState::WriteRequest implies Self::flush_served(
                    old(self).socket(queue[i]),
                    old(self).stream(queue[i]),
                    self.occupied(queue[i]),
                    self.socket(queue[i]),
                    self.stream(queue[i]),
                ) by {
                    if i < ind {
                        assert(queue[i] != queue[ind as int]);
                        assert(before.occupied(queue[i]) <==> self.occupied(queue[i]));
                        if before.occupied(queue[i]) {
                            assert(self.socket(queue[i]) == before.socket(queue[i]));
                            assert(self.stream(queue[i]) == before.stream(queue[i]));
                        } else {
                            Self::lemma_flush_served_gone(
                                old(self).socket(queue[i]),
                                old(self).stream(queue[i]),
                                before.socket(queue[i]),
                                before.stream(queue[i]),
                                self.socket(queue[i]),
                                self.stream(queue[i]),
                            );
                        }
                    }
                }
                assert forall|i: int| 0 <= i < ind + 1 implies (self.occupied(
                    #[trigger] queue[i],
                ) ==> self.socket(queue[i]).state == SocketState::Idle) && (old(self).socket(
                    queue[i],
                ).state == SocketState::CloseRequest ==> !self.occupied(queue[i])) by {
                    if i < ind {
                        assert(queue[i] != queue[ind as int]);
                        assert(before.occupied(queue[i]) <==> self.occupied(queue[i]));
                    }
                }
                assert forall|t: usize| #[trigger]
                    old(self).occupied(t) && old(self).socket(t).state
                        == SocketState::Idle implies self.occupied(t) && self.socket(t) == old(
                    self,
                ).socket(t) && self.stream(t) == old(self).stream(t) by {
                    assert(t != id);
                    assert(before.occupied(t));
                    assert(before.occupied(t) <==> self.occupied(t));
                }
                assert forall|t: usize|
                    closed.contains(t) <==> (#[trigger] old(self).occupied(t) && !self.occupied(
                        t,
                    )) by {
                    if t != id {
                        assert(before.occupied(t) <==> self.occupied(t));
                    }
                }
                assert forall|t: usize| #[trigger] self.occupied(t) implies old(self).occupied(
                    t,
                ) by {
                    if t != id {
                        assert(before.occupied(t));
                    }
                }
            }
            ind = ind + 1;
        }
        registry.clear();
        proof {
            assert(queue.take(len as int) =~= queue);
            assert(closed =~= self.closed_since(old(self)));
            assert forall|t: usize| #[trigger]
                old(self).occupied(t) && old(self).socket(t).state
                    == SocketState::WriteRequest implies Self::flush_served(
                old(self).socket(t),
                old(self).stream(t),
                self.occupied(t),
                self.socket(t),
                self.stream(t),
            ) by {
                assert(queue.contains(t));
                let i = choose|i: int| 0 <= i < queue.len() && queue[i] == t;
                assert(old(self).socket(queue[i]).state == SocketState::WriteRequest);
            }
            assert forall|t: usize| #[trigger] self.occupied(t) implies self.socket(t).state
                == SocketState::Idle by {
                assert(old(self).occupied(t));
                if old(self).socket(t).state != SocketState::Idle {
                    assert(queue.contains(t));
                    let i = choose|i: int| 0 <= i < queue.len() && queue[i] == t;
                    assert(self.occupied(queue[i]));
                }
            }
            assert forall|t: usize| #[trigger]
                old(self).occupied(t) && old(self).socket(t).state
                    == SocketState::CloseRequest implies !self.occupied(t) by {
                assert(queue.contains(t));
                let i = choose|i: int| 0 <= i < queue.len() && queue[i] == t;
                assert(old(self).socket(queue[i]).state == SocketState::CloseRequest);
            }
            assert forall|t: usize| #[trigger]
                old(self).occupied(t) && !self.occupied(t) implies Self::close_served(t) by {
                assert(closed.contains(t));
            }
            assert(old(self).drain_post(self, queue));
        }
    }

    /// The witnesses of a closing.
    proof fn lemma_closing_witness(&self, after: &Self, token: usize) -> (w: (
        SocketView<T::Connection>,
        S,
    ))
        requires
            self.closing(after, token),
        ensures
            self.handler().closes(&after.handler(), self.socket(token), w.0),
            self.poller().closes(&after.poller(), self.stream(token), w.1),
    {
        let gone = choose|gone: SocketView<T::Connection>| #[trigger]
            self.handler().closes(&after.handler(), self.socket(token), gone);
        let shut = choose|shut: S| #[trigger]
            self.poller().closes(&after.poller(), self.stream(token), shut);
        (gone, shut)
    }

    /// Serves the flush that the connection at `id` asked for, and answers
    /// whether the connection survived it.
    fn flush_one(&mut self, id: usize) -> (survived: bool)
        requires
            old(self).slots_wf(),
            old(self).history_wf(),
            old(self).occupied(id),
            old(self).socket(id).state == SocketState::WriteRequest,
        ensures
            final(self).slots_wf(),
            final(self).history_wf(),
            final(self).same_but(old(self), id),
            survived == final(self).occupied(id),
            survived ==> final(self).socket(id).state == SocketState::Idle,
            !survived ==> Self::close_served(id),
            final(self).count() == old(self).count() - if survived {
                0int
            } else {
                1int
            },
            final(self).history() == old(self).history() + drain_steps(id, true, !survived),
            Self::flush_served(
                old(self).socket(id),
                old(self).stream(id),
                survived,
                final(self).socket(id),
                final(self).stream(id),
            ),
    {
        assert(self.occupied(id));
        let entry = self.sockets.get_mut(id);
        entry.socket.settle();
        let ghost handed = entry.socket@;
        let ghost handler_before = self.server;
        self.server.flush(&mut entry.socket);
        let ghost flushed = entry.socket@;
        let ghost flushed_by = self.server;
        proof {
            self.history@ = self.history@.push(Event::Flush(id));
        }
        let asked = entry.socket.state();
        let ghost stream_before = entry.stream;
        let (_read_buf, write_buf, _connection) = entry.socket.parts();
        let mut took: Result<(), ()> = Err(());
        let mut written = false;
        if asked != SocketState::CloseRequest && write_buf.remaining() != 0 {
            took = entry.stream.write(write_buf);
            written = true;
        }
        let ghost left = write_buf@;
        let ghost taken = entry.stream;
        let ghost after_write = *self;
        proof {
            assert(handed == (SocketView { state: SocketState::Idle, ..old(self).socket(id) }));
            assert(handler_before.flushes(&flushed_by, handed, flushed));
            assert(stream_before == old(self).stream(id));
            assert(written ==> stream_before.writes(&taken, flushed.write_buf, left, W, took));
            assert forall|t: usize| #[trigger]
                self.occupied(t) && t != id implies old(self).occupied(t) && self.socket(t)
                == old(self).socket(t) && self.stream(t) == old(self).stream(t) by {}
            self.lemma_record_in_step(old(self), id, Some(Event::Flush(id)));
            assert(self.socket(id) == (SocketView { write_buf: left, ..flushed }));
            assert(self.stream(id) == taken);
            assert(self.slots_wf());
        }
        match took {
            Ok(()) => {
                proof {
                    assert(written);
                    assert(stream_before.writes(&taken, flushed.write_buf, left, W, took)
                        && true == (took is Ok));
                    assert(self.history() =~= old(self).history() + drain_steps(id, true, false));
                }
                true
            },
            Err(()) => {
                let entry = self.sockets.get_mut(id);
                entry.socket.close_now();
                let ghost condemned = *self;
                proof {
                    assert forall|t: usize| #[trigger]
                        self.occupied(t) && t != id implies after_write.occupied(t)
                        && self.socket(t) == after_write.socket(t) && self.stream(t)
                        == after_write.stream(t) by {}
                    self.lemma_record_in_step(&after_write, id, None);
                    assert(self.slots_wf());
                }
                self.close_slot(id);
                proof {
                    let (gone, shut) = condemned.lemma_closing_witness(self, id);
                    assert(condemned.handler().closes(
                        &self.handler(),
                        condemned.socket(id),
                        gone,
                    ) && condemned.socket(id).token == id && condemned.socket(id).state
                        == SocketState::CloseRequest);
                    assert(condemned.poller().closes(
                        &self.poller(),
                        condemned.stream(id),
                        shut,
                    ));
                    assert(Self::close_served(id));
                    assert forall|t: usize| t != id implies (#[trigger] self.occupied(t) <==> old(
                        self,
                    ).occupied(t)) && (self.occupied(t) ==> self.socket(t) == old(self).socket(t)
                        && self.stream(t) == old(self).stream(t)) by {
                        assert(condemned.occupied(t) <==> self.occupied(t));
                        assert(after_write.occupied(t) <==> condemned.occupied(t));
                        assert(old(self).occupied(t) <==> after_write.occupied(t));
                    }
                    assert(self.history() =~= old(self).history() + drain_steps(id, true, true));
                    if written {
                        assert(stream_before.writes(&taken, flushed.write_buf, left, W, took)
                            && false == (took is Ok));
                    }
                    assert(handler_before.flushes(&flushed_by, handed, flushed));
                }
                false
            },
        }
    }

    /// Whether `after` with the queue at `queue_after` is `self` with the
    /// queue at `queue` once `close` was called for `id`: a token that no
    /// connection holds changes nothing; otherwise the handler's `close`
    /// runs, the stream is deregistered, the slot is given up, one
    /// connection less is held, and a request that the connection had
    /// queued is withdrawn.
    pub open spec fn close_post(
        &self,
        after: &Self,
        id: usize,
        queue: Seq<usize>,
        queue_after: Seq<usize>,
    ) -> bool {
        if self.occupied(id) {
            &&& !after.occupied(id)
            &&& after.same_but(self, id)
            &&& after.history() == self.history().push(Event::Close(id))
            &&& after.count() == self.count() - 1
            &&& after.next_token() == Some(id)
            &&& queue_after == queue.remove_value(id)
            &&& self.closing(after, id)
        } else {
            *after == *self && queue_after == queue
        }
    }

    /// Closes the connection that holds `id` at once, as `close_post`
    /// says.
    pub fn close(&mut self, id: usize, registry: &mut Registry)
        requires
            old(self).wf(old(registry)@),
        ensures
            final(self).wf(final(registry)@),
            old(self).close_post(final(self), id, old(registry)@, final(registry)@),
    {
        let ghost queue = registry@;
        proof {
            queue.index_of_first_ensures(id);
        }
        if !self.sockets.contains(id) {
            proof {
                if queue.contains(id) {
                    let i = choose|i: int| 0 <= i < queue.len() && queue[i] == id;
                    assert(self.occupied(queue[i]));
                }
            }
            return ;
        }
        self.close_slot(id);
        registry.withdraw(id);
        proof {
            let after = registry@;
            assert forall|t: usize| t != id implies (old(self).occupied(t)
                <==> #[trigger] self.occupied(t)) by {}
            match queue.index_of_first(id) {
                Some(at) => {
                    assert forall|k: int| 0 <= k < after.len() implies #[trigger] after[k]
                        == queue[if k < at {
                        k
                    } else {
                        k + 1
                    }] by {}
                    assert forall|k: int| 0 <= k < after.len() implies #[trigger] after[k] != id by {
                        let j = if k < at {
                            k
                        } else {
                            k + 1
                        };
                        assert(queue[j] != queue[at]);
                    }
                    assert forall|k: int| 0 <= k < after.len() implies self.occupied(
                        #[trigger] after[k],
                    ) && self.socket(after[k]).state != SocketState::Idle by {
                        let j = if k < at {
                            k
                        } else {
                            k + 1
                        };
                        assert(old(self).occupied(queue[j]));
                        assert(old(self).occupied(after[k]) <==> self.occupied(after[k]));
                    }
                    assert forall|t: usize| #[trigger]
                        self.occupied(t) && self.socket(t).state
                            != SocketState::Idle implies after.contains(t) by {
                        assert(old(self).occupied(t));
                        let j = choose|j: int| 0 <= j < queue.len() && queue[j] == t;
                        let k = if j < at {
                            j
                        } else {
                            j - 1
                        };
                        assert(after[k] == t);
                    }
                    assert(after.no_duplicates()) by {
                        assert forall|a: int, b: int|
                            0 <= a < after.len() && 0 <= b < after.len() && a != b implies after[a]
                            != after[b] by {
                            let ja = if a < at {
                                a
                            } else {
                                a + 1
                            };
                            let jb = if b < at {
                                b
                            } else {
                                b + 1
                            };
                            assert(queue[ja] != queue[jb]);
                        }
                    }
                },
                None => {
                    assert forall|k: int| 0 <= k < after.len() implies self.occupied(
                        #[trigger] after[k],
                    ) && self.socket(after[k]).state != SocketState::Idle by {
                        assert(old(self).occupied(queue[k]));
                        assert(queue[k] != id);
                        assert(old(self).occupied(after[k]) <==> self.occupied(after[k]));
                    }
                    assert forall|t: usize| #[trigger]
                        self.occupied(t) && self.socket(t).state
                            != SocketState::Idle implies after.contains(t) by {
                        assert(old(self).occupied(t));
                    }
                },
            }
        }
    }

    /// The queue never holds more tokens than there are slots: each token
    /// in it is below `MAX` and none is there twice.
    pub proof fn lemma_queue_bounded(&self, queue: Seq<usize>)
        requires
            self.wf(queue),
        ensures
            queue.len() <= MAX,
            queue.no_duplicates(),
            forall|i: int| 0 <= i < queue.len() ==> #[trigger] queue[i] < MAX,
    {
        assert forall|i: int| 0 <= i < queue.len() implies #[trigger] queue[i] < MAX by {
            assert(self.occupied(queue[i]));
        }
        let as_ints = queue.map_values(|v: usize| v as int);
        assert(as_ints.no_duplicates()) by {
            assert forall|a: int, b: int|
                0 <= a < as_ints.len() && 0 <= b < as_ints.len() && a != b implies as_ints[a]
                != as_ints[b] by {
                assert(queue[a] != queue[b]);
            }
        }
        as_ints.unique_seq_to_set();
        let range = vstd::set_lib::set_int_range(0, MAX as int);
        vstd::set_lib::lemma_int_range(0, MAX as int);
        assert(as_ints.to_set().subset_of(range)) by {
            assert forall|v: int| as_ints.to_set().contains(v) implies range.contains(v) by {
                let k = choose|k: int| 0 <= k < as_ints.len() && as_ints[k] == v;
                assert(queue[k] as int == v);
            }
        }
        vstd::set_lib::lemma_len_subset(as_ints.to_set(), range);
    }

    /// A selector that differs from one in order by its handler alone is
    /// in order with the same queue.
    pub proof fn lemma_kept_wf(&self, after: &Self, queue: Seq<usize>)
        requires
            self.wf(queue),
            self.kept_but_handler(after),
        ensures
            after.wf(queue),
    {
        assert forall|t: usize| #[trigger] after.occupied(t) implies self.occupied(t) by {}
        assert forall|i: int| 0 <= i < queue.len() implies after.occupied(#[trigger] queue[i])
            && after.socket(queue[i]).state != SocketState::Idle by {
            assert(self.occupied(queue[i]));
            assert(after.occupied(queue[i]) <==> self.occupied(queue[i]));
        }
        assert forall|t: usize| live(after.history()).contains(t) <==> #[trigger] after.occupied(
            t,
        ) by {
            assert(after.occupied(t) <==> self.occupied(t));
        }
    }

    /// Whether `after` with the queue at `queue_after` is what serving the
    /// readiness `event` makes of `self` with the queue at `queue`: a
    /// connection that the listener handed out is accepted, a token is
    /// served a read.
    pub open spec fn event_post(
        &self,
        after: &Self,
        event: Readiness<S>,
        queue: Seq<usize>,
        queue_after: Seq<usize>,
    ) -> bool {
        match event {
            Readiness::Accepted(stream) => self.accept_post(
                after,
                stream,
                queue,
                queue_after,
                self.next_token().is_some(),
            ),
            Readiness::Readable(token) => self.read_post(after, token, queue, queue_after),
        }
    }

    /// Whether `states` and `queues` are the selectors and the queues that
    /// serving `events` one after the other goes through: one more than
    /// there are events, each the outcome of serving one event on the one
    /// before.
    pub open spec fn chained(
        states: Seq<Self>,
        queues: Seq<Seq<usize>>,
        events: Seq<Readiness<S>>,
    ) -> bool {
        &&& states.len() == events.len() + 1
        &&& queues.len() == events.len() + 1
        &&& forall|i: int|
            0 <= i < events.len() ==> (#[trigger] states[i]).event_post(
                &states[i + 1],
                events[i],
                queues[i],
                queues[i + 1],
            )
    }

    /// Whether `after` with the queue at `queue_after` is what serving
    /// `events` one after the other makes of `self` with the queue at
    /// `queue`.
    pub open spec fn served_events(
        &self,
        after: &Self,
        events: Seq<Readiness<S>>,
        queue: Seq<usize>,
        queue_after: Seq<usize>,
    ) -> bool {
        exists|states: Seq<Self>, queues: Seq<Seq<usize>>| #[trigger]
            Self::chained(states, queues, events) && states[0] == *self && queues[0] == queue
                && states.last() == *after && queues.last() == queue_after
    }

    /// Whether `after` is what one iteration makes of `self` with the
    /// queue at `queue`: first the handler ticks if `tick_due`, then every
    /// readiness of `events` is served in order, and at the end, after all
    /// reads, the queue is drained.
    pub open spec fn iterated(
        &self,
        after: &Self,
        tick_due: bool,
        events: Seq<Readiness<S>>,
        queue: Seq<usize>,
    ) -> bool {
        exists|ticked: Self, last: Self, last_queue: Seq<usize>| #[trigger]
            ticked.served_events(&last, events, queue, last_queue) && (if tick_due {
                self.tick_post(&ticked)
            } else {
                ticked == *self
            }) && last.drain_post(after, last_queue)
    }

    /// One iteration of the server loop, after the poller was asked, as
    /// `iterated` says.
    pub fn iterate(&mut self, tick_due: bool, events: Vec<Readiness<S>>, registry: &mut Registry)
        where T::Connection: Default
        requires
            old(self).wf(old(registry)@),
            forall|i: int|
                0 <= i < events@.len() ==> (#[trigger] events@[i] matches Readiness::Accepted(
                    stream,
                ) ==> stream.inv()),
        ensures
            final(self).wf(Seq::empty()),
            final(registry)@ == Seq::<usize>::empty(),
            old(self).iterated(final(self), tick_due, events@, old(registry)@),
    {
        let ghost start_queue = registry@;
        let ghost batch = events@;
        if tick_due {
            self.tick();
            proof {
                old(self).lemma_kept_wf(self, start_queue);
            }
        }
        let ghost ticked = *self;
        let mut events = events;
        let mut rest = events.len();
        let ghost mut done: int = 0;
        let ghost mut states: Seq<Self> = seq![ticked];
        let ghost mut queues: Seq<Seq<usize>> = seq![start_queue];
        proof {
            assert(batch.take(0) =~= Seq::<Readiness<S>>::empty());
            assert(batch.skip(0) =~= batch);
        }
        while rest > 0
            invariant
                rest == events@.len(),
                0 <= done <= batch.len(),
                events@ == batch.skip(done),
                self.wf(registry@),
                forall|i: int|
                    0 <= i < batch.len() ==> (#[trigger] batch[i] matches Readiness::Accepted(
                        stream,
                    ) ==> stream.inv()),
                Self::chained(states, queues, batch.take(done)),
                states[0] == ticked,
                queues[0] == start_queue,
                states.last() == *self,
                queues.last() == registry@,
            decreases rest,
        {
            let ghost mid = *self;
            let ghost mid_queue = registry@;
            assert(events@[0] == batch[done]);
            let event = events.remove(0);
            rest = rest - 1;
            match event {
                Readiness::Accepted(stream) => {
                    let _dropped_when_full = self.accept(stream, registry);
                },
                Readiness::Readable(token) => {
                    self.read(token, registry);
                },
            }
            proof {
                assert(mid.event_post(self, batch[done], mid_queue, registry@));
                let before_states = states;
                let before_queues = queues;
                states = states.push(*self);
                queues = queues.push(registry@);
                let served = batch.take(done + 1);
                assert forall|i: int| 0 <= i < served.len() implies (#[trigger] states[i]).event_post(
                    &states[i + 1],
                    served[i],
                    queues[i],
                    queues[i + 1],
                ) by {
                    if i < done {
                        assert(states[i] == before_states[i]);
                        assert(states[i + 1] == before_states[i + 1]);
                        assert(before_states[i].event_post(
                            &before_states[i + 1],
                            batch.take(done)[i],
                            before_queues[i],
                            before_queues[i + 1],
                        ));
                    } else {
                        assert(states[i] == mid);
                    }
                }
                assert(events@ =~= batch.skip(done + 1));
                done = done + 1;
            }
        }
        let ghost last = *self;
        let ghost last_queue = registry@;
        proof {
            assert(batch.take(done) =~= batch);
        }
        self.flush_registry(registry);
        proof {
            assert(Self::chained(states, queues, batch) && states[0] == ticked && queues[0]
                == start_queue && states.last() == last && queues.last() == last_queue);
            assert(ticked.served_events(&last, batch, start_queue, last_queue) && (if tick_due {
                old(self).tick_post(&ticked)
            } else {
                ticked == *old(self)
            }) && last.drain_post(self, last_queue));
            assert(old(self).iterated(self, tick_due, batch, start_queue));
        }
    }
}

/// What the poller reported for one source.
pub enum Readiness<S> {
    /// The listener was readable and handed out this connection.
    Accepted(S),
    /// The connection under this token is readable.
    Readable(usize),
}

} // verus!
