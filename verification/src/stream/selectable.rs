//! Streams that a selector holds by index, each with the request that is
//! pending for it, and the queue in which requests await the end of the
//! iteration.

use crate::cursor::{Cursor, CursorView};
use crate::selector::Readiness;
use crate::slab::Slab;
use crate::stream::{Close, Flush, Layer, PollRead, Tick, Write};
use crate::websocket::ReadError;
use vstd::prelude::*;

verus! {

/// The index under which a selector holds a value of type `T`.
pub struct Id<T> {
    pub index: usize,
    pub marker: core::marker::PhantomData<T>,
}

impl<T> Id<T> {
    /// The id for `index`.
    pub fn from(index: usize) -> (id: Self)
        ensures
            id.index == index,
    {
        Id { index, marker: core::marker::PhantomData }
    }

    /// A second id for the same index.
    pub fn clone(&self) -> (id: Self)
        ensures
            id.index == self.index,
    {
        Id { index: self.index, marker: core::marker::PhantomData }
    }
}

/// What is pending for a held stream.
#[derive(Debug, Clone, Copy, PartialEq, Eq, Structural)]
pub enum SelectorState {
    /// Nothing is pending.
    Idle,
    /// The stream was closed.
    Closed,
    /// The stream is to be closed at the end of the iteration.
    CloseRequested,
    /// The stream is to be flushed at the end of the iteration.
    FlushRequested,
}

impl Default for SelectorState {
    fn default() -> (s: Self)
        ensures
            s == SelectorState::Idle,
    {
        SelectorState::Idle
    }
}

impl SelectorState {
    /// Whether the state stands for an entry in the queue.
    pub open spec fn queued(self) -> bool {
        self == SelectorState::CloseRequested || self == SelectorState::FlushRequested
    }

    /// The state after a flush was asked for: only an idle stream takes
    /// the request.
    pub open spec fn after_flush_request(self) -> SelectorState {
        if self == SelectorState::Idle {
            SelectorState::FlushRequested
        } else {
            self
        }
    }

    /// The state after a close was asked for: a closed stream stays
    /// closed, any other awaits its close.
    pub open spec fn after_close_request(self) -> SelectorState {
        if self == SelectorState::Closed {
            SelectorState::Closed
        } else {
            SelectorState::CloseRequested
        }
    }
}

/// A stream with the request that is pending for it.
pub struct SelectableChannel<T> {
    pub stream: T,
    pub state: SelectorState,
}

impl<T: Layer> Layer for SelectableChannel<T> {
    open spec fn inv(&self) -> bool {
        self.stream.inv()
    }
}

impl<T: Layer> SelectableChannel<T> {
    /// An idle channel on `value`.
    pub fn from(value: T) -> (c: Self)
        requires
            value.inv(),
        ensures
            c.inv(),
            c.stream == value,
            c.state == SelectorState::Idle,
    {
        SelectableChannel { stream: value, state: SelectorState::Idle }
    }
}

impl<T: Write> Write for SelectableChannel<T> {
    /// Writing is the business of the stream; what is pending stays.
    open spec fn writes(
        &self,
        after: &Self,
        buf: CursorView,
        buf_after: CursorView,
        capacity: usize,
        r: Result<(), ()>,
    ) -> bool {
        self.stream.writes(&after.stream, buf, buf_after, capacity, r) && after.state
            == self.state
    }

    fn write<const N: usize>(&mut self, write_buf: &mut Cursor<N>) -> (r: Result<(), ()>) {
        self.stream.write(write_buf)
    }
}

impl<T: Flush> Flush for SelectableChannel<T> {
    /// Flushing is the business of the stream; what is pending stays.
    open spec fn flushes(&self, after: &Self, r: Result<(), ()>) -> bool {
        self.stream.flushes(&after.stream, r) && after.state == self.state
    }

    fn flush(&mut self) -> (r: Result<(), ()>) {
        self.stream.flush()
    }
}

/// A server together with the streams it serves, at most `N`, and the
/// queue of the indices that have a request pending.
pub struct SelectorPipe<T, S, const N: usize> {
    pub server: T,
    connections: Slab<SelectableChannel<S>, N>,
    write_or_close_events: Vec<usize>,
}

impl<T, S: Flush + Close, const N: usize> SelectorPipe<T, S, N> {
    /// Whether a stream is held under `index`.
    pub closed spec fn occupied(&self, index: usize) -> bool {
        self.connections.occupied(index as int)
    }

    /// What is pending for the stream under `index`.
    pub closed spec fn state(&self, index: usize) -> SelectorState {
        self.connections.element(index as int).state
    }

    /// The stream under `index`.
    pub closed spec fn stream(&self, index: usize) -> S {
        self.connections.element(index as int).stream
    }

    /// The queue of indices with a pending request.
    pub closed spec fn events(&self) -> Seq<usize> {
        self.write_or_close_events@
    }

    /// The server.
    pub closed spec fn handler(&self) -> T {
        self.server
    }

    /// The index that the next stream gets, if there is room.
    pub closed spec fn next_index(&self) -> Option<usize> {
        self.connections.next_index()
    }

    /// Number of streams held.
    pub closed spec fn count(&self) -> int {
        self.connections.count()
    }

    /// The slots and the free indices are consistent.
    pub closed spec fn slab_wf(&self) -> bool {
        self.connections.wf()
    }

    /// Whether every stream but the one under `index` is in `after` what it
    /// is in `self`.
    pub open spec fn others_kept(&self, after: &Self, index: usize) -> bool {
        forall|t: usize|
            t != index ==> (#[trigger] after.occupied(t) <==> self.occupied(t)) && (self.occupied(
                t,
            ) ==> after.state(t) == self.state(t) && after.stream(t) == self.stream(t))
    }

    /// The queue names exactly the streams with a pending request, each
    /// once, and every stream is in order.
    pub open spec fn wf(&self) -> bool {
        &&& self.slab_wf()
        &&& self.events().no_duplicates()
        &&& forall|t: usize| #[trigger] self.occupied(t) ==> self.stream(t).inv()
        &&& forall|i: int|
            0 <= i < self.events().len() ==> self.occupied(#[trigger] self.events()[i])
                && self.state(self.events()[i]).queued()
        &&& forall|t: usize| #[trigger]
            self.occupied(t) && self.state(t).queued() ==> self.events().contains(t)
    }

    /// A pipe for `server` that holds no stream.
    pub fn new(server: T) -> (p: Self)
        ensures
            p.wf(),
            p.events() == Seq::<usize>::empty(),
            forall|t: usize| !p.occupied(t),
    {
        SelectorPipe {
            server,
            connections: Slab::new(),
            write_or_close_events: Vec::with_capacity(N),
        }
    }

    /// Whether a stream is held under `index`.
    pub fn contains(&self, index: usize) -> (b: bool)
        ensures
            b == self.occupied(index),
    {
        self.connections.contains(index)
    }

    /// The channel under `socket_id`.
    pub fn get(&self, socket_id: &Id<SelectableChannel<S>>) -> (channel: &SelectableChannel<S>)
        requires
            self.occupied(socket_id.index),
        ensures
            channel.state == self.state(socket_id.index),
            channel.stream == self.stream(socket_id.index),
    {
        self.connections.get(socket_id.index)
    }

    /// The stream under `socket_id`, for changing it where it lies. What
    /// is pending for it stays, and so does every other stream.
    pub fn get_stream(&mut self, socket_id: &Id<SelectableChannel<S>>) -> (stream: &mut S)
        requires
            old(self).occupied(socket_id.index),
        ensures
            *stream == old(self).stream(socket_id.index),
            final(self).stream(socket_id.index) == *final(stream),
            final(self).occupied(socket_id.index),
            final(self).state(socket_id.index) == old(self).state(socket_id.index),
            final(self).events() == old(self).events(),
            old(self).slab_wf() ==> final(self).slab_wf(),
            old(self).others_kept(final(self), socket_id.index),
    {
        &mut self.connections.get_mut(socket_id.index).stream
    }

    /// Whether `after` is `self` once `stream` was added with the answer
    /// `added`: a full pipe changes nothing and answers `None`; otherwise
    /// the stream is held, idle, under the next free index, one more
    /// stream is held, and the others, the queue and the server are as
    /// they were.
    pub open spec fn add_post(&self, after: &Self, stream: S, added: Option<usize>) -> bool {
        match self.next_index() {
            None => added is None && *after == *self,
            Some(index) => {
                &&& added == Some(index)
                &&& !self.occupied(index)
                &&& after.occupied(index)
                &&& after.state(index) == SelectorState::Idle
                &&& after.stream(index) == stream
                &&& after.count() == self.count() + 1
                &&& after.events() == self.events()
                &&& after.handler() == self.handler()
                &&& self.others_kept(after, index)
            },
        }
    }

    /// Takes `stream` in as an idle channel, as `add_post` says. A full
    /// pipe hands it back.
    pub fn add(&mut self, stream: S) -> (r: Result<Id<SelectableChannel<S>>, S>)
        requires
            old(self).wf(),
            stream.inv(),
        ensures
            final(self).wf(),
            old(self).add_post(
                final(self),
                stream,
                match r {
                    Ok(id) => Some(id.index),
                    Err(_) => None,
                },
            ),
            r matches Err(back) ==> back == stream,
            old(self).next_index() is Some <==> old(self).count() < N,
    {
        let ghost events = self.events();
        proof {
            self.connections.lemma_spares_bounded();
        }
        match self.connections.add(SelectableChannel { stream, state: SelectorState::Idle }) {
            Ok(index) => {
                proof {
                    assert forall|i: int| 0 <= i < events.len() implies self.occupied(
                        #[trigger] events[i],
                    ) && self.state(events[i]).queued() by {
                        assert(old(self).occupied(events[i]));
                    }
                    assert forall|t: usize| #[trigger]
                        self.occupied(t) && self.state(t).queued() implies events.contains(t) by {
                        assert(old(self).occupied(t));
                    }
                    assert forall|t: usize| #[trigger] self.occupied(t) implies self.stream(
                        t,
                    ).inv() by {
                        if t != index {
                            assert(old(self).occupied(t));
                        }
                    }
                }
                assert(old(self).others_kept(self, index));
                Ok(Id::from(index))
            },
            Err(channel) => Err(channel.stream),
        }
    }

    /// Asks for the stream under `socket_id` to be closed at the end of
    /// the iteration; a flush that was asked for is overruled.
    pub fn request_socket_close(&mut self, socket_id: &Id<SelectableChannel<S>>)
        requires
            old(self).wf(),
            old(self).occupied(socket_id.index),
        ensures
            final(self).wf(),
            final(self).occupied(socket_id.index),
            final(self).state(socket_id.index) == old(self).state(
                socket_id.index,
            ).after_close_request(),
            final(self).stream(socket_id.index) == old(self).stream(socket_id.index),
            final(self).handler() == old(self).handler(),
            final(self).count() == old(self).count(),
            final(self).next_index() == old(self).next_index(),
            final(self).events() == if old(self).state(socket_id.index) == SelectorState::Idle {
                old(self).events().push(socket_id.index)
            } else {
                old(self).events()
            },
            old(self).others_kept(final(self), socket_id.index),
    {
        let index = socket_id.index;
        let ghost events = self.events();
        let socket = self.connections.get_mut(index);
        match socket.state {
            SelectorState::Idle => {
                socket.state = SelectorState::CloseRequested;
                self.write_or_close_events.push(index);
            },
            SelectorState::FlushRequested => {
                socket.state = SelectorState::CloseRequested;
            },
            _ => {},
        }
        proof {
            self.lemma_after_request(old(self), index);
        }
    }

    /// Asks for the stream under `socket_id` to be flushed at the end of
    /// the iteration. Only an idle stream takes the request.
    pub fn request_socket_flush(&mut self, socket_id: &Id<SelectableChannel<S>>)
        requires
            old(self).wf(),
            old(self).occupied(socket_id.index),
        ensures
            final(self).wf(),
            final(self).occupied(socket_id.index),
            final(self).state(socket_id.index) == old(self).state(
                socket_id.index,
            ).after_flush_request(),
            final(self).stream(socket_id.index) == old(self).stream(socket_id.index),
            final(self).handler() == old(self).handler(),
            final(self).count() == old(self).count(),
            final(self).next_index() == old(self).next_index(),
            final(self).events() == if old(self).state(socket_id.index) == SelectorState::Idle {
                old(self).events().push(socket_id.index)
            } else {
                old(self).events()
            },
            old(self).others_kept(final(self), socket_id.index),
    {
        let index = socket_id.index;
        let socket = self.connections.get_mut(index);
        if socket.state == SelectorState::Idle {
            socket.state = SelectorState::FlushRequested;
            self.write_or_close_events.push(index);
        }
        proof {
            self.lemma_after_request(old(self), index);
        }
    }

    /// A request keeps the pipe in order: the one stream it is made for
    /// is enqueued exactly if it was idle and is queued now.
    proof fn lemma_after_request(&self, before: &Self, index: usize)
        requires
            before.wf(),
            before.occupied(index),
            self.slab_wf(),
            self.occupied(index),
            self.stream(index) == before.stream(index),
            forall|t: usize|
                t != index ==> (#[trigger] self.occupied(t) <==> before.occupied(t)) && (
                before.occupied(t) ==> self.state(t) == before.state(t) && self.stream(t)
                    == before.stream(t)),
            before.state(index).queued() ==> self.state(index).queued() && self.events()
                == before.events(),
            !before.state(index).queued() ==> if self.state(index).queued() {
                before.state(index) == SelectorState::Idle && self.events()
                    == before.events().push(index)
            } else {
                self.events() == before.events()
            },
        ensures
            self.wf(),
    {
        let events = before.events();
        let now = self.events();
        assert(!before.state(index).queued() ==> !events.contains(index)) by {
            if events.contains(index) {
                let i = choose|i: int| 0 <= i < events.len() && events[i] == index;
                assert(before.state(events[i]).queued());
            }
        }
        assert forall|i: int| 0 <= i < now.len() implies self.occupied(#[trigger] now[i])
            && self.state(now[i]).queued() by {
            if i < events.len() {
                assert(now[i] == events[i]);
                assert(before.occupied(events[i]));
                assert(before.state(events[i]).queued());
                assert(self.occupied(events[i]) <==> before.occupied(events[i]));
            } else {
                assert(now[i] == index);
            }
        }
        assert(now.no_duplicates());
        assert forall|t: usize| #[trigger]
            self.occupied(t) && self.state(t).queued() implies now.contains(t) by {
            if t != index || before.state(index).queued() {
                assert(before.occupied(t));
                let i = choose|i: int| 0 <= i < events.len() && events[i] == t;
                assert(now[i] == t);
            } else {
                assert(now[events.len() as int] == index);
            }
        }
        assert forall|t: usize| #[trigger] self.occupied(t) implies self.stream(t).inv() by {
            assert(before.occupied(t));
        }
    }

    /// Whether a stream that was `stream` is `stream_after` for having been
    /// closed.
    pub open spec fn closed_by(stream: S, stream_after: S) -> bool {
        exists|r: Result<(), ()>| #[trigger] stream.closes(&stream_after, r)
    }

    /// Whether the end of an iteration makes `state_after` and
    /// `stream_after` of a stream that was `stream` with `state` pending:
    /// * a stream that asked for a flush is flushed and idle again, or, if
    ///   the flush failed, closed after it;
    /// * a stream that asked for a close is closed;
    /// * any other stream is left as it is.
    pub open spec fn served_as(
        state: SelectorState,
        stream: S,
        state_after: SelectorState,
        stream_after: S,
    ) -> bool {
        match state {
            SelectorState::FlushRequested => exists|flushed: S, r: Result<(), ()>| #[trigger]
                stream.flushes(&flushed, r) && if r is Ok {
                    state_after == SelectorState::Idle && stream_after == flushed
                } else {
                    state_after == SelectorState::Closed && Self::closed_by(flushed, stream_after)
                },
            SelectorState::CloseRequested => state_after == SelectorState::Closed
                && Self::closed_by(stream, stream_after),
            _ => state_after == state && stream_after == stream,
        }
    }

    /// Whether `after` is what a drain of the queue makes of `self`: the
    /// queue is empty, the same streams are held, each served as
    /// `served_as` says, and the server is as it was. Closed streams keep
    /// their index.
    pub open spec fn flush_post(&self, after: &Self) -> bool {
        &&& after.events() == Seq::<usize>::empty()
        &&& after.handler() == self.handler()
        &&& after.count() == self.count()
        &&& after.next_index() == self.next_index()
        &&& forall|t: usize| #[trigger] after.occupied(t) <==> self.occupied(t)
        &&& forall|t: usize| #[trigger]
            self.occupied(t) ==> Self::served_as(
                self.state(t),
                self.stream(t),
                after.state(t),
                after.stream(t),
            )
    }

    /// Serves the queue at the end of an iteration, in its order, and
    /// empties it, as `flush_post` says.
    pub fn flush_all_sockets(&mut self)
        requires
            old(self).wf(),
        ensures
            final(self).wf(),
            old(self).flush_post(final(self)),
    {
        let len = self.write_or_close_events.len();
        let ghost events = self.events();
        let mut index: usize = 0;
        while index < len
            invariant
                index <= len == events.len(),
                self.events() == events,
                old(self).wf(),
                events == old(self).events(),
                self.slab_wf(),
                self.handler() == old(self).handler(),
                self.count() == old(self).count(),
                self.next_index() == old(self).next_index(),
                forall|t: usize| #[trigger] self.occupied(t) <==> old(self).occupied(t),
                forall|t: usize| #[trigger] self.occupied(t) ==> self.stream(t).inv(),
                forall|i: int|
                    index <= i < len ==> self.state(#[trigger] events[i]) == old(self).state(
                        events[i],
                    ) && self.stream(events[i]) == old(self).stream(events[i]),
                forall|i: int|
                    0 <= i < index ==> !self.state(#[trigger] events[i]).queued()
                        && Self::served_as(
                        old(self).state(events[i]),
                        old(self).stream(events[i]),
                        self.state(events[i]),
                        self.stream(events[i]),
                    ),
                forall|t: usize| #[trigger]
                    old(self).occupied(t) && !old(self).state(t).queued() ==> self.state(t)
                        == old(self).state(t) && self.stream(t) == old(self).stream(t),
            decreases len - index,
        {
            let socket_id = self.write_or_close_events[index];
            let ghost before = *self;
            assert(old(self).occupied(events[index as int]));
            assert(self.occupied(socket_id));
            assert(old(self).state(socket_id).queued());
            let socket = self.connections.get_mut(socket_id);
            let ghost stream_before = socket.stream;
            match socket.state {
                SelectorState::Idle => {},
                SelectorState::Closed => {},
                SelectorState::CloseRequested => {
                    let result = socket.stream.close();
                    socket.state = SelectorState::Closed;
                    assert(stream_before.closes(&socket.stream, result));
                },
                SelectorState::FlushRequested => {
                    socket.state = SelectorState::Idle;
                    let flushed = socket.flush();
                    let ghost stream_flushed = socket.stream;
                    assert(stream_before.flushes(&stream_flushed, flushed));
                    match flushed {
                        Ok(()) => {},
                        Err(()) => {
                            let result = socket.stream.close();
                            socket.state = SelectorState::Closed;
                            assert(stream_flushed.closes(&socket.stream, result));
                        },
                    }
                },
            }
            let ghost state_after = socket.state;
            let ghost stream_after = socket.stream;
            proof {
                assert(stream_before == old(self).stream(socket_id));
                assert(self.state(socket_id) == state_after);
                assert(self.stream(socket_id) == stream_after);
                assert(Self::served_as(
                    old(self).state(socket_id),
                    old(self).stream(socket_id),
                    self.state(socket_id),
                    self.stream(socket_id),
                ));
                assert forall|t: usize| t != socket_id implies (#[trigger] self.occupied(t)
                    <==> before.occupied(t)) && (before.occupied(t) ==> self.state(t)
                    == before.state(t) && self.stream(t) == before.stream(t)) by {}
                assert forall|i: int| index + 1 <= i < len implies self.state(
                    #[trigger] events[i],
                ) == old(self).state(events[i]) && self.stream(events[i]) == old(self).stream(
                    events[i],
                ) by {
                    assert(events[i] != events[index as int]);
                    assert(old(self).occupied(events[i]));
                    assert(before.occupied(events[i]));
                }
                assert forall|i: int| 0 <= i < index + 1 implies !self.state(
                    #[trigger] events[i],
                ).queued() && Self::served_as(
                    old(self).state(events[i]),
                    old(self).stream(events[i]),
                    self.state(events[i]),
                    self.stream(events[i]),
                ) by {
                    if i < index {
                        assert(events[i] != events[index as int]);
                        assert(old(self).occupied(events[i]));
                        assert(before.occupied(events[i]));
                        assert(self.state(events[i]) == before.state(events[i]));
                        assert(self.stream(events[i]) == before.stream(events[i]));
                    }
                }
                assert forall|t: usize| #[trigger]
                    old(self).occupied(t) && !old(self).state(t).queued() implies self.state(t)
                    == old(self).state(t) && self.stream(t) == old(self).stream(t) by {
                    assert(before.occupied(t));
                    assert(t != socket_id);
                }
                assert forall|t: usize| #[trigger] self.occupied(t) implies self.stream(
                    t,
                ).inv() by {
                    assert(before.occupied(t));
                }
            }
            index = index + 1;
        }
        let ghost done = *self;
        self.write_or_close_events.clear();
        proof {
            assert forall|t: usize| #[trigger] self.occupied(t) <==> old(self).occupied(t) by {
                assert(done.occupied(t) <==> old(self).occupied(t));
            }
            assert forall|t: usize| #[trigger] old(self).occupied(t) implies !self.state(
                t,
            ).queued() && Self::served_as(
                old(self).state(t),
                old(self).stream(t),
                self.state(t),
                self.stream(t),
            ) by {
                if old(self).state(t).queued() {
                    assert(events.contains(t));
                    let i = choose|i: int| 0 <= i < events.len() && events[i] == t;
                    assert(!done.state(events[i]).queued());
                }
            }
            assert forall|t: usize| #[trigger] self.occupied(t) implies self.stream(t).inv() by {
                assert(done.occupied(t));
            }
            assert forall|t: usize| #[trigger]
                self.occupied(t) && self.state(t).queued() implies self.events().contains(t) by {
                assert(old(self).occupied(t));
            }
        }
    }
}

impl<T, S: Flush + Close + PollRead, const N: usize> SelectorPipe<T, S, N> {
    /// What a poll that answered `r` asks for the stream: a stream that
    /// handed out bytes or waits for more is left alone, one that asks
    /// for a flush or a close has that request made.
    pub open spec fn asked_by(state: SelectorState, r: Result<(), ReadError>) -> SelectorState {
        match r {
            Ok(_) => state,
            Err(ReadError::NotFullRead) => state,
            Err(ReadError::FlushRequest) => state.after_flush_request(),
            Err(ReadError::CloseRequest) => state.after_close_request(),
        }
    }

    /// Whether `after` is what serving the readiness of the stream under
    /// `index` makes of `self`, with the answer `told`: the stream is
    /// polled, what it asks for is requested, and the server is to be told
    /// exactly if the stream handed bytes out.
    pub open spec fn read_step(&self, after: &Self, index: usize, told: bool) -> bool {
        exists|r: Result<(), ReadError>| #[trigger]
            self.stream(index).polls(&after.stream(index), r) && told == (r is Ok)
                && after.state(index) == Self::asked_by(self.state(index), r) && after.events()
                == if self.state(index) == SelectorState::Idle && after.state(index).queued() {
                self.events().push(index)
            } else {
                self.events()
            }
    }

    /// Serves the readiness of the stream under `socket_id` as `read_step`
    /// says, and answers whether the server is to be told of new bytes.
    pub fn handle_read(&mut self, socket_id: &Id<SelectableChannel<S>>) -> (told: bool)
        requires
            old(self).wf(),
            old(self).occupied(socket_id.index),
        ensures
            final(self).wf(),
            final(self).occupied(socket_id.index),
            final(self).handler() == old(self).handler(),
            final(self).count() == old(self).count(),
            final(self).next_index() == old(self).next_index(),
            old(self).read_step(final(self), socket_id.index, told),
            old(self).others_kept(final(self), socket_id.index),
    {
        let index = socket_id.index;
        let polled = {
            let socket = self.connections.get_mut(index);
            socket.stream.poll_read()
        };
        let ghost mid = *self;
        proof {
            assert(mid.occupied(index));
            assert forall|t: usize| #[trigger] mid.occupied(t) implies mid.stream(t).inv() by {
                assert(old(self).occupied(t));
            }
            assert forall|i: int| 0 <= i < mid.events().len() implies mid.occupied(
                #[trigger] mid.events()[i],
            ) && mid.state(mid.events()[i]).queued() by {
                assert(old(self).occupied(old(self).events()[i]));
            }
            assert forall|t: usize| #[trigger]
                mid.occupied(t) && mid.state(t).queued() implies mid.events().contains(t) by {
                assert(old(self).occupied(t));
            }
            assert(mid.wf());
        }
        let told = match polled {
            Ok(()) => true,
            Err(ReadError::NotFullRead) => false,
            Err(ReadError::FlushRequest) => {
                self.request_socket_flush(socket_id);
                false
            },
            Err(ReadError::CloseRequest) => {
                self.request_socket_close(socket_id);
                false
            },
        };
        proof {
            assert(old(self).stream(index).polls(&self.stream(index), polled));
            assert forall|t: usize| t != index implies (#[trigger] self.occupied(t) <==> old(
                self,
            ).occupied(t)) && (old(self).occupied(t) ==> self.state(t) == old(self).state(t)
                && self.stream(t) == old(self).stream(t)) by {
                assert(mid.occupied(t) <==> old(self).occupied(t));
                assert(self.occupied(t) <==> mid.occupied(t));
                if old(self).occupied(t) {
                    assert(mid.state(t) == old(self).state(t));
                    assert(mid.stream(t) == old(self).stream(t));
                    assert(self.state(t) == mid.state(t));
                    assert(self.stream(t) == mid.stream(t));
                }
            }
            assert(old(self).others_kept(self, index));
        }
        told
    }
}

impl<T: Tick, S: Flush + Close, const N: usize> SelectorPipe<T, S, N> {
    /// Whether every stream is in `after` what it is in `self`, and the
    /// queue too.
    pub open spec fn all_kept(&self, after: &Self) -> bool {
        &&& after.events() == self.events()
        &&& after.slab_wf() == self.slab_wf()
        &&& after.count() == self.count()
        &&& after.next_index() == self.next_index()
        &&& forall|t: usize|
            (#[trigger] after.occupied(t) <==> self.occupied(t)) && (self.occupied(t)
                ==> after.state(t) == self.state(t) && after.stream(t) == self.stream(t))
    }

    /// Lets the server do its periodic work and hands its answer on. The
    /// streams and the queue stay as they are.
    pub fn tick(&mut self) -> (r: Result<(), ()>)
        ensures
            old(self).handler().ticks(&final(self).handler(), r),
            old(self).all_kept(final(self)),
    {
        let r = self.server.tick();
        assert(old(self).all_kept(self));
        r
    }
}

impl<T: Tick, S: Flush + Close + PollRead, const N: usize> SelectorPipe<T, S, N> {
    /// Whether `after` is what serving the readiness `event` makes of
    /// `self`, and `told_after` what it makes of the list `told` of the
    /// streams that the server is to be told of: a stream that the
    /// listener handed out is added, and dropped if the pipe is full; an
    /// index is served a read as `read_step` says and is told of exactly
    /// if the stream handed bytes out; an index that holds no stream is
    /// ignored.
    pub open spec fn event_post(
        &self,
        after: &Self,
        event: Readiness<S>,
        told: Seq<usize>,
        told_after: Seq<usize>,
    ) -> bool {
        match event {
            Readiness::Accepted(stream) => told_after == told && self.add_post(
                after,
                stream,
                self.next_index(),
            ),
            Readiness::Readable(index) => if self.occupied(index) {
                &&& after.occupied(index)
                &&& after.handler() == self.handler()
                &&& after.count() == self.count()
                &&& after.next_index() == self.next_index()
                &&& self.others_kept(after, index)
                &&& exists|heard: bool| #[trigger]
                    self.read_step(after, index, heard) && told_after == if heard {
                        told.push(index)
                    } else {
                        told
                    }
            } else {
                *after == *self && told_after == told
            },
        }
    }

    /// Whether `states` and `tolds` are the pipes and the lists that
    /// serving `events` one after the other goes through.
    pub open spec fn chained(
        states: Seq<Self>,
        tolds: Seq<Seq<usize>>,
        events: Seq<Readiness<S>>,
    ) -> bool {
        &&& states.len() == events.len() + 1
        &&& tolds.len() == events.len() + 1
        &&& forall|i: int|
            0 <= i < events.len() ==> (#[trigger] states[i]).event_post(
                &states[i + 1],
                events[i],
                tolds[i],
                tolds[i + 1],
            )
    }

    /// Whether `after` is what one iteration makes of `self`, with the
    /// answer of the tick `ticked` and the streams `told` that handed
    /// bytes out: first the server ticks if `tick_due`, then every
    /// readiness of `events` is served in order, and at the end, after all
    /// reads, the queue is drained.
    pub open spec fn iterated(
        &self,
        after: &Self,
        tick_due: bool,
        events: Seq<Readiness<S>>,
        ticked: Result<(), ()>,
        told: Seq<usize>,
    ) -> bool {
        exists|states: Seq<Self>, tolds: Seq<Seq<usize>>| #[trigger]
            Self::chained(states, tolds, events) && (if tick_due {
                self.handler().ticks(&states[0].handler(), ticked) && self.all_kept(&states[0])
            } else {
                ticked is Ok && states[0] == *self
            }) && tolds[0] == Seq::<usize>::empty() && tolds.last() == told
                && states.last().flush_post(after)
    }

    /// One iteration of the server loop, after the poller was asked, as
    /// `iterated` says. Returns what the tick answered and the indices of
    /// the streams that handed bytes out, in the order of their events.
    pub fn iterate(&mut self, tick_due: bool, events: Vec<Readiness<S>>) -> (r: (
        Result<(), ()>,
        Vec<usize>,
    ))
        requires
            old(self).wf(),
            forall|i: int|
                0 <= i < events@.len() ==> (#[trigger] events@[i] matches Readiness::Accepted(
                    stream,
                ) ==> stream.inv()),
        ensures
            final(self).wf(),
            old(self).iterated(final(self), tick_due, events@, r.0, r.1@),
    {
        let ghost batch = events@;
        let mut ticked: Result<(), ()> = Ok(());
        if tick_due {
            ticked = self.tick();
            proof {
                old(self).lemma_all_kept_wf(self);
            }
        }
        let ghost start = *self;
        let mut told: Vec<usize> = Vec::new();
        let mut events = events;
        let mut rest = events.len();
        let ghost mut done: int = 0;
        let ghost mut states: Seq<Self> = seq![start];
        let ghost mut tolds: Seq<Seq<usize>> = seq![Seq::<usize>::empty()];
        proof {
            assert(batch.take(0) =~= Seq::<Readiness<S>>::empty());
            assert(batch.skip(0) =~= batch);
        }
        while rest > 0
            invariant
                rest == events@.len(),
                0 <= done <= batch.len(),
                events@ == batch.skip(done),
                self.wf(),
                forall|i: int|
                    0 <= i < batch.len() ==> (#[trigger] batch[i] matches Readiness::Accepted(
                        stream,
                    ) ==> stream.inv()),
                Self::chained(states, tolds, batch.take(done)),
                states[0] == start,
                tolds[0] == Seq::<usize>::empty(),
                states.last() == *self,
                tolds.last() == told@,
            decreases rest,
        {
            let ghost mid = *self;
            let ghost mid_told = told@;
            assert(events@[0] == batch[done]);
            let event = events.remove(0);
            rest = rest - 1;
            match event {
                Readiness::Accepted(stream) => {
                    let _dropped_when_full = self.add(stream);
                },
                Readiness::Readable(index) => {
                    if self.contains(index) {
                        let heard = self.handle_read(&Id::from(index));
                        if heard {
                            told.push(index);
                        }
                        assert(mid.read_step(self, index, heard) && told@ == if heard {
                            mid_told.push(index)
                        } else {
                            mid_told
                        });
                    }
                },
            }
            proof {
                assert(mid.event_post(self, batch[done], mid_told, told@));
                let before_states = states;
                let before_tolds = tolds;
                states = states.push(*self);
                tolds = tolds.push(told@);
                let served = batch.take(done + 1);
                assert forall|i: int| 0 <= i < served.len() implies (#[trigger] states[i]).event_post(
                    &states[i + 1],
                    served[i],
                    tolds[i],
                    tolds[i + 1],
                ) by {
                    if i < done {
                        assert(states[i] == before_states[i]);
                        assert(states[i + 1] == before_states[i + 1]);
                        assert(before_states[i].event_post(
                            &before_states[i + 1],
                            batch.take(done)[i],
                            before_tolds[i],
                            before_tolds[i + 1],
                        ));
                    } else {
                        assert(states[i] == mid);
                    }
                }
                assert(events@ =~= batch.skip(done + 1));
                done = done + 1;
            }
        }
        proof {
            assert(batch.take(done) =~= batch);
        }
        self.flush_all_sockets();
        proof {
            assert(Self::chained(states, tolds, batch) && (if tick_due {
                old(self).handler().ticks(&states[0].handler(), ticked) && old(self).all_kept(
                    &states[0],
                )
            } else {
                ticked is Ok && states[0] == *old(self)
            }) && tolds[0] == Seq::<usize>::empty() && tolds.last() == told@
                && states.last().flush_post(self));
        }
        (ticked, told)
    }

    /// A pipe that differs from one in order by its server alone is in
    /// order.
    proof fn lemma_all_kept_wf(&self, after: &Self)
        requires
            self.wf(),
            self.all_kept(after),
        ensures
            after.wf(),
    {
        assert forall|t: usize| #[trigger] after.occupied(t) implies after.stream(t).inv() by {
            assert(self.occupied(t));
        }
        assert forall|i: int| 0 <= i < after.events().len() implies after.occupied(
            #[trigger] after.events()[i],
        ) && after.state(after.events()[i]).queued() by {
            assert(self.occupied(self.events()[i]));
            assert(after.occupied(self.events()[i]) <==> self.occupied(self.events()[i]));
        }
        assert forall|t: usize| #[trigger]
            after.occupied(t) && after.state(t).queued() implies after.events().contains(t) by {
            assert(self.occupied(t));
        }
    }
}

} // verus!
