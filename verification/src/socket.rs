//! The per-connection record, its request state and the queue of tokens
//! whose connections asked for a flush or a close.

use crate::cursor::{Cursor, CursorView};
use vstd::prelude::*;

verus! {

/// What a connection has asked of the selector since it was last served.
#[derive(Debug, Clone, Copy, PartialEq, Eq, Structural)]
pub enum SocketState {
    /// Nothing is pending.
    Idle,
    /// The write buffer is to be drained to the peer.
    WriteRequest,
    /// The connection is to be closed.
    CloseRequest,
}

impl Default for SocketState {
    fn default() -> (s: Self)
        ensures
            s == SocketState::Idle,
    {
        SocketState::Idle
    }
}

impl SocketState {
    /// The state after a flush was asked for: a pending close stays.
    pub open spec fn after_flush_request(self) -> SocketState {
        match self {
            SocketState::CloseRequest => SocketState::CloseRequest,
            _ => SocketState::WriteRequest,
        }
    }

    /// Whether `next` can follow `self` through any number of requests:
    /// nothing happened, or the state left `Idle`, or a flush request was
    /// overruled by a close request.
    pub open spec fn leads_to(self, next: SocketState) -> bool {
        ||| next == self
        ||| self == SocketState::Idle
        ||| next == SocketState::CloseRequest
    }
}

/// The queue after a connection with `state` and `token` asked for
/// something: the token is appended when the connection was idle.
pub open spec fn enqueued(queue: Seq<usize>, state: SocketState, token: usize) -> Seq<usize> {
    if state == SocketState::Idle {
        queue.push(token)
    } else {
        queue
    }
}

/// The queue of tokens that await the end of the iteration, in the order in
/// which their connections left `Idle`.
pub struct Registry {
    vec: Vec<usize>,
}

impl View for Registry {
    type V = Seq<usize>;

    closed spec fn view(&self) -> Seq<usize> {
        self.vec@
    }
}

impl Registry {
    /// An empty queue with room for `capacity` tokens.
    pub fn new(capacity: usize) -> (q: Self)
        ensures
            q@ == Seq::<usize>::empty(),
    {
        Registry { vec: Vec::with_capacity(capacity) }
    }

    /// Number of tokens in the queue.
    pub fn len(&self) -> (n: usize)
        ensures
            n == self@.len(),
    {
        self.vec.len()
    }

    /// The token at position `index`.
    pub fn get(&self, index: usize) -> (token: usize)
        requires
            index < self@.len(),
        ensures
            token == self@[index as int],
    {
        self.vec[index]
    }

    /// Empties the queue.
    pub fn clear(&mut self)
        ensures
            final(self)@ == Seq::<usize>::empty(),
    {
        self.vec.clear();
    }

    fn push(&mut self, token: usize)
        ensures
            final(self)@ == old(self)@.push(token),
    {
        self.vec.push(token);
    }

    /// Takes the first occurrence of `token` out of the queue; the order of
    /// the others stays.
    pub fn withdraw(&mut self, token: usize)
        ensures
            final(self)@ == old(self)@.remove_value(token),
    {
        let mut i: usize = 0;
        while i < self.vec.len()
            invariant
                i <= self.vec@.len(),
                self.vec@ == old(self)@,
                forall|k: int| 0 <= k < i ==> self.vec@[k] != token,
            decreases self.vec@.len() - i,
        {
            if self.vec[i] == token {
                proof {
                    old(self)@.index_of_first_ensures(token);
                    assert(old(self)@[i as int] == token);
                    assert(old(self)@.index_of_first(token) == Some(i as int));
                }
                self.vec.remove(i);
                return ;
            }
            i = i + 1;
        }
        proof {
            old(self)@.index_of_first_ensures(token);
        }
    }
}

/// The content of a connection record.
pub struct SocketView<C> {
    pub read_buf: CursorView,
    pub write_buf: CursorView,
    pub connection: C,
    pub state: SocketState,
    pub token: usize,
}

/// One connection: its read and write buffers, the application's own data,
/// the pending request and the token under which the selector holds it.
pub struct Socket<C, const R: usize, const W: usize> {
    pub read_buf: Cursor<R>,
    pub write_buf: Cursor<W>,
    pub connection: C,
    state: SocketState,
    token: usize,
}

impl<C, const R: usize, const W: usize> View for Socket<C, R, W> {
    type V = SocketView<C>;

    closed spec fn view(&self) -> SocketView<C> {
        SocketView {
            read_buf: self.read_buf@,
            write_buf: self.write_buf@,
            connection: self.connection,
            state: self.state,
            token: self.token,
        }
    }
}

impl<C> SocketView<C> {
    /// An idle connection with empty buffers.
    pub open spec fn fresh(token: usize, connection: C) -> SocketView<C> {
        SocketView {
            read_buf: CursorView::empty(),
            write_buf: CursorView::empty(),
            connection,
            state: SocketState::Idle,
            token,
        }
    }
}

/// Whether the requests of a handler were registered as they are owed,
/// for a connection that was `before` with the queue at `queue` and is
/// `after` with the queue at `next_queue`: the token is the same, the
/// state moved only as requests move it, and the token was enqueued
/// exactly if the state left `Idle`. Nothing is said of the buffers or of
/// the application's data.
pub open spec fn requests_registered<C>(
    before: SocketView<C>,
    queue: Seq<usize>,
    after: SocketView<C>,
    next_queue: Seq<usize>,
) -> bool {
    &&& after.token == before.token
    &&& before.state.leads_to(after.state)
    &&& next_queue == if before.state == SocketState::Idle && after.state != SocketState::Idle {
        queue.push(before.token)
    } else {
        queue
    }
}

impl<C, const R: usize, const W: usize> Socket<C, R, W> {
    /// Both buffers are within their bounds.
    pub open spec fn wf(&self) -> bool {
        self@.read_buf.bounded_by(R as nat) && self@.write_buf.bounded_by(W as nat)
    }

    /// A fresh idle connection with empty buffers.
    pub fn new(token: usize, connection: C) -> (s: Self)
        ensures
            s.wf(),
            s@ == (SocketView {
                read_buf: CursorView::empty(),
                write_buf: CursorView::empty(),
                connection,
                state: SocketState::Idle,
                token,
            }),
    {
        Socket {
            read_buf: Cursor::new(),
            write_buf: Cursor::new(),
            connection,
            state: SocketState::Idle,
            token,
        }
    }

    /// What is pending for the connection.
    pub fn state(&self) -> (s: SocketState)
        ensures
            s == self@.state,
    {
        self.state
    }

    /// The token under which the selector holds the connection.
    pub fn token(&self) -> (t: usize)
        ensures
            t == self@.token,
    {
        self.token
    }

    /// The two buffers and the application's data, each for changing it
    /// where it lies.
    pub fn parts(&mut self) -> (parts: (&mut Cursor<R>, &mut Cursor<W>, &mut C))
        ensures
            parts.0@ == old(self)@.read_buf,
            parts.1@ == old(self)@.write_buf,
            *parts.2 == old(self)@.connection,
            final(self)@ == (SocketView {
                read_buf: final(parts.0)@,
                write_buf: final(parts.1)@,
                connection: *final(parts.2),
                state: old(self)@.state,
                token: old(self)@.token,
            }),
    {
        (&mut self.read_buf, &mut self.write_buf, &mut self.connection)
    }

    /// Asks for the write buffer to be drained at the end of the iteration.
    /// A close that was asked for before stays in force.
    pub fn register_flush_event(&mut self, registry: &mut Registry)
        ensures
            final(self)@ == (SocketView {
                state: old(self)@.state.after_flush_request(),
                ..old(self)@
            }),
            final(registry)@ == enqueued(old(registry)@, old(self)@.state, old(self)@.token),
    {
        self.register_event(registry);
        if self.state != SocketState::CloseRequest {
            self.state = SocketState::WriteRequest;
        }
    }

    /// Asks for the connection to be closed at the end of the iteration.
    pub fn register_close_event(&mut self, registry: &mut Registry)
        ensures
            final(self)@ == (SocketView { state: SocketState::CloseRequest, ..old(self)@ }),
            final(registry)@ == enqueued(old(registry)@, old(self)@.state, old(self)@.token),
    {
        self.register_event(registry);
        self.state = SocketState::CloseRequest;
    }

    /// Enqueues the token if the connection is idle: the test that keeps a
    /// token from being enqueued twice.
    fn register_event(&mut self, registry: &mut Registry)
        ensures
            final(self)@ == old(self)@,
            final(registry)@ == enqueued(old(registry)@, old(self)@.state, old(self)@.token),
    {
        if self.state == SocketState::Idle {
            registry.push(self.token);
        }
    }

    /// Puts the connection back to `Idle` once its request is being served.
    pub(crate) fn settle(&mut self)
        ensures
            final(self)@ == (SocketView { state: SocketState::Idle, ..old(self)@ }),
    {
        self.state = SocketState::Idle;
    }

    /// Asks for the connection to be closed at once, without the queue: for
    /// the handler's `flush`, which runs while the queue is drained. The
    /// drain closes the connection as soon as the handler returns.
    pub fn close_now(&mut self)
        ensures
            final(self)@ == (SocketView { state: SocketState::CloseRequest, ..old(self)@ }),
    {
        self.state = SocketState::CloseRequest;
    }
}

/// Asking for a flush or a close any number of times enqueues the token at
/// most once, and only from `Idle`.
pub proof fn lemma_requests_enqueue_once(queue: Seq<usize>, state: SocketState, token: usize)
    ensures
        enqueued(enqueued(queue, state, token), state.after_flush_request(), token) == enqueued(
            queue,
            state,
            token,
        ),
        enqueued(enqueued(queue, state, token), SocketState::CloseRequest, token) == enqueued(
            queue,
            state,
            token,
        ),
        state != SocketState::Idle ==> enqueued(queue, state, token) == queue,
{
}

} // verus!
