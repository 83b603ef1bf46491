//! The record of what a selector did with its handler, and the order that
//! every such record keeps.

use vstd::prelude::*;

verus! {

/// One step that a selector took for a token.
pub enum Event {
    /// The connection was registered with the poller and the handler's
    /// `accept` ran.
    Accept(usize),
    /// The poller refused the connection; the handler's `accept` did not
    /// run, and the connection awaits its close.
    OpenFailed(usize),
    /// The handler's `read` ran.
    Read(usize),
    /// The handler's `flush` ran.
    Flush(usize),
    /// The handler's `close` ran and the slot was given up.
    Close(usize),
}

impl Event {
    /// The token that the step was taken for.
    pub open spec fn token(self) -> usize {
        match self {
            Event::Accept(t) => t,
            Event::OpenFailed(t) => t,
            Event::Read(t) => t,
            Event::Flush(t) => t,
            Event::Close(t) => t,
        }
    }

    /// Whether the step gives the token to a new connection.
    pub open spec fn opens(self) -> bool {
        self is Accept || self is OpenFailed
    }

    /// Whether the step serves a connection that holds the token.
    pub open spec fn serves(self) -> bool {
        self is Read || self is Flush || self is Close
    }
}

/// The tokens that are held by a connection after the steps `h`.
pub open spec fn live(h: Seq<Event>) -> Set<usize>
    decreases h.len(),
{
    if h.len() == 0 {
        Set::empty()
    } else {
        let before = live(h.drop_last());
        match h.last() {
            Event::Accept(t) => before.insert(t),
            Event::OpenFailed(t) => before.insert(t),
            Event::Close(t) => before.remove(t),
            _ => before,
        }
    }
}

/// Whether every step of `h` was in order: a token is given only when no
/// connection holds it, and a connection is served only while it holds its
/// token.
pub open spec fn orderly(h: Seq<Event>) -> bool
    decreases h.len(),
{
    h.len() == 0 || {
        &&& orderly(h.drop_last())
        &&& if h.last().opens() {
            !live(h.drop_last()).contains(h.last().token())
        } else {
            live(h.drop_last()).contains(h.last().token())
        }
    }
}

/// Every beginning of an orderly record is orderly.
pub proof fn lemma_orderly_prefix(h: Seq<Event>, n: int)
    requires
        orderly(h),
        0 <= n <= h.len(),
    ensures
        orderly(h.take(n)),
    decreases h.len(),
{
    if n == h.len() {
        assert(h.take(n) =~= h);
    } else {
        lemma_orderly_prefix(h.drop_last(), n);
        assert(h.drop_last().take(n) =~= h.take(n));
    }
}

/// A token that is held was given at some step and not given up since.
pub proof fn lemma_live_was_opened(h: Seq<Event>, t: usize) -> (i: int)
    requires
        live(h).contains(t),
    ensures
        0 <= i < h.len(),
        h[i].opens(),
        h[i].token() == t,
        forall|k: int| i < k < h.len() ==> h[k] != Event::Close(t),
    decreases h.len(),
{
    if h.last().opens() && h.last().token() == t {
        h.len() - 1
    } else {
        assert(live(h.drop_last()).contains(t));
        let i = lemma_live_was_opened(h.drop_last(), t);
        assert(h.drop_last()[i] == h[i]);
        assert forall|k: int| i < k < h.len() implies h[k] != Event::Close(t) by {
            if k < h.len() - 1 {
                assert(h.drop_last()[k] == h[k]);
            }
        }
        i
    }
}

/// In an orderly record, whatever serves a token comes after the step that
/// gave the token, with no close of it in between: `accept` comes before
/// any `read`, `flush` or `close`.
pub proof fn lemma_served_after_opening(h: Seq<Event>, j: int) -> (i: int)
    requires
        orderly(h),
        0 <= j < h.len(),
        h[j].serves(),
    ensures
        0 <= i < j,
        h[i].opens(),
        h[i].token() == h[j].token(),
        forall|k: int| i < k < j ==> h[k] != Event::Close(h[j].token()),
{
    let upto = h.take(j + 1);
    lemma_orderly_prefix(h, j + 1);
    assert(upto.last() == h[j]);
    assert(upto.drop_last() =~= h.take(j));
    let before = h.take(j);
    assert(live(before).contains(h[j].token()));
    let i = lemma_live_was_opened(before, h[j].token());
    assert(before[i] == h[i]);
    assert forall|k: int| i < k < j implies h[k] != Event::Close(h[j].token()) by {
        assert(before[k] == h[k]);
    }
    i
}

/// Where the poller refused no connection, it is the handler's `accept`
/// that precedes every other call for a token.
pub proof fn lemma_accept_comes_first(h: Seq<Event>, j: int) -> (i: int)
    requires
        orderly(h),
        forall|k: int| 0 <= k < h.len() ==> !(h[k] is OpenFailed),
        0 <= j < h.len(),
        h[j].serves(),
    ensures
        0 <= i < j,
        h[i] == Event::Accept(h[j].token()),
        forall|k: int| i < k < j ==> h[k] != Event::Close(h[j].token()),
{
    lemma_served_after_opening(h, j)
}

/// In an orderly record a token is closed at most once per connection:
/// after a close, nothing serves the token until it is given again.
pub proof fn lemma_nothing_after_close(h: Seq<Event>, i: int, j: int) -> (k: int)
    requires
        orderly(h),
        0 <= i < j < h.len(),
        h[i] == Event::Close(h[j].token()),
        h[j].serves(),
    ensures
        i < k < j,
        h[k].opens(),
        h[k].token() == h[j].token(),
{
    let k = lemma_served_after_opening(h, j);
    if k < i {
        assert(h[i] != Event::Close(h[j].token()));
    }
    k
}

/// What the end of an iteration does for one queued token: a connection
/// that asked for a flush has the handler's `flush` run, and its `close`
/// too if the flush ended the connection; one that asked for a close has
/// the handler's `close` run.
pub open spec fn drain_steps(token: usize, flush: bool, closed: bool) -> Seq<Event> {
    if flush {
        if closed {
            seq![Event::Flush(token), Event::Close(token)]
        } else {
            seq![Event::Flush(token)]
        }
    } else {
        seq![Event::Close(token)]
    }
}

/// What the end of an iteration does for the queue `queue`, in its order,
/// where `flushes` are the tokens that asked for a flush and `closed` the
/// tokens whose connections ended.
pub open spec fn drain_record(queue: Seq<usize>, flushes: Set<usize>, closed: Set<usize>) -> Seq<
    Event,
>
    decreases queue.len(),
{
    if queue.len() == 0 {
        Seq::empty()
    } else {
        drain_record(queue.drop_last(), flushes, closed) + drain_steps(
            queue.last(),
            flushes.contains(queue.last()),
            closed.contains(queue.last()),
        )
    }
}

/// The record of a drain depends on the closed tokens only as far as they
/// are queued.
pub proof fn lemma_drain_record_congruent(
    queue: Seq<usize>,
    flushes: Set<usize>,
    closed: Set<usize>,
    other: Set<usize>,
)
    requires
        forall|i: int| 0 <= i < queue.len() ==> (closed.contains(queue[i]) <==> other.contains(
            queue[i],
        )),
    ensures
        drain_record(queue, flushes, closed) == drain_record(queue, flushes, other),
    decreases queue.len(),
{
    if queue.len() > 0 {
        let front = queue.drop_last();
        assert forall|i: int| 0 <= i < front.len() implies (closed.contains(front[i])
            <==> other.contains(front[i])) by {
            assert(front[i] == queue[i]);
        }
        lemma_drain_record_congruent(front, flushes, closed, other);
        assert(closed.contains(queue[queue.len() - 1]) <==> other.contains(
            queue[queue.len() - 1],
        ));
    }
}

/// Every queued token is served by exactly one dispatch of the handler's
/// `flush` or one of its `close`, and a flush is followed by at most one
/// close.
pub proof fn lemma_drain_steps_shape(token: usize, flush: bool, closed: bool)
    ensures
        1 <= drain_steps(token, flush, closed).len() <= 2,
        forall|k: int|
            0 <= k < drain_steps(token, flush, closed).len() ==> drain_steps(
                token,
                flush,
                closed,
            )[k].token() == token && drain_steps(token, flush, closed)[k].serves(),
        drain_steps(token, flush, closed)[0] == if flush {
            Event::Flush(token)
        } else {
            Event::Close(token)
        },
        drain_steps(token, flush, closed).len() == 2 ==> flush && closed && drain_steps(
            token,
            flush,
            closed,
        )[1] == Event::Close(token),
{
}

/// The steps of `h` that were taken for `token`, in their order.
pub open spec fn steps_for(h: Seq<Event>, token: usize) -> Seq<Event> {
    h.filter(|e: Event| e.token() == token)
}

/// All steps that a drain takes for one queued token are steps for that
/// token.
proof fn lemma_steps_for_one_entry(entry: usize, flush: bool, closed: bool, token: usize)
    ensures
        steps_for(drain_steps(entry, flush, closed), token) == if entry == token {
            drain_steps(entry, flush, closed)
        } else {
            Seq::<Event>::empty()
        },
{
    let pred = |e: Event| e.token() == token;
    let steps = drain_steps(entry, flush, closed);
    reveal_with_fuel(Seq::filter, 3);
    if steps.len() == 2 {
        let front = steps.drop_last();
        assert(front.len() == 1);
        assert(front.drop_last() =~= Seq::<Event>::empty());
        assert(front.last() == steps[0]);
        assert(steps.last() == steps[1]);
        assert(front.filter(pred) =~= if entry == token {
            seq![steps[0]]
        } else {
            Seq::<Event>::empty()
        });
        assert(steps.filter(pred) =~= if entry == token {
            steps
        } else {
            Seq::<Event>::empty()
        });
    } else {
        assert(steps.len() == 1);
        assert(steps.drop_last() =~= Seq::<Event>::empty());
        assert(steps.last() == steps[0]);
        assert(steps.filter(pred) =~= if entry == token {
            steps
        } else {
            Seq::<Event>::empty()
        });
    }
}

/// A drain serves every queued token exactly once: for a token that is in
/// the queue (once, as in every queue of a selector) the drain takes the
/// steps of `drain_steps` and no others, and for a token that is not in the
/// queue it takes none.
pub proof fn lemma_drain_serves_each_once(
    queue: Seq<usize>,
    flushes: Set<usize>,
    closed: Set<usize>,
    token: usize,
)
    requires
        queue.no_duplicates(),
    ensures
        steps_for(drain_record(queue, flushes, closed), token) == if queue.contains(token) {
            drain_steps(token, flushes.contains(token), closed.contains(token))
        } else {
            Seq::<Event>::empty()
        },
    decreases queue.len(),
{
    let pred = |e: Event| e.token() == token;
    if queue.len() == 0 {
        lemma_no_steps_in_nothing(token);
        assert(!queue.contains(token));
    } else {
        let front = queue.drop_last();
        let last = queue.last();
        assert(front.no_duplicates()) by {
            assert forall|a: int, b: int|
                0 <= a < front.len() && 0 <= b < front.len() && a != b implies front[a]
                != front[b] by {
                assert(front[a] == queue[a] && front[b] == queue[b]);
            }
        }
        lemma_drain_serves_each_once(front, flushes, closed, token);
        let steps = drain_steps(last, flushes.contains(last), closed.contains(last));
        let earlier = drain_record(front, flushes, closed);
        lemma_steps_for_one_entry(last, flushes.contains(last), closed.contains(last), token);
        Seq::filter_distributes_over_add(earlier, steps, pred);
        assert(drain_record(queue, flushes, closed) == earlier + steps);
        assert(steps_for(drain_record(queue, flushes, closed), token) == steps_for(earlier, token)
            + steps_for(steps, token));
        lemma_contains_by_parts(queue, token);
        if front.contains(token) {
            assert(last != token) by {
                let i = choose|i: int| 0 <= i < front.len() && front[i] == token;
                assert(queue[i] == token);
                assert(queue[queue.len() - 1] != queue[i]);
            }
            assert(steps_for(earlier, token) + Seq::<Event>::empty() =~= steps_for(
                earlier,
                token,
            ));
        } else {
            assert(Seq::<Event>::empty() + steps_for(steps, token) =~= steps_for(steps, token));
        }
    }
}

/// Nothing has no steps.
proof fn lemma_no_steps_in_nothing(token: usize)
    ensures
        steps_for(Seq::<Event>::empty(), token) == Seq::<Event>::empty(),
{
    reveal_with_fuel(Seq::filter, 1);
}

/// A token is in a queue if it is the last one or among those before.
proof fn lemma_contains_by_parts(queue: Seq<usize>, token: usize)
    requires
        queue.len() > 0,
    ensures
        queue.contains(token) <==> queue.drop_last().contains(token) || queue.last() == token,
{
    let front = queue.drop_last();
    if queue.contains(token) {
        let i = choose|i: int| 0 <= i < queue.len() && queue[i] == token;
        if i < queue.len() - 1 {
            assert(front[i] == token);
        }
    }
    if front.contains(token) {
        let i = choose|i: int| 0 <= i < front.len() && front[i] == token;
        assert(queue[i] == token);
    }
    if queue.last() == token {
        assert(queue[queue.len() - 1] == token);
    }
}

} // verus!
