//! Two selectors driven back to back over in-memory streams, without a
//! poller and without a network.

use crate::cursor::CursorView;
use crate::history::Event;
use crate::selector::{Poll, Selector, ServerSocketListener};
use crate::socket::{requests_registered, Registry, SocketState, SocketView};
use crate::stream::mock::{appended, flexed, MockStream, MockView};
use crate::stream::Layer;
use crate::tick_machine::TickMachine;
use vstd::prelude::*;

verus! {

/// The poller of the mock: every stream is taken, nothing is kept.
pub struct MockPoll;

impl<const R: usize, const W: usize> Poll<MockStream<R, W>> for MockPoll {
    /// Every stream is taken as it is.
    open spec fn opens(
        &self,
        after: &Self,
        stream: MockStream<R, W>,
        stream_after: MockStream<R, W>,
        token: usize,
        r: Result<(), ()>,
    ) -> bool {
        r is Ok && stream_after@ == stream@
    }

    /// Every stream is let go as it is.
    open spec fn closes(
        &self,
        after: &Self,
        stream: MockStream<R, W>,
        stream_after: MockStream<R, W>,
    ) -> bool {
        stream_after@ == stream@
    }

    fn open(&mut self, stream: &mut MockStream<R, W>, token: usize) -> (r: Result<(), ()>) {
        Ok(())
    }

    fn close(&mut self, stream: &mut MockStream<R, W>) {
    }
}

/// How a mock run ended.
#[derive(Debug, Clone, Copy, PartialEq, Eq, Structural)]
pub enum MockEnd {
    /// One of the two connections asked to be closed, or is gone.
    Closed,
    /// What one side wrote did not fit into the other side's buffer.
    Overflow,
    /// The rounds that were granted are spent.
    RoundsSpent,
}

/// A selector that is driven by the mock, with the queue of its requests.
pub struct MockSelector<T, const READ_BUF_LEN: usize, const WRITE_BUF_LEN: usize> {
    pub selector: T,
    pub registry: Registry,
}

impl<T, const READ_BUF_LEN: usize, const WRITE_BUF_LEN: usize> MockSelector<
    T,
    READ_BUF_LEN,
    WRITE_BUF_LEN,
> {
    /// Wraps `server` with an empty queue.
    pub fn new(server: T) -> (m: Self)
        ensures
            m.selector == server,
            m.registry@ == Seq::<usize>::empty(),
    {
        MockSelector { selector: server, registry: Registry::new(0) }
    }
}

/// A selector over mock streams.
pub type MockSide<T, const MAX: usize, const R: usize, const W: usize> = Selector<
    T,
    MockPoll,
    MockStream<R, W>,
    MAX,
    R,
    W,
>;

/// Whether `after` is `before` but for the stream of the connection at
/// `token`, which shows `view`.
pub open spec fn restreamed<
    T: ServerSocketListener<R, W>,
    const MAX: usize,
    const R: usize,
    const W: usize,
>(before: &MockSide<T, MAX, R, W>, after: &MockSide<T, MAX, R, W>, token: usize, view: MockView)
    -> bool {
    &&& after.handler() == before.handler()
    &&& after.poller() == before.poller()
    &&& after.history() == before.history()
    &&& after.next_token() == before.next_token()
    &&& after.count() == before.count()
    &&& before.slab_wf() ==> after.slab_wf()
    &&& forall|t: usize| #[trigger] after.occupied(t) <==> before.occupied(t)
    &&& forall|t: usize| before.occupied(t) ==> #[trigger] after.socket(t) == before.socket(t)
    &&& forall|t: usize|
        before.occupied(t) && t != token ==> #[trigger] after.stream(t) == before.stream(t)
    &&& after.stream(token)@ == view
}

/// A selector of which only the stream of one connection changed, and
/// that stream is in order, is in order with the same queue.
pub proof fn lemma_restreamed_wf<
    T: ServerSocketListener<R, W>,
    const MAX: usize,
    const R: usize,
    const W: usize,
>(
    before: &MockSide<T, MAX, R, W>,
    after: &MockSide<T, MAX, R, W>,
    token: usize,
    view: MockView,
    queue: Seq<usize>,
)
    requires
        before.wf(queue),
        before.occupied(token),
        restreamed(before, after, token, view),
        after.stream(token).inv(),
    ensures
        after.wf(queue),
{
    assert forall|t: usize| #[trigger] after.occupied(t) implies {
        &&& t < MAX
        &&& after.socket(t).token == t
        &&& after.socket(t).read_buf.bounded_by(R as nat)
        &&& after.socket(t).write_buf.bounded_by(W as nat)
        &&& after.stream(t).inv()
    } by {
        assert(before.occupied(t));
        assert(after.socket(t) == before.socket(t));
        if t != token {
            assert(after.stream(t) == before.stream(t));
        }
    }
    assert forall|i: int| 0 <= i < queue.len() implies after.occupied(#[trigger] queue[i])
        && after.socket(queue[i]).state != SocketState::Idle by {
        assert(before.occupied(queue[i]));
        assert(after.occupied(queue[i]) <==> before.occupied(queue[i]));
        assert(after.socket(queue[i]) == before.socket(queue[i]));
    }
    assert forall|t: usize| #[trigger]
        after.occupied(t) && after.socket(t).state != SocketState::Idle implies queue.contains(
        t,
    ) by {
        assert(before.occupied(t));
        assert(after.socket(t) == before.socket(t));
    }
    assert forall|t: usize|
        crate::history::live(after.history()).contains(t) <==> #[trigger] after.occupied(t) by {
        assert(after.occupied(t) <==> before.occupied(t));
    }
}

/// Whether a round goes from `b1`, `b2` (queues `q1`, `q2`) to `a1`, `a2`
/// (queues `qa1`, `qa2`) with the answer `end` through these states: `c`
/// after the first carry, `k` after the tick, `d` after the second carry,
/// `r` (queues `rq`) after the reads.
///
/// * What each side wrote is carried over; a carry that does not fit ends
///   the round with `Overflow`.
/// * If a connection then stands in `CloseRequest`, the round ends with
///   `Closed`.
/// * Otherwise the handlers tick if `tick` says so, and what they wrote
///   is carried over; a carry that does not fit ends the round with
///   `Overflow`.
/// * Otherwise each side that has received bytes is served a read, both
///   queues are drained, and the round answers `None`.
pub open spec fn round_through<
    T1: ServerSocketListener<R1, W1>,
    T2: ServerSocketListener<R2, W2>,
    const MAX1: usize,
    const R1: usize,
    const W1: usize,
    const MAX2: usize,
    const R2: usize,
    const W2: usize,
>(
    b1: &MockSide<T1, MAX1, R1, W1>,
    q1: Seq<usize>,
    t1: usize,
    b2: &MockSide<T2, MAX2, R2, W2>,
    q2: Seq<usize>,
    t2: usize,
    tick: bool,
    c1: &MockSide<T1, MAX1, R1, W1>,
    c2: &MockSide<T2, MAX2, R2, W2>,
    k1: &MockSide<T1, MAX1, R1, W1>,
    k2: &MockSide<T2, MAX2, R2, W2>,
    d1: &MockSide<T1, MAX1, R1, W1>,
    d2: &MockSide<T2, MAX2, R2, W2>,
    r1: &MockSide<T1, MAX1, R1, W1>,
    rq1: Seq<usize>,
    r2: &MockSide<T2, MAX2, R2, W2>,
    rq2: Seq<usize>,
    a1: &MockSide<T1, MAX1, R1, W1>,
    qa1: Seq<usize>,
    a2: &MockSide<T2, MAX2, R2, W2>,
    qa2: Seq<usize>,
    end: Option<MockEnd>,
) -> bool {
    let first = flexed(b1.stream(t1)@, b2.stream(t2)@, W1 as int, W2 as int);
    &&& restreamed(b1, c1, t1, first.1)
    &&& restreamed(b2, c2, t2, first.2)
    &&& if !first.0 {
        end == Some(MockEnd::Overflow) && *a1 == *c1 && *a2 == *c2 && qa1 == q1 && qa2 == q2
    } else if c1.socket(t1).state == SocketState::CloseRequest || c2.socket(t2).state
        == SocketState::CloseRequest {
        end == Some(MockEnd::Closed) && *a1 == *c1 && *a2 == *c2 && qa1 == q1 && qa2 == q2
    } else {
        let second = flexed(k1.stream(t1)@, k2.stream(t2)@, W1 as int, W2 as int);
        &&& if tick {
            c1.tick_post(k1) && c2.tick_post(k2)
        } else {
            *k1 == *c1 && *k2 == *c2
        }
        &&& restreamed(k1, d1, t1, second.1)
        &&& restreamed(k2, d2, t2, second.2)
        &&& if !second.0 {
            end == Some(MockEnd::Overflow) && *a1 == *d1 && *a2 == *d2 && qa1 == q1 && qa2 == q2
        } else {
            &&& if d1.stream(t1)@.incoming.remaining() != 0 {
                d1.read_post(r1, t1, q1, rq1)
            } else {
                *r1 == *d1 && rq1 == q1
            }
            &&& if d2.stream(t2)@.incoming.remaining() != 0 {
                d2.read_post(r2, t2, q2, rq2)
            } else {
                *r2 == *d2 && rq2 == q2
            }
            &&& r1.drain_post(a1, rq1)
            &&& r2.drain_post(a2, rq2)
            &&& qa1 == Seq::<usize>::empty()
            &&& qa2 == Seq::<usize>::empty()
            &&& end is None
        }
    }
}

/// Whether one round for the connections `t1` and `t2` goes from `b1`,
/// `b2` to `a1`, `a2` with the answer `end`: when a connection is not
/// held, nothing happens and the answer is `Closed`; otherwise the round
/// runs as `round_through` says.
pub open spec fn round_post<
    T1: ServerSocketListener<R1, W1>,
    T2: ServerSocketListener<R2, W2>,
    const MAX1: usize,
    const R1: usize,
    const W1: usize,
    const MAX2: usize,
    const R2: usize,
    const W2: usize,
>(
    b1: &MockSide<T1, MAX1, R1, W1>,
    q1: Seq<usize>,
    t1: usize,
    b2: &MockSide<T2, MAX2, R2, W2>,
    q2: Seq<usize>,
    t2: usize,
    tick: bool,
    a1: &MockSide<T1, MAX1, R1, W1>,
    qa1: Seq<usize>,
    a2: &MockSide<T2, MAX2, R2, W2>,
    qa2: Seq<usize>,
    end: Option<MockEnd>,
) -> bool {
    if !b1.occupied(t1) || !b2.occupied(t2) {
        end == Some(MockEnd::Closed) && *a1 == *b1 && *a2 == *b2 && qa1 == q1 && qa2 == q2
    } else {
        exists|
            c1: MockSide<T1, MAX1, R1, W1>,
            c2: MockSide<T2, MAX2, R2, W2>,
            k1: MockSide<T1, MAX1, R1, W1>,
            k2: MockSide<T2, MAX2, R2, W2>,
            d1: MockSide<T1, MAX1, R1, W1>,
            d2: MockSide<T2, MAX2, R2, W2>,
            r1: MockSide<T1, MAX1, R1, W1>,
            rq1: Seq<usize>,
            r2: MockSide<T2, MAX2, R2, W2>,
            rq2: Seq<usize>,
        | #[trigger]
            round_through(
                b1,
                q1,
                t1,
                b2,
                q2,
                t2,
                tick,
                &c1,
                &c2,
                &k1,
                &k2,
                &d1,
                &d2,
                &r1,
                rq1,
                &r2,
                rq2,
                a1,
                qa1,
                a2,
                qa2,
                end,
            )
    }
}

/// A beginning of a beginning is a beginning.
proof fn lemma_prefix_chain(a: Seq<Event>, b: Seq<Event>, c: Seq<Event>)
    requires
        a.is_prefix_of(b),
        b.is_prefix_of(c),
    ensures
        a.is_prefix_of(c),
{
    assert(a =~= c.subrange(0, a.len() as int)) by {
        assert(a =~= b.subrange(0, a.len() as int));
        assert(b =~= c.subrange(0, b.len() as int));
    }
}

/// One round of a mock run for the connection `token1` of `selector1` and
/// the connection `token2` of `selector2`, as `round_post` says. The
/// round never answers `RoundsSpent`, and it only adds to the records.
pub fn mock_round<
    T1: ServerSocketListener<R1, W1>,
    T2: ServerSocketListener<R2, W2>,
    const MAX1: usize,
    const R1: usize,
    const W1: usize,
    const MAX2: usize,
    const R2: usize,
    const W2: usize,
>(
    selector1: &mut MockSide<T1, MAX1, R1, W1>,
    registry1: &mut Registry,
    token1: usize,
    selector2: &mut MockSide<T2, MAX2, R2, W2>,
    registry2: &mut Registry,
    token2: usize,
    tick: bool,
) -> (end: Option<MockEnd>)
    requires
        old(selector1).wf(old(registry1)@),
        old(selector2).wf(old(registry2)@),
    ensures
        final(selector1).wf(final(registry1)@),
        final(selector2).wf(final(registry2)@),
        round_post(
            old(selector1),
            old(registry1)@,
            token1,
            old(selector2),
            old(registry2)@,
            token2,
            tick,
            final(selector1),
            final(registry1)@,
            final(selector2),
            final(registry2)@,
            end,
        ),
        end != Some(MockEnd::RoundsSpent),
        old(selector1).history().is_prefix_of(final(selector1).history()),
        old(selector2).history().is_prefix_of(final(selector2).history()),
        end == Some(MockEnd::Closed) ==> !final(selector1).occupied(token1)
            || !final(selector2).occupied(token2)
            || final(selector1).socket(token1).state == SocketState::CloseRequest
            || final(selector2).socket(token2).state == SocketState::CloseRequest,
{
    if !selector1.contains(token1) || !selector2.contains(token2) {
        return Some(MockEnd::Closed);
    }
    let ghost q1 = registry1@;
    let ghost q2 = registry2@;
    let ghost b1 = *selector1;
    let ghost b2 = *selector2;
    let carried = {
        let stream1 = selector1.stream_mut(token1);
        let stream2 = selector2.stream_mut(token2);
        stream1.flex(stream2)
    };
    let ghost c1 = *selector1;
    let ghost c2 = *selector2;
    let ghost first = flexed(b1.stream(token1)@, b2.stream(token2)@, W1 as int, W2 as int);
    proof {
        assert(restreamed(&b1, &c1, token1, first.1));
        assert(restreamed(&b2, &c2, token2, first.2));
        lemma_restreamed_wf(&b1, &c1, token1, first.1, q1);
        lemma_restreamed_wf(&b2, &c2, token2, first.2, q2);
    }
    match carried {
        Ok(()) => {},
        Err(()) => {
            assert(round_through(
                &b1, q1, token1, &b2, q2, token2, tick, &c1, &c2, &c1, &c2, &c1, &c2, &c1, q1,
                &c2, q2, selector1, registry1@, selector2, registry2@,
                Some(MockEnd::Overflow),
            ));
            return Some(MockEnd::Overflow);
        },
    }
    let state1 = selector1.state_of(token1);
    let state2 = selector2.state_of(token2);
    if state1 == Some(SocketState::CloseRequest) || state2 == Some(SocketState::CloseRequest) {
        assert(round_through(
            &b1, q1, token1, &b2, q2, token2, tick, &c1, &c2, &c1, &c2, &c1, &c2, &c1, q1, &c2,
            q2, selector1, registry1@, selector2, registry2@, Some(MockEnd::Closed),
        ));
        return Some(MockEnd::Closed);
    }
    if tick {
        selector1.tick();
        selector2.tick();
        proof {
            c1.lemma_kept_wf(selector1, q1);
            c2.lemma_kept_wf(selector2, q2);
        }
    }
    let ghost k1 = *selector1;
    let ghost k2 = *selector2;
    assert(selector1.occupied(token1) && selector2.occupied(token2)) by {
        assert(b1.occupied(token1) && b2.occupied(token2));
        assert(c1.occupied(token1) && c2.occupied(token2));
    }
    let carried = {
        let stream1 = selector1.stream_mut(token1);
        let stream2 = selector2.stream_mut(token2);
        stream1.flex(stream2)
    };
    let ghost d1 = *selector1;
    let ghost d2 = *selector2;
    let ghost second = flexed(k1.stream(token1)@, k2.stream(token2)@, W1 as int, W2 as int);
    proof {
        assert(restreamed(&k1, &d1, token1, second.1));
        assert(restreamed(&k2, &d2, token2, second.2));
        lemma_restreamed_wf(&k1, &d1, token1, second.1, q1);
        lemma_restreamed_wf(&k2, &d2, token2, second.2, q2);
    }
    match carried {
        Ok(()) => {},
        Err(()) => {
            assert(round_through(
                &b1, q1, token1, &b2, q2, token2, tick, &c1, &c2, &k1, &k2, &d1, &d2, &d1, q1,
                &d2, q2, selector1, registry1@, selector2, registry2@,
                Some(MockEnd::Overflow),
            ));
            return Some(MockEnd::Overflow);
        },
    }
    assert(d1.occupied(token1) && d2.occupied(token2));
    if selector1.stream_ref(token1).stream_write_buf.remaining() != 0 {
        selector1.read(token1, registry1);
    }
    if selector2.stream_ref(token2).stream_write_buf.remaining() != 0 {
        selector2.read(token2, registry2);
    }
    let ghost r1 = *selector1;
    let ghost r2 = *selector2;
    let ghost rq1 = registry1@;
    let ghost rq2 = registry2@;
    proof {
        assert(d1.history().is_prefix_of(r1.history())) by {
            if r1.history() != d1.history() {
                assert(r1.history().drop_last() =~= d1.history());
            }
        }
        assert(d2.history().is_prefix_of(r2.history())) by {
            if r2.history() != d2.history() {
                assert(r2.history().drop_last() =~= d2.history());
            }
        }
    }
    selector1.flush_registry(registry1);
    selector2.flush_registry(registry2);
    proof {
        assert(round_through(
            &b1, q1, token1, &b2, q2, token2, tick, &c1, &c2, &k1, &k2, &d1, &d2, &r1, rq1, &r2,
            rq2, selector1, registry1@, selector2, registry2@, None,
        ));
        lemma_prefix_chain(b1.history(), r1.history(), selector1.history());
        lemma_prefix_chain(b2.history(), r2.history(), selector2.history());
    }
    None
}

/// Whether the sequences are the selectors and queues that `rounds`
/// completed rounds go through, the round at each place ticking as `ticks`
/// says.
pub open spec fn rounds_chained<
    T1: ServerSocketListener<R1, W1>,
    T2: ServerSocketListener<R2, W2>,
    const MAX1: usize,
    const R1: usize,
    const W1: usize,
    const MAX2: usize,
    const R2: usize,
    const W2: usize,
>(
    s1: Seq<MockSide<T1, MAX1, R1, W1>>,
    qs1: Seq<Seq<usize>>,
    t1: usize,
    s2: Seq<MockSide<T2, MAX2, R2, W2>>,
    qs2: Seq<Seq<usize>>,
    t2: usize,
    ticks: Seq<bool>,
    rounds: int,
) -> bool {
    &&& 0 <= rounds
    &&& s1.len() == rounds + 1
    &&& qs1.len() == rounds + 1
    &&& s2.len() == rounds + 1
    &&& qs2.len() == rounds + 1
    &&& ticks.len() == rounds
    &&& forall|i: int|
        0 <= i < rounds ==> round_post(
            &(#[trigger] s1[i]),
            qs1[i],
            t1,
            &s2[i],
            qs2[i],
            t2,
            ticks[i],
            &s1[i + 1],
            qs1[i + 1],
            &s2[i + 1],
            qs2[i + 1],
            None::<MockEnd>,
        )
}

/// Whether a run of at most `max_rounds` rounds goes from `b1`, `b2` to
/// `a1`, `a2`, completing `rounds` rounds and ending with `end`, through
/// the states `s1`, `s2`: every completed round answers `None`; the run
/// ends with `RoundsSpent` after `max_rounds` of them, or earlier with
/// what one more round answers. Where `always_tick` holds, every round
/// ticks; otherwise `ticks` and `last_tick` say which do.
pub open spec fn run_through<
    T1: ServerSocketListener<R1, W1>,
    T2: ServerSocketListener<R2, W2>,
    const MAX1: usize,
    const R1: usize,
    const W1: usize,
    const MAX2: usize,
    const R2: usize,
    const W2: usize,
>(
    b1: &MockSide<T1, MAX1, R1, W1>,
    q1: Seq<usize>,
    t1: usize,
    b2: &MockSide<T2, MAX2, R2, W2>,
    q2: Seq<usize>,
    t2: usize,
    always_tick: bool,
    max_rounds: int,
    s1: Seq<MockSide<T1, MAX1, R1, W1>>,
    qs1: Seq<Seq<usize>>,
    s2: Seq<MockSide<T2, MAX2, R2, W2>>,
    qs2: Seq<Seq<usize>>,
    ticks: Seq<bool>,
    last_tick: bool,
    a1: &MockSide<T1, MAX1, R1, W1>,
    qa1: Seq<usize>,
    a2: &MockSide<T2, MAX2, R2, W2>,
    qa2: Seq<usize>,
    end: MockEnd,
    rounds: int,
) -> bool {
    &&& rounds <= max_rounds
    &&& rounds_chained(s1, qs1, t1, s2, qs2, t2, ticks, rounds)
    &&& s1[0] == *b1
    &&& qs1[0] == q1
    &&& s2[0] == *b2
    &&& qs2[0] == q2
    &&& always_tick ==> last_tick && forall|i: int| 0 <= i < rounds ==> #[trigger] ticks[i]
    &&& if end == MockEnd::RoundsSpent {
        &&& rounds == max_rounds
        &&& s1.last() == *a1
        &&& qs1.last() == qa1
        &&& s2.last() == *a2
        &&& qs2.last() == qa2
    } else {
        &&& rounds < max_rounds
        &&& round_post(
            &s1.last(),
            qs1.last(),
            t1,
            &s2.last(),
            qs2.last(),
            t2,
            last_tick,
            a1,
            qa1,
            a2,
            qa2,
            Some(end),
        )
    }
}

/// Whether a run of at most `max_rounds` rounds for the connections `t1`
/// and `t2` goes from `b1`, `b2` to `a1`, `a2`, completing `rounds` rounds
/// and ending with `end`, as `run_through` says for some states.
pub open spec fn run_post<
    T1: ServerSocketListener<R1, W1>,
    T2: ServerSocketListener<R2, W2>,
    const MAX1: usize,
    const R1: usize,
    const W1: usize,
    const MAX2: usize,
    const R2: usize,
    const W2: usize,
>(
    b1: &MockSide<T1, MAX1, R1, W1>,
    q1: Seq<usize>,
    t1: usize,
    b2: &MockSide<T2, MAX2, R2, W2>,
    q2: Seq<usize>,
    t2: usize,
    always_tick: bool,
    max_rounds: int,
    a1: &MockSide<T1, MAX1, R1, W1>,
    qa1: Seq<usize>,
    a2: &MockSide<T2, MAX2, R2, W2>,
    qa2: Seq<usize>,
    end: MockEnd,
    rounds: int,
) -> bool {
    exists|
        s1: Seq<MockSide<T1, MAX1, R1, W1>>,
        qs1: Seq<Seq<usize>>,
        s2: Seq<MockSide<T2, MAX2, R2, W2>>,
        qs2: Seq<Seq<usize>>,
        ticks: Seq<bool>,
        last_tick: bool,
    | #[trigger]
        run_through(
            b1,
            q1,
            t1,
            b2,
            q2,
            t2,
            always_tick,
            max_rounds,
            s1,
            qs1,
            s2,
            qs2,
            ticks,
            last_tick,
            a1,
            qa1,
            a2,
            qa2,
            end,
            rounds,
        )
}

/// Whether a mock run goes from `b1`, `b2` to `a1`, `a2` through these
/// states: each side first accepts a connection over a fresh mock stream
/// (`x1`, `x2`), which gives `m1`, `m2`, and then the rounds run for the
/// two tokens that were given.
pub open spec fn entered_through<
    T1: ServerSocketListener<R1, W1>,
    T2: ServerSocketListener<R2, W2>,
    const MAX1: usize,
    const R1: usize,
    const W1: usize,
    const MAX2: usize,
    const R2: usize,
    const W2: usize,
>(
    b1: &MockSide<T1, MAX1, R1, W1>,
    q1: Seq<usize>,
    b2: &MockSide<T2, MAX2, R2, W2>,
    q2: Seq<usize>,
    always_tick: bool,
    max_rounds: int,
    x1: MockStream<R1, W1>,
    x2: MockStream<R2, W2>,
    m1: &MockSide<T1, MAX1, R1, W1>,
    mq1: Seq<usize>,
    m2: &MockSide<T2, MAX2, R2, W2>,
    mq2: Seq<usize>,
    a1: &MockSide<T1, MAX1, R1, W1>,
    qa1: Seq<usize>,
    a2: &MockSide<T2, MAX2, R2, W2>,
    qa2: Seq<usize>,
    end: MockEnd,
    rounds: int,
) -> bool {
    &&& x1@ == MockView::fresh()
    &&& x2@ == MockView::fresh()
    &&& b1.next_token() is Some
    &&& b2.next_token() is Some
    &&& b1.accept_post(m1, x1, q1, mq1, true)
    &&& b2.accept_post(m2, x2, q2, mq2, true)
    &&& run_post(
        m1,
        mq1,
        b1.next_token().unwrap(),
        m2,
        mq2,
        b2.next_token().unwrap(),
        always_tick,
        max_rounds,
        a1,
        qa1,
        a2,
        qa2,
        end,
        rounds,
    )
}

/// Whether a mock run goes from `b1`, `b2` to `a1`, `a2`, completing
/// `rounds` rounds and ending with `end`, as `entered_through` says for
/// some states.
pub open spec fn entered<
    T1: ServerSocketListener<R1, W1>,
    T2: ServerSocketListener<R2, W2>,
    const MAX1: usize,
    const R1: usize,
    const W1: usize,
    const MAX2: usize,
    const R2: usize,
    const W2: usize,
>(
    b1: &MockSide<T1, MAX1, R1, W1>,
    q1: Seq<usize>,
    b2: &MockSide<T2, MAX2, R2, W2>,
    q2: Seq<usize>,
    always_tick: bool,
    max_rounds: int,
    a1: &MockSide<T1, MAX1, R1, W1>,
    qa1: Seq<usize>,
    a2: &MockSide<T2, MAX2, R2, W2>,
    qa2: Seq<usize>,
    end: MockEnd,
    rounds: int,
) -> bool {
    exists|
        x1: MockStream<R1, W1>,
        x2: MockStream<R2, W2>,
        m1: MockSide<T1, MAX1, R1, W1>,
        mq1: Seq<usize>,
        m2: MockSide<T2, MAX2, R2, W2>,
        mq2: Seq<usize>,
    | #[trigger]
        entered_through(
            b1,
            q1,
            b2,
            q2,
            always_tick,
            max_rounds,
            x1,
            x2,
            &m1,
            mq1,
            &m2,
            mq2,
            a1,
            qa1,
            a2,
            qa2,
            end,
            rounds,
        )
}

/// Runs rounds for the two connections until one ends the run or
/// `max_rounds` are completed, as `run_post` says. With a clock the
/// handlers tick when it says so, without one in every round.
fn run_rounds<
    T1: ServerSocketListener<R1, W1>,
    T2: ServerSocketListener<R2, W2>,
    const MAX1: usize,
    const R1: usize,
    const W1: usize,
    const MAX2: usize,
    const R2: usize,
    const W2: usize,
>(
    selector1: &mut MockSide<T1, MAX1, R1, W1>,
    registry1: &mut Registry,
    token1: usize,
    selector2: &mut MockSide<T2, MAX2, R2, W2>,
    registry2: &mut Registry,
    token2: usize,
    max_rounds: usize,
    clock: Option<TickMachine>,
) -> (run: (MockEnd, usize))
    requires
        old(selector1).wf(old(registry1)@),
        old(selector2).wf(old(registry2)@),
    ensures
        final(selector1).wf(final(registry1)@),
        final(selector2).wf(final(registry2)@),
        run_post(
            old(selector1),
            old(registry1)@,
            token1,
            old(selector2),
            old(registry2)@,
            token2,
            clock is None,
            max_rounds as int,
            final(selector1),
            final(registry1)@,
            final(selector2),
            final(registry2)@,
            run.0,
            run.1 as int,
        ),
        old(selector1).history().is_prefix_of(final(selector1).history()),
        old(selector2).history().is_prefix_of(final(selector2).history()),
        run.0 == MockEnd::Closed ==> !final(selector1).occupied(token1)
            || !final(selector2).occupied(token2)
            || final(selector1).socket(token1).state == SocketState::CloseRequest
            || final(selector2).socket(token2).state == SocketState::CloseRequest,
{
    let mut timer = clock;
    let ghost always_tick = clock is None;
    let ghost b1 = *selector1;
    let ghost b2 = *selector2;
    let ghost q1 = registry1@;
    let ghost q2 = registry2@;
    let ghost mut s1: Seq<MockSide<T1, MAX1, R1, W1>> = seq![b1];
    let ghost mut s2: Seq<MockSide<T2, MAX2, R2, W2>> = seq![b2];
    let ghost mut qs1: Seq<Seq<usize>> = seq![q1];
    let ghost mut qs2: Seq<Seq<usize>> = seq![q2];
    let ghost mut ticks: Seq<bool> = Seq::empty();
    let mut rounds: usize = 0;
    while rounds < max_rounds
        invariant
            rounds <= max_rounds,
            always_tick == (clock is None),
            (timer is None) == (clock is None),
            b1 == *old(selector1),
            b2 == *old(selector2),
            q1 == old(registry1)@,
            q2 == old(registry2)@,
            selector1.wf(registry1@),
            selector2.wf(registry2@),
            rounds_chained(s1, qs1, token1, s2, qs2, token2, ticks, rounds as int),
            s1[0] == b1,
            qs1[0] == q1,
            s2[0] == b2,
            qs2[0] == q2,
            s1.last() == *selector1,
            qs1.last() == registry1@,
            s2.last() == *selector2,
            qs2.last() == registry2@,
            always_tick ==> forall|i: int| 0 <= i < rounds ==> #[trigger] ticks[i],
            b1.history().is_prefix_of(selector1.history()),
            b2.history().is_prefix_of(selector2.history()),
        decreases max_rounds - rounds,
    {
        let due = match &mut timer {
            Some(machine) => machine.tick(),
            None => true,
        };
        let ghost p1 = *selector1;
        let ghost p2 = *selector2;
        let ghost pq1 = registry1@;
        let ghost pq2 = registry2@;
        let end = mock_round(
            selector1,
            registry1,
            token1,
            selector2,
            registry2,
            token2,
            due,
        );
        proof {
            lemma_prefix_chain(b1.history(), p1.history(), selector1.history());
            lemma_prefix_chain(b2.history(), p2.history(), selector2.history());
        }
        match end {
            Some(end) => {
                proof {
                    assert(run_through(
                        &b1, q1, token1, &b2, q2, token2, always_tick, max_rounds as int, s1,
                        qs1, s2, qs2, ticks, due, selector1, registry1@, selector2, registry2@,
                        end, rounds as int,
                    ));
                }
                return (end, rounds);
            },
            None => {},
        }
        proof {
            let o1 = s1;
            let o2 = s2;
            let oq1 = qs1;
            let oq2 = qs2;
            let oticks = ticks;
            s1 = s1.push(*selector1);
            s2 = s2.push(*selector2);
            qs1 = qs1.push(registry1@);
            qs2 = qs2.push(registry2@);
            ticks = ticks.push(due);
            assert forall|i: int| 0 <= i < rounds + 1 implies round_post(
                &(#[trigger] s1[i]),
                qs1[i],
                token1,
                &s2[i],
                qs2[i],
                token2,
                ticks[i],
                &s1[i + 1],
                qs1[i + 1],
                &s2[i + 1],
                qs2[i + 1],
                None::<MockEnd>,
            ) by {
                if i < rounds {
                    assert(s1[i] == o1[i] && s1[i + 1] == o1[i + 1]);
                    assert(s2[i] == o2[i] && s2[i + 1] == o2[i + 1]);
                    assert(qs1[i] == oq1[i] && qs1[i + 1] == oq1[i + 1]);
                    assert(qs2[i] == oq2[i] && qs2[i + 1] == oq2[i + 1]);
                    assert(ticks[i] == oticks[i]);
                    assert(round_post(
                        &o1[i],
                        oq1[i],
                        token1,
                        &o2[i],
                        oq2[i],
                        token2,
                        oticks[i],
                        &o1[i + 1],
                        oq1[i + 1],
                        &o2[i + 1],
                        oq2[i + 1],
                        None::<MockEnd>,
                    ));
                } else {
                    assert(s1[i] == p1 && s2[i] == p2 && qs1[i] == pq1 && qs2[i] == pq2);
                }
            }
        }
        rounds = rounds + 1;
    }
    proof {
        assert(run_through(
            &b1, q1, token1, &b2, q2, token2, always_tick, max_rounds as int, s1, qs1, s2, qs2,
            ticks, true, selector1, registry1@, selector2, registry2@, MockEnd::RoundsSpent,
            rounds as int,
        ));
    }
    (MockEnd::RoundsSpent, rounds)
}

/// Lets each side accept a connection over a fresh mock stream and runs
/// the rounds for the two, as `entered` says.
fn enter<
    T1: ServerSocketListener<R1, W1>,
    T2: ServerSocketListener<R2, W2>,
    const MAX1: usize,
    const R1: usize,
    const W1: usize,
    const MAX2: usize,
    const R2: usize,
    const W2: usize,
>(
    selector1: &mut MockSide<T1, MAX1, R1, W1>,
    registry1: &mut Registry,
    selector2: &mut MockSide<T2, MAX2, R2, W2>,
    registry2: &mut Registry,
    max_rounds: usize,
    clock: Option<TickMachine>,
) -> (run: (MockEnd, usize))
    where T1::Connection: Default, T2::Connection: Default
    requires
        old(selector1).wf(old(registry1)@),
        old(selector2).wf(old(registry2)@),
        old(selector1).count() < MAX1,
        old(selector2).count() < MAX2,
    ensures
        final(selector1).wf(final(registry1)@),
        final(selector2).wf(final(registry2)@),
        entered(
            old(selector1),
            old(registry1)@,
            old(selector2),
            old(registry2)@,
            clock is None,
            max_rounds as int,
            final(selector1),
            final(registry1)@,
            final(selector2),
            final(registry2)@,
            run.0,
            run.1 as int,
        ),
        old(selector1).next_token() matches Some(t1) && old(selector1).history().push(
            Event::Accept(t1),
        ).is_prefix_of(final(selector1).history()),
        old(selector2).next_token() matches Some(t2) && old(selector2).history().push(
            Event::Accept(t2),
        ).is_prefix_of(final(selector2).history()),
        run.0 == MockEnd::Closed ==> {
            let t1 = old(selector1).next_token().unwrap();
            let t2 = old(selector2).next_token().unwrap();
            !final(selector1).occupied(t1) || !final(selector2).occupied(t2)
                || final(selector1).socket(t1).state == SocketState::CloseRequest
                || final(selector2).socket(t2).state == SocketState::CloseRequest
        },
{
    let ghost b1 = *selector1;
    let ghost b2 = *selector2;
    let ghost q1 = registry1@;
    let ghost q2 = registry2@;
    let token1 = match selector1.peek_token() {
        Some(token) => token,
        None => {
            return (MockEnd::Closed, 0);
        },
    };
    let token2 = match selector2.peek_token() {
        Some(token) => token,
        None => {
            return (MockEnd::Closed, 0);
        },
    };
    let stream1: MockStream<R1, W1> = MockStream::new();
    let stream2: MockStream<R2, W2> = MockStream::new();
    let ghost x1 = stream1;
    let ghost x2 = stream2;
    let _ = selector1.accept(stream1, registry1);
    let _ = selector2.accept(stream2, registry2);
    let ghost m1 = *selector1;
    let ghost m2 = *selector2;
    let ghost mq1 = registry1@;
    let ghost mq2 = registry2@;
    let run = run_rounds(
        selector1,
        registry1,
        token1,
        selector2,
        registry2,
        token2,
        max_rounds,
        clock,
    );
    proof {
        assert(m1.history() == b1.history().push(Event::Accept(token1)));
        assert(m2.history() == b2.history().push(Event::Accept(token2)));
        assert(entered_through(
            &b1, q1, &b2, q2, clock is None, max_rounds as int, x1, x2, &m1, mq1, &m2, mq2,
            selector1, registry1@, selector2, registry2@, run.0, run.1 as int,
        ));
    }
    run
}

impl<
    T1: ServerSocketListener<R1, W1>,
    const MAX1: usize,
    const R1: usize,
    const W1: usize,
> MockSelector<MockSide<T1, MAX1, R1, W1>, R1, W1> {
    /// Connects this selector and `server` by a fresh pair of mock streams
    /// and runs rounds, with a tick in each, until the run ends or
    /// `max_rounds` rounds are completed, as `entered` says. Returns how
    /// the run ended and the number of rounds that were completed.
    pub fn entry_point<
        T2: ServerSocketListener<R2, W2>,
        const MAX2: usize,
        const R2: usize,
        const W2: usize,
    >(
        &mut self,
        server: &mut MockSelector<MockSide<T2, MAX2, R2, W2>, R2, W2>,
        max_rounds: usize,
    ) -> (run: (MockEnd, usize))
        where T1::Connection: Default, T2::Connection: Default
        requires
            old(self).selector.wf(old(self).registry@),
            old(server).selector.wf(old(server).registry@),
            old(self).selector.count() < MAX1,
            old(server).selector.count() < MAX2,
        ensures
            final(self).selector.wf(final(self).registry@),
            final(server).selector.wf(final(server).registry@),
            entered(
                &old(self).selector,
                old(self).registry@,
                &old(server).selector,
                old(server).registry@,
                true,
                max_rounds as int,
                &final(self).selector,
                final(self).registry@,
                &final(server).selector,
                final(server).registry@,
                run.0,
                run.1 as int,
            ),
            old(self).selector.next_token() matches Some(t1) && old(
                self,
            ).selector.history().push(Event::Accept(t1)).is_prefix_of(
                final(self).selector.history(),
            ),
            old(server).selector.next_token() matches Some(t2) && old(
                server,
            ).selector.history().push(Event::Accept(t2)).is_prefix_of(
                final(server).selector.history(),
            ),
            run.0 == MockEnd::Closed ==> {
                let t1 = old(self).selector.next_token().unwrap();
                let t2 = old(server).selector.next_token().unwrap();
                !final(self).selector.occupied(t1) || !final(server).selector.occupied(t2)
                    || final(self).selector.socket(t1).state == SocketState::CloseRequest
                    || final(server).selector.socket(t2).state == SocketState::CloseRequest
            },
    {
        enter(
            &mut self.selector,
            &mut self.registry,
            &mut server.selector,
            &mut server.registry,
            max_rounds,
            None,
        )
    }
}

/// Whether `selector` is a new selector for `server`: it holds no
/// connection, its record is empty, and the first token it gives is zero.
pub open spec fn is_new<
    T: ServerSocketListener<R, W>,
    const MAX: usize,
    const R: usize,
    const W: usize,
>(selector: &MockSide<T, MAX, R, W>, server: T) -> bool {
    &&& selector.wf(Seq::empty())
    &&& selector.handler() == server
    &&& selector.history() == Seq::<Event>::empty()
    &&& selector.count() == 0
    &&& selector.next_token() == Some(0usize)
    &&& forall|t: usize| !selector.occupied(t)
}

/// Runs `server1` and `server2` against each other over one pair of mock
/// streams, the handlers ticking once per `tick_nanos` nanoseconds, until
/// the run ends or `max_rounds` rounds are completed. Returns how the run
/// ended, the number of rounds that were completed, and the two selectors
/// as the run left them: they are what `entered` says of two new
/// selectors for the two servers.
pub fn run_mock<
    T1: ServerSocketListener<R1, W1>,
    T2: ServerSocketListener<R2, W2>,
    const MAX1: usize,
    const R1: usize,
    const W1: usize,
    const MAX2: usize,
    const R2: usize,
    const W2: usize,
>(server1: T1, server2: T2, tick_nanos: u64, max_rounds: usize) -> (run: (
    MockEnd,
    usize,
    MockSelector<MockSide<T1, MAX1, R1, W1>, R1, W1>,
    MockSelector<MockSide<T2, MAX2, R2, W2>, R2, W2>,
))
    where T1::Connection: Default, T2::Connection: Default
    requires
        MAX1 > 0,
        MAX2 > 0,
    ensures
        run.2.selector.wf(run.2.registry@),
        run.3.selector.wf(run.3.registry@),
        exists|n1: MockSide<T1, MAX1, R1, W1>, n2: MockSide<T2, MAX2, R2, W2>| #[trigger]
            is_new(&n1, server1) && #[trigger] is_new(&n2, server2) && entered(
                &n1,
                Seq::empty(),
                &n2,
                Seq::empty(),
                false,
                max_rounds as int,
                &run.2.selector,
                run.2.registry@,
                &run.3.selector,
                run.3.registry@,
                run.0,
                run.1 as int,
            ),
        seq![Event::Accept(0)].is_prefix_of(run.2.selector.history()),
        seq![Event::Accept(0)].is_prefix_of(run.3.selector.history()),
        run.0 == MockEnd::Closed ==> !run.2.selector.occupied(0) || !run.3.selector.occupied(0)
            || run.2.selector.socket(0).state == SocketState::CloseRequest
            || run.3.selector.socket(0).state == SocketState::CloseRequest,
{
    let mut first: MockSelector<MockSide<T1, MAX1, R1, W1>, R1, W1> = MockSelector {
        selector: Selector::new(server1, MockPoll),
        registry: Registry::new(MAX1),
    };
    let mut second: MockSelector<MockSide<T2, MAX2, R2, W2>, R2, W2> = MockSelector {
        selector: Selector::new(server2, MockPoll),
        registry: Registry::new(MAX2),
    };
    let ghost n1 = first.selector;
    let ghost n2 = second.selector;
    let clock = TickMachine::new(tick_nanos);
    let run = enter(
        &mut first.selector,
        &mut first.registry,
        &mut second.selector,
        &mut second.registry,
        max_rounds,
        Some(clock),
    );
    proof {
        assert(is_new(&n1, server1) && is_new(&n2, server2));
        assert(Seq::<Event>::empty().push(Event::Accept(0)) =~= seq![Event::Accept(0)]);
    }
    (run.0, run.1, first, second)
}

/// What the other end sent is not lost: when a selector serves the
/// readiness of a connection over a mock stream, either the handler's
/// `read` runs on the connection with everything that was sent standing
/// behind what its read buffer held, or the handler is not called, nothing
/// has moved, and the connection awaits its close.
pub proof fn lemma_sent_bytes_arrive_or_connection_closes<
    T: ServerSocketListener<R, W>,
    const MAX: usize,
    const R: usize,
    const W: usize,
>(
    before: &MockSide<T, MAX, R, W>,
    after: &MockSide<T, MAX, R, W>,
    token: usize,
    queue: Seq<usize>,
    queue_after: Seq<usize>,
)
    requires
        before.read_step(after, token, queue, queue_after),
    ensures
        ({
            let sent = before.stream(token)@.incoming;
            let held = before.socket(token).read_buf;
            let arrived = SocketView { read_buf: appended(held, sent), ..before.socket(token) };
            ||| {
                &&& after.history() == before.history().push(Event::Read(token))
                &&& after.stream(token)@.incoming == CursorView::empty()
                &&& before.handler().reads(&after.handler(), arrived, after.socket(token))
                &&& requests_registered(arrived, queue, after.socket(token), queue_after)
            }
            ||| {
                &&& after.history() == before.history()
                &&& after.handler() == before.handler()
                &&& after.stream(token)@.incoming == sent
                &&& after.socket(token) == (SocketView {
                    state: SocketState::CloseRequest,
                    ..before.socket(token)
                })
            }
        }),
{
}

} // verus!
