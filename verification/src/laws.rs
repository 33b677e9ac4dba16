//! Laws of the transport, stated over the same spec functions its
//! contracts use and proved once and for all.

use vstd::prelude::*;

use crate::transport::is_resolve;
use crate::transport::Action;
use crate::transport::P2PTransport;
use crate::MAX_CONNS_PER_PEER;

verus! {

/// The rule by which an ordered (topic, source) pair accepts a sequence
/// number: it must not lie in the future and must exceed the last
/// accepted one. `validate_gossipsub_msg` promises exactly this.
pub open spec fn seq_no_accepted(last: u64, n: u64, now: u64) -> bool {
    n <= now && n > last
}

/// The stored sequence number after one message is considered.
pub open spec fn seq_no_after(last: u64, n: u64, now: u64) -> u64 {
    if seq_no_accepted(last, n, now) {
        n
    } else {
        last
    }
}

/// The stored sequence number after a series of messages, each a pair of
/// (sequence number, clock reading).
pub open spec fn last_after(last: u64, evs: Seq<(u64, u64)>) -> u64
    decreases evs.len(),
{
    if evs.len() == 0 {
        last
    } else {
        seq_no_after(last_after(last, evs.drop_last()), evs.last().0, evs.last().1)
    }
}

/// Whether the message at position `i` of the series is accepted.
pub open spec fn accepted_at(last: u64, evs: Seq<(u64, u64)>, i: int) -> bool {
    seq_no_accepted(last_after(last, evs.take(i)), evs[i].0, evs[i].1)
}

/// The stored sequence number never decreases as messages arrive.
pub proof fn lemma_last_monotone(last: u64, evs: Seq<(u64, u64)>)
    ensures
        last_after(last, evs) >= last,
    decreases evs.len(),
{
    if evs.len() > 0 {
        lemma_last_monotone(last, evs.drop_last());
    }
}

/// Extending the series never lowers the stored sequence number.
pub proof fn lemma_last_extends(last: u64, evs: Seq<(u64, u64)>, k: int, m: int)
    requires
        0 <= k <= m <= evs.len(),
    ensures
        last_after(last, evs.take(m)) >= last_after(last, evs.take(k)),
    decreases m - k,
{
    if k < m {
        lemma_last_extends(last, evs, k, m - 1);
        assert(evs.take(m).drop_last() =~= evs.take(m - 1));
        lemma_last_monotone(last_after(last, evs.take(m - 1)), seq![evs[m - 1]]);
        assert(last_after(last, evs.take(m)) == seq_no_after(
            last_after(last, evs.take(m - 1)),
            evs[m - 1].0,
            evs[m - 1].1,
        ));
    }
}

/// Ordered delivery: of two accepted messages on the same ordered
/// (topic, source), the earlier one carries the strictly smaller
/// sequence number — so either no message was accepted before, or every
/// earlier accepted one had a smaller number.
pub proof fn lemma_accepted_ordered(last: u64, evs: Seq<(u64, u64)>, i: int, j: int)
    requires
        0 <= i < j < evs.len(),
        accepted_at(last, evs, i),
        accepted_at(last, evs, j),
    ensures
        evs[i].0 < evs[j].0,
{
    assert(evs.take(i + 1).drop_last() =~= evs.take(i));
    assert(evs.take(i + 1).last() == evs[i]);
    assert(last_after(last, evs.take(i + 1)) == evs[i].0);
    lemma_last_extends(last, evs, i + 1, j);
}

/// An accepted sequence number never lies in the future of the clock
/// reading it arrived with.
pub proof fn lemma_accepted_not_future(last: u64, evs: Seq<(u64, u64)>, i: int)
    requires
        0 <= i < evs.len(),
        accepted_at(last, evs, i),
    ensures
        evs[i].0 <= evs[i].1,
{
}

/// Connection cap: at any instant a peer holds at most
/// [`MAX_CONNS_PER_PEER`] established connections, with pairwise
/// distinct connection ids.
pub proof fn lemma_connection_cap(s: P2PTransport, p: u64)
    requires
        s.wf(),
    ensures
        s.conns(p).len() <= MAX_CONNS_PER_PEER,
        forall|i: int, j: int|
            0 <= i < j < s.conns(p).len() ==> #[trigger] s.conns(p)[i] != #[trigger] s.conns(p)[j],
{
}

/// A dial waiter is held in at most one place among the parked waiters:
/// the same waiter value at two positions means the positions coincide.
/// Together with the contracts that remove a waiter from the state in
/// the same call that emits its resolution, this is why no event can
/// resolve one waiter twice.
pub proof fn lemma_waiter_single_home(s: P2PTransport, p1: u64, i1: int, p2: u64, i2: int)
    requires
        s.wf(),
        0 <= i1 < s.pending_dial_waiters(p1).len(),
        0 <= i2 < s.pending_dial_waiters(p2).len(),
        s.pending_dial_waiters(p1)[i1] == s.pending_dial_waiters(p2)[i2],
    ensures
        p1 == p2 && i1 == i2,
{
}

/// A waiter parked for an address lookup is never simultaneously the
/// waiter of a dial in flight.
pub proof fn lemma_waiter_not_in_flight(s: P2PTransport, p: u64, i: int, c: u64)
    requires
        s.wf(),
        0 <= i < s.pending_dial_waiters(p).len(),
        s.ongoing_dials_map().contains_key(c),
    ensures
        s.pending_dial_waiters(p)[i] != s.ongoing_dials_map()[c],
{
}

/// Two dials in flight never share a waiter: resolving one connection's
/// outcome touches no other waiter.
pub proof fn lemma_in_flight_single(s: P2PTransport, c1: u64, c2: u64)
    requires
        s.wf(),
        s.ongoing_dials_map().contains_key(c1),
        s.ongoing_dials_map().contains_key(c2),
        s.ongoing_dials_map()[c1] == s.ongoing_dials_map()[c2],
    ensures
        c1 == c2,
{
    if c1 != c2 {
        assert(s.ongoing_dials_map()[c1] != s.ongoing_dials_map()[c2]);
    }
}

/// At most one DHT query resolves a peer, and a query id belongs to at
/// most one peer.
pub proof fn lemma_query_bijection(s: P2PTransport, p1: u64, p2: u64)
    requires
        s.wf(),
        s.queries().contains_key(p1),
        s.queries().contains_key(p2),
        s.queries()[p1] == s.queries()[p2],
    ensures
        p1 == p2,
{
    if p1 != p2 {
        assert(s.queries()[p1] != s.queries()[p2]);
    }
}

/// Unsubscribing twice equals unsubscribing once: the registrations a
/// second unsubscribe command sees no longer hold the topic, so it
/// removes nothing.
pub proof fn lemma_unsubscribe_idempotent(topics: Map<Seq<char>, crate::transport::TopicInfo>, t: Seq<char>)
    ensures
        topics.remove(t).remove(t) =~= topics.remove(t),
        !topics.remove(t).contains_key(t),
{
}

/// Whether an action sends a payload to `p`.
pub open spec fn is_send_to(a: Action, p: u64) -> bool {
    a matches Action::SendMsg { peer, .. } && peer == p
}

/// Whether an action resolves the waiter `w`.
pub open spec fn resolves(a: Action, w: u64) -> bool {
    a matches Action::Resolve { waiter, .. } && waiter == w
}

/// How many actions of the list send a payload to `p`.
pub open spec fn count_sends_to(r: Seq<Action>, p: u64) -> int
    decreases r.len(),
{
    if r.len() == 0 {
        0
    } else {
        count_sends_to(r.drop_last(), p) + if is_send_to(r.last(), p) {
            1int
        } else {
            0int
        }
    }
}

/// How many actions of the list resolve the waiter `w`.
pub open spec fn count_resolves(r: Seq<Action>, w: u64) -> int
    decreases r.len(),
{
    if r.len() == 0 {
        0
    } else {
        count_resolves(r.drop_last(), w) + if resolves(r.last(), w) {
            1int
        } else {
            0int
        }
    }
}

/// Delivered exactly once: when an action list sends to `p` exactly at
/// the positions `a..b` — the shape the contracts of
/// `handle_connection_established`, `handle_identify_event` and
/// `handle_kademlia_event` give it, with one position per buffered
/// payload — then the number of sends to `p` is exactly the number of
/// buffered payloads, `b - a`. A failed lookup is the `a == b` case:
/// nothing is sent and the payloads are dropped, counted, in the same
/// call.
pub proof fn lemma_sends_exactly_the_buffer(r: Seq<Action>, p: u64, a: int, b: int)
    requires
        0 <= a <= b <= r.len(),
        forall|i: int| a <= i < b ==> is_send_to(#[trigger] r[i], p),
        forall|i: int| 0 <= i < r.len() && !(a <= i < b) ==> !is_send_to(#[trigger] r[i], p),
    ensures
        count_sends_to(r, p) == b - a,
    decreases r.len(),
{
    if r.len() > 0 {
        let last = r.len() - 1;
        assert forall|i: int| 0 <= i < r.drop_last().len() implies r.drop_last()[i] == r[i] by {}
        if b == r.len() && a < b {
            lemma_sends_exactly_the_buffer(r.drop_last(), p, a, b - 1);
        } else {
            lemma_sends_exactly_the_buffer(r.drop_last(), p, if a < b { a } else { last }, if a
                < b {
                b
            } else {
                last
            });
        }
    }
}

/// Resolved exactly once: when an action list resolves `w` at exactly
/// one position — the shape every dial- and connection-event contract
/// gives it, since the invariant holds each waiter in one place — then
/// the number of resolutions of `w` is one.
pub proof fn lemma_waiter_resolved_once(r: Seq<Action>, w: u64, k: int)
    requires
        0 <= k < r.len(),
        resolves(r[k], w),
        forall|i: int| 0 <= i < r.len() && i != k ==> !resolves(#[trigger] r[i], w),
    ensures
        count_resolves(r, w) == 1,
    decreases r.len(),
{
    if r.len() > 0 {
        assert forall|i: int| 0 <= i < r.drop_last().len() implies r.drop_last()[i] == r[i] by {}
        if k == r.len() - 1 {
            lemma_waiter_never_resolved(r.drop_last(), w);
        } else {
            lemma_waiter_resolved_once(r.drop_last(), w, k);
        }
    }
}

/// A list without a resolution of `w` resolves it zero times.
pub proof fn lemma_waiter_never_resolved(r: Seq<Action>, w: u64)
    requires
        forall|i: int| 0 <= i < r.len() ==> !resolves(#[trigger] r[i], w),
    ensures
        count_resolves(r, w) == 0,
    decreases r.len(),
{
    if r.len() > 0 {
        assert forall|i: int| 0 <= i < r.drop_last().len() implies r.drop_last()[i] == r[i] by {}
        lemma_waiter_never_resolved(r.drop_last(), w);
    }
}

/// P4 at a concluding event, in the exact shape
/// `handle_connection_established` promises: some resolutions first, one
/// send per buffered payload next, perhaps a close last — then the sends
/// to the peer number exactly the buffered payloads.
pub proof fn lemma_established_sends_buffer(
    r: Seq<Action>,
    peer: u64,
    resolutions: int,
    sends: int,
    closed: bool,
)
    requires
        0 <= resolutions,
        0 <= sends,
        r.len() == resolutions + sends + (if closed {
            1int
        } else {
            0int
        }),
        forall|i: int| 0 <= i < resolutions ==> (#[trigger] r[i] matches Action::Resolve { .. }),
        forall|i: int| 0 <= i < sends ==> is_send_to(#[trigger] r[resolutions + i], peer),
        closed ==> (r[r.len() - 1] matches Action::CloseConnection { .. }),
    ensures
        count_sends_to(r, peer) == sends,
{
    assert forall|i: int|
        0 <= i < r.len() && !(resolutions <= i < resolutions + sends) implies !is_send_to(
        #[trigger] r[i],
        peer,
    ) by {}
    assert forall|i: int|
        resolutions <= i < resolutions + sends implies is_send_to(#[trigger] r[i], peer) by {
        assert(is_send_to(r[resolutions + (i - resolutions)], peer));
    }
    lemma_sends_exactly_the_buffer(r, peer, resolutions, resolutions + sends);
}

/// P3 at a concluding event: with the invariant in force, an action
/// list in the shape `handle_connection_established` promises — and,
/// with `k == 0`, the shape a failed lookup gives
/// `handle_kademlia_event` — resolves each of its waiters at exactly
/// one position: the in-flight waiter of the connection (`k == 1`) and
/// every waiter parked for the peer, because the invariant holds each
/// waiter in one place only.
pub proof fn lemma_established_resolves_each_once(
    s: P2PTransport,
    r: Seq<Action>,
    peer: u64,
    conn: u64,
    w: u64,
    k: int,
)
    requires
        s.wf(),
        k == (if s.ongoing_dials_map().contains_key(conn) {
            1int
        } else {
            0int
        }),
        r.len() >= k + s.pending_dial_waiters(peer).len(),
        k == 1 ==> is_resolve(r[0], s.ongoing_dials_map()[conn], true),
        forall|i: int|
            0 <= i < s.pending_dial_waiters(peer).len() ==> is_resolve(
                #[trigger] r[k + i],
                s.pending_dial_waiters(peer)[i],
                true,
            ),
        forall|i: int|
            k + s.pending_dial_waiters(peer).len() <= i < r.len() ==> !(#[trigger] r[i] matches Action::Resolve { .. }),
        (s.ongoing_dials_map().contains_key(conn) && w == s.ongoing_dials_map()[conn])
            || s.pending_dial_waiters(peer).contains(w),
    ensures
        count_resolves(r, w) == 1,
{
    let nw = s.pending_dial_waiters(peer).len() as int;
    if s.ongoing_dials_map().contains_key(conn) && w == s.ongoing_dials_map()[conn] {
        assert(resolves(r[0], w));
        assert forall|i: int| 0 <= i < r.len() && i != 0 implies !resolves(#[trigger] r[i], w) by {
            if 0 < i < k + nw {
                // a parked waiter never equals the in-flight one
                assert(is_resolve(r[k + (i - k)], s.pending_dial_waiters(peer)[i - k], true));
                assert(s.pending_dial_waiters(peer)[i - k] != s.ongoing_dials_map()[conn]);
            }
        }
        lemma_waiter_resolved_once(r, w, 0);
    } else {
        let i0 = choose|i0: int|
            0 <= i0 < s.pending_dial_waiters(peer).len() && s.pending_dial_waiters(peer)[i0] == w;
        assert(is_resolve(r[k + i0], s.pending_dial_waiters(peer)[i0], true));
        assert(resolves(r[k + i0], w));
        assert forall|i: int|
            0 <= i < r.len() && i != k + i0 implies !resolves(#[trigger] r[i], w) by {
            if i == 0 && k == 1 {
                // the in-flight waiter never equals a parked one
                assert(s.pending_dial_waiters(peer)[i0] != s.ongoing_dials_map()[conn]);
            } else if k <= i < k + nw {
                // parked waiters are pairwise distinct
                assert(is_resolve(r[k + (i - k)], s.pending_dial_waiters(peer)[i - k], true));
                assert(s.pending_dial_waiters(peer)[i - k] != s.pending_dial_waiters(peer)[i0]);
            }
        }
        lemma_waiter_resolved_once(r, w, k + i0);
    }
}

} // verus!
