//! What holds of the driver over any sequence of events.

use vstd::prelude::*;
use crate::driver::{
    next, with_announced, without, ActionView, DriverView, Fatal, IncomingView, NetEventView,
    PublishFailure,
};
use crate::message::{encoding, lemma_round_trip, P2PDto};

verus! {

/// The driver run over `es` from `s`: the final state and all actions in
/// order, or the first failure.
pub open spec fn run(s: DriverView, es: Seq<NetEventView>) -> Result<(DriverView, Seq<ActionView>), Fatal>
    decreases es.len(),
{
    if es.len() == 0 {
        Ok((s, Seq::empty()))
    } else {
        match run(s, es.drop_last()) {
            Ok((s1, a1)) => match next(s1, es.last()) {
                Ok((s2, a2)) => Ok((s2, a1 + a2)),
                Err(f) => Err(f),
            },
            Err(f) => Err(f),
        }
    }
}

/// `a` announces `p` to the simulation.
pub open spec fn is_connect(a: ActionView, p: Seq<u8>) -> bool {
    a == ActionView::Deliver(IncomingView::PlayerConnected(p))
}

/// `a` hands the simulation an update from `p`.
pub open spec fn is_update(a: ActionView, p: Seq<u8>) -> bool {
    match a {
        ActionView::Deliver(IncomingView::PlayerUpdate(q, _, _)) => q == p,
        _ => false,
    }
}

/// `es` holds no notice that `p` left: all of `es` lies in one connection
/// lifetime of `p`.
pub open spec fn stays_subscribed(es: Seq<NetEventView>, p: Seq<u8>) -> bool {
    forall|k: int| 0 <= k < es.len() ==> #[trigger] es[k] != NetEventView::Unsubscribed(p)
}

/// The payloads of the publish actions in `acts`, in order.
pub open spec fn publishes(acts: Seq<ActionView>) -> Seq<Seq<u8>>
    decreases acts.len(),
{
    if acts.len() == 0 {
        Seq::empty()
    } else {
        match acts.last() {
            ActionView::Publish(b) => publishes(acts.drop_last()).push(b),
            _ => publishes(acts.drop_last()),
        }
    }
}

/// The messages that the simulation handed over in `es`, in order.
pub open spec fn outgoing(es: Seq<NetEventView>) -> Seq<P2PDto>
    decreases es.len(),
{
    if es.len() == 0 {
        Seq::empty()
    } else {
        match es.last() {
            NetEventView::Outgoing(m) => outgoing(es.drop_last()).push(m),
            _ => outgoing(es.drop_last()),
        }
    }
}

/// Facts about the announcements of `p` in `acts`, the actions that led
/// from `s` to `t`; `closed` says that `p` did not leave on the way.
pub open spec fn announcements_ok(s: DriverView, t: DriverView, acts: Seq<ActionView>, p: Seq<u8>, closed: bool) -> bool {
    &&& t.announced.contains(p) ==> (s.announced.contains(p) || exists|j: int| 0 <= j < acts.len() && is_connect(acts[j], p))
    &&& forall|i: int| 0 <= i < acts.len() && #[trigger] is_update(acts[i], p) ==> (s.announced.contains(p) || exists|j: int| 0 <= j < i && is_connect(acts[j], p))
    &&& closed ==> ((s.announced.contains(p) || exists|j: int| 0 <= j < acts.len() && is_connect(acts[j], p)) ==> t.announced.contains(p))
    &&& closed ==> forall|i: int| 0 <= i < acts.len() && #[trigger] is_connect(acts[i], p) ==> (!s.announced.contains(p) && forall|j: int| 0 <= j < i ==> !is_connect(#[trigger] acts[j], p))
    &&& t.local == s.local
}

proof fn lemma_push_contains(xs: Seq<Seq<u8>>, q: Seq<u8>, p: Seq<u8>)
    ensures
        xs.push(q).contains(p) <==> (xs.contains(p) || q == p),
{
    if xs.push(q).contains(p) && q != p {
        let k = choose|k: int| 0 <= k < xs.push(q).len() && xs.push(q)[k] == p;
        assert(xs[k] == p);
    }
    if xs.contains(p) {
        let k = choose|k: int| 0 <= k < xs.len() && xs[k] == p;
        assert(xs.push(q)[k] == p);
    }
    if q == p {
        assert(xs.push(q)[xs.len() as int] == p);
    }
}

proof fn lemma_without_contains(xs: Seq<Seq<u8>>, q: Seq<u8>, p: Seq<u8>)
    ensures
        without(xs, q).contains(p) <==> (xs.contains(p) && q != p),
    decreases xs.len(),
{
    if xs.len() > 0 {
        lemma_without_contains(xs.drop_last(), q, p);
        lemma_push_contains(without(xs.drop_last(), q), xs.last(), p);
        lemma_push_contains(xs.drop_last(), xs.last(), p);
        assert(xs.drop_last().push(xs.last()) =~= xs);
    }
}

proof fn lemma_step_announcements(s: DriverView, e: NetEventView, p: Seq<u8>)
    ensures
        next(s, e) matches Ok((t, acts)) ==> announcements_ok(s, t, acts, p, e != NetEventView::Unsubscribed(p)),
{
    match next(s, e) {
        Ok((t, acts)) => {
            match e {
                NetEventView::Discovered(addrs) => {
                    assert forall|i: int| 0 <= i < acts.len() implies !#[trigger] is_connect(acts[i], p) && !is_update(acts[i], p) by {
                        assert(acts[i] == ActionView::Dial(addrs[i]));
                    }
                },
                NetEventView::Subscribed(q) => {
                    if !s.announced.contains(q) {
                        lemma_push_contains(s.announced, q, p);
                        if q == p {
                            assert(is_connect(acts[0], p));
                        }
                    }
                },
                NetEventView::Unsubscribed(q) => {
                    lemma_without_contains(s.announced, q, p);
                },
                NetEventView::Message { source, data } => {
                    let q = source.unwrap();
                    if !s.announced.contains(q) {
                        lemma_push_contains(s.announced, q, p);
                        if q == p {
                            assert(is_connect(acts[0], p));
                        }
                    }
                },
                _ => {},
            }
        },
        Err(_) => {},
    }
}

proof fn lemma_run_announcements(s: DriverView, es: Seq<NetEventView>, p: Seq<u8>)
    ensures
        run(s, es) matches Ok((t, acts)) ==> announcements_ok(s, t, acts, p, stays_subscribed(es, p)),
    decreases es.len(),
{
    if es.len() > 0 {
        let pre = es.drop_last();
        lemma_run_announcements(s, pre, p);
        if stays_subscribed(es, p) {
            assert forall|k: int| 0 <= k < pre.len() implies #[trigger] pre[k] != NetEventView::Unsubscribed(p) by {
                assert(pre[k] == es[k]);
            }
            assert(es[es.len() - 1] != NetEventView::Unsubscribed(p));
        }
        let closed = stays_subscribed(es, p);
        match run(s, pre) {
            Ok((s1, a1)) => {
                lemma_step_announcements(s1, es.last(), p);
                match next(s1, es.last()) {
                    Ok((s2, a2)) => {
                        let acts = a1 + a2;
                        assert forall|j: int| 0 <= j < a1.len() implies acts[j] == a1[j] by {}
                        assert forall|j: int| 0 <= j < a2.len() implies acts[j + a1.len()] == a2[j] by {}
                        if exists|j: int| 0 <= j < a1.len() && is_connect(a1[j], p) {
                            let j = choose|j: int| 0 <= j < a1.len() && is_connect(a1[j], p);
                            assert(is_connect(acts[j], p));
                        }
                        if exists|j: int| 0 <= j < a2.len() && is_connect(a2[j], p) {
                            let j = choose|j: int| 0 <= j < a2.len() && is_connect(a2[j], p);
                            assert(is_connect(acts[j + a1.len()], p));
                        }
                        if exists|j: int| 0 <= j < acts.len() && is_connect(acts[j], p) {
                            let j = choose|j: int| 0 <= j < acts.len() && is_connect(acts[j], p);
                            if j < a1.len() {
                                assert(is_connect(a1[j], p));
                            } else {
                                assert(is_connect(a2[j - a1.len()], p));
                            }
                        }
                        assert forall|i: int| 0 <= i < acts.len() && #[trigger] is_update(acts[i], p) implies (s.announced.contains(p) || exists|j: int| 0 <= j < i && is_connect(acts[j], p)) by {
                            if i < a1.len() {
                                assert(is_update(a1[i], p));
                                if exists|j: int| 0 <= j < i && is_connect(a1[j], p) {
                                    let j = choose|j: int| 0 <= j < i && is_connect(a1[j], p);
                                    assert(acts[j] == a1[j]);
                                }
                            } else {
                                let i2 = i - a1.len();
                                assert(is_update(a2[i2], p));
                                if exists|j: int| 0 <= j < i2 && is_connect(a2[j], p) {
                                    let j = choose|j: int| 0 <= j < i2 && is_connect(a2[j], p);
                                    assert(acts[j + a1.len()] == a2[j]);
                                } else if !s.announced.contains(p) {
                                    assert(s1.announced.contains(p));
                                    let j = choose|j: int| 0 <= j < a1.len() && is_connect(a1[j], p);
                                    assert(acts[j] == a1[j]);
                                }
                            }
                        }
                        if closed {
                            assert forall|i: int| 0 <= i < acts.len() && #[trigger] is_connect(acts[i], p) implies (!s.announced.contains(p) && forall|j: int| 0 <= j < i ==> !is_connect(#[trigger] acts[j], p)) by {
                                if i < a1.len() {
                                    assert(is_connect(a1[i], p));
                                    assert forall|j: int| 0 <= j < i implies !is_connect(#[trigger] acts[j], p) by {
                                        assert(acts[j] == a1[j]);
                                    }
                                } else {
                                    let i2 = i - a1.len();
                                    assert(is_connect(a2[i2], p));
                                    assert(!s1.announced.contains(p));
                                    assert forall|j: int| 0 <= j < i implies !is_connect(#[trigger] acts[j], p) by {
                                        if j < a1.len() {
                                            assert(acts[j] == a1[j]);
                                        } else {
                                            assert(acts[j] == a2[j - a1.len()]);
                                        }
                                    }
                                }
                            }
                        }
                    },
                    Err(_) => {},
                }
            },
            Err(_) => {},
        }
    }
}

/// Within one connection lifetime of a peer, an update from it is never
/// handed to the simulation before its announcement: over a run in which
/// `p` does not leave, starting where `p` is not announced (at start-up, or
/// right after it left), each update from `p` follows an announcement of `p`.
pub proof fn lemma_connected_before_update(s: DriverView, es: Seq<NetEventView>, i: int, p: Seq<u8>)
    requires
        run(s, es) is Ok,
        stays_subscribed(es, p),
        !s.announced.contains(p),
        0 <= i < run(s, es).unwrap().1.len(),
        is_update(run(s, es).unwrap().1[i], p),
    ensures
        exists|j: int| 0 <= j < i && is_connect(#[trigger] run(s, es).unwrap().1[j], p),
{
    lemma_run_announcements(s, es, p);
}

/// Within one connection lifetime a peer is announced at most once: between
/// two announcements of `p`, `p` left. Over a run in which `p` does not
/// leave, an announcement of `p` is its first and `p` was not announced
/// before the run.
pub proof fn lemma_connected_once(s: DriverView, es: Seq<NetEventView>, i: int, j: int, p: Seq<u8>)
    requires
        run(s, es) is Ok,
        stays_subscribed(es, p),
        0 <= j < i < run(s, es).unwrap().1.len(),
        is_connect(run(s, es).unwrap().1[i], p),
    ensures
        !is_connect(run(s, es).unwrap().1[j], p),
        !s.announced.contains(p),
{
    lemma_run_announcements(s, es, p);
}

/// When a peer leaves it is no longer announced, and when it subscribes
/// again it is announced again, to the simulation's entity registry as a
/// new connection.
pub proof fn lemma_reconnect_announced_again(s: DriverView, p: Seq<u8>)
    ensures
        next(s, NetEventView::Unsubscribed(p)) is Ok,
        ({
            let (t, acts) = next(s, NetEventView::Unsubscribed(p)).unwrap();
            &&& acts.len() == 0
            &&& !t.announced.contains(p)
            &&& next(t, NetEventView::Subscribed(p)) == Ok::<(DriverView, Seq<ActionView>), Fatal>(
                (with_announced(t, p), seq![ActionView::Deliver(IncomingView::PlayerConnected(p))]),
            )
        }),
{
    lemma_without_contains(s.announced, p, p);
}

/// The local identity never changes over a run.
pub proof fn lemma_identity_stable(s: DriverView, es: Seq<NetEventView>)
    requires
        run(s, es) is Ok,
    ensures
        run(s, es).unwrap().0.local == s.local,
{
    lemma_run_announcements(s, es, Seq::empty());
}

proof fn lemma_publishes_add(a: Seq<ActionView>, b: Seq<ActionView>)
    ensures
        publishes(a + b) == publishes(a) + publishes(b),
    decreases b.len(),
{
    if b.len() == 0 {
        assert(a + b =~= a);
        assert(publishes(a) + Seq::<Seq<u8>>::empty() =~= publishes(a));
    } else {
        lemma_publishes_add(a, b.drop_last());
        assert((a + b).drop_last() =~= a + b.drop_last());
        assert((a + b).last() == b.last());
        match b.last() {
            ActionView::Publish(x) => {
                assert(publishes(a) + publishes(b.drop_last()).push(x) =~= (publishes(a) + publishes(b.drop_last())).push(x));
            },
            _ => {},
        }
    }
}

proof fn lemma_publishes_none(a: Seq<ActionView>)
    requires
        forall|i: int| 0 <= i < a.len() ==> !(#[trigger] a[i] is Publish),
    ensures
        publishes(a) == Seq::<Seq<u8>>::empty(),
    decreases a.len(),
{
    if a.len() > 0 {
        assert forall|i: int| 0 <= i < a.drop_last().len() implies !(#[trigger] a.drop_last()[i] is Publish) by {
            assert(a.drop_last()[i] == a[i]);
        }
        lemma_publishes_none(a.drop_last());
        assert(!(a[a.len() - 1] is Publish));
    }
}

proof fn lemma_step_publishes(s: DriverView, e: NetEventView)
    ensures
        next(s, e) matches Ok((t, acts)) ==> publishes(acts) == (match e {
            NetEventView::Outgoing(m) => seq![encoding(m)],
            _ => Seq::<Seq<u8>>::empty(),
        }),
{
    match next(s, e) {
        Ok((t, acts)) => {
            match e {
                NetEventView::Outgoing(m) => {
                    assert(acts.drop_last() =~= Seq::<ActionView>::empty());
                    assert(publishes(acts.drop_last()) == Seq::<Seq<u8>>::empty());
                    assert(acts.last() == ActionView::Publish(encoding(m)));
                    assert(Seq::<Seq<u8>>::empty().push(encoding(m)) =~= seq![encoding(m)]);
                    assert(publishes(acts) == seq![encoding(m)]);
                },
                NetEventView::Discovered(addrs) => {
                    assert forall|i: int| 0 <= i < acts.len() implies !(#[trigger] acts[i] is Publish) by {
                        assert(acts[i] == ActionView::Dial(addrs[i]));
                    }
                    lemma_publishes_none(acts);
                },
                _ => {
                    assert forall|i: int| 0 <= i < acts.len() implies !(#[trigger] acts[i] is Publish) by {}
                    lemma_publishes_none(acts);
                },
            }
        },
        Err(_) => {},
    }
}

/// Every message the simulation hands over is published once, as its
/// encoding, in the order handed over, whatever network events come in
/// between: the publish actions of a run are exactly the encodings of its
/// outgoing messages, in order.
pub proof fn lemma_publishes_in_order(s: DriverView, es: Seq<NetEventView>)
    requires
        run(s, es) is Ok,
    ensures
        publishes(run(s, es).unwrap().1) == outgoing(es).map_values(|m: P2PDto| encoding(m)),
    decreases es.len(),
{
    if es.len() == 0 {
        assert(outgoing(es).map_values(|m: P2PDto| encoding(m)) =~= Seq::<Seq<u8>>::empty());
    } else {
        let pre = es.drop_last();
        lemma_publishes_in_order(s, pre);
        let (s1, a1) = run(s, pre).unwrap();
        let (s2, a2) = next(s1, es.last()).unwrap();
        lemma_publishes_add(a1, a2);
        lemma_step_publishes(s1, es.last());
        match es.last() {
            NetEventView::Outgoing(m) => {
                assert(outgoing(es).map_values(|m: P2PDto| encoding(m)) =~= outgoing(pre).map_values(
                    |m: P2PDto| encoding(m),
                ) + seq![encoding(m)]);
            },
            _ => {
                assert(publishes(a1) + Seq::<Seq<u8>>::empty() =~= publishes(a1));
            },
        }
    }
}

/// Publishing with no peer subscribed is no failure: nothing changes and
/// nothing more is done.
pub proof fn lemma_publish_without_peers(s: DriverView)
    ensures
        next(s, NetEventView::PublishRejected(PublishFailure::InsufficientPeers))
            == Ok::<(DriverView, Seq<ActionView>), Fatal>((s, Seq::empty())),
{
}

/// A discovery notice dials every address it lists, in order, and changes
/// no state and announces nobody: the same notice received again does the
/// same and nothing more. A refused dial is no failure; a later notice
/// dials the address again.
pub proof fn lemma_discovery_idempotent(s: DriverView, addrs: Seq<Seq<u8>>, a: Seq<u8>)
    ensures
        next(s, NetEventView::Discovered(addrs)) == Ok::<(DriverView, Seq<ActionView>), Fatal>(
            (s, addrs.map_values(|x: Seq<u8>| ActionView::Dial(x))),
        ),
        next(s, NetEventView::DialFailed(a)) == Ok::<(DriverView, Seq<ActionView>), Fatal>((s, Seq::empty())),
{
}

/// A message published by a peer reaches the simulation unchanged: the
/// encoding of `m` received from `p` gives an update from `p` with `m`'s
/// position and velocity, preceded by `p`'s announcement exactly when `p`
/// was not announced, and nothing else.
pub proof fn lemma_message_delivered(s: DriverView, p: Seq<u8>, m: P2PDto)
    ensures
        next(s, NetEventView::Message { source: Some(p), data: encoding(m) }) is Ok,
        ({
            let (t, acts) = next(s, NetEventView::Message { source: Some(p), data: encoding(m) }).unwrap();
            let P2PDto::PlayerUpdate(pos, vel) = m;
            &&& acts.len() == (if s.announced.contains(p) { 1int } else { 2int })
            &&& acts.last() == ActionView::Deliver(IncomingView::PlayerUpdate(p, pos, vel))
            &&& !s.announced.contains(p) ==> is_connect(acts[0], p)
        }),
{
    lemma_round_trip(m);
}

} // verus!
