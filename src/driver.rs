//! The swarm driver's decisions: from its state and one network event to the
//! next state and the actions the network task performs.

use vstd::prelude::*;
use crate::message::{decode, decoding, encode, encoding, DecodeError, P2PDto, Vector};

verus! {

/// A peer's identity: the bytes of the identifier derived from its public key.
#[derive(Clone, Debug)]
pub struct PeerIdentity {
    pub bytes: Vec<u8>,
}

impl View for PeerIdentity {
    type V = Seq<u8>;

    open spec fn view(&self) -> Seq<u8> {
        self.bytes@
    }
}

/// An event handed to the simulation loop.
#[derive(Debug)]
pub enum P2PEvent {
    /// A peer joined the topic.
    PlayerConnected(PeerIdentity),
    /// A peer published its player's position and velocity.
    PlayerUpdate(PeerIdentity, Vector, Vector),
}

/// `P2PEvent` with identities as byte sequences.
pub enum IncomingView {
    PlayerConnected(Seq<u8>),
    PlayerUpdate(Seq<u8>, Vector, Vector),
}

impl View for P2PEvent {
    type V = IncomingView;

    open spec fn view(&self) -> IncomingView {
        match self {
            P2PEvent::PlayerConnected(p) => IncomingView::PlayerConnected(p@),
            P2PEvent::PlayerUpdate(p, pos, vel) => IncomingView::PlayerUpdate(p@, *pos, *vel),
        }
    }
}

/// Why the gossip layer refused to publish.
#[derive(Clone, Copy, Debug, PartialEq, Eq, Structural)]
pub enum PublishFailure {
    /// No peer is subscribed yet: a normal state, not an error.
    InsufficientPeers,
    /// Any other refusal.
    Other,
}

/// What the network task reports to the driver.
#[derive(Debug)]
pub enum NetEvent {
    /// Local discovery found these listening addresses.
    Discovered(Vec<Vec<u8>>),
    /// A remote peer subscribed to the topic.
    Subscribed(PeerIdentity),
    /// A remote peer left the topic, or its connection closed.
    Unsubscribed(PeerIdentity),
    /// A gossip message arrived, from its author if the transport names one.
    Message { source: Option<PeerIdentity>, data: Vec<u8> },
    /// The simulation handed over a message to publish.
    Outgoing(P2PDto),
    /// Publishing was refused.
    PublishRejected(PublishFailure),
    /// Dialling this address was refused.
    DialFailed(Vec<u8>),
    /// Anything else (identify exchanges, other gossip notices).
    Ignored,
}

/// `NetEvent` with byte vectors as sequences.
pub enum NetEventView {
    Discovered(Seq<Seq<u8>>),
    Subscribed(Seq<u8>),
    Unsubscribed(Seq<u8>),
    Message { source: Option<Seq<u8>>, data: Seq<u8> },
    Outgoing(P2PDto),
    PublishRejected(PublishFailure),
    DialFailed(Seq<u8>),
    Ignored,
}

/// The byte sequences of a list of byte vectors.
pub open spec fn views(v: Seq<Vec<u8>>) -> Seq<Seq<u8>> {
    v.map_values(|a: Vec<u8>| a@)
}

impl View for NetEvent {
    type V = NetEventView;

    open spec fn view(&self) -> NetEventView {
        match self {
            NetEvent::Discovered(a) => NetEventView::Discovered(views(a@)),
            NetEvent::Subscribed(p) => NetEventView::Subscribed(p@),
            NetEvent::Unsubscribed(p) => NetEventView::Unsubscribed(p@),
            NetEvent::Message { source, data } => NetEventView::Message {
                source: match source {
                    Some(p) => Some(p@),
                    None => None,
                },
                data: data@,
            },
            NetEvent::Outgoing(m) => NetEventView::Outgoing(*m),
            NetEvent::PublishRejected(f) => NetEventView::PublishRejected(*f),
            NetEvent::DialFailed(a) => NetEventView::DialFailed(a@),
            NetEvent::Ignored => NetEventView::Ignored,
        }
    }
}

/// What the network task is to do.
#[derive(Debug)]
pub enum Action {
    /// Dial this address.
    Dial(Vec<u8>),
    /// Push this event to the simulation's incoming queue.
    Deliver(P2PEvent),
    /// Publish these bytes on the topic.
    Publish(Vec<u8>),
}

/// `Action` with byte vectors as sequences.
pub enum ActionView {
    Dial(Seq<u8>),
    Deliver(IncomingView),
    Publish(Seq<u8>),
}

impl View for Action {
    type V = ActionView;

    open spec fn view(&self) -> ActionView {
        match self {
            Action::Dial(a) => ActionView::Dial(a@),
            Action::Deliver(e) => ActionView::Deliver(e@),
            Action::Publish(b) => ActionView::Publish(b@),
        }
    }
}

/// The views of a list of actions.
pub open spec fn actions_view(v: Seq<Action>) -> Seq<ActionView> {
    v.map_values(|a: Action| a@)
}

/// A failure that ends the network task.
#[derive(Clone, Copy, Debug, PartialEq, Eq, Structural)]
pub enum Fatal {
    /// The listening address could not be bound.
    Listen,
    /// The topic could not be subscribed to.
    Subscribe,
    /// A received payload is not a message.
    Decode(DecodeError),
    /// A received message names no author.
    MissingSource,
    /// Publishing failed for another reason than a lack of peers.
    Publish,
}

/// Where the driver stands in its start-up.
#[derive(Clone, Copy, Debug, PartialEq, Eq, Structural)]
pub enum Phase {
    Idle,
    Listening,
    Running,
}

/// The driver's state: the local identity, the start-up phase, and the
/// peers announced to the simulation in their current connection.
pub struct Driver {
    local: PeerIdentity,
    phase: Phase,
    announced: Vec<Vec<u8>>,
}

/// The driver's state as values.
pub struct DriverView {
    pub local: Seq<u8>,
    pub phase: Phase,
    pub announced: Seq<Seq<u8>>,
}

impl View for Driver {
    type V = DriverView;

    closed spec fn view(&self) -> DriverView {
        DriverView {
            local: self.local@,
            phase: self.phase,
            announced: views(self.announced@),
        }
    }
}

/// `xs` without the entries equal to `p`, in their order.
pub open spec fn without(xs: Seq<Seq<u8>>, p: Seq<u8>) -> Seq<Seq<u8>>
    decreases xs.len(),
{
    if xs.len() == 0 {
        xs
    } else {
        let rest = without(xs.drop_last(), p);
        if xs.last() == p {
            rest
        } else {
            rest.push(xs.last())
        }
    }
}

/// `s` with `p` announced.
pub open spec fn with_announced(s: DriverView, p: Seq<u8>) -> DriverView {
    DriverView { local: s.local, phase: s.phase, announced: s.announced.push(p) }
}

/// `s` with `p` no longer announced.
pub open spec fn with_retired(s: DriverView, p: Seq<u8>) -> DriverView {
    DriverView { local: s.local, phase: s.phase, announced: without(s.announced, p) }
}

/// The deliveries for a message from `p`: its announcement first if `p` was
/// not announced yet, then the update.
pub open spec fn deliveries(s: DriverView, p: Seq<u8>, pos: Vector, vel: Vector) -> (DriverView, Seq<ActionView>) {
    let update = ActionView::Deliver(IncomingView::PlayerUpdate(p, pos, vel));
    if s.announced.contains(p) {
        (s, seq![update])
    } else {
        (with_announced(s, p), seq![ActionView::Deliver(IncomingView::PlayerConnected(p)), update])
    }
}

/// One step of the running driver: the next state and the actions, or the
/// failure that ends the task.
pub open spec fn next(s: DriverView, e: NetEventView) -> Result<(DriverView, Seq<ActionView>), Fatal> {
    match e {
        NetEventView::Discovered(addrs) => Ok((s, addrs.map_values(|a: Seq<u8>| ActionView::Dial(a)))),
        NetEventView::Subscribed(p) => {
            if s.announced.contains(p) {
                Ok((s, Seq::empty()))
            } else {
                Ok((with_announced(s, p), seq![ActionView::Deliver(IncomingView::PlayerConnected(p))]))
            }
        },
        NetEventView::Unsubscribed(p) => Ok((with_retired(s, p), Seq::empty())),
        NetEventView::Message { source, data } => match decoding(data) {
            Err(err) => Err(Fatal::Decode(err)),
            Ok(P2PDto::PlayerUpdate(pos, vel)) => match source {
                None => Err(Fatal::MissingSource),
                Some(p) => Ok(deliveries(s, p, pos, vel)),
            },
        },
        NetEventView::Outgoing(m) => Ok((s, seq![ActionView::Publish(encoding(m))])),
        NetEventView::PublishRejected(f) => match f {
            PublishFailure::InsufficientPeers => Ok((s, Seq::empty())),
            PublishFailure::Other => Err(Fatal::Publish),
        },
        NetEventView::DialFailed(_) => Ok((s, Seq::empty())),
        NetEventView::Ignored => Ok((s, Seq::empty())),
    }
}

fn copy_bytes(v: &Vec<u8>) -> (r: Vec<u8>)
    ensures
        r@ == v@,
{
    let r = v.clone();
    assert(r@ =~= v@);
    r
}

fn same_bytes(a: &Vec<u8>, b: &Vec<u8>) -> (r: bool)
    ensures
        r == (a@ == b@),
{
    if a.len() != b.len() {
        return false;
    }
    let mut i: usize = 0;
    while i < a.len()
        invariant
            a.len() == b.len(),
            0 <= i <= a.len(),
            forall|j: int| 0 <= j < i ==> a@[j] == b@[j],
        decreases a.len() - i,
    {
        if a[i] != b[i] {
            return false;
        }
        i = i + 1;
    }
    assert(a@ =~= b@);
    true
}

fn holds(list: &Vec<Vec<u8>>, x: &Vec<u8>) -> (r: bool)
    ensures
        r == views(list@).contains(x@),
{
    let mut i: usize = 0;
    while i < list.len()
        invariant
            0 <= i <= list.len(),
            forall|j: int| 0 <= j < i ==> list@[j]@ != x@,
        decreases list.len() - i,
    {
        if same_bytes(&list[i], x) {
            assert(views(list@)[i as int] == x@);
            return true;
        }
        i = i + 1;
    }
    assert forall|j: int| 0 <= j < views(list@).len() implies views(list@)[j] != x@ by {
        assert(views(list@)[j] == list@[j]@);
    }
    false
}

fn identity_of(p: &Vec<u8>) -> (r: PeerIdentity)
    ensures
        r@ == p@,
{
    PeerIdentity { bytes: copy_bytes(p) }
}

impl Driver {
    /// A driver for the peer `local`, before its listening address is bound.
    pub fn new(local: PeerIdentity) -> (r: Driver)
        ensures
            r@.local == local@,
            r@.phase == Phase::Idle,
            r@.announced == Seq::<Seq<u8>>::empty(),
    {
        let r = Driver { local, phase: Phase::Idle, announced: Vec::new() };
        assert(views(r.announced@) =~= Seq::<Seq<u8>>::empty());
        r
    }

    /// This peer's identity.
    pub fn local(&self) -> (r: &PeerIdentity)
        ensures
            r@ == self@.local,
    {
        &self.local
    }

    /// Where the driver stands in its start-up.
    pub fn phase(&self) -> (r: Phase)
        ensures
            r == self@.phase,
    {
        self.phase
    }

    /// Records whether binding the listening address succeeded: on success
    /// the driver is listening, else the task ends.
    pub fn bound(&mut self, ok: bool) -> (r: Result<(), Fatal>)
        requires
            old(self)@.phase == Phase::Idle,
        ensures
            r is Ok <==> ok,
            !ok ==> r == Err::<(), Fatal>(Fatal::Listen),
            final(self)@.phase == (if ok { Phase::Listening } else { Phase::Idle }),
            final(self)@.local == old(self)@.local,
            final(self)@.announced == old(self)@.announced,
    {
        if ok {
            self.phase = Phase::Listening;
            Ok(())
        } else {
            Err(Fatal::Listen)
        }
    }

    /// Records whether subscribing to the topic succeeded: on success the
    /// driver runs, else the task ends.
    pub fn subscribed(&mut self, ok: bool) -> (r: Result<(), Fatal>)
        requires
            old(self)@.phase == Phase::Listening,
        ensures
            r is Ok <==> ok,
            !ok ==> r == Err::<(), Fatal>(Fatal::Subscribe),
            final(self)@.phase == (if ok { Phase::Running } else { Phase::Listening }),
            final(self)@.local == old(self)@.local,
            final(self)@.announced == old(self)@.announced,
    {
        if ok {
            self.phase = Phase::Running;
            Ok(())
        } else {
            Err(Fatal::Subscribe)
        }
    }

    fn dial_all(addrs: &Vec<Vec<u8>>) -> (r: Vec<Action>)
        ensures
            actions_view(r@) == views(addrs@).map_values(|a: Seq<u8>| ActionView::Dial(a)),
    {
        let mut dials: Vec<Action> = Vec::new();
        let mut i: usize = 0;
        while i < addrs.len()
            invariant
                0 <= i <= addrs.len(),
                actions_view(dials@) == views(addrs@).subrange(0, i as int).map_values(
                    |a: Seq<u8>| ActionView::Dial(a),
                ),
            decreases addrs.len() - i,
        {
            let ghost d0 = actions_view(dials@);
            dials.push(Action::Dial(copy_bytes(&addrs[i])));
            assert(actions_view(dials@) =~= d0.push(ActionView::Dial(addrs@[i as int]@)));
            assert(views(addrs@).subrange(0, i + 1) =~= views(addrs@).subrange(0, i as int).push(addrs@[i as int]@));
            assert(actions_view(dials@) =~= views(addrs@).subrange(0, i + 1).map_values(
                |a: Seq<u8>| ActionView::Dial(a),
            ));
            i = i + 1;
        }
        assert(views(addrs@).subrange(0, addrs@.len() as int) =~= views(addrs@));
        dials
    }

    fn retire(&mut self, p: &Vec<u8>)
        ensures
            final(self)@ == with_retired(old(self)@, p@),
    {
        let ghost s0 = self@;
        let mut kept: Vec<Vec<u8>> = Vec::new();
        let mut i: usize = 0;
        while i < self.announced.len()
            invariant
                0 <= i <= self.announced.len(),
                self@ == s0,
                views(kept@) == without(s0.announced.subrange(0, i as int), p@),
            decreases self.announced.len() - i,
        {
            let ghost cur = s0.announced.subrange(0, i + 1);
            assert(cur.drop_last() =~= s0.announced.subrange(0, i as int));
            assert(cur.last() == self.announced@[i as int]@);
            if !same_bytes(&self.announced[i], p) {
                kept.push(copy_bytes(&self.announced[i]));
                assert(views(kept@) =~= without(cur, p@));
            }
            i = i + 1;
        }
        assert(s0.announced.subrange(0, s0.announced.len() as int) =~= s0.announced);
        self.announced = kept;
    }

    fn announce(&mut self, p: &Vec<u8>)
        ensures
            final(self)@ == with_announced(old(self)@, p@),
    {
        self.announced.push(copy_bytes(p));
        assert(views(self.announced@) =~= views(old(self).announced@).push(p@));
    }

    /// Handles one event of the running driver: updates the state and
    /// returns the actions to perform, as `next` says; on a failure the
    /// state is left as it was.
    pub fn step(&mut self, e: NetEvent) -> (r: Result<Vec<Action>, Fatal>)
        requires
            old(self)@.phase == Phase::Running,
        ensures
            match next(old(self)@, e@) {
                Ok((s, acts)) => r is Ok && final(self)@ == s && actions_view(r.unwrap()@) == acts,
                Err(f) => r == Err::<Vec<Action>, Fatal>(f) && final(self)@ == old(self)@,
            },
    {
        match e {
            NetEvent::Discovered(addrs) => Ok(Driver::dial_all(&addrs)),
            NetEvent::Unsubscribed(p) => {
                self.retire(&p.bytes);
                let r: Vec<Action> = Vec::new();
                assert(actions_view(r@) =~= Seq::<ActionView>::empty());
                Ok(r)
            },
            NetEvent::Subscribed(p) => {
                let mut r: Vec<Action> = Vec::new();
                if !holds(&self.announced, &p.bytes) {
                    self.announce(&p.bytes);
                    r.push(Action::Deliver(P2PEvent::PlayerConnected(p)));
                }
                assert(actions_view(r@) =~= next(old(self)@, e@).unwrap().1);
                Ok(r)
            },
            NetEvent::Message { source, data } => match decode(data.as_slice()) {
                Err(err) => Err(Fatal::Decode(err)),
                Ok(P2PDto::PlayerUpdate(pos, vel)) => match source {
                    None => Err(Fatal::MissingSource),
                    Some(p) => {
                        let mut r: Vec<Action> = Vec::new();
                        if !holds(&self.announced, &p.bytes) {
                            self.announce(&p.bytes);
                            r.push(Action::Deliver(P2PEvent::PlayerConnected(identity_of(&p.bytes))));
                        }
                        r.push(Action::Deliver(P2PEvent::PlayerUpdate(p, pos, vel)));
                        assert(actions_view(r@) =~= next(old(self)@, e@).unwrap().1);
                        Ok(r)
                    },
                },
            },
            NetEvent::Outgoing(m) => {
                let mut r: Vec<Action> = Vec::new();
                r.push(Action::Publish(encode(&m)));
                assert(actions_view(r@) =~= next(old(self)@, e@).unwrap().1);
                Ok(r)
            },
            NetEvent::PublishRejected(f) => match f {
                PublishFailure::InsufficientPeers => {
                    let r: Vec<Action> = Vec::new();
                    assert(actions_view(r@) =~= Seq::<ActionView>::empty());
                    Ok(r)
                },
                PublishFailure::Other => Err(Fatal::Publish),
            },
            NetEvent::DialFailed(_) => {
                let r: Vec<Action> = Vec::new();
                assert(actions_view(r@) =~= Seq::<ActionView>::empty());
                Ok(r)
            },
            NetEvent::Ignored => {
                let r: Vec<Action> = Vec::new();
                assert(actions_view(r@) =~= Seq::<ActionView>::empty());
                Ok(r)
            },
        }
    }
}

} // verus!
