use p2p_sync::driver::{Action, Driver, Fatal, NetEvent, P2PEvent, PeerIdentity, Phase, PublishFailure};
use p2p_sync::message::{encode, DecodeError, P2PDto, Vector};

fn id(b: u8) -> PeerIdentity {
    PeerIdentity { bytes: vec![0x00, 0x24, b, b, b] }
}

fn running(local: u8) -> Driver {
    let mut d = Driver::new(id(local));
    assert_eq!(d.phase(), Phase::Idle);
    assert_eq!(d.bound(true), Ok(()));
    assert_eq!(d.phase(), Phase::Listening);
    assert_eq!(d.subscribed(true), Ok(()));
    assert_eq!(d.phase(), Phase::Running);
    d
}

fn update(x: f32) -> P2PDto {
    P2PDto::PlayerUpdate(
        Vector { x: x.to_bits(), y: 0, z: 0 },
        Vector { x: 0, y: 0, z: 0 },
    )
}

fn dials(actions: &[Action]) -> Vec<Vec<u8>> {
    let mut out = Vec::new();
    for a in actions {
        match a {
            Action::Dial(addr) => out.push(addr.clone()),
            other => panic!("unexpected {:?}", other),
        }
    }
    out
}

#[test]
fn bind_failure_is_fatal() {
    let mut d = Driver::new(id(1));
    assert_eq!(d.bound(false), Err(Fatal::Listen));
    assert_eq!(d.phase(), Phase::Idle);
}

#[test]
fn subscription_failure_is_fatal() {
    let mut d = Driver::new(id(1));
    assert_eq!(d.bound(true), Ok(()));
    assert_eq!(d.subscribed(false), Err(Fatal::Subscribe));
    assert_eq!(d.phase(), Phase::Listening);
}

#[test]
fn discovery_dials_every_listed_address() {
    let mut d = running(1);
    let a = vec![4u8, 10, 0, 0, 2];
    let b = vec![4u8, 10, 0, 0, 3];
    let acts = d.step(NetEvent::Discovered(vec![a.clone(), b.clone(), a.clone()])).unwrap();
    assert_eq!(dials(&acts), vec![a.clone(), b.clone(), a.clone()]);
    let again = d.step(NetEvent::Discovered(vec![a.clone(), b.clone()])).unwrap();
    assert_eq!(dials(&again), vec![a, b]);
}

#[test]
fn repeated_discovery_announces_nobody_twice() {
    let mut d = running(1);
    let a = vec![4u8, 10, 0, 0, 2];
    d.step(NetEvent::Discovered(vec![a.clone()])).unwrap();
    let first = d.step(NetEvent::Subscribed(id(2))).unwrap();
    assert_eq!(first.len(), 1);
    d.step(NetEvent::Discovered(vec![a.clone()])).unwrap();
    assert!(d.step(NetEvent::Subscribed(id(2))).unwrap().is_empty());
}

#[test]
fn dial_failure_is_tolerated() {
    let mut d = running(1);
    let a = vec![4u8, 10, 0, 0, 2];
    assert!(d.step(NetEvent::DialFailed(a.clone())).unwrap().is_empty());
    assert_eq!(d.phase(), Phase::Running);
    let acts = d.step(NetEvent::Discovered(vec![a.clone()])).unwrap();
    assert_eq!(dials(&acts), vec![a]);
}

#[test]
fn reconnecting_peer_is_announced_again() {
    let mut d = running(1);
    let acts = d.step(NetEvent::Subscribed(id(2))).unwrap();
    assert!(matches!(&acts[0], Action::Deliver(P2PEvent::PlayerConnected(p)) if p.bytes == id(2).bytes));
    assert!(d.step(NetEvent::Unsubscribed(id(2))).unwrap().is_empty());
    let acts = d.step(NetEvent::Subscribed(id(2))).unwrap();
    assert_eq!(acts.len(), 1);
    assert!(matches!(&acts[0], Action::Deliver(P2PEvent::PlayerConnected(p)) if p.bytes == id(2).bytes));
    let acts = d.step(NetEvent::Message { source: Some(id(2)), data: encode(&update(3.0)) }).unwrap();
    assert_eq!(acts.len(), 1);
    assert!(matches!(&acts[0], Action::Deliver(P2PEvent::PlayerUpdate(..))));
}

#[test]
fn message_after_leaving_is_announced_first() {
    let mut d = running(1);
    d.step(NetEvent::Subscribed(id(2))).unwrap();
    d.step(NetEvent::Subscribed(id(3))).unwrap();
    d.step(NetEvent::Unsubscribed(id(2))).unwrap();
    let acts = d.step(NetEvent::Message { source: Some(id(2)), data: encode(&update(1.0)) }).unwrap();
    assert_eq!(acts.len(), 2);
    assert!(matches!(&acts[0], Action::Deliver(P2PEvent::PlayerConnected(p)) if p.bytes == id(2).bytes));
    assert!(matches!(&acts[1], Action::Deliver(P2PEvent::PlayerUpdate(p, ..)) if p.bytes == id(2).bytes));
    let acts = d.step(NetEvent::Message { source: Some(id(3)), data: encode(&update(1.0)) }).unwrap();
    assert_eq!(acts.len(), 1);
}

#[test]
fn subscription_announces_a_peer_once() {
    let mut d = running(1);
    let acts = d.step(NetEvent::Subscribed(id(2))).unwrap();
    assert_eq!(acts.len(), 1);
    assert!(matches!(&acts[0], Action::Deliver(P2PEvent::PlayerConnected(p)) if p.bytes == id(2).bytes));
    assert!(d.step(NetEvent::Subscribed(id(2))).unwrap().is_empty());
}

#[test]
fn message_from_unannounced_peer_is_announced_first() {
    let mut d = running(1);
    let data = encode(&update(1.0));
    let acts = d.step(NetEvent::Message { source: Some(id(3)), data: data.clone() }).unwrap();
    assert_eq!(acts.len(), 2);
    assert!(matches!(&acts[0], Action::Deliver(P2PEvent::PlayerConnected(p)) if p.bytes == id(3).bytes));
    assert!(matches!(&acts[1], Action::Deliver(P2PEvent::PlayerUpdate(p, pos, _)) if p.bytes == id(3).bytes && pos.x == 1.0f32.to_bits()));
    let acts = d.step(NetEvent::Message { source: Some(id(3)), data }).unwrap();
    assert_eq!(acts.len(), 1);
    assert!(matches!(&acts[0], Action::Deliver(P2PEvent::PlayerUpdate(..))));
    assert!(d.step(NetEvent::Subscribed(id(3))).unwrap().is_empty());
}

#[test]
fn malformed_message_is_fatal() {
    let mut d = running(1);
    let r = d.step(NetEvent::Message { source: Some(id(2)), data: vec![0, 0, 0] });
    assert!(matches!(r, Err(Fatal::Decode(DecodeError::Truncated))));
    let mut data = encode(&update(1.0));
    data[0] = 7;
    let r = d.step(NetEvent::Message { source: Some(id(2)), data });
    assert!(matches!(r, Err(Fatal::Decode(DecodeError::UnknownVariant(7)))));
}

#[test]
fn message_without_source_is_fatal() {
    let mut d = running(1);
    let r = d.step(NetEvent::Message { source: None, data: encode(&update(1.0)) });
    assert!(matches!(r, Err(Fatal::MissingSource)));
}

#[test]
fn many_outgoing_messages_are_published_in_order() {
    let mut d = running(1);
    let n: u32 = 10_000;
    let mut published = Vec::new();
    for i in 0..n {
        let acts = d.step(NetEvent::Outgoing(update(i as f32))).unwrap();
        assert_eq!(acts.len(), 1);
        match &acts[0] {
            Action::Publish(b) => published.push(b.clone()),
            other => panic!("unexpected {:?}", other),
        }
    }
    assert_eq!(published.len(), n as usize);
    for (i, b) in published.iter().enumerate() {
        assert_eq!(*b, encode(&update(i as f32)));
    }
}

#[test]
fn outgoing_messages_keep_their_order_between_network_events() {
    let mut d = running(1);
    let mut published = Vec::new();
    for i in 0..200u32 {
        let event = match i % 4 {
            0 => NetEvent::Subscribed(id((i % 7) as u8)),
            1 => NetEvent::Discovered(vec![vec![4, 10, 0, 0, (i % 5) as u8]]),
            2 => NetEvent::PublishRejected(PublishFailure::InsufficientPeers),
            _ => NetEvent::Ignored,
        };
        for a in d.step(event).unwrap() {
            assert!(!matches!(a, Action::Publish(_)));
        }
        for a in d.step(NetEvent::Outgoing(update(i as f32))).unwrap() {
            if let Action::Publish(b) = a {
                published.push(b);
            }
        }
    }
    assert_eq!(published.len(), 200);
    for (i, b) in published.iter().enumerate() {
        assert_eq!(*b, encode(&update(i as f32)));
    }
}

#[test]
fn publishing_without_peers_is_tolerated() {
    let mut d = running(1);
    assert!(d.step(NetEvent::PublishRejected(PublishFailure::InsufficientPeers)).unwrap().is_empty());
    assert_eq!(d.phase(), Phase::Running);
    assert!(d.step(NetEvent::Outgoing(update(2.0))).is_ok());
}

#[test]
fn other_publish_failure_is_fatal() {
    let mut d = running(1);
    assert!(matches!(d.step(NetEvent::PublishRejected(PublishFailure::Other)), Err(Fatal::Publish)));
}

#[test]
fn ignored_events_change_nothing() {
    let mut d = running(1);
    assert!(d.step(NetEvent::Ignored).unwrap().is_empty());
}

#[test]
fn local_identity_stays_the_same() {
    let mut d = running(9);
    d.step(NetEvent::Subscribed(id(2))).unwrap();
    d.step(NetEvent::Discovered(vec![vec![1, 2, 3]])).unwrap();
    d.step(NetEvent::Outgoing(update(1.0))).unwrap();
    assert_eq!(d.local().bytes, id(9).bytes);
}

#[test]
fn two_peers_exchange_an_update() {
    let mut a = running(0xa);
    let mut b = running(0xb);
    let ca = a.step(NetEvent::Subscribed(id(0xb))).unwrap();
    let cb = b.step(NetEvent::Subscribed(id(0xa))).unwrap();
    assert!(matches!(&ca[0], Action::Deliver(P2PEvent::PlayerConnected(p)) if p.bytes == id(0xb).bytes));
    assert!(matches!(&cb[0], Action::Deliver(P2PEvent::PlayerConnected(p)) if p.bytes == id(0xa).bytes));
    let sent = a.step(NetEvent::Outgoing(update(1.0))).unwrap();
    let data = match &sent[0] {
        Action::Publish(bytes) => bytes.clone(),
        other => panic!("unexpected {:?}", other),
    };
    let got = b.step(NetEvent::Message { source: Some(a.local().clone()), data }).unwrap();
    assert_eq!(got.len(), 1);
    match &got[0] {
        Action::Deliver(P2PEvent::PlayerUpdate(p, pos, vel)) => {
            assert_eq!(p.bytes, id(0xa).bytes);
            assert_eq!((f32::from_bits(pos.x), f32::from_bits(pos.y), f32::from_bits(pos.z)), (1.0, 0.0, 0.0));
            assert_eq!((f32::from_bits(vel.x), f32::from_bits(vel.y), f32::from_bits(vel.z)), (0.0, 0.0, 0.0));
        },
        other => panic!("unexpected {:?}", other),
    }
}
