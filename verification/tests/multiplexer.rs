use vessels::channel::{ChannelEnd, ChannelError, Endpoint, Frame, Role};
use vessels::kind::{ConstructError, DeconstructError, Kind};
use vessels::wire::{ForkHandle, Primitive, WireItem};

#[test]
fn fork_handles_strictly_increase() {
    let mut e = Endpoint::new(Role::Initiator);
    let mut ids: Vec<u64> = Vec::new();
    for _ in 0..5 {
        ids.push(e.fork_handle().id);
    }
    for k in 1..ids.len() {
        assert!(ids[k - 1] < ids[k]);
    }
    for i in 0..ids.len() {
        for j in 0..ids.len() {
            if i != j {
                assert_ne!(ids[i], ids[j]);
            }
        }
    }
}

#[test]
fn fork_handles_of_the_two_sides_never_collide() {
    let mut a = Endpoint::new(Role::Initiator);
    let mut b = Endpoint::new(Role::Responder);
    let mut left: Vec<u64> = Vec::new();
    let mut right: Vec<u64> = Vec::new();
    for _ in 0..4 {
        left.push(a.fork_handle().id);
        right.push(b.fork_handle().id);
    }
    for x in &left {
        assert_ne!(*x, 0, "the root id is never allocated");
        for y in &right {
            assert_ne!(x, y);
        }
    }
}

#[test]
fn order_within_one_fork_is_preserved() {
    let mut e = Endpoint::new(Role::Responder);
    for x in [10u64, 20, 30] {
        e.deliver(Frame { fork: 0, item: WireItem::Value(Primitive::Uint(x)) }).unwrap();
    }
    for x in [10u64, 20, 30] {
        match e.next_on(0).unwrap() {
            Some(WireItem::Value(Primitive::Uint(y))) => assert_eq!(x, y),
            other => panic!("wrong item: {:?}", other),
        }
    }
    assert_eq!(e.next_on(0).unwrap(), None);
}

#[test]
fn deliver_demultiplexes_by_fork_id() {
    let mut e = Endpoint::new(Role::Initiator);
    e.deliver(Frame { fork: 4, item: WireItem::Value(Primitive::Uint(44)) }).unwrap();
    e.deliver(Frame { fork: 2, item: WireItem::Value(Primitive::Uint(22)) }).unwrap();
    assert!(matches!(
        e.next_on(2).unwrap(),
        Some(WireItem::Value(Primitive::Uint(22)))
    ));
    assert!(matches!(
        e.next_on(4).unwrap(),
        Some(WireItem::Value(Primitive::Uint(44)))
    ));
    assert_eq!(e.next_on(2).unwrap(), None);
}

#[test]
fn take_frames_tags_each_item_with_its_fork() {
    let mut e = Endpoint::new(Role::Initiator);
    e.send_on(0, WireItem::Request).unwrap();
    e.send_on(0, WireItem::Value(Primitive::Bool(true))).unwrap();
    let frames = e.take_frames(0).unwrap();
    assert_eq!(frames.len(), 2);
    assert_eq!(frames[0].fork, 0);
    assert_eq!(frames[0].item, WireItem::Request);
    assert_eq!(frames[1].fork, 0);
    assert_eq!(frames[1].item, WireItem::Value(Primitive::Bool(true)));
    assert!(e.take_frames(0).unwrap().is_empty());
}

#[test]
fn unknown_fork_is_a_typed_error() {
    let mut e = Endpoint::new(Role::Initiator);
    assert_eq!(e.send_on(9, WireItem::Request), Err(ChannelError::UnknownFork));
    assert_eq!(e.next_on(9), Err(ChannelError::UnknownFork));
    assert!(matches!(e.take_frames(9), Err(ChannelError::UnknownFork)));
}

#[test]
fn closed_channel_refuses_sends_but_keeps_reads() {
    let mut c = ChannelEnd::new();
    c.deliver(WireItem::Value(Primitive::Uint(5)));
    c.close();
    assert_eq!(c.send(WireItem::Request), Err(ChannelError::Closed));
    assert!(matches!(c.next(), Some(WireItem::Value(Primitive::Uint(5)))));
}

#[test]
fn deconstruct_on_closed_channel_reports_send_failure() {
    let mut c = ChannelEnd::new();
    c.close();
    assert_eq!(77u64.deconstruct(&mut c), Err(DeconstructError::Send));
}

#[test]
fn construct_from_dry_channel_reports_insufficient() {
    let mut c = ChannelEnd::new();
    assert_eq!(
        <u64 as Kind>::construct(&mut c),
        Err(ConstructError::Insufficient { got: 0, expected: 1 })
    );
}

#[test]
fn construct_of_wrong_shape_reports_unexpected() {
    let mut c = ChannelEnd::new();
    c.deliver(WireItem::Value(Primitive::Bool(true)));
    assert_eq!(<u64 as Kind>::construct(&mut c), Err(ConstructError::Unexpected));
}

#[test]
fn fork_value_and_get_fork_round_trip() {
    let mut e = Endpoint::new(Role::Initiator);
    let h = e.fork_value(123u64).unwrap();
    // carry the forked data to the peer
    let mut peer = Endpoint::new(Role::Responder);
    for frame in e.take_frames(h.id).unwrap() {
        peer.deliver(frame).unwrap();
    }
    let got: u64 = peer.get_fork(h).unwrap();
    assert_eq!(got, 123);
}

#[test]
fn get_fork_before_arrival_reports_insufficient_and_can_retry() {
    let mut peer = Endpoint::new(Role::Responder);
    let h = ForkHandle { id: 1 };
    let early: Result<u64, ConstructError> = peer.get_fork(h);
    assert_eq!(early, Err(ConstructError::Insufficient { got: 0, expected: 1 }));
    peer.deliver(Frame { fork: 1, item: WireItem::Value(Primitive::Uint(8)) }).unwrap();
    let late: Result<u64, ConstructError> = peer.get_fork(h);
    assert_eq!(late, Ok(8));
}
