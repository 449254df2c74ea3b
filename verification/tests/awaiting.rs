use aurpc::addr::PeerAddr;
use aurpc::awaiting::AwaitingRequestMap;
use futures::channel::oneshot;

fn local(port: u16) -> PeerAddr {
    // 0.0.0.0:port
    PeerAddr::V4 { ip4: 0, port }
}

#[test]
fn put_and_pop_returns_some() {
    let mut map = AwaitingRequestMap::default();
    let (sender, mut receiver) = oneshot::channel::<u8>();

    let socket = local(12345);
    let rid = map.put(socket, sender);

    let _ = map.pop(socket, rid).expect("empty entry");
    assert!(receiver.try_recv().is_err(), "channel not cancelled");
}

#[test]
fn just_pop_returns_none() {
    let mut map: AwaitingRequestMap<oneshot::Sender<u8>> = AwaitingRequestMap::default();

    let socket = local(12345);
    let rid = 0;

    assert!(map.pop(socket, rid).is_none(), "received something");
}

#[test]
fn put_hands_out_the_next_available_id() {
    let mut map = AwaitingRequestMap::new();
    let a = local(1);
    assert_eq!(map.put(a, 'a'), 0);
    assert_eq!(map.put(a, 'b'), 1);
    assert_eq!(map.put(a, 'c'), 2);
    assert_eq!(map.put(a, 'd'), 3);
    // Another address starts from the last id handed out, which is free for it.
    let b = local(2);
    assert_eq!(map.put(b, 'e'), 3);
    // A freed id behind the last one handed out is not reused before the
    // search wraps around.
    assert_eq!(map.pop(a, 1), Some('b'));
    assert_eq!(map.put(a, 'f'), 4);
    assert_eq!(map.pop(a, 3), Some('d'));
    assert_eq!(map.pop(b, 3), Some('e'));
}

#[test]
fn put_wraps_around_after_the_last_id() {
    let mut map = AwaitingRequestMap::new();
    let a = local(3);
    let mut older = map.put(a, 0u32);
    let mut newer = map.put(a, 1u32);
    assert_eq!((older, newer), (0, 1));
    // Keep two requests pending, so that each put moves on by one.
    while newer != 0xffff {
        assert!(map.pop(a, older).is_some());
        older = newer;
        newer = map.put(a, u32::from(newer) + 1);
        assert_eq!(newer, older + 1);
    }
    assert!(map.pop(a, older).is_some());
    // 0xffff is still pending; the search wraps to 0, which is free again.
    assert_eq!(map.put(a, 7), 0);
}

#[test]
fn pop_after_put_gives_back_the_sender_once() {
    let mut map = AwaitingRequestMap::new();
    let a = PeerAddr::V6 { ip6: 1, port: 80, flowinfo: 0, scope_id: 0 };
    let rid = map.put(a, 42u32);
    assert_eq!(map.pop(a, rid), Some(42));
    assert_eq!(map.pop(a, rid), None);
}

#[test]
fn pop_needs_the_same_address() {
    let mut map = AwaitingRequestMap::new();
    let a = PeerAddr::V6 { ip6: 1, port: 80, flowinfo: 0, scope_id: 0 };
    let other_scope = PeerAddr::V6 { ip6: 1, port: 80, flowinfo: 0, scope_id: 1 };
    let rid = map.put(a, 1u8);
    assert_eq!(map.pop(other_scope, rid), None);
    assert_eq!(map.pop(local(80), rid), None);
    assert_eq!(map.pop(a, rid), Some(1));
}

#[test]
fn ids_pending_for_one_address_are_distinct() {
    let mut map = AwaitingRequestMap::new();
    let a = local(9);
    let mut seen = Vec::new();
    for i in 0..300u32 {
        assert!(map.has_free_rid(a));
        let rid = map.put(a, i);
        assert!(!seen.contains(&rid));
        seen.push(rid);
    }
    assert_eq!(seen.last(), Some(&299));
    assert!(map.has_free_rid(local(10)));
}
