use radioxide::bus::{BroadcastBus, RecvResult};

#[test]
fn messages_arrive_in_publish_order() {
    let mut bus = BroadcastBus::new(100);
    let sub = bus.subscribe();
    bus.publish(b"one".to_vec());
    bus.publish(b"two".to_vec());
    bus.publish(b"three".to_vec());
    match bus.recv(sub) {
        RecvResult::Msg(m) => assert_eq!(m, b"one".to_vec()),
        _ => panic!("expected a message"),
    }
    match bus.recv(sub) {
        RecvResult::Msg(m) => assert_eq!(m, b"two".to_vec()),
        _ => panic!("expected a message"),
    }
    match bus.recv(sub) {
        RecvResult::Msg(m) => assert_eq!(m, b"three".to_vec()),
        _ => panic!("expected a message"),
    }
    match bus.recv(sub) {
        RecvResult::Empty => {},
        _ => panic!("expected the head"),
    }
}

#[test]
fn a_subscriber_sees_only_what_follows_its_attach() {
    let mut bus = BroadcastBus::new(100);
    bus.publish(b"before".to_vec());
    let sub = bus.subscribe();
    bus.publish(b"after".to_vec());
    let msgs = bus.drain(sub);
    assert_eq!(msgs, vec![b"after".to_vec()]);
}

#[test]
fn every_subscriber_gets_every_message() {
    let mut bus = BroadcastBus::new(100);
    let a = bus.subscribe();
    let b = bus.subscribe();
    bus.publish(b"x".to_vec());
    bus.publish(b"y".to_vec());
    assert_eq!(bus.drain(a), vec![b"x".to_vec(), b"y".to_vec()]);
    assert_eq!(bus.drain(b), vec![b"x".to_vec(), b"y".to_vec()]);
}

#[test]
fn overflow_lags_the_slow_subscriber_with_a_gap() {
    let mut bus = BroadcastBus::new(2);
    let sub = bus.subscribe();
    bus.publish(b"a".to_vec());
    bus.publish(b"b".to_vec());
    bus.publish(b"c".to_vec());
    // capacity 2: "a" fell out of the window; the subscriber learns it
    // skipped one message and continues from "b" — a gap, no reordering
    match bus.recv(sub) {
        RecvResult::Lagged(n) => assert_eq!(n, 1),
        _ => panic!("expected a lag"),
    }
    match bus.recv(sub) {
        RecvResult::Msg(m) => assert_eq!(m, b"b".to_vec()),
        _ => panic!("expected a message"),
    }
    match bus.recv(sub) {
        RecvResult::Msg(m) => assert_eq!(m, b"c".to_vec()),
        _ => panic!("expected a message"),
    }
}

#[test]
fn publisher_never_blocks_on_a_full_window() {
    let mut bus = BroadcastBus::new(3);
    let _sub = bus.subscribe();
    for i in 0..50u8 {
        bus.publish(vec![i]);
    }
    assert_eq!(bus.window_len(), 3);
}

#[test]
fn backlog_counts_undelivered_messages() {
    let mut bus = BroadcastBus::new(100);
    let sub = bus.subscribe();
    assert_eq!(bus.backlog(sub), 0);
    bus.publish(b"a".to_vec());
    bus.publish(b"b".to_vec());
    assert_eq!(bus.backlog(sub), 2);
    let _ = bus.recv(sub);
    assert_eq!(bus.backlog(sub), 1);
}

#[test]
fn receiver_counting_follows_subscriptions() {
    let mut bus = BroadcastBus::new(10);
    assert!(!bus.has_receivers());
    let a = bus.subscribe();
    let _b = bus.subscribe();
    assert_eq!(bus.subscriber_count(), 2);
    bus.unsubscribe(a);
    assert_eq!(bus.subscriber_count(), 1);
    assert!(bus.has_receivers());
}
