use radioxide::bus::BroadcastBus;
use radioxide::relay::{
    buffer_layer_tick, forward_one, ingest_message, listener_poll, IngestOutcome, ListenerStep,
    LogEvent, Relay, RelayAction, RelayEvent, RelayMode,
};

#[test]
fn slow_listener_is_evicted_after_eleven_messages() {
    // three listeners; one never drains. When it has accumulated 11 queued
    // messages it is closed as a slow consumer; the other two continue.
    let mut bus = BroadcastBus::new(1000);
    let a = bus.subscribe();
    let b = bus.subscribe();
    let sleeper = bus.subscribe();
    for i in 0..11u8 {
        bus.publish(vec![i]);
        match listener_poll(&mut bus, a) {
            ListenerStep::Deliver(m) => assert_eq!(m, vec![i]),
            _ => panic!("the draining listener must get each message"),
        }
        match listener_poll(&mut bus, b) {
            ListenerStep::Deliver(m) => assert_eq!(m, vec![i]),
            _ => panic!("the draining listener must get each message"),
        }
    }
    assert_eq!(bus.backlog(sleeper), 11);
    match listener_poll(&mut bus, sleeper) {
        ListenerStep::Evicted => {},
        _ => panic!("a backlog of 11 must evict"),
    }
    assert_eq!(bus.subscriber_count(), 2);
    // the other two continue uninterrupted
    bus.publish(vec![99]);
    match listener_poll(&mut bus, a) {
        ListenerStep::Deliver(m) => assert_eq!(m, vec![99]),
        _ => panic!("the survivors keep receiving"),
    }
}

#[test]
fn ten_queued_messages_are_still_tolerated() {
    let mut bus = BroadcastBus::new(1000);
    let sub = bus.subscribe();
    for i in 0..10u8 {
        bus.publish(vec![i]);
    }
    match listener_poll(&mut bus, sub) {
        ListenerStep::Deliver(m) => assert_eq!(m, vec![0]),
        _ => panic!("ten queued messages are within tolerance"),
    }
}

#[test]
fn streamer_disconnect_tears_down_and_rebinds() {
    // a full epoch: accept, handshake, three listeners, streamer loss,
    // cleaning, rebind, and a fresh accept
    let mut relay = Relay::new();
    assert_eq!(relay.step(RelayEvent::StreamerConnected), vec![RelayAction::BeginHandshake]);
    assert_eq!(relay.mode, RelayMode::Handshaking);
    assert_eq!(
        relay.step(RelayEvent::HandshakeSucceeded),
        vec![RelayAction::BindListenerSocket, RelayAction::SpawnPipelineTasks]
    );
    assert_eq!(relay.mode, RelayMode::Active);
    assert_eq!(
        relay.step(RelayEvent::ListenerConnected),
        vec![RelayAction::SpawnListenerTask(0)]
    );
    assert_eq!(
        relay.step(RelayEvent::ListenerConnected),
        vec![RelayAction::SpawnListenerTask(1)]
    );
    assert_eq!(
        relay.step(RelayEvent::ListenerConnected),
        vec![RelayAction::SpawnListenerTask(2)]
    );
    let cleaning = relay.step(RelayEvent::StreamerEof);
    assert_eq!(
        cleaning,
        vec![
            RelayAction::AbortOrganizer,
            RelayAction::AbortBufferLayer,
            RelayAction::StopListenerAccept,
            RelayAction::AbortListenerTask(0),
            RelayAction::AbortListenerTask(1),
            RelayAction::AbortListenerTask(2),
            RelayAction::RetryBind,
        ]
    );
    assert_eq!(relay.mode, RelayMode::Cleaning);
    assert!(relay.listener_tasks.is_empty());
    // the OS may hold the port for a few retries
    assert_eq!(relay.step(RelayEvent::BindFailed), vec![RelayAction::RetryBind]);
    assert_eq!(relay.step(RelayEvent::BindSucceeded), vec![RelayAction::LogCleaningDone]);
    assert_eq!(relay.mode, RelayMode::Awaiting);
    // a new streamer can now connect
    assert_eq!(relay.step(RelayEvent::StreamerConnected), vec![RelayAction::BeginHandshake]);
}

#[test]
fn second_streamer_is_refused_while_active() {
    let mut relay = Relay::new();
    let _ = relay.step(RelayEvent::StreamerConnected);
    let _ = relay.step(RelayEvent::HandshakeSucceeded);
    assert_eq!(relay.mode, RelayMode::Active);
    assert_eq!(relay.step(RelayEvent::StreamerConnected), Vec::<RelayAction>::new());
    assert_eq!(relay.mode, RelayMode::Active);
    // nor during cleaning
    let _ = relay.step(RelayEvent::StreamerEof);
    assert_eq!(relay.step(RelayEvent::StreamerConnected), Vec::<RelayAction>::new());
    assert_eq!(relay.mode, RelayMode::Cleaning);
}

#[test]
fn failed_handshake_returns_to_awaiting() {
    let mut relay = Relay::new();
    let _ = relay.step(RelayEvent::StreamerConnected);
    assert_eq!(relay.step(RelayEvent::HandshakeFailed), Vec::<RelayAction>::new());
    assert_eq!(relay.mode, RelayMode::Awaiting);
}

#[test]
fn dead_task_triggers_cleaning_too() {
    let mut relay = Relay::new();
    let _ = relay.step(RelayEvent::StreamerConnected);
    let _ = relay.step(RelayEvent::HandshakeSucceeded);
    let actions = relay.step(RelayEvent::TaskStopped);
    assert_eq!(relay.mode, RelayMode::Cleaning);
    assert_eq!(actions.last(), Some(&RelayAction::RetryBind));
}

#[test]
fn bottleneck_is_logged_and_cleared() {
    let mut relay = Relay::new();
    // nobody listens: nothing is checked
    assert_eq!(relay.status_tick(5, 0), Vec::<LogEvent>::new());
    // one listener, deep queue: congestion is logged once with the depth
    assert_eq!(
        relay.status_tick(5, 1),
        vec![LogEvent::Bottleneck(5), LogEvent::ListenerCount(1)]
    );
    // still congested at depth 2: nothing new to say
    assert_eq!(relay.status_tick(2, 1), Vec::<LogEvent>::new());
    // drained: the all-clear is logged
    assert_eq!(relay.status_tick(0, 1), vec![LogEvent::FlawlessAgain]);
    // listener count changes are reported
    assert_eq!(relay.status_tick(0, 3), vec![LogEvent::ListenerCount(3)]);
}

#[test]
fn ingest_publishes_frames_and_reports_eof() {
    let mut bus = BroadcastBus::new(10);
    let sub = bus.subscribe();
    match ingest_message(&mut bus, Some(b"frame".to_vec())) {
        IngestOutcome::Published => {},
        IngestOutcome::Eof => panic!("a frame is not the end"),
    }
    match ingest_message(&mut bus, None) {
        IngestOutcome::Eof => {},
        IngestOutcome::Published => panic!("the end is not a frame"),
    }
    assert_eq!(bus.drain(sub), vec![b"frame".to_vec()]);
}

#[test]
fn buffer_layer_moves_a_burst_downstream() {
    let mut ingress = BroadcastBus::new(100);
    let tap = ingress.subscribe();
    let mut egress = BroadcastBus::new(100);
    let out = egress.subscribe();
    ingress.publish(b"a".to_vec());
    ingress.publish(b"b".to_vec());
    ingress.publish(b"c".to_vec());
    let n = buffer_layer_tick(&mut ingress, tap, &mut egress);
    assert_eq!(n, 3);
    assert_eq!(egress.drain(out), vec![b"a".to_vec(), b"b".to_vec(), b"c".to_vec()]);
    // the burst drained the upstream subscription
    assert_eq!(ingress.backlog(tap), 0);
}

#[test]
fn organizer_forwards_one_message_per_turn() {
    let mut ingress = BroadcastBus::new(100);
    let tap = ingress.subscribe();
    let mut middle = BroadcastBus::new(100);
    let out = middle.subscribe();
    ingress.publish(b"a".to_vec());
    ingress.publish(b"b".to_vec());
    assert!(forward_one(&mut ingress, tap, &mut middle));
    assert!(forward_one(&mut ingress, tap, &mut middle));
    assert!(!forward_one(&mut ingress, tap, &mut middle));
    assert_eq!(middle.drain(out), vec![b"a".to_vec(), b"b".to_vec()]);
}
