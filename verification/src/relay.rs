//! The relay's streamer-slot state machine and its pipeline decisions.
//!
//! The relay holds at most one streamer per epoch. Its supervisor walks the
//! modes Awaiting -> Handshaking -> Active -> Cleaning -> Awaiting; `step`
//! maps one event to the next mode and the actions the runtime must carry
//! out. The data path — ingest, buffer layer, per-listener fan-out — runs
//! over the broadcast bus.

use vstd::prelude::*;

use crate::bus::{publish_one, publish_seq, BroadcastBus, RecvResult, Subscriber};
use crate::sample::MAX_TOLERATED_MESSAGE_COUNT;

verus! {

/// The streamer slot's mode.
#[derive(Clone, Copy, Debug, PartialEq, Eq, Structural)]
pub enum RelayMode {
    /// No streamer: the listener socket is unbound, the streamer socket
    /// accepts.
    Awaiting,
    /// A streamer's TCP connection is accepted; TLS and WebSocket upgrade
    /// are in flight.
    Handshaking,
    /// The streamer is live: the listener socket is bound and the pipeline
    /// tasks run.
    Active,
    /// The epoch is being torn down; the listener socket is being rebound.
    Cleaning,
}

/// One event the relay supervisor reacts to.
#[derive(Clone, Copy, Debug, PartialEq, Eq, Structural)]
pub enum RelayEvent {
    /// The streamer socket accepted a TCP connection.
    StreamerConnected,
    /// TLS and WebSocket upgrade of the streamer succeeded.
    HandshakeSucceeded,
    /// TLS or WebSocket upgrade of the streamer failed.
    HandshakeFailed,
    /// The listener socket accepted and upgraded a listener.
    ListenerConnected,
    /// The streamer's WebSocket reached end of stream.
    StreamerEof,
    /// A pipeline task finished unexpectedly.
    TaskStopped,
    /// Rebinding the listener socket succeeded.
    BindSucceeded,
    /// Rebinding the listener socket failed; the OS still holds the port.
    BindFailed,
}

/// One action the runtime must carry out after a step.
#[derive(Clone, Copy, Debug, PartialEq, Eq, Structural)]
pub enum RelayAction {
    /// Run TLS accept and WebSocket upgrade on the streamer connection.
    BeginHandshake,
    /// Bind the listener socket.
    BindListenerSocket,
    /// Spawn the ingress reader, message organizer, buffer layer and status
    /// checker.
    SpawnPipelineTasks,
    /// Spawn a stream task for the new listener, registered under this
    /// identifier.
    SpawnListenerTask(u64),
    /// Abort the message organizer.
    AbortOrganizer,
    /// Abort the buffer layer.
    AbortBufferLayer,
    /// Signal the listener-accept loop to stop.
    StopListenerAccept,
    /// Abort the registered listener task.
    AbortListenerTask(u64),
    /// Wait briefly, then try to rebind the listener socket.
    RetryBind,
    /// Log that cleaning is done; a new streamer may connect.
    LogCleaningDone,
}

/// The abort actions for a task registry, in registry order.
pub open spec fn abort_actions(tasks: Seq<u64>) -> Seq<RelayAction> {
    tasks.map_values(|t: u64| RelayAction::AbortListenerTask(t))
}

/// The exact actions of one teardown: organizer first, then the buffer
/// layer, then the accept loop, then every registered listener task, then
/// the rebind.
pub open spec fn cleaning_actions(tasks: Seq<u64>) -> Seq<RelayAction> {
    seq![
        RelayAction::AbortOrganizer,
        RelayAction::AbortBufferLayer,
        RelayAction::StopListenerAccept,
    ] + abort_actions(tasks) + seq![RelayAction::RetryBind]
}

/// Teardown completeness: the cleaning sequence aborts every task of the
/// registry — one action per registered listener, plus the four fixed ones.
pub proof fn lemma_teardown_covers(tasks: Seq<u64>)
    ensures
        cleaning_actions(tasks).len() == tasks.len() + 4,
        forall|t: u64|
            tasks.contains(t) ==> #[trigger] cleaning_actions(tasks).contains(
                RelayAction::AbortListenerTask(t),
            ),
{
    assert forall|t: u64| tasks.contains(t) implies #[trigger] cleaning_actions(tasks).contains(
        RelayAction::AbortListenerTask(t),
    ) by {
        let i = choose|i: int| 0 <= i < tasks.len() && tasks[i] == t;
        assert(cleaning_actions(tasks)[i + 3] == RelayAction::AbortListenerTask(t));
    }
}

/// The relay supervisor's state.
pub struct Relay {
    /// The streamer slot's mode.
    pub mode: RelayMode,
    /// The registry of per-listener stream tasks of this epoch.
    pub listener_tasks: Vec<u64>,
    /// The identifier the next listener task will get.
    pub next_task_id: u64,
    /// Whether the egress bus was last seen congested.
    pub bottleneck: bool,
    /// The subscriber count last reported.
    pub listeners_seen: usize,
}

impl Relay {
    /// A relay with no streamer and an empty registry.
    pub fn new() -> (relay: Relay)
        ensures
            relay.mode is Awaiting,
            relay.listener_tasks@.len() == 0,
            relay.next_task_id == 0,
            relay.bottleneck == false,
            relay.listeners_seen == 0,
    {
        Relay {
            mode: RelayMode::Awaiting,
            listener_tasks: Vec::new(),
            next_task_id: 0,
            bottleneck: false,
            listeners_seen: 0,
        }
    }

    /// One supervisor step: reacts to an event with the next mode and the
    /// actions to carry out.
    ///
    /// The contract pins every transition. In particular: a streamer
    /// connection is handled only in Awaiting — while a session is Active
    /// or Cleaning a further streamer connection changes nothing; and on
    /// streamer end-of-stream (or a task dying) the whole teardown is
    /// emitted at once, with one abort per registered listener, and the
    /// registry empties.
    pub fn step(&mut self, event: RelayEvent) -> (actions: Vec<RelayAction>)
        requires
            old(self).next_task_id < u64::MAX,
        ensures
            // a streamer is accepted only while Awaiting
            old(self).mode is Awaiting && event is StreamerConnected ==> final(self).mode
                is Handshaking && actions@ =~= seq![RelayAction::BeginHandshake],
            // a successful upgrade starts the epoch: bind the listener
            // socket and spawn the pipeline
            old(self).mode is Handshaking && event is HandshakeSucceeded ==> final(self).mode
                is Active && actions@ =~= seq![
                RelayAction::BindListenerSocket,
                RelayAction::SpawnPipelineTasks,
            ],
            // a failed upgrade refuses this peer only
            old(self).mode is Handshaking && event is HandshakeFailed ==> final(self).mode
                is Awaiting && actions@ =~= Seq::<RelayAction>::empty(),
            // each accepted listener gets a registered stream task
            old(self).mode is Active && event is ListenerConnected ==> final(self).mode is Active
                && actions@ =~= seq![RelayAction::SpawnListenerTask(old(self).next_task_id)]
                && final(self).listener_tasks@ =~= old(self).listener_tasks@.push(
                old(self).next_task_id,
            ) && final(self).next_task_id == old(self).next_task_id + 1,
            // streamer loss or a dead task tears the epoch down: every
            // registered listener task is aborted and the registry empties
            old(self).mode is Active && (event is StreamerEof || event is TaskStopped) ==> final(self).mode is Cleaning && actions@ =~= cleaning_actions(old(self).listener_tasks@) && final(self).listener_tasks@ =~= Seq::<u64>::empty(),
            // while Active, a further streamer connection is not processed
            old(self).mode is Active && event is StreamerConnected ==> *final(self) == *old(self)
                && actions@ =~= Seq::<RelayAction>::empty(),
            // nor is one processed before cleaning has completed
            old(self).mode is Cleaning && event is StreamerConnected ==> *final(self) == *old(self)
                && actions@ =~= Seq::<RelayAction>::empty(),
            // the rebind is retried until the OS releases the port
            old(self).mode is Cleaning && event is BindFailed ==> final(self).mode is Cleaning
                && actions@ =~= seq![RelayAction::RetryBind],
            // a successful rebind completes the cleaning: a new epoch may
            // begin
            old(self).mode is Cleaning && event is BindSucceeded ==> final(self).mode is Awaiting
                && actions@ =~= seq![RelayAction::LogCleaningDone],
            // everything else changes nothing
            !(old(self).mode is Awaiting && event is StreamerConnected) && !(old(self).mode
                is Handshaking && (event is HandshakeSucceeded || event is HandshakeFailed)) && !(
            old(self).mode is Active && (event is ListenerConnected || event is StreamerEof
                || event is TaskStopped)) && !(old(self).mode is Cleaning && (event
                is BindSucceeded || event is BindFailed)) ==> *final(self) == *old(self) && actions@
                =~= Seq::<RelayAction>::empty(),
            // the supervision fields and the registry move only as stated
            final(self).bottleneck == old(self).bottleneck,
            final(self).listeners_seen == old(self).listeners_seen,
            final(self).next_task_id == (if old(self).mode is Active && event
                is ListenerConnected {
                old(self).next_task_id + 1
            } else {
                old(self).next_task_id as int
            }),
            final(self).listener_tasks@ == (if old(self).mode is Active && event
                is ListenerConnected {
                old(self).listener_tasks@.push(old(self).next_task_id)
            } else if old(self).mode is Active && (event is StreamerEof || event is TaskStopped) {
                Seq::<u64>::empty()
            } else {
                old(self).listener_tasks@
            }),
    {
        let mut actions: Vec<RelayAction> = Vec::new();
        match (self.mode, event) {
            (RelayMode::Awaiting, RelayEvent::StreamerConnected) => {
                self.mode = RelayMode::Handshaking;
                actions.push(RelayAction::BeginHandshake);
            },
            (RelayMode::Handshaking, RelayEvent::HandshakeSucceeded) => {
                self.mode = RelayMode::Active;
                actions.push(RelayAction::BindListenerSocket);
                actions.push(RelayAction::SpawnPipelineTasks);
            },
            (RelayMode::Handshaking, RelayEvent::HandshakeFailed) => {
                self.mode = RelayMode::Awaiting;
            },
            (RelayMode::Active, RelayEvent::ListenerConnected) => {
                actions.push(RelayAction::SpawnListenerTask(self.next_task_id));
                self.listener_tasks.push(self.next_task_id);
                self.next_task_id = self.next_task_id + 1;
            },
            (RelayMode::Active, RelayEvent::StreamerEof)
            | (RelayMode::Active, RelayEvent::TaskStopped) => {
                self.mode = RelayMode::Cleaning;
                actions.push(RelayAction::AbortOrganizer);
                actions.push(RelayAction::AbortBufferLayer);
                actions.push(RelayAction::StopListenerAccept);
                let mut k: usize = 0;
                while k < self.listener_tasks.len()
                    invariant
                        k <= self.listener_tasks@.len(),
                        actions@ =~= seq![
                            RelayAction::AbortOrganizer,
                            RelayAction::AbortBufferLayer,
                            RelayAction::StopListenerAccept,
                        ] + abort_actions(self.listener_tasks@.take(k as int)),
                    decreases self.listener_tasks@.len() - k,
                {
                    actions.push(RelayAction::AbortListenerTask(self.listener_tasks[k]));
                    proof {
                        assert(abort_actions(self.listener_tasks@.take(k + 1)) =~= abort_actions(
                            self.listener_tasks@.take(k as int),
                        ).push(RelayAction::AbortListenerTask(self.listener_tasks@[k as int])));
                    }
                    k = k + 1;
                }
                proof {
                    assert(self.listener_tasks@.take(self.listener_tasks@.len() as int)
                        =~= self.listener_tasks@);
                }
                actions.push(RelayAction::RetryBind);
                self.listener_tasks = Vec::new();
                proof {
                    assert(actions@ =~= cleaning_actions(old(self).listener_tasks@));
                }
            },
            (RelayMode::Cleaning, RelayEvent::BindFailed) => {
                actions.push(RelayAction::RetryBind);
            },
            (RelayMode::Cleaning, RelayEvent::BindSucceeded) => {
                self.mode = RelayMode::Awaiting;
                actions.push(RelayAction::LogCleaningDone);
            },
            _ => {},
        }
        actions
    }

    /// One supervision tick over the egress bus: reports congestion, its
    /// passing, and changes of the subscriber count. With no receivers
    /// nothing is checked.
    pub fn status_tick(&mut self, egress_depth: usize, receiver_count: usize) -> (logs: Vec<
        LogEvent,
    >)
        ensures
            final(self).mode == old(self).mode,
            final(self).listener_tasks == old(self).listener_tasks,
            final(self).next_task_id == old(self).next_task_id,
            receiver_count == 0 ==> *final(self) == *old(self) && logs@ =~= Seq::<
                LogEvent,
            >::empty(),
            receiver_count != 0 ==> final(self).bottleneck == (if egress_depth > 2 {
                true
            } else if old(self).bottleneck && egress_depth < 2 {
                false
            } else {
                old(self).bottleneck
            }) && final(self).listeners_seen == receiver_count && logs@ =~= (if egress_depth > 2 {
                seq![LogEvent::Bottleneck(egress_depth)]
            } else {
                Seq::<LogEvent>::empty()
            }) + (if old(self).bottleneck && egress_depth < 2 {
                seq![LogEvent::FlawlessAgain]
            } else {
                Seq::<LogEvent>::empty()
            }) + (if old(self).listeners_seen != receiver_count {
                seq![LogEvent::ListenerCount(receiver_count)]
            } else {
                Seq::<LogEvent>::empty()
            }),
    {
        let mut logs: Vec<LogEvent> = Vec::new();
        if receiver_count != 0 {
            if egress_depth > 2 {
                self.bottleneck = true;
                logs.push(LogEvent::Bottleneck(egress_depth));
            }
            if self.bottleneck && egress_depth < 2 {
                self.bottleneck = false;
                logs.push(LogEvent::FlawlessAgain);
            }
            if self.listeners_seen != receiver_count {
                self.listeners_seen = receiver_count;
                logs.push(LogEvent::ListenerCount(receiver_count));
            }
        }
        logs
    }
}

/// One line of the relay's log.
#[derive(Clone, Copy, Debug, PartialEq, Eq, Structural)]
pub enum LogEvent {
    /// The egress bus holds this many undelivered messages.
    Bottleneck(usize),
    /// The congestion passed.
    FlawlessAgain,
    /// The subscriber count changed to this value.
    ListenerCount(usize),
}

/// What one poll of a listener's stream task decides.
pub enum ListenerStep {
    /// The backlog exceeded the tolerated count: the subscriber was removed
    /// and its socket is to be closed as a slow consumer.
    Evicted,
    /// Deliver this message to the listener's socket.
    Deliver(Vec<u8>),
    /// The subscriber lagged out of the window; this many messages were
    /// skipped.
    Gap(u64),
    /// Nothing is pending.
    Idle,
}

/// One poll of a per-listener stream task. A subscriber whose backlog
/// exceeds `MAX_TOLERATED_MESSAGE_COUNT` is evicted on the spot — before
/// anything more is delivered — and closed as a slow consumer; otherwise the
/// next pending message is handed out in publish order.
pub fn listener_poll(bus: &mut BroadcastBus, id: usize) -> (step: ListenerStep)
    requires
        old(bus).wf(),
        id < old(bus).subscribers().len(),
    ensures
        final(bus).wf(),
        final(bus).contents() == old(bus).contents(),
        final(bus).base_index() == old(bus).base_index(),
        final(bus).published() == old(bus).published(),
        final(bus).cap() == old(bus).cap(),
        ({
            let cursor = old(bus).subscribers()[id as int].cursor as int;
            let alive = old(bus).subscribers()[id as int].alive;
            let base = old(bus).base_index();
            if old(bus).published() - cursor > MAX_TOLERATED_MESSAGE_COUNT {
                step is Evicted && final(bus).subscribers() =~= old(bus).subscribers().update(
                    id as int,
                    Subscriber { cursor: cursor as u64, alive: false },
                )
            } else if cursor == old(bus).published() {
                step is Idle && final(bus).subscribers() == old(bus).subscribers()
            } else if cursor < base {
                (step matches ListenerStep::Gap(n) && n == base - cursor) && final(
                    bus
                ).subscribers() =~= old(bus).subscribers().update(
                    id as int,
                    Subscriber { cursor: base as u64, alive },
                )
            } else {
                (step matches ListenerStep::Deliver(m) && m@ == old(bus).contents()[cursor - base])
                    && final(bus).subscribers() =~= old(bus).subscribers().update(
                    id as int,
                    Subscriber { cursor: (cursor + 1) as u64, alive },
                )
            }
        }),
{
    if bus.backlog(id) > (MAX_TOLERATED_MESSAGE_COUNT as u64) {
        bus.unsubscribe(id);
        return ListenerStep::Evicted;
    }
    match bus.recv(id) {
        RecvResult::Empty => ListenerStep::Idle,
        RecvResult::Lagged(n) => ListenerStep::Gap(n),
        RecvResult::Msg(m) => ListenerStep::Deliver(m),
    }
}

/// Slow-consumer eviction: a subscriber that never drains is evicted by the
/// poll right after the publish that pushes its backlog past the tolerated
/// count — each publish grows every backlog by one, and a backlog beyond
/// `MAX_TOLERATED_MESSAGE_COUNT` makes the next poll evict.
pub proof fn lemma_slow_consumer_evicted(
    published: int,
    cursor: int,
)
    requires
        published - cursor == MAX_TOLERATED_MESSAGE_COUNT as int,
    ensures
        (published + 1) - cursor > MAX_TOLERATED_MESSAGE_COUNT as int,
{
}

/// What the relay's ingest does with one frame read from the streamer's
/// socket.
pub enum IngestOutcome {
    /// The frame was published to the ingress bus.
    Published,
    /// End of stream: the supervisor must be told the streamer is gone.
    Eof,
}

/// Ingests one read from the streamer's WebSocket: a frame is published to
/// the ingress bus; end of stream touches nothing and reports `Eof`.
pub fn ingest_message(bus: &mut BroadcastBus, frame: Option<Vec<u8>>) -> (outcome: IngestOutcome)
    requires
        old(bus).wf(),
        old(bus).published() < u64::MAX,
    ensures
        final(bus).wf(),
        final(bus).cap() == old(bus).cap(),
        final(bus).subscribers() == old(bus).subscribers(),
        ({
            match frame {
                Some(m) => outcome is Published && final(bus).published() == old(bus).published()
                    + 1 && (final(bus).contents(), final(bus).base_index()) == publish_one(
                    old(bus).contents(),
                    old(bus).base_index(),
                    old(bus).cap(),
                    m@,
                ),
                None => outcome is Eof && *final(bus) == *old(bus),
            }
        }),
{
    match frame {
        Some(m) => {
            bus.publish(m);
            IngestOutcome::Published
        },
        None => IngestOutcome::Eof,
    }
}

/// One burst of the buffer layer: everything pending on the upstream bus
/// for its subscriber is republished downstream, in publish order.
pub fn buffer_layer_tick(src: &mut BroadcastBus, sub: usize, dst: &mut BroadcastBus) -> (n: usize)
    requires
        old(src).wf(),
        sub < old(src).subscribers().len(),
        old(src).subscribers()[sub as int].cursor >= old(src).base_index(),
        old(dst).wf(),
        old(dst).published() + old(src).published() - old(src).subscribers()[sub as int].cursor
            <= u64::MAX,
    ensures
        final(src).wf(),
        final(dst).wf(),
        final(dst).cap() == old(dst).cap(),
        final(dst).subscribers() == old(dst).subscribers(),
        final(src).contents() == old(src).contents(),
        final(src).base_index() == old(src).base_index(),
        final(src).published() == old(src).published(),
        final(src).subscribers() =~= old(src).subscribers().update(
            sub as int,
            Subscriber {
                cursor: old(src).published() as u64,
                alive: old(src).subscribers()[sub as int].alive,
            },
        ),
        ({
            let pending = old(src).contents().skip(
                old(src).subscribers()[sub as int].cursor - old(src).base_index(),
            );
            n == pending.len() && (final(dst).contents(), final(dst).base_index()) == publish_seq(
                old(dst).contents(),
                old(dst).base_index(),
                old(dst).cap(),
                pending,
            )
        }),
{
    proof {
        src.lemma_window_span();
        src.lemma_wf_facts();
        dst.lemma_window_span();
    }
    let mut msgs = src.drain(sub);
    let ghost pending = old(src).contents().skip(
        old(src).subscribers()[sub as int].cursor - old(src).base_index(),
    );
    proof {
        assert(crate::bus::msgs_of(msgs@) == pending);
    }
    let n = msgs.len();
    let mut k: usize = 0;
    let ghost dst0 = *dst;
    proof {
        assert(pending.skip(0) =~= pending);
    }
    while k < n
        invariant
            0 <= k <= n == pending.len(),
            msgs@.len() == n - k,
            crate::bus::msgs_of(msgs@) =~= pending.skip(k as int),
            dst.wf(),
            dst.cap() == dst0.cap(),
            dst.subscribers() == dst0.subscribers(),
            dst.published() == dst0.published() + k,
            dst0.published() + pending.len() <= u64::MAX,
            publish_seq(dst0.contents(), dst0.base_index(), dst0.cap(), pending) == publish_seq(
                dst.contents(),
                dst.base_index(),
                dst.cap(),
                pending.skip(k as int),
            ),
        decreases n - k,
    {
        let m = msgs.remove(0);
        proof {
            assert(m@ == pending.skip(k as int)[0]);
            assert(crate::bus::msgs_of(msgs@) =~= pending.skip(k as int).skip(1));
            assert(pending.skip(k as int).skip(1) =~= pending.skip(k + 1));
        }
        dst.publish(m);
        k = k + 1;
    }
    proof {
        assert(pending.skip(n as int) =~= Seq::<Seq<u8>>::empty());
    }
    n
}

/// One iteration of the message organizer: forwards at most one message
/// from its upstream subscription downstream, in publish order.
pub fn forward_one(src: &mut BroadcastBus, sub: usize, dst: &mut BroadcastBus) -> (forwarded:
    bool)
    requires
        old(src).wf(),
        sub < old(src).subscribers().len(),
        old(dst).wf(),
        old(dst).published() < u64::MAX,
    ensures
        final(src).wf(),
        final(dst).wf(),
        final(dst).cap() == old(dst).cap(),
        final(dst).subscribers() == old(dst).subscribers(),
        final(src).contents() == old(src).contents(),
        final(src).base_index() == old(src).base_index(),
        final(src).published() == old(src).published(),
        ({
            let cursor = old(src).subscribers()[sub as int].cursor as int;
            let base = old(src).base_index();
            if base <= cursor < old(src).published() {
                forwarded && final(dst).published() == old(dst).published() + 1 && (final(dst).contents(), final(dst).base_index()) == publish_one(
                    old(dst).contents(),
                    old(dst).base_index(),
                    old(dst).cap(),
                    old(src).contents()[cursor - base],
                )
            } else {
                !forwarded && *final(dst) == *old(dst)
            }
        }),
{
    proof {
        src.lemma_window_span();
        src.lemma_wf_facts();
    }
    match src.recv(sub) {
        RecvResult::Msg(m) => {
            dst.publish(m);
            true
        },
        RecvResult::Lagged(_) => false,
        RecvResult::Empty => false,
    }
}

} // verus!
